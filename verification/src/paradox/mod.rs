//! Reading and surgically editing Clausewitz (Paradox) script files.
//!
//! The rule the whole module follows: a mod author's formatting is theirs. We
//! parse to find out where a value lives, then rewrite only that byte range,
//! so comments, spacing and unrelated keys survive a save untouched.
pub mod lexer;
pub mod parser;
pub mod edit;


use crate::text::{boundary, bytes_of, slice_between, text_at};
use vstd::prelude::*;

verus! {

/// A byte range inside a source file.
#[derive(Debug, Clone, Copy, PartialEq, Eq, Structural)]
pub struct Span {
    pub start: usize,
    pub end: usize,
}

impl Span {
    pub fn new(start: usize, end: usize) -> (span: Self)
        ensures
            span.start == start,
            span.end == end,
    {
        Span { start, end }
    }

    /// The text the span covers, or `""` when it does not cut `source` on
    /// character boundaries.
    pub fn text<'a>(&self, source: &'a str) -> (res: &'a str)
        ensures
            res@ == span_text(bytes_of(source), *self),
    {
        let b = source.as_bytes();
        if self.start <= self.end && self.end <= b.len() && (self.start == b.len() || !(0x80
            <= b[self.start] && b[self.start] <= 0xbf)) && (self.end == b.len() || !(0x80
            <= b[self.end] && b[self.end] <= 0xbf)) {
            slice_between(source, self.start, self.end)
        } else {
            proof {
                reveal_strlit("");
            }
            ""
        }
    }
}

/// What `Span::text` gives: the covered characters, or nothing when the span
/// does not fall on character boundaries inside the source.
pub open spec fn span_text(b: Seq<u8>, span: Span) -> Seq<char> {
    if span.start <= span.end && boundary(b, span.start as int) && boundary(b, span.end as int) {
        text_at(b, span.start as int, span.end as int)
    } else {
        Seq::empty()
    }
}

/// Number of line feeds in `b`.
pub open spec fn count_newlines(b: Seq<u8>) -> nat
    decreases b.len(),
{
    if b.len() == 0 {
        0
    } else {
        count_newlines(b.drop_last()) + if b.last() == 0x0a {
            1nat
        } else {
            0nat
        }
    }
}

/// One-based number of the line holding byte `offset` (the last line past the end).
pub open spec fn line_number(b: Seq<u8>, offset: int) -> nat {
    count_newlines(
        b.take(
            if offset < b.len() {
                offset
            } else {
                b.len() as int
            },
        ),
    ) + 1
}

/// One-based line number containing `offset`, for jumping the editor to a node.
pub fn line_of(source: &str, offset: usize) -> (line: usize)
    requires
        bytes_of(source).len() <= isize::MAX,
        offset >= bytes_of(source).len() || boundary(bytes_of(source), offset as int),
    ensures
        line == line_number(bytes_of(source), offset as int),
{
    let b = source.as_bytes();
    let limit = if offset < b.len() {
        offset
    } else {
        b.len()
    };
    let mut count: usize = 0;
    let mut i: usize = 0;
    while i < limit
        invariant
            limit <= b@.len() <= isize::MAX,
            i <= limit,
            count == count_newlines(b@.take(i as int)),
            count <= i,
        decreases limit - i,
    {
        assert(b@.take(i + 1).drop_last() =~= b@.take(i as int));
        if b[i] == 0x0a {
            count = count + 1;
        }
        i = i + 1;
    }
    count + 1
}

} // verus!

pub use parser::{parse, Block, Document, Item, Items, Pair, ParseError, Scalar, Value};
