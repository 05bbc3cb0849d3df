//! Byte-range rewrites over a parsed script file.
//!
//! Edits are collected against the *original* source and applied back to front,
//! so offsets gathered during parsing stay valid until the very last one lands.
use super::parser::{item_fits, span_fits, value_fits, value_span, Block, Item, Pair, Value};
use super::Span;
use crate::text::{
    boundary, bytes_of, chars_of, contains_char, join, join_strings, lemma_str_valid,
    lemma_trim_idempotent,
    slice_between, string_from_chars, text_at, trim, trim_spec,
};
use super::parser::{find_spec, scalar_text, Items, Scalar};
use super::lexer::{needs_quotes, needs_quotes_spec, quote, quote_spec};
use vstd::utf8::encode_utf8;
use super::span_text;
use super::lexer::trim_back;
use vstd::prelude::*;

verus! {

#[derive(Debug, Clone)]
pub struct TextEdit {
    pub span: Span,
    pub replacement: String,
}

impl TextEdit {
    pub fn new(span: Span, replacement: String) -> (edit: Self)
        ensures
            edit.span == span,
            edit.replacement == replacement,
    {
        TextEdit { span, replacement }
    }
}

/// `e` placed after every edit of `sorted` that starts no later than it.
pub open spec fn insert_stable(sorted: Seq<TextEdit>, e: TextEdit) -> Seq<TextEdit>
    decreases sorted.len(),
{
    if sorted.len() == 0 || sorted.last().span.start <= e.span.start {
        sorted.push(e)
    } else {
        insert_stable(sorted.drop_last(), e).push(sorted.last())
    }
}

/// The edits ordered by where they start, ties kept in the order given
/// (what a stable sort by start does).
pub open spec fn sort_by_start(edits: Seq<TextEdit>) -> Seq<TextEdit>
    decreases edits.len(),
{
    if edits.len() == 0 {
        Seq::empty()
    } else {
        insert_stable(sort_by_start(edits.drop_last()), edits.last())
    }
}

/// The text made from the source bytes `b` from `cursor` on, with the
/// sorted edits from index `i` on applied. An edit starting before the
/// cursor overlaps one already applied and is dropped.
pub open spec fn splice(b: Seq<u8>, edits: Seq<TextEdit>, i: int, cursor: int) -> Seq<char>
    decreases edits.len() - i,
{
    if i < 0 || i >= edits.len() {
        if cursor < b.len() {
            text_at(b, cursor, b.len() as int)
        } else {
            Seq::empty()
        }
    } else {
        let e = edits[i];
        if (e.span.start as int) < cursor {
            splice(b, edits, i + 1, cursor)
        } else {
            let next = if e.span.end >= e.span.start {
                e.span.end as int
            } else {
                e.span.start as int
            };
            text_at(b, cursor, e.span.start as int) + e.replacement@ + splice(
                b,
                edits,
                i + 1,
                next,
            )
        }
    }
}

/// What `apply_edits` gives.
pub open spec fn apply_edits_spec(b: Seq<u8>, edits: Seq<TextEdit>) -> Seq<char> {
    splice(b, sort_by_start(edits), 0, 0)
}

/// Every edit covers a stretch of the source that starts and ends on
/// character boundaries.
pub open spec fn edits_fit(b: Seq<u8>, edits: Seq<TextEdit>) -> bool {
    forall|k: int|
        0 <= k < edits.len() ==> #[trigger] edits[k].span.start <= edits[k].span.end <= b.len()
            && boundary(b, edits[k].span.start as int) && boundary(b, edits[k].span.end as int)
}

proof fn lemma_insert_stable(sorted: Seq<TextEdit>, e: TextEdit, pos: int)
    requires
        0 <= pos <= sorted.len(),
        forall|k: int| 0 <= k < pos ==> #[trigger] sorted[k].span.start <= e.span.start,
        pos == sorted.len() || sorted[pos].span.start > e.span.start,
        forall|k: int, l: int|
            0 <= k <= l < sorted.len() ==> #[trigger] sorted[k].span.start
                <= #[trigger] sorted[l].span.start,
    ensures
        insert_stable(sorted, e) == sorted.insert(pos, e),
    decreases sorted.len(),
{
    if sorted.len() == 0 || sorted.last().span.start <= e.span.start {
        if pos < sorted.len() {
            assert(sorted[pos].span.start <= sorted.last().span.start);
        }
        assert(sorted.push(e) =~= sorted.insert(pos, e));
    } else {
        let d = sorted.drop_last();
        lemma_insert_stable(d, e, pos);
        assert(d.insert(pos, e).push(sorted.last()) =~= sorted.insert(pos, e));
    }
}

/// Sorts edits by start, keeping the given order among equal starts.
fn sort_edits(edits: Vec<TextEdit>) -> (sorted: Vec<TextEdit>)
    ensures
        sorted@ == sort_by_start(edits@),
{
    let mut sorted: Vec<TextEdit> = Vec::new();
    let mut rest = edits;
    let ghost all = rest@;
    assert(all.len() == rest.len());
    // Take from the front by reversing once, so each edit is popped in order.
    let mut reversed: Vec<TextEdit> = Vec::new();
    while rest.len() > 0
        invariant
            all.len() <= usize::MAX,
            all.len() == rest@.len() + reversed@.len(),
            forall|k: int| 0 <= k < rest@.len() ==> #[trigger] rest@[k] == all[k],
            forall|k: int|
                0 <= k < reversed@.len() ==> #[trigger] reversed@[k] == all[all.len() - 1 - k],
        decreases rest@.len(),
    {
        let e = rest.pop().unwrap();
        reversed.push(e);
    }
    let mut taken: usize = 0;
    while reversed.len() > 0
        invariant
            all.len() <= usize::MAX,
            taken + reversed@.len() == all.len(),
            forall|k: int|
                0 <= k < reversed@.len() ==> #[trigger] reversed@[k] == all[all.len() - 1 - k],
            sorted@ == sort_by_start(all.take(taken as int)),
            forall|k: int, l: int|
                0 <= k <= l < sorted@.len() ==> #[trigger] sorted@[k].span.start
                    <= #[trigger] sorted@[l].span.start,
        decreases reversed@.len(),
    {
        let e = reversed.pop().unwrap();
        let ghost before = sorted@;
        assert(e == all[taken as int]);
        let mut pos = sorted.len();
        while pos > 0 && sorted[pos - 1].span.start > e.span.start
            invariant
                pos <= sorted@.len(),
                forall|k: int| pos <= k < sorted@.len() ==> #[trigger] sorted@[k].span.start
                    > e.span.start,
            decreases pos,
        {
            pos = pos - 1;
        }
        proof {
            assert forall|k: int| 0 <= k < pos implies #[trigger] sorted@[k].span.start
                <= e.span.start by {
                if pos > 0 {
                    assert(sorted@[k].span.start <= sorted@[pos - 1].span.start);
                }
            }
            lemma_insert_stable(sorted@, e, pos as int);
            assert(all.take(taken + 1).drop_last() =~= all.take(taken as int));
            assert(all.take(taken + 1).last() == e);
        }
        sorted.insert(pos, e);
        taken = taken + 1;
        proof {
            assert forall|k: int, l: int|
                0 <= k <= l < sorted@.len() implies #[trigger] sorted@[k].span.start
                <= #[trigger] sorted@[l].span.start by {
                if k < pos && l > pos {
                    assert(before[k].span.start <= e.span.start);
                }
            }
        }
    }
    assert(all.take(all.len() as int) =~= all);
    sorted
}

proof fn lemma_sort_keeps(edits: Seq<TextEdit>)
    ensures
        sort_by_start(edits).len() == edits.len(),
        forall|k: int|
            0 <= k < sort_by_start(edits).len() ==> exists|j: int|
                0 <= j < edits.len() && #[trigger] sort_by_start(edits)[k] == edits[j],
    decreases edits.len(),
{
    if edits.len() > 0 {
        lemma_sort_keeps(edits.drop_last());
        lemma_insert_keeps(sort_by_start(edits.drop_last()), edits.last());
        let s = sort_by_start(edits);
        assert forall|k: int| 0 <= k < s.len() implies exists|j: int|
            0 <= j < edits.len() && #[trigger] s[k] == edits[j] by {
            if s[k] == edits.last() {
                assert(edits[edits.len() - 1] == edits.last());
            } else {
                let d = sort_by_start(edits.drop_last());
                let i = choose|i: int| 0 <= i < d.len() && s[k] == d[i];
                let j = choose|j: int| 0 <= j < edits.drop_last().len() && d[i]
                    == edits.drop_last()[j];
                assert(edits[j] == edits.drop_last()[j]);
            }
        }
    }
}

proof fn lemma_insert_keeps(sorted: Seq<TextEdit>, e: TextEdit)
    ensures
        insert_stable(sorted, e).len() == sorted.len() + 1,
        forall|k: int|
            0 <= k < insert_stable(sorted, e).len() ==> (#[trigger] insert_stable(sorted, e)[k]
                == e || exists|i: int| 0 <= i < sorted.len() && insert_stable(sorted, e)[k]
                == sorted[i]),
    decreases sorted.len(),
{
    if sorted.len() == 0 || sorted.last().span.start <= e.span.start {
        let s = sorted.push(e);
        assert forall|k: int| 0 <= k < s.len() implies (#[trigger] s[k] == e || exists|i: int|
            0 <= i < sorted.len() && s[k] == sorted[i]) by {
            if k < sorted.len() {
                assert(s[k] == sorted[k]);
            }
        }
    } else {
        let d = sorted.drop_last();
        lemma_insert_keeps(d, e);
        let s = insert_stable(sorted, e);
        assert forall|k: int| 0 <= k < s.len() implies (#[trigger] s[k] == e || exists|i: int|
            0 <= i < sorted.len() && s[k] == sorted[i]) by {
            if k == s.len() - 1 {
                assert(s[k] == sorted[sorted.len() - 1]);
            } else {
                let t = insert_stable(d, e);
                assert(s[k] == t[k]);
                if t[k] != e {
                    let i = choose|i: int| 0 <= i < d.len() && t[k] == d[i];
                    assert(sorted[i] == d[i]);
                }
            }
        }
    }
}

/// Whether the edits of `edits` from `i` on, taken in order with the text
/// before `cursor` already written, can be spliced in: each edit that is
/// kept (one starting at or after the cursor) starts inside the source on
/// a character boundary, and the cursor it leaves is a boundary unless it
/// is past the end. Edits that are dropped for starting before the cursor
/// are not looked at.
pub open spec fn applies_at(b: Seq<u8>, edits: Seq<TextEdit>, i: int, cursor: int) -> bool
    decreases edits.len() - i,
{
    if i < 0 || i >= edits.len() {
        true
    } else {
        let e = edits[i];
        if (e.span.start as int) < cursor {
            applies_at(b, edits, i + 1, cursor)
        } else {
            let next = if e.span.end >= e.span.start {
                e.span.end as int
            } else {
                e.span.start as int
            };
            &&& e.span.start <= b.len()
            &&& boundary(b, e.span.start as int)
            &&& (next < b.len() ==> boundary(b, next))
            &&& applies_at(b, edits, i + 1, next)
        }
    }
}

/// The edits can be applied to `b`: taken in order of their start, each
/// one kept can be spliced in.
pub open spec fn edits_apply(b: Seq<u8>, edits: Seq<TextEdit>) -> bool {
    applies_at(b, sort_by_start(edits), 0, 0)
}

proof fn lemma_fitting_apply_from(b: Seq<u8>, s: Seq<TextEdit>, i: int, cursor: int)
    requires
        edits_fit(b, s),
        0 <= i,
        boundary(b, cursor),
    ensures
        applies_at(b, s, i, cursor),
    decreases s.len() - i,
{
    if i < s.len() {
        let e = s[i];
        assert(e.span.start <= e.span.end <= b.len());
        if (e.span.start as int) < cursor {
            lemma_fitting_apply_from(b, s, i + 1, cursor);
        } else {
            lemma_fitting_apply_from(b, s, i + 1, e.span.end as int);
        }
    }
}

/// Edits that each fit the source can be applied to it.
pub proof fn lemma_fitting_edits_apply(source: &str, edits: Seq<TextEdit>)
    requires
        edits_fit(bytes_of(source), edits),
    ensures
        edits_apply(bytes_of(source), edits),
{
    let b = bytes_of(source);
    crate::text::lemma_str_valid(source);
    let sorted = sort_by_start(edits);
    lemma_sort_keeps(edits);
    assert forall|k: int| 0 <= k < sorted.len() implies #[trigger] sorted[k].span.start
        <= sorted[k].span.end <= b.len() && boundary(b, sorted[k].span.start as int)
        && boundary(b, sorted[k].span.end as int) by {
        let j = choose|j: int| 0 <= j < edits.len() && sorted[k] == edits[j];
        assert(edits[j].span.start <= edits[j].span.end);
    }
    lemma_fitting_apply_from(b, sorted, 0, 0);
}

/// Applies edits to `source`. Overlapping edits are resolved by keeping the
/// first one seen for a given range start, which keeps a caller mistake from
/// producing garbled output.
pub fn apply_edits(source: &str, edits: Vec<TextEdit>) -> (result: String)
    requires
        edits_apply(bytes_of(source), edits@),
    ensures
        result@ == apply_edits_spec(bytes_of(source), edits@),
{
    let ghost b = bytes_of(source);
    let ghost given = edits@;
    let sorted = sort_edits(edits);
    let n = source.as_bytes().len();
    proof {
        lemma_str_valid(source);
    }
    let mut result = String::new();
    let mut cursor: usize = 0;
    let mut i: usize = 0;
    assert(result@ + splice(b, sorted@, 0, 0) =~= splice(b, sorted@, 0, 0));
    while i < sorted.len()
        invariant
            n == b.len(),
            b == bytes_of(source),
            i <= sorted@.len(),
            cursor <= n ==> boundary(b, cursor as int),
            applies_at(b, sorted@, i as int, cursor as int),
            result@ + splice(b, sorted@, i as int, cursor as int) == apply_edits_spec(b, given),
            sorted@ == sort_by_start(given),
        decreases sorted@.len() - i,
    {
        let edit = &sorted[i];
        if edit.span.start < cursor {
            i = i + 1;
            continue;
        }
        let piece = slice_between(source, cursor, edit.span.start);
        result.push_str(piece);
        result.push_str(edit.replacement.as_str());
        let ghost next = if edit.span.end >= edit.span.start {
            edit.span.end as int
        } else {
            edit.span.start as int
        };
        proof {
            assert(result@ + splice(b, sorted@, i + 1, next) =~= apply_edits_spec(b, given));
        }
        cursor = if edit.span.end >= edit.span.start {
            edit.span.end
        } else {
            edit.span.start
        };
        i = i + 1;
    }
    if cursor < n {
        let piece = slice_between(source, cursor, n);
        result.push_str(piece);
    }
    proof {
        assert(result@ =~= apply_edits_spec(b, given));
    }
    result
}

/// The file already separates lines with `\r\n`.
pub open spec fn has_crlf(b: Seq<u8>) -> bool {
    exists|i: int| 0 <= i < b.len() - 1 && #[trigger] b[i] == 0x0d && b[i + 1] == 0x0a
}

/// The line separator the file already uses.
pub fn detect_newline(source: &str) -> (newline: &'static str)
    ensures
        newline@ == (if has_crlf(bytes_of(source)) {
            "\r\n"@
        } else {
            "\n"@
        }),
{
    let b = source.as_bytes();
    let mut i: usize = 0;
    while b.len() > 1 && i < b.len() - 1
        invariant
            b@ == bytes_of(source),
            forall|k: int| 0 <= k < i && k < b@.len() - 1 ==> !(#[trigger] b@[k] == 0x0d && b@[k + 1] == 0x0a),
        decreases b@.len() - i,
    {
        if b[i] == 0x0d && b[i + 1] == 0x0a {
            assert(b@[i as int] == 0x0d && b@[i + 1] == 0x0a);
            return "\r\n";
        }
        i = i + 1;
    }
    "\n"
}

/// Offset `k` clamped to the source length.
pub open spec fn clamp(b: Seq<u8>, k: int) -> int {
    if k < b.len() {
        k
    } else {
        b.len() as int
    }
}

/// Just past the last line feed before `k`, or 0.
pub open spec fn line_start_spec(b: Seq<u8>, k: int) -> int
    decreases k,
{
    if k <= 0 {
        0
    } else if b[k - 1] == 0x0a {
        k
    } else {
        line_start_spec(b, k - 1)
    }
}

pub proof fn lemma_line_start(b: Seq<u8>, k: int)
    requires
        0 <= k <= b.len(),
    ensures
        0 <= line_start_spec(b, k) <= k,
        line_start_spec(b, k) == 0 || b[line_start_spec(b, k) - 1] == 0x0a,
        forall|j: int| line_start_spec(b, k) <= j < k ==> #[trigger] b[j] != 0x0a,
    decreases k,
{
    if k > 0 && b[k - 1] != 0x0a {
        lemma_line_start(b, k - 1);
    }
}

pub fn line_start(source: &str, offset: usize) -> (start: usize)
    ensures
        start == line_start_spec(bytes_of(source), clamp(bytes_of(source), offset as int)),
        boundary(bytes_of(source), start as int),
{
    let b = source.as_bytes();
    let mut k = if offset < b.len() {
        offset
    } else {
        b.len()
    };
    let ghost k0 = k as int;
    while k > 0
        invariant
            b@ == bytes_of(source),
            k <= k0 <= b@.len(),
            k0 == clamp(b@, offset as int),
            line_start_spec(b@, k0) == line_start_spec(b@, k as int),
        decreases k,
    {
        if b[k - 1] == 0x0a {
            proof {
                crate::text::lemma_str_valid(source);
                crate::text::lemma_ascii_boundary(b@, k - 1);
                crate::text::lemma_step_boundary(b@, k - 1, 1);
            }
            assert(line_start_spec(b@, k as int) == k);
            return k;
        }
        k = k - 1;
    }
    proof {
        crate::text::lemma_str_valid(source);
    }
    0
}

/// End of the line containing `k`, excluding the line break itself.
pub open spec fn line_end_spec(b: Seq<u8>, k: int) -> int {
    let f = crate::paradox::lexer::line_feed_from(b, k);
    if f < b.len() {
        if f > k && b[f - 1] == 0x0d {
            f - 1
        } else {
            f
        }
    } else {
        b.len() as int
    }
}

/// End of the line containing `offset`, excluding the line break itself.
pub fn line_end(source: &str, offset: usize) -> (end: usize)
    requires
        boundary(bytes_of(source), clamp(bytes_of(source), offset as int)),
    ensures
        end == line_end_spec(bytes_of(source), clamp(bytes_of(source), offset as int)),
        clamp(bytes_of(source), offset as int) <= end <= bytes_of(source).len(),
        boundary(bytes_of(source), end as int),
{
    let b = source.as_bytes();
    let start = if offset < b.len() {
        offset
    } else {
        b.len()
    };
    let mut k = start;
    while k < b.len()
        invariant
            b@ == bytes_of(source),
            start <= k <= b@.len(),
            start == clamp(b@, offset as int),
            crate::paradox::lexer::line_feed_from(b@, start as int)
                == crate::paradox::lexer::line_feed_from(b@, k as int),
        decreases b@.len() - k,
    {
        if b[k] == 0x0a {
            proof {
                crate::text::lemma_ascii_boundary(b@, k as int);
                if k > start && b@[k - 1] == 0x0d {
                    crate::text::lemma_ascii_boundary(b@, k - 1);
                }
            }
            assert(crate::paradox::lexer::line_feed_from(b@, k as int) == k);
            if k > start && b[k - 1] == 0x0d {
                return k - 1;
            }
            return k;
        }
        k = k + 1;
    }
    b.len()
}

/// The run of spaces and tabs in `b` from `i`, stopping at `k`.
pub open spec fn blank_run(b: Seq<u8>, i: int, k: int) -> int
    decreases k - i,
{
    if i >= k || !(b[i] == 0x20 || b[i] == 0x09) {
        i
    } else {
        blank_run(b, i + 1, k)
    }
}

/// Only spaces and tabs in `b[i..k]`.
pub open spec fn all_blank(b: Seq<u8>, i: int, k: int) -> bool {
    forall|j: int| i <= j < k ==> (#[trigger] b[j] == 0x20 || b[j] == 0x09)
}

/// The characters of a run of spaces and tabs.
pub open spec fn blank_chars(b: Seq<u8>, i: int, k: int) -> Seq<char> {
    Seq::new(
        (k - i) as nat,
        |x: int|
            if b[i + x] == 0x20 {
                ' '
            } else {
                '\t'
            },
    )
}

/// What `indent_at` gives: the spaces and tabs that open the line holding `k`.
pub open spec fn indent_spec(b: Seq<u8>, offset: int) -> Seq<char> {
    let k = clamp(b, offset);
    let start = line_start_spec(b, k);
    blank_chars(b, start, blank_run(b, start, k))
}

proof fn lemma_blank_run(b: Seq<u8>, i: int, k: int)
    requires
        0 <= i <= k <= b.len(),
    ensures
        i <= blank_run(b, i, k) <= k,
        all_blank(b, i, blank_run(b, i, k)),
        blank_run(b, i, k) == k || !(b[blank_run(b, i, k)] == 0x20 || b[blank_run(b, i, k)]
            == 0x09),
    decreases k - i,
{
    if i < k && (b[i] == 0x20 || b[i] == 0x09) {
        lemma_blank_run(b, i + 1, k);
    }
}

/// Leading whitespace of the line containing `offset`.
pub fn indent_at(source: &str, offset: usize) -> (indent: String)
    requires
        boundary(bytes_of(source), clamp(bytes_of(source), offset as int)),
    ensures
        indent@ == indent_spec(bytes_of(source), offset as int),
{
    let b = source.as_bytes();
    let start = line_start(source, offset);
    let k = if offset < b.len() {
        offset
    } else {
        b.len()
    };
    proof {
        lemma_line_start(b@, k as int);
    }
    let mut indent = String::new();
    let mut i = start;
    while i < k && (b[i] == 0x20 || b[i] == 0x09)
        invariant
            start <= i <= k <= b@.len(),
            blank_run(b@, start as int, k as int) == blank_run(b@, i as int, k as int),
            indent@ == blank_chars(b@, start as int, i as int),
        decreases k - i,
    {
        if b[i] == 0x20 {
            indent.push(' ');
        } else {
            indent.push('\t');
        }
        i = i + 1;
        assert(indent@ =~= blank_chars(b@, start as int, i as int));
    }
    assert(indent@ =~= indent_spec(b@, offset as int));
    indent
}

/// Only spaces and tabs between `i` and `k`.
fn blank_between(b: &[u8], i: usize, k: usize) -> (r: bool)
    requires
        i <= k <= b@.len(),
    ensures
        r == all_blank(b@, i as int, k as int),
{
    let mut j = i;
    while j < k
        invariant
            i <= j <= k <= b@.len(),
            all_blank(b@, i as int, j as int),
        decreases k - j,
    {
        if !(b[j] == 0x20 || b[j] == 0x09) {
            return false;
        }
        j = j + 1;
    }
    true
}

/// Where an item starts.
pub open spec fn item_start(it: Item) -> int {
    match it {
        Item::Pair(p) => p.span.start as int,
        Item::Value(v) => value_span(v).start as int,
    }
}

/// What `child_indent` gives: the indentation of the first child when that
/// child starts its own line, otherwise one tab deeper than the block.
pub open spec fn child_indent_spec(b: Seq<u8>, block: Block) -> Seq<char> {
    if block.items.len() > 0 && all_blank(
        b,
        line_start_spec(b, item_start(block.items@[0])),
        item_start(block.items@[0]),
    ) {
        indent_spec(b, item_start(block.items@[0]))
    } else {
        indent_spec(b, block.span.start as int) + seq!['\t']
    }
}

/// Indentation to use for children of `block`: copied from an existing child
/// when there is one, otherwise one tab deeper than the block itself.
pub fn child_indent(source: &str, block: &Block) -> (indent: String)
    requires
        value_fits(bytes_of(source), Value::Block(*block)),
    ensures
        indent@ == child_indent_spec(bytes_of(source), *block),
{
    let b = source.as_bytes();
    if block.items.len() > 0 {
        let first = &block.items[0];
        assert(item_fits(b@, *first));
        let offset = match first {
            Item::Pair(pair) => pair.span.start,
            Item::Value(value) => value.span().start,
        };
        let start = line_start(source, offset);
        proof {
            lemma_line_start(b@, offset as int);
        }
        // Only trust the indentation when the child really starts its own line.
        if blank_between(b, start, offset) {
            return indent_at(source, offset);
        }
    }
    let mut base = indent_at(source, block.span.start);
    base.push('\t');
    base
}

/// Offset `a` or `b`, whichever is smaller.
pub open spec fn min(a: int, b: int) -> int {
    if a < b {
        a
    } else {
        b
    }
}

/// What `pair_owns_its_line` decides: only blanks before the pair on its
/// line, and only blanks or a comment after it.
pub open spec fn owns_line_spec(b: Seq<u8>, pair: Pair) -> bool {
    let ps = pair.span.start as int;
    let pe = pair.span.end as int;
    let e = line_end_spec(b, pe);
    let trailing = trim_spec(span_text(b, Span { start: min(pe, e) as usize, end: e as usize }));
    &&& all_blank(b, line_start_spec(b, ps), ps)
    &&& (trailing.len() == 0 || trailing[0] == '#')
}

/// True when nothing but `pair` (and optionally a comment) sits on its line.
///
/// Scripts sometimes put several assignments on one line, and deleting the
/// whole line would take the neighbours with it.
fn pair_owns_its_line(source: &str, pair: &Pair) -> (r: bool)
    requires
        item_fits(bytes_of(source), Item::Pair(*pair)),
    ensures
        r == owns_line_spec(bytes_of(source), *pair),
{
    let b = source.as_bytes();
    let start = line_start(source, pair.span.start);
    proof {
        lemma_line_start(b@, pair.span.start as int);
    }
    let leading_is_blank = blank_between(b, start, pair.span.start);
    // A block value can span lines, so measure from where the pair ends.
    let end = line_end(source, pair.span.end);
    let from = if pair.span.end < end {
        pair.span.end
    } else {
        end
    };
    let trailing = trim(Span::new(from, end).text(source));
    let t = chars_of(trailing.as_str());
    let trailing_is_blank = t.len() == 0 || t[0] == '#';
    leading_is_blank && trailing_is_blank
}

/// Where deleting an owned line stops: past the line break, if any.
pub open spec fn past_break(b: Seq<u8>, e: int) -> int {
    if e + 1 < b.len() && b[e] == 0x0d && b[e + 1] == 0x0a {
        e + 2
    } else if e < b.len() && b[e] == 0x0a {
        e + 1
    } else {
        e
    }
}

/// The span `remove_pair` deletes.
pub open spec fn removal_span(b: Seq<u8>, pair: Pair) -> Span {
    if owns_line_spec(b, pair) {
        Span {
            start: line_start_spec(b, pair.span.start as int) as usize,
            end: past_break(b, line_end_spec(b, pair.span.end as int)) as usize,
        }
    } else {
        pair.span
    }
}

/// Removes a pair together with the line it sits on when it owns that line.
pub fn remove_pair(source: &str, pair: &Pair) -> (edits: Vec<TextEdit>)
    requires
        item_fits(bytes_of(source), Item::Pair(*pair)),
    ensures
        edits@.len() == 1,
        edits@[0].span == removal_span(bytes_of(source), *pair),
        edits@[0].replacement@ == Seq::<char>::empty(),
        edits_fit(bytes_of(source), edits@),
{
    let b = source.as_bytes();
    proof {
        lemma_str_valid(source);
    }
    if !pair_owns_its_line(source, pair) {
        return vec![TextEdit::new(pair.span, String::new())];
    }
    let start = line_start(source, pair.span.start);
    proof {
        lemma_line_start(b@, pair.span.start as int);
    }
    let mut end = line_end(source, pair.span.end);
    // Swallow the line break so no blank line is left behind.
    if end < b.len() && b.len() - end > 1 && b[end] == 0x0d && b[end + 1] == 0x0a {
        proof {
            crate::text::lemma_ascii_boundary(b@, end + 1);
            crate::text::lemma_step_boundary(b@, end + 1, 1);
        }
        end = end + 2;
    } else if end < b.len() && b[end] == 0x0a {
        proof {
            crate::text::lemma_ascii_boundary(b@, end as int);
            crate::text::lemma_step_boundary(b@, end as int, 1);
        }
        end = end + 1;
    }
    vec![TextEdit::new(Span::new(start, end), String::new())]
}

/// Start of the character that ends at `e`.
pub open spec fn char_start(b: Seq<u8>, e: int) -> int
    decreases e,
{
    if e <= 0 {
        0
    } else if !vstd::utf8::is_continuation_byte(b[e - 1]) {
        e - 1
    } else {
        char_start(b, e - 1)
    }
}

/// The lines appended by `insert_lines`, each after a line break and the
/// children's indentation.
pub open spec fn lines_body(lines: Seq<String>, newline: Seq<char>, indent: Seq<char>) -> Seq<
    char,
>
    decreases lines.len(),
{
    if lines.len() == 0 {
        Seq::empty()
    } else {
        lines_body(lines.drop_last(), newline, indent) + newline + indent + lines.last()@
    }
}

/// The newline the source uses.
pub open spec fn newline_spec(b: Seq<u8>) -> Seq<char> {
    if has_crlf(b) {
        "\r\n"@
    } else {
        "\n"@
    }
}

/// Where `insert_lines` starts rewriting: the block's inside when it is
/// blank, otherwise just past the last character that is not whitespace
/// before the closing brace (one byte past its first byte).
pub open spec fn insertion_start(b: Seq<u8>, block: Block) -> int {
    insertion_point(b, block, block.inner.end as int)
}

/// Where lines go that are inserted before position `at` of a block: just
/// past the last character that is not whitespace before `at` (one byte
/// past that character's first byte), or the start of the block's inside
/// when only whitespace precedes `at` there.
pub open spec fn insertion_point(b: Seq<u8>, block: Block, at: int) -> int {
    if trim_back(b, block.inner.start as int, at) == block.inner.start as int {
        block.inner.start as int
    } else {
        let e = trim_back(b, 0, at);
        if e > 0 {
            char_start(b, e) + 1
        } else {
            at
        }
    }
}

/// The first removal (an edit with no replacement) in `es` from `k` on that
/// reaches into `[s, end)`, or the length.
pub open spec fn first_overlap(es: Seq<(Span, Seq<char>)>, s: int, end: int, k: int) -> int
    decreases es.len() - k,
{
    if k < 0 || k >= es.len() {
        es.len() as int
    } else if es[k].1.len() == 0 && es[k].0.start < end && es[k].0.end > s {
        k
    } else {
        first_overlap(es, s, end, k + 1)
    }
}

/// Queued lines land at `s` unless a removal reaches into the text they
/// replace: then that removal is dropped, since the insertion covers it, and
/// the lines land before it instead; until no removal reaches in.
pub open spec fn settle(b: Seq<u8>, block: Block, es: Seq<(Span, Seq<char>)>, s: int) -> (Seq<
    (Span, Seq<char>),
>, int)
    decreases es.len(),
{
    let k = first_overlap(es, s, block.inner.end as int, 0);
    if k < 0 || k >= es.len() {
        (es, s)
    } else {
        let a = es[k].0.start as int;
        let p = insertion_point(
            b,
            block,
            if a < block.inner.start {
                block.inner.start as int
            } else {
                a
            },
        );
        settle(
            b,
            block,
            es.remove(k),
            if p < s {
                p
            } else {
                s
            },
        )
    }
}

/// What `insert_lines` writes.
pub open spec fn insertion_text(b: Seq<u8>, block: Block, lines: Seq<String>) -> Seq<char> {
    lines_body(lines, newline_spec(b), child_indent_spec(b, block)) + newline_spec(b)
        + indent_spec(b, block.span.start as int)
}

/// An edit appending several lines inside `block`, as one contiguous rewrite so
/// the caller never has to merge overlapping insertions at the same offset.
pub fn insert_lines(source: &str, block: &Block, lines: &[String]) -> (edit: TextEdit)
    requires
        value_fits(bytes_of(source), Value::Block(*block)),
    ensures
        edit.span == (Span {
            start: insertion_start(bytes_of(source), *block) as usize,
            end: block.inner.end,
        }),
        edit.replacement@ == insertion_text(bytes_of(source), *block, lines@),
{
    let b = source.as_bytes();
    let newline = detect_newline(source);
    let indent = child_indent(source, block);
    let closing_indent = indent_at(source, block.span.start);
    let mut body = String::new();
    let mut i: usize = 0;
    while i < lines.len()
        invariant
            i <= lines@.len(),
            body@ == lines_body(lines@.take(i as int), newline@, indent@),
        decreases lines@.len() - i,
    {
        body.push_str(newline);
        body.push_str(indent.as_str());
        body.push_str(lines[i].as_str());
        proof {
            assert(lines@.take(i + 1).drop_last() =~= lines@.take(i as int));
        }
        i = i + 1;
    }
    assert(lines@.take(lines@.len() as int) =~= lines@);
    body.push_str(newline);
    body.push_str(closing_indent.as_str());
    // Insert just before the closing brace.
    let insert_at = block.inner.end;
    let inner_trimmed = back_over_whitespace(b, block.inner.start, insert_at);
    if inner_trimmed == block.inner.start {
        // Empty block: expand it onto its own lines.
        return TextEdit::new(Span::new(block.inner.start, insert_at), body);
    }
    let e = back_over_whitespace(b, 0, insert_at);
    proof {
        crate::paradox::lexer::lemma_trim_back(b@, 0, insert_at as int);
    }
    let trailing_start = if e > 0 {
        let mut j = e - 1;
        while j > 0 && 0x80 <= b[j] && b[j] <= 0xbf
            invariant
                j < e <= b@.len(),
                b@ == bytes_of(source),
                e == trim_back(b@, 0, insert_at as int),
                char_start(b@, e as int) == char_start(b@, j + 1),
            decreases j,
        {
            j = j - 1;
        }
        assert(char_start(b@, j + 1) == j) by {
            reveal_with_fuel(char_start, 2);
        }
        assert(char_start(b@, e as int) == j);
        j + 1
    } else {
        insert_at
    };
    assert(trailing_start == insertion_start(b@, *block));
    TextEdit::new(Span::new(trailing_start, insert_at), body)
}

/// `end` moved back over the whitespace characters that end `b[start..end]`.
fn back_over_whitespace(b: &[u8], start: usize, end: usize) -> (r: usize)
    requires
        start <= end <= b@.len(),
    ensures
        r == trim_back(b@, start as int, end as int),
{
    let mut e = end;
    while e > start
        invariant
            start <= e <= end,
            trim_back(b@, start as int, end as int) == trim_back(b@, start as int, e as int),
        ensures
            trim_back(b@, start as int, end as int) == e,
        decreases e - start,
    {
        if crate::text::whitespace_len(b, e - 1) == 1 {
            e = e - 1;
        } else if e - start >= 2 && crate::text::whitespace_len(b, e - 2) == 2 {
            e = e - 2;
        } else if e - start >= 3 && crate::text::whitespace_len(b, e - 3) == 3 {
            e = e - 3;
        } else {
            break;
        }
    }
    e
}

/// Byte bounds of the lines of `b` from `i` on, cut where `str::lines` cuts
/// them: at each line feed, with no empty line after a final one.
pub open spec fn segments_from(b: Seq<u8>, i: int) -> Seq<(int, int)>
    decreases b.len() - i,
{
    if i < 0 || i >= b.len() {
        Seq::empty()
    } else {
        let f = crate::paradox::lexer::line_feed_from(b, i);
        if i <= f < b.len() {
            seq![(i, f)] + segments_from(b, f + 1)
        } else {
            seq![(i, b.len() as int)]
        }
    }
}

/// Bytes of leading whitespace characters in `b[i..e]`.
pub open spec fn lead_ws(b: Seq<u8>, i: int, e: int) -> int
    decreases e - i,
{
    if i < e && crate::text::ws_len(b, i) > 0 && i + crate::text::ws_len(b, i) <= e {
        lead_ws(b, i + crate::text::ws_len(b, i), e)
    } else {
        i
    }
}

/// Where line `seg` ends once trailing whitespace is trimmed.
pub open spec fn seg_end(b: Seq<u8>, seg: (int, int)) -> int {
    trim_back(b, seg.0, seg.1)
}

/// The smallest indentation, in bytes, of the lines that are not blank.
pub open spec fn min_indent(b: Seq<u8>, segs: Seq<(int, int)>) -> Option<int>
    decreases segs.len(),
{
    if segs.len() == 0 {
        None
    } else {
        let rest = min_indent(b, segs.drop_last());
        let seg = segs.last();
        let e = seg_end(b, seg);
        if e > seg.0 {
            let ind = lead_ws(b, seg.0, e) - seg.0;
            match rest {
                Some(m) => Some(
                    if ind < m {
                        ind
                    } else {
                        m
                    },
                ),
                None => Some(ind),
            }
        } else {
            rest
        }
    }
}

/// The indentation every non-blank line shares.
pub open spec fn shared_indent(b: Seq<u8>) -> int {
    match min_indent(b, segments_from(b, 0)) {
        Some(m) => m,
        None => 0,
    }
}

/// A line with the shared indentation cut off, or nothing when it is blank.
pub open spec fn dedent_line(b: Seq<u8>, seg: (int, int), shared: int) -> Seq<char> {
    let e = seg_end(b, seg);
    if e > seg.0 {
        text_at(b, seg.0 + min(shared, e - seg.0), e)
    } else {
        Seq::empty()
    }
}

/// What `dedent` gives for the text with bytes `b`.
pub open spec fn dedent_spec(b: Seq<u8>) -> Seq<Seq<char>> {
    let segs = segments_from(b, 0);
    Seq::new(segs.len(), |k: int| dedent_line(b, segs[k], shared_indent(b)))
}

/// Cutting the shared indentation off each line lands on a character
/// boundary (it always does when indentation is made of ASCII whitespace).
pub open spec fn dedent_fits(b: Seq<u8>) -> bool {
    let segs = segments_from(b, 0);
    forall|k: int|
        0 <= k < segs.len() && seg_end(b, #[trigger] segs[k]) > segs[k].0 ==> boundary(
            b,
            segs[k].0 + min(shared_indent(b), seg_end(b, segs[k]) - segs[k].0),
        )
}

proof fn lemma_segments(b: Seq<u8>, i: int)
    requires
        0 <= i <= b.len(),
    ensures
        forall|k: int|
            0 <= k < segments_from(b, i).len() ==> i <= #[trigger] segments_from(b, i)[k].0
                <= segments_from(b, i)[k].1 <= b.len(),
        forall|k: int|
            0 <= k < segments_from(b, i).len() ==> (#[trigger] segments_from(b, i)[k].1
                == b.len() || b[segments_from(b, i)[k].1] == 0x0a),
        forall|k: int|
            0 <= k < segments_from(b, i).len() ==> (#[trigger] segments_from(b, i)[k].0 == i
                || b[segments_from(b, i)[k].0 - 1] == 0x0a),
    decreases b.len() - i,
{
    if i < b.len() {
        crate::paradox::lexer::lemma_line_feed_from(b, i);
        let f = crate::paradox::lexer::line_feed_from(b, i);
        if i <= f < b.len() {
            lemma_segments(b, f + 1);
            let r = segments_from(b, f + 1);
            let all = segments_from(b, i);
            assert forall|k: int| 0 <= k < all.len() implies i <= #[trigger] all[k].0 <= all[k].1
                <= b.len() && (all[k].1 == b.len() || b[all[k].1] == 0x0a) && (all[k].0 == i
                || b[all[k].0 - 1] == 0x0a) by {
                if k > 0 {
                    assert(all[k] == r[k - 1]);
                }
            }
        }
    }
}

proof fn lemma_lead_ws(b: Seq<u8>, i: int, e: int)
    requires
        0 <= i <= e <= b.len(),
    ensures
        i <= lead_ws(b, i, e) <= e,
    decreases e - i,
{
    if i < e && crate::text::ws_len(b, i) > 0 && i + crate::text::ws_len(b, i) <= e {
        lemma_lead_ws(b, i + crate::text::ws_len(b, i), e);
    }
}

fn leading_whitespace(b: &[u8], i: usize, e: usize) -> (r: usize)
    requires
        i <= e <= b@.len(),
    ensures
        r == lead_ws(b@, i as int, e as int),
{
    let mut j = i;
    while j < e
        invariant
            i <= j <= e <= b@.len(),
            lead_ws(b@, i as int, e as int) == lead_ws(b@, j as int, e as int),
        ensures
            lead_ws(b@, i as int, e as int) == j,
        decreases e - j,
    {
        let w = crate::text::whitespace_len(b, j);
        if w > 0 && w <= e - j {
            j = j + w;
        } else {
            break;
        }
    }
    j
}

/// Strips the indentation shared by every non-empty line.
pub fn dedent(text: &str) -> (lines: Vec<String>)
    requires
        dedent_fits(bytes_of(text)),
    ensures
        lines@.len() == dedent_spec(bytes_of(text)).len(),
        forall|k: int| 0 <= k < lines@.len() ==> #[trigger] lines@[k]@ == dedent_spec(bytes_of(text))[k],
{
    match try_dedent(text) {
        Some(lines) => lines,
        None => Vec::new(),
    }
}

/// Whether a byte offset of `b` is a character boundary.
fn is_boundary(b: &[u8], i: usize) -> (r: bool)
    requires
        i <= b@.len(),
    ensures
        r == boundary(b@, i as int),
{
    i == b.len() || !(0x80 <= b[i] && b[i] < 0xC0)
}

/// `dedent`, or `None` where cutting the shared indentation off a line would
/// split a character (indentation mixing multi-byte whitespace), which
/// slicing the line refuses.
pub fn try_dedent(text: &str) -> (r: Option<Vec<String>>)
    ensures
        r is Some <==> dedent_fits(bytes_of(text)),
        r matches Some(lines) ==> lines@.len() == dedent_spec(bytes_of(text)).len()
            && forall|k: int| 0 <= k < lines@.len() ==> #[trigger] lines@[k]@ == dedent_spec(bytes_of(text))[k],
{
    let b = text.as_bytes();
    let ghost bs = b@;
    proof {
        lemma_str_valid(text);
        lemma_segments(bs, 0);
    }
    // The lines, as byte bounds.
    let mut segs: Vec<(usize, usize)> = Vec::new();
    let mut i: usize = 0;
    assert(segments_from(bs, 0) =~= Seq::<(int, int)>::empty() + segments_from(bs, 0));
    while i < b.len()
        invariant
            b@ == bs,
            i <= bs.len(),
            segments_from(bs, 0) == segs@.map_values(|p: (usize, usize)| (p.0 as int, p.1 as int))
                + segments_from(bs, i as int),
        decreases bs.len() - i,
    {
        let f = find_line_feed(b, i);
        proof {
            crate::paradox::lexer::lemma_line_feed_from(bs, i as int);
        }
        let ghost before = segs@;
        segs.push((i, f));
        proof {
            assert(segs@.map_values(|p: (usize, usize)| (p.0 as int, p.1 as int)) =~= before.map_values(
                |p: (usize, usize)| (p.0 as int, p.1 as int),
            ).push((i as int, f as int)));
        }
        if f < b.len() {
            i = f + 1;
        } else {
            i = b.len();
            assert(segments_from(bs, i as int) =~= Seq::<(int, int)>::empty());
        }
    }
    let ghost all = segments_from(bs, 0);
    assert(segs@.map_values(|p: (usize, usize)| (p.0 as int, p.1 as int)) =~= all);
    assert forall|k: int| 0 <= k < segs@.len() implies (#[trigger] segs@[k]).0 == all[k].0
        && segs@[k].1 == all[k].1 by {
        assert(segs@.map_values(|p: (usize, usize)| (p.0 as int, p.1 as int))[k] == all[k]);
    }
    // The shared indentation.
    let mut shared: Option<usize> = None;
    let mut k: usize = 0;
    while k < segs.len()
        invariant
            b@ == bs,
            k <= segs@.len(),
            segs@.len() == all.len(),
            all == segments_from(bs, 0),
            forall|x: int| 0 <= x < segs@.len() ==> (#[trigger] segs@[x]).0 == all[x].0
                && segs@[x].1 == all[x].1,
            forall|x: int| 0 <= x < all.len() ==> 0 <= #[trigger] all[x].0 <= all[x].1 <= bs.len(),
            bs.len() <= usize::MAX,
            match min_indent(bs, all.take(k as int)) {
                Some(m) => shared == Some(m as usize) && 0 <= m <= bs.len(),
                None => shared is None,
            },
        decreases segs@.len() - k,
    {
        let (s, f) = segs[k];
        let e = back_over_whitespace(b, s, f);
        proof {
            crate::paradox::lexer::lemma_trim_back(bs, s as int, f as int);
            assert(all.take(k + 1).drop_last() =~= all.take(k as int));
            assert(all.take(k + 1).last() == all[k as int]);
        }
        proof {
            assert(seg_end(bs, all[k as int]) == e);
        }
        if e > s {
            let lead = leading_whitespace(b, s, e);
            proof {
                lemma_lead_ws(bs, s as int, e as int);
            }
            let indent = lead - s;
            shared = match shared {
                Some(m) => Some(
                    if indent < m {
                        indent
                    } else {
                        m
                    },
                ),
                None => Some(indent),
            };
            proof {
                let t1 = all.take(k + 1);
                assert(lead_ws(bs, t1.last().0, seg_end(bs, t1.last())) - t1.last().0 == indent);
                assert(min_indent(bs, t1) == match min_indent(bs, all.take(k as int)) {
                    Some(m) => Some(
                        if indent < m {
                            indent as int
                        } else {
                            m
                        },
                    ),
                    None => Some(indent as int),
                });
            }
        } else {
            proof {
                let t1 = all.take(k + 1);
                assert(min_indent(bs, t1) == min_indent(bs, all.take(k as int)));
            }
        }
        k = k + 1;
    }
    assert(all.take(all.len() as int) =~= all);
    let shared = match shared {
        Some(m) => m,
        None => 0,
    };
    assert(shared == shared_indent(bs));
    let mut lines: Vec<String> = Vec::new();
    let mut k: usize = 0;
    while k < segs.len()
        invariant
            b@ == bs,
            bs == bytes_of(text),
            k <= segs@.len(),
            segs@.len() == all.len(),
            all == segments_from(bs, 0),
            shared == shared_indent(bs),
            forall|x: int|
                0 <= x < k && seg_end(bs, #[trigger] all[x]) > all[x].0 ==> boundary(
                    bs,
                    all[x].0 + min(shared_indent(bs), seg_end(bs, all[x]) - all[x].0),
                ),
            forall|x: int| 0 <= x < segs@.len() ==> (#[trigger] segs@[x]).0 == all[x].0
                && segs@[x].1 == all[x].1,
            forall|x: int| 0 <= x < all.len() ==> 0 <= #[trigger] all[x].0 <= all[x].1 <= bs.len(),
            forall|x: int|
                0 <= x < all.len() ==> (#[trigger] all[x].1 == bs.len() || bs[all[x].1] == 0x0a),
            lines@.len() == k,
            forall|x: int| 0 <= x < k ==> #[trigger] lines@[x]@ == dedent_spec(bs)[x],
        decreases segs@.len() - k,
    {
        let (s, f) = segs[k];
        let e = back_over_whitespace(b, s, f);
        proof {
            crate::paradox::lexer::lemma_trim_back(bs, s as int, f as int);
        }
        if e > s {
            let cut = if shared < e - s {
                s + shared
            } else {
                e
            };
            proof {
                assert(seg_end(bs, all[k as int]) == e);
                assert(all[k as int].1 == f);
                crate::paradox::lexer::lemma_boundary_at(bs, e as int);
            }
            if !is_boundary(b, cut) {
                return None;
            }
            let line = string_at(text, cut, e);
            lines.push(line);
        } else {
            proof {
                assert(seg_end(bs, all[k as int]) == e);
            }
            lines.push(String::new());
        }
        k = k + 1;
    }
    Some(lines)
}

/// The text between two offsets known to be character boundaries.
fn string_at(text: &str, start: usize, end: usize) -> (s: String)
    requires
        start <= end <= bytes_of(text).len(),
        boundary(bytes_of(text), start as int),
        boundary(bytes_of(text), end as int),
    ensures
        s@ == text_at(bytes_of(text), start as int, end as int),
{
    crate::text::string_between(text, start, end)
}

/// The first line feed at or after `j`, or the end of input.
fn find_line_feed(b: &[u8], j: usize) -> (end: usize)
    requires
        j <= b@.len(),
    ensures
        end == crate::paradox::lexer::line_feed_from(b@, j as int),
{
    let mut k = j;
    while k < b.len()
        invariant
            j <= k <= b@.len(),
            crate::paradox::lexer::line_feed_from(b@, j as int)
                == crate::paradox::lexer::line_feed_from(b@, k as int),
        decreases b@.len() - k,
    {
        if b[k] == 0x0a {
            return k;
        }
        k = k + 1;
    }
    b.len()
}

/// The body lines of a multi-line block: indented one level deeper, blank
/// lines left empty.
pub open spec fn indent_lines(lines: Seq<Seq<char>>, inner: Seq<char>) -> Seq<Seq<char>> {
    lines.map_values(
        |l: Seq<char>|
            if l.len() == 0 {
                l
            } else {
                inner + l
            },
    )
}

/// What `format_block` gives.
pub open spec fn format_block_spec(content: Seq<char>, indent: Seq<char>, newline: Seq<char>) -> Seq<
    char,
> {
    let t = trim_spec(content);
    if t.len() == 0 {
        seq!['{', ' ', '}']
    } else {
        let ls = dedent_spec(encode_utf8(t));
        if ls.len() == 1 && encode_utf8(ls[0]).len() <= 60 && !ls[0].contains('{') {
            seq!['{', ' '] + ls[0] + seq![' ', '}']
        } else {
            seq!['{'] + newline + join(indent_lines(ls, indent + seq!['\t']), newline) + newline
                + indent + seq!['}']
        }
    }
}

/// Renders `content` as a brace block indented relative to `indent`.
pub fn format_block(content: &str, indent: &str, newline: &str) -> (block: String)
    requires
        dedent_fits(encode_utf8(trim_spec(content@))),
    ensures
        block@ == format_block_spec(content@, indent@, newline@),
{
    match try_format_block(content, indent, newline) {
        Some(block) => block,
        None => String::new(),
    }
}

/// Whether a text can be laid out as a block body: cutting its shared
/// indentation never splits a character.
pub open spec fn layout_fits(content: Seq<char>) -> bool {
    dedent_fits(encode_utf8(trim_spec(content)))
}

/// Whether `layout_fits` holds of a text.
pub fn fits_layout(content: &str) -> (r: bool)
    ensures
        r == layout_fits(content@),
{
    let trimmed = trim(content);
    let text = trimmed.as_str();
    proof {
        lemma_str_valid(text);
    }
    try_dedent(text).is_some()
}

/// `format_block`, or `None` where the content's indentation cannot be cut
/// on character boundaries.
pub fn try_format_block(content: &str, indent: &str, newline: &str) -> (block: Option<String>)
    ensures
        block is Some <==> layout_fits(content@),
        block matches Some(text) ==> text@ == format_block_spec(content@, indent@, newline@),
{
    let trimmed = trim(content);
    let t = chars_of(trimmed.as_str());
    let text = trimmed.as_str();
    proof {
        lemma_str_valid(text);
    }
    let mut out = String::new();
    if t.len() == 0 {
        out.push('{');
        out.push(' ');
        out.push('}');
        assert(out@ =~= seq!['{', ' ', '}']);
        proof {
            assert(encode_utf8(trim_spec(content@)).len() == 0) by {
                assert(trimmed@ =~= Seq::<char>::empty());
            }
            assert(segments_from(encode_utf8(trim_spec(content@)), 0) =~= Seq::<(int, int)>::empty());
        }
        return Some(out);
    }
    let lines = match try_dedent(trimmed.as_str()) {
        Some(lines) => lines,
        None => {
            return None;
        },
    };
    let ghost ls = dedent_spec(encode_utf8(trimmed@));
    if lines.len() == 1 && lines[0].as_str().as_bytes().len() <= 60 && !contains_char(
        lines[0].as_str(),
        '{',
    ) {
        out.push('{');
        out.push(' ');
        out.push_str(lines[0].as_str());
        out.push(' ');
        out.push('}');
        assert(out@ =~= seq!['{', ' '] + ls[0] + seq![' ', '}']);
        return Some(out);
    }
    let mut inner_indent = String::new();
    inner_indent.push_str(indent);
    inner_indent.push('\t');
    assert(inner_indent@ =~= indent@ + seq!['\t']);
    let mut body: Vec<String> = Vec::new();
    let mut i: usize = 0;
    while i < lines.len()
        invariant
            i <= lines@.len(),
            lines@.len() == ls.len(),
            forall|k: int| 0 <= k < lines@.len() ==> #[trigger] lines@[k]@ == ls[k],
            body@.len() == i,
            forall|k: int|
                0 <= k < i ==> #[trigger] body@[k]@ == indent_lines(ls, inner_indent@)[k],
        decreases lines@.len() - i,
    {
        let line = &lines[i];
        if line.as_str().is_empty() {
            body.push(String::new());
        } else {
            let mut l = inner_indent.clone();
            l.push_str(line.as_str());
            body.push(l);
        }
        i = i + 1;
    }
    assert(crate::text::views(body@) =~= indent_lines(ls, inner_indent@));
    let joined = join_strings(&body, newline);
    assert(joined@ == join(indent_lines(ls, indent@ + seq!['\t']), newline@));
    assert(!(ls.len() == 1 && encode_utf8(ls[0]).len() <= 60 && !ls[0].contains('{')));
    out.push('{');
    out.push_str(newline);
    out.push_str(joined.as_str());
    out.push_str(newline);
    out.push_str(indent);
    out.push('}');
    assert(out@ =~= format_block_spec(content@, indent@, newline@));
    Some(out)
}

/// Number of line breaks (`\n`, `\r`) at the front of `s`.
pub open spec fn leading_breaks(s: Seq<char>) -> nat
    decreases s.len(),
{
    if s.len() > 0 && (s[0] == '\n' || s[0] == '\r') {
        1 + leading_breaks(s.drop_first())
    } else {
        0
    }
}

/// Number of line breaks at the back of `s`.
pub open spec fn trailing_breaks(s: Seq<char>) -> nat
    decreases s.len(),
{
    if s.len() > 0 && (s.last() == '\n' || s.last() == '\r') {
        1 + trailing_breaks(s.drop_last())
    } else {
        0
    }
}

/// `s` with line breaks trimmed off both ends.
pub open spec fn strip_breaks(s: Seq<char>) -> Seq<char> {
    let t = s.skip(leading_breaks(s) as int);
    t.take(t.len() - trailing_breaks(t))
}

proof fn lemma_leading_breaks(s: Seq<char>, i: int)
    requires
        0 <= i <= s.len(),
        forall|k: int| 0 <= k < i ==> (#[trigger] s[k] == '\n' || s[k] == '\r'),
        i == s.len() || !(s[i] == '\n' || s[i] == '\r'),
    ensures
        leading_breaks(s) == i,
    decreases s.len(),
{
    if i > 0 {
        let t = s.drop_first();
        assert forall|k: int| 0 <= k < i - 1 implies (#[trigger] t[k] == '\n' || t[k] == '\r') by {
            assert(t[k] == s[k + 1]);
        }
        if i - 1 < t.len() {
            assert(t[i - 1] == s[i]);
        }
        lemma_leading_breaks(t, i - 1);
    }
}

proof fn lemma_trailing_breaks(s: Seq<char>, i: int)
    requires
        0 <= i <= s.len(),
        forall|k: int| i <= k < s.len() ==> (#[trigger] s[k] == '\n' || s[k] == '\r'),
        i == 0 || !(s[i - 1] == '\n' || s[i - 1] == '\r'),
    ensures
        trailing_breaks(s) == s.len() - i,
    decreases s.len(),
{
    if i < s.len() {
        let t = s.drop_last();
        assert forall|k: int| i <= k < t.len() implies (#[trigger] t[k] == '\n' || t[k] == '\r') by {
            assert(t[k] == s[k]);
        }
        if i > 0 {
            assert(t[i - 1] == s[i - 1]);
        }
        lemma_trailing_breaks(t, i);
    }
}

/// What `block_body` gives: a scalar's text, or a block's inside with its
/// shared indentation removed and outer whitespace trimmed.
pub open spec fn block_body_spec(b: Seq<u8>, value: Value) -> Seq<char> {
    match value {
        Value::Scalar(s) => scalar_text(s),
        Value::Block(bl) => trim_spec(
            join(
                dedent_spec(
                    encode_utf8(
                        strip_breaks(text_at(b, bl.inner.start as int, bl.inner.end as int)),
                    ),
                ),
                seq!['\n'],
            ),
        ),
    }
}

/// A block's inside can be dedented.
pub open spec fn body_fits(b: Seq<u8>, value: Value) -> bool {
    match value {
        Value::Scalar(_) => true,
        Value::Block(bl) => dedent_fits(
            encode_utf8(strip_breaks(text_at(b, bl.inner.start as int, bl.inner.end as int))),
        ),
    }
}

/// Text of a block body with shared indentation removed, for showing a nested
/// block such as `completion_reward` in a plain editor.
pub fn block_body(source: &str, value: &Value) -> (body: String)
    requires
        value_fits(bytes_of(source), *value),
        body_fits(bytes_of(source), *value),
    ensures
        body@ == block_body_spec(bytes_of(source), *value),
{
    match try_block_body(source, value) {
        Some(body) => body,
        None => String::new(),
    }
}

/// `block_body`, or `None` where the block's indentation cannot be cut on
/// character boundaries.
pub fn try_block_body(source: &str, value: &Value) -> (body: Option<String>)
    requires
        value_fits(bytes_of(source), *value),
    ensures
        body is Some <==> body_fits(bytes_of(source), *value),
        body matches Some(text) ==> text@ == block_body_spec(bytes_of(source), *value),
{
    match value {
        Value::Scalar(scalar) => {
            let text = scalar.value();
            assert(text@ == scalar_text(*scalar));
            Some(text)
        },
        Value::Block(block) => {
            let inner = block.inner.text(source);
            assert(inner@ == text_at(bytes_of(source), block.inner.start as int, block.inner.end as int));
            try_tidy_body(inner)
        },
    }
}

/// A stretch of script as a plain editor shows it: outer line breaks
/// dropped, the indentation every line shares removed, whitespace trimmed.
pub open spec fn tidy_body_spec(t: Seq<char>) -> Seq<char> {
    trim_spec(join(dedent_spec(encode_utf8(strip_breaks(t))), seq!['\n']))
}

/// The shared indentation of a stretch of script can be cut on character
/// boundaries.
pub open spec fn tidy_fits(t: Seq<char>) -> bool {
    dedent_fits(encode_utf8(strip_breaks(t)))
}

/// `tidy_body_spec` of a text, or `None` where its indentation cannot be cut.
pub fn try_tidy_body(text: &str) -> (body: Option<String>)
    ensures
        body is Some <==> tidy_fits(text@),
        body matches Some(t) ==> t@ == tidy_body_spec(text@),
{
    let v = chars_of(text);
    let mut i: usize = 0;
    while i < v.len() && (v[i] == '\n' || v[i] == '\r')
        invariant
            i <= v@.len(),
            forall|k: int| 0 <= k < i ==> (#[trigger] v@[k] == '\n' || v@[k] == '\r'),
        decreases v@.len() - i,
    {
        i = i + 1;
    }
    let mut j: usize = v.len();
    while j > i && (v[j - 1] == '\n' || v[j - 1] == '\r')
        invariant
            i <= j <= v@.len(),
            forall|k: int| j <= k < v@.len() ==> (#[trigger] v@[k] == '\n' || v@[k] == '\r'),
        decreases j - i,
    {
        j = j - 1;
    }
    proof {
        lemma_leading_breaks(v@, i as int);
        let t = v@.skip(i as int);
        assert forall|k: int| j - i <= k < t.len() implies (#[trigger] t[k] == '\n' || t[k]
            == '\r') by {
            assert(t[k] == v@[k + i]);
        }
        if j > i {
            assert(t[j - i - 1] == v@[j - 1]);
        }
        lemma_trailing_breaks(t, (j - i) as int);
        assert(v@.subrange(i as int, j as int) =~= strip_breaks(v@));
    }
    let stripped = string_from_chars(&v, i, j);
    let lines = match try_dedent(stripped.as_str()) {
        Some(lines) => lines,
        None => {
            return None;
        },
    };
    let joined = join_strings(&lines, "\n");
    proof {
        reveal_strlit("\n");
        assert(crate::text::views(lines@) =~= dedent_spec(encode_utf8(stripped@)));
    }
    assert("\n"@ =~= seq!['\n']);
    assert(joined@ == join(dedent_spec(encode_utf8(stripped@)), seq!['\n']));
    Some(trim(joined.as_str()))
}

/// What setting one field resolves to, as plain values.
pub enum ChangeView {
    /// Rewrite the value of an assignment that is already there.
    Replace(Span, Seq<char>),
    /// Delete an assignment that is already there.
    Remove(Span),
    /// Append a new line to the block body.
    Add(Seq<char>),
    Nothing,
}

/// What setting one field resolves to against the current source.
enum Change {
    Replace(TextEdit),
    Remove(Vec<TextEdit>),
    Add(String),
    Nothing,
}

/// The text a value is written as: quoted when it has to be.
pub open spec fn raw_spec(t: Seq<char>) -> Seq<char> {
    if needs_quotes_spec(t) {
        quote_spec(t)
    } else {
        t
    }
}

/// `key = ` in front of a value.
pub open spec fn assignment(key: Seq<char>, value: Seq<char>) -> Seq<char> {
    key + seq![' ', '=', ' '] + value
}

/// What `set_scalar(key, value)` does to a block: replace the existing
/// value, remove the pair when the value is blank, or add `key = value`.
pub open spec fn scalar_change_spec(b: Seq<u8>, block: Block, key: Seq<char>, value: Seq<char>) -> ChangeView {
    let t = trim_spec(value);
    match find_spec(block.items@, key) {
        Some(pair) => if holds_scalar(pair.value, t) {
            ChangeView::Nothing
        } else if t.len() == 0 {
            ChangeView::Remove(removal_span(b, pair))
        } else {
            ChangeView::Replace(value_span(pair.value), raw_spec(t))
        },
        None => if t.len() == 0 {
            ChangeView::Nothing
        } else {
            ChangeView::Add(assignment(key, raw_spec(t)))
        },
    }
}

/// A value that already is the scalar `t`, as a form reads it back.
pub open spec fn holds_scalar(v: Value, t: Seq<char>) -> bool {
    match v {
        Value::Scalar(s) => scalar_text(s) == t,
        Value::Block(_) => false,
    }
}

/// What `set_block(key, content)` does to a block: the same, with the
/// content written as a brace block; a body that already reads back as the
/// content is left alone.
pub open spec fn block_change_spec(b: Seq<u8>, block: Block, key: Seq<char>, content: Seq<char>) -> ChangeView {
    let t = trim_spec(content);
    let newline = newline_spec(b);
    match find_spec(block.items@, key) {
        Some(pair) => if body_fits(b, pair.value) && block_body_spec(b, pair.value) == t {
            ChangeView::Nothing
        } else if t.len() == 0 {
            ChangeView::Remove(removal_span(b, pair))
        } else {
            ChangeView::Replace(
                value_span(pair.value),
                format_block_spec(t, indent_spec(b, pair.span.start as int), newline),
            )
        },
        None => if t.len() == 0 {
            ChangeView::Nothing
        } else {
            ChangeView::Add(
                assignment(key, format_block_spec(t, child_indent_spec(b, block), newline)),
            )
        },
    }
}

spec fn change_view(c: Change) -> ChangeView {
    match c {
        Change::Replace(e) => ChangeView::Replace(e.span, e.replacement@),
        Change::Remove(es) => if es@.len() == 1 && es@[0].replacement@.len() == 0 {
            ChangeView::Remove(es@[0].span)
        } else {
            ChangeView::Nothing
        },
        Change::Add(line) => ChangeView::Add(line@),
        Change::Nothing => ChangeView::Nothing,
    }
}

spec fn change_fits(b: Seq<u8>, c: Change) -> bool {
    match c {
        Change::Replace(e) => edits_fit(b, seq![e]),
        Change::Remove(es) => edits_fit(b, es@) && es@.len() == 1 && es@[0].replacement@.len()
            == 0,
        _ => true,
    }
}

fn scalar_change(source: &str, block: &Block, key: &str, value: &str) -> (c: Change)
    requires
        value_fits(bytes_of(source), Value::Block(*block)),
    ensures
        change_view(c) == scalar_change_spec(bytes_of(source), *block, key@, value@),
        change_fits(bytes_of(source), c),
{
    let trimmed = trim(value);
    let existing = block.find(key);
    proof {
        super::parser::lemma_block_pairs_fit(bytes_of(source), *block, key@);
    }
    if let Some(pair) = existing {
        let same = match &pair.value {
            Value::Scalar(scalar) => crate::text::str_eq(scalar.value().as_str(), trimmed.as_str()),
            Value::Block(_) => false,
        };
        if same {
            return Change::Nothing;
        }
    }
    if trimmed.as_str().is_empty() {
        return match existing {
            Some(pair) => {
                Change::Remove(remove_pair(source, pair))
            },
            None => Change::Nothing,
        };
    }
    let raw = if needs_quotes(trimmed.as_str()) {
        quote(trimmed.as_str())
    } else {
        trimmed.as_str().to_owned()
    };
    match existing {
        Some(pair) => Change::Replace(TextEdit::new(pair.value.span(), raw)),
        None => {
            let mut line = String::new();
            line.push_str(key);
            line.push_str(" = ");
            line.push_str(raw.as_str());
            proof {
                reveal_strlit(" = ");
                assert(line@ =~= assignment(key@, raw@));
            }
            Change::Add(line)
        },
    }
}

fn block_change(source: &str, block: &Block, key: &str, content: &str) -> (c: Change)
    requires
        value_fits(bytes_of(source), Value::Block(*block)),
        dedent_fits(encode_utf8(trim_spec(content@))),
    ensures
        change_view(c) == block_change_spec(bytes_of(source), *block, key@, content@),
        change_fits(bytes_of(source), c),
{
    let trimmed = trim(content);
    let existing = block.find(key);
    let newline = detect_newline(source);
    proof {
        super::parser::lemma_block_pairs_fit(bytes_of(source), *block, key@);
        lemma_trim_idempotent(content@);
    }
    if let Some(pair) = existing {
        let same = match try_block_body(source, &pair.value) {
            Some(body) => crate::text::str_eq(body.as_str(), trimmed.as_str()),
            None => false,
        };
        if same {
            return Change::Nothing;
        }
    }
    if trimmed.as_str().is_empty() {
        return match existing {
            Some(pair) => Change::Remove(remove_pair(source, pair)),
            None => Change::Nothing,
        };
    }
    match existing {
        Some(pair) => {
            let indent = indent_at(source, pair.span.start);
            let text = format_block(trimmed.as_str(), indent.as_str(), newline);
            Change::Replace(TextEdit::new(pair.value.span(), text))
        },
        None => {
            let indent = child_indent(source, block);
            let text = format_block(trimmed.as_str(), indent.as_str(), newline);
            let mut line = String::new();
            line.push_str(key);
            line.push_str(" = ");
            line.push_str(text.as_str());
            proof {
                reveal_strlit(" = ");
                assert(line@ =~= assignment(key@, text@));
            }
            Change::Add(line)
        },
    }
}

proof fn lemma_fit_push(b: Seq<u8>, edits: Seq<TextEdit>, e: TextEdit)
    requires
        edits_fit(b, edits),
        edits_fit(b, seq![e]),
    ensures
        edits_fit(b, edits.push(e)),
{
    assert(seq![e][0] == e);
    assert forall|k: int| 0 <= k < edits.push(e).len() implies #[trigger] edits.push(e)[k].span.start
        <= edits.push(e)[k].span.end <= b.len() && boundary(b, edits.push(e)[k].span.start as int)
        && boundary(b, edits.push(e)[k].span.end as int) by {
        if k < edits.len() {
            assert(edits.push(e)[k] == edits[k]);
        }
    }
}

proof fn lemma_char_start(b: Seq<u8>, e: int)
    requires
        e > 0,
    ensures
        0 <= char_start(b, e) < e,
    decreases e,
{
    reveal_with_fuel(char_start, 2);
    if e > 1 && vstd::utf8::is_continuation_byte(b[e - 1]) {
        lemma_char_start(b, e - 1);
    }
}

pub proof fn lemma_insertion_start(b: Seq<u8>, block: Block)
    requires
        value_fits(b, Value::Block(block)),
    ensures
        block.inner.start <= insertion_start(b, block) <= block.inner.end || (insertion_start(
            b,
            block,
        ) <= block.inner.end),
        0 <= insertion_start(b, block) <= block.inner.end,
{
    let at = block.inner.end as int;
    crate::paradox::lexer::lemma_trim_back(b, 0, at);
    let e = trim_back(b, 0, at);
    if e > 0 {
        lemma_char_start(b, e);
    }
}

/// The edits as plain values: where each lands and what it writes.
pub open spec fn edit_views(edits: Seq<TextEdit>) -> Seq<(Span, Seq<char>)> {
    Seq::new(edits.len(), |k: int| (edits[k].span, edits[k].replacement@))
}

/// The effect of one change on the edits and the queued lines.
pub open spec fn record(
    edits: Seq<(Span, Seq<char>)>,
    additions: Seq<Seq<char>>,
    c: ChangeView,
) -> (Seq<(Span, Seq<char>)>, Seq<Seq<char>>) {
    match c {
        ChangeView::Replace(span, text) => (edits.push((span, text)), additions),
        ChangeView::Remove(span) => (edits.push((span, Seq::empty())), additions),
        ChangeView::Add(line) => (edits, additions.push(line)),
        ChangeView::Nothing => (edits, additions),
    }
}

/// Collects every edit made to one block.
///
/// New lines are gathered and emitted as a single insertion when the editor is
/// finished. Each insertion targets the same span just before the closing
/// brace, so appending them one at a time would leave `apply_edits` keeping
/// only the first and silently dropping the rest.
pub struct BlockEditor<'a> {
    source: &'a str,
    block: &'a Block,
    edits: Vec<TextEdit>,
    additions: Vec<String>,
}

impl<'a> BlockEditor<'a> {
    /// The source and block it edits, the edits so far and the lines queued.
    pub closed spec fn source_bytes(&self) -> Seq<u8> {
        bytes_of(self.source)
    }

    pub closed spec fn edited_block(&self) -> Block {
        *self.block
    }

    pub closed spec fn edit_list(&self) -> Seq<(Span, Seq<char>)> {
        edit_views(self.edits@)
    }

    pub closed spec fn addition_list(&self) -> Seq<Seq<char>> {
        crate::text::views(self.additions@)
    }

    pub closed spec fn queued_lines(&self) -> Seq<String> {
        self.additions@
    }

    /// The block lies in the source, and every edit so far fits it.
    pub closed spec fn wf(&self) -> bool {
        &&& value_fits(bytes_of(self.source), Value::Block(*self.block))
        &&& edits_fit(bytes_of(self.source), self.edits@)
    }

    pub fn new(source: &'a str, block: &'a Block) -> (editor: Self)
        requires
            value_fits(bytes_of(source), Value::Block(*block)),
        ensures
            editor.wf(),
            editor.source_bytes() == bytes_of(source),
            editor.edited_block() == *block,
            editor.edit_list() == Seq::<(Span, Seq<char>)>::empty(),
            editor.addition_list() == Seq::<Seq<char>>::empty(),
    {
        let editor = BlockEditor { source, block, edits: Vec::new(), additions: Vec::new() };
        assert(edit_views(editor.edits@) =~= Seq::<(Span, Seq<char>)>::empty());
        assert(crate::text::views(editor.additions@) =~= Seq::<Seq<char>>::empty());
        editor
    }

    pub fn source(&self) -> (s: &'a str)
        ensures
            bytes_of(s) == self.source_bytes(),
    {
        self.source
    }

    pub fn block(&self) -> (b: &'a Block)
        ensures
            *b == self.edited_block(),
    {
        self.block
    }

    /// The queued lines, as text, are the addition list.
    pub proof fn lemma_queued(&self)
        ensures
            crate::text::views(self.queued_lines()) == self.addition_list(),
    {
    }

    /// A well-formed editor's block lies inside its source.
    pub proof fn lemma_block_fits(&self)
        requires
            self.wf(),
        ensures
            value_fits(self.source_bytes(), Value::Block(self.edited_block())),
    {
    }

    /// Sets `key = value`, adding the key when it is missing and deleting it
    /// when `value` is empty.
    pub fn set_scalar(&mut self, key: &str, value: &str) -> (r: &mut Self)
        requires
            old(self).wf(),
        ensures
            *final(self) == *final(r),
            r.wf(),
            r.source_bytes() == old(self).source_bytes(),
            r.edited_block() == old(self).edited_block(),
            (r.edit_list(), r.addition_list()) == record(
                old(self).edit_list(),
                old(self).addition_list(),
                scalar_change_spec(old(self).source_bytes(), old(self).edited_block(), key@, value@),
            ),
    {
        let change = scalar_change(self.source, self.block, key, value);
        self.apply(change)
    }

    /// Sets `key = { ... }` with `content` as the body.
    pub fn set_block(&mut self, key: &str, content: &str) -> (r: &mut Self)
        requires
            old(self).wf(),
            dedent_fits(encode_utf8(trim_spec(content@))),
        ensures
            *final(self) == *final(r),
            r.wf(),
            r.source_bytes() == old(self).source_bytes(),
            r.edited_block() == old(self).edited_block(),
            (r.edit_list(), r.addition_list()) == record(
                old(self).edit_list(),
                old(self).addition_list(),
                block_change_spec(old(self).source_bytes(), old(self).edited_block(), key@, content@),
            ),
    {
        let change = block_change(self.source, self.block, key, content);
        self.apply(change)
    }

    pub fn edit(&mut self, edit: TextEdit) -> (r: &mut Self)
        requires
            old(self).wf(),
            edits_fit(old(self).source_bytes(), seq![edit]),
        ensures
            *final(self) == *final(r),
            r.wf(),
            r.source_bytes() == old(self).source_bytes(),
            r.edited_block() == old(self).edited_block(),
            r.edit_list() == old(self).edit_list().push((edit.span, edit.replacement@)),
            r.addition_list() == old(self).addition_list(),
    {
        let ghost before = self.edits@;
        proof {
            lemma_fit_push(bytes_of(self.source), before, edit);
        }
        self.edits.push(edit);
        proof {
            assert(edit_views(self.edits@) =~= edit_views(before).push((edit.span, edit.replacement@)));
            assert(self.edits@[before.len() as int] == edit);
        }
        self
    }

    pub fn remove(&mut self, pair: &Pair) -> (r: &mut Self)
        requires
            old(self).wf(),
            item_fits(old(self).source_bytes(), Item::Pair(*pair)),
        ensures
            *final(self) == *final(r),
            r.wf(),
            r.source_bytes() == old(self).source_bytes(),
            r.edited_block() == old(self).edited_block(),
            r.edit_list() == old(self).edit_list().push(
                (removal_span(old(self).source_bytes(), *pair), Seq::empty()),
            ),
            r.addition_list() == old(self).addition_list(),
    {
        let removal = remove_pair(self.source, pair);
        let ghost before = self.edits@;
        let mut removal = removal;
        let ghost rs = removal@;
        let edit = removal.pop().unwrap();
        proof {
            assert(edit == rs[0]);
            assert(edits_fit(bytes_of(self.source), seq![edit])) by {
                assert(seq![edit][0] == rs[0]);
            }
            lemma_fit_push(bytes_of(self.source), before, edit);
            assert(edit.replacement@ =~= Seq::<char>::empty());
        }
        self.edits.push(edit);
        proof {
            assert(edit_views(self.edits@) =~= edit_views(before).push((edit.span, edit.replacement@)));
            assert(self.edits@[before.len() as int] == edit);
        }
        self
    }

    /// Queues a whole line to append inside the block.
    pub fn add_line(&mut self, line: String) -> (r: &mut Self)
        requires
            old(self).wf(),
        ensures
            *final(self) == *final(r),
            r.wf(),
            r.source_bytes() == old(self).source_bytes(),
            r.edited_block() == old(self).edited_block(),
            r.edit_list() == old(self).edit_list(),
            r.addition_list() == old(self).addition_list().push(line@),
    {
        let ghost before = self.additions@;
        self.additions.push(line);
        assert(crate::text::views(self.additions@) =~= crate::text::views(before).push(line@));
        self
    }

    fn apply(&mut self, change: Change) -> (r: &mut Self)
        requires
            old(self).wf(),
            change_fits(bytes_of(old(self).source), change),
        ensures
            *final(self) == *final(r),
            r.wf(),
            r.source == old(self).source,
            r.block == old(self).block,
            (r.edit_list(), r.addition_list()) == record(
                old(self).edit_list(),
                old(self).addition_list(),
                change_view(change),
            ),
    {
        let ghost edits0 = self.edits@;
        let ghost adds0 = self.additions@;
        match change {
            Change::Replace(edit) => {
                proof {
                    lemma_fit_push(bytes_of(self.source), edits0, edit);
                }
                self.edits.push(edit);
                assert(edit_views(self.edits@) =~= edit_views(edits0).push(
                    (edit.span, edit.replacement@),
                ));
            },
            Change::Remove(edits) => {
                let mut edits = edits;
                let ghost es = edits@;
                let edit = edits.pop().unwrap();
                proof {
                    assert(edit == es[0]);
                    assert(edits_fit(bytes_of(self.source), seq![edit])) by {
                        assert(seq![edit][0] == es[0]);
                    }
                    lemma_fit_push(bytes_of(self.source), edits0, edit);
                    assert(edit.replacement@ =~= Seq::<char>::empty());
                }
                self.edits.push(edit);
                assert(edit_views(self.edits@) =~= edit_views(edits0).push(
                    (edit.span, Seq::empty()),
                ));
            },
            Change::Add(line) => {
                self.additions.push(line);
                assert(crate::text::views(self.additions@) =~= crate::text::views(adds0).push(
                    line@,
                ));
            },
            Change::Nothing => {},
        }
        self
    }

    /// What `finish` hands on: the edits collected, the queued lines
    /// inserted as one edit before the block's closing brace; a removal that
    /// reaches into the text that insertion replaces is folded into it.
    pub open spec fn finished_views(&self) -> Seq<(Span, Seq<char>)> {
        let b = self.source_bytes();
        let block = self.edited_block();
        let settled = settle(b, block, self.edit_list(), insertion_start(b, block));
        if self.addition_list().len() > 0 {
            settled.0.push(
                (
                    Span { start: settled.1 as usize, end: block.inner.end },
                    lines_body(self.queued_lines(), newline_spec(b), child_indent_spec(b, block))
                        + newline_spec(b) + indent_spec(b, block.span.start as int),
                ),
            )
        } else {
            self.edit_list()
        }
    }

    /// The edits collected, the queued lines inserted as one edit before the
    /// block's closing brace; a removal that reaches into the text that
    /// insertion replaces is folded into it.
    pub fn finish(self) -> (edits: Vec<TextEdit>)
        requires
            self.wf(),
        ensures
            ({
                let b = self.source_bytes();
                let block = self.edited_block();
                let settled = settle(b, block, self.edit_list(), insertion_start(b, block));
                &&& edit_views(edits@) == self.finished_views()
                &&& self.addition_list().len() > 0 && boundary(b, settled.1) ==> edits_fit(b, edits@)
                &&& self.addition_list().len() == 0 ==> edits_fit(b, edits@)
            }),
    {
        let mut edits = self.edits;
        let ghost b = bytes_of(self.source);
        let ghost block = *self.block;
        if self.additions.len() == 0 {
            assert(edit_views(edits@) =~= edit_views(self.edits@));
            return edits;
        }
        let insertion = insert_lines(self.source, self.block, self.additions.as_slice());
        let mut s = insertion.span.start;
        proof {
            lemma_insertion_start(b, block);
        }
        let end = self.block.inner.end;
        loop
            invariant
                b == bytes_of(self.source),
                block == *self.block,
                end == block.inner.end,
                value_fits(b, Value::Block(block)),
                edits_fit(b, edits@),
                s <= end,
                settle(b, block, self.edit_list(), insertion_start(b, block)) == settle(
                    b,
                    block,
                    edit_views(edits@),
                    s as int,
                ),
            ensures
                first_overlap(edit_views(edits@), s as int, end as int, 0) == edits@.len(),
            decreases edits@.len(),
        {
            let k = first_overlapping(&edits, s, end);
            if k == edits.len() {
                break;
            }
            let a = edits[k].span.start;
            let ghost before = edits@;
            proof {
                assert(edit_views(before)[k as int].0.start == a);
                assert(edit_views(before)[k as int].0.start < end) by {
                    lemma_first_overlap(edit_views(before), s as int, end as int, 0);
                }
            }
            let from = if a < self.block.inner.start {
                self.block.inner.start
            } else {
                a
            };
            let p = insertion_point_at(self.source, self.block, from);
            edits.remove(k);
            proof {
                assert(edit_views(edits@) =~= edit_views(before).remove(k as int));
                assert forall|j: int| 0 <= j < edits@.len() implies #[trigger] edits@[j].span.start
                    <= edits@[j].span.end <= b.len() && boundary(b, edits@[j].span.start as int)
                    && boundary(b, edits@[j].span.end as int) by {
                    if j < k {
                        assert(edits@[j] == before[j]);
                    } else {
                        assert(edits@[j] == before[j + 1]);
                    }
                }
            }
            let next = if p < s {
                p
            } else {
                s
            };
            proof {
                lemma_first_overlap(edit_views(before), s as int, end as int, 0);
                assert(settle(b, block, edit_views(before), s as int) == settle(
                    b,
                    block,
                    edit_views(before).remove(k as int),
                    next as int,
                ));
            }
            s = next;
        }
        proof {
            assert(settle(b, block, edit_views(edits@), s as int) == (edit_views(edits@), s as int));
        }
        let edit = TextEdit::new(Span::new(s, end), insertion.replacement);
        let ghost kept = edits@;
        edits.push(edit);
        proof {
            assert(edit_views(edits@) =~= edit_views(kept).push((edit.span, edit.replacement@)));
            assert(lines_body(self.additions@, newline_spec(b), child_indent_spec(b, block)) + newline_spec(b) + indent_spec(b, block.span.start as int) == edit.replacement@);
            if boundary(b, s as int) {
                assert(edits_fit(b, seq![edit])) by {
                    assert(seq![edit][0] == edit);
                    lemma_insertion_start(b, block);
                }
                lemma_fit_push(b, kept, edit);
            }
        }
        edits
    }
}

proof fn lemma_first_overlap(es: Seq<(Span, Seq<char>)>, s: int, end: int, k: int)
    requires
        0 <= k,
    ensures
        k <= first_overlap(es, s, end, k) <= es.len() || (k > es.len() && first_overlap(es, s, end, k) == es.len()),
        first_overlap(es, s, end, k) < es.len() ==> es[first_overlap(es, s, end, k)].1.len() == 0
            && es[first_overlap(es, s, end, k)].0.start < end
            && es[first_overlap(es, s, end, k)].0.end > s,
    decreases es.len() - k,
{
    if k < es.len() && !(es[k].1.len() == 0 && es[k].0.start < end && es[k].0.end > s) {
        lemma_first_overlap(es, s, end, k + 1);
    }
}

/// The first removal among `edits` that reaches into `[s, end)`, or the length.
fn first_overlapping(edits: &Vec<TextEdit>, s: usize, end: usize) -> (k: usize)
    ensures
        k == first_overlap(edit_views(edits@), s as int, end as int, 0),
        k <= edits@.len(),
{
    let mut k: usize = 0;
    while k < edits.len()
        invariant
            k <= edits@.len(),
            first_overlap(edit_views(edits@), s as int, end as int, 0) == first_overlap(
                edit_views(edits@),
                s as int,
                end as int,
                k as int,
            ),
        decreases edits@.len() - k,
    {
        if edits[k].replacement.as_str().is_empty() && edits[k].span.start < end && edits[k].span.end > s {
            return k;
        }
        k = k + 1;
    }
    k
}

/// `insertion_point` before an offset `at` inside the block.
fn insertion_point_at(source: &str, block: &Block, at: usize) -> (p: usize)
    requires
        value_fits(bytes_of(source), Value::Block(*block)),
        block.inner.start <= at <= block.inner.end,
    ensures
        p == insertion_point(bytes_of(source), *block, at as int),
        p <= at,
{
    let b = source.as_bytes();
    let inner_trimmed = back_over_whitespace(b, block.inner.start, at);
    if inner_trimmed == block.inner.start {
        return block.inner.start;
    }
    let e = back_over_whitespace(b, 0, at);
    proof {
        crate::paradox::lexer::lemma_trim_back(b@, 0, at as int);
        crate::paradox::lexer::lemma_trim_back(b@, block.inner.start as int, at as int);
    }
    if e > 0 {
        let mut j = e - 1;
        while j > 0 && 0x80 <= b[j] && b[j] <= 0xbf
            invariant
                j < e <= b@.len(),
                b@ == bytes_of(source),
                e == trim_back(b@, 0, at as int),
                char_start(b@, e as int) == char_start(b@, j + 1),
            decreases j,
        {
            j = j - 1;
        }
        assert(char_start(b@, j + 1) == j) by {
            reveal_with_fuel(char_start, 2);
        }
        j + 1
    } else {
        at
    }
}

proof fn lemma_sort_one(e: TextEdit)
    ensures
        sort_by_start(seq![e]) == seq![e],
{
    reveal_with_fuel(sort_by_start, 2);
    assert(seq![e].drop_last() =~= Seq::<TextEdit>::empty());
    assert(Seq::<TextEdit>::empty().push(e) =~= seq![e]);
}

/// Law: applying no edits gives the source back unchanged.
pub proof fn law_no_edits_keep_the_source(source: &str)
    ensures
        apply_edits_spec(bytes_of(source), Seq::empty()) == source@,
{
    let b = bytes_of(source);
    assert(sort_by_start(Seq::<TextEdit>::empty()) =~= Seq::<TextEdit>::empty());
    if b.len() > 0 {
        assert(b.subrange(0, b.len() as int) =~= b);
    } else {
        assert(source@ =~= Seq::<char>::empty()) by {
            vstd::utf8::encode_utf8_decode_utf8(source@);
        }
    }
    vstd::utf8::encode_utf8_decode_utf8(source@);
}

/// Law: one edit replaces exactly the text its span covers and leaves the
/// rest of the source as it was.
pub proof fn law_single_edit_replaces_its_span(b: Seq<u8>, e: TextEdit)
    requires
        edits_fit(b, seq![e]),
    ensures
        apply_edits_spec(b, seq![e]) == text_at(b, 0, e.span.start as int) + e.replacement@
            + text_at(b, e.span.end as int, b.len() as int),
{
    lemma_sort_one(e);
    reveal_with_fuel(splice, 3);
    if e.span.end == b.len() {
        assert(b.subrange(e.span.end as int, b.len() as int) =~= Seq::<u8>::empty());
        assert(text_at(b, e.span.end as int, b.len() as int) =~= Seq::<char>::empty());
    }
}

/// Law: two edits that do not overlap both land, each on its own span,
/// whichever order they were made in: later edits do not shift earlier ones.
pub proof fn law_disjoint_edits_commute(b: Seq<u8>, first: TextEdit, second: TextEdit)
    requires
        edits_fit(b, seq![first, second]),
        first.span.end <= second.span.start,
        first.span.start < second.span.start,
    ensures
        apply_edits_spec(b, seq![first, second]) == apply_edits_spec(b, seq![second, first]),
        apply_edits_spec(b, seq![first, second]) == text_at(b, 0, first.span.start as int)
            + first.replacement@ + text_at(b, first.span.end as int, second.span.start as int)
            + second.replacement@ + text_at(b, second.span.end as int, b.len() as int),
{
    let s1 = seq![first, second];
    let s2 = seq![second, first];
    assert(s1.drop_last() =~= seq![first]);
    assert(seq![first].drop_last() =~= Seq::<TextEdit>::empty());
    assert(s2.drop_last() =~= seq![second]);
    assert(seq![second].drop_last() =~= Seq::<TextEdit>::empty());
    lemma_sort_one(first);
    lemma_sort_one(second);
    reveal_with_fuel(splice, 4);
    assert(insert_stable(seq![first], second) =~= s1);
    assert(seq![second].drop_last() =~= Seq::<TextEdit>::empty());
    assert(insert_stable(Seq::<TextEdit>::empty(), first) =~= seq![first]);
    assert(insert_stable(seq![second], first) =~= s1);
    assert(sort_by_start(s1) =~= s1);
    assert(sort_by_start(s2) =~= s1);
    assert(s1[0] == first && s1[1] == second);
    if second.span.end == b.len() {
        assert(b.subrange(second.span.end as int, b.len() as int) =~= Seq::<u8>::empty());
        assert(text_at(b, second.span.end as int, b.len() as int) =~= Seq::<char>::empty());
    }
    assert(apply_edits_spec(b, s1) =~= text_at(b, 0, first.span.start as int)
        + first.replacement@ + text_at(b, first.span.end as int, second.span.start as int)
        + second.replacement@ + text_at(b, second.span.end as int, b.len() as int));
}

/// Whether an edit lies inside the source on character boundaries.
pub fn edit_fits(source: &str, edit: &TextEdit) -> (r: bool)
    ensures
        r == edits_fit(bytes_of(source), seq![*edit]),
{
    let b = source.as_bytes();
    let fits = edit.span.start <= edit.span.end && edit.span.end <= b.len() && is_boundary(
        b,
        edit.span.start,
    ) && is_boundary(b, edit.span.end);
    proof {
        if fits {
            assert forall|k: int| 0 <= k < 1 implies #[trigger] seq![*edit][k].span.start
                <= seq![*edit][k].span.end <= bytes_of(source).len() && boundary(
                bytes_of(source),
                seq![*edit][k].span.start as int,
            ) && boundary(bytes_of(source), seq![*edit][k].span.end as int) by {
                assert(seq![*edit][k] == *edit);
            }
        } else {
            assert(seq![*edit][0] == *edit);
        }
    }
    fits
}

/// Whether every edit of a list lies inside the source on character boundaries.
pub fn edits_fit_all(source: &str, edits: &Vec<TextEdit>) -> (r: bool)
    ensures
        r == edits_fit(bytes_of(source), edits@),
{
    let mut k: usize = 0;
    while k < edits.len()
        invariant
            k <= edits@.len(),
            edits_fit(bytes_of(source), edits@.take(k as int)),
        decreases edits@.len() - k,
    {
        if !edit_fits(source, &edits[k]) {
            proof {
                assert(seq![edits@[k as int]][0] == edits@[k as int]);
            }
            return false;
        }
        proof {
            assert(seq![edits@[k as int]][0] == edits@[k as int]);
            let t = edits@.take(k + 1);
            assert forall|j: int| 0 <= j < t.len() implies #[trigger] t[j].span.start <= t[j].span.end
                <= bytes_of(source).len() && boundary(bytes_of(source), t[j].span.start as int)
                && boundary(bytes_of(source), t[j].span.end as int) by {
                if j < k {
                    assert(t[j] == edits@.take(k as int)[j]);
                } else {
                    assert(t[j] == edits@[k as int]);
                }
            }
        }
        k = k + 1;
    }
    assert(edits@.take(edits@.len() as int) =~= edits@);
    true
}


/// Law: saving a value a key already holds rewrites nothing. Setting such a
/// scalar records no change, an editor that recorded none finishes with no
/// edits, and no edits give the file's text back byte for byte: a save that
/// changes nothing leaves the file as it was, comments and layout included.
pub proof fn law_unchanged_value_changes_nothing(
    source: &str,
    block: Block,
    key: Seq<char>,
    value: Seq<char>,
)
    requires
        find_spec(block.items@, key) matches Some(p) && holds_scalar(p.value, trim_spec(value)),
    ensures
        scalar_change_spec(bytes_of(source), block, key, value) == ChangeView::Nothing,
        record(Seq::empty(), Seq::empty(), ChangeView::Nothing) == (
            Seq::<(Span, Seq<char>)>::empty(),
            Seq::<Seq<char>>::empty(),
        ),
        settle(
            bytes_of(source),
            block,
            Seq::empty(),
            insertion_start(bytes_of(source), block),
        ).0 == Seq::<(Span, Seq<char>)>::empty(),
        apply_edits_spec(bytes_of(source), Seq::empty()) == source@,
{
    law_no_edits_keep_the_source(source);
}

/// Law: saving a block whose body already reads as the content rewrites
/// nothing either.
pub proof fn law_unchanged_block_changes_nothing(
    source: &str,
    block: Block,
    key: Seq<char>,
    content: Seq<char>,
)
    requires
        find_spec(block.items@, key) matches Some(p) && body_fits(bytes_of(source), p.value)
            && block_body_spec(bytes_of(source), p.value) == trim_spec(content),
    ensures
        block_change_spec(bytes_of(source), block, key, content) == ChangeView::Nothing,
{
}

/// Lines with the same texts lay out the same.
proof fn lemma_lines_body_views(a: Seq<String>, c: Seq<String>, newline: Seq<char>, indent: Seq<char>)
    requires
        crate::text::views(a) == crate::text::views(c),
    ensures
        lines_body(a, newline, indent) == lines_body(c, newline, indent),
    decreases a.len(),
{
    assert(a.len() == crate::text::views(a).len());
    assert(c.len() == crate::text::views(c).len());
    if a.len() > 0 {
        assert(crate::text::views(a.drop_last()) =~= crate::text::views(c.drop_last())) by {
            assert forall|k: int| 0 <= k < a.len() - 1 implies crate::text::views(a.drop_last())[k]
                == crate::text::views(c.drop_last())[k] by {
                assert(crate::text::views(a)[k] == crate::text::views(c)[k]);
            }
        }
        lemma_lines_body_views(a.drop_last(), c.drop_last(), newline, indent);
        assert(crate::text::views(a)[a.len() - 1] == crate::text::views(c)[c.len() - 1]);
    }
}

/// Law: two lines queued one after the other by `add_line` on a fresh
/// editor come out of `finish` as a single insertion before the block's
/// closing brace, in the order they were queued: the edit `insert_lines`
/// makes of both. `e1` is `e0` after `add_line(first)` and `e2` is `e1`
/// after `add_line(second)`, as those calls state.
pub proof fn law_added_lines_finish_as_one_insertion(
    e0: BlockEditor,
    e1: BlockEditor,
    e2: BlockEditor,
    first: String,
    second: String,
)
    requires
        e0.edit_list() == Seq::<(Span, Seq<char>)>::empty(),
        e0.addition_list() == Seq::<Seq<char>>::empty(),
        e1.source_bytes() == e0.source_bytes(),
        e1.edited_block() == e0.edited_block(),
        e1.edit_list() == e0.edit_list(),
        e1.addition_list() == e0.addition_list().push(first@),
        e2.source_bytes() == e1.source_bytes(),
        e2.edited_block() == e1.edited_block(),
        e2.edit_list() == e1.edit_list(),
        e2.addition_list() == e1.addition_list().push(second@),
    ensures
        ({
            let b = e0.source_bytes();
            let block = e0.edited_block();
            e2.finished_views() == seq![
                (
                    Span { start: insertion_start(b, block) as usize, end: block.inner.end },
                    insertion_text(b, block, seq![first, second]),
                ),
            ]
        }),
{
    let b = e0.source_bytes();
    let block = e0.edited_block();
    assert(first_overlap(Seq::empty(), insertion_start(b, block), block.inner.end as int, 0) == 0);
    e2.lemma_queued();
    assert(crate::text::views(seq![first, second]) =~= seq![first@, second@]);
    assert(e2.addition_list() =~= seq![first@, second@]);
    lemma_lines_body_views(
        e2.queued_lines(),
        seq![first, second],
        newline_spec(b),
        child_indent_spec(b, block),
    );
}

} // verus!
