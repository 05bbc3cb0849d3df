//! Recursive-descent parser producing a span-annotated tree.
//!
//! Nothing is normalised: every node points back at the byte range it was read
//! from, which is what lets the editor patch one value and leave the author's
//! formatting, comments and ordering untouched.
use super::lexer::{lex_source, lexeme_fits, token_of, tokenize, unquote_spec, Lexeme, Token, TokenKind};
use crate::text::{boundary, bytes_of, eq_ignore_ascii_case, eq_ignore_ascii_case_spec, str_eq, text_at};
use super::Span;
use vstd::prelude::*;

verus! {

#[derive(Debug, Clone)]
pub struct ParseError {
    pub message: String,
    pub offset: usize,
}

#[derive(Debug, Clone)]
pub struct Scalar {
    pub raw: String,
    pub span: Span,
    pub quoted: bool,
}

#[derive(Debug)]
pub struct Block {
    /// Byte range including both braces.
    pub span: Span,
    /// Byte range between the braces.
    pub inner: Span,
    pub items: Vec<Item>,
}

#[derive(Debug)]
pub enum Value {
    Scalar(Scalar),
    Block(Block),
}

#[derive(Debug)]
pub struct Pair {
    pub key: String,
    /// The assignment token, usually `=` but comparisons appear in triggers.
    pub operator: String,
    pub value: Value,
    /// Byte range covering the whole `key = value` assignment.
    pub span: Span,
}

#[derive(Debug)]
pub enum Item {
    Pair(Pair),
    Value(Value),
}

#[derive(Debug)]
pub struct Document {
    pub items: Vec<Item>,
    /// Blocks the file never closed. Hearts of Iron IV accepts these — one of
    /// its own country files ends mid-block — so they are closed at the end of
    /// the file rather than rejected.
    pub unclosed_blocks: usize,
}

/// The tree as plain values.
pub enum ValueView {
    Scalar { raw: Seq<char>, span: Span, quoted: bool },
    Block { span: Span, inner: Span, items: Seq<ItemView> },
}

pub enum ItemView {
    Pair { key: Seq<char>, operator: Seq<char>, value: ValueView, span: Span },
    Value(ValueView),
}

pub open spec fn value_view(v: Value) -> ValueView
    decreases v,
{
    match v {
        Value::Scalar(s) => ValueView::Scalar { raw: s.raw@, span: s.span, quoted: s.quoted },
        Value::Block(b) => ValueView::Block {
            span: b.span,
            inner: b.inner,
            items: items_view(b.items@),
        },
    }
}

pub open spec fn item_view(it: Item) -> ItemView
    decreases it,
{
    match it {
        Item::Pair(p) => ItemView::Pair {
            key: p.key@,
            operator: p.operator@,
            value: value_view(p.value),
            span: p.span,
        },
        Item::Value(v) => ItemView::Value(value_view(v)),
    }
}

pub open spec fn items_view(s: Seq<Item>) -> Seq<ItemView>
    decreases s,
{
    if s.len() == 0 {
        Seq::empty()
    } else {
        items_view(s.drop_last()).push(item_view(s.last()))
    }
}

pub open spec fn view_span(v: ValueView) -> Span {
    match v {
        ValueView::Scalar { span, .. } => span,
        ValueView::Block { span, .. } => span,
    }
}

/// A span that cuts `b` on character boundaries.
pub open spec fn span_fits(b: Seq<u8>, s: Span) -> bool {
    s.start <= s.end <= b.len() && boundary(b, s.start as int) && boundary(b, s.end as int)
}

/// Every span in the value lies inside the source `b` on character
/// boundaries, and a scalar's raw text is the text its span covers.
pub open spec fn value_fits(b: Seq<u8>, v: Value) -> bool
    decreases v,
{
    match v {
        Value::Scalar(s) => span_fits(b, s.span) && s.raw@ == text_at(
            b,
            s.span.start as int,
            s.span.end as int,
        ),
        Value::Block(bl) => {
            &&& span_fits(b, bl.span)
            &&& span_fits(b, bl.inner)
            &&& bl.span.start <= bl.inner.start
            &&& bl.inner.end <= bl.span.end
            &&& forall|k: int| 0 <= k < bl.items.len() ==> item_fits(b, #[trigger] bl.items@[k])
        },
    }
}

pub open spec fn item_fits(b: Seq<u8>, it: Item) -> bool
    decreases it,
{
    match it {
        Item::Pair(p) => {
            &&& span_fits(b, p.span)
            &&& value_fits(b, p.value)
            &&& p.span.start <= value_span(p.value).start
            &&& p.span.end == value_span(p.value).end
        },
        Item::Value(v) => value_fits(b, v),
    }
}

pub open spec fn value_span(v: Value) -> Span {
    match v {
        Value::Scalar(s) => s.span,
        Value::Block(bl) => bl.span,
    }
}

/// The outcome of reading one construct from position `pos` of the token list.
pub enum Parsed<T> {
    Read(T, int, nat),
    Fail(Seq<char>, int),
}

/// The literal text of a token, quotes included.
pub open spec fn lexeme_raw(b: Seq<u8>, l: Lexeme) -> Seq<char> {
    text_at(b, l.start, l.end)
}

/// The text a token stands for: unquoted when it is a quoted string.
pub open spec fn lexeme_value(b: Seq<u8>, l: Lexeme) -> Seq<char> {
    if l.kind == TokenKind::Quoted {
        unquote_spec(lexeme_raw(b, l))
    } else {
        lexeme_raw(b, l)
    }
}

pub open spec fn lexeme_span(l: Lexeme) -> Span {
    Span { start: l.start as usize, end: l.end as usize }
}

pub open spec fn scalar_view(b: Seq<u8>, l: Lexeme) -> ValueView {
    ValueView::Scalar {
        raw: lexeme_raw(b, l),
        span: lexeme_span(l),
        quoted: l.kind == TokenKind::Quoted,
    }
}

pub open spec fn prepend(items: Seq<ItemView>, u: nat, r: Parsed<Seq<ItemView>>) -> Parsed<
    Seq<ItemView>,
> {
    match r {
        Parsed::Read(rest, p, u2) => Parsed::Read(items + rest, p, u + u2),
        Parsed::Fail(m, o) => Parsed::Fail(m, o),
    }
}

/// The items of source `b`, tokens `t`, from token `pos` up to the end of
/// input or, inside a block, up to the closing brace. A stray closing brace
/// at top level is skipped.
pub open spec fn parse_items_spec(b: Seq<u8>, t: Seq<Lexeme>, pos: int, inside: bool) -> Parsed<
    Seq<ItemView>,
>
    decreases t.len() - pos, 2int,
{
    if pos < 0 || pos >= t.len() {
        Parsed::Read(Seq::empty(), pos, 0)
    } else if t[pos].kind == TokenKind::CloseBrace {
        if inside {
            Parsed::Read(Seq::empty(), pos, 0)
        } else {
            parse_items_spec(b, t, pos + 1, inside)
        }
    } else {
        match parse_item_spec(b, t, pos) {
            Parsed::Fail(m, o) => Parsed::Fail(m, o),
            Parsed::Read(it, p2, u1) => if pos < p2 <= t.len() {
                prepend(seq![it], u1, parse_items_spec(b, t, p2, inside))
            } else {
                Parsed::Fail(Seq::empty(), 0)
            },
        }
    }
}

/// One item starting at token `pos`: a block, a `key op value` pair when an
/// operator follows a word, or a bare value.
pub open spec fn parse_item_spec(b: Seq<u8>, t: Seq<Lexeme>, pos: int) -> Parsed<ItemView>
    decreases t.len() - pos, 1int,
{
    if pos < 0 || pos >= t.len() {
        Parsed::Fail(Seq::empty(), 0)
    } else {
        let tok = t[pos];
        if tok.kind == TokenKind::OpenBrace {
            match parse_block_spec(b, t, pos, pos + 1) {
                Parsed::Read(v, p, u) => Parsed::Read(ItemView::Value(v), p, u),
                Parsed::Fail(m, o) => Parsed::Fail(m, o),
            }
        } else if tok.kind == TokenKind::Word || tok.kind == TokenKind::Quoted {
            if pos + 1 < t.len() && t[pos + 1].kind == TokenKind::Operator {
                match parse_value_spec(b, t, pos + 2) {
                    Parsed::Read(v, p, u) => Parsed::Read(
                        ItemView::Pair {
                            key: lexeme_value(b, tok),
                            operator: lexeme_raw(b, t[pos + 1]),
                            value: v,
                            span: Span { start: tok.start as usize, end: view_span(v).end },
                        },
                        p,
                        u,
                    ),
                    Parsed::Fail(m, o) => Parsed::Fail(m, o),
                }
            } else {
                Parsed::Read(ItemView::Value(scalar_view(b, tok)), pos + 1, 0)
            }
        } else if tok.kind == TokenKind::Operator {
            Parsed::Fail("unexpected operator `"@ + lexeme_raw(b, tok) + "`"@, tok.start)
        } else {
            Parsed::Fail(Seq::empty(), 0)
        }
    }
}

/// The value after an operator.
pub open spec fn parse_value_spec(b: Seq<u8>, t: Seq<Lexeme>, pos: int) -> Parsed<ValueView>
    decreases t.len() - pos, 1int,
{
    if pos < 0 || pos >= t.len() {
        Parsed::Fail("expected a value but reached end of file"@, b.len() as int)
    } else {
        let tok = t[pos];
        if tok.kind == TokenKind::OpenBrace {
            parse_block_spec(b, t, pos, pos + 1)
        } else if tok.kind == TokenKind::Word || tok.kind == TokenKind::Quoted {
            Parsed::Read(scalar_view(b, tok), pos + 1, 0)
        } else {
            Parsed::Fail("expected a value but found `"@ + lexeme_raw(b, tok) + "`"@, tok.start)
        }
    }
}

/// A block whose opening brace is token `open`, its items starting at `pos`.
/// A block left open at the end of input is closed there and counted.
pub open spec fn parse_block_spec(b: Seq<u8>, t: Seq<Lexeme>, open: int, pos: int) -> Parsed<
    ValueView,
>
    decreases t.len() - pos, 3int,
{
    if open < 0 || open >= t.len() {
        Parsed::Fail(Seq::empty(), 0)
    } else {
        match parse_items_spec(b, t, pos, true) {
            Parsed::Fail(m, o) => Parsed::Fail(m, o),
            Parsed::Read(items, p, u) => if 0 <= p < t.len() {
                Parsed::Read(
                    ValueView::Block {
                        span: Span { start: t[open].start as usize, end: t[p].end as usize },
                        inner: Span { start: t[open].end as usize, end: t[p].start as usize },
                        items,
                    },
                    p + 1,
                    u,
                )
            } else {
                Parsed::Read(
                    ValueView::Block {
                        span: Span { start: t[open].start as usize, end: b.len() as usize },
                        inner: Span { start: t[open].end as usize, end: b.len() as usize },
                        items,
                    },
                    p,
                    u + 1,
                )
            },
        }
    }
}

/// What parsing `source` gives: its items and the number of blocks left
/// open, or the first error.
pub open spec fn parse_spec(source: &str) -> Parsed<Seq<ItemView>> {
    parse_items_spec(bytes_of(source), lex_source(source), 0, false)
}

impl Value {
    pub fn span(&self) -> (span: Span)
        ensures
            span == view_span(value_view(*self)),
    {
        match self {
            Value::Scalar(scalar) => scalar.span,
            Value::Block(block) => block.span,
        }
    }

    pub fn as_scalar(&self) -> (r: Option<&Scalar>)
        ensures
            r matches Some(s) ==> *self == Value::Scalar(*s),
            r is None <==> self is Block,
    {
        match self {
            Value::Scalar(scalar) => Some(scalar),
            Value::Block(_) => None,
        }
    }

    pub fn as_block(&self) -> (r: Option<&Block>)
        ensures
            r matches Some(b) ==> *self == Value::Block(*b),
            r is None <==> self is Scalar,
    {
        match self {
            Value::Block(block) => Some(block),
            Value::Scalar(_) => None,
        }
    }
}

impl Scalar {
    /// The value with quotes and escapes removed when it was quoted.
    pub fn value(&self) -> (v: String)
        ensures
            v@ == (if self.quoted {
                unquote_spec(self.raw@)
            } else {
                self.raw@
            }),
    {
        if self.quoted {
            super::lexer::unquote(&self.raw)
        } else {
            self.raw.clone()
        }
    }
}

struct Parser {
    tokens: Vec<Token>,
    position: usize,
    source_len: usize,
    unclosed_blocks: usize,
    source: Ghost<Seq<u8>>,
    lexemes: Ghost<Seq<Lexeme>>,
}

impl Parser {
    spec fn wf(&self) -> bool {
        &&& self.position <= self.tokens.len()
        &&& forall|k: int|
            0 <= k < self.tokens.len() ==> lexeme_fits(self.source@, #[trigger] self.lexemes@[k])
        &&& forall|k: int, l: int|
            0 <= k < l < self.tokens.len() ==> #[trigger] self.lexemes@[k].end
                <= #[trigger] self.lexemes@[l].start
        &&& self.unclosed_blocks <= self.position
        &&& self.source_len == self.source@.len()
        &&& self.tokens.len() == self.lexemes@.len()
        &&& forall|k: int|
            0 <= k < self.tokens.len() ==> token_of(
                #[trigger] self.tokens[k],
                self.lexemes@[k],
                self.source@,
            )
    }

    /// The parser moved forward over the same tokens.
    spec fn moved(&self, before: &Parser) -> bool {
        &&& self.wf()
        &&& self.tokens == before.tokens
        &&& self.source_len == before.source_len
        &&& self.source == before.source
        &&& self.lexemes == before.lexemes
        &&& before.position <= self.position
        &&& before.unclosed_blocks <= self.unclosed_blocks
    }

    /// Moved forward, closing at most one block per token consumed.
    spec fn advanced(&self, before: &Parser) -> bool {
        &&& self.moved(before)
        &&& self.unclosed_blocks - before.unclosed_blocks <= self.position - before.position
    }

    fn peek(&self) -> (r: Option<&Token>)
        requires
            self.wf(),
        ensures
            r is Some <==> self.position < self.tokens.len(),
            r matches Some(t) ==> *t == self.tokens[self.position as int],
    {
        if self.position < self.tokens.len() {
            Some(&self.tokens[self.position])
        } else {
            None
        }
    }

    /// Moves past the current token and returns where it sits.
    fn advance(&mut self) -> (r: Option<usize>)
        requires
            old(self).wf(),
        ensures
            final(self).advanced(old(self)),
            final(self).unclosed_blocks == old(self).unclosed_blocks,
            old(self).position < old(self).tokens.len() ==> r == Some(old(self).position)
                && final(self).position == old(self).position + 1,
            old(self).position >= old(self).tokens.len() ==> r is None && final(self).position
                == old(self).position,
    {
        if self.position < self.tokens.len() {
            let at = self.position;
            self.position = at + 1;
            Some(at)
        } else {
            None
        }
    }

    /// Offset where the current token starts, used as the end of a block body.
    fn current_offset(&self) -> (offset: usize)
        requires
            self.wf(),
        ensures
            self.position < self.tokens.len() ==> offset == self.lexemes@[self.position as int].start,
            self.position >= self.tokens.len() ==> offset == self.source_len,
    {
        if self.position < self.tokens.len() {
            self.tokens[self.position].span.start
        } else {
            self.source_len
        }
    }

    fn parse_items(&mut self, inside_block: bool) -> (r: Result<Vec<Item>, ParseError>)
        requires
            old(self).wf(),
        ensures
            final(self).advanced(old(self)),
            match parse_items_spec(
                old(self).source@,
                old(self).lexemes@,
                old(self).position as int,
                inside_block,
            ) {
                Parsed::Read(items, p, u) => r is Ok && items_view(r->Ok_0@) == items && p
                    == final(self).position && u == final(self).unclosed_blocks - old(self).unclosed_blocks,
                Parsed::Fail(m, o) => r is Err && r->Err_0.message@ == m && r->Err_0.offset == o,
            },
            r is Ok ==> forall|k: int|
                0 <= k < r->Ok_0.len() ==> item_fits(old(self).source@, #[trigger] r->Ok_0@[k]),
        decreases old(self).tokens@.len() - old(self).position, 2int,
    {
        let ghost b = self.source@;
        let ghost t = self.lexemes@;
        let ghost start = self.position as int;
        let ghost u0 = self.unclosed_blocks;
        let ghost before = *self;
        let mut items: Vec<Item> = Vec::new();
        assert(prepend(items_view(items@), 0, parse_items_spec(b, t, start, inside_block))
            =~= parse_items_spec(b, t, start, inside_block)) by {
            match parse_items_spec(b, t, start, inside_block) {
                Parsed::Read(rest, p, u) => {
                    assert(Seq::<ItemView>::empty() + rest =~= rest);
                },
                Parsed::Fail(m, o) => {},
            }
        }
        loop
            invariant
                self.advanced(&before),
                before == *old(self),
                b == self.source@,
                t == self.lexemes@,
                start == before.position,
                u0 == before.unclosed_blocks,
                before.wf(),
                parse_items_spec(b, t, start, inside_block) == prepend(
                    items_view(items@),
                    (self.unclosed_blocks - u0) as nat,
                    parse_items_spec(b, t, self.position as int, inside_block),
                ),
                forall|k: int| 0 <= k < items.len() ==> item_fits(b, #[trigger] items@[k]),
            ensures
                forall|k: int| 0 <= k < items.len() ==> item_fits(b, #[trigger] items@[k]),
                self.advanced(&before),
                parse_items_spec(b, t, self.position as int, inside_block) == Parsed::Read(
                    Seq::<ItemView>::empty(),
                    self.position as int,
                    0,
                ),
                parse_items_spec(b, t, start, inside_block) == prepend(
                    items_view(items@),
                    (self.unclosed_blocks - u0) as nat,
                    parse_items_spec(b, t, self.position as int, inside_block),
                ),
            decreases self.tokens@.len() - self.position,
        {
            let ghost pos = self.position as int;
            match self.peek() {
                // A block left open at end of file is closed here, the way the
                // game does, instead of failing the whole file.
                None => break,
                Some(token) => {
                    if token.kind == TokenKind::CloseBrace {
                        if inside_block {
                            break;
                        }
                        // A stray closing brace at top level is skipped rather
                        // than fatal: real mod files occasionally carry one.
                        self.position = self.position + 1;
                        continue;
                    }
                },
            }
            let ghost mid = *self;
            let item = match self.parse_item() {
                Ok(item) => item,
                Err(error) => {
                    return Err(error);
                },
            };
            proof {
                let iv = item_view(item);
                let ghost u1 = (self.unclosed_blocks - mid.unclosed_blocks) as nat;
                let rest = parse_items_spec(b, t, self.position as int, inside_block);
                assert(parse_items_spec(b, t, pos, inside_block) == prepend(seq![iv], u1, rest));
                let ghost olds = items_view(items@);
                assert(items@.push(item).drop_last() =~= items@);
                assert(items_view(items@.push(item)) == olds.push(iv));
                match rest {
                    Parsed::Read(r, p, u) => {
                        assert(olds + (seq![iv] + r) =~= olds.push(iv) + r);
                    },
                    Parsed::Fail(m, o) => {},
                }
            }
            items.push(item);
        }
        proof {
            assert(items_view(items@) + Seq::<ItemView>::empty() =~= items_view(items@));
        }
        Ok(items)
    }

    fn parse_item(&mut self) -> (r: Result<Item, ParseError>)
        requires
            old(self).wf(),
            old(self).position < old(self).tokens.len(),
            old(self).tokens[old(self).position as int].kind != TokenKind::CloseBrace,
        ensures
            final(self).advanced(old(self)),
            match parse_item_spec(old(self).source@, old(self).lexemes@, old(self).position as int) {
                Parsed::Read(item, p, u) => r is Ok && item_view(r->Ok_0) == item && p
                    == final(self).position && u == final(self).unclosed_blocks - old(self).unclosed_blocks && old(self).position < final(self).position,
                Parsed::Fail(m, o) => r is Err && r->Err_0.message@ == m && r->Err_0.offset == o,
            },
            r is Ok ==> item_fits(old(self).source@, r->Ok_0),
        decreases old(self).tokens@.len() - old(self).position, 1int,
    {
        let ghost b = self.source@;
        let ghost t = self.lexemes@;
        let pos = self.position;
        assert(token_of(self.tokens[pos as int], t[pos as int], b));
        self.position = pos + 1;
        let kind = self.tokens[pos].kind;
        match kind {
            TokenKind::OpenBrace => {
                let block = self.parse_block(pos)?;
                Ok(Item::Value(Value::Block(block)))
            },
            TokenKind::Word | TokenKind::Quoted => {
                let is_pair = self.position < self.tokens.len() && self.tokens[self.position].kind
                    == TokenKind::Operator;
                if !is_pair {
                    return Ok(Item::Value(Value::Scalar(scalar_from(&self.tokens[pos]))));
                }
                let operator_at = self.position;
                assert(token_of(self.tokens[operator_at as int], t[operator_at as int], b));
                self.position = operator_at + 1;
                let value = self.parse_value()?;
                let key = self.tokens[pos].value();
                let operator = self.tokens[operator_at].raw.clone();
                let start = self.tokens[pos].span.start;
                let end = value.span().end;
                Ok(Item::Pair(Pair { key, operator, span: Span::new(start, end), value }))
            },
            TokenKind::Operator => {
                let mut message = "unexpected operator `".to_owned();
                message.push_str(&self.tokens[pos].raw);
                message.push_str("`");
                Err(ParseError { message, offset: self.tokens[pos].span.start })
            },
            TokenKind::CloseBrace => {
                proof {
                    assert(false);
                }
                Err(ParseError { message: String::new(), offset: 0 })
            },
        }
    }

    fn parse_value(&mut self) -> (r: Result<Value, ParseError>)
        requires
            old(self).wf(),
        ensures
            final(self).advanced(old(self)),
            match parse_value_spec(
                old(self).source@,
                old(self).lexemes@,
                old(self).position as int,
            ) {
                Parsed::Read(v, p, u) => r is Ok && value_view(r->Ok_0) == v && p == final(self).position && u == final(self).unclosed_blocks - old(self).unclosed_blocks,
                Parsed::Fail(m, o) => r is Err && r->Err_0.message@ == m && r->Err_0.offset == o,
            },
            r is Ok ==> value_fits(old(self).source@, r->Ok_0),
            r is Ok ==> value_span(r->Ok_0).start == old(self).lexemes@[old(self).position as int].start,
        decreases old(self).tokens@.len() - old(self).position, 1int,
    {
        let ghost b = self.source@;
        let ghost t = self.lexemes@;
        let pos = match self.advance() {
            Some(pos) => pos,
            None => {
                return Err(
                    ParseError {
                        message: "expected a value but reached end of file".to_owned(),
                        offset: self.source_len,
                    },
                );
            },
        };
        assert(token_of(self.tokens[pos as int], t[pos as int], b));
        let kind = self.tokens[pos].kind;
        match kind {
            TokenKind::OpenBrace => {
                let block = self.parse_block(pos)?;
                Ok(Value::Block(block))
            },
            TokenKind::Word | TokenKind::Quoted => Ok(Value::Scalar(scalar_from(&self.tokens[pos]))),
            TokenKind::CloseBrace | TokenKind::Operator => {
                let mut message = "expected a value but found `".to_owned();
                message.push_str(&self.tokens[pos].raw);
                message.push_str("`");
                Err(ParseError { message, offset: self.tokens[pos].span.start })
            },
        }
    }

    fn parse_block(&mut self, open: usize) -> (r: Result<Block, ParseError>)
        requires
            old(self).wf(),
            open + 1 == old(self).position,
            old(self).unclosed_blocks < old(self).position,
        ensures
            final(self).moved(old(self)),
            final(self).unclosed_blocks - old(self).unclosed_blocks <= final(self).position - old(self).position + 1,
            match parse_block_spec(
                old(self).source@,
                old(self).lexemes@,
                open as int,
                old(self).position as int,
            ) {
                Parsed::Read(v, p, u) => r is Ok && value_view(Value::Block(r->Ok_0)) == v && p
                    == final(self).position && u == final(self).unclosed_blocks - old(self).unclosed_blocks,
                Parsed::Fail(m, o) => r is Err && r->Err_0.message@ == m && r->Err_0.offset == o,
            },
            r is Ok ==> value_fits(old(self).source@, Value::Block(r->Ok_0)),
            r is Ok ==> r->Ok_0.span.start == old(self).lexemes@[open as int].start,
        decreases old(self).tokens@.len() - old(self).position, 3int,
    {
        let ghost b = self.source@;
        let ghost t = self.lexemes@;
        let ghost before = *self;
        assert(token_of(self.tokens[open as int], t[open as int], b));
        let items = self.parse_items(true)?;
        let inner_end = self.current_offset();
        let end = match self.advance() {
            Some(close) => {
                assert(token_of(self.tokens[close as int], t[close as int], b));
                self.tokens[close].span.end
            },
            None => {
                self.unclosed_blocks = self.unclosed_blocks + 1;
                self.source_len
            },
        };
        Ok(
            Block {
                span: Span::new(self.tokens[open].span.start, end),
                inner: Span::new(self.tokens[open].span.end, inner_end),
                items,
            },
        )
    }
}

fn scalar_from(token: &Token) -> (s: Scalar)
    ensures
        s.raw@ == token.raw@,
        s.raw == token.raw,
        s.span == token.span,
        s.quoted == (token.kind == TokenKind::Quoted),
{
    Scalar { raw: token.raw.clone(), span: token.span, quoted: token.kind == TokenKind::Quoted }
}

pub fn parse(source: &str) -> (r: Result<Document, ParseError>)
    ensures
        match parse_spec(source) {
            Parsed::Read(items, p, u) => r is Ok && items_view(r->Ok_0.items@) == items
                && r->Ok_0.unclosed_blocks == u,
            Parsed::Fail(m, o) => r is Err && r->Err_0.message@ == m && r->Err_0.offset == o,
        },
        r is Ok ==> forall|k: int|
            0 <= k < r->Ok_0.items.len() ==> item_fits(bytes_of(source), #[trigger] r->Ok_0.items@[k]),
{
    let tokens = tokenize(source);
    let mut parser = Parser {
        tokens,
        position: 0,
        source_len: source.as_bytes().len(),
        unclosed_blocks: 0,
        source: Ghost(bytes_of(source)),
        lexemes: Ghost(lex_source(source)),
    };
    let items = parser.parse_items(false)?;
    Ok(Document { items, unclosed_blocks: parser.unclosed_blocks })
}

/// The pairs among `items`, in order.
pub open spec fn pairs_of(items: Seq<Item>) -> Seq<Pair>
    decreases items.len(),
{
    if items.len() == 0 {
        Seq::empty()
    } else {
        let rest = pairs_of(items.drop_last());
        match items.last() {
            Item::Pair(p) => rest.push(p),
            Item::Value(_) => rest,
        }
    }
}

/// The pairs among `items` whose key matches `key` ignoring ASCII case, in order.
pub open spec fn pairs_with(items: Seq<Item>, key: Seq<char>) -> Seq<Pair>
    decreases items.len(),
{
    if items.len() == 0 {
        Seq::empty()
    } else {
        let rest = pairs_with(items.drop_last(), key);
        match items.last() {
            Item::Pair(p) => if eq_ignore_ascii_case_spec(p.key@, key) {
                rest.push(p)
            } else {
                rest
            },
            Item::Value(_) => rest,
        }
    }
}

/// The first pair with a matching key.
pub open spec fn find_spec(items: Seq<Item>, key: Seq<char>) -> Option<Pair> {
    if pairs_with(items, key).len() > 0 {
        Some(pairs_with(items, key)[0])
    } else {
        None
    }
}

/// An assignment rather than a comparison.
pub open spec fn is_assignment(p: Pair) -> bool {
    p.operator@ == "="@ || p.operator@ == "=="@
}

/// The text of a scalar value.
pub open spec fn scalar_text(s: Scalar) -> Seq<char> {
    if s.quoted {
        unquote_spec(s.raw@)
    } else {
        s.raw@
    }
}

/// What `scalar(key)` gives: the scalar assigned by the first pair with the key.
pub open spec fn scalar_spec(items: Seq<Item>, key: Seq<char>) -> Option<Seq<char>> {
    match find_spec(items, key) {
        Some(p) => if is_assignment(p) {
            match p.value {
                Value::Scalar(s) => Some(scalar_text(s)),
                Value::Block(_) => None,
            }
        } else {
            None
        },
        None => None,
    }
}

/// What `block(key)` gives: the block valued first pair with the key.
pub open spec fn block_spec(items: Seq<Item>, key: Seq<char>) -> Option<Block> {
    match find_spec(items, key) {
        Some(p) => match p.value {
            Value::Block(b) => Some(b),
            Value::Scalar(_) => None,
        },
        None => None,
    }
}

proof fn lemma_pairs_step(items: Seq<Item>, i: int, key: Seq<char>)
    requires
        0 <= i < items.len(),
    ensures
        pairs_of(items.take(i + 1)) == (match items[i] {
            Item::Pair(p) => pairs_of(items.take(i)).push(p),
            Item::Value(_) => pairs_of(items.take(i)),
        }),
        pairs_with(items.take(i + 1), key) == (match items[i] {
            Item::Pair(p) => if eq_ignore_ascii_case_spec(p.key@, key) {
                pairs_with(items.take(i), key).push(p)
            } else {
                pairs_with(items.take(i), key)
            },
            Item::Value(_) => pairs_with(items.take(i), key),
        }),
{
    assert(items.take(i + 1).drop_last() =~= items.take(i));
}

proof fn lemma_pairs_with_prefix(items: Seq<Item>, i: int, j: int, key: Seq<char>)
    requires
        0 <= i <= j <= items.len(),
    ensures
        pairs_with(items.take(i), key).len() <= pairs_with(items.take(j), key).len(),
        forall|k: int|
            0 <= k < pairs_with(items.take(i), key).len() ==> #[trigger] pairs_with(
                items.take(j),
                key,
            )[k] == pairs_with(items.take(i), key)[k],
    decreases j - i,
{
    if i < j {
        lemma_pairs_with_prefix(items, i, j - 1, key);
        lemma_pairs_step(items, j - 1, key);
    }
}

pub proof fn lemma_pairs_with_in(items: Seq<Item>, key: Seq<char>)
    ensures
        forall|j: int|
            0 <= j < pairs_with(items, key).len() ==> exists|k: int|
                0 <= k < items.len() && items[k] == Item::Pair(#[trigger] pairs_with(items, key)[j]),
    decreases items.len(),
{
    if items.len() > 0 {
        let d = items.drop_last();
        lemma_pairs_with_in(d, key);
        let all = pairs_with(items, key);
        assert forall|j: int| 0 <= j < all.len() implies exists|k: int|
            0 <= k < items.len() && items[k] == Item::Pair(#[trigger] all[j]) by {
            if j < pairs_with(d, key).len() {
                let k = choose|k: int| 0 <= k < d.len() && d[k] == Item::Pair(pairs_with(d, key)[j]);
                assert(items[k] == d[k]);
            } else {
                assert(items[items.len() - 1] == items.last());
            }
        }
    }
}

pub proof fn lemma_pairs_of_in(items: Seq<Item>)
    ensures
        forall|j: int|
            0 <= j < pairs_of(items).len() ==> exists|k: int|
                0 <= k < items.len() && items[k] == Item::Pair(#[trigger] pairs_of(items)[j]),
    decreases items.len(),
{
    if items.len() > 0 {
        let d = items.drop_last();
        lemma_pairs_of_in(d);
        let all = pairs_of(items);
        assert forall|j: int| 0 <= j < all.len() implies exists|k: int|
            0 <= k < items.len() && items[k] == Item::Pair(#[trigger] all[j]) by {
            if j < pairs_of(d).len() {
                let k = choose|k: int| 0 <= k < d.len() && d[k] == Item::Pair(pairs_of(d)[j]);
                assert(items[k] == d[k]);
            } else {
                assert(items[items.len() - 1] == items.last());
            }
        }
    }
}

/// The pairs a block's lookups hand out lie inside the source like the block.
pub proof fn lemma_block_pairs_fit(b: Seq<u8>, block: Block, key: Seq<char>)
    requires
        value_fits(b, Value::Block(block)),
    ensures
        forall|j: int|
            0 <= j < pairs_with(block.items@, key).len() ==> item_fits(
                b,
                Item::Pair(#[trigger] pairs_with(block.items@, key)[j]),
            ),
        forall|j: int|
            0 <= j < pairs_of(block.items@).len() ==> item_fits(
                b,
                Item::Pair(#[trigger] pairs_of(block.items@)[j]),
            ),
        find_spec(block.items@, key) matches Some(p) ==> item_fits(b, Item::Pair(p)),
{
    lemma_pairs_with_in(block.items@, key);
    lemma_pairs_of_in(block.items@);
    assert forall|j: int| 0 <= j < pairs_with(block.items@, key).len() implies item_fits(
        b,
        Item::Pair(#[trigger] pairs_with(block.items@, key)[j]),
    ) by {
        let k = choose|k: int|
            0 <= k < block.items@.len() && block.items@[k] == Item::Pair(
                pairs_with(block.items@, key)[j],
            );
        assert(item_fits(b, block.items@[k]));
    }
    assert forall|j: int| 0 <= j < pairs_of(block.items@).len() implies item_fits(
        b,
        Item::Pair(#[trigger] pairs_of(block.items@)[j]),
    ) by {
        let k = choose|k: int|
            0 <= k < block.items@.len() && block.items@[k] == Item::Pair(pairs_of(block.items@)[j]);
        assert(item_fits(b, block.items@[k]));
    }
    if pairs_with(block.items@, key).len() > 0 {
        assert(item_fits(b, Item::Pair(pairs_with(block.items@, key)[0])));
    }
}

/// Shared lookup helpers over a list of items.
pub trait Items {
    spec fn item_list(&self) -> Seq<Item>;

    fn items(&self) -> (r: &[Item])
        ensures
            r@ == self.item_list(),
    ;

    fn pairs(&self) -> (r: Vec<&Pair>)
        ensures
            r@.len() == pairs_of(self.item_list()).len(),
            forall|k: int| 0 <= k < r@.len() ==> *#[trigger] r@[k] == pairs_of(self.item_list())[k],
    {
        let items = self.items();
        let mut out: Vec<&Pair> = Vec::new();
        let mut i: usize = 0;
        while i < items.len()
            invariant
                i <= items@.len(),
                items@ == self.item_list(),
                out@.len() == pairs_of(items@.take(i as int)).len(),
                forall|k: int|
                    0 <= k < out@.len() ==> *#[trigger] out@[k] == pairs_of(items@.take(i as int))[k],
            decreases items@.len() - i,
        {
            proof {
                lemma_pairs_step(items@, i as int, Seq::empty());
            }
            match &items[i] {
                Item::Pair(pair) => out.push(pair),
                Item::Value(_) => {},
            }
            i = i + 1;
        }
        assert(items@.take(items@.len() as int) =~= items@);
        out
    }

    /// First direct child with the given key, compared case-insensitively.
    fn find(&self, key: &str) -> (r: Option<&Pair>)
        ensures
            match find_spec(self.item_list(), key@) {
                Some(p) => r matches Some(q) && *q == p,
                None => r is None,
            },
    {
        let items = self.items();
        let mut i: usize = 0;
        while i < items.len()
            invariant
                i <= items@.len(),
                items@ == self.item_list(),
                pairs_with(items@.take(i as int), key@).len() == 0,
            decreases items@.len() - i,
        {
            proof {
                lemma_pairs_step(items@, i as int, key@);
                lemma_pairs_with_prefix(items@, i + 1, items@.len() as int, key@);
                assert(items@.take(items@.len() as int) =~= items@);
            }
            if let Item::Pair(pair) = &items[i] {
                if eq_ignore_ascii_case(&pair.key, key) {
                    return Some(pair);
                }
            }
            i = i + 1;
        }
        assert(items@.take(items@.len() as int) =~= items@);
        None
    }

    fn find_all(&self, key: &str) -> (r: Vec<&Pair>)
        ensures
            r@.len() == pairs_with(self.item_list(), key@).len(),
            forall|k: int|
                0 <= k < r@.len() ==> *#[trigger] r@[k] == pairs_with(self.item_list(), key@)[k],
    {
        let items = self.items();
        let mut out: Vec<&Pair> = Vec::new();
        let mut i: usize = 0;
        while i < items.len()
            invariant
                i <= items@.len(),
                items@ == self.item_list(),
                out@.len() == pairs_with(items@.take(i as int), key@).len(),
                forall|k: int|
                    0 <= k < out@.len() ==> *#[trigger] out@[k] == pairs_with(
                        items@.take(i as int),
                        key@,
                    )[k],
            decreases items@.len() - i,
        {
            proof {
                lemma_pairs_step(items@, i as int, key@);
            }
            if let Item::Pair(pair) = &items[i] {
                if eq_ignore_ascii_case(&pair.key, key) {
                    out.push(pair);
                }
            }
            i = i + 1;
        }
        assert(items@.take(items@.len() as int) =~= items@);
        out
    }

    /// Scalar value of the first direct child assigned with the given key.
    /// Comparisons such as `threat > 2` are not assignments and are skipped.
    fn scalar(&self, key: &str) -> (r: Option<String>)
        ensures
            match scalar_spec(self.item_list(), key@) {
                Some(v) => r matches Some(s) && s@ == v,
                None => r is None,
            },
    {
        match self.find(key) {
            Some(pair) => {
                if str_eq(&pair.operator, "=") || str_eq(&pair.operator, "==") {
                    match &pair.value {
                        Value::Scalar(scalar) => Some(scalar.value()),
                        Value::Block(_) => None,
                    }
                } else {
                    None
                }
            },
            None => None,
        }
    }

    fn block(&self, key: &str) -> (r: Option<&Block>)
        ensures
            match block_spec(self.item_list(), key@) {
                Some(b) => r matches Some(c) && *c == b,
                None => r is None,
            },
    {
        match self.find(key) {
            Some(pair) => pair.value.as_block(),
            None => None,
        }
    }
}

impl Items for Document {
    open spec fn item_list(&self) -> Seq<Item> {
        self.items@
    }

    fn items(&self) -> (r: &[Item]) {
        self.items.as_slice()
    }
}

impl Items for Block {
    open spec fn item_list(&self) -> Seq<Item> {
        self.items@
    }

    fn items(&self) -> (r: &[Item]) {
        self.items.as_slice()
    }
}

} // verus!
