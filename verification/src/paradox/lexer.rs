//! Tokenizer for the Clausewitz script format used by Hearts of Iron IV
//! (`common/`, `events/`, `history/` and friends).
//!
//! Every token keeps the byte range it came from so the editor can rewrite a
//! single value without reformatting the rest of the file.
use super::Span;
use crate::text::{
    boundary, bytes_of, chars_of, is_whitespace, is_ws, string_from_chars, lemma_ascii_boundary, lemma_step_boundary, lemma_ws_boundary,
    string_between, text_at, whitespace_len, ws_len,
};
use vstd::prelude::*;
use vstd::utf8::valid_utf8;

verus! {

broadcast use vstd::utf8::group_utf8_lib;

#[derive(Debug, Clone, Copy, PartialEq, Eq, Structural)]
pub enum TokenKind {
    /// A bare word, number or date such as `focus`, `10`, `1936.1.1`.
    Word,
    /// A double quoted string. The span covers the quotes.
    Quoted,
    /// One of `=`, `==`, `>`, `<`, `>=`, `<=`, `!=`, `?=`.
    Operator,
    OpenBrace,
    CloseBrace,
}

#[derive(Debug, Clone)]
pub struct Token {
    pub kind: TokenKind,
    pub span: Span,
    /// The literal source text of the token, quotes included.
    pub raw: String,
}

/// A token as the grammar sees it: its kind and the bytes it covers.
pub struct Lexeme {
    pub kind: TokenKind,
    pub start: int,
    pub end: int,
}

/// A lexeme covers a non-empty stretch of `b` cut on character boundaries.
pub open spec fn lexeme_fits(b: Seq<u8>, l: Lexeme) -> bool {
    0 <= l.start < l.end <= b.len() && boundary(b, l.start) && boundary(b, l.end)
}

/// `token` is the lexeme `l` of the source bytes `b`, its text included.
pub open spec fn token_of(token: Token, l: Lexeme, b: Seq<u8>) -> bool {
    &&& token.kind == l.kind
    &&& token.span.start == l.start
    &&& token.span.end == l.end
    &&& token.raw@ == text_at(b, l.start, l.end)
}

pub open spec fn is_operator_start(c: u8) -> bool {
    c == 0x3d || c == 0x3c || c == 0x3e || c == 0x21 || c == 0x3f
}

/// Whitespace, an operator, a brace, `#` or `"` ends a bare word.
pub open spec fn is_token_boundary(b: Seq<u8>, j: int) -> bool {
    ws_len(b, j) > 0 || is_operator_start(b[j]) || b[j] == 0x7b || b[j] == 0x7d || b[j] == 0x23
        || b[j] == 0x22
}

/// Where a bare word running from `j` ends, `inside` telling whether a `[`
/// reference is open. Braces, quotes and line ends close a word whatever the
/// bracket state; inside a reference nothing else does.
pub open spec fn word_scan(b: Seq<u8>, j: int, inside: bool) -> int
    decreases b.len() - j,
{
    if j < 0 || j >= b.len() {
        b.len() as int
    } else if b[j] == 0x5b {
        word_scan(b, j + 1, true)
    } else if b[j] == 0x5d && inside {
        word_scan(b, j + 1, false)
    } else if b[j] == 0x7b || b[j] == 0x7d || b[j] == 0x22 || b[j] == 0x0a {
        j
    } else if inside {
        word_scan(b, j + 1, true)
    } else if is_token_boundary(b, j) {
        j
    } else {
        word_scan(b, j + 1, false)
    }
}

/// `end` moved back over the whitespace characters that end `b[start..end]`.
pub open spec fn trim_back(b: Seq<u8>, start: int, end: int) -> int
    decreases end - start,
{
    if end <= start {
        end
    } else if ws_len(b, end - 1) == 1 {
        trim_back(b, start, end - 1)
    } else if end - 2 >= start && ws_len(b, end - 2) == 2 {
        trim_back(b, start, end - 2)
    } else if end - 3 >= start && ws_len(b, end - 3) == 3 {
        trim_back(b, start, end - 3)
    } else {
        end
    }
}

/// The byte just past the bare word starting at `start`.
pub open spec fn word_end(b: Seq<u8>, start: int) -> int {
    trim_back(b, start, word_scan(b, start, false))
}

/// Where a quoted string whose body continues at `j` ends: just past its
/// closing quote, at the line end when unterminated, or at the end of input.
pub open spec fn quoted_scan(b: Seq<u8>, j: int, escaped: bool) -> int
    decreases b.len() - j,
{
    if j < 0 || j >= b.len() {
        b.len() as int
    } else if escaped {
        quoted_scan(b, j + 1, false)
    } else if b[j] == 0x5c {
        quoted_scan(b, j + 1, true)
    } else if b[j] == 0x22 {
        j + 1
    } else if b[j] == 0x0a {
        j
    } else {
        quoted_scan(b, j + 1, false)
    }
}

/// The first line feed at or after `j`, or the end of input.
pub open spec fn line_feed_from(b: Seq<u8>, j: int) -> int
    decreases b.len() - j,
{
    if j < 0 || j >= b.len() {
        b.len() as int
    } else if b[j] == 0x0a {
        j
    } else {
        line_feed_from(b, j + 1)
    }
}

/// An operator is one character, or two when an `=` follows.
pub open spec fn operator_end(b: Seq<u8>, i: int) -> int {
    if i + 1 < b.len() && b[i + 1] == 0x3d {
        i + 2
    } else {
        i + 1
    }
}

/// The tokens of `b` from byte `i` on: whitespace and `#` comments separate
/// tokens and are dropped.
pub open spec fn lex(b: Seq<u8>, i: int) -> Seq<Lexeme>
    decreases b.len() - i,
{
    if i < 0 || i >= b.len() {
        Seq::empty()
    } else if ws_len(b, i) > 0 {
        lex(b, i + ws_len(b, i))
    } else if b[i] == 0x23 {
        let e = line_feed_from(b, i);
        if i < e <= b.len() {
            lex(b, e)
        } else {
            Seq::empty()
        }
    } else if b[i] == 0x7b || b[i] == 0x7d {
        let kind = if b[i] == 0x7b {
            TokenKind::OpenBrace
        } else {
            TokenKind::CloseBrace
        };
        seq![Lexeme { kind, start: i, end: i + 1 }] + lex(b, i + 1)
    } else if b[i] == 0x22 {
        let e = quoted_scan(b, i + 1, false);
        if i < e <= b.len() {
            seq![Lexeme { kind: TokenKind::Quoted, start: i, end: e }] + lex(b, e)
        } else {
            Seq::empty()
        }
    } else if is_operator_start(b[i]) {
        let e = operator_end(b, i);
        seq![Lexeme { kind: TokenKind::Operator, start: i, end: e }] + lex(b, e)
    } else {
        let e = word_end(b, i);
        if i < e <= b.len() {
            seq![Lexeme { kind: TokenKind::Word, start: i, end: e }] + lex(b, e)
        } else {
            Seq::empty()
        }
    }
}

/// The tokens of a whole source text.
pub open spec fn lex_source(source: &str) -> Seq<Lexeme> {
    lex(bytes_of(source), 0)
}

proof fn lemma_word_scan(b: Seq<u8>, j: int, inside: bool)
    requires
        0 <= j <= b.len(),
    ensures
        j <= word_scan(b, j, inside) <= b.len(),
        word_scan(b, j, inside) == b.len() || is_token_boundary(b, word_scan(b, j, inside))
            || b[word_scan(b, j, inside)] == 0x0a,
    decreases b.len() - j,
{
    if j < b.len() {
        if b[j] == 0x5b {
            lemma_word_scan(b, j + 1, true);
        } else if b[j] == 0x5d && inside {
            lemma_word_scan(b, j + 1, false);
        } else if b[j] == 0x7b || b[j] == 0x7d || b[j] == 0x22 || b[j] == 0x0a {
        } else if inside {
            lemma_word_scan(b, j + 1, true);
        } else if is_token_boundary(b, j) {
        } else {
            lemma_word_scan(b, j + 1, false);
        }
    }
}

pub proof fn lemma_trim_back(b: Seq<u8>, start: int, end: int)
    requires
        0 <= start <= end <= b.len(),
    ensures
        start <= trim_back(b, start, end) <= end,
        trim_back(b, start, end) == end || ws_len(b, trim_back(b, start, end)) > 0,
    decreases end - start,
{
    if end <= start {
    } else if ws_len(b, end - 1) == 1 {
        lemma_trim_back(b, start, end - 1);
    } else if end - 2 >= start && ws_len(b, end - 2) == 2 {
        lemma_trim_back(b, start, end - 2);
    } else if end - 3 >= start && ws_len(b, end - 3) == 3 {
        lemma_trim_back(b, start, end - 3);
    }
}

proof fn lemma_quoted_scan(b: Seq<u8>, j: int, escaped: bool)
    requires
        1 <= j <= b.len(),
    ensures
        j <= quoted_scan(b, j, escaped) <= b.len(),
        quoted_scan(b, j, escaped) == b.len() || b[quoted_scan(b, j, escaped)] == 0x0a || b[
            quoted_scan(b, j, escaped) - 1] == 0x22,
    decreases b.len() - j,
{
    if j < b.len() {
        if escaped {
            lemma_quoted_scan(b, j + 1, false);
        } else if b[j] == 0x5c {
            lemma_quoted_scan(b, j + 1, true);
        } else if b[j] == 0x22 {
        } else if b[j] == 0x0a {
        } else {
            lemma_quoted_scan(b, j + 1, false);
        }
    }
}

pub proof fn lemma_line_feed_from(b: Seq<u8>, j: int)
    requires
        0 <= j <= b.len(),
    ensures
        j <= line_feed_from(b, j) <= b.len(),
        line_feed_from(b, j) == b.len() || b[line_feed_from(b, j)] == 0x0a,
    decreases b.len() - j,
{
    if j < b.len() && b[j] != 0x0a {
        lemma_line_feed_from(b, j + 1);
    }
}

/// A position that is the end of input, an ASCII byte or the start of a
/// whitespace character is a character boundary.
pub proof fn lemma_boundary_at(b: Seq<u8>, j: int)
    requires
        0 <= j <= b.len(),
        j == b.len() || b[j] < 0x80 || ws_len(b, j) > 0,
    ensures
        boundary(b, j),
{
    if j < b.len() {
        if b[j] < 0x80 {
            lemma_ascii_boundary(b, j);
        }
    }
}

fn is_operator_byte(c: u8) -> (r: bool)
    ensures
        r == is_operator_start(c),
{
    c == 0x3d || c == 0x3c || c == 0x3e || c == 0x21 || c == 0x3f
}

/// Returns the byte index just past the end of the bare word starting at `start`.
///
/// A bracketed reference such as `[?variable]` or `[Root.GetName]` is one
/// word: the `?` inside would otherwise be read as an operator.
fn scan_word(b: &[u8], start: usize) -> (end: usize)
    requires
        start <= b@.len(),
    ensures
        end == word_end(b@, start as int),
{
    let mut in_brackets = false;
    let mut j = start;
    while j < b.len()
        invariant
            start <= j <= b@.len(),
            word_scan(b@, start as int, false) == word_scan(b@, j as int, in_brackets),
        ensures
            start <= j <= b@.len(),
            word_scan(b@, start as int, false) == j,
        decreases b@.len() - j,
    {
        let c = b[j];
        if c == 0x5b {
            in_brackets = true;
        } else if c == 0x5d && in_brackets {
            in_brackets = false;
        } else if c == 0x7b || c == 0x7d || c == 0x22 || c == 0x0a {
            break;
        } else if in_brackets {
        } else if whitespace_len(b, j) > 0 || is_operator_byte(c) || c == 0x7b || c == 0x7d || c
            == 0x23 || c == 0x22 {
            break;
        }
        j = j + 1;
    }
    // Whitespace before a brace that ended an unclosed reference is not part
    // of the word.
    let ghost scanned = j as int;
    let mut end = j;
    while end > start
        invariant
            start <= end <= scanned <= b@.len(),
            trim_back(b@, start as int, scanned) == trim_back(b@, start as int, end as int),
        ensures
            trim_back(b@, start as int, scanned) == end,
        decreases end - start,
    {
        if whitespace_len(b, end - 1) == 1 {
            end = end - 1;
        } else if end - start >= 2 && whitespace_len(b, end - 2) == 2 {
            end = end - 2;
        } else if end - start >= 3 && whitespace_len(b, end - 3) == 3 {
            end = end - 3;
        } else {
            break;
        }
    }
    end
}

/// Returns the byte index just past the closing quote of the string starting at
/// `start`. An unterminated string stops at the end of its line.
fn scan_quoted(b: &[u8], start: usize) -> (end: usize)
    requires
        start < b.len(),
    ensures
        end == quoted_scan(b@, start + 1, false),
{
    let mut escaped = false;
    let mut j = start + 1;
    while j < b.len()
        invariant
            start < j <= b@.len(),
            quoted_scan(b@, start + 1, false) == quoted_scan(b@, j as int, escaped),
        decreases b@.len() - j,
    {
        let c = b[j];
        if escaped {
            escaped = false;
        } else if c == 0x5c {
            escaped = true;
        } else if c == 0x22 {
            return j + 1;
        } else if c == 0x0a {
            return j;
        }
        j = j + 1;
    }
    b.len()
}

/// The first line feed at or after `j`, or the end of input.
fn find_line_feed(b: &[u8], j: usize) -> (end: usize)
    requires
        j <= b@.len(),
    ensures
        end == line_feed_from(b@, j as int),
{
    let mut k = j;
    while k < b.len()
        invariant
            j <= k <= b@.len(),
            line_feed_from(b@, j as int) == line_feed_from(b@, k as int),
        decreases b@.len() - k,
    {
        if b[k] == 0x0a {
            return k;
        }
        k = k + 1;
    }
    b.len()
}

/// Splits `source` into tokens, dropping whitespace and comments.
pub fn tokenize(source: &str) -> (tokens: Vec<Token>)
    ensures
        tokens.len() == lex_source(source).len(),
        forall|k: int|
            0 <= k < tokens.len() ==> token_of(
                #[trigger] tokens[k],
                lex_source(source)[k],
                bytes_of(source),
            ),
        forall|k: int|
            0 <= k < tokens.len() ==> lexeme_fits(bytes_of(source), #[trigger] lex_source(source)[k]),
        forall|k: int, l: int|
            0 <= k < l < tokens.len() ==> #[trigger] lex_source(source)[k].end
                <= #[trigger] lex_source(source)[l].start,
{
    let b = source.as_bytes();
    let ghost bs = b@;
    let mut tokens: Vec<Token> = Vec::new();
    let mut index: usize = 0;
    let ghost mut done: Seq<Lexeme> = Seq::empty();
    assert(valid_utf8(bs));
    while index < b.len()
        invariant
            bs == bytes_of(source),
            b@ == bs,
            valid_utf8(bs),
            index <= bs.len(),
            boundary(bs, index as int),
            lex(bs, 0) == done + lex(bs, index as int),
            tokens.len() == done.len(),
            forall|k: int| 0 <= k < tokens.len() ==> token_of(#[trigger] tokens[k], done[k], bs),
            forall|k: int| 0 <= k < done.len() ==> lexeme_fits(bs, #[trigger] done[k]),
            forall|k: int| 0 <= k < done.len() ==> #[trigger] done[k].end <= index,
            forall|k: int, l: int|
                0 <= k < l < done.len() ==> #[trigger] done[k].end <= #[trigger] done[l].start,
        decreases bs.len() - index,
    {
        let i = index;
        let c = b[i];
        let w = whitespace_len(b, i);
        if w > 0 {
            proof {
                lemma_ws_boundary(bs, i as int);
            }
            index = i + w;
            continue;
        }
        // Comments run to the end of the line.
        if c == 0x23 {
            let e = find_line_feed(b, i);
            proof {
                lemma_line_feed_from(bs, i as int);
                lemma_boundary_at(bs, e as int);
            }
            index = e;
            continue;
        }
        let end: usize;
        let kind: TokenKind;
        if c == 0x7b || c == 0x7d {
            kind = if c == 0x7b {
                TokenKind::OpenBrace
            } else {
                TokenKind::CloseBrace
            };
            end = i + 1;
            proof {
                lemma_step_boundary(bs, i as int, 1);
            }
        } else if c == 0x22 {
            kind = TokenKind::Quoted;
            end = scan_quoted(b, i);
            proof {
                lemma_quoted_scan(bs, i + 1, false);
                if end < bs.len() && bs[end as int] == 0x0a {
                    lemma_ascii_boundary(bs, end as int);
                } else if end < bs.len() {
                    lemma_ascii_boundary(bs, end - 1);
                    lemma_step_boundary(bs, end - 1, 1);
                }
            }
        } else if is_operator_byte(c) {
            kind = TokenKind::Operator;
            if i + 1 < b.len() && b[i + 1] == 0x3d {
                end = i + 2;
            } else {
                end = i + 1;
            }
            proof {
                lemma_step_boundary(bs, i as int, 1);
                if end == i + 2 {
                    lemma_step_boundary(bs, i + 1, 1);
                }
            }
        } else {
            kind = TokenKind::Word;
            end = scan_word(b, i);
            proof {
                lemma_word_scan(bs, i as int, false);
                let scanned = word_scan(bs, i as int, false);
                lemma_trim_back(bs, i as int, scanned);
                lemma_boundary_at(bs, end as int);
                // The first byte is no boundary, so the word is not empty.
                assert(word_scan(bs, i as int, false) > i);
                if end <= i {
                    assert(ws_len(bs, end as int) > 0);
                }
            }
        }
        let raw = string_between(source, i, end);
        let token = Token { kind, span: Span::new(i, end), raw };
        proof {
            done = done.push(Lexeme { kind, start: i as int, end: end as int });
            assert(lex(bs, i as int) == seq![Lexeme { kind, start: i as int, end: end as int }]
                + lex(bs, end as int));
            assert(lex(bs, 0) == done + lex(bs, end as int));
        }
        tokens.push(token);
        index = end;
    }
    proof {
        assert(lex(bs, index as int) =~= Seq::empty());
        assert(done =~= lex(bs, 0));
    }
    assert(forall|k: int| 0 <= k < tokens.len() ==> lexeme_fits(bs, #[trigger] done[k]));
    tokens
}


/// The body of a quoted string: one leading quote and, after it, one
/// trailing quote removed when present.
pub open spec fn strip_quotes(s: Seq<char>) -> Seq<char> {
    if s.len() > 0 && s[0] == '"' {
        let rest = s.drop_first();
        if rest.len() > 0 && rest.last() == '"' {
            rest.drop_last()
        } else {
            rest
        }
    } else {
        s
    }
}

/// Escapes resolved: `\n` and `\t` become a line feed and a tab, a backslash
/// before any other character keeps just that character, and a lone trailing
/// backslash stays.
pub open spec fn unescape(s: Seq<char>) -> Seq<char>
    decreases s.len(),
{
    if s.len() == 0 {
        Seq::empty()
    } else if s[0] != '\\' {
        seq![s[0]] + unescape(s.drop_first())
    } else if s.len() == 1 {
        seq!['\\']
    } else {
        let e = s[1];
        seq![
            if e == 'n' {
                '\n'
            } else if e == 't' {
                '\t'
            } else {
                e
            },
        ] + unescape(s.skip(2))
    }
}

/// What `unquote` makes of a raw quoted token.
pub open spec fn unquote_spec(raw: Seq<char>) -> Seq<char> {
    unescape(strip_quotes(raw))
}

/// Backslashes and double quotes escaped with a backslash.
pub open spec fn escape(s: Seq<char>) -> Seq<char>
    decreases s.len(),
{
    if s.len() == 0 {
        Seq::empty()
    } else {
        let rest = escape(s.drop_first());
        if s[0] == '\\' || s[0] == '"' {
            seq!['\\', s[0]] + rest
        } else {
            seq![s[0]] + rest
        }
    }
}

/// What `quote` writes for a value.
pub open spec fn quote_spec(value: Seq<char>) -> Seq<char> {
    seq!['"'] + escape(value) + seq!['"']
}

/// A character that forces a value into quotes.
pub open spec fn forces_quotes(c: char) -> bool {
    is_ws(c) || c == '"' || c == '{' || c == '}' || c == '#' || c == '='
}

/// What `needs_quotes` decides.
pub open spec fn needs_quotes_spec(value: Seq<char>) -> bool {
    value.len() == 0 || exists|i: int| 0 <= i < value.len() && forces_quotes(#[trigger] value[i])
}

proof fn lemma_unescape_step(s: Seq<char>, i: int)
    requires
        0 <= i < s.len(),
    ensures
        s[i] != '\\' ==> unescape(s.skip(i)) == seq![s[i]] + unescape(s.skip(i + 1)),
        s[i] == '\\' && i + 1 == s.len() ==> unescape(s.skip(i)) == seq!['\\'],
        s[i] == '\\' && i + 1 < s.len() ==> unescape(s.skip(i)) == seq![
            if s[i + 1] == 'n' {
                '\n'
            } else if s[i + 1] == 't' {
                '\t'
            } else {
                s[i + 1]
            },
        ] + unescape(s.skip(i + 2)),
{
    let t = s.skip(i);
    assert(t.drop_first() =~= s.skip(i + 1));
    if i + 1 < s.len() {
        assert(t.skip(2) =~= s.skip(i + 2));
        assert(t[1] == s[i + 1]);
    }
}

pub fn unquote(raw: &str) -> (out: String)
    ensures
        out@ == unquote_spec(raw@),
{
    let v = chars_of(raw);
    let mut start: usize = 0;
    let mut end: usize = v.len();
    if end > 0 && v[0] == '"' {
        start = 1;
        if end > 1 && v[end - 1] == '"' {
            end = end - 1;
        }
    }
    let ghost body = v@.subrange(start as int, end as int);
    assert(body =~= strip_quotes(raw@));
    let mut out = String::new();
    let mut i = start;
    assert(body.skip(0) =~= body);
    assert(out@ + unescape(body) =~= unescape(body));
    while i < end
        invariant
            start <= i <= end <= v@.len(),
            body == v@.subrange(start as int, end as int),
            out@ + unescape(body.skip(i - start)) == unescape(body),
        decreases end - i,
    {
        let c = v[i];
        proof {
            lemma_unescape_step(body, i - start);
            assert(body[i - start] == c);
            if i + 1 < end {
                assert(body[i - start + 1] == v@[i + 1]);
            }
        }
        if c != '\\' {
            out.push(c);
            i = i + 1;
        } else if i + 1 < end {
            let e = v[i + 1];
            if e == 'n' {
                out.push('\n');
            } else if e == 't' {
                out.push('\t');
            } else {
                out.push(e);
            }
            i = i + 2;
        } else {
            out.push('\\');
            i = i + 1;
        }
    }
    proof {
        assert(body.skip(i - start) =~= Seq::<char>::empty());
        assert(out@ =~= unescape(body));
    }
    out
}

pub fn quote(value: &str) -> (out: String)
    ensures
        out@ == quote_spec(value@),
{
    let v = chars_of(value);
    let mut out = String::new();
    out.push('"');
    let mut i: usize = 0;
    assert(v@.skip(0) =~= v@);
    assert(out@ + escape(v@) + seq!['"'] =~= quote_spec(value@));
    while i < v.len()
        invariant
            i <= v@.len(),
            out@ + escape(v@.skip(i as int)) + seq!['"'] == quote_spec(value@),
            v@ == value@,
        decreases v@.len() - i,
    {
        let c = v[i];
        assert(v@.skip(i as int).drop_first() =~= v@.skip(i + 1));
        if c == '\\' || c == '"' {
            out.push('\\');
        }
        out.push(c);
        i = i + 1;
        proof {
            assert(out@ + escape(v@.skip(i as int)) + seq!['"'] =~= quote_spec(value@));
        }
    }
    out.push('"');
    assert(v@.skip(i as int) =~= Seq::<char>::empty());
    assert(out@ =~= quote_spec(value@));
    out
}

/// True when a value has to be written back as a quoted string.
pub fn needs_quotes(value: &str) -> (r: bool)
    ensures
        r == needs_quotes_spec(value@),
{
    let v = chars_of(value);
    if v.len() == 0 {
        return true;
    }
    let mut i: usize = 0;
    while i < v.len()
        invariant
            i <= v@.len(),
            v@ == value@,
            forall|k: int| 0 <= k < i ==> !forces_quotes(#[trigger] v@[k]),
        decreases v@.len() - i,
    {
        let c = v[i];
        if is_whitespace(c) || c == '"' || c == '{' || c == '}' || c == '#' || c == '=' {
            assert(forces_quotes(v@[i as int]));
            return true;
        }
        i = i + 1;
    }
    false
}

impl Token {
    /// The token text with surrounding quotes and escapes removed.
    pub fn value(&self) -> (v: String)
        ensures
            v@ == (if self.kind == TokenKind::Quoted {
                unquote_spec(self.raw@)
            } else {
                self.raw@
            }),
    {
        if self.kind == TokenKind::Quoted {
            unquote(&self.raw)
        } else {
            self.raw.clone()
        }
    }
}

proof fn lemma_unescape_escape(v: Seq<char>)
    ensures
        unescape(escape(v)) == v,
    decreases v.len(),
{
    if v.len() > 0 {
        let rest = v.drop_first();
        lemma_unescape_escape(rest);
        let e = escape(v);
        if v[0] == '\\' || v[0] == '"' {
            assert(e == seq!['\\', v[0]] + escape(rest));
            assert(e.skip(2) =~= escape(rest));
            assert(e[1] == v[0]);
        } else {
            assert(e == seq![v[0]] + escape(rest));
            assert(e.drop_first() =~= escape(rest));
        }
        assert(v =~= seq![v[0]] + rest);
    } else {
        assert(unescape(escape(v)) =~= v);
    }
}

/// Law: quoting a value and reading the quoted token back gives the value
/// again, whatever it holds.
pub proof fn law_unquote_undoes_quote(value: Seq<char>)
    ensures
        unquote_spec(quote_spec(value)) == value,
{
    let q = quote_spec(value);
    assert(q.drop_first() =~= escape(value) + seq!['"']);
    assert(q.drop_first().drop_last() =~= escape(value));
    lemma_unescape_escape(value);
}

/// Law: a quoted value never needs quoting to be told apart from a word:
/// `quote` always writes a leading and a trailing double quote.
pub proof fn law_quote_is_delimited(value: Seq<char>)
    ensures
        quote_spec(value).len() >= 2,
        quote_spec(value)[0] == '"',
        quote_spec(value).last() == '"',
{
}

} // verus!
