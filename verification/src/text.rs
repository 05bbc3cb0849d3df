//! Byte-level views of text, and the few string primitives the library builds on.
//!
//! Offsets into a script are byte offsets, as in the files themselves. Every
//! character the script syntax cares about is ASCII, so scanning happens on the
//! UTF-8 bytes; text is cut out only at character boundaries.
use vstd::prelude::*;
use vstd::string::StringSliceAdditionalSpecFns;
use vstd::utf8::*;

verus! {

broadcast use vstd::utf8::group_utf8_lib;

/// `String::push` appends one character.
pub assume_specification[ String::push ](s: &mut String, ch: char)
    ensures
        final(s)@ == old(s)@.push(ch),
;

/// `String::push_str` appends a string slice.
pub assume_specification[ String::push_str ](s: &mut String, other: &str)
    ensures
        final(s)@ == old(s)@ + other@,
;

/// The UTF-8 bytes of a string slice.
pub open spec fn bytes_of(s: &str) -> Seq<u8> {
    s.spec_bytes()
}

/// The characters encoded by the bytes `b[start..end]`.
pub open spec fn text_at(b: Seq<u8>, start: int, end: int) -> Seq<char> {
    decode_utf8(b.subrange(start, end))
}

/// True when `i` does not fall inside the encoding of a character of `b`.
pub open spec fn boundary(b: Seq<u8>, i: int) -> bool {
    0 <= i <= b.len() && (i == b.len() || !is_continuation_byte(b[i]))
}

/// The number of bytes of the whitespace character (in the sense of
/// `char::is_whitespace`, the Unicode `White_Space` property) encoded at `i`,
/// or 0 when none starts there.
pub open spec fn ws_len(b: Seq<u8>, i: int) -> int {
    if i < 0 || i >= b.len() {
        0
    } else {
        let c = b[i];
        if c == 0x20 || (0x09 <= c && c <= 0x0d) {
            1
        } else if c == 0xc2 && i + 1 < b.len() && (b[i + 1] == 0x85 || b[i + 1] == 0xa0) {
            2
        } else if i + 2 < b.len() && ((c == 0xe1 && b[i + 1] == 0x9a && b[i + 2] == 0x80) || (c
            == 0xe2 && b[i + 1] == 0x80 && (b[i + 2] <= 0x8a || b[i + 2] == 0xa8 || b[i + 2]
            == 0xa9 || b[i + 2] == 0xaf)) || (c == 0xe2 && b[i + 1] == 0x81 && b[i + 2] == 0x9f)
            || (c == 0xe3 && b[i + 1] == 0x80 && b[i + 2] == 0x80)) {
            3
        } else {
            0
        }
    }
}

/// The whitespace characters of `char::is_whitespace`.
pub open spec fn is_ws(c: char) -> bool {
    ||| c == ' '
    ||| ('\t' <= c && c <= '\r')
    ||| c == '\u{85}'
    ||| c == '\u{a0}'
    ||| c == '\u{1680}'
    ||| ('\u{2000}' <= c && c <= '\u{200a}')
    ||| c == '\u{2028}'
    ||| c == '\u{2029}'
    ||| c == '\u{202f}'
    ||| c == '\u{205f}'
    ||| c == '\u{3000}'
}

/// Length of the whitespace character encoded at `i`, or 0.
pub fn whitespace_len(b: &[u8], i: usize) -> (n: usize)
    ensures
        n == ws_len(b@, i as int),
{
    if i >= b.len() {
        return 0;
    }
    let c = b[i];
    if c == 0x20 || (0x09 <= c && c <= 0x0d) {
        1
    } else if c == 0xc2 && i + 1 < b.len() && (b[i + 1] == 0x85 || b[i + 1] == 0xa0) {
        2
    } else if b.len() - i > 2 && ((c == 0xe1 && b[i + 1] == 0x9a && b[i + 2] == 0x80) || (c
        == 0xe2 && b[i + 1] == 0x80 && (b[i + 2] <= 0x8a || b[i + 2] == 0xa8 || b[i + 2] == 0xa9
        || b[i + 2] == 0xaf)) || (c == 0xe2 && b[i + 1] == 0x81 && b[i + 2] == 0x9f) || (c == 0xe3
        && b[i + 1] == 0x80 && b[i + 2] == 0x80)) {
        3
    } else {
        0
    }
}

/// A character boundary that is followed by a character of `w` bytes whose
/// first byte says so is followed by another boundary.
pub proof fn lemma_step_boundary(b: Seq<u8>, i: int, w: int)
    requires
        valid_utf8(b),
        boundary(b, i),
        i < b.len(),
        (w == 1 && b[i] < 0x80) || (w == 2 && 0xc0 <= b[i] <= 0xdf) || (w == 3 && 0xe0 <= b[i]
            <= 0xef) || (w == 4 && 0xf0 <= b[i] <= 0xf7),
    ensures
        i + w <= b.len(),
        boundary(b, i + w),
{
    let n = b.len() as int;
    if i == 0 {
        is_char_boundary_start_end_of_seq(b);
    } else {
        is_char_boundary_iff_not_is_continuation_byte(b, i);
    }
    valid_utf8_split(b, i);
    let s = b.subrange(i, n);
    assert(s[0] == b[i]);
    let bi = b[i];
    utf8_byte_ranges_bitwise(bi);
    assert(valid_first_scalar(s));
    assert(length_of_first_scalar(s) == w);
    let rest = pop_first_scalar(s);
    assert(valid_utf8(rest));
    if i + w < n {
        reveal_with_fuel(is_char_boundary, 2);
        assert(is_char_boundary(s, w));
        is_char_boundary_iff_not_is_continuation_byte(s, w);
        assert(s[w] == b[i + w]);
    }
}

/// The next boundary after a whitespace character.
pub proof fn lemma_ws_boundary(b: Seq<u8>, i: int)
    requires
        valid_utf8(b),
        boundary(b, i),
        ws_len(b, i) > 0,
    ensures
        boundary(b, i + ws_len(b, i)),
{
    let c = b[i];
    utf8_byte_ranges_bitwise(c);
    lemma_step_boundary(b, i, ws_len(b, i));
}

/// An ASCII byte is a character of its own.
pub proof fn lemma_ascii_boundary(b: Seq<u8>, i: int)
    requires
        0 <= i < b.len(),
        b[i] < 0x80,
    ensures
        boundary(b, i),
{
    let c = b[i];
    utf8_byte_ranges_bitwise(c);
}

/// The part of `source` between two byte offsets that fall on character boundaries.
pub fn slice_between<'a>(source: &'a str, start: usize, end: usize) -> (res: &'a str)
    requires
        start <= end <= bytes_of(source).len(),
        boundary(bytes_of(source), start as int),
        boundary(bytes_of(source), end as int),
    ensures
        bytes_of(res) == bytes_of(source).subrange(start as int, end as int),
        res@ == text_at(bytes_of(source), start as int, end as int),
{
    let b = Ghost(bytes_of(source));
    proof {
        if end < b@.len() {
            is_char_boundary_iff_not_is_continuation_byte(b@, end as int);
        } else {
            is_char_boundary_start_end_of_seq(b@);
        }
    }
    let (head, _) = source.split_at(end);
    proof {
        valid_utf8_split(b@, end as int);
        let h = b@.subrange(0, end as int);
        if start < end {
            assert(h[start as int] == b@[start as int]);
            is_char_boundary_iff_not_is_continuation_byte(h, start as int);
        } else {
            is_char_boundary_start_end_of_seq(h);
        }
    }
    let (_, tail) = head.split_at(start);
    assert(bytes_of(tail) =~= bytes_of(source).subrange(start as int, end as int));
    tail
}

/// An owned copy of the text between two character boundaries.
pub fn string_between(source: &str, start: usize, end: usize) -> (res: String)
    requires
        start <= end <= bytes_of(source).len(),
        boundary(bytes_of(source), start as int),
        boundary(bytes_of(source), end as int),
    ensures
        res@ == text_at(bytes_of(source), start as int, end as int),
{
    slice_between(source, start, end).to_owned()
}

} // verus!

verus! {

/// The characters of `s`, one by one.
pub fn chars_of(s: &str) -> (v: Vec<char>)
    ensures
        v@ == s@,
{
    let mut v: Vec<char> = Vec::new();
    for c in iter: s.chars()
        invariant
            v@ == iter.seq().take(iter.index() as int),
    {
        v.push(c);
    }
    assert(v@ =~= s@);
    v
}

} // verus!

verus! {

/// A string holding `v[start..end]`.
pub fn string_from_chars(v: &Vec<char>, start: usize, end: usize) -> (s: String)
    requires
        start <= end <= v@.len(),
    ensures
        s@ == v@.subrange(start as int, end as int),
{
    let mut s = String::new();
    let mut i = start;
    while i < end
        invariant
            start <= i <= end <= v@.len(),
            s@ == v@.subrange(start as int, i as int),
        decreases end - i,
    {
        s.push(v[i]);
        assert(v@.subrange(start as int, i + 1) =~= v@.subrange(start as int, i as int).push(
            v@[i as int],
        ));
        i = i + 1;
    }
    s
}

/// `char::is_whitespace`.
pub fn is_whitespace(c: char) -> (r: bool)
    ensures
        r == is_ws(c),
{
    c == ' ' || ('\t' <= c && c <= '\r') || c == '\u{85}' || c == '\u{a0}' || c == '\u{1680}'
        || ('\u{2000}' <= c && c <= '\u{200a}') || c == '\u{2028}' || c == '\u{2029}' || c
        == '\u{202f}' || c == '\u{205f}' || c == '\u{3000}'
}

/// Number of whitespace characters at the front of `s`.
pub open spec fn leading_ws(s: Seq<char>) -> nat
    decreases s.len(),
{
    if s.len() > 0 && is_ws(s[0]) {
        1 + leading_ws(s.drop_first())
    } else {
        0
    }
}

/// Number of whitespace characters at the back of `s`.
pub open spec fn trailing_ws(s: Seq<char>) -> nat
    decreases s.len(),
{
    if s.len() > 0 && is_ws(s.last()) {
        1 + trailing_ws(s.drop_last())
    } else {
        0
    }
}

/// `str::trim_start`.
pub open spec fn trim_start_spec(s: Seq<char>) -> Seq<char> {
    s.skip(leading_ws(s) as int)
}

/// `str::trim_end`.
pub open spec fn trim_end_spec(s: Seq<char>) -> Seq<char> {
    s.take(s.len() - trailing_ws(s))
}

/// `str::trim`.
pub open spec fn trim_spec(s: Seq<char>) -> Seq<char> {
    trim_end_spec(trim_start_spec(s))
}

pub proof fn lemma_leading_ws(s: Seq<char>, i: int)
    requires
        0 <= i <= s.len(),
        forall|k: int| 0 <= k < i ==> is_ws(#[trigger] s[k]),
        i == s.len() || !is_ws(s[i]),
    ensures
        leading_ws(s) == i,
    decreases s.len(),
{
    if i > 0 {
        let t = s.drop_first();
        assert forall|k: int| 0 <= k < i - 1 implies is_ws(#[trigger] t[k]) by {
            assert(t[k] == s[k + 1]);
        }
        if i - 1 < t.len() {
            assert(t[i - 1] == s[i]);
        }
        lemma_leading_ws(t, i - 1);
    }
}

pub proof fn lemma_trailing_ws(s: Seq<char>, i: int)
    requires
        0 <= i <= s.len(),
        forall|k: int| i <= k < s.len() ==> is_ws(#[trigger] s[k]),
        i == 0 || !is_ws(s[i - 1]),
    ensures
        trailing_ws(s) == s.len() - i,
    decreases s.len(),
{
    if i < s.len() {
        let t = s.drop_last();
        assert forall|k: int| i <= k < t.len() implies is_ws(#[trigger] t[k]) by {
            assert(t[k] == s[k]);
        }
        if i > 0 {
            assert(t[i - 1] == s[i - 1]);
        }
        lemma_trailing_ws(t, i);
    }
}

/// `str::trim_end`.
pub fn trim_end(s: &str) -> (r: String)
    ensures
        r@ == trim_end_spec(s@),
{
    let v = chars_of(s);
    let mut j = v.len();
    while j > 0 && is_whitespace(v[j - 1])
        invariant
            j <= v@.len(),
            v@ == s@,
            forall|k: int| j <= k < v@.len() ==> is_ws(#[trigger] v@[k]),
        decreases j,
    {
        j = j - 1;
    }
    proof {
        lemma_trailing_ws(v@, j as int);
    }
    string_from_chars(&v, 0, j)
}

/// Bounds of `str::trim` within `v`: the first and one past the last
/// character that is not whitespace.
pub fn trim_bounds(v: &Vec<char>) -> (r: (usize, usize))
    ensures
        r.0 <= r.1 <= v@.len(),
        v@.subrange(r.0 as int, r.1 as int) == trim_spec(v@),
        r.0 == leading_ws(v@),
{
    let mut i: usize = 0;
    while i < v.len() && is_whitespace(v[i])
        invariant
            i <= v@.len(),
            forall|k: int| 0 <= k < i ==> is_ws(#[trigger] v@[k]),
        decreases v@.len() - i,
    {
        i = i + 1;
    }
    proof {
        lemma_leading_ws(v@, i as int);
    }
    let mut j: usize = v.len();
    while j > i && is_whitespace(v[j - 1])
        invariant
            i <= j <= v@.len(),
            forall|k: int| j <= k < v@.len() ==> is_ws(#[trigger] v@[k]),
        decreases j - i,
    {
        j = j - 1;
    }
    proof {
        let t = v@.skip(i as int);
        if j > i {
            assert(t[j - i - 1] == v@[j - 1]);
        }
        assert forall|k: int| j - i <= k < t.len() implies is_ws(#[trigger] t[k]) by {
            assert(t[k] == v@[k + i]);
        }
        if j == i && t.len() > 0 {
            // everything after the leading run is whitespace: impossible unless empty
            assert(!is_ws(t[0]) || t.len() == 0) by {
                if i < v@.len() {
                    assert(t[0] == v@[i as int]);
                }
            }
        }
        lemma_trailing_ws(t, (j - i) as int);
        assert(v@.subrange(i as int, j as int) =~= t.take(t.len() - trailing_ws(t)));
    }
    (i, j)
}

/// `str::trim`, as an owned string.
pub fn trim(s: &str) -> (r: String)
    ensures
        r@ == trim_spec(s@),
{
    let v = chars_of(s);
    let (a, b) = trim_bounds(&v);
    string_from_chars(&v, a, b)
}

} // verus!

verus! {

/// `char::to_ascii_lowercase`, as a code point.
pub open spec fn ascii_fold(c: char) -> u32 {
    if 'A' <= c && c <= 'Z' {
        (c as u32 + 32) as u32
    } else {
        c as u32
    }
}

/// `str::eq_ignore_ascii_case`: equal once ASCII letters are lowercased.
pub open spec fn eq_ignore_ascii_case_spec(a: Seq<char>, b: Seq<char>) -> bool {
    a.len() == b.len() && forall|i: int| 0 <= i < a.len() ==> ascii_fold(#[trigger] a[i])
        == ascii_fold(b[i])
}

fn fold(c: char) -> (r: u32)
    ensures
        r == ascii_fold(c),
{
    if 'A' <= c && c <= 'Z' {
        (c as u32) + 32
    } else {
        c as u32
    }
}

/// `str::eq_ignore_ascii_case`.
pub fn eq_ignore_ascii_case(a: &str, b: &str) -> (r: bool)
    ensures
        r == eq_ignore_ascii_case_spec(a@, b@),
{
    let x = chars_of(a);
    let y = chars_of(b);
    if x.len() != y.len() {
        return false;
    }
    let mut i: usize = 0;
    while i < x.len()
        invariant
            i <= x@.len(),
            x@.len() == y@.len(),
            x@ == a@,
            y@ == b@,
            forall|k: int| 0 <= k < i ==> ascii_fold(#[trigger] x@[k]) == ascii_fold(y@[k]),
        decreases x@.len() - i,
    {
        if fold(x[i]) != fold(y[i]) {
            return false;
        }
        i = i + 1;
    }
    true
}

/// String equality, by content.
pub fn str_eq(a: &str, b: &str) -> (r: bool)
    ensures
        r == (a@ == b@),
{
    let x = chars_of(a);
    let y = chars_of(b);
    if x.len() != y.len() {
        return false;
    }
    let mut i: usize = 0;
    while i < x.len()
        invariant
            i <= x@.len(),
            x@.len() == y@.len(),
            x@ == a@,
            y@ == b@,
            forall|k: int| 0 <= k < i ==> #[trigger] x@[k] == y@[k],
        decreases x@.len() - i,
    {
        if x[i] != y[i] {
            return false;
        }
        i = i + 1;
    }
    assert(x@ =~= y@);
    true
}

} // verus!

verus! {

/// The start of a text is a character boundary.
pub proof fn lemma_start_boundary(b: Seq<u8>)
    requires
        valid_utf8(b),
    ensures
        boundary(b, 0),
{
    if b.len() > 0 {
        is_char_boundary_start_end_of_seq(b);
        is_char_boundary_iff_not_is_continuation_byte(b, 0);
    }
}

/// The bytes of a string slice form valid UTF-8.
pub proof fn lemma_str_valid(s: &str)
    ensures
        valid_utf8(bytes_of(s)),
        boundary(bytes_of(s), 0),
        boundary(bytes_of(s), bytes_of(s).len() as int),
{
    lemma_start_boundary(bytes_of(s));
}

} // verus!

verus! {

/// `s` holds the character `c`.
pub fn contains_char(s: &str, c: char) -> (r: bool)
    ensures
        r == s@.contains(c),
{
    let v = chars_of(s);
    let mut i: usize = 0;
    while i < v.len()
        invariant
            i <= v@.len(),
            v@ == s@,
            forall|k: int| 0 <= k < i ==> #[trigger] v@[k] != c,
        decreases v@.len() - i,
    {
        if v[i] == c {
            assert(v@[i as int] == c);
            return true;
        }
        i = i + 1;
    }
    false
}

/// The parts laid end to end with `sep` between them.
pub open spec fn join(parts: Seq<Seq<char>>, sep: Seq<char>) -> Seq<char>
    decreases parts.len(),
{
    if parts.len() == 0 {
        Seq::empty()
    } else if parts.len() == 1 {
        parts[0]
    } else {
        join(parts.drop_last(), sep) + sep + parts.last()
    }
}

/// The texts of a list of strings.
pub open spec fn views(parts: Seq<String>) -> Seq<Seq<char>> {
    Seq::new(parts.len(), |k: int| parts[k]@)
}

/// `[String]::join`.
pub fn join_strings(parts: &Vec<String>, sep: &str) -> (r: String)
    ensures
        r@ == join(views(parts@), sep@),
{
    let ghost all = views(parts@);
    let mut r = String::new();
    let mut i: usize = 0;
    while i < parts.len()
        invariant
            i <= parts@.len(),
            all == views(parts@),
            r@ == join(all.take(i as int), sep@),
        decreases parts@.len() - i,
    {
        if i > 0 {
            r.push_str(sep);
        }
        r.push_str(parts[i].as_str());
        proof {
            let t = all.take(i + 1);
            assert(t.drop_last() =~= all.take(i as int));
            if i == 0 {
                assert(r@ =~= t[0]);
            }
        }
        i = i + 1;
    }
    assert(all.take(all.len() as int) =~= all);
    r
}

} // verus!

verus! {

/// Trimming twice is trimming once.
pub proof fn lemma_trim_idempotent(s: Seq<char>)
    ensures
        trim_spec(trim_spec(s)) == trim_spec(s),
{
    let t = trim_start_spec(s);
    let u = trim_spec(s);
    let l = leading_ws(s) as int;
    assert(t == s.skip(l));
    // `t` starts with a non-whitespace character, when not empty.
    lemma_leading_ws_shape(s);
    lemma_trailing_ws_shape(t);
    if u.len() > 0 {
        assert(u[0] == t[0]);
        lemma_leading_ws(u, 0);
        assert(trim_start_spec(u) =~= u);
        assert(u[u.len() - 1] == t[t.len() - trailing_ws(t) - 1]);
        lemma_trailing_ws(u, u.len() as int);
        assert(trim_end_spec(u) =~= u);
    } else {
        assert(trim_start_spec(u) =~= u);
        assert(trim_end_spec(u) =~= u);
    }
}

proof fn lemma_leading_ws_shape(s: Seq<char>)
    ensures
        leading_ws(s) <= s.len(),
        forall|k: int| 0 <= k < leading_ws(s) ==> is_ws(#[trigger] s[k]),
        leading_ws(s) < s.len() ==> !is_ws(s[leading_ws(s) as int]),
    decreases s.len(),
{
    if s.len() > 0 && is_ws(s[0]) {
        let t = s.drop_first();
        lemma_leading_ws_shape(t);
        assert forall|k: int| 0 <= k < leading_ws(s) implies is_ws(#[trigger] s[k]) by {
            if k > 0 {
                assert(s[k] == t[k - 1]);
            }
        }
        if leading_ws(s) < s.len() {
            assert(s[leading_ws(s) as int] == t[leading_ws(t) as int]);
        }
    }
}

proof fn lemma_trailing_ws_shape(s: Seq<char>)
    ensures
        trailing_ws(s) <= s.len(),
        forall|k: int| s.len() - trailing_ws(s) <= k < s.len() ==> is_ws(#[trigger] s[k]),
        trailing_ws(s) < s.len() ==> !is_ws(s[s.len() - trailing_ws(s) - 1]),
    decreases s.len(),
{
    if s.len() > 0 && is_ws(s.last()) {
        let t = s.drop_last();
        lemma_trailing_ws_shape(t);
        assert forall|k: int| s.len() - trailing_ws(s) <= k < s.len() implies is_ws(
            #[trigger] s[k],
        ) by {
            if k < s.len() - 1 {
                assert(s[k] == t[k]);
            }
        }
        if trailing_ws(s) < s.len() {
            assert(s[s.len() - trailing_ws(s) - 1] == t[t.len() - trailing_ws(t) - 1]);
        }
    }
}

} // verus!

verus! {

/// What `str::to_lowercase` makes of a text (full Unicode lowercasing).
pub uninterp spec fn lowercase(s: Seq<char>) -> Seq<char>;

/// Lowercases with `str::to_lowercase`. The result is named, not described:
/// Unicode case mapping is a table, not a few lines.
#[verifier::external_body]
pub(crate) fn to_lowercase(s: &str) -> (r: String)
    ensures
        r@ == lowercase(s@),
{
    s.to_lowercase()
}

/// What `str::to_uppercase` makes of a text (full Unicode uppercasing).
pub uninterp spec fn uppercase(s: Seq<char>) -> Seq<char>;

/// Uppercases with `str::to_uppercase`. The result is named, not described:
/// Unicode case mapping is a table, not a few lines.
#[verifier::external_body]
pub(crate) fn to_uppercase(s: &str) -> (r: String)
    ensures
        r@ == uppercase(s@),
{
    s.to_uppercase()
}

/// `a` sorts before `b` or equals it, comparing character by character
/// (the order `str` comparison gives, since UTF-8 keeps code point order).
pub open spec fn text_le(a: Seq<char>, b: Seq<char>) -> bool
    decreases a.len(),
{
    if a.len() == 0 {
        true
    } else if b.len() == 0 {
        false
    } else if a[0] != b[0] {
        a[0] < b[0]
    } else {
        text_le(a.drop_first(), b.drop_first())
    }
}

proof fn lemma_text_le_total(a: Seq<char>, b: Seq<char>)
    ensures
        text_le(a, b) || text_le(b, a),
        text_le(a, b) && text_le(b, a) ==> a == b,
    decreases a.len(),
{
    if a.len() > 0 && b.len() > 0 && a[0] == b[0] {
        lemma_text_le_total(a.drop_first(), b.drop_first());
        if text_le(a, b) && text_le(b, a) {
            assert(a =~= seq![a[0]] + a.drop_first());
            assert(b =~= seq![b[0]] + b.drop_first());
        }
    }
    if a.len() == 0 && b.len() == 0 {
        assert(a =~= b);
    }
}

proof fn lemma_text_le_transitive(a: Seq<char>, b: Seq<char>, c: Seq<char>)
    requires
        text_le(a, b),
        text_le(b, c),
    ensures
        text_le(a, c),
    decreases a.len(),
{
    if a.len() > 0 && b.len() > 0 && c.len() > 0 && a[0] == b[0] && b[0] == c[0] {
        lemma_text_le_transitive(a.drop_first(), b.drop_first(), c.drop_first());
    }
}

/// The texts of `order` in order, each run of equal texts in the order of
/// their indices (what a stable sort leaves).
pub open spec fn ordered_by(texts: Seq<Seq<char>>, order: Seq<usize>) -> bool {
    &&& forall|i: int, j: int|
        0 <= i < j < order.len() ==> text_le(texts[order[i] as int], texts[order[j] as int])
    &&& forall|i: int, j: int|
        0 <= i < j < order.len() && texts[order[i] as int] == texts[order[j] as int] ==> order[i] < order[j]
}

/// Each index of `keys` once.
pub open spec fn is_order_of(keys: Seq<String>, order: Seq<usize>) -> bool {
    &&& order.len() == keys.len()
    &&& forall|i: int| 0 <= i < order.len() ==> order[i] < keys.len()
    &&& order.no_duplicates()
}

/// The keys lowercased.
pub open spec fn lowercased(keys: Seq<String>) -> Seq<Seq<char>> {
    Seq::new(keys.len(), |i: int| lowercase(keys[i]@))
}

/// The order in which to list texts: indices into `keys`, each once, sorted
/// by the text, equal texts kept in the order given (a stable sort by the
/// text as `str` compares it).
pub fn order_by_text(keys: &Vec<String>) -> (order: Vec<usize>)
    ensures
        is_order_of(keys@, order@),
        ordered_by(views(keys@), order@),
{
    stable_order(keys)
}

/// The order in which to list texts ignoring case: indices into `keys`,
/// each once, sorted by the lowercased text, texts that lowercase alike
/// kept in the order given (a stable sort by `to_lowercase`).
pub fn order_ignoring_case(keys: &Vec<String>) -> (order: Vec<usize>)
    ensures
        is_order_of(keys@, order@),
        ordered_by(lowercased(keys@), order@),
{
    let mut lowered: Vec<String> = Vec::new();
    let mut k: usize = 0;
    while k < keys.len()
        invariant
            k <= keys@.len(),
            lowered@.len() == k,
            forall|i: int| 0 <= i < k ==> #[trigger] lowered@[i]@ == lowercase(keys@[i]@),
        decreases keys@.len() - k,
    {
        lowered.push(to_lowercase(keys[k].as_str()));
        k = k + 1;
    }
    assert(views(lowered@) =~= lowercased(keys@));
    stable_order(&lowered)
}

/// A stable sort of the indices of `texts` by their text.
fn stable_order(texts: &Vec<String>) -> (order: Vec<usize>)
    ensures
        is_order_of(texts@, order@),
        ordered_by(views(texts@), order@),
{
    let mut order: Vec<usize> = Vec::new();
    let mut m: usize = 0;
    while m < texts.len()
        invariant
            m <= texts@.len(),
            order@.len() == m,
            forall|i: int| 0 <= i < order@.len() ==> order@[i] < m,
            order@.no_duplicates(),
            ordered_by(views(texts@), order@),
        decreases texts@.len() - m,
    {
        let ghost x = texts@[m as int]@;
        let mut p: usize = order.len();
        while p > 0 && !text_before_or_same(texts[order[p - 1]].as_str(), texts[m].as_str())
            invariant
                p <= order@.len(),
                m < texts@.len(),
                forall|i: int| 0 <= i < order@.len() ==> order@[i] < m,
                x == texts@[m as int]@,
                forall|i: int| p <= i < order@.len() ==> !text_le(texts@[order@[i] as int]@, x),
            decreases p,
        {
            p = p - 1;
        }
        proof {
            assert forall|i: int| 0 <= i < p implies text_le(texts@[order@[i] as int]@, x) by {
                let last = texts@[order@[p - 1] as int]@;
                if i < p - 1 {
                    lemma_text_le_transitive(texts@[order@[i] as int]@, last, x);
                }
            }
            assert forall|i: int| p <= i < order@.len() implies text_le(x, texts@[order@[i] as int]@)
                && x != texts@[order@[i] as int]@ by {
                lemma_text_le_total(x, texts@[order@[i] as int]@);
                lemma_text_le_total(texts@[order@[i] as int]@, texts@[order@[i] as int]@);
            }
        }
        let ghost before = order@;
        order.insert(p, m);
        proof {
            let o = order@;
            assert(o == before.insert(p as int, m));
            assert forall|i: int| 0 <= i < o.len() implies o[i] < m + 1 by {
                if i < p {
                    assert(o[i] == before[i]);
                } else if i > p {
                    assert(o[i] == before[i - 1]);
                }
            }
            assert forall|i: int, j: int| 0 <= i < o.len() && 0 <= j < o.len() && i != j implies o[i] != o[j] by {
                if i != p && j != p {
                    let bi = if i < p { i } else { i - 1 };
                    let bj = if j < p { j } else { j - 1 };
                    assert(o[i] == before[bi]);
                    assert(o[j] == before[bj]);
                } else if i == p {
                    let bj = if j < p { j } else { j - 1 };
                    assert(o[j] == before[bj]);
                } else {
                    let bi = if i < p { i } else { i - 1 };
                    assert(o[i] == before[bi]);
                }
            }
            assert forall|i: int, j: int| 0 <= i < j < o.len() implies text_le(
                texts@[o[i] as int]@,
                texts@[o[j] as int]@,
            ) && (texts@[o[i] as int]@ == texts@[o[j] as int]@ ==> o[i] < o[j]) by {
                let bi = if i < p { i } else { i - 1 };
                let bj = if j < p { j } else { j - 1 };
                if i != p {
                    assert(o[i] == before[bi]);
                }
                if j != p {
                    assert(o[j] == before[bj]);
                }
            }
        }
        m = m + 1;
    }
    order
}

/// Whether `a` sorts before `b` or equals it, character by character.
fn text_before_or_same(a: &str, b: &str) -> (r: bool)
    ensures
        r == text_le(a@, b@),
{
    let x = chars_of(a);
    let y = chars_of(b);
    let mut i: usize = 0;
    proof {
        assert(a@.skip(0) =~= a@);
        assert(b@.skip(0) =~= b@);
    }
    while i < x.len() && i < y.len() && x[i] == y[i]
        invariant
            i <= x@.len(),
            i <= y@.len(),
            x@ == a@,
            y@ == b@,
            text_le(a@, b@) == text_le(a@.skip(i as int), b@.skip(i as int)),
        decreases x@.len() - i,
    {
        proof {
            assert(a@.skip(i as int).drop_first() =~= a@.skip(i as int + 1));
            assert(b@.skip(i as int).drop_first() =~= b@.skip(i as int + 1));
        }
        i = i + 1;
    }
    if i == x.len() {
        true
    } else if i == y.len() {
        false
    } else {
        x[i] < y[i]
    }
}

/// Every `from` replaced by `to`.
pub open spec fn replace_char(s: Seq<char>, from: char, to: char) -> Seq<char> {
    Seq::new(s.len(), |i: int| if s[i] == from { to } else { s[i] })
}

/// `str::replace` of one character by another.
pub fn replace_char_in(s: &str, from: char, to: char) -> (r: String)
    ensures
        r@ == replace_char(s@, from, to),
{
    let v = chars_of(s);
    let mut r = String::new();
    let mut i: usize = 0;
    while i < v.len()
        invariant
            i <= v@.len(),
            v@ == s@,
            r@ == replace_char(s@, from, to).take(i as int),
        decreases v@.len() - i,
    {
        if v[i] == from {
            r.push(to);
        } else {
            r.push(v[i]);
        }
        i = i + 1;
        assert(r@ =~= replace_char(s@, from, to).take(i as int));
    }
    assert(replace_char(s@, from, to).take(v@.len() as int) =~= replace_char(s@, from, to));
    r
}

/// Number of `c` at the back of `s`.
pub open spec fn trailing_count(s: Seq<char>, c: char) -> nat
    decreases s.len(),
{
    if s.len() > 0 && s.last() == c {
        1 + trailing_count(s.drop_last(), c)
    } else {
        0
    }
}

/// `str::trim_end_matches` of one character.
pub open spec fn trim_end_char(s: Seq<char>, c: char) -> Seq<char> {
    s.take(s.len() - trailing_count(s, c))
}

proof fn lemma_trailing_count(s: Seq<char>, c: char, i: int)
    requires
        0 <= i <= s.len(),
        forall|k: int| i <= k < s.len() ==> #[trigger] s[k] == c,
        i == 0 || s[i - 1] != c,
    ensures
        trailing_count(s, c) == s.len() - i,
    decreases s.len(),
{
    if i < s.len() {
        let t = s.drop_last();
        assert forall|k: int| i <= k < t.len() implies #[trigger] t[k] == c by {
            assert(t[k] == s[k]);
        }
        if i > 0 {
            assert(t[i - 1] == s[i - 1]);
        }
        lemma_trailing_count(t, c, i);
    }
}

pub fn trim_end_matches_char(s: &str, c: char) -> (r: String)
    ensures
        r@ == trim_end_char(s@, c),
{
    let v = chars_of(s);
    let mut j = v.len();
    while j > 0 && v[j - 1] == c
        invariant
            j <= v@.len(),
            forall|k: int| j <= k < v@.len() ==> #[trigger] v@[k] == c,
        decreases j,
    {
        j = j - 1;
    }
    proof {
        lemma_trailing_count(v@, c, j as int);
    }
    string_from_chars(&v, 0, j)
}

/// How many `c` begin `s`.
pub open spec fn leading_count(s: Seq<char>, c: char) -> nat
    decreases s.len(),
{
    if s.len() > 0 && s[0] == c {
        1 + leading_count(s.drop_first(), c)
    } else {
        0
    }
}

/// `str::trim_start_matches` of one character.
pub open spec fn trim_start_char(s: Seq<char>, c: char) -> Seq<char> {
    s.skip(leading_count(s, c) as int)
}

proof fn lemma_leading_count(s: Seq<char>, c: char, i: int)
    requires
        0 <= i <= s.len(),
        forall|k: int| 0 <= k < i ==> #[trigger] s[k] == c,
        i == s.len() || s[i] != c,
    ensures
        leading_count(s, c) == i,
    decreases i,
{
    if i > 0 {
        let d = s.drop_first();
        assert forall|k: int| 0 <= k < i - 1 implies #[trigger] d[k] == c by {
            assert(d[k] == s[k + 1]);
        }
        if i < s.len() {
            assert(d[i - 1] == s[i]);
        }
        lemma_leading_count(d, c, i - 1);
    }
}

/// `str::trim_start_matches` of one character.
pub fn trim_start_matches_char(s: &str, c: char) -> (r: String)
    ensures
        r@ == trim_start_char(s@, c),
{
    let v = chars_of(s);
    let mut i: usize = 0;
    while i < v.len() && v[i] == c
        invariant
            i <= v@.len(),
            forall|k: int| 0 <= k < i ==> #[trigger] v@[k] == c,
        decreases v.len() - i,
    {
        i = i + 1;
    }
    proof {
        lemma_leading_count(v@, c, i as int);
        assert(v@.subrange(i as int, v@.len() as int) =~= v@.skip(i as int));
    }
    string_from_chars(&v, i, v.len())
}


} // verus!

verus! {

/// Position of the first `c` in `s` at or after `i`, or the length when
/// there is none.
pub open spec fn find_from(s: Seq<char>, c: char, i: int) -> int
    decreases s.len() - i,
{
    if i < 0 || i >= s.len() {
        s.len() as int
    } else if s[i] == c {
        i
    } else {
        find_from(s, c, i + 1)
    }
}

/// `str::find` of one character: its first position, or the length.
pub open spec fn index_of(s: Seq<char>, c: char) -> int {
    find_from(s, c, 0)
}

/// `str::rfind` of one character: its last position, or -1.
pub open spec fn rindex_of(s: Seq<char>, c: char) -> int
    decreases s.len(),
{
    if s.len() == 0 {
        -1
    } else if s.last() == c {
        s.len() - 1
    } else {
        rindex_of(s.drop_last(), c)
    }
}

pub proof fn lemma_find_from(s: Seq<char>, c: char, i: int, j: int)
    requires
        0 <= i <= j <= s.len(),
        forall|k: int| i <= k < j ==> #[trigger] s[k] != c,
        j == s.len() || s[j] == c,
    ensures
        find_from(s, c, i) == j,
    decreases j - i,
{
    if i < j {
        lemma_find_from(s, c, i + 1, j);
    }
}

pub proof fn lemma_rindex_of(s: Seq<char>, c: char, j: int)
    requires
        -1 <= j < s.len(),
        forall|k: int| j < k < s.len() ==> #[trigger] s[k] != c,
        j == -1 || s[j] == c,
    ensures
        rindex_of(s, c) == j,
    decreases s.len(),
{
    if s.len() > 0 && j < s.len() - 1 {
        let t = s.drop_last();
        assert forall|k: int| j < k < t.len() implies #[trigger] t[k] != c by {
            assert(t[k] == s[k]);
        }
        if j >= 0 {
            assert(t[j] == s[j]);
        }
        lemma_rindex_of(t, c, j);
    }
}

/// The first `c` in `v[start..end]`, as a position in `v`; `end` when none.
pub fn find_char(v: &Vec<char>, c: char, start: usize, end: usize) -> (r: usize)
    requires
        start <= end <= v@.len(),
    ensures
        start <= r <= end,
        find_from(v@.subrange(start as int, end as int), c, 0) == r - start,
        forall|k: int| start <= k < r ==> #[trigger] v@[k] != c,
        r < end ==> v@[r as int] == c,
{
    let mut i = start;
    while i < end && v[i] != c
        invariant
            start <= i <= end <= v@.len(),
            forall|k: int| start <= k < i ==> #[trigger] v@[k] != c,
        decreases end - i,
    {
        i = i + 1;
    }
    proof {
        let s = v@.subrange(start as int, end as int);
        assert forall|k: int| 0 <= k < i - start implies #[trigger] s[k] != c by {
            assert(s[k] == v@[k + start]);
        }
        if i < end {
            assert(s[i - start] == v@[i as int]);
        }
        lemma_find_from(s, c, 0, i - start);
    }
    i
}

/// The last `c` in `v[start..end]`, as a position in `v`, if any.
pub fn rfind_char(v: &Vec<char>, c: char, start: usize, end: usize) -> (r: Option<usize>)
    requires
        start <= end <= v@.len(),
    ensures
        rindex_of(v@.subrange(start as int, end as int), c) == match r {
            Some(k) => k - start,
            None => -1,
        },
        r matches Some(k) ==> start <= k < end,
{
    let mut j = end;
    while j > start && v[j - 1] != c
        invariant
            start <= j <= end <= v@.len(),
            forall|k: int| j <= k < end ==> #[trigger] v@[k] != c,
        decreases j - start,
    {
        j = j - 1;
    }
    proof {
        let s = v@.subrange(start as int, end as int);
        assert forall|k: int| j - start - 1 < k < s.len() implies #[trigger] s[k] != c by {
            assert(s[k] == v@[k + start]);
        }
        if j > start {
            assert(s[j - start - 1] == v@[j - 1]);
        }
        lemma_rindex_of(s, c, j - start - 1);
    }
    if j > start {
        Some(j - 1)
    } else {
        None
    }
}

/// A copy of `v[start..end]`.
pub fn sub_chars(v: &Vec<char>, start: usize, end: usize) -> (r: Vec<char>)
    requires
        start <= end <= v@.len(),
    ensures
        r@ == v@.subrange(start as int, end as int),
{
    let mut r: Vec<char> = Vec::new();
    let mut i = start;
    while i < end
        invariant
            start <= i <= end <= v@.len(),
            r@ == v@.subrange(start as int, i as int),
        decreases end - i,
    {
        r.push(v[i]);
        i = i + 1;
        assert(r@ =~= v@.subrange(start as int, i as int));
    }
    r
}

/// The characters of `v` as a string.
pub fn string_of(v: &Vec<char>) -> (s: String)
    ensures
        s@ == v@,
{
    let s = string_from_chars(v, 0, v.len());
    assert(v@.subrange(0, v@.len() as int) =~= v@);
    s
}

/// `str::trim` on characters.
pub fn trim_chars(v: &Vec<char>) -> (r: Vec<char>)
    ensures
        r@ == trim_spec(v@),
{
    let (a, b) = trim_bounds(v);
    sub_chars(v, a, b)
}

} // verus!

verus! {

proof fn lemma_leading_ws_props(s: Seq<char>)
    ensures
        leading_ws(s) <= s.len(),
        forall|x: int| 0 <= x < leading_ws(s) ==> is_ws(#[trigger] s[x]),
        leading_ws(s) < s.len() ==> !is_ws(s[leading_ws(s) as int]),
    decreases s.len(),
{
    if s.len() > 0 && is_ws(s[0]) {
        let t = s.drop_first();
        lemma_leading_ws_props(t);
        assert forall|x: int| 0 <= x < leading_ws(s) implies is_ws(#[trigger] s[x]) by {
            if x > 0 {
                assert(s[x] == t[x - 1]);
            }
        }
        if leading_ws(s) < s.len() {
            assert(s[leading_ws(s) as int] == t[leading_ws(t) as int]);
        }
    }
}

proof fn lemma_trailing_ws_props(s: Seq<char>)
    ensures
        trailing_ws(s) <= s.len(),
        forall|x: int| s.len() - trailing_ws(s) <= x < s.len() ==> is_ws(#[trigger] s[x]),
        trailing_ws(s) < s.len() ==> !is_ws(s[s.len() - trailing_ws(s) - 1]),
    decreases s.len(),
{
    if s.len() > 0 && is_ws(s.last()) {
        let t = s.drop_last();
        lemma_trailing_ws_props(t);
        assert forall|x: int| s.len() - trailing_ws(s) <= x < s.len() implies is_ws(
            #[trigger] s[x],
        ) by {
            if x < s.len() - 1 {
                assert(s[x] == t[x]);
            }
        }
        if trailing_ws(s) < s.len() {
            assert(s[s.len() - trailing_ws(s) - 1] == t[t.len() - trailing_ws(t) - 1]);
        }
    }
}

/// A trimmed text neither starts nor ends with whitespace.
pub proof fn lemma_trim_shape(s: Seq<char>)
    ensures
        trim_spec(s).len() > 0 ==> !is_ws(trim_spec(s)[0]) && !is_ws(trim_spec(s).last()),
{
    lemma_leading_ws_props(s);
    let u = trim_start_spec(s);
    lemma_trailing_ws_props(u);
    let r = trim_spec(s);
    if r.len() > 0 {
        assert(r[0] == u[0]);
        assert(u[0] == s[leading_ws(s) as int]);
        assert(r.last() == u[u.len() - trailing_ws(u) - 1]);
    }
}

/// Trimming `t` leaves `t[i..j]` when only whitespace lies outside it and
/// it neither starts nor ends with whitespace.
pub proof fn lemma_trim_exact(t: Seq<char>, i: int, j: int)
    requires
        0 <= i <= j <= t.len(),
        forall|x: int| 0 <= x < i ==> is_ws(#[trigger] t[x]),
        forall|x: int| j <= x < t.len() ==> is_ws(#[trigger] t[x]),
        i < j ==> !is_ws(t[i]) && !is_ws(t[j - 1]),
    ensures
        trim_spec(t) == t.subrange(i, j),
{
    if i < j {
        lemma_leading_ws(t, i);
        let u = t.skip(i);
        assert forall|x: int| j - i <= x < u.len() implies is_ws(#[trigger] u[x]) by {
            assert(u[x] == t[x + i]);
        }
        assert(u[j - i - 1] == t[j - 1]);
        lemma_trailing_ws(u, j - i);
        assert(trim_spec(t) =~= t.subrange(i, j));
    } else {
        assert forall|x: int| 0 <= x < t.len() implies is_ws(#[trigger] t[x]) by {
            if x >= i {
                assert(x >= j);
            }
        }
        lemma_leading_ws(t, t.len() as int);
        let u = t.skip(t.len() as int);
        lemma_trailing_ws(u, 0);
        assert(trim_spec(t) =~= t.subrange(i, j));
    }
}

/// Law: the ASCII whitespace characters — space, tab, line feed, vertical
/// tab, form feed and carriage return — and the no-break and ideographic
/// spaces are whitespace; letters, digits and the script's punctuation are
/// not.
pub proof fn law_whitespace_characters()
    ensures
        is_ws(' '),
        is_ws('\t'),
        is_ws('\n'),
        is_ws('\u{0b}'),
        is_ws('\u{0c}'),
        is_ws('\r'),
        is_ws('\u{a0}'),
        is_ws('\u{3000}'),
        !is_ws('a'),
        !is_ws('0'),
        !is_ws('='),
        !is_ws('{'),
        !is_ws('}'),
        !is_ws('"'),
        !is_ws('#'),
{
}

} // verus!
