//! Hearts of Iron IV localisation files.
//!
//! The format looks like YAML but is not: a language header (`l_english:`)
//! followed by ` KEY:version "text"` lines. Files must be UTF-8 with a BOM or
//! the game silently ignores them, so a BOM is always written back.
//!
//! Text is modelled as characters here: every character the format cares
//! about (`:`, `"`, `#`, `\`) is ASCII, and entries are cut out of lines.
use crate::text::{
    views, join, join_strings, str_eq, trim, trim_end_matches_char,
    chars_of, find_char, find_from, index_of, is_ws, rfind_char, rindex_of, string_of,
    sub_chars, trim_chars, trim_end_char, trim_spec, lemma_trim_idempotent,
};
use vstd::prelude::*;
use vstd::utf8::encode_utf8;

verus! {

// ---------------------------------------------------------------------------
// Lines
// ---------------------------------------------------------------------------

/// Position of the first `'\n'` at or after `i`, or the length.
pub open spec fn newline_from(s: Seq<char>, i: int) -> int {
    find_from(s, '\n', i)
}

pub proof fn lemma_find_from_bounds(s: Seq<char>, c: char, i: int)
    requires
        0 <= i <= s.len(),
    ensures
        i <= find_from(s, c, i) <= s.len(),
        find_from(s, c, i) < s.len() ==> s[find_from(s, c, i)] == c,
        forall|k: int| i <= k < find_from(s, c, i) ==> s[k] != c,
    decreases s.len() - i,
{
    if i < s.len() && s[i] != c {
        lemma_find_from_bounds(s, c, i + 1);
    }
}

/// A line ended by `'\n'` loses a `'\r'` just before it.
pub open spec fn strip_cr(l: Seq<char>) -> Seq<char> {
    if l.len() > 0 && l.last() == '\r' {
        l.drop_last()
    } else {
        l
    }
}

/// `str::lines` of `s` from position `i`: split at `'\n'`, a `'\r'` before
/// the `'\n'` dropped, and no empty line after a final `'\n'`.
pub open spec fn lines_from(s: Seq<char>, i: int) -> Seq<Seq<char>>
    decreases s.len() - i,
{
    if i < 0 || i >= s.len() {
        Seq::empty()
    } else {
        let j = newline_from(s, i);
        if j >= s.len() {
            seq![s.subrange(i, s.len() as int)]
        } else {
            proof {
                lemma_find_from_bounds(s, '\n', i);
            }
            seq![strip_cr(s.subrange(i, j))] + lines_from(s, j + 1)
        }
    }
}

/// `str::lines`.
pub open spec fn lines_of(s: Seq<char>) -> Seq<Seq<char>> {
    lines_from(s, 0)
}


/// The lines of `content`, as `str::lines` gives them.
pub fn split_lines(content: &Vec<char>) -> (lines: Vec<String>)
    ensures
        views(lines@) == lines_of(content@),
{
    let ghost s = content@;
    let mut lines: Vec<String> = Vec::new();
    let mut i: usize = 0;
    while i < content.len()
        invariant
            s == content@,
            i <= s.len(),
            views(lines@) + lines_from(s, i as int) == lines_of(s),
        decreases s.len() - i,
    {
        let j = find_char(content, '\n', i, content.len());
        proof {
            lemma_find_from_bounds(s, '\n', i as int);
            let sub = s.subrange(i as int, s.len() as int);
            assert forall|k: int| i <= k < j implies #[trigger] s[k] != '\n' by {}
            crate::text::lemma_find_from(s, '\n', i as int, j as int);
        }
        let ghost before = views(lines@);
        if j == content.len() {
            let line = string_of(&sub_chars(content, i, j));
            lines.push(line);
            proof {
                assert(views(lines@) =~= before.push(s.subrange(i as int, s.len() as int)));
                assert(lines_from(s, j as int) =~= Seq::<Seq<char>>::empty());
            }
            i = j;
        } else {
            let end = if j > i && content[j - 1] == '\r' {
                j - 1
            } else {
                j
            };
            let line = string_of(&sub_chars(content, i, end));
            lines.push(line);
            proof {
                let whole = s.subrange(i as int, j as int);
                assert(line@ == strip_cr(whole)) by {
                    if j > i && s[j - 1] == '\r' {
                        assert(whole.drop_last() =~= s.subrange(i as int, end as int));
                    }
                }
                assert(views(lines@) =~= before.push(strip_cr(whole)));
                assert(lines_from(s, i as int) == seq![strip_cr(whole)] + lines_from(
                    s,
                    j + 1,
                ));
                assert(views(lines@) + lines_from(s, j + 1) =~= before + lines_from(
                    s,
                    i as int,
                ));
            }
            i = j + 1;
        }
    }
    proof {
        assert(lines_from(s, i as int) =~= Seq::<Seq<char>>::empty());
        assert(views(lines@) + Seq::<Seq<char>>::empty() =~= views(lines@));
    }
    lines
}

// ---------------------------------------------------------------------------
// Entries
// ---------------------------------------------------------------------------

/// One ` KEY:version "text"` line.
#[derive(Debug, Clone)]
pub struct LocalisationEntry {
    pub key: String,
    /// The number after the colon, kept as text because it is optional.
    pub version: String,
    pub value: String,
    /// Zero-based line in the source file, `None` for an entry added in the app.
    pub line: Option<usize>,
}

/// The text of an entry.
pub struct EntryView {
    pub key: Seq<char>,
    pub version: Seq<char>,
    pub value: Seq<char>,
    pub line: Option<usize>,
}

impl View for LocalisationEntry {
    type V = EntryView;

    open spec fn view(&self) -> EntryView {
        EntryView { key: self.key@, version: self.version@, value: self.value@, line: self.line }
    }
}

/// The texts of a list of entries.
pub open spec fn entry_views(v: Seq<LocalisationEntry>) -> Seq<EntryView> {
    Seq::new(v.len(), |k: int| v[k]@)
}

/// Where a `#` comment starts, scanning from `k` with `quoted` telling
/// whether `k` is inside a quoted value; the length when there is none. A
/// `"` opens or closes a value unless a backslash comes just before it.
pub open spec fn comment_from(s: Seq<char>, k: int, quoted: bool) -> int
    decreases s.len() - k,
{
    if k < 0 || k >= s.len() {
        s.len() as int
    } else if s[k] == '"' && (k == 0 || s[k - 1] != '\\') {
        comment_from(s, k + 1, !quoted)
    } else if s[k] == '#' && !quoted {
        k
    } else {
        comment_from(s, k + 1, quoted)
    }
}

/// The line without a trailing `#` comment that is not inside the quoted value.
pub open spec fn strip_comment_spec(s: Seq<char>) -> Seq<char> {
    s.take(comment_from(s, 0, false))
}

/// `trimmed.to_lowercase().starts_with("l_")`: only `l` and `L` lowercase
/// to something that starts with `l`, and only `_` to something that starts
/// with `_`.
pub open spec fn starts_with_l_(s: Seq<char>) -> bool {
    s.len() >= 2 && (s[0] == 'l' || s[0] == 'L') && s[1] == '_'
}

/// A trimmed line that names the language: `l_english:`.
pub open spec fn header_shape(t: Seq<char>) -> bool {
    starts_with_l_(t) && t.last() == ':' && !t.contains('"')
}

/// `is_language_header`.
pub open spec fn is_language_header_spec(line: Seq<char>) -> bool {
    header_shape(trim_spec(line))
}

/// Every two-character `a b` replaced by `r`, left to right, as `str::replace` does.
pub open spec fn replace_pair(s: Seq<char>, a: char, b: char, r: char) -> Seq<char>
    decreases s.len(),
{
    if s.len() == 0 {
        Seq::empty()
    } else if s.len() >= 2 && s[0] == a && s[1] == b {
        seq![r] + replace_pair(s.skip(2), a, b, r)
    } else {
        seq![s[0]] + replace_pair(s.drop_first(), a, b, r)
    }
}

/// Every `c` replaced by the two characters `x y`.
pub open spec fn expand_char(s: Seq<char>, c: char, x: char, y: char) -> Seq<char>
    decreases s.len(),
{
    if s.len() == 0 {
        Seq::empty()
    } else if s[0] == c {
        seq![x, y] + expand_char(s.drop_first(), c, x, y)
    } else {
        seq![s[0]] + expand_char(s.drop_first(), c, x, y)
    }
}

/// `\"` becomes `"`, then `\\` becomes `\`.
pub open spec fn unescape_spec(s: Seq<char>) -> Seq<char> {
    replace_pair(replace_pair(s, '\\', '"', '"'), '\\', '\\', '\\')
}

/// `\` becomes `\\`, then `"` becomes `\"`.
pub open spec fn escape_spec(s: Seq<char>) -> Seq<char> {
    expand_char(expand_char(s, '\\', '\\', '\\'), '"', '\\', '"')
}

/// The text between the first and the last `"`; after the first one when
/// there is no other; the value itself when it holds none.
pub open spec fn trim_quotes_spec(v: Seq<char>) -> Seq<char> {
    let start = index_of(v, '"');
    let end = rindex_of(v, '"');
    if start >= v.len() {
        v
    } else if end > start {
        v.subrange(start + 1, end)
    } else {
        v.skip(start + 1)
    }
}

/// The entry a line holds, if it has a key, a colon and a quoted value.
pub open spec fn parse_entry_spec(line: Seq<char>, index: usize) -> Option<EntryView> {
    let w = strip_comment_spec(line);
    let colon = index_of(w, ':');
    if colon >= w.len() {
        None
    } else {
        let key = trim_spec(w.take(colon));
        let rest = w.skip(colon + 1);
        let quote = index_of(rest, '"');
        if key.len() == 0 || starts_with_l_(key) || quote >= rest.len() {
            None
        } else {
            Some(
                EntryView {
                    key,
                    version: trim_spec(rest.take(quote)),
                    value: unescape_spec(trim_quotes_spec(trim_spec(rest.skip(quote)))),
                    line: Some(index),
                },
            )
        }
    }
}

/// What a line of a file contributes: nothing for a blank line, a comment
/// or the language header, otherwise the entry it holds, if any.
pub open spec fn line_entry(line: Seq<char>, index: usize) -> Option<EntryView> {
    let t = trim_spec(line);
    if t.len() == 0 || t[0] == '#' || header_shape(t) {
        None
    } else {
        parse_entry_spec(line, index)
    }
}

/// The language and the entries of the first `lines.len()` lines.
pub open spec fn parse_lines(lines: Seq<Seq<char>>) -> (Seq<char>, Seq<EntryView>)
    decreases lines.len(),
{
    if lines.len() == 0 {
        (Seq::empty(), Seq::empty())
    } else {
        let (language, entries) = parse_lines(lines.drop_last());
        let line = lines.last();
        let t = trim_spec(line);
        if t.len() == 0 || t[0] == '#' {
            (language, entries)
        } else if header_shape(t) {
            (
                if language.len() == 0 {
                    trim_spec(trim_end_char(t, ':'))
                } else {
                    language
                },
                entries,
            )
        } else {
            match parse_entry_spec(line, (lines.len() - 1) as usize) {
                Some(e) => (language, entries.push(e)),
                None => (language, entries),
            }
        }
    }
}

/// The language named by the first header (empty when there is none) and
/// the entries, in file order.
pub open spec fn parse_spec(content: Seq<char>) -> (Seq<char>, Seq<EntryView>) {
    parse_lines(lines_of(content))
}

/// Removes a trailing `#` comment that is not inside the quoted value.
pub fn strip_comment(line: &Vec<char>) -> (r: Vec<char>)
    ensures
        r@ == strip_comment_spec(line@),
{
    let ghost s = line@;
    let mut quoted = false;
    let mut k: usize = 0;
    while k < line.len()
        invariant
            s == line@,
            k <= s.len(),
            comment_from(s, 0, false) == comment_from(s, k as int, quoted),
        decreases s.len() - k,
    {
        let c = line[k];
        if c == '"' && (k == 0 || line[k - 1] != '\\') {
            quoted = !quoted;
        } else if c == '#' && !quoted {
            return sub_chars(line, 0, k);
        }
        k = k + 1;
    }
    sub_chars(line, 0, line.len())
}

/// `str::replace` of the two characters `a b` by `r`.
pub fn replace_pair_in(s: &Vec<char>, a: char, b: char, r: char) -> (out: Vec<char>)
    ensures
        out@ == replace_pair(s@, a, b, r),
{
    let ghost v = s@;
    let mut out: Vec<char> = Vec::new();
    let mut i: usize = 0;
    proof {
        assert(v.skip(0) =~= v);
        assert(out@ + replace_pair(v, a, b, r) =~= replace_pair(v, a, b, r));
    }
    while i < s.len()
        invariant
            v == s@,
            i <= v.len(),
            out@ + replace_pair(v.skip(i as int), a, b, r) == replace_pair(v, a, b, r),
        decreases v.len() - i,
    {
        let ghost t = v.skip(i as int);
        if i + 1 < s.len() && s[i] == a && s[i + 1] == b {
            out.push(r);
            proof {
                assert(t.skip(2) =~= v.skip(i + 2));
                assert(out@ + replace_pair(v.skip(i + 2), a, b, r) =~= out@.drop_last() + (seq![r]
                    + replace_pair(t.skip(2), a, b, r)));
            }
            i = i + 2;
        } else {
            out.push(s[i]);
            proof {
                assert(t.drop_first() =~= v.skip(i + 1));
                assert(out@ + replace_pair(v.skip(i + 1), a, b, r) =~= out@.drop_last() + (seq![
                    v[i as int],
                ] + replace_pair(t.drop_first(), a, b, r)));
            }
            i = i + 1;
        }
    }
    proof {
        assert(v.skip(i as int) =~= Seq::<char>::empty());
        assert(out@ + Seq::<char>::empty() =~= out@);
    }
    out
}

/// Every `c` replaced by `x y`.
pub fn expand_char_in(s: &Vec<char>, c: char, x: char, y: char) -> (out: Vec<char>)
    ensures
        out@ == expand_char(s@, c, x, y),
{
    let ghost v = s@;
    let mut out: Vec<char> = Vec::new();
    let mut i: usize = 0;
    proof {
        assert(v.skip(0) =~= v);
        assert(out@ + expand_char(v, c, x, y) =~= expand_char(v, c, x, y));
    }
    while i < s.len()
        invariant
            v == s@,
            i <= v.len(),
            out@ + expand_char(v.skip(i as int), c, x, y) == expand_char(v, c, x, y),
        decreases v.len() - i,
    {
        let ghost t = v.skip(i as int);
        let ghost before = out@;
        if s[i] == c {
            out.push(x);
            out.push(y);
            proof {
                assert(t.drop_first() =~= v.skip(i + 1));
                assert(out@ + expand_char(v.skip(i + 1), c, x, y) =~= before + (seq![x, y]
                    + expand_char(t.drop_first(), c, x, y)));
            }
        } else {
            out.push(s[i]);
            proof {
                assert(t.drop_first() =~= v.skip(i + 1));
                assert(out@ + expand_char(v.skip(i + 1), c, x, y) =~= before + (seq![v[i as int]]
                    + expand_char(t.drop_first(), c, x, y)));
            }
        }
        i = i + 1;
    }
    proof {
        assert(v.skip(i as int) =~= Seq::<char>::empty());
        assert(out@ + Seq::<char>::empty() =~= out@);
    }
    out
}

/// Undoes the escaping of quotes and backslashes in a value.
pub fn unescape(value: &Vec<char>) -> (r: Vec<char>)
    ensures
        r@ == unescape_spec(value@),
{
    let once = replace_pair_in(value, '\\', '"', '"');
    replace_pair_in(&once, '\\', '\\', '\\')
}

/// Escapes backslashes and quotes so a value can sit between quotes.
pub fn escape(value: &Vec<char>) -> (r: Vec<char>)
    ensures
        r@ == escape_spec(value@),
{
    let once = expand_char_in(value, '\\', '\\', '\\');
    expand_char_in(&once, '"', '\\', '"')
}

/// The text between the outer quotes of a value.
pub fn trim_quotes(value: &Vec<char>) -> (r: Vec<char>)
    ensures
        r@ == trim_quotes_spec(value@),
{
    let start = find_char(value, '"', 0, value.len());
    proof {
        assert(value@.subrange(0, value@.len() as int) =~= value@);
    }
    if start == value.len() {
        return sub_chars(value, 0, value.len());
    }
    match rfind_char(value, '"', 0, value.len()) {
        Some(end) if end > start => sub_chars(value, start + 1, end),
        _ => sub_chars(value, start + 1, value.len()),
    }
}

/// Whether a text starts with `l_` in either case.
fn starts_with_l_prefix(t: &Vec<char>) -> (r: bool)
    ensures
        r == starts_with_l_(t@),
{
    t.len() >= 2 && (t[0] == 'l' || t[0] == 'L') && t[1] == '_'
}

fn contains_quote(t: &Vec<char>) -> (r: bool)
    ensures
        r == t@.contains('"'),
{
    let k = find_char(t, '"', 0, t.len());
    proof {
        if k < t.len() {
            assert(t@[k as int] == '"');
        }
    }
    k < t.len()
}

fn is_header_shape(t: &Vec<char>) -> (r: bool)
    ensures
        r == header_shape(t@),
{
    starts_with_l_prefix(t) && t[t.len() - 1] == ':' && !contains_quote(t)
}

/// Whether a line is a language header such as `l_english:`.
pub fn is_language_header(line: &Vec<char>) -> (r: bool)
    ensures
        r == is_language_header_spec(line@),
{
    let t = trim_chars(line);
    is_header_shape(&t)
}

/// Reads one ` KEY:version "text"` line; `None` when it is not one.
pub fn parse_entry(line: &Vec<char>, index: usize) -> (r: Option<LocalisationEntry>)
    ensures
        match r {
            Some(e) => parse_entry_spec(line@, index) == Some(e@),
            None => parse_entry_spec(line@, index) is None,
        },
{
    let w = strip_comment(line);
    let colon = find_char(&w, ':', 0, w.len());
    proof {
        assert(w@.subrange(0, w@.len() as int) =~= w@);
    }
    if colon == w.len() {
        return None;
    }
    let key = trim_chars(&sub_chars(&w, 0, colon));
    let rest = sub_chars(&w, colon + 1, w.len());
    proof {
        assert(w@.take(colon as int) =~= w@.subrange(0, colon as int));
        assert(rest@ =~= w@.skip(colon + 1));
    }
    if key.len() == 0 || starts_with_l_prefix(&key) {
        return None;
    }
    let quote = find_char(&rest, '"', 0, rest.len());
    proof {
        assert(rest@.subrange(0, rest@.len() as int) =~= rest@);
    }
    if quote == rest.len() {
        return None;
    }
    let version = trim_chars(&sub_chars(&rest, 0, quote));
    let value = trim_chars(&sub_chars(&rest, quote, rest.len()));
    let value = unescape(&trim_quotes(&value));
    proof {
        assert(rest@.take(quote as int) =~= rest@.subrange(0, quote as int));
        assert(rest@.skip(quote as int) =~= rest@.subrange(quote as int, rest@.len() as int));
    }
    Some(
        LocalisationEntry {
            key: string_of(&key),
            version: string_of(&version),
            value: string_of(&value),
            line: Some(index),
        },
    )
}

/// The language named by the first header line (without its colon, empty
/// when there is none) and every entry, in file order.
pub fn parse(content: &str) -> (r: (String, Vec<LocalisationEntry>))
    ensures
        r.0@ == parse_spec(content@).0,
        entry_views(r.1@) == parse_spec(content@).1,
{
    let chars = chars_of(content);
    let lines = split_lines(&chars);
    let ghost all = views(lines@);
    let mut language: Vec<char> = Vec::new();
    let mut entries: Vec<LocalisationEntry> = Vec::new();
    let mut index: usize = 0;
    while index < lines.len()
        invariant
            all == views(lines@),
            all == lines_of(content@),
            index <= all.len(),
            (language@, entry_views(entries@)) == parse_lines(all.take(index as int)),
        decreases all.len() - index,
    {
        let line = chars_of(lines[index].as_str());
        let trimmed = trim_chars(&line);
        let ghost done = all.take(index as int);
        proof {
            assert(all.take(index + 1).drop_last() =~= done);
            assert(all.take(index + 1).last() == line@);
        }
        if trimmed.len() == 0 || trimmed[0] == '#' {
        } else if is_language_header(&trimmed) {
            proof {
                lemma_trim_idempotent(line@);
            }
            if language.len() == 0 {
                let bare = crate::text::trim_end_matches_char(string_of(&trimmed).as_str(), ':');
                language = trim_chars(&chars_of(bare.as_str()));
            }
        } else {
            proof {
                lemma_trim_idempotent(line@);
            }
            match parse_entry(&line, index) {
                Some(entry) => {
                    let ghost before = entries@;
                    entries.push(entry);
                    proof {
                        assert(entry_views(entries@) =~= entry_views(before).push(entry@));
                    }
                },
                None => {},
            }
        }
        index = index + 1;
    }
    proof {
        assert(all.take(all.len() as int) =~= all);
    }
    (string_of(&language), entries)
}

// ---------------------------------------------------------------------------
// Files
// ---------------------------------------------------------------------------

/// A localisation file as the editor shows it.
#[derive(Debug)]
pub struct LocalisationFile {
    pub path: String,
    /// Language header without the trailing colon, e.g. `l_english`.
    pub language: String,
    pub entries: Vec<LocalisationEntry>,
    pub has_bom: bool,
    /// The bytes were not valid UTF-8 and were read as Windows-1252.
    pub is_legacy_encoding: bool,
}

/// One file in the localisation listing.
#[derive(Debug)]
pub struct LocalisationFileInfo {
    pub path: String,
    pub relative_path: String,
    pub language: String,
    pub entry_count: usize,
    /// Missing BOM means the game will not load the file.
    pub has_bom: bool,
}

/// The localisation file a text file holds; its path with forward slashes.
pub fn from_text(path: &str, file: &crate::text_file::TextFile) -> (r: LocalisationFile)
    ensures
        r.path@ == crate::text::replace_char(path@, '\\', '/'),
        r.language@ == parse_spec(file.content@).0,
        entry_views(r.entries@) == parse_spec(file.content@).1,
        r.has_bom == file.has_bom,
        r.is_legacy_encoding == file.is_legacy_encoding,
{
    let (language, entries) = parse(file.content.as_str());
    LocalisationFile {
        path: crate::text::replace_char_in(path, '\\', '/'),
        language,
        entries,
        has_bom: file.has_bom,
        is_legacy_encoding: file.is_legacy_encoding,
    }
}

/// The listing entry for a file: its language, how many entries it holds
/// and whether it has the BOM the game needs.
pub fn describe(path: String, relative_path: &str, content: &str, has_bom: bool) -> (r:
    LocalisationFileInfo)
    ensures
        r.path == path,
        r.relative_path@ == crate::text::replace_char(relative_path@, '\\', '/'),
        r.language@ == parse_spec(content@).0,
        r.entry_count == parse_spec(content@).1.len(),
        r.has_bom == has_bom,
{
    let (language, entries) = parse(content);
    LocalisationFileInfo {
        path,
        relative_path: crate::text::replace_char_in(relative_path, '\\', '/'),
        language,
        entry_count: entries.len(),
        has_bom,
    }
}

// ---------------------------------------------------------------------------
// Writing
// ---------------------------------------------------------------------------

/// Whether two entries say the same thing, ignoring incidental whitespace.
pub open spec fn same_entry_spec(a: EntryView, b: EntryView) -> bool {
    trim_spec(a.key) == trim_spec(b.key) && trim_spec(a.version) == trim_spec(b.version)
        && a.value == b.value
}

/// ` KEY:version "escaped text"`.
pub open spec fn format_entry_spec(e: EntryView) -> Seq<char> {
    seq![' '] + trim_spec(e.key) + seq![':'] + trim_spec(e.version) + seq![' ', '"']
        + escape_spec(e.value) + seq!['"']
}

/// The last of `es` that sits on line `i`.
pub open spec fn kept_at(es: Seq<EntryView>, i: int) -> Option<EntryView>
    decreases es.len(),
{
    if es.len() == 0 {
        None
    } else if es.last().line == Some(i as usize) {
        Some(es.last())
    } else {
        kept_at(es.drop_last(), i)
    }
}

/// What the lines of the file become: an entry line the incoming entries
/// change is rewritten, one they still hold unchanged is kept byte for byte,
/// one they no longer hold is dropped; every other line is kept.
pub open spec fn kept_lines(lines: Seq<Seq<char>>, es: Seq<EntryView>) -> Seq<Seq<char>>
    decreases lines.len(),
{
    if lines.len() == 0 {
        Seq::empty()
    } else {
        let prev = kept_lines(lines.drop_last(), es);
        let i = lines.len() - 1;
        let line = lines.last();
        match line_entry(line, i as usize) {
            None => prev.push(line),
            Some(before) => match kept_at(es, i) {
                None => prev,
                Some(after) => if same_entry_spec(before, after) {
                    prev.push(line)
                } else {
                    prev.push(format_entry_spec(after))
                },
            },
        }
    }
}

/// The language a file is written under: the one asked for, without a
/// trailing colon; else the one the file had; else `l_english`.
pub open spec fn header_name(language: Seq<char>, existing: Seq<char>) -> Seq<char> {
    let t = trim_spec(language);
    let h = if t.len() == 0 {
        existing
    } else {
        trim_end_char(t, ':')
    };
    if h.len() == 0 {
        "l_english"@
    } else {
        h
    }
}

/// The first line from `k` on that is a language header, or the length.
pub open spec fn header_from(lines: Seq<Seq<char>>, k: int) -> int
    decreases lines.len() - k,
{
    if k < 0 || k >= lines.len() {
        lines.len() as int
    } else if is_language_header_spec(lines[k]) {
        k
    } else {
        header_from(lines, k + 1)
    }
}

/// The first language header replaced by `name:`, or `name:` put in front.
pub open spec fn with_header(lines: Seq<Seq<char>>, name: Seq<char>) -> Seq<Seq<char>> {
    let p = header_from(lines, 0);
    let header = name + seq![':'];
    if p < lines.len() {
        lines.update(p, header)
    } else {
        seq![header] + lines
    }
}

/// The entries added in the app, formatted, in order.
pub open spec fn added_lines(es: Seq<EntryView>) -> Seq<Seq<char>>
    decreases es.len(),
{
    if es.len() == 0 {
        Seq::empty()
    } else if es.last().line is None {
        added_lines(es.drop_last()).push(format_entry_spec(es.last()))
    } else {
        added_lines(es.drop_last())
    }
}

pub open spec fn ends_with(s: Seq<char>, t: Seq<char>) -> bool {
    t.len() <= s.len() && s.skip(s.len() - t.len()) == t
}

/// The lines joined by `newline`, with a final `newline` when missing.
pub open spec fn finish_text(lines: Seq<Seq<char>>, newline: Seq<char>) -> Seq<char> {
    let body = join(lines, newline);
    if ends_with(body, newline) {
        body
    } else {
        body + newline
    }
}

/// The lines a file holds after `entries` are written into `existing`.
pub open spec fn rewritten_lines(
    existing: Seq<char>,
    language: Seq<char>,
    es: Seq<EntryView>,
) -> Seq<Seq<char>> {
    with_header(kept_lines(lines_of(existing), es), header_name(language, parse_spec(existing).0))
        + added_lines(es)
}

/// Whether two entries say the same thing, ignoring incidental whitespace.
pub fn same_entry(left: &LocalisationEntry, right: &LocalisationEntry) -> (r: bool)
    ensures
        r == same_entry_spec(left@, right@),
{
    str_eq(trim(left.key.as_str()).as_str(), trim(right.key.as_str()).as_str()) && str_eq(
        trim(left.version.as_str()).as_str(),
        trim(right.version.as_str()).as_str(),
    ) && str_eq(left.value.as_str(), right.value.as_str())
}

/// The line an entry is written as.
pub fn format_entry(entry: &LocalisationEntry) -> (line: String)
    ensures
        line@ == format_entry_spec(entry@),
{
    let mut line = String::new();
    line.push(' ');
    line.push_str(trim(entry.key.as_str()).as_str());
    line.push(':');
    line.push_str(trim(entry.version.as_str()).as_str());
    line.push(' ');
    line.push('"');
    line.push_str(string_of(&escape(&chars_of(entry.value.as_str()))).as_str());
    line.push('"');
    proof {
        assert(line@ =~= format_entry_spec(entry@));
    }
    line
}

/// `line_entry`: the entry a line of a file holds, if it holds one.
fn entry_on_line(line: &Vec<char>, index: usize) -> (r: Option<LocalisationEntry>)
    ensures
        match r {
            Some(e) => line_entry(line@, index) == Some(e@),
            None => line_entry(line@, index) is None,
        },
{
    let trimmed = trim_chars(line);
    if trimmed.len() == 0 || trimmed[0] == '#' || is_header_shape(&trimmed) {
        None
    } else {
        parse_entry(line, index)
    }
}

/// Whether `s` ends with `t`.
fn ends_with_chars(s: &Vec<char>, t: &Vec<char>) -> (r: bool)
    ensures
        r == ends_with(s@, t@),
{
    if t.len() > s.len() {
        return false;
    }
    let offset = s.len() - t.len();
    let mut k: usize = 0;
    while k < t.len()
        invariant
            offset + t@.len() == s@.len(),
            s@.len() == s.len(),
            k <= t@.len(),
            forall|m: int| 0 <= m < k ==> s@[offset + m] == t@[m],
        decreases t@.len() - k,
    {
        if s[offset + k] != t[k] {
            proof {
                assert(s@.skip(offset as int)[k as int] != t@[k as int]);
            }
            return false;
        }
        k = k + 1;
    }
    assert(s@.skip(offset as int) =~= t@);
    true
}

/// The index of each line's last incoming entry, per line of the file.
fn entries_by_line(entries: &Vec<LocalisationEntry>, count: usize) -> (kept: Vec<Option<usize>>)
    ensures
        kept@.len() == count,
        forall|i: int|
            0 <= i < count ==> match #[trigger] kept@[i] {
                Some(j) => j < entries@.len() && kept_at(entry_views(entries@), i) == Some(
                    entries@[j as int]@,
                ),
                None => kept_at(entry_views(entries@), i) is None,
            },
{
    let ghost all = entry_views(entries@);
    let mut kept: Vec<Option<usize>> = Vec::new();
    let mut n: usize = 0;
    while n < count
        invariant
            n <= count,
            kept@.len() == n,
            forall|i: int| 0 <= i < n ==> #[trigger] kept@[i] is None,
        decreases count - n,
    {
        kept.push(None);
        n = n + 1;
    }
    let mut k: usize = 0;
    while k < entries.len()
        invariant
            all == entry_views(entries@),
            k <= entries@.len(),
            kept@.len() == count,
            forall|i: int|
                0 <= i < count ==> match #[trigger] kept@[i] {
                    Some(j) => j < k && kept_at(all.take(k as int), i) == Some(entries@[j as int]@),
                    None => kept_at(all.take(k as int), i) is None,
                },
        decreases entries@.len() - k,
    {
        let ghost before = kept@;
        proof {
            assert(all.take(k + 1).drop_last() =~= all.take(k as int));
            assert(all.take(k + 1).last() == entries@[k as int]@);
        }
        match entries[k].line {
            Some(l) => {
                if l < kept.len() {
                    kept.set(l, Some(k));
                }
            },
            None => {},
        }
        k = k + 1;
    }
    assert(all.take(entries@.len() as int) =~= all);
    kept
}

/// The text a localisation file holds once `entries` are written into the
/// file that held `existing`: entry lines the entries change are rewritten,
/// the others and every comment keep their exact text, entries the list no
/// longer holds are dropped, entries added in the app are appended, the
/// language header is set, and the file's own line separator is used and
/// ends the text.
pub fn rewrite(existing: &str, language: &str, entries: &Vec<LocalisationEntry>) -> (content:
    String)
    ensures
        content@ == finish_text(
            rewritten_lines(existing@, language@, entry_views(entries@)),
            crate::paradox::edit::newline_spec(crate::text::bytes_of(existing)),
        ),
{
    let ghost es = entry_views(entries@);
    let newline = crate::paradox::edit::detect_newline(existing);
    let chars = chars_of(existing);
    let lines = split_lines(&chars);
    let (existing_language, _) = parse(existing);
    let ghost all = views(lines@);
    let kept = entries_by_line(entries, lines.len());

    let mut rewritten: Vec<String> = Vec::new();
    let mut index: usize = 0;
    while index < lines.len()
        invariant
            all == views(lines@),
            all == lines_of(existing@),
            es == entry_views(entries@),
            index <= all.len(),
            kept@.len() == all.len(),
            forall|i: int|
                0 <= i < all.len() ==> match #[trigger] kept@[i] {
                    Some(j) => j < entries@.len() && kept_at(es, i) == Some(entries@[j as int]@),
                    None => kept_at(es, i) is None,
                },
            views(rewritten@) == kept_lines(all.take(index as int), es),
        decreases all.len() - index,
    {
        let line = chars_of(lines[index].as_str());
        let ghost prev = views(rewritten@);
        proof {
            assert(all.take(index + 1).drop_last() =~= all.take(index as int));
            assert(all.take(index + 1).last() == line@);
        }
        match entry_on_line(&line, index) {
            None => {
                rewritten.push(string_of(&line));
                assert(views(rewritten@) =~= prev.push(line@));
            },
            Some(before) => {
                match kept[index] {
                    None => {},
                    Some(j) => {
                        if same_entry(&before, &entries[j]) {
                            rewritten.push(string_of(&line));
                            assert(views(rewritten@) =~= prev.push(line@));
                        } else {
                            rewritten.push(format_entry(&entries[j]));
                            assert(views(rewritten@) =~= prev.push(
                                format_entry_spec(entries@[j as int]@),
                            ));
                        }
                    },
                }
            },
        }
        index = index + 1;
    }
    proof {
        assert(all.take(all.len() as int) =~= all);
    }
    let ghost body = views(rewritten@);

    let asked = trim_chars(&chars_of(language));
    let header: String = if asked.len() == 0 {
        existing_language
    } else {
        trim_end_matches_char(string_of(&asked).as_str(), ':')
    };
    let header: String = if header.as_str().is_empty() {
        "l_english".to_owned()
    } else {
        header
    };
    let mut header_line = header;
    header_line.push(':');
    proof {
        assert(header_line@ == header_name(language@, parse_spec(existing@).0) + seq![':']);
    }

    let mut p: usize = 0;
    while p < rewritten.len() && !is_language_header(&chars_of(rewritten[p].as_str()))
        invariant
            p <= rewritten@.len(),
            views(rewritten@) == body,
            forall|q: int| 0 <= q < p ==> !is_language_header_spec(#[trigger] body[q]),
        decreases rewritten@.len() - p,
    {
        p = p + 1;
    }
    proof {
        lemma_header_from(body, 0, p as int);
    }
    if p < rewritten.len() {
        rewritten.set(p, header_line);
        assert(views(rewritten@) =~= body.update(p as int, header_line@));
    } else {
        rewritten.insert(0, header_line);
        assert(views(rewritten@) =~= seq![header_line@] + body);
    }
    let ghost headed = views(rewritten@);

    let mut k: usize = 0;
    while k < entries.len()
        invariant
            es == entry_views(entries@),
            k <= entries@.len(),
            views(rewritten@) == headed + added_lines(es.take(k as int)),
        decreases entries@.len() - k,
    {
        let ghost prev = views(rewritten@);
        proof {
            assert(es.take(k + 1).drop_last() =~= es.take(k as int));
            assert(es.take(k + 1).last() == entries@[k as int]@);
        }
        if entries[k].line.is_none() {
            rewritten.push(format_entry(&entries[k]));
            assert(views(rewritten@) =~= prev.push(format_entry_spec(entries@[k as int]@)));
        }
        k = k + 1;
    }
    proof {
        assert(es.take(es.len() as int) =~= es);
    }

    let mut content = join_strings(&rewritten, newline);
    if !ends_with_chars(&chars_of(content.as_str()), &chars_of(newline)) {
        content.push_str(newline);
    }
    content
}

/// The bytes of a rewritten localisation file: always UTF-8 behind a byte
/// order mark, whatever the file looked like before, since the game skips a
/// localisation file without one.
pub fn localisation_bytes(existing: &str, language: &str, entries: &Vec<LocalisationEntry>) -> (b: Vec<u8>)
    ensures
        b@ == seq![0xEFu8, 0xBBu8, 0xBFu8] + encode_utf8(
            finish_text(
                rewritten_lines(existing@, language@, entry_views(entries@)),
                crate::paradox::edit::newline_spec(crate::text::bytes_of(existing)),
            ),
        ),
{
    let content = rewrite(existing, language, entries);
    let (bytes, _) = crate::text_file::encode(content.as_str(), false, true);
    bytes
}

proof fn lemma_header_from(lines: Seq<Seq<char>>, k: int, p: int)
    requires
        0 <= k <= p <= lines.len(),
        forall|q: int| k <= q < p ==> !is_language_header_spec(#[trigger] lines[q]),
        p == lines.len() || is_language_header_spec(lines[p]),
    ensures
        header_from(lines, k) == p,
    decreases p - k,
{
    if k < p {
        lemma_header_from(lines, k + 1, p);
    }
}

// ---------------------------------------------------------------------------
// Laws
// ---------------------------------------------------------------------------

proof fn lemma_expand_cons(x: char, t: Seq<char>, c: char, a: char, b: char)
    ensures
        expand_char(seq![x] + t, c, a, b) == (if x == c {
            seq![a, b]
        } else {
            seq![x]
        }) + expand_char(t, c, a, b),
{
    let s = seq![x] + t;
    assert(s.drop_first() =~= t);
    assert(s[0] == x);
}

proof fn lemma_replace_match(t: Seq<char>, a: char, b: char, r: char)
    ensures
        replace_pair(seq![a, b] + t, a, b, r) == seq![r] + replace_pair(t, a, b, r),
{
    let s = seq![a, b] + t;
    assert(s.skip(2) =~= t);
    assert(s[0] == a && s[1] == b);
}

proof fn lemma_replace_skip(x: char, t: Seq<char>, a: char, b: char, r: char)
    requires
        !(x == a && t.len() > 0 && t[0] == b),
    ensures
        replace_pair(seq![x] + t, a, b, r) == seq![x] + replace_pair(t, a, b, r),
{
    let s = seq![x] + t;
    assert(s.drop_first() =~= t);
    assert(s[0] == x);
    if s.len() >= 2 {
        assert(s[1] == t[0]);
    }
}

/// The escaped form of a text never starts with a bare `"`.
proof fn lemma_escaped_head(v: Seq<char>)
    ensures
        escape_spec(v).len() > 0 ==> escape_spec(v)[0] != '"',
{
    if v.len() > 0 {
        let x = v[0];
        let rest = v.drop_first();
        assert(v =~= seq![x] + rest);
        lemma_expand_cons(x, rest, '\\', '\\', '\\');
        let e1 = expand_char(rest, '\\', '\\', '\\');
        if x == '\\' {
            assert(seq!['\\', '\\'] + e1 =~= seq!['\\'] + (seq!['\\'] + e1));
            lemma_expand_cons('\\', seq!['\\'] + e1, '"', '\\', '"');
        } else {
            lemma_expand_cons(x, e1, '"', '\\', '"');
        }
    }
}

/// Taking the quotes out again leaves only the doubled backslashes.
proof fn lemma_unescape_quotes(v: Seq<char>)
    ensures
        replace_pair(escape_spec(v), '\\', '"', '"') == expand_char(v, '\\', '\\', '\\'),
    decreases v.len(),
{
    if v.len() > 0 {
        let x = v[0];
        let rest = v.drop_first();
        assert(v =~= seq![x] + rest);
        lemma_unescape_quotes(rest);
        lemma_escaped_head(rest);
        let e1 = expand_char(rest, '\\', '\\', '\\');
        let tail = escape_spec(rest);
        lemma_expand_cons(x, rest, '\\', '\\', '\\');
        if x == '\\' {
            assert(seq!['\\', '\\'] + e1 =~= seq!['\\'] + (seq!['\\'] + e1));
            lemma_expand_cons('\\', seq!['\\'] + e1, '"', '\\', '"');
            lemma_expand_cons('\\', e1, '"', '\\', '"');
            assert(escape_spec(v) =~= seq!['\\'] + (seq!['\\'] + tail));
            lemma_replace_skip('\\', seq!['\\'] + tail, '\\', '"', '"');
            lemma_replace_skip('\\', tail, '\\', '"', '"');
            assert(replace_pair(escape_spec(v), '\\', '"', '"') =~= seq!['\\', '\\'] + e1);
        } else if x == '"' {
            lemma_expand_cons('"', e1, '"', '\\', '"');
            lemma_replace_match(tail, '\\', '"', '"');
            assert(seq!['"'] + e1 =~= expand_char(v, '\\', '\\', '\\'));
        } else {
            lemma_expand_cons(x, e1, '"', '\\', '"');
            lemma_replace_skip(x, tail, '\\', '"', '"');
        }
    }
}

/// Undoubling the backslashes gives the text back.
proof fn lemma_undouble(v: Seq<char>)
    ensures
        replace_pair(expand_char(v, '\\', '\\', '\\'), '\\', '\\', '\\') == v,
    decreases v.len(),
{
    if v.len() > 0 {
        let x = v[0];
        let rest = v.drop_first();
        assert(v =~= seq![x] + rest);
        lemma_undouble(rest);
        lemma_expand_cons(x, rest, '\\', '\\', '\\');
        let e1 = expand_char(rest, '\\', '\\', '\\');
        if x == '\\' {
            lemma_replace_match(e1, '\\', '\\', '\\');
        } else {
            lemma_replace_skip(x, e1, '\\', '\\', '\\');
        }
    }
}

/// Law: unescaping an escaped value gives the value back, whatever it holds.
pub proof fn law_unescape_undoes_escape(value: Seq<char>)
    ensures
        unescape_spec(escape_spec(value)) == value,
{
    lemma_unescape_quotes(value);
    lemma_undouble(value);
}

proof fn lemma_comment_plain(s: Seq<char>, i: int, j: int, quoted: bool)
    requires
        0 <= i <= j <= s.len(),
        forall|x: int| i <= x < j ==> #[trigger] s[x] != '"' && s[x] != '#',
    ensures
        comment_from(s, i, quoted) == comment_from(s, j, quoted),
    decreases j - i,
{
    if i < j {
        lemma_comment_plain(s, i + 1, j, quoted);
    }
}

proof fn lemma_comment_guarded(s: Seq<char>, i: int, j: int)
    requires
        0 < i <= j <= s.len(),
        forall|x: int| i <= x < j ==> (#[trigger] s[x] == '"' ==> s[x - 1] == '\\'),
    ensures
        comment_from(s, i, true) == comment_from(s, j, true),
    decreases j - i,
{
    if i < j {
        lemma_comment_guarded(s, i + 1, j);
    }
}

/// In `expand_char(s, c, x, c)` every `c` comes right after an `x`.
proof fn lemma_expand_guarded(s: Seq<char>, c: char, x: char)
    requires
        x != c,
    ensures
        forall|m: int|
            0 <= m < expand_char(s, c, x, c).len() && #[trigger] expand_char(s, c, x, c)[m] == c
                ==> m > 0 && expand_char(s, c, x, c)[m - 1] == x,
    decreases s.len(),
{
    if s.len() > 0 {
        let rest = s.drop_first();
        lemma_expand_guarded(rest, c, x);
        let out = expand_char(s, c, x, c);
        let tail = expand_char(rest, c, x, c);
        let unit = if s[0] == c {
            seq![x, c]
        } else {
            seq![s[0]]
        };
        assert(out == unit + tail);
        assert forall|m: int| 0 <= m < out.len() && #[trigger] out[m] == c implies m > 0 && out[m
            - 1] == x by {
            if m >= unit.len() {
                assert(out[m] == tail[m - unit.len()]);
                assert(out[m - 1] == tail[m - unit.len() - 1]);
            }
        }
    }
}

/// A key that a written line can carry and give back: not empty, not
/// mistaken for a language header, and free of the characters the line is
/// cut at.
pub open spec fn key_fits(k: Seq<char>) -> bool {
    k.len() > 0 && !starts_with_l_(k) && !k.contains(':') && !k.contains('#') && !k.contains('"')
}

/// A version that a written line can carry and give back.
pub open spec fn version_fits(v: Seq<char>) -> bool {
    !v.contains('"') && !v.contains('#')
}

/// Where each part of a written line sits.
proof fn lemma_format_layout(e: EntryView)
    ensures
        ({
            let k = trim_spec(e.key);
            let ver = trim_spec(e.version);
            let esc = escape_spec(e.value);
            let line = format_entry_spec(e);
            let n = k.len() as int;
            let m = ver.len() as int;
            let q = esc.len() as int;
            &&& line.len() == n + m + q + 5
            &&& line[0] == ' '
            &&& forall|x: int| 0 <= x < n ==> line[1 + x] == #[trigger] k[x]
            &&& line[1 + n] == ':'
            &&& forall|x: int| 0 <= x < m ==> line[2 + n + x] == #[trigger] ver[x]
            &&& line[2 + n + m] == ' '
            &&& line[3 + n + m] == '"'
            &&& forall|x: int| 0 <= x < q ==> line[4 + n + m + x] == #[trigger] esc[x]
            &&& line[4 + n + m + q] == '"'
        }),
{
}

proof fn lemma_format_keeps_comments_out(e: EntryView)
    requires
        key_fits(trim_spec(e.key)),
        version_fits(trim_spec(e.version)),
    ensures
        strip_comment_spec(format_entry_spec(e)) == format_entry_spec(e),
{
    let k = trim_spec(e.key);
    let ver = trim_spec(e.version);
    let esc = escape_spec(e.value);
    let line = format_entry_spec(e);
    let n = k.len() as int;
    let m = ver.len() as int;
    let q = esc.len() as int;
    lemma_format_layout(e);
    assert forall|x: int| 0 <= x < 3 + n + m implies #[trigger] line[x] != '"' && line[x] != '#' by {
        if 1 <= x < 1 + n {
            assert(line[x] == k[x - 1]);
        } else if 2 + n <= x < 2 + n + m {
            assert(line[x] == ver[x - 2 - n]);
        }
    }
    lemma_comment_plain(line, 0, 3 + n + m, false);
    assert(comment_from(line, 3 + n + m, false) == comment_from(line, 4 + n + m, true));
    lemma_expand_guarded(expand_char(e.value, '\\', '\\', '\\'), '"', '\\');
    assert forall|x: int| 4 + n + m <= x < 4 + n + m + q && #[trigger] line[x] == '"' implies line[x
        - 1] == '\\' by {
        let y = x - (4 + n + m);
        assert(line[x] == esc[y]);
        assert(y > 0 && esc[y - 1] == '\\');
        assert(line[x - 1] == esc[y - 1]);
    }
    lemma_comment_guarded(line, 4 + n + m, 4 + n + m + q);
    let last = 4 + n + m + q;
    assert(comment_from(line, last + 1, true) == line.len());
    assert(comment_from(line, last + 1, false) == line.len());
    assert(comment_from(line, last, true) == line.len());
    assert(strip_comment_spec(line) =~= line);
}

proof fn lemma_format_key(e: EntryView)
    requires
        key_fits(trim_spec(e.key)),
    ensures
        index_of(format_entry_spec(e), ':') == 1 + trim_spec(e.key).len(),
        trim_spec(format_entry_spec(e).take(1 + trim_spec(e.key).len() as int)) == trim_spec(e.key),
{
    let k = trim_spec(e.key);
    let line = format_entry_spec(e);
    let n = k.len() as int;
    lemma_format_layout(e);
    crate::text::lemma_trim_shape(e.key);
    assert forall|x: int| 0 <= x < 1 + n implies #[trigger] line[x] != ':' by {
        if x >= 1 {
            assert(line[x] == k[x - 1]);
        }
    }
    crate::text::lemma_find_from(line, ':', 0, 1 + n);
    let before = line.take(1 + n);
    assert forall|x: int| 0 <= x < 1 implies is_ws(#[trigger] before[x]) by {}
    assert(before[1] == k[0]);
    assert(before[n] == k[n - 1]);
    crate::text::lemma_trim_exact(before, 1, 1 + n);
    assert(before.subrange(1, 1 + n) =~= k);
}

proof fn lemma_format_rest(e: EntryView)
    requires
        version_fits(trim_spec(e.version)),
    ensures
        ({
            let rest = format_entry_spec(e).skip(2 + trim_spec(e.key).len() as int);
            let quote = index_of(rest, '"');
            &&& quote == trim_spec(e.version).len() + 1
            &&& trim_spec(rest.take(quote)) == trim_spec(e.version)
            &&& rest.skip(quote) == seq!['"'] + escape_spec(e.value) + seq!['"']
        }),
{
    let k = trim_spec(e.key);
    let ver = trim_spec(e.version);
    let esc = escape_spec(e.value);
    let line = format_entry_spec(e);
    let n = k.len() as int;
    let m = ver.len() as int;
    lemma_format_layout(e);
    crate::text::lemma_trim_shape(e.version);
    let rest = line.skip(2 + n);
    assert forall|x: int| 0 <= x < m + 1 implies #[trigger] rest[x] != '"' by {
        if x < m {
            assert(rest[x] == ver[x]);
        }
    }
    assert(rest[m + 1] == '"');
    crate::text::lemma_find_from(rest, '"', 0, m + 1);
    let vpart = rest.take(m + 1);
    assert forall|x: int| m <= x < m + 1 implies is_ws(#[trigger] vpart[x]) by {}
    if m > 0 {
        assert(vpart[0] == ver[0]);
        assert(vpart[m - 1] == ver[m - 1]);
    }
    crate::text::lemma_trim_exact(vpart, 0, m);
    assert(vpart.subrange(0, m) =~= ver);
    assert(rest.skip(m + 1) =~= seq!['"'] + esc + seq!['"']);
}

proof fn lemma_quoted_value(v: Seq<char>)
    ensures
        unescape_spec(trim_quotes_spec(trim_spec(seq!['"'] + escape_spec(v) + seq!['"']))) == v,
{
    let esc = escape_spec(v);
    let quoted = seq!['"'] + esc + seq!['"'];
    crate::text::lemma_trim_exact(quoted, 0, quoted.len() as int);
    assert(quoted.subrange(0, quoted.len() as int) =~= quoted);
    crate::text::lemma_find_from(quoted, '"', 0, 0);
    crate::text::lemma_rindex_of(quoted, '"', quoted.len() - 1);
    assert(quoted.subrange(1, quoted.len() - 1) =~= esc);
    law_unescape_undoes_escape(v);
}

/// Law: the line an entry is written as reads back as that entry — its key
/// and version trimmed, its value exactly, whatever quotes, backslashes or
/// `#` the value holds — provided the key and version can be carried.
pub proof fn law_written_entry_reads_back(e: EntryView, index: usize)
    requires
        key_fits(trim_spec(e.key)),
        version_fits(trim_spec(e.version)),
    ensures
        line_entry(format_entry_spec(e), index) == Some(
            EntryView {
                key: trim_spec(e.key),
                version: trim_spec(e.version),
                value: e.value,
                line: Some(index),
            },
        ),
{
    let k = trim_spec(e.key);
    let line = format_entry_spec(e);
    let n = k.len() as int;
    lemma_format_keeps_comments_out(e);
    lemma_format_key(e);
    lemma_format_rest(e);
    lemma_quoted_value(e.value);
    lemma_format_layout(e);
    crate::text::lemma_trim_shape(e.key);
    let t = line.skip(1);
    crate::text::lemma_trim_exact(line, 1, line.len() as int);
    assert(line.subrange(1, line.len() as int) =~= t);
    assert(t[0] == k[0]);
    assert(k.contains(k[0]));
    assert(t.last() == '"');
}

/// A text has no more lines than characters.
pub proof fn lemma_line_count(s: Seq<char>, i: int)
    requires
        0 <= i <= s.len(),
    ensures
        lines_from(s, i).len() <= s.len() - i,
    decreases s.len() - i,
{
    if i < s.len() {
        let j = newline_from(s, i);
        lemma_find_from_bounds(s, '\n', i);
        if j < s.len() {
            lemma_line_count(s, j + 1);
        }
    }
}

/// The entry `parse_lines` keeps for line `i` is the one that line holds.
proof fn lemma_parsed_entry_at(lines: Seq<Seq<char>>, i: int)
    requires
        0 <= i <= usize::MAX,
        lines.len() <= usize::MAX,
    ensures
        kept_at(parse_lines(lines).1, i) == (if i < lines.len() {
            line_entry(lines[i], i as usize)
        } else {
            None
        }),
    decreases lines.len(),
{
    if lines.len() > 0 {
        let prev = lines.drop_last();
        lemma_parsed_entry_at(prev, i);
        let last = lines.len() - 1;
        if i < last {
            assert(prev[i] == lines[i]);
        }
        let t = trim_spec(lines.last());
        if !(t.len() == 0 || t[0] == '#') && !header_shape(t) {
            match parse_entry_spec(lines.last(), last as usize) {
                Some(e) => {
                    let es = parse_lines(prev).1.push(e);
                    assert(es.drop_last() =~= parse_lines(prev).1);
                },
                None => {},
            }
        }
    }
}

proof fn lemma_kept_lines_unchanged(lines: Seq<Seq<char>>, es: Seq<EntryView>, k: int)
    requires
        0 <= k <= lines.len(),
        forall|i: int| 0 <= i < lines.len() ==> kept_at(es, i) == line_entry(#[trigger] lines[i], i as usize),
    ensures
        kept_lines(lines.take(k), es) == lines.take(k),
    decreases k,
{
    if k > 0 {
        lemma_kept_lines_unchanged(lines, es, k - 1);
        let t = lines.take(k);
        assert(t.drop_last() =~= lines.take(k - 1));
        assert(t.last() == lines[k - 1]);
        assert(lines.take(k - 1).push(lines[k - 1]) =~= t);
    }
}

/// Law: writing back the entries a file was read with rewrites none of its
/// lines: every entry line, comment and blank line keeps its exact text.
pub proof fn law_unchanged_entries_keep_every_line(content: Seq<char>)
    requires
        content.len() <= usize::MAX,
    ensures
        kept_lines(lines_of(content), parse_spec(content).1) == lines_of(content),
{
    let lines = lines_of(content);
    lemma_line_count(content, 0);
    assert forall|i: int| 0 <= i < lines.len() implies kept_at(parse_spec(content).1, i)
        == line_entry(#[trigger] lines[i], i as usize) by {
        lemma_parsed_entry_at(lines, i);
    }
    lemma_kept_lines_unchanged(lines, parse_spec(content).1, lines.len() as int);
    assert(lines.take(lines.len() as int) =~= lines);
}

/// Law: a line whose entry the incoming list changes — a different key,
/// version or text once outer whitespace is set aside — is written anew
/// from the incoming entry.
pub proof fn law_a_changed_entry_is_written_anew(lines: Seq<Seq<char>>, es: Seq<EntryView>, i: int)
    requires
        0 <= i < lines.len(),
        line_entry(lines[i], i as usize) matches Some(before) && kept_at(es, i) matches Some(after) && (
        trim_spec(before.key) != trim_spec(after.key) || trim_spec(before.version) != trim_spec(
            after.version,
        ) || before.value != after.value),
    ensures
        kept_lines(lines.take(i + 1), es) == kept_lines(lines.take(i), es).push(
            format_entry_spec(kept_at(es, i)->0),
        ),
{
    assert(lines.take(i + 1).drop_last() =~= lines.take(i));
    assert(lines.take(i + 1).last() == lines[i]);
}

/// Law: the line written for a changed entry reads back as the incoming
/// entry — its key (a renamed key too), version and text — on the same line.
pub proof fn law_a_changed_entry_reads_back_as_written(lines: Seq<Seq<char>>, es: Seq<EntryView>, i: int)
    requires
        0 <= i < lines.len(),
        line_entry(lines[i], i as usize) matches Some(before) && kept_at(es, i) matches Some(after) && (
        trim_spec(before.key) != trim_spec(after.key) || trim_spec(before.version) != trim_spec(
            after.version,
        ) || before.value != after.value),
        key_fits(trim_spec(kept_at(es, i)->0.key)),
        version_fits(trim_spec(kept_at(es, i)->0.version)),
    ensures
        line_entry(kept_lines(lines.take(i + 1), es).last(), i as usize) == Some(
            EntryView {
                key: trim_spec(kept_at(es, i)->0.key),
                version: trim_spec(kept_at(es, i)->0.version),
                value: kept_at(es, i)->0.value,
                line: Some(i as usize),
            },
        ),
{
    law_a_changed_entry_is_written_anew(lines, es, i);
    law_written_entry_reads_back(kept_at(es, i)->0, i as usize);
}

/// Law: a line whose entry the incoming list still says the same way —
/// the same key, version and text once outer whitespace is set aside — is
/// kept byte for byte.
pub proof fn law_an_unchanged_entry_keeps_its_line(lines: Seq<Seq<char>>, es: Seq<EntryView>, i: int)
    requires
        0 <= i < lines.len(),
        line_entry(lines[i], i as usize) matches Some(before) && kept_at(es, i) matches Some(after) && (
        trim_spec(before.key) == trim_spec(after.key) && trim_spec(before.version) == trim_spec(
            after.version,
        ) && before.value == after.value),
    ensures
        kept_lines(lines.take(i + 1), es) == kept_lines(lines.take(i), es).push(lines[i]),
{
    assert(lines.take(i + 1).drop_last() =~= lines.take(i));
    assert(lines.take(i + 1).last() == lines[i]);
}

} // verus!
