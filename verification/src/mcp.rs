//! The pure side of the assistant endpoint: the bearer-token check, the
//! console excerpts of tool calls, and the rule that decides where an
//! assistant may read and write. The HTTP server itself lives with the app.
use crate::error::{decimal, decimal_spec};
use crate::project::{normalise_path, ModProject, ProjectFile};
use crate::text::{
    boundary, bytes_of, lemma_str_valid, replace_char, slice_between, text_at, to_lowercase,
    trim, trim_end_char, trim_end_matches_char, trim_spec, lowercase,
};
use vstd::prelude::*;
use vstd::utf8::*;

verus! {

/// Event carrying the path of a file an assistant changed, so an editor
/// showing it can reload.
pub const FILE_CHANGED_EVENT: &'static str = "project://file-changed";

/// Longest result excerpt kept in a console entry, in bytes.
pub const DETAIL_EXCERPT: usize = 600;

/// What Settings and the running server say about the endpoint.
#[derive(Debug, Clone)]
pub struct McpStatus {
    pub enabled: bool,
    pub running: bool,
    /// The URL a client connects to, when running.
    pub address: Option<String>,
    pub port: u16,
    pub token: String,
    pub tool_count: usize,
}

/// Compares two tokens byte by byte without stopping at the first
/// difference, so the time taken does not tell how much of a guess was right.
pub fn same_token(presented: &str, expected: &str) -> (r: bool)
    ensures
        r == (presented@ == expected@),
{
    let p = presented.as_bytes();
    let e = expected.as_bytes();
    proof {
        encode_utf8_decode_utf8(presented@);
        encode_utf8_decode_utf8(expected@);
    }
    if p.len() != e.len() {
        return false;
    }
    let mut acc: u8 = 0;
    let mut i: usize = 0;
    while i < p.len()
        invariant
            i <= p@.len(),
            p@.len() == e@.len(),
            p@ == bytes_of(presented),
            e@ == bytes_of(expected),
            (acc == 0) == (forall|k: int| 0 <= k < i ==> #[trigger] p@[k] == e@[k]),
        decreases p@.len() - i,
    {
        let left = p[i];
        let right = e[i];
        let x = left ^ right;
        assert((x == 0) == (left == right)) by (bit_vector)
            requires
                x == left ^ right,
        ;
        let next = acc | x;
        assert((next == 0) == (acc == 0 && x == 0)) by (bit_vector)
            requires
                next == acc | x,
        ;
        proof {
            if next == 0 {
                assert forall|k: int| 0 <= k < i + 1 implies #[trigger] p@[k] == e@[k] by {
                    if k == i {
                        assert(p@[k] == left && e@[k] == right);
                    }
                }
            }
            if acc != 0 {
                assert(!(forall|k: int| 0 <= k < i + 1 ==> #[trigger] p@[k] == e@[k]));
            }
            if x != 0 {
                assert(p@[i as int] != e@[i as int]);
            }
        }
        acc = next;
        i = i + 1;
    }
    proof {
        if acc == 0 {
            assert(p@ =~= e@);
        }
    }
    acc == 0
}

/// The largest character boundary of `b` at or before `i`.
pub open spec fn boundary_at_or_before(b: Seq<u8>, i: int) -> int
    decreases i,
{
    if i <= 0 {
        0
    } else if boundary(b, i) {
        i
    } else {
        boundary_at_or_before(b, i - 1)
    }
}

/// What a console entry keeps of a long result: the first
/// `DETAIL_EXCERPT` bytes, cut back to a character boundary, and how many
/// bytes were left out.
pub open spec fn excerpt_spec(text: &str) -> Seq<char> {
    let b = bytes_of(text);
    if b.len() <= DETAIL_EXCERPT {
        text@
    } else {
        let cut = boundary_at_or_before(b, DETAIL_EXCERPT as int);
        text_at(b, 0, cut) + "\u{2026} ("@ + decimal_spec((b.len() - cut) as nat)
            + " more bytes)"@
    }
}

proof fn lemma_boundary_at_or_before(b: Seq<u8>, i: int)
    requires
        0 <= i <= b.len(),
        boundary(b, 0),
    ensures
        0 <= boundary_at_or_before(b, i) <= i,
        boundary(b, boundary_at_or_before(b, i)),
    decreases i,
{
    if i > 0 && !boundary(b, i) {
        lemma_boundary_at_or_before(b, i - 1);
    }
}

/// The start of `text`, cut on a character boundary, for a console entry.
pub fn excerpt(text: &str) -> (r: String)
    ensures
        r@ == excerpt_spec(text),
{
    let bytes = text.as_bytes();
    let n = bytes.len();
    if n <= DETAIL_EXCERPT {
        return text.to_owned();
    }
    let ghost b = bytes_of(text);
    let mut cut: usize = DETAIL_EXCERPT;
    while cut > 0 && 0x80 <= bytes[cut] && bytes[cut] <= 0xbf
        invariant
            cut <= DETAIL_EXCERPT < n,
            bytes@ == b,
            n == b.len(),
            boundary_at_or_before(b, DETAIL_EXCERPT as int) == boundary_at_or_before(
                b,
                cut as int,
            ),
        decreases cut,
    {
        cut = cut - 1;
    }
    proof {
        lemma_str_valid(text);
        lemma_boundary_at_or_before(b, cut as int);
    }
    let head = slice_between(text, 0, cut);
    let mut r = head.to_owned();
    r.push_str("\u{2026} (");
    let more = decimal(n - cut);
    r.push_str(more.as_str());
    r.push_str(" more bytes)");
    proof {
        reveal_strlit("\u{2026} (");
        reveal_strlit(" more bytes)");
    }
    r
}

/// The expandable part of a console entry: the arguments as sent and the
/// start of what came back.
pub open spec fn detail_spec(arguments: Option<&str>, result: Option<&str>) -> Seq<char> {
    let args = match arguments {
        Some(a) => a@,
        None => "{}"@,
    };
    "arguments: "@ + args + match result {
        Some(res) => "\n\nresult: "@ + excerpt_spec(res),
        None => Seq::<char>::empty(),
    }
}

/// The expandable part of a console entry for one tool call.
pub fn detail(arguments: Option<&str>, result: Option<&str>) -> (r: String)
    ensures
        r@ == detail_spec(arguments, result),
{
    let mut text = String::new();
    text.push_str("arguments: ");
    match arguments {
        Some(a) => text.push_str(a),
        None => text.push_str("{}"),
    }
    proof {
        reveal_strlit("arguments: ");
        reveal_strlit("{}");
        reveal_strlit("\n\nresult: ");
    }
    if let Some(res) = result {
        text.push_str("\n\nresult: ");
        let cut = excerpt(res);
        text.push_str(cut.as_str());
    }
    proof {
        assert(text@ =~= detail_spec(arguments, result));
    }
    text
}

/// One component of a spelled path, as `Path::components` splits it: the
/// drive or root it starts from, a `.`, a `..`, or a name.
#[derive(Debug, Clone)]
pub enum PathPart {
    Anchor(String),
    Current,
    Parent,
    Name(String),
}

/// A component as the specifications see it.
pub enum Part {
    Anchor(Seq<char>),
    Current,
    Parent,
    Name(Seq<char>),
}

impl View for PathPart {
    type V = Part;

    open spec fn view(&self) -> Part {
        match self {
            PathPart::Anchor(a) => Part::Anchor(a@),
            PathPart::Current => Part::Current,
            PathPart::Parent => Part::Parent,
            PathPart::Name(n) => Part::Name(n@),
        }
    }
}

/// The components of a split path, as the specifications see them.
pub open spec fn views_of(parts: Seq<PathPart>) -> Seq<Part> {
    parts.map_values(|p: PathPart| p@)
}

/// The components left once `.` is dropped and each `..` takes back the
/// name before it; a `..` with no name before it stays at the anchor, as
/// `PathBuf::pop` does.
pub open spec fn resolve_parts(parts: Seq<Part>) -> Seq<Part>
    decreases parts.len(),
{
    if parts.len() == 0 {
        Seq::empty()
    } else {
        let kept = resolve_parts(parts.drop_last());
        match parts.last() {
            Part::Current => kept,
            Part::Parent => if kept.len() > 0 && kept.last() is Name {
                kept.drop_last()
            } else {
                kept
            },
            other => kept.push(other),
        }
    }
}

/// Components written out with `/` between names; an anchor already ends
/// where the first name starts.
pub open spec fn render_parts(parts: Seq<Part>) -> Seq<char>
    decreases parts.len(),
{
    if parts.len() == 0 {
        Seq::empty()
    } else {
        let head = render_parts(parts.drop_last());
        match parts.last() {
            Part::Anchor(a) => head + a,
            Part::Name(n) => if parts.len() >= 2 && parts[parts.len() - 2] is Name {
                head + seq!['/'] + n
            } else {
                head + n
            },
            _ => head,
        }
    }
}

/// Whether a path, split into `candidate`, lies under the one split into
/// `root`: compared after `.` and `..` are resolved, with `/` for `\\`,
/// lowercased, and the root without trailing slashes. A sibling that only
/// shares a prefix of the root's last name is not under it.
pub open spec fn within_parts_spec(root: Seq<Part>, candidate: Seq<Part>) -> bool {
    let r = trim_end_char(lowercase(replace_char(render_parts(resolve_parts(root)), '\\', '/')), '/');
    let c = lowercase(replace_char(render_parts(resolve_parts(candidate)), '\\', '/'));
    c == r || (r + seq!['/']).is_prefix_of(c)
}

fn copy_part(part: &PathPart) -> (r: PathPart)
    ensures
        r@ == part@,
{
    match part {
        PathPart::Anchor(a) => PathPart::Anchor(a.as_str().to_owned()),
        PathPart::Current => PathPart::Current,
        PathPart::Parent => PathPart::Parent,
        PathPart::Name(n) => PathPart::Name(n.as_str().to_owned()),
    }
}

/// `.` and `..` resolved against the spelled path, as `resolve_parts` says.
pub fn resolve(parts: &Vec<PathPart>) -> (r: Vec<PathPart>)
    ensures
        views_of(r@) == resolve_parts(views_of(parts@)),
{
    let mut kept: Vec<PathPart> = Vec::new();
    let mut i: usize = 0;
    assert(views_of(kept@) =~= resolve_parts(views_of(parts@.take(0))));
    while i < parts.len()
        invariant
            i <= parts@.len(),
            views_of(kept@) == resolve_parts(views_of(parts@.take(i as int))),
        decreases parts@.len() - i,
    {
        let ghost before = kept@;
        proof {
            let t = views_of(parts@.take(i + 1));
            assert(t.drop_last() =~= views_of(parts@.take(i as int)));
            assert(t.last() == parts@[i as int]@);
        }
        match &parts[i] {
            PathPart::Current => {},
            PathPart::Parent => {
                let n = kept.len();
                if n > 0 {
                    let last_is_name = match &kept[n - 1] {
                        PathPart::Name(_) => true,
                        _ => false,
                    };
                    assert(views_of(before).last() == before[n - 1]@);
                    if last_is_name {
                        kept.pop();
                        assert(views_of(kept@) =~= views_of(before).drop_last());
                    }
                }
            },
            other => {
                kept.push(copy_part(other));
                assert(views_of(kept@) =~= views_of(before).push(parts@[i as int]@));
            },
        }
        i = i + 1;
    }
    proof {
        assert(parts@.take(parts@.len() as int) =~= parts@);
    }
    kept
}

/// Components written out, as `render_parts` says.
pub fn render(parts: &Vec<PathPart>) -> (r: String)
    ensures
        r@ == render_parts(views_of(parts@)),
{
    let mut out = String::new();
    let mut i: usize = 0;
    assert(views_of(parts@.take(0)) =~= Seq::<Part>::empty());
    while i < parts.len()
        invariant
            i <= parts@.len(),
            out@ == render_parts(views_of(parts@.take(i as int))),
        decreases parts@.len() - i,
    {
        proof {
            let t = views_of(parts@.take(i + 1));
            assert(t.drop_last() =~= views_of(parts@.take(i as int)));
            assert(t.last() == parts@[i as int]@);
            if i >= 1 {
                assert(t[t.len() - 2] == parts@[i - 1]@);
            }
        }
        match &parts[i] {
            PathPart::Anchor(a) => out.push_str(a.as_str()),
            PathPart::Name(n) => {
                let after_name = i >= 1 && match &parts[i - 1] {
                    PathPart::Name(_) => true,
                    _ => false,
                };
                if after_name {
                    out.push('/');
                }
                out.push_str(n.as_str());
            },
            _ => {},
        }
        i = i + 1;
    }
    proof {
        assert(parts@.take(parts@.len() as int) =~= parts@);
    }
    out
}

/// A `..` right after a name takes that name back: climbing out of a
/// folder and naming nothing leaves the path where it was.
pub proof fn law_parent_takes_back_a_name(parts: Seq<Part>, name: Seq<char>)
    ensures
        resolve_parts(parts.push(Part::Name(name)).push(Part::Parent)) == resolve_parts(parts),
{
    let once = parts.push(Part::Name(name));
    assert(once.push(Part::Parent).drop_last() =~= once);
    assert(once.drop_last() =~= parts);
    assert(resolve_parts(once) =~= resolve_parts(parts).push(Part::Name(name)));
    assert(resolve_parts(once).drop_last() =~= resolve_parts(parts));
}

/// A `.` changes nothing.
pub proof fn law_dot_changes_nothing(parts: Seq<Part>)
    ensures
        resolve_parts(parts.push(Part::Current)) == resolve_parts(parts),
{
    assert(parts.push(Part::Current).drop_last() =~= parts);
}

/// Once resolved, a path holds no `.` and no `..`: only its anchors and
/// names are left.
pub proof fn law_resolved_holds_no_dots(parts: Seq<Part>)
    ensures
        forall|k: int|
            0 <= k < resolve_parts(parts).len() ==> !(#[trigger] resolve_parts(parts)[k] is Current)
                && !(resolve_parts(parts)[k] is Parent),
    decreases parts.len(),
{
    if parts.len() > 0 {
        law_resolved_holds_no_dots(parts.drop_last());
        let kept = resolve_parts(parts.drop_last());
        assert forall|k: int| 0 <= k < resolve_parts(parts).len() implies !(
        #[trigger] resolve_parts(parts)[k] is Current) && !(resolve_parts(parts)[k] is Parent) by {
            match parts.last() {
                Part::Current => {},
                Part::Parent => {
                    if kept.len() > 0 && kept.last() is Name {
                        assert(resolve_parts(parts)[k] == kept[k]);
                    }
                },
                other => {
                    if k < kept.len() {
                        assert(resolve_parts(parts)[k] == kept[k]);
                    }
                },
            }
        }
    }
}

/// Whether `candidate` lies under `root`, as `within_parts_spec` says, for
/// paths already split into components.
pub fn within_parts(root: &Vec<PathPart>, candidate: &Vec<PathPart>) -> (r: bool)
    ensures
        r == within_parts_spec(views_of(root@), views_of(candidate@)),
{
    let root_text = render(&resolve(root));
    let root_text = normalise_path(root_text.as_str());
    let root_text = to_lowercase(root_text.as_str());
    let root_text = trim_end_matches_char(root_text.as_str(), '/');
    let candidate_text = render(&resolve(candidate));
    let candidate_text = normalise_path(candidate_text.as_str());
    let candidate_text = to_lowercase(candidate_text.as_str());
    if crate::text::str_eq(candidate_text.as_str(), root_text.as_str()) {
        return true;
    }
    let mut prefix = root_text;
    prefix.push('/');
    starts_with(candidate_text.as_str(), prefix.as_str())
}

/// Whether `s` begins with `prefix`.
pub fn starts_with(s: &str, prefix: &str) -> (r: bool)
    ensures
        r == prefix@.is_prefix_of(s@),
{
    let a = crate::text::chars_of(s);
    let p = crate::text::chars_of(prefix);
    if p.len() > a.len() {
        return false;
    }
    let mut i: usize = 0;
    while i < p.len()
        invariant
            i <= p@.len() <= a@.len(),
            a@ == s@,
            p@ == prefix@,
            forall|k: int| 0 <= k < i ==> #[trigger] p@[k] == a@[k],
        decreases p@.len() - i,
    {
        if p[i] != a[i] {
            assert(prefix@[i as int] != s@.subrange(0, prefix@.len() as int)[i as int]);
            return false;
        }
        i = i + 1;
    }
    assert(prefix@ =~= s@.subrange(0, prefix@.len() as int));
    true
}

/// A path separator: Windows takes either slash.
pub open spec fn is_sep(c: char) -> bool {
    c == '/' || c == '\\'
}

/// A drive prefix such as `C:`.
pub open spec fn has_drive(s: Seq<char>) -> bool {
    s.len() >= 2 && (('a' <= s[0] && s[0] <= 'z') || ('A' <= s[0] && s[0] <= 'Z')) && s[1] == ':'
}

/// The length of the drive prefix, 0 without one.
pub open spec fn drive_len(s: Seq<char>) -> int {
    if has_drive(s) {
        2
    } else {
        0
    }
}

/// A separator right after the drive (or at the start): the path starts
/// from a root.
pub open spec fn has_root(s: Seq<char>) -> bool {
    s.len() > drive_len(s) && is_sep(s[drive_len(s)])
}

/// A path that names one place whatever folder it is read from: a drive
/// and a root.
pub open spec fn is_absolute_spec(s: Seq<char>) -> bool {
    has_drive(s) && has_root(s)
}

/// The texts between separators, from the front.
pub open spec fn segments(s: Seq<char>) -> Seq<Seq<char>>
    decreases s.len(),
{
    if s.len() == 0 {
        seq![Seq::empty()]
    } else {
        let t = segments(s.drop_last());
        if is_sep(s.last()) {
            t.push(Seq::empty())
        } else {
            t.update(t.len() - 1, t.last().push(s.last()))
        }
    }
}

/// What a segment stands for: nothing (empty or `.`), the parent (`..`),
/// or a name.
pub open spec fn classify(seg: Seq<char>) -> Part {
    if seg.len() == 0 || seg == seq!['.'] {
        Part::Current
    } else if seg == seq!['.', '.'] {
        Part::Parent
    } else {
        Part::Name(seg)
    }
}

/// A Windows path split into components: the drive, the root, then one
/// component per segment.
pub open spec fn split_spec(s: Seq<char>) -> Seq<Part> {
    let d = drive_len(s);
    let r: int = if has_root(s) {
        1
    } else {
        0
    };
    let drive = if d == 2 {
        seq![Part::Anchor(s.take(2))]
    } else {
        Seq::empty()
    };
    let root = if r == 1 {
        seq![Part::Anchor(seq![s[d]])]
    } else {
        Seq::empty()
    };
    drive + root + segments(s.skip(d + r)).map_values(|seg: Seq<char>| classify(seg))
}

proof fn lemma_segments_nonempty(s: Seq<char>)
    ensures
        segments(s).len() >= 1,
    decreases s.len(),
{
    if s.len() > 0 {
        lemma_segments_nonempty(s.drop_last());
    }
}

fn classify_chars(seg: &Vec<char>) -> (r: PathPart)
    ensures
        r@ == classify(seg@),
{
    if seg.len() == 0 || (seg.len() == 1 && seg[0] == '.') {
        proof {
            if seg.len() == 1 {
                assert(seg@ =~= seq!['.']);
            }
        }
        PathPart::Current
    } else if seg.len() == 2 && seg[0] == '.' && seg[1] == '.' {
        assert(seg@ =~= seq!['.', '.']);
        PathPart::Parent
    } else {
        proof {
            if seg@ == seq!['.'] {
                assert(seg@.len() == 1);
            }
            if seg@ == seq!['.', '.'] {
                assert(seg@[0] == '.' && seg@[1] == '.');
            }
        }
        PathPart::Name(crate::text::string_of(seg))
    }
}

/// Splits a path written the Windows way, with either slash, into its
/// components, as `split_spec` says.
pub fn split_path(path: &str) -> (r: Vec<PathPart>)
    ensures
        views_of(r@) == split_spec(path@),
{
    let v = crate::text::chars_of(path);
    let ghost s = path@;
    let mut parts: Vec<PathPart> = Vec::new();
    let drive = v.len() >= 2 && (('a' <= v[0] && v[0] <= 'z') || ('A' <= v[0] && v[0] <= 'Z'))
        && v[1] == ':';
    let d: usize = if drive {
        2
    } else {
        0
    };
    if drive {
        parts.push(PathPart::Anchor(crate::text::string_from_chars(&v, 0, 2)));
        proof {
            assert(v@.subrange(0, 2) =~= s.take(2));
        }
    }
    let mut start = d;
    if v.len() > d && (v[d] == '/' || v[d] == '\\') {
        parts.push(PathPart::Anchor(crate::text::string_from_chars(&v, d, d + 1)));
        proof {
            assert(v@.subrange(d as int, d + 1) =~= seq![s[d as int]]);
        }
        start = d + 1;
    }
    let ghost anchors = views_of(parts@);
    let ghost rest = s.skip(start as int);
    proof {
        let dr = if drive {
            seq![Part::Anchor(s.take(2))]
        } else {
            Seq::<Part>::empty()
        };
        let rt = if start == d + 1 {
            seq![Part::Anchor(seq![s[d as int]])]
        } else {
            Seq::<Part>::empty()
        };
        assert(anchors =~= dr + rt);
        assert(rest.take(0) =~= Seq::<char>::empty());
        assert(segments(rest.take(0)).drop_last() =~= Seq::<Seq<char>>::empty());
        assert(views_of(parts@) =~= anchors + segments(rest.take(0)).drop_last().map_values(
            |seg: Seq<char>| classify(seg),
        ));
    }
    let mut cur: Vec<char> = Vec::new();
    let mut i: usize = start;
    while i < v.len()
        invariant
            start <= i <= v@.len(),
            v@ == s,
            rest == s.skip(start as int),
            views_of(parts@) == anchors + segments(rest.take(i - start)).drop_last().map_values(
                |seg: Seq<char>| classify(seg),
            ),
            cur@ == segments(rest.take(i - start)).last(),
        decreases v@.len() - i,
    {
        let ghost before = segments(rest.take(i - start));
        let ghost parts_before = parts@;
        proof {
            lemma_segments_nonempty(rest.take(i - start));
            let t = rest.take(i + 1 - start);
            assert(t.drop_last() =~= rest.take(i - start));
            assert(t.last() == v@[i as int]);
        }
        let c = v[i];
        if c == '/' || c == '\\' {
            let part = classify_chars(&cur);
            parts.push(part);
            cur = Vec::new();
            proof {
                let after = before.push(Seq::empty());
                assert(after.drop_last() =~= before);
                assert(views_of(parts@) =~= views_of(parts_before).push(classify(before.last())));
                assert(before.map_values(|seg: Seq<char>| classify(seg)) =~= before.drop_last().map_values(
                    |seg: Seq<char>| classify(seg),
                ).push(classify(before.last())));
                assert(cur@ =~= after.last());
            }
        } else {
            cur.push(c);
            proof {
                let after = before.update(before.len() - 1, before.last().push(c));
                assert(after.drop_last() =~= before.drop_last());
                assert(cur@ =~= after.last());
            }
        }
        i = i + 1;
    }
    proof {
        lemma_segments_nonempty(rest.take(i - start));
        assert(rest.take(i - start) =~= rest);
    }
    let ghost segs = segments(rest);
    let ghost parts_before = parts@;
    let last = classify_chars(&cur);
    parts.push(last);
    proof {
        assert(segs.map_values(|seg: Seq<char>| classify(seg)) =~= segs.drop_last().map_values(
            |seg: Seq<char>| classify(seg),
        ).push(classify(segs.last())));
        assert(views_of(parts@) =~= views_of(parts_before).push(classify(segs.last())));
        let dr = if drive {
            seq![Part::Anchor(s.take(2))]
        } else {
            Seq::<Part>::empty()
        };
        let rt = if start == d + 1 {
            seq![Part::Anchor(seq![s[d as int]])]
        } else {
            Seq::<Part>::empty()
        };
        assert(views_of(parts@) =~= dr + rt + segs.map_values(|seg: Seq<char>| classify(seg)));
    }
    parts
}

/// Whether `candidate` lies under `root`, decided on the spelled paths with
/// `.` and `..` resolved (not on the disk: a file about to be created does
/// not exist yet), ignoring case and the kind of slash, as Windows does.
pub fn within(root: &str, candidate: &str) -> (r: bool)
    ensures
        r == within_parts_spec(split_spec(root@), split_spec(candidate@)),
{
    within_parts(&split_path(root), &split_path(candidate))
}

/// Where `rest` leads from `folder`, as `Path::join` does on Windows: an
/// absolute path, or one with a drive, replaces the folder; one from a root
/// keeps only the folder's drive; anything else goes under the folder.
pub open spec fn join_spec(folder: Seq<char>, rest: Seq<char>) -> Seq<char> {
    if has_drive(rest) {
        rest
    } else if has_root(rest) {
        folder.take(drive_len(folder)) + rest
    } else if folder.len() == 0 || is_sep(folder.last()) || (has_drive(folder) && folder.len() == 2) {
        folder + rest
    } else {
        folder + seq!['\\'] + rest
    }
}

/// `folder` joined with `rest`, as `join_spec` says.
pub fn join_path(folder: &str, rest: &str) -> (r: String)
    ensures
        r@ == join_spec(folder@, rest@),
{
    let f = crate::text::chars_of(folder);
    let t = crate::text::chars_of(rest);
    let rest_drive = t.len() >= 2 && (('a' <= t[0] && t[0] <= 'z') || ('A' <= t[0] && t[0] <= 'Z'))
        && t[1] == ':';
    if rest_drive {
        return rest.to_owned();
    }
    let folder_drive = f.len() >= 2 && (('a' <= f[0] && f[0] <= 'z') || ('A' <= f[0] && f[0]
        <= 'Z')) && f[1] == ':';
    if t.len() > 0 && (t[0] == '/' || t[0] == '\\') {
        let keep: usize = if folder_drive {
            2
        } else {
            0
        };
        let mut out = crate::text::string_from_chars(&f, 0, keep);
        out.push_str(rest);
        proof {
            assert(f@.subrange(0, keep as int) =~= folder@.take(keep as int));
        }
        return out;
    }
    let mut out = folder.to_owned();
    let bare = f.len() == 0 || f[f.len() - 1] == '/' || f[f.len() - 1] == '\\' || (folder_drive
        && f.len() == 2);
    if !bare {
        out.push('\\');
    }
    out.push_str(rest);
    out
}

/// The refusal of an empty path.
pub open spec fn path_required() -> Seq<char> {
    "a path is required"@
}

/// The refusal of a read outside both folders.
pub open spec fn read_refusal(given: Seq<char>) -> Seq<char> {
    given + " is outside the mod folder and the game folder; only those can be read"@
}

/// The refusal of a write outside the mod folder.
pub open spec fn write_refusal(given: Seq<char>) -> Seq<char> {
    given + " is outside the mod folder; only the mod's own files can be written"@
}

/// Whether the path `candidate` lies under the path `root`.
pub open spec fn within_text(root: Seq<char>, candidate: Seq<char>) -> bool {
    within_parts_spec(split_spec(root), split_spec(candidate))
}

/// The path a tool names: none when blank, else the trimmed path, taken
/// against the mod folder unless absolute.
pub open spec fn candidate_spec(folder: Seq<char>, given: Seq<char>) -> Option<Seq<char>> {
    let t = trim_spec(given);
    if t.len() == 0 {
        None
    } else if is_absolute_spec(t) {
        Some(t)
    } else {
        Some(join_spec(folder, t))
    }
}

/// Where a session may read and write: the mod open in the window, and the
/// game folder from Settings.
pub struct Scope {
    pub project: ModProject,
    pub game_root: String,
}

impl Scope {
    /// The path a tool names, taken against the mod folder when relative.
    pub fn candidate(&self, given: &str) -> (r: Result<String, String>)
        ensures
            match candidate_spec(self.project.folder_path@, given@) {
                Some(c) => r is Ok && r->Ok_0@ == c,
                None => r is Err && r->Err_0@ == path_required(),
            },
    {
        let given = trim(given);
        if given.as_str().is_empty() {
            let message = "a path is required".to_owned();
            proof {
                reveal_strlit("a path is required");
            }
            return Err(message);
        }
        let t = crate::text::chars_of(given.as_str());
        let absolute = t.len() >= 3 && (('a' <= t[0] && t[0] <= 'z') || ('A' <= t[0] && t[0]
            <= 'Z')) && t[1] == ':' && (t[2] == '/' || t[2] == '\\');
        if absolute {
            Ok(given)
        } else {
            Ok(join_path(self.project.folder_path.as_str(), given.as_str()))
        }
    }

    /// A path to read: inside the mod, or inside the game folder by absolute
    /// path. Vanilla files are what a modder compares against.
    pub fn read_path(&self, given: &str) -> (r: Result<String, String>)
        ensures
            match candidate_spec(self.project.folder_path@, given@) {
                Some(c) => if within_text(self.project.folder_path@, c) || (trim_spec(
                    self.game_root@,
                ).len() > 0 && within_text(self.game_root@, c)) {
                    r is Ok && r->Ok_0@ == c
                } else {
                    r is Err && r->Err_0@ == read_refusal(given@)
                },
                None => r is Err && r->Err_0@ == path_required(),
            },
    {
        let candidate = match self.candidate(given) {
            Ok(c) => c,
            Err(e) => return Err(e),
        };
        if within(self.project.folder_path.as_str(), candidate.as_str()) {
            return Ok(candidate);
        }
        let game = trim(self.game_root.as_str());
        if !game.as_str().is_empty() && within(self.game_root.as_str(), candidate.as_str()) {
            return Ok(candidate);
        }
        let mut message = given.to_owned();
        message.push_str(" is outside the mod folder and the game folder; only those can be read");
        proof {
            reveal_strlit(" is outside the mod folder and the game folder; only those can be read");
        }
        Err(message)
    }

    /// A path to write: inside the mod, nowhere else. The game install is
    /// never touched, whatever the assistant is asked.
    pub fn write_path(&self, given: &str) -> (r: Result<String, String>)
        ensures
            match candidate_spec(self.project.folder_path@, given@) {
                Some(c) => if within_text(self.project.folder_path@, c) {
                    r is Ok && r->Ok_0@ == c
                } else {
                    r is Err && r->Err_0@ == write_refusal(given@)
                },
                None => r is Err && r->Err_0@ == path_required(),
            },
    {
        let candidate = match self.candidate(given) {
            Ok(c) => c,
            Err(e) => return Err(e),
        };
        if within(self.project.folder_path.as_str(), candidate.as_str()) {
            return Ok(candidate);
        }
        let mut message = given.to_owned();
        message.push_str(" is outside the mod folder; only the mod's own files can be written");
        proof {
            reveal_strlit(" is outside the mod folder; only the mod's own files can be written");
        }
        Err(message)
    }
}


/// One file the assistant is shown: its path relative to the mod folder and
/// its size.
#[derive(Debug, Clone)]
pub struct ListedFile {
    pub relative_path: String,
    pub size_bytes: u64,
}

/// The folder a listing is limited to, as compared: slashes for
/// backslashes, without spaces around it or slashes at either end, lower
/// cased.
pub open spec fn folder_key(folder: Seq<char>) -> Seq<char> {
    lowercase(
        crate::text::trim_end_char(
            crate::text::trim_start_char(trim_spec(crate::text::replace_char(folder, '\\', '/')), '/'),
            '/',
        ),
    )
}

/// The extension a listing is limited to, as compared: without spaces
/// around it or dots before it, lower cased.
pub open spec fn extension_key(extension: Seq<char>) -> Seq<char> {
    lowercase(crate::text::trim_start_char(trim_spec(extension), '.'))
}

/// A file belongs in a listing when it lies in the folder (or is it), and
/// has the extension; an empty folder or extension lets everything in.
pub open spec fn in_listing(file: ProjectFile, folder: Seq<char>, extension: Seq<char>) -> bool {
    let relative = lowercase(file.relative_path@);
    &&& (folder.len() == 0 || relative == folder || (folder + "/"@).is_prefix_of(relative))
    &&& (extension.len() == 0 || file.extension@ == extension)
}

/// The files of a scan a listing keeps, in order.
pub open spec fn listing(files: Seq<ProjectFile>, folder: Seq<char>, extension: Seq<char>) -> Seq<
    ProjectFile,
>
    decreases files.len(),
{
    if files.len() == 0 {
        Seq::empty()
    } else {
        let rest = listing(files.drop_last(), folder, extension);
        if in_listing(files.last(), folder, extension) {
            rest.push(files.last())
        } else {
            rest
        }
    }
}

/// The files of a scan of the mod that a listing for `folder` and
/// `extension` shows, in the scan's order.
pub fn listed_files(files: &Vec<ProjectFile>, folder: &str, extension: &str) -> (r: Vec<ListedFile>)
    ensures
        r.len() == listing(files@, folder_key(folder@), extension_key(extension@)).len(),
        forall|i: int|
            0 <= i < r.len() ==> {
                let f = #[trigger] listing(files@, folder_key(folder@), extension_key(extension@))[i];
                r@[i].relative_path@ == f.relative_path@ && r@[i].size_bytes == f.size_bytes
            },
{
    let slashed = crate::text::replace_char_in(folder, '\\', '/');
    let trimmed = trim(slashed.as_str());
    let started = crate::text::trim_start_matches_char(trimmed.as_str(), '/');
    let ended = crate::text::trim_end_matches_char(started.as_str(), '/');
    let folder_key = to_lowercase(ended.as_str());
    let ext_trimmed = trim(extension);
    let ext_started = crate::text::trim_start_matches_char(ext_trimmed.as_str(), '.');
    let extension_key = to_lowercase(ext_started.as_str());
    let mut nested = folder_key.as_str().to_owned();
    nested.push('/');
    let ghost fk = folder_key@;
    let ghost ek = extension_key@;
    proof {
        reveal_strlit("/");
        assert(nested@ =~= fk + "/"@);
    }
    let mut r: Vec<ListedFile> = Vec::new();
    let mut i: usize = 0;
    while i < files.len()
        invariant
            i <= files.len(),
            fk == self::folder_key(folder@),
            ek == self::extension_key(extension@),
            folder_key@ == fk,
            extension_key@ == ek,
            nested@ == fk + "/"@,
            r.len() == listing(files@.take(i as int), fk, ek).len(),
            forall|k: int|
                0 <= k < r.len() ==> {
                    let f = #[trigger] listing(files@.take(i as int), fk, ek)[k];
                    r@[k].relative_path@ == f.relative_path@ && r@[k].size_bytes == f.size_bytes
                },
        decreases files.len() - i,
    {
        let file = &files[i];
        proof {
            assert(files@.take(i as int + 1).drop_last() =~= files@.take(i as int));
            assert(files@.take(i as int + 1).last() == files@[i as int]);
        }
        let relative = to_lowercase(file.relative_path.as_str());
        let in_folder = folder_key.as_str().is_empty() || crate::text::str_eq(
            relative.as_str(),
            folder_key.as_str(),
        ) || starts_with(relative.as_str(), nested.as_str());
        let has_extension = extension_key.as_str().is_empty() || crate::text::str_eq(
            file.extension.as_str(),
            extension_key.as_str(),
        );
        if in_folder && has_extension {
            r.push(
                ListedFile {
                    relative_path: file.relative_path.as_str().to_owned(),
                    size_bytes: file.size_bytes,
                },
            );
        }
        i = i + 1;
    }
    proof {
        assert(files@.take(i as int) =~= files@);
    }
    r
}

} // verus!
