//! Mod descriptor (`.mod`) reading and project file discovery.
//!
//! What a descriptor says is read here from its parsed script; where the
//! folder it names lies is worked out with `std::path`, whose answers depend
//! on the platform the app runs on.
use crate::paradox::{Block, Document, Item, Items, Pair, Scalar, Value};
use crate::paradox::parser::{block_spec, pairs_with, scalar_spec, scalar_text};
use crate::text::{
    chars_of, eq_ignore_ascii_case, eq_ignore_ascii_case_spec, find_char, index_of, lowercase,
    replace_char, replace_char_in, str_eq, string_from_chars, to_lowercase, trim, trim_spec,
};
use vstd::prelude::*;

verus! {

#[derive(Debug, Clone, Copy, PartialEq, Eq, Structural)]
pub enum FileKind {
    Text,
    Image,
    Binary,
}

#[derive(Debug, Clone)]
pub struct ProjectFile {
    pub full_path: String,
    /// Path relative to the scan root, always with forward slashes.
    pub relative_path: String,
    pub name: String,
    pub extension: String,
    pub size_bytes: u64,
    pub modified_ms: u64,
    pub kind: FileKind,
}

#[derive(Debug, Clone)]
pub struct ScanResult {
    pub root: String,
    pub files: Vec<ProjectFile>,
    /// True when the scan hit its file limit and stopped early.
    pub truncated: bool,
}

#[derive(Debug, Clone)]
pub struct ModProject {
    pub mod_file_path: String,
    pub folder_path: String,
    pub name: String,
    pub version: String,
    pub supported_version: String,
    pub tags: Vec<String>,
    /// Absolute path of the thumbnail, empty when the mod has none.
    pub image_path: String,
    pub replace_paths: Vec<String>,
}

/// Extensions opened in the script editor.
pub open spec fn text_extension(e: Seq<char>) -> bool {
    e == "txt"@ || e == "yml"@ || e == "yaml"@ || e == "gfx"@ || e == "gui"@ || e == "asset"@
        || e == "csv"@ || e == "json"@ || e == "lua"@ || e == "mod"@ || e == "info"@ || e
        == "settings"@ || e == "sfx"@ || e == "log"@
}

/// Extensions shown as pictures.
pub open spec fn image_extension(e: Seq<char>) -> bool {
    e == "png"@ || e == "jpg"@ || e == "jpeg"@ || e == "bmp"@ || e == "gif"@ || e == "tga"@ || e
        == "dds"@
}

/// Tool folders a scan never enters, by lowercased name.
pub open spec fn skipped_directory(name: Seq<char>) -> bool {
    name == ".git"@ || name == ".vs"@ || name == ".idea"@ || name == "node_modules"@ || name
        == "target"@ || name == "bin"@ || name == "obj"@
}

fn is_text_extension(e: &str) -> (r: bool)
    ensures
        r == text_extension(e@),
{
    str_eq(e, "txt") || str_eq(e, "yml") || str_eq(e, "yaml") || str_eq(e, "gfx") || str_eq(
        e,
        "gui",
    ) || str_eq(e, "asset") || str_eq(e, "csv") || str_eq(e, "json") || str_eq(e, "lua")
        || str_eq(e, "mod") || str_eq(e, "info") || str_eq(e, "settings") || str_eq(e, "sfx")
        || str_eq(e, "log")
}

fn is_image_extension(e: &str) -> (r: bool)
    ensures
        r == image_extension(e@),
{
    str_eq(e, "png") || str_eq(e, "jpg") || str_eq(e, "jpeg") || str_eq(e, "bmp") || str_eq(
        e,
        "gif",
    ) || str_eq(e, "tga") || str_eq(e, "dds")
}

/// How the workspace opens a file with this (lowercase) extension.
pub fn classify(extension: &str) -> (kind: FileKind)
    ensures
        kind == (if text_extension(extension@) {
            FileKind::Text
        } else if image_extension(extension@) {
            FileKind::Image
        } else {
            FileKind::Binary
        }),
{
    if is_text_extension(extension) {
        FileKind::Text
    } else if is_image_extension(extension) {
        FileKind::Image
    } else {
        FileKind::Binary
    }
}

/// Whether a scan skips a directory with this name: the tool folders, in
/// any case.
pub fn is_skipped_name(name: &str) -> (r: bool)
    ensures
        r == skipped_directory(lowercase(name@)),
{
    let lower = to_lowercase(name);
    let l = lower.as_str();
    str_eq(l, ".git") || str_eq(l, ".vs") || str_eq(l, ".idea") || str_eq(l, "node_modules")
        || str_eq(l, "target") || str_eq(l, "bin") || str_eq(l, "obj")
}

/// Windows paths are kept in their native form, only the separators are
/// unified so the frontend can compare and split them predictably.
pub fn normalise_path(path: &str) -> (r: String)
    ensures
        r@ == replace_char(path@, '\\', '/'),
{
    replace_char_in(path, '\\', '/')
}

/// The first `/`-separated segment of a path written with either separator.
pub open spec fn first_segment_spec(path: Seq<char>) -> Seq<char> {
    let p = replace_char(path, '\\', '/');
    p.take(index_of(p, '/'))
}

/// Whether a declared path is written relative to the Hearts of Iron IV
/// user directory: its first segment repeats the descriptor folder's name,
/// ignoring ASCII case (`mod/my_mod` beside a descriptor in `.../mod`).
pub fn resolves_against_parent(declared_path: &str, descriptor_name: &str) -> (r: bool)
    ensures
        r == eq_ignore_ascii_case_spec(first_segment_spec(declared_path@), descriptor_name@),
{
    let normalised = replace_char_in(declared_path, '\\', '/');
    let chars = chars_of(normalised.as_str());
    let end = find_char(&chars, '/', 0, chars.len());
    proof {
        assert(chars@.subrange(0, chars@.len() as int) =~= chars@);
        assert(chars@.subrange(0, end as int) =~= chars@.take(end as int));
    }
    let first = string_from_chars(&chars, 0, end);
    eq_ignore_ascii_case(first.as_str(), descriptor_name)
}

/// `Path::is_absolute`. What counts as absolute depends on the platform
/// (a drive prefix on Windows, a leading `/` elsewhere), so nothing is
/// stated of the answer.
#[verifier::external_body]
fn path_is_absolute(path: &str) -> bool {
    std::path::Path::new(path).is_absolute()
}

/// `Path::file_name`, lossily as text; empty when there is none. Which
/// characters separate components depends on the platform, so nothing is
/// stated of the answer.
#[verifier::external_body]
fn path_file_name(path: &str) -> String {
    std::path::Path::new(path).file_name().map(|name| name.to_string_lossy().to_string()).unwrap_or_default()
}

/// `Path::parent`, as text. Platform dependent like `path_file_name`.
#[verifier::external_body]
fn path_parent(path: &str) -> Option<String> {
    std::path::Path::new(path).parent().map(|parent| parent.display().to_string())
}

/// `Path::join`, as text. Platform dependent like `path_file_name`.
#[verifier::external_body]
fn path_join(base: &str, rest: &str) -> String {
    std::path::Path::new(base).join(rest).display().to_string()
}

/// Where a project's folder is: the descriptor's own folder, the declared
/// path as it stands, or a relative path joined onto a base folder.
#[derive(Debug, PartialEq, Eq)]
pub enum FolderChoice {
    Descriptor,
    Declared,
    Join(String, String),
}

/// The folder a declared path names, given what the platform says of the
/// paths: whether the declared path is absolute, the descriptor folder's
/// own name and its parent folder. A blank path means the descriptor's
/// folder; an absolute one stands as it is; a relative one, with its
/// backslashes read as `/`, is joined onto the descriptor folder's parent
/// when its first segment repeats the descriptor folder's name (and the
/// folder has a parent), onto the descriptor folder otherwise.
pub fn choose_folder(
    descriptor_directory: &str,
    declared_path: &str,
    absolute: bool,
    descriptor_name: &str,
    parent: Option<String>,
) -> (c: FolderChoice)
    ensures
        trim_spec(declared_path@).len() == 0 ==> c == FolderChoice::Descriptor,
        trim_spec(declared_path@).len() != 0 && absolute ==> c == FolderChoice::Declared,
        trim_spec(declared_path@).len() != 0 && !absolute ==> (c matches FolderChoice::Join(base, rest)
            && rest@ == replace_char(declared_path@, '\\', '/') && base@ == (match parent {
            Some(p) => if eq_ignore_ascii_case_spec(first_segment_spec(declared_path@), descriptor_name@) {
                p@
            } else {
                descriptor_directory@
            },
            None => descriptor_directory@,
        })),
{
    let trimmed = trim(declared_path);
    if trimmed.as_str().is_empty() {
        return FolderChoice::Descriptor;
    }
    if absolute {
        return FolderChoice::Declared;
    }
    let normalised = replace_char_in(declared_path, '\\', '/');
    if resolves_against_parent(declared_path, descriptor_name) {
        match parent {
            Some(parent) => FolderChoice::Join(parent, normalised),
            None => FolderChoice::Join(descriptor_directory.to_owned(), normalised),
        }
    } else {
        FolderChoice::Join(descriptor_directory.to_owned(), normalised)
    }
}

/// `path` in a descriptor is usually written relative to the Hearts of Iron IV
/// user directory (`mod/my_mod`), while the descriptor itself lives in
/// `.../Hearts of Iron IV/mod/`. When the first segment repeats the descriptor
/// folder name, resolve against its parent instead. An empty path means the
/// descriptor's own folder. Which folder is joined onto which is
/// `choose_folder`'s choice, made from what the platform's path rules say;
/// the joined text itself follows those rules and is not stated here.
pub fn resolve_project_folder(descriptor_directory: &str, declared_path: &str) -> (folder: String)
    ensures
        trim_spec(declared_path@).len() == 0 ==> folder@ == descriptor_directory@,
{
    let absolute = path_is_absolute(declared_path);
    let descriptor_name = path_file_name(descriptor_directory);
    let parent = path_parent(descriptor_directory);
    match choose_folder(descriptor_directory, declared_path, absolute, descriptor_name.as_str(), parent) {
        FolderChoice::Descriptor => descriptor_directory.to_owned(),
        FolderChoice::Declared => declared_path.to_owned(),
        FolderChoice::Join(base, rest) => path_join(base.as_str(), rest.as_str()),
    }
}

/// What a `.mod` descriptor declares.
#[derive(Debug)]
pub struct Descriptor {
    /// `path`, empty when the descriptor declares none.
    pub path: String,
    pub name: Option<String>,
    pub version: String,
    pub supported_version: String,
    pub tags: Vec<String>,
    pub picture: Option<String>,
    pub replace_paths: Vec<String>,
}

/// The bare scalar values among `items`: `tags = { "Gameplay" "Map" }`.
pub open spec fn bare_scalars(items: Seq<Item>) -> Seq<Seq<char>>
    decreases items.len(),
{
    if items.len() == 0 {
        Seq::empty()
    } else {
        let rest = bare_scalars(items.drop_last());
        match items.last() {
            Item::Value(Value::Scalar(s)) => rest.push(scalar_text(s)),
            _ => rest,
        }
    }
}

/// The scalar values of `pairs`, in order.
pub open spec fn pair_scalars(pairs: Seq<Pair>) -> Seq<Seq<char>>
    decreases pairs.len(),
{
    if pairs.len() == 0 {
        Seq::empty()
    } else {
        let rest = pair_scalars(pairs.drop_last());
        match pairs.last().value {
            Value::Scalar(s) => rest.push(scalar_text(s)),
            _ => rest,
        }
    }
}

pub open spec fn or_empty(v: Option<Seq<char>>) -> Seq<char> {
    match v {
        Some(s) => s,
        None => Seq::empty(),
    }
}

pub open spec fn opt_text(v: Option<String>) -> Option<Seq<char>> {
    match v {
        Some(s) => Some(s@),
        None => None,
    }
}

fn bare_values(block: &Block) -> (r: Vec<String>)
    ensures
        crate::text::views(r@) == bare_scalars(block.items@),
{
    let mut r: Vec<String> = Vec::new();
    let mut i: usize = 0;
    while i < block.items.len()
        invariant
            i <= block.items@.len(),
            crate::text::views(r@) == bare_scalars(block.items@.take(i as int)),
        decreases block.items@.len() - i,
    {
        let ghost before = crate::text::views(r@);
        proof {
            assert(block.items@.take(i + 1).drop_last() =~= block.items@.take(i as int));
        }
        match &block.items[i] {
            Item::Value(Value::Scalar(scalar)) => {
                r.push(scalar.value());
                assert(crate::text::views(r@) =~= before.push(scalar_text(*scalar)));
            },
            _ => {},
        }
        i = i + 1;
    }
    assert(block.items@.take(block.items@.len() as int) =~= block.items@);
    r
}

fn scalar_values(pairs: &Vec<&Pair>) -> (r: Vec<String>)
    ensures
        crate::text::views(r@) == pair_scalars(Seq::new(pairs@.len(), |k: int| *pairs@[k])),
{
    let ghost all = Seq::new(pairs@.len(), |k: int| *pairs@[k]);
    let mut r: Vec<String> = Vec::new();
    let mut i: usize = 0;
    while i < pairs.len()
        invariant
            i <= pairs@.len(),
            all == Seq::new(pairs@.len(), |k: int| *pairs@[k]),
            crate::text::views(r@) == pair_scalars(all.take(i as int)),
        decreases pairs@.len() - i,
    {
        let ghost before = crate::text::views(r@);
        proof {
            assert(all.take(i + 1).drop_last() =~= all.take(i as int));
            assert(all.take(i + 1).last() == *pairs@[i as int]);
        }
        match &pairs[i].value {
            Value::Scalar(scalar) => {
                r.push(scalar.value());
                assert(crate::text::views(r@) =~= before.push(scalar_text(*scalar)));
            },
            _ => {},
        }
        i = i + 1;
    }
    assert(all.take(all.len() as int) =~= all);
    r
}

/// What a parsed descriptor declares: its folder, name, versions, tags,
/// thumbnail and replaced paths.
pub fn descriptor(document: &Document) -> (d: Descriptor)
    ensures
        d.path@ == or_empty(scalar_spec(document.items@, "path"@)),
        opt_text(d.name) == scalar_spec(document.items@, "name"@),
        d.version@ == or_empty(scalar_spec(document.items@, "version"@)),
        d.supported_version@ == or_empty(scalar_spec(document.items@, "supported_version"@)),
        crate::text::views(d.tags@) == (match block_spec(document.items@, "tags"@) {
            Some(b) => bare_scalars(b.items@),
            None => Seq::empty(),
        }),
        opt_text(d.picture) == scalar_spec(document.items@, "picture"@),
        crate::text::views(d.replace_paths@) == pair_scalars(
            pairs_with(document.items@, "replace_path"@),
        ),
{
    let path = match document.scalar("path") {
        Some(p) => p,
        None => String::new(),
    };
    let version = match document.scalar("version") {
        Some(v) => v,
        None => String::new(),
    };
    let supported_version = match document.scalar("supported_version") {
        Some(v) => v,
        None => String::new(),
    };
    let tags = match document.block("tags") {
        Some(block) => bare_values(block),
        None => Vec::new(),
    };
    let pairs = document.find_all("replace_path");
    let replace_paths = scalar_values(&pairs);
    proof {
        assert(Seq::new(pairs@.len(), |k: int| *pairs@[k]) =~= pairs_with(
            document.items@,
            "replace_path"@,
        ));
        if tags@.len() == 0 {
            assert(crate::text::views(tags@) =~= Seq::<Seq<char>>::empty());
        }
    }
    Descriptor {
        path,
        name: document.scalar("name"),
        version,
        supported_version,
        tags,
        picture: document.scalar("picture"),
        replace_paths,
    }
}

/// Law: the files opened as text are those with the extensions of the
/// game's scripts, interface, localisation and data files; the files shown
/// as pictures are those with a picture format's extension; and a scan skips the folders of version control, editors and
/// build tools.
pub proof fn law_text_and_picture_extensions()
    ensures
        text_extension("txt"@),
        text_extension("yml"@),
        text_extension("yaml"@),
        text_extension("gfx"@),
        text_extension("gui"@),
        text_extension("asset"@),
        text_extension("csv"@),
        text_extension("json"@),
        text_extension("lua"@),
        text_extension("mod"@),
        text_extension("info"@),
        text_extension("settings"@),
        text_extension("sfx"@),
        text_extension("log"@),
        image_extension("png"@),
        image_extension("jpg"@),
        image_extension("jpeg"@),
        image_extension("bmp"@),
        image_extension("gif"@),
        image_extension("tga"@),
        image_extension("dds"@),
        skipped_directory(".git"@),
        skipped_directory(".vs"@),
        skipped_directory(".idea"@),
        skipped_directory("node_modules"@),
        skipped_directory("target"@),
        skipped_directory("bin"@),
        skipped_directory("obj"@),
{
    reveal_strlit("txt");
    reveal_strlit("yml");
    reveal_strlit("yaml");
    reveal_strlit("gfx");
    reveal_strlit("gui");
    reveal_strlit("asset");
    reveal_strlit("csv");
    reveal_strlit("json");
    reveal_strlit("lua");
    reveal_strlit("mod");
    reveal_strlit("info");
    reveal_strlit("settings");
    reveal_strlit("sfx");
    reveal_strlit("log");
    reveal_strlit("png");
    reveal_strlit("jpg");
    reveal_strlit("jpeg");
    reveal_strlit("bmp");
    reveal_strlit("gif");
    reveal_strlit("tga");
    reveal_strlit("dds");
}

} // verus!
