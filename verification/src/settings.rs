//! Persisted application settings: the recent projects list and the MCP
//! server's configuration.
use crate::text::{
    lowercase, replace_char, replace_char_in, str_eq, to_lowercase, trim_end_char,
    trim_end_matches_char,
};
use vstd::prelude::*;

verus! {

pub const SETTINGS_VERSION: u32 = 1;

pub const MAX_RECENT_PROJECTS: usize = 12;

/// Loopback port the MCP server listens on unless the user picks another.
pub const DEFAULT_MCP_PORT: u16 = 4747;

#[derive(Debug, Clone)]
pub struct RecentProject {
    pub mod_file_path: String,
    pub folder_path: String,
    pub display_name: String,
    pub image_path: String,
    /// Milliseconds since the Unix epoch.
    pub last_opened: u64,
}

/// How the app is exposed to MCP clients.
#[derive(Debug, Clone, PartialEq, Eq)]
pub struct McpSettings {
    /// Whether the server starts with the app.
    pub enabled: bool,
    /// Port on the loopback interface.
    pub port: u16,
    /// Bearer token every request must carry. Generated once and kept, so a
    /// client configured today keeps working after the next launch.
    pub token: String,
}

impl Default for McpSettings {
    fn default() -> (settings: Self)
        ensures
            settings.enabled,
            settings.port == DEFAULT_MCP_PORT,
            settings.token@ == Seq::<char>::empty(),
    {
        McpSettings { enabled: true, port: DEFAULT_MCP_PORT, token: String::new() }
    }
}

#[derive(Debug, Clone)]
pub struct Settings {
    pub version: u32,
    /// `system`, `light` or `dark`.
    pub theme: String,
    /// Hearts of Iron IV installation directory, used by the game asset browser.
    pub game_root_path: String,
    pub recent_projects: Vec<RecentProject>,
    pub mcp: McpSettings,
}

impl Default for Settings {
    fn default() -> (settings: Self)
        ensures
            settings.version == SETTINGS_VERSION,
            settings.theme@ == "system"@,
            settings.game_root_path@ == Seq::<char>::empty(),
            settings.recent_projects@ == Seq::<RecentProject>::empty(),
            settings.mcp.enabled,
            settings.mcp.port == DEFAULT_MCP_PORT,
            settings.mcp.token@ == Seq::<char>::empty(),
    {
        Settings {
            version: SETTINGS_VERSION,
            theme: "system".to_owned(),
            game_root_path: String::new(),
            recent_projects: Vec::new(),
            mcp: McpSettings::default(),
        }
    }
}

/// What a load found on disk.
pub enum Found {
    /// No file yet: a first launch.
    Fresh,
    Parsed(Settings),
    /// A file that exists but does not parse.
    Damaged,
}

/// The settings a load ends with, and whether they are to be written back,
/// given what was found and a token to give settings that have none.
///
/// A first launch gets the defaults with the token, written out. A file
/// from before the server existed has no token: it gets this one, kept by
/// writing it back. A damaged file must not brick the app nor be
/// overwritten, since the game folder and the recent projects are still in
/// it, one fix away: the defaults serve this run, with the token, and
/// nothing is written.
pub fn settle(found: Found, token: String) -> (r: (Settings, bool))
    ensures
        match found {
            Found::Fresh => {
                &&& r.1
                &&& r.0.version == SETTINGS_VERSION && r.0.theme@ == "system"@
                &&& r.0.game_root_path@.len() == 0 && r.0.recent_projects@.len() == 0
                &&& r.0.mcp.enabled && r.0.mcp.port == DEFAULT_MCP_PORT
                &&& r.0.mcp.token@ == token@
            },
            Found::Parsed(s) => if s.mcp.token@.len() == 0 {
                &&& r.1
                &&& r.0.version == s.version && r.0.theme == s.theme
                &&& r.0.game_root_path == s.game_root_path
                &&& r.0.recent_projects == s.recent_projects
                &&& r.0.mcp.enabled == s.mcp.enabled && r.0.mcp.port == s.mcp.port
                &&& r.0.mcp.token@ == token@
            } else {
                !r.1 && r.0 == s
            },
            Found::Damaged => {
                &&& !r.1
                &&& r.0.version == SETTINGS_VERSION && r.0.theme@ == "system"@
                &&& r.0.game_root_path@.len() == 0 && r.0.recent_projects@.len() == 0
                &&& r.0.mcp.enabled && r.0.mcp.port == DEFAULT_MCP_PORT
                &&& r.0.mcp.token@ == token@
            },
        },
{
    match found {
        Found::Fresh => {
            let mut settings = Settings::default();
            settings.mcp.token = token;
            (settings, true)
        },
        Found::Parsed(mut settings) => {
            if settings.mcp.token.as_str().is_empty() {
                settings.mcp.token = token;
                (settings, true)
            } else {
                (settings, false)
            }
        },
        Found::Damaged => {
            let mut settings = Settings::default();
            settings.mcp.token = token;
            (settings, false)
        },
    }
}

/// Milliseconds since the Unix epoch, from the system clock.
///
/// Calls `std::time::SystemTime::now` and measures it from `UNIX_EPOCH`; a
/// clock set before the epoch reads as 0. Nothing is promised of the value:
/// it is the time.
#[verifier::external_body]
pub fn now_ms() -> u64 {
    std::time::SystemTime::now().duration_since(std::time::UNIX_EPOCH).map(
        |elapsed| elapsed.as_millis() as u64,
    ).unwrap_or_default()
}

/// A lowercase hexadecimal digit.
pub open spec fn is_lower_hex(c: char) -> bool {
    ('0' <= c && c <= '9') || ('a' <= c && c <= 'f')
}

/// A fresh random UUID (`uuid::Uuid::new_v4`) in its simple form: the crate
/// writes its 16 bytes as 32 lowercase hexadecimal digits. Which digits is
/// chance, and not stated.
#[verifier::external_body]
fn random_uuid_hex() -> (token: String)
    ensures
        token@.len() == 32,
        forall|i: int| 0 <= i < 32 ==> is_lower_hex(#[trigger] token@[i]),
{
    uuid::Uuid::new_v4().simple().to_string()
}

/// A fresh bearer token: 128 random bits as hex, which is what a client is
/// asked to paste, so nothing in it needs quoting.
pub fn new_token() -> (token: String)
    ensures
        token@.len() == 32,
        forall|i: int| 0 <= i < 32 ==> is_lower_hex(#[trigger] token@[i]),
{
    random_uuid_hex()
}

/// A folder path compared the way Windows sees it: separators unified, no
/// trailing slash, case ignored.
pub open spec fn normalise_spec(path: Seq<char>) -> Seq<char> {
    lowercase(trim_end_char(replace_char(path, '\\', '/'), '/'))
}

pub open spec fn paths_match_spec(left: Seq<char>, right: Seq<char>) -> bool {
    normalise_spec(left) == normalise_spec(right)
}

fn normalise(path: &str) -> (r: String)
    ensures
        r@ == normalise_spec(path@),
{
    let unified = replace_char_in(path, '\\', '/');
    let trimmed = trim_end_matches_char(unified.as_str(), '/');
    to_lowercase(trimmed.as_str())
}

pub fn paths_match(left: &str, right: &str) -> (r: bool)
    ensures
        r == paths_match_spec(left@, right@),
{
    let a = normalise(left);
    let b = normalise(right);
    str_eq(a.as_str(), b.as_str())
}

/// The recent projects whose folder is not `folder`.
pub open spec fn without_folder(recent: Seq<RecentProject>, folder: Seq<char>) -> Seq<RecentProject>
    decreases recent.len(),
{
    if recent.len() == 0 {
        Seq::empty()
    } else {
        let rest = without_folder(recent.drop_last(), folder);
        if paths_match_spec(recent.last().folder_path@, folder) {
            rest
        } else {
            rest.push(recent.last())
        }
    }
}

/// At most `n` entries from the front.
pub open spec fn cap(s: Seq<RecentProject>, n: int) -> Seq<RecentProject> {
    if s.len() <= n {
        s
    } else {
        s.take(n)
    }
}

/// `recent` without the entries for `folder`, built by moving entries out.
fn drop_folder(recent: Vec<RecentProject>, folder: &str) -> (kept: Vec<RecentProject>)
    ensures
        kept@ == without_folder(recent@, folder@),
{
    let ghost all = recent@;
    assert(all.len() == recent.len());
    let mut rest = recent;
    let mut reversed: Vec<RecentProject> = Vec::new();
    while rest.len() > 0
        invariant
            all.len() == rest@.len() + reversed@.len(),
            forall|k: int| 0 <= k < rest@.len() ==> #[trigger] rest@[k] == all[k],
            forall|k: int|
                0 <= k < reversed@.len() ==> #[trigger] reversed@[k] == all[all.len() - 1 - k],
        decreases rest@.len(),
    {
        let e = rest.pop().unwrap();
        reversed.push(e);
    }
    let mut kept: Vec<RecentProject> = Vec::new();
    let mut taken: usize = 0;
    while reversed.len() > 0
        invariant
            all.len() <= usize::MAX,
            taken + reversed@.len() == all.len(),
            forall|k: int|
                0 <= k < reversed@.len() ==> #[trigger] reversed@[k] == all[all.len() - 1 - k],
            kept@ == without_folder(all.take(taken as int), folder@),
        decreases reversed@.len(),
    {
        let e = reversed.pop().unwrap();
        proof {
            assert(e == all[taken as int]);
            assert(all.take(taken + 1).drop_last() =~= all.take(taken as int));
            assert(all.take(taken + 1).last() == e);
        }
        if !paths_match(e.folder_path.as_str(), folder) {
            kept.push(e);
        }
        taken = taken + 1;
    }
    assert(all.take(all.len() as int) =~= all);
    kept
}

/// Moves a project to the front of the recent list, de-duplicating by folder.
pub fn remember_project(settings: &mut Settings, project: RecentProject)
    ensures
        final(settings).recent_projects@ == cap(
            seq![project] + without_folder(old(settings).recent_projects@, project.folder_path@),
            MAX_RECENT_PROJECTS as int,
        ),
        final(settings).version == old(settings).version,
        final(settings).theme == old(settings).theme,
        final(settings).game_root_path == old(settings).game_root_path,
        final(settings).mcp == old(settings).mcp,
{
    let mut list: Vec<RecentProject> = Vec::new();
    std::mem::swap(&mut list, &mut settings.recent_projects);
    let kept = drop_folder(list, project.folder_path.as_str());
    let mut recent: Vec<RecentProject> = Vec::new();
    recent.push(project);
    let mut rest = kept;
    let ghost tail = rest@;
    let mut i: usize = 0;
    let mut reversed: Vec<RecentProject> = Vec::new();
    while rest.len() > 0
        invariant
            tail.len() == rest@.len() + reversed@.len(),
            forall|k: int| 0 <= k < rest@.len() ==> #[trigger] rest@[k] == tail[k],
            forall|k: int|
                0 <= k < reversed@.len() ==> #[trigger] reversed@[k] == tail[tail.len() - 1 - k],
        decreases rest@.len(),
    {
        let e = rest.pop().unwrap();
        reversed.push(e);
    }
    while reversed.len() > 0 && recent.len() < MAX_RECENT_PROJECTS
        invariant
            i + reversed@.len() == tail.len(),
            forall|k: int|
                0 <= k < reversed@.len() ==> #[trigger] reversed@[k] == tail[tail.len() - 1 - k],
            recent@ == seq![project] + tail.take(i as int),
            recent@.len() == i + 1,
            recent@.len() <= MAX_RECENT_PROJECTS,
        decreases reversed@.len(),
    {
        let e = reversed.pop().unwrap();
        proof {
            assert(e == tail[i as int]);
        }
        recent.push(e);
        i = i + 1;
        assert(recent@ =~= seq![project] + tail.take(i as int));
    }
    proof {
        let whole = seq![project] + tail;
        if whole.len() <= MAX_RECENT_PROJECTS {
            assert(i == tail.len());
            assert(tail.take(i as int) =~= tail);
        } else {
            assert(recent@ =~= whole.take(MAX_RECENT_PROJECTS as int));
        }
    }
    settings.recent_projects = recent;
}

/// Removes every recent entry for `folder_path`.
pub fn forget_project(settings: &mut Settings, folder_path: &str)
    ensures
        final(settings).recent_projects@ == without_folder(
            old(settings).recent_projects@,
            folder_path@,
        ),
        final(settings).version == old(settings).version,
        final(settings).theme == old(settings).theme,
        final(settings).game_root_path == old(settings).game_root_path,
        final(settings).mcp == old(settings).mcp,
{
    let mut list: Vec<RecentProject> = Vec::new();
    std::mem::swap(&mut list, &mut settings.recent_projects);
    settings.recent_projects = drop_folder(list, folder_path);
}

/// No two entries name the same folder.
pub open spec fn distinct_folders(recent: Seq<RecentProject>) -> bool {
    forall|i: int, j: int|
        0 <= i < j < recent.len() ==> !paths_match_spec(
            #[trigger] recent[i].folder_path@,
            #[trigger] recent[j].folder_path@,
        )
}

proof fn lemma_without_folder(recent: Seq<RecentProject>, folder: Seq<char>)
    ensures
        forall|k: int|
            0 <= k < without_folder(recent, folder).len() ==> !paths_match_spec(
                #[trigger] without_folder(recent, folder)[k].folder_path@,
                folder,
            ),
        forall|k: int|
            0 <= k < without_folder(recent, folder).len() ==> exists|j: int|
                0 <= j < recent.len() && #[trigger] without_folder(recent, folder)[k] == recent[j],
        distinct_folders(recent) ==> distinct_folders(without_folder(recent, folder)),
        forall|k: int, l: int|
            0 <= k < l < without_folder(recent, folder).len() ==> exists|a: int, b: int|
                0 <= a < b < recent.len() && #[trigger] without_folder(recent, folder)[k]
                    == recent[a] && #[trigger] without_folder(recent, folder)[l] == recent[b],
    decreases recent.len(),
{
    if recent.len() > 0 {
        let d = recent.drop_last();
        lemma_without_folder(d, folder);
        let w = without_folder(recent, folder);
        let wd = without_folder(d, folder);
        assert forall|k: int| 0 <= k < w.len() implies exists|j: int|
            0 <= j < recent.len() && #[trigger] w[k] == recent[j] by {
            if k < wd.len() {
                let j = choose|j: int| 0 <= j < d.len() && wd[k] == d[j];
                assert(recent[j] == d[j]);
            } else {
                assert(w[k] == recent[recent.len() - 1]);
            }
        }
        assert forall|k: int, l: int| 0 <= k < l < w.len() implies exists|a: int, b: int|
            0 <= a < b < recent.len() && #[trigger] w[k] == recent[a] && #[trigger] w[l]
                == recent[b] by {
            if l < wd.len() {
                let (a, b) = choose|a: int, b: int|
                    0 <= a < b < d.len() && wd[k] == d[a] && wd[l] == d[b];
                assert(recent[a] == d[a] && recent[b] == d[b]);
            } else {
                let a = choose|a: int| 0 <= a < d.len() && wd[k] == d[a];
                assert(recent[a] == d[a]);
                assert(w[l] == recent[recent.len() - 1]);
            }
        }
        if distinct_folders(recent) {
            assert(distinct_folders(d)) by {
                assert forall|i: int, j: int| 0 <= i < j < d.len() implies !paths_match_spec(
                    #[trigger] d[i].folder_path@,
                    #[trigger] d[j].folder_path@,
                ) by {
                    assert(d[i] == recent[i] && d[j] == recent[j]);
                }
            }
            assert forall|i: int, j: int| 0 <= i < j < w.len() implies !paths_match_spec(
                #[trigger] w[i].folder_path@,
                #[trigger] w[j].folder_path@,
            ) by {
                let (a, b) = choose|a: int, b: int|
                    0 <= a < b < recent.len() && w[i] == recent[a] && w[j] == recent[b];
            }
        }
    }
}

/// Law: remembering a project puts it first, keeps at most
/// `MAX_RECENT_PROJECTS` entries, and never lists a folder twice when the
/// list did not before: folders are compared ignoring case, separators and
/// a trailing slash.
pub proof fn law_remember_keeps_folders_distinct(
    recent: Seq<RecentProject>,
    project: RecentProject,
)
    requires
        distinct_folders(recent),
    ensures
        distinct_folders(
            cap(seq![project] + without_folder(recent, project.folder_path@), MAX_RECENT_PROJECTS as int),
        ),
        cap(seq![project] + without_folder(recent, project.folder_path@), MAX_RECENT_PROJECTS as int)[0]
            == project,
        cap(seq![project] + without_folder(recent, project.folder_path@), MAX_RECENT_PROJECTS as int).len()
            <= MAX_RECENT_PROJECTS,
{
    lemma_without_folder(recent, project.folder_path@);
    let w = without_folder(recent, project.folder_path@);
    let whole = seq![project] + w;
    assert forall|i: int, j: int| 0 <= i < j < whole.len() implies !paths_match_spec(
        #[trigger] whole[i].folder_path@,
        #[trigger] whole[j].folder_path@,
    ) by {
        if i == 0 {
            assert(whole[j] == w[j - 1]);
        } else {
            assert(whole[i] == w[i - 1] && whole[j] == w[j - 1]);
        }
    }
    let c = cap(whole, MAX_RECENT_PROJECTS as int);
    assert forall|i: int, j: int| 0 <= i < j < c.len() implies !paths_match_spec(
        #[trigger] c[i].folder_path@,
        #[trigger] c[j].folder_path@,
    ) by {
        assert(c[i] == whole[i] && c[j] == whole[j]);
    }
}

/// Law: after forgetting a folder no entry names it, however it was spelled.
pub proof fn law_forgotten_folder_is_gone(recent: Seq<RecentProject>, folder: Seq<char>)
    ensures
        forall|k: int|
            0 <= k < without_folder(recent, folder).len() ==> !paths_match_spec(
                #[trigger] without_folder(recent, folder)[k].folder_path@,
                folder,
            ),
{
    lemma_without_folder(recent, folder);
}

} // verus!
