use hoi4ms::mcp::{detail, excerpt, same_token, within, Scope, DETAIL_EXCERPT};
use hoi4ms::project::{normalise_path, ModProject};

fn scope(folder: &str, game: &str) -> Scope {
    Scope {
        project: ModProject {
            mod_file_path: format!("{folder}.mod"),
            folder_path: folder.to_string(),
            name: "Test".to_string(),
            version: String::new(),
            supported_version: String::new(),
            tags: Vec::new(),
            image_path: String::new(),
            replace_paths: Vec::new(),
        },
        game_root: game.to_string(),
    }
}

#[test]
fn relative_paths_resolve_inside_the_mod() {
    let scope = scope("C:/mods/alpha", "D:/game");

    let path = scope
        .write_path("common/national_focus/a.txt")
        .expect("inside");

    assert_eq!(
        normalise_path(&path),
        "C:/mods/alpha/common/national_focus/a.txt"
    );
}

#[test]
fn dot_dot_cannot_climb_out_of_the_mod() {
    let scope = scope("C:/mods/alpha", "D:/game");

    assert!(scope.write_path("../beta/descriptor.mod").is_err());
    assert!(scope.write_path("common/../../../Windows/win.ini").is_err());
    // Climbing out and back in is still inside.
    assert!(scope.write_path("common/../common/a.txt").is_ok());
}

#[test]
fn the_game_folder_can_be_read_but_never_written() {
    let scope = scope("C:/mods/alpha", "D:/game");

    assert!(scope
        .read_path("D:/game/common/countries/colors.txt")
        .is_ok());
    assert!(scope
        .write_path("D:/game/common/countries/colors.txt")
        .is_err());
}

#[test]
fn anywhere_else_is_refused_even_to_read() {
    let scope = scope("C:/mods/alpha", "D:/game");

    assert!(scope.read_path("C:/mods/beta/a.txt").is_err());
    assert!(
        scope.read_path("C:/mods/alphabet/a.txt").is_err(),
        "a sibling sharing a prefix is not inside"
    );
    assert!(scope.read_path("").is_err());
}

#[test]
fn an_unset_game_folder_grants_nothing_extra() {
    let scope = scope("C:/mods/alpha", "");

    assert!(scope.read_path("D:/anything/at/all.txt").is_err());
}

#[test]
fn paths_match_regardless_of_case_and_separators() {
    assert!(within("C:/Mods/Alpha", "c:\\mods\\alpha\\common\\a.txt"));
    assert!(within("C:/mods/alpha/", "C:/mods/alpha"));
}

#[test]
fn token_comparison_needs_an_exact_match() {
    assert!(same_token("abc123", "abc123"));
    assert!(!same_token("abc124", "abc123"));
    assert!(!same_token("abc12", "abc123"));
    assert!(!same_token("", "abc123"));
}

#[test]
fn excerpts_cut_on_a_character_boundary() {
    // Two bytes per character, so the byte limit lands mid-character.
    let long = "é".repeat(DETAIL_EXCERPT);

    let cut = excerpt(&long);

    assert!(cut.ends_with("more bytes)"));
    assert_eq!(
        cut.chars().filter(|c| *c == 'é').count(),
        DETAIL_EXCERPT / 2
    );
    assert!(excerpt("short").eq("short"));
}

#[test]
fn an_excerpt_counts_the_bytes_left_out() {
    let long = "é".repeat(DETAIL_EXCERPT);
    let cut = excerpt(&long);
    let expected = format!("{}\u{2026} ({} more bytes)", "é".repeat(300), 2 * DETAIL_EXCERPT - 600);
    assert_eq!(cut, expected);
}

#[test]
fn the_detail_shows_the_arguments_and_the_result() {
    assert_eq!(detail(None, None), "arguments: {}");
    assert_eq!(
        detail(Some("{\"path\":\"a\"}"), Some("done")),
        "arguments: {\"path\":\"a\"}\n\nresult: done"
    );
}

#[test]
fn a_relative_path_from_a_root_keeps_the_drive() {
    let scope = scope("C:/mods/alpha", "");
    assert_eq!(
        scope.candidate("/elsewhere/a.txt").expect("a path"),
        "C:/elsewhere/a.txt"
    );
    assert_eq!(scope.candidate("  ").unwrap_err(), "a path is required");
}

#[test]
fn a_refusal_names_the_path_as_given() {
    let scope = scope("C:/mods/alpha", "D:/game");
    assert_eq!(
        scope.write_path("D:/game/a.txt").unwrap_err(),
        "D:/game/a.txt is outside the mod folder; only the mod's own files can be written"
    );
    assert_eq!(
        scope.read_path("E:/a.txt").unwrap_err(),
        "E:/a.txt is outside the mod folder and the game folder; only those can be read"
    );
}

fn scanned(relative_path: &str, extension: &str) -> hoi4ms::project::ProjectFile {
    hoi4ms::project::ProjectFile {
        full_path: format!("C:/mods/m/{relative_path}"),
        relative_path: relative_path.to_string(),
        name: relative_path.rsplit('/').next().unwrap_or_default().to_string(),
        extension: extension.to_string(),
        size_bytes: relative_path.len() as u64,
        modified_ms: 0,
        kind: hoi4ms::project::FileKind::Text,
    }
}

#[test]
fn a_listing_keeps_the_folder_and_extension_asked_for() {
    let files = vec![
        scanned("common/national_focus/a.txt", "txt"),
        scanned("common/national_focus_extra/b.txt", "txt"),
        scanned("Common/National_Focus/C.yml", "yml"),
        scanned("events/x.txt", "txt"),
    ];

    let listed = hoi4ms::mcp::listed_files(&files, " \\common\\national_focus/ ", ".TXT");
    assert_eq!(listed.len(), 1);
    assert_eq!(listed[0].relative_path, "common/national_focus/a.txt");
    assert_eq!(listed[0].size_bytes, 27);

    let in_folder = hoi4ms::mcp::listed_files(&files, "common/national_focus", "");
    assert_eq!(in_folder.len(), 2);
    assert_eq!(in_folder[1].relative_path, "Common/National_Focus/C.yml");

    assert_eq!(hoi4ms::mcp::listed_files(&files, "", "").len(), 4);
    assert_eq!(hoi4ms::mcp::listed_files(&files, "events/x.txt", "").len(), 1);
}
