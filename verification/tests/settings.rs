use hoi4ms::settings::{
    forget_project, new_token, paths_match, remember_project, settle, Found, RecentProject,
    Settings, DEFAULT_MCP_PORT, MAX_RECENT_PROJECTS,
};

fn project(folder: &str) -> RecentProject {
    RecentProject {
        mod_file_path: format!("{folder}.mod"),
        folder_path: folder.to_string(),
        display_name: folder.to_string(),
        image_path: String::new(),
        last_opened: 0,
    }
}

#[test]
fn recent_projects_are_deduplicated_case_insensitively() {
    let mut settings = Settings::default();
    remember_project(&mut settings, project("C:/mods/Alpha"));
    remember_project(&mut settings, project("C:/mods/Beta"));
    remember_project(&mut settings, project("c:\\mods\\alpha\\"));

    assert_eq!(settings.recent_projects.len(), 2);
    assert_eq!(settings.recent_projects[0].folder_path, "c:\\mods\\alpha\\");
}

#[test]
fn recent_projects_are_capped() {
    let mut settings = Settings::default();
    for index in 0..(MAX_RECENT_PROJECTS + 5) {
        remember_project(&mut settings, project(&format!("C:/mods/{index}")));
    }

    assert_eq!(settings.recent_projects.len(), MAX_RECENT_PROJECTS);
}

#[test]
fn forgetting_removes_the_entry() {
    let mut settings = Settings::default();
    remember_project(&mut settings, project("C:/mods/Alpha"));
    forget_project(&mut settings, "C:/MODS/ALPHA");

    assert!(settings.recent_projects.is_empty());
}

#[test]
fn the_newest_project_comes_first_and_the_oldest_falls_off() {
    let mut settings = Settings::default();
    for index in 0..(MAX_RECENT_PROJECTS + 1) {
        remember_project(&mut settings, project(&format!("C:/mods/{index}")));
    }

    assert_eq!(settings.recent_projects[0].folder_path, format!("C:/mods/{MAX_RECENT_PROJECTS}"));
    assert!(settings.recent_projects.iter().all(|p| p.folder_path != "C:/mods/0"));
}

#[test]
fn trailing_separators_and_case_do_not_split_a_folder() {
    assert!(paths_match("C:\\Mods\\Alpha\\", "c:/mods/alpha"));
    assert!(!paths_match("C:/mods/alpha", "C:/mods/alphabet"));
}

#[test]
fn a_token_is_thirty_two_hex_digits() {
    let token = new_token();
    assert_eq!(token.len(), 32);
    assert!(token.chars().all(|c| c.is_ascii_hexdigit()));
}

#[test]
fn default_settings_use_the_system_theme() {
    let settings = Settings::default();
    assert_eq!(settings.theme, "system");
    assert!(settings.mcp.enabled);
    assert_eq!(settings.mcp.port, hoi4ms::settings::DEFAULT_MCP_PORT);
}

#[test]
fn a_first_launch_gets_the_defaults_and_writes_them() {
    let (settings, write) = settle(Found::Fresh, "abc".to_string());
    assert!(write);
    assert_eq!(settings.theme, "system");
    assert_eq!(settings.mcp.port, DEFAULT_MCP_PORT);
    assert_eq!(settings.mcp.token, "abc");
}

#[test]
fn a_file_without_a_token_keeps_everything_and_gains_one() {
    let mut found = Settings::default();
    found.game_root_path = "C:/Games/HOI4".to_string();
    remember_project(&mut found, project("C:/mods/Alpha"));
    found.mcp.port = 5000;

    let (settings, write) = settle(Found::Parsed(found), "fresh".to_string());
    assert!(write);
    assert_eq!(settings.game_root_path, "C:/Games/HOI4");
    assert_eq!(settings.recent_projects.len(), 1);
    assert_eq!(settings.mcp.port, 5000);
    assert_eq!(settings.mcp.token, "fresh");
}

#[test]
fn a_file_with_a_token_is_used_as_it_is() {
    let mut found = Settings::default();
    found.mcp.token = "kept".to_string();
    let (settings, write) = settle(Found::Parsed(found), "unused".to_string());
    assert!(!write);
    assert_eq!(settings.mcp.token, "kept");
}

#[test]
fn a_damaged_file_is_not_overwritten() {
    let (settings, write) = settle(Found::Damaged, "session".to_string());
    assert!(!write);
    assert_eq!(settings.mcp.token, "session");
    assert!(settings.recent_projects.is_empty());
}
