use hoi4ms::paradox::parse;
use hoi4ms::project::{
    choose_folder, classify, descriptor, is_skipped_name, normalise_path, resolve_project_folder, FolderChoice,
    resolves_against_parent, FileKind,
};

#[test]
fn resolves_a_descriptor_path_relative_to_the_user_directory() {
    let descriptor_directory = "C:/Users/x/Documents/Paradox Interactive/Hearts of Iron IV/mod";
    let folder = resolve_project_folder(descriptor_directory, "mod/my_mod");

    assert_eq!(
        normalise_path(&folder),
        "C:/Users/x/Documents/Paradox Interactive/Hearts of Iron IV/mod/my_mod"
    );
}

#[test]
fn resolves_a_descriptor_path_relative_to_itself() {
    let folder = resolve_project_folder("D:/projects", "my_mod");

    assert_eq!(normalise_path(&folder), "D:/projects/my_mod");
}

#[test]
fn falls_back_to_the_descriptor_folder_when_no_path_is_declared() {
    let folder = resolve_project_folder("D:/projects/my_mod", "");

    assert_eq!(normalise_path(&folder), "D:/projects/my_mod");
}

#[test]
fn classifies_extensions() {
    assert_eq!(classify("txt"), FileKind::Text);
    assert_eq!(classify("yml"), FileKind::Text);
    assert_eq!(classify("dds"), FileKind::Image);
    assert_eq!(classify("bin"), FileKind::Binary);
}

#[test]
fn the_first_segment_is_compared_ignoring_case_and_separators() {
    assert!(resolves_against_parent("MOD\\my_mod", "mod"));
    assert!(!resolves_against_parent("mods/my_mod", "mod"));
    assert!(resolves_against_parent("mod", "Mod"));
}

#[test]
fn tool_folders_are_skipped_in_any_case() {
    assert!(is_skipped_name(".Git"));
    assert!(is_skipped_name("Node_Modules"));
    assert!(!is_skipped_name("common"));
}

#[test]
fn a_descriptor_declares_its_fields() {
    let document = parse(
        "version=\"1.0\"\ntags={\n\t\"Gameplay\"\n\t\"Alternative History\"\n}\nname=\"My Mod\"\nreplace_path=\"common/national_focus\"\nreplace_path=\"history/states\"\nsupported_version=\"1.14.*\"\npath=\"mod/my_mod\"\npicture=\"thumbnail.png\"\n",
    )
    .expect("parses");

    let declared = descriptor(&document);

    assert_eq!(declared.name.as_deref(), Some("My Mod"));
    assert_eq!(declared.version, "1.0");
    assert_eq!(declared.supported_version, "1.14.*");
    assert_eq!(declared.tags, vec!["Gameplay".to_string(), "Alternative History".to_string()]);
    assert_eq!(
        declared.replace_paths,
        vec!["common/national_focus".to_string(), "history/states".to_string()]
    );
    assert_eq!(declared.path, "mod/my_mod");
    assert_eq!(declared.picture.as_deref(), Some("thumbnail.png"));
}

#[test]
fn a_bare_descriptor_declares_nothing() {
    let declared = descriptor(&parse("").expect("parses"));
    assert!(declared.name.is_none());
    assert_eq!(declared.path, "");
    assert!(declared.tags.is_empty());
}

#[test]
fn a_declared_path_under_the_user_directory_joins_onto_the_parent() {
    let choice = choose_folder(
        "C:/Users/x/Documents/Paradox Interactive/Hearts of Iron IV/mod",
        "mod/my_mod",
        false,
        "mod",
        Some("C:/Users/x/Documents/Paradox Interactive/Hearts of Iron IV".to_string()),
    );
    assert_eq!(
        choice,
        FolderChoice::Join(
            "C:/Users/x/Documents/Paradox Interactive/Hearts of Iron IV".to_string(),
            "mod/my_mod".to_string()
        )
    );
}

#[test]
fn another_relative_path_joins_onto_the_descriptor_folder() {
    let choice = choose_folder("D:/projects", "sub\\my_mod", false, "projects", Some("D:/".to_string()));
    assert_eq!(choice, FolderChoice::Join("D:/projects".to_string(), "sub/my_mod".to_string()));
}

#[test]
fn a_blank_or_absolute_path_is_not_joined() {
    assert_eq!(choose_folder("D:/projects", "  ", false, "projects", None), FolderChoice::Descriptor);
    assert_eq!(choose_folder("D:/projects", "/srv/my_mod", true, "projects", None), FolderChoice::Declared);
}

#[test]
fn a_folder_without_a_parent_is_its_own_base() {
    let choice = choose_folder("mod", "mod/my_mod", false, "mod", None);
    assert_eq!(choice, FolderChoice::Join("mod".to_string(), "mod/my_mod".to_string()));
}
