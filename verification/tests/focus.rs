use hoi4ms::text_file::{decode, encode};
use hoi4ms::focus::{add_source, delete_source, parse, update_source, FocusFile, FocusUpdate};

const TREE: &str = "focus_tree = {\n\tid = test_tree\n\tcountry = {\n\t\tfactor = 0\n\t}\n\n\tfocus = {\n\t\tid = alpha\n\t\ticon = GFX_goal_a\n\t\tx = 0\n\t\ty = 0\n\t\tcost = 10\n\t\tcompletion_reward = {\n\t\t\tadd_political_power = 100\n\t\t}\n\t}\n\n\tfocus = {\n\t\tid = beta\n\t\ticon = GFX_goal_b\n\t\tx = 2\n\t\ty = 1\n\t\tcost = 5\n\t\tprerequisite = { focus = alpha }\n\t\tmutually_exclusive = { focus = gamma }\n\t}\n}\n";

fn parsed(source: &str) -> FocusFile {
    parse("(test)", source, false, false).expect("parses")
}

#[test]
fn reads_a_tree_and_its_focuses() {
    let file = parsed(TREE);

    assert_eq!(file.trees.len(), 1);
    assert_eq!(file.trees[0].id, "test_tree");
    assert_eq!(file.trees[0].focus_count, 2);
    assert_eq!(file.focuses.len(), 2);

    let beta = &file.focuses[1];
    assert_eq!(beta.id, "beta");
    assert_eq!(beta.prerequisites, vec![vec!["alpha".to_string()]]);
    assert_eq!(beta.mutually_exclusive, vec!["gamma".to_string()]);
    assert_eq!(
        file.focuses[0].completion_reward,
        "add_political_power = 100"
    );
}

#[test]
fn updating_one_focus_leaves_the_other_untouched() {
    let mut change = FocusUpdate {
        id: "alpha".into(),
        icon: "GFX_goal_a".into(),
        x: "4".into(),
        y: "3".into(),
        cost: "7".into(),
        completion_reward: "add_political_power = 250".into(),
        ..Default::default()
    };
    change.prerequisites = vec![vec!["beta".into()]];

    let text = update_source("(test)", TREE, "alpha", &change).expect("updates");
    let file = parsed(&text);
    let alpha = file
        .focuses
        .iter()
        .find(|focus| focus.id == "alpha")
        .expect("alpha survives");

    assert_eq!(alpha.x, "4");
    assert_eq!(alpha.y, "3");
    assert_eq!(alpha.cost, "7");
    assert_eq!(alpha.prerequisites, vec![vec!["beta".to_string()]]);
    assert_eq!(alpha.completion_reward, "add_political_power = 250");

    let beta = file
        .focuses
        .iter()
        .find(|focus| focus.id == "beta")
        .expect("beta survives");
    assert_eq!(beta.cost, "5");
    assert_eq!(beta.mutually_exclusive, vec!["gamma".to_string()]);
}

#[test]
fn filling_in_several_missing_fields_writes_all_of_them() {
    let source = "focus_tree = {\n\tid = test_tree\n\tfocus = {\n\t\tid = alpha\n\t}\n}\n";
    let change = FocusUpdate {
        id: "alpha".into(),
        icon: "GFX_goal_a".into(),
        x: "3".into(),
        y: "4".into(),
        cost: "10".into(),
        completion_reward: "add_political_power = 60".into(),
        ..Default::default()
    };

    let text = update_source("(test)", source, "alpha", &change).expect("updates");
    let file = parsed(&text);
    let alpha = &file.focuses[0];

    assert_eq!(alpha.icon, "GFX_goal_a");
    assert_eq!(alpha.x, "3");
    assert_eq!(alpha.y, "4");
    assert_eq!(alpha.cost, "10");
    assert_eq!(alpha.completion_reward, "add_political_power = 60");
}

#[test]
fn leaves_an_unchanged_prerequisite_block_alone() {
    let source = "focus_tree = {\n\tid = test_tree\n\tfocus = {\n\t\tid = beta\n\t\tcost = 5\n\t\tprerequisite = {\n\t\t\t# the army branch\n\t\t\tfocus = alpha\n\t\t}\n\t}\n}\n";
    let file = parsed(source);
    let beta = file
        .focuses
        .iter()
        .find(|focus| focus.id == "beta")
        .expect("beta");

    let change = FocusUpdate {
        id: beta.id.clone(),
        cost: "9".into(),
        prerequisites: beta.prerequisites.clone(),
        ..Default::default()
    };
    let saved = update_source("(test)", source, "beta", &change).expect("updates");

    assert!(
        saved.contains("# the army branch"),
        "comment lost:\n{saved}"
    );
    assert!(saved.contains("cost = 9"));
}

#[test]
fn clearing_a_field_removes_it() {
    let change = FocusUpdate {
        id: "beta".into(),
        icon: "GFX_goal_b".into(),
        x: "2".into(),
        y: "1".into(),
        cost: "5".into(),
        ..Default::default()
    };

    let text = update_source("(test)", TREE, "beta", &change).expect("updates");
    let file = parsed(&text);
    let beta = file
        .focuses
        .iter()
        .find(|focus| focus.id == "beta")
        .expect("beta survives");

    assert!(beta.prerequisites.is_empty());
    assert!(beta.mutually_exclusive.is_empty());
}

#[test]
fn adds_and_deletes_a_focus() {
    let new_focus = FocusUpdate {
        id: "gamma".into(),
        icon: "GFX_goal_c".into(),
        x: "5".into(),
        y: "2".into(),
        cost: "10".into(),
        prerequisites: vec![vec!["beta".into()]],
        completion_reward: "add_stability = 0.05".into(),
        ..Default::default()
    };

    let added = add_source("(test)", TREE, "test_tree", &new_focus).expect("adds");
    let file = parsed(&added);
    assert_eq!(file.focuses.len(), 3);

    let gamma = file
        .focuses
        .iter()
        .find(|focus| focus.id == "gamma")
        .expect("gamma exists");
    assert_eq!(gamma.x, "5");
    assert_eq!(gamma.prerequisites, vec![vec!["beta".to_string()]]);
    assert_eq!(gamma.completion_reward, "add_stability = 0.05");

    let deleted = delete_source("(test)", &added, "gamma").expect("deletes");
    let after_delete = parsed(&deleted);
    assert_eq!(after_delete.focuses.len(), 2);
    assert!(after_delete.focuses.iter().all(|focus| focus.id != "gamma"));
}

#[test]
fn refuses_to_clear_an_id_on_update() {
    let change = FocusUpdate {
        id: "   ".into(),
        cost: "10".into(),
        ..Default::default()
    };

    let error = update_source("(test)", TREE, "alpha", &change).expect_err("an empty id is refused");
    assert!(error.text().contains("needs an id"));
}

#[test]
fn refuses_to_rename_onto_another_focus() {
    let change = FocusUpdate {
        id: "beta".into(),
        cost: "10".into(),
        ..Default::default()
    };

    let error = update_source("(test)", TREE, "alpha", &change).expect_err("a duplicate id is refused");
    assert!(error.text().contains("already exists"));
}

#[test]
fn keeping_the_same_id_is_not_a_collision() {
    let change = FocusUpdate {
        id: "alpha".into(),
        cost: "42".into(),
        ..Default::default()
    };

    let text = update_source("(test)", TREE, "alpha", &change).expect("updates");
    let file = parsed(&text);
    let alpha = file
        .focuses
        .iter()
        .find(|focus| focus.id == "alpha")
        .expect("alpha");
    assert_eq!(alpha.cost, "42");
}

#[test]
fn rejects_a_duplicate_id() {
    let duplicate = FocusUpdate {
        id: "alpha".into(),
        ..Default::default()
    };

    assert!(add_source("(test)", TREE, "test_tree", &duplicate).is_err());
}

#[test]
fn reads_shared_focuses() {
    let file = parsed("shared_focus = {\n\tid = shared_one\n\tx = 1\n\ty = 1\n\tcost = 10\n}\n");

    assert_eq!(file.focuses.len(), 1);
    assert!(file.focuses[0].shared);
    assert_eq!(file.focuses[0].id, "shared_one");
}

#[test]
fn a_new_focus_is_laid_out_inside_its_tree() {
    let source = "focus_tree = {\n\tid = t\n\tfocus = {\n\t\tid = a\n\t}\n}\n";
    let added = add_source(
        "(test)",
        source,
        "t",
        &FocusUpdate {
            id: "b".into(),
            cost: "5".into(),
            prerequisites: vec![vec!["a".into(), " ".into()]],
            ..Default::default()
        },
    )
    .expect("adds");
    assert_eq!(
        added,
        "focus_tree = {\n\tid = t\n\tfocus = {\n\t\tid = a\n\t}\n\tfocus = {\n\t\tid = b\n\t\tcost = 5\n\t\tprerequisite = { focus = a }\n\t}\n}\n"
    );
}

#[test]
fn a_focus_is_added_to_the_first_tree_when_none_has_the_id() {
    let source = "focus_tree = {\n\tid = first\n}\nfocus_tree = {\n\tid = second\n}\n";
    let added = add_source(
        "(test)",
        source,
        "missing",
        &FocusUpdate {
            id: "x".into(),
            ..Default::default()
        },
    )
    .expect("adds");
    let file = parsed(&added);
    assert_eq!(file.focuses.len(), 1);
    assert_eq!(file.focuses[0].tree_id, "first");

    let error = add_source("(test)", "", "t", &FocusUpdate { id: "x".into(), ..Default::default() })
        .expect_err("no tree");
    assert_eq!(error.text(), "(test) has no focus_tree to add a focus to");
    let error = add_source("(test)", source, "first", &FocusUpdate::default()).expect_err("no id");
    assert_eq!(error.text(), "a new focus needs an id");
}

#[test]
fn keeps_windows_1252_bytes_when_saving_a_focus() {
    // 0xE9 is `é` in Windows-1252 and not valid UTF-8 on its own.
    let stored: &[u8] = b"focus_tree = {\n\tid = t\n\tfocus = {\n\t\tid = caf\xE9_focus\n\t\tcost = 5\n\t}\n}\n";
    let (content, has_bom, is_legacy_encoding) = decode(stored);
    assert!(is_legacy_encoding);

    let change = FocusUpdate {
        id: "caf\u{E9}_focus".into(),
        cost: "7".into(),
        ..Default::default()
    };
    let updated = update_source("(test)", &content, "caf\u{E9}_focus", &change).expect("updates");
    let (bytes, _) = encode(&updated, is_legacy_encoding, has_bom);
    assert!(
        bytes.windows(2).any(|pair| pair == [0xE9, b'_']),
        "the Windows-1252 byte was re-encoded"
    );
}
