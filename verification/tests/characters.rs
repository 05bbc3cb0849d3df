use hoi4ms::characters::{
    add_source, delete_source, parse, update_source, Advisor, Character, CharacterFile,
    CharacterUpdate, Commander, CountryLeader, Portraits,
};

/// Two characters the way a mod writes them: quoted portraits, a leader
/// with traits, an advisor with triggers, a commander with odd indentation.
const FILE: &str = "characters = {\n\tTST_leader = {\n\t\tname = TST_leader # the boss\n\t\tportraits = {\n\t\t\tcivilian = {\n\t\t\t\tlarge = \"GFX_portrait_TST_leader\"\n\t\t\t}\n\t\t}\n\t\tcountry_leader = {\n\t\t\tideology = fascism_ideology\n\t\t\ttraits = { dictator }\n\t\t\texpire = \"1965.1.1.1\"\n\t\t\tid = -1\n\t\t}\n\t}\n\n\tTST_general = {\n\t\tname = TST_general\n\t\tportraits = {\n\t\t\tarmy = {\n\t\t\t\tlarge = GFX_portrait_TST_general\n\t\t\t\tsmall = GFX_portrait_TST_general_small\n\t\t\t}\n\t\t}\n\t\tcorps_commander = {\n\t\ttraits = { trait_reckless }\n\t\tskill = 2\n\t    attack_skill = 2\n\t    defense_skill = 3\n\t    planning_skill = 1\n\t    logistics_skill = 2\n\t\t}\n\t\tadvisor = {\n\t\t\tslot = political_advisor\n\t\t\tidea_token = TST_general\n\t\t\tallowed = {\n\t\t\t\toriginal_tag = TST # only at home\n\t\t\t}\n\t\t\ttraits = {\n\t\t\t\tsilent_workhorse\n\t\t\t}\n\t\t}\n\t}\n}\n";

fn parsed(source: &str) -> CharacterFile {
    parse("(test)", source, false, false).expect("parses")
}

fn update_from(character: &Character) -> CharacterUpdate {
    CharacterUpdate {
        id: character.id.clone(),
        name: character.name.clone(),
        gender: character.gender.clone(),
        portraits: character.portraits.clone(),
        allowed_civil_war: character.allowed_civil_war.clone(),
        leaders: character.leaders.clone(),
        advisors: character.advisors.clone(),
        commanders: character.commanders.clone(),
    }
}

#[test]
fn reads_every_role_and_the_portraits() {
    let file = parsed(FILE);
    assert_eq!(file.characters.len(), 2);

    let leader = &file.characters[0];
    assert_eq!(leader.id, "TST_leader");
    assert_eq!(leader.name, "TST_leader");
    assert_eq!(leader.line, 2);
    assert_eq!(leader.portraits.civilian_large, "GFX_portrait_TST_leader");
    assert_eq!(leader.leaders.len(), 1);
    assert_eq!(leader.leaders[0].ideology, "fascism_ideology");
    assert_eq!(leader.leaders[0].traits, vec!["dictator"]);
    assert_eq!(leader.leaders[0].expire, "1965.1.1.1");
    assert!(leader.advisors.is_empty());
    assert!(leader.commanders.is_empty());

    let general = &file.characters[1];
    assert_eq!(
        general.portraits.army_small,
        "GFX_portrait_TST_general_small"
    );
    assert_eq!(general.commanders.len(), 1);
    assert_eq!(general.commanders[0].kind, "corps_commander");
    assert_eq!(general.commanders[0].defense_skill, "3");
    assert_eq!(general.commanders[0].traits, vec!["trait_reckless"]);
    assert_eq!(general.advisors.len(), 1);
    assert_eq!(general.advisors[0].slot, "political_advisor");
    assert_eq!(
        general.advisors[0].allowed,
        "original_tag = TST # only at home"
    );
    assert_eq!(general.advisors[0].traits, vec!["silent_workhorse"]);
}

#[test]
fn characters_a_no_op_save_changes_nothing() {
    let file = parsed(FILE);
    for character in &file.characters {
        let text = update_source("(test)", FILE, &character.id, &update_from(character))
            .expect("updates");
        assert_eq!(text, FILE, "{} was rewritten", character.id);
    }
}

#[test]
fn edits_a_role_field_in_place_and_keeps_its_neighbours() {
    let file = parsed(FILE);
    let mut change = update_from(&file.characters[1]);
    change.commanders[0].skill = "4".into();
    change.advisors[0].traits = vec!["silent_workhorse".into(), "TST_veteran".into()];

    let text = update_source("(test)", FILE, "TST_general", &change).expect("updates");

    assert!(text.contains("\t\tskill = 4\n"), "{text}");
    assert!(
        text.contains("\t    attack_skill = 2\n"),
        "odd indentation lost:\n{text}"
    );
    assert!(
        text.contains("original_tag = TST # only at home"),
        "trigger comment lost:\n{text}"
    );
    assert!(
        text.contains("traits = { silent_workhorse TST_veteran }"),
        "{text}"
    );
    assert!(
        text.contains("# the boss"),
        "other character touched:\n{text}"
    );
}

#[test]
fn expire_stays_quoted_and_unknown_keys_survive() {
    let file = parsed(FILE);
    let mut change = update_from(&file.characters[0]);
    change.leaders[0].expire = "1970.1.1.1".into();

    let text = update_source("(test)", FILE, "TST_leader", &change).expect("updates");

    assert!(text.contains("expire = \"1970.1.1.1\""), "{text}");
    assert!(text.contains("\t\t\tid = -1\n"), "{text}");
}

#[test]
fn roles_are_added_dropped_and_matched_by_position() {
    let file = parsed(FILE);
    let mut change = update_from(&file.characters[0]);
    change.leaders.push(CountryLeader {
        ideology: "democratic_ideology".into(),
        traits: vec![],
        expire: "1965.1.1.1".into(),
        desc: String::new(),
    });
    change.commanders.push(Commander {
        kind: "navy_leader".into(),
        skill: "3".into(),
        attack_skill: "2".into(),
        defense_skill: "2".into(),
        maneuvering_skill: "3".into(),
        coordination_skill: "1".into(),
        ..Commander::default()
    });

    let text = update_source("(test)", FILE, "TST_leader", &change).expect("updates");
    let reread = parsed(&text);
    let leader = &reread.characters[0];
    assert_eq!(leader.leaders.len(), 2);
    assert_eq!(leader.leaders[1].ideology, "democratic_ideology");
    assert_eq!(leader.leaders[1].expire, "1965.1.1.1");
    assert_eq!(leader.commanders.len(), 1);
    assert_eq!(leader.commanders[0].kind, "navy_leader");
    assert_eq!(leader.commanders[0].maneuvering_skill, "3");
    assert!(!text.contains("planning_skill = \n"), "{text}");

    // Roles are matched by position: with the first leader gone, the
    // first block takes the second's fields and the second block goes.
    let mut change = update_from(leader);
    change.leaders.remove(0);
    let text = update_source("(test)", &text, "TST_leader", &change).expect("updates");
    let leader = &parsed(&text).characters[0];
    assert_eq!(leader.leaders.len(), 1);
    assert_eq!(leader.leaders[0].ideology, "democratic_ideology");
    assert!(!text.contains("fascism_ideology"), "{text}");
}

#[test]
fn a_commander_that_changes_kind_swaps_its_skill_set() {
    let file = parsed(FILE);
    let mut change = update_from(&file.characters[1]);
    // Kinds are matched by key, so the corps_commander block goes and a
    // field_marshal block carrying the same skills is written.
    change.commanders[0].kind = "field_marshal".into();

    let text = update_source("(test)", FILE, "TST_general", &change).expect("updates");
    let general = &parsed(&text).characters[1];
    assert_eq!(general.commanders.len(), 1);
    assert_eq!(general.commanders[0].kind, "field_marshal");
    assert_eq!(general.commanders[0].planning_skill, "1");
    assert!(!text.contains("corps_commander"), "{text}");
}

#[test]
fn portraits_are_edited_group_by_group() {
    let file = parsed(FILE);
    let mut change = update_from(&file.characters[1]);
    change.portraits.army_small = String::new();
    change.portraits.navy_large = "GFX_portrait_TST_general_navy".into();

    let text = update_source("(test)", FILE, "TST_general", &change).expect("updates");
    let general = &parsed(&text).characters[1];
    assert_eq!(general.portraits.army_large, "GFX_portrait_TST_general");
    assert_eq!(general.portraits.army_small, "");
    assert_eq!(
        general.portraits.navy_large,
        "GFX_portrait_TST_general_navy"
    );

    // Clearing every picture drops the whole block.
    let mut change = update_from(general);
    change.portraits = Portraits::default();
    let text = update_source("(test)", &text, "TST_general", &change).expect("updates");
    let general = &parsed(&text).characters[1];
    assert_eq!(general.portraits, Portraits::default());
    assert_eq!(text.matches("portraits").count(), 1, "{text}");
    assert!(text.contains("corps_commander"), "{text}");
}

#[test]
fn characters_renames_the_block_key() {
    let file = parsed(FILE);
    let mut change = update_from(&file.characters[0]);
    change.id = "TST_fuhrer".into();

    let text = update_source("(test)", FILE, "TST_leader", &change).expect("updates");
    let reread = parsed(&text);
    assert_eq!(reread.characters[0].id, "TST_fuhrer");
    assert_eq!(reread.characters[0].name, "TST_leader");

    let mut clash = update_from(&reread.characters[0]);
    clash.id = "TST_general".into();
    assert!(update_source("(test)", &text, "TST_fuhrer", &clash).is_err());
}

#[test]
fn adds_and_deletes_a_character() {
    let added = add_source(
        "(test)",
        FILE,
        &CharacterUpdate {
            id: "TST_admiral".into(),
            name: "TST_admiral".into(),
            gender: "female".into(),
            portraits: Portraits {
                navy_large: "GFX_portrait_TST_admiral".into(),
                ..Portraits::default()
            },
            commanders: vec![Commander {
                kind: "navy_leader".into(),
                skill: "2".into(),
                attack_skill: "1".into(),
                defense_skill: "1".into(),
                maneuvering_skill: "2".into(),
                coordination_skill: "2".into(),
                traits: vec!["bold".into()],
                ..Commander::default()
            }],
            advisors: vec![Advisor {
                slot: "high_command".into(),
                idea_token: "TST_admiral".into(),
                allowed: "original_tag = TST".into(),
                traits: vec!["navy_capital_ship_1".into()],
                ..Advisor::default()
            }],
            ..CharacterUpdate::default()
        },
    )
    .expect("adds");

    let reread = parsed(&added);
    assert_eq!(reread.characters.len(), 3);
    let admiral = &reread.characters[2];
    assert_eq!(admiral.id, "TST_admiral");
    assert_eq!(admiral.gender, "female");
    assert_eq!(admiral.portraits.navy_large, "GFX_portrait_TST_admiral");
    assert_eq!(admiral.commanders[0].coordination_skill, "2");
    assert_eq!(admiral.advisors[0].allowed, "original_tag = TST");
    assert!(
        added.contains("# the boss"),
        "the rest was disturbed:\n{added}"
    );
    assert!(
        added.contains("original_tag = TST # only at home"),
        "{added}"
    );
    assert!(
        added.contains("\n\tTST_admiral = {\n\t\tname = TST_admiral\n"),
        "{added}"
    );
    assert!(
        added.contains("\n\t\tnavy_leader = {\n\t\t\tskill = 2\n"),
        "{added}"
    );

    let deleted = delete_source("(test)", &added, "TST_general").expect("deletes");
    let reread = parsed(&deleted);
    assert_eq!(reread.characters.len(), 2);
    assert!(!deleted.contains("TST_general"), "{deleted}");
    assert!(deleted.contains("TST_admiral"), "{deleted}");
}

#[test]
fn a_file_without_a_characters_block_gets_one() {
    let text = add_source(
        "(test)",
        "",
        &CharacterUpdate {
            id: "TST_new".into(),
            name: "TST_new".into(),
            ..CharacterUpdate::default()
        },
    )
    .expect("adds");

    assert_eq!(
        text,
        "characters = {\n\tTST_new = {\n\t\tname = TST_new\n\t}\n}\n"
    );
}

#[test]
fn an_instance_character_is_read_but_not_edited() {
    let source = "characters = {\n\tTST_dlc = {\n\t\tinstance = {\n\t\t\tallowed = { has_dlc = \"La Resistance\" }\n\t\t\tname = TST_dlc\n\t\t\tadvisor = {\n\t\t\t\tslot = political_advisor\n\t\t\t\tidea_token = TST_dlc\n\t\t\t}\n\t\t}\n\t\tinstance = {\n\t\t\tname = TST_dlc\n\t\t}\n\t}\n}\n";
    let file = parsed(source);
    let character = &file.characters[0];
    assert!(character.has_instances);
    assert_eq!(character.name, "TST_dlc");
    assert_eq!(character.advisors.len(), 1);

    let error = update_source("(test)", source, "TST_dlc", &update_from(character))
        .expect_err("refuses");
    assert!(error.text().contains("instance"), "{error:?}");

    // The code view can still drop it.
    assert_eq!(
        delete_source("(test)", source, "TST_dlc").expect("deletes"),
        "characters = {\n}\n"
    );
}

#[test]
fn refuses_ids_the_script_cannot_hold() {
    let file = parsed(FILE);
    let mut change = update_from(&file.characters[0]);
    change.id = "two words".into();
    assert!(update_source("(test)", FILE, "TST_leader", &change).is_err());

    let mut change = update_from(&file.characters[1]);
    change.commanders[0].kind = "general".into();
    assert!(update_source("(test)", FILE, "TST_general", &change).is_err());
}
