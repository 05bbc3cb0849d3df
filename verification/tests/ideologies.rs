use hoi4ms::ideologies::{
    add_source, delete_source, parse, update_source, Ideology, IdeologyFile, IdeologyUpdate, Rule,
    SubIdeology,
};

/// Two ideologies the way a mod writes them: empty sub-ideology braces,
/// a commented-out menu of modifiers, and a trailing comment on the id.
const FILE: &str = "ideologies = {\n\tanarchism = {\t#no state\n\t\tcolor = { 0 0 0 }\n\t\ttypes = {\n\t\t\tanarchism_ideology = {}\n\t\t\tanarchy = {\n\t\t\t\tcan_be_randomly_selected = no\n\t\t\t}\n\t\t}\n\n\t\tdynamic_faction_names = {\n\t\t\t\"FACTION_NAME_ANARCHISM_1\"\n\t\t\t\"FACTION_NAME_ANARCHISM_2\"\n\t\t}\n\n\t\trules = {\n\t\t\tcan_force_government = no\n\t\t\tcan_puppet = no # never\n\t\t}\n\n\t\tmodifiers = {\n\t\t\t#generate_wargoal_tension = \n\t\t\t#join_faction_tension = \n\t\t}\n\n\t\tfaction_modifiers  = {}\n\n\t\twar_impact_on_world_tension = 1\n\t\tfaction_impact_on_world_tension = 1\n\n\t\tcan_host_government_in_exile = no\n\t\tcan_be_boosted = no\n\t}\n\n\tdemocratic = {\n\t\ttypes = {\n\t\t\tconservatism = {\n\t\t\t}\n\t\t\tliberalism = {\n\t\t\t}\n\t\t}\n\t\tcolor = { 0 0 255 }\n\t\trules = {\n\t\t\tcan_force_government = yes\n\t\t}\n\t\twar_impact_on_world_tension = 0.25\t\t# no major danger\n\t\tfaction_impact_on_world_tension = 0.1\n\t\tmodifiers = {\n\t\t\tgenerate_wargoal_tension = 1.00\n\t\t}\n\t\tai_democratic = yes # uses the democratic AI behaviour\n\t\tai_ideology_wanted_units_factor = 1.10\n\t}\n}\n";

fn parsed(source: &str) -> IdeologyFile {
    parse("(test)", source, false, false).expect("parses")
}

fn update_from(ideology: &Ideology) -> IdeologyUpdate {
    IdeologyUpdate {
        id: ideology.id.clone(),
        color: ideology.color.clone(),
        types: ideology.types.clone(),
        dynamic_faction_names: ideology.dynamic_faction_names.clone(),
        war_impact_on_world_tension: ideology.war_impact_on_world_tension.clone(),
        faction_impact_on_world_tension: ideology.faction_impact_on_world_tension.clone(),
        can_host_government_in_exile: ideology.can_host_government_in_exile.clone(),
        can_be_boosted: ideology.can_be_boosted.clone(),
        can_collaborate: ideology.can_collaborate.clone(),
        ai_behaviour: ideology.ai_behaviour.clone(),
        ai_ideology_wanted_units_factor: ideology.ai_ideology_wanted_units_factor.clone(),
        rules: ideology.rules.clone(),
        modifiers: ideology.modifiers.clone(),
        faction_modifiers: ideology.faction_modifiers.clone(),
    }
}

#[test]
fn reads_every_field() {
    let file = parsed(FILE);
    assert_eq!(file.ideologies.len(), 2);

    let anarchism = &file.ideologies[0];
    assert_eq!(anarchism.id, "anarchism");
    assert_eq!(anarchism.line, 2);
    assert_eq!(anarchism.color, "0 0 0");
    assert_eq!(anarchism.types.len(), 2);
    assert_eq!(anarchism.types[0].id, "anarchism_ideology");
    assert_eq!(anarchism.types[0].can_be_randomly_selected, "");
    assert_eq!(anarchism.types[1].can_be_randomly_selected, "no");
    assert_eq!(
        anarchism.dynamic_faction_names,
        vec!["FACTION_NAME_ANARCHISM_1", "FACTION_NAME_ANARCHISM_2"]
    );
    assert_eq!(anarchism.rules.len(), 2);
    assert_eq!(anarchism.rules[1].key, "can_puppet");
    assert_eq!(anarchism.rules[1].value, "no");
    assert_eq!(
        anarchism.modifiers,
        "#generate_wargoal_tension =\n#join_faction_tension ="
    );
    assert_eq!(anarchism.faction_modifiers, "");
    assert_eq!(anarchism.war_impact_on_world_tension, "1");
    assert_eq!(anarchism.can_be_boosted, "no");
    assert_eq!(anarchism.ai_behaviour, "");

    let democratic = &file.ideologies[1];
    assert_eq!(democratic.ai_behaviour, "democratic");
    assert_eq!(democratic.ai_ideology_wanted_units_factor, "1.10");
    assert_eq!(democratic.war_impact_on_world_tension, "0.25");
    assert_eq!(democratic.modifiers, "generate_wargoal_tension = 1.00");
}

#[test]
fn ideologies_a_no_op_save_changes_nothing() {
    let file = parsed(FILE);
    for ideology in &file.ideologies {
        let text = update_source("(test)", FILE, &ideology.id, &update_from(ideology))
            .expect("updates");
        assert_eq!(text, FILE, "{} was rewritten", ideology.id);
    }
}

#[test]
fn edits_fields_in_place_and_keeps_comments() {
    let file = parsed(FILE);
    let mut change = update_from(&file.ideologies[0]);
    change.color = "10 20 30".into();
    change.war_impact_on_world_tension = "0.5".into();
    change.can_be_boosted = "yes".into();
    change.can_collaborate = "no".into();
    change.rules[1].value = "yes".into();
    change.types[1].can_be_randomly_selected = String::new();

    let text = update_source("(test)", FILE, "anarchism", &change).expect("updates");

    assert!(text.contains("\t\tcolor = { 10 20 30 }\n"), "{text}");
    assert!(
        text.contains("war_impact_on_world_tension = 0.5\n"),
        "{text}"
    );
    assert!(text.contains("can_be_boosted = yes\n"), "{text}");
    assert!(text.contains("\t\tcan_collaborate = no\n"), "{text}");
    assert!(
        text.contains("can_puppet = yes # never"),
        "rule comment lost:\n{text}"
    );
    assert!(text.contains("#no state"), "{text}");
    assert!(
        text.contains("#generate_wargoal_tension = \n"),
        "modifier menu lost:\n{text}"
    );
    assert!(!text.contains("can_be_randomly_selected"), "{text}");
    assert!(text.contains("\t\t\tanarchy = {\n\t\t\t}\n"), "{text}");
    assert!(
        text.contains("# no major danger"),
        "other ideology touched:\n{text}"
    );
}

#[test]
fn sub_ideologies_rules_and_names_are_keyed() {
    let file = parsed(FILE);
    let mut change = update_from(&file.ideologies[1]);
    change.types.push(SubIdeology {
        id: "socialism".into(),
        can_be_randomly_selected: "no".into(),
    });
    change.types.remove(0);
    change.rules.push(Rule {
        key: "can_puppet".into(),
        value: "no".into(),
    });
    change.rules.remove(0);
    change.dynamic_faction_names = vec!["FACTION_NAME_DEMOCRATIC_1".into()];
    change.ai_behaviour = "neutral".into();

    let text = update_source("(test)", FILE, "democratic", &change).expect("updates");
    let democratic = &parsed(&text).ideologies[1];
    assert_eq!(
        democratic
            .types
            .iter()
            .map(|sub| sub.id.as_str())
            .collect::<Vec<_>>(),
        vec!["liberalism", "socialism"]
    );
    assert_eq!(democratic.types[1].can_be_randomly_selected, "no");
    assert_eq!(democratic.rules.len(), 1);
    assert_eq!(democratic.rules[0].key, "can_puppet");
    assert_eq!(
        democratic.dynamic_faction_names,
        vec!["FACTION_NAME_DEMOCRATIC_1"]
    );
    assert_eq!(democratic.ai_behaviour, "neutral");
    assert!(!text.contains("ai_democratic"), "{text}");
    assert!(text.contains("\t\tai_neutral = yes\n"), "{text}");
    assert!(
        text.contains("\t\t\tsocialism = { can_be_randomly_selected = no }\n"),
        "{text}"
    );
    assert!(
        text.contains(
            "\t\tdynamic_faction_names = {\n\t\t\t\"FACTION_NAME_DEMOCRATIC_1\"\n\t\t}\n"
        ),
        "{text}"
    );
}

#[test]
fn a_colour_spelled_differently_is_left_alone() {
    let source = "ideologies = {\n\tx = {\n\t\tcolor = {  12   34 56  }\n\t}\n}\n";
    let file = parsed(source);
    assert_eq!(file.ideologies[0].color, "12   34 56");

    let mut change = update_from(&file.ideologies[0]);
    change.color = "12 34 56".into();
    assert_eq!(
        update_source("(test)", source, "x", &change).expect("updates"),
        source
    );
}

#[test]
fn ideologies_renames_the_block_key() {
    let file = parsed(FILE);
    let mut change = update_from(&file.ideologies[0]);
    change.id = "anarchy_group".into();

    let text = update_source("(test)", FILE, "anarchism", &change).expect("updates");
    let reread = parsed(&text);
    assert_eq!(reread.ideologies[0].id, "anarchy_group");
    assert!(text.contains("\tanarchy_group = {\t#no state\n"), "{text}");

    let mut clash = update_from(&reread.ideologies[0]);
    clash.id = "democratic".into();
    assert!(update_source("(test)", &text, "anarchy_group", &clash).is_err());
}

#[test]
fn adds_and_deletes_an_ideology() {
    let added = add_source(
        "(test)",
        FILE,
        &IdeologyUpdate {
            id: "monarchism".into(),
            color: "200 160 40".into(),
            types: vec![SubIdeology {
                id: "absolute_monarchism".into(),
                can_be_randomly_selected: String::new(),
            }],
            dynamic_faction_names: vec!["FACTION_NAME_MONARCHISM_1".into()],
            war_impact_on_world_tension: "0.5".into(),
            faction_impact_on_world_tension: "0.5".into(),
            can_host_government_in_exile: "yes".into(),
            ai_behaviour: "neutral".into(),
            rules: vec![Rule {
                key: "can_puppet".into(),
                value: "yes".into(),
            }],
            modifiers: "generate_wargoal_tension = 0.5".into(),
            ..IdeologyUpdate::default()
        },
    )
    .expect("adds");

    let reread = parsed(&added);
    assert_eq!(reread.ideologies.len(), 3);
    let monarchism = &reread.ideologies[2];
    assert_eq!(monarchism.id, "monarchism");
    assert_eq!(monarchism.color, "200 160 40");
    assert_eq!(monarchism.types[0].id, "absolute_monarchism");
    assert_eq!(monarchism.rules[0].key, "can_puppet");
    assert_eq!(monarchism.ai_behaviour, "neutral");
    assert!(
        added.contains("#no state"),
        "the rest was disturbed:\n{added}"
    );
    assert!(
        added.contains("\n\tmonarchism = {\n\t\tcolor = { 200 160 40 }\n\t\ttypes = {\n\t\t\tabsolute_monarchism = { }\n\t\t}\n\t\tdynamic_faction_names = {\n\t\t\t\"FACTION_NAME_MONARCHISM_1\"\n\t\t}\n\t\trules = {\n\t\t\tcan_puppet = yes\n\t\t}\n\t\tmodifiers = { generate_wargoal_tension = 0.5 }\n\t\twar_impact_on_world_tension = 0.5\n"),
        "{added}"
    );

    let deleted = delete_source("(test)", &added, "anarchism").expect("deletes");
    let reread = parsed(&deleted);
    assert_eq!(reread.ideologies.len(), 2);
    assert!(!deleted.contains("anarchism = {"), "{deleted}");
    assert!(deleted.contains("monarchism"), "{deleted}");
}

#[test]
fn refuses_bad_ids_and_behaviours() {
    let file = parsed(FILE);
    let mut change = update_from(&file.ideologies[0]);
    change.id = "two words".into();
    assert!(update_source("(test)", FILE, "anarchism", &change).is_err());

    let mut change = update_from(&file.ideologies[0]);
    change.types[0].id = String::new();
    assert!(update_source("(test)", FILE, "anarchism", &change).is_err());

    let mut change = update_from(&file.ideologies[0]);
    change.ai_behaviour = "monarchist".into();
    assert!(update_source("(test)", FILE, "anarchism", &change).is_err());
}
