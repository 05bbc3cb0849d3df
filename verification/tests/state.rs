use hoi4ms::state::{defines_state, parse, update_source, State, StateFile, StateUpdate};

/// Taken from the shape the game ships, tabs and all.
const STATE: &str = "\nstate={\n\tid=1\n\tname=\"STATE_1\" # Corsica\n\tmanpower = 322900\n\t\n\tstate_category = town\n\n\thistory={\n\t\towner = FRA\n\t\tvictory_points = { 3838 1 }\n\t\tbuildings = {\n\t\t\tinfrastructure = 2\n\t\t\tindustrial_complex = 1\n\t\t\t3838 = {\n\t\t\t\tnaval_base = 3\n\t\t\t}\n\t\t}\n\t\tadd_core_of = COR\n\t\tadd_core_of = FRA\n\t}\n\n\tprovinces={\n\t\t3838 9851 11804 \n\t}\n\n\tlocal_supplies=0.0 \n}\n";

fn parsed(source: &str) -> StateFile {
    parse("(test)", source, false, false).expect("parses")
}

fn update_from(state: &State) -> StateUpdate {
    StateUpdate {
        id: state.id.clone(),
        name: state.name.clone(),
        manpower: state.manpower.clone(),
        state_category: state.state_category.clone(),
        local_supplies: state.local_supplies.clone(),
        buildings_max_level_factor: state.buildings_max_level_factor.clone(),
        provinces: state.provinces.clone(),
        resources: state.resources.clone(),
        owner: state.owner.clone(),
        controller: state.controller.clone(),
        cores: state.cores.clone(),
        claims: state.claims.clone(),
        buildings: state.buildings.clone(),
        victory_points: state.victory_points.clone(),
    }
}

#[test]
fn reads_a_state() {
    let file = parsed(STATE);

    assert_eq!(file.states.len(), 1);
    let state = &file.states[0];

    assert_eq!(state.id, "1");
    assert_eq!(state.name, "STATE_1");
    assert_eq!(state.manpower, "322900");
    assert_eq!(state.state_category, "town");
    assert_eq!(state.local_supplies, "0.0");
    assert_eq!(state.owner, "FRA");
    assert_eq!(state.cores, vec!["COR".to_string(), "FRA".to_string()]);
    assert_eq!(state.provinces, vec!["3838", "9851", "11804"]);
    assert_eq!(state.victory_points, vec!["3838 1".to_string()]);
    assert!(state.buildings.contains("infrastructure = 2"));
    assert!(state.buildings.contains("naval_base = 3"));
}

#[test]
fn edits_reach_both_levels_of_the_file() {
    let file = parsed(STATE);
    let mut change = update_from(&file.states[0]);
    change.manpower = "500000".into();
    change.owner = "ENG".into();

    let text = update_source("(test)", STATE, "1", &change, None).expect("updates");
    let saved = parsed(&text);
    let state = &saved.states[0];

    assert_eq!(state.manpower, "500000");
    assert_eq!(state.owner, "ENG");
    // Everything else is left as it was.
    assert_eq!(state.provinces, vec!["3838", "9851", "11804"]);
    assert!(state.buildings.contains("naval_base = 3"));
}

#[test]
fn untouched_fields_keep_their_formatting_and_comments() {
    let file = parsed(STATE);
    let mut change = update_from(&file.states[0]);
    change.manpower = "1".into();
    let saved = update_source("(test)", STATE, "1", &change, None).expect("updates");

    assert!(
        saved.contains("name=\"STATE_1\" # Corsica"),
        "comment lost:\n{saved}"
    );
    assert!(
        saved.contains("\t\t\t3838 = {"),
        "nested building lost:\n{saved}"
    );
    assert!(
        saved.contains("3838 9851 11804"),
        "province list reflowed:\n{saved}"
    );
}

#[test]
fn cores_are_added_and_removed() {
    let file = parsed(STATE);

    let mut change = update_from(&file.states[0]);
    change.cores = vec!["ENG".into()];
    let text = update_source("(test)", STATE, "1", &change, None).expect("updates");
    let saved = parsed(&text);
    assert_eq!(saved.states[0].cores, vec!["ENG".to_string()]);

    let mut grow = update_from(&saved.states[0]);
    grow.cores = vec!["ENG".into(), "SCO".into(), "WLS".into()];
    let text = update_source("(test)", &text, "1", &grow, None).expect("updates");
    let saved = parsed(&text);
    assert_eq!(
        saved.states[0].cores,
        vec!["ENG".to_string(), "SCO".to_string(), "WLS".to_string()]
    );
}

#[test]
fn rejects_an_empty_or_duplicate_id() {
    let file = parsed(STATE);

    let mut empty = update_from(&file.states[0]);
    empty.id = "  ".into();
    assert!(update_source("(test)", STATE, "1", &empty, None).is_err());
}

#[test]
fn adds_a_missing_scalar_and_a_missing_history_together() {
    // Both want to insert just before the closing brace, so a second
    // editor over the same block would silently drop one of them.
    let source = "state={\n\tid=7\n\tname=\"STATE_7\"\n}\n";
    let file = parsed(source);

    let mut change = update_from(&file.states[0]);
    change.manpower = "1000".into();
    change.state_category = "rural".into();
    change.owner = "ITA".into();

    let text = update_source("(test)", source, "7", &change, None).expect("updates");
    let saved = parsed(&text);
    let state = &saved.states[0];

    assert_eq!(state.manpower, "1000");
    assert_eq!(state.state_category, "rural");
    assert_eq!(state.owner, "ITA");
}

#[test]
fn a_new_history_block_carries_the_buildings_too() {
    let source = "state={\n\tid=11\n\tname=\"STATE_11\"\n}\n";
    let file = parsed(source);

    let mut change = update_from(&file.states[0]);
    change.owner = "SPR".into();
    change.buildings = "infrastructure = 3\narms_factory = 2".into();

    let text = update_source("(test)", source, "11", &change, None).expect("updates");
    let saved = parsed(&text);
    let state = &saved.states[0];

    assert_eq!(state.owner, "SPR");
    assert!(state.buildings.contains("infrastructure = 3"), "buildings dropped:\n{text}");
    assert!(state.buildings.contains("arms_factory = 2"));
}

#[test]
fn a_rename_onto_a_sibling_file_is_refused() {
    let first = "state={\n\tid=1\n\tname=\"STATE_1\"\n}\n";
    let second = "state={\n\tid=2\n\tname=\"STATE_2\"\n}\n";

    let file = parsed(first);
    let mut change = update_from(&file.states[0]);
    change.id = "2".into();

    // The caller looks through the other files of the folder for the new id.
    assert!(defines_state(second, "2"));
    let error = update_source("(test)", first, "1", &change, Some("2-two.txt")).expect_err("the id is taken");
    assert!(error.text().contains("2-two.txt"), "unexpected: {}", error.text());
}

#[test]
fn writes_a_history_block_when_the_state_has_none() {
    let source = "state={\n\tid=9\n\tname=\"STATE_9\"\n\tprovinces={\n\t\t42\n\t}\n}\n";
    let file = parsed(source);

    let mut change = update_from(&file.states[0]);
    change.owner = "GER".into();
    change.cores = vec!["GER".into()];

    let text = update_source("(test)", source, "9", &change, None).expect("updates");
    let saved = parsed(&text);
    assert_eq!(saved.states[0].owner, "GER");
    assert_eq!(saved.states[0].cores, vec!["GER".to_string()]);
}

#[test]
fn a_file_that_does_not_parse_defines_no_state() {
    // An unclosed block is tolerated, as the game tolerates it.
    assert!(defines_state("state = { id = 2", "2"));
    assert!(!defines_state("state = { id = 3 }", "2"));
    assert!(!defines_state("}", "2"));
}

#[test]
fn victory_points_are_set_by_position() {
    let file = parsed(STATE);
    let mut change = update_from(&file.states[0]);
    change.victory_points = vec!["3838   5".into(), "9851 1".into()];
    let text = update_source("(test)", STATE, "1", &change, None).expect("updates");
    assert!(text.contains("victory_points = { 3838 5 }"), "{text}");
    assert!(text.contains("victory_points = { 9851 1 }"), "{text}");
    let saved = parsed(&text);
    assert_eq!(saved.states[0].victory_points, vec!["3838 5".to_string(), "9851 1".to_string()]);
}
