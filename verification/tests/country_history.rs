use hoi4ms::country_history::{
    parse, tag_of, update_source, CountryHistory, CountryHistoryUpdate, Popularity,
};

/// The shape the game ships, byte order mark aside.
const COUNTRY: &str = "capital = 126 #London\n\noob = \"ENG_1936\"\n\nset_research_slots = 4\nset_stability = 0.6\nset_war_support = 0.1\nset_convoys = 1000\n\nset_technology = {\n\tinfantry_weapons = 1\n}\n\nset_politics = {\n\truling_party = democratic\n\tlast_election = \"1935.11.14\"\n\telection_frequency = 48\n\telections_allowed = yes ##suspended during war\n}\n\nset_popularities = {\n\tdemocratic = 97\n\tfascism = 2\n\tcommunism = 1\n}\n\nif = {\n\tlimit = {\n\t\tNOT = { has_dlc = \"By Blood Alone\" }\n\t}\n\tset_technology = { early_fighter = 1 }\n}\n";

const PATH: &str = "(test)/ENG - Britain.txt";

fn read(source: &str) -> CountryHistory {
    parse(PATH, source, false, false).expect("reads")
}

fn update_from(country: &CountryHistory) -> CountryHistoryUpdate {
    CountryHistoryUpdate {
        capital: country.capital.clone(),
        oob: country.oob.clone(),
        research_slots: country.research_slots.clone(),
        convoys: country.convoys.clone(),
        stability: country.stability.clone(),
        war_support: country.war_support.clone(),
        politics: country.politics.clone(),
        popularities: country.popularities.clone(),
    }
}

#[test]
fn reads_the_fields_it_edits() {
    let country = read(COUNTRY);

    assert_eq!(country.tag, "ENG");
    assert_eq!(country.capital, "126");
    assert_eq!(country.oob, "ENG_1936");
    assert_eq!(country.research_slots, "4");
    assert_eq!(country.convoys, "1000");
    assert_eq!(country.stability, "0.6");
    assert_eq!(country.war_support, "0.1");
    assert_eq!(country.politics.ruling_party, "democratic");
    assert_eq!(country.politics.last_election, "1935.11.14");
    assert_eq!(country.politics.elections_allowed, "yes");
    assert_eq!(country.popularities.len(), 3);
    assert_eq!(country.popularities[0].ideology, "democratic");
    assert_eq!(country.popularities[0].value, "97");
}

#[test]
fn editing_one_field_leaves_the_rest_of_the_file_alone() {
    let country = read(COUNTRY);

    let mut change = update_from(&country);
    change.capital = "127".into();
    let text = update_source(PATH, COUNTRY, &change).expect("updates");
    let saved = read(&text);

    assert_eq!(saved.capital, "127");

    assert!(text.contains("#London"), "trailing comment lost:\n{text}");
    assert!(text.contains("##suspended during war"), "politics comment lost");
    assert!(text.contains("has_dlc = \"By Blood Alone\""), "if block disturbed");
    assert!(text.contains("infantry_weapons = 1"), "technology disturbed");
}

#[test]
fn politics_and_popularities_are_edited_in_place() {
    let country = read(COUNTRY);

    let mut change = update_from(&country);
    change.politics.ruling_party = "fascism".into();
    change.popularities = vec![
        Popularity { ideology: "democratic".into(), value: "20".into() },
        Popularity { ideology: "fascism".into(), value: "80".into() },
    ];

    let text = update_source(PATH, COUNTRY, &change).expect("updates");
    let saved = read(&text);

    assert_eq!(saved.politics.ruling_party, "fascism");
    assert_eq!(saved.popularities.len(), 2);
    assert_eq!(saved.popularities[1].value, "80");

    // The dropped ideology is gone, the kept comment is not.
    assert!(!text.contains("communism ="));
    assert!(text.contains("##suspended during war"));
}

#[test]
fn a_missing_field_is_appended() {
    let country = read("capital = 1\n");

    let mut change = update_from(&country);
    change.stability = "0.4".into();
    change.politics.ruling_party = "neutrality".into();

    let text = update_source(PATH, "capital = 1\n", &change).expect("updates");
    let saved = read(&text);
    assert_eq!(saved.stability, "0.4");
    assert_eq!(saved.politics.ruling_party, "neutrality");
}

#[test]
fn country_history_a_no_op_save_changes_nothing() {
    let country = read(COUNTRY);

    let text = update_source(PATH, COUNTRY, &update_from(&country)).expect("updates");

    assert_eq!(text, COUNTRY);
}

#[test]
fn a_tag_is_the_file_name_up_to_the_first_dash_or_space() {
    assert_eq!(tag_of("ENG - Britain"), "ENG");
    assert_eq!(tag_of("GER-Germany"), "GER");
    assert_eq!(tag_of("SOV"), "SOV");
    assert_eq!(tag_of(""), "");
}

#[test]
fn a_file_that_does_not_parse_is_refused_with_its_path() {
    let error = update_source(PATH, "= capital\n", &CountryHistoryUpdate::default()).unwrap_err();
    assert!(error.text().contains(PATH));
}

#[test]
fn cleared_popularities_drop_every_ideology() {
    let country = read(COUNTRY);
    let mut change = update_from(&country);
    change.popularities = Vec::new();
    let text = update_source(PATH, COUNTRY, &change).expect("updates");
    let saved = read(&text);
    assert!(saved.popularities.is_empty());
    assert!(!text.contains("democratic = 97"));
}
