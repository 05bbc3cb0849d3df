use hoi4ms::events::{
    add_source, delete_source, parse, update_source, Event, EventFile, EventOption, EventUpdate,
};

const FILE: &str = "add_namespace = tst\n\n# The first event\ncountry_event = {\n\tid = tst.1\n\ttitle = tst.1.t\n\tdesc = tst.1.d # plain\n\tdesc = {\n\t\ttext = tst.1.d.b\n\t\ttrigger = { has_government = fascism }\n\t}\n\tpicture = GFX_report_event_generic_sign_treaty\n\tis_triggered_only = yes\n\tfire_only_once = yes\n\n\ttrigger = {\n\t\ttag = TST\n\t}\n\n\timmediate = {\n\t\thidden_effect = { set_country_flag = tst_1_fired }\n\t}\n\n\toption = {\n\t\tname = tst.1.a\n\t\tai_chance = { factor = 80 }\n\t\tadd_political_power = 50 # a bribe\n\t}\n\toption = {\n\t\tname = tst.1.b # decline\n\t\ttrigger = { has_war = no }\n\t\tadd_stability = -0.05\n\t}\n}\n\nnews_event = {\n\tid = tst.2\n\ttitle = tst.2.t\n\tdesc = tst.2.d\n\tpicture = GFX_news_event_generic_army\n\tmajor = yes\n\tis_triggered_only = yes\n\n\toption = {\n\t\tname = tst.2.a\n\t}\n}\n";

fn parsed(source: &str) -> EventFile {
    parse("(test)", source, false, false).expect("parses")
}

fn update_from(event: &Event) -> EventUpdate {
    EventUpdate {
        kind: event.kind.clone(),
        id: event.id.clone(),
        titles: event.titles.clone(),
        descs: event.descs.clone(),
        picture: event.picture.clone(),
        fire_only_once: event.fire_only_once.clone(),
        is_triggered_only: event.is_triggered_only.clone(),
        hidden: event.hidden.clone(),
        major: event.major.clone(),
        timeout_days: event.timeout_days.clone(),
        trigger: event.trigger.clone(),
        mean_time_to_happen: event.mean_time_to_happen.clone(),
        immediate: event.immediate.clone(),
        options: event.options.clone(),
    }
}

#[test]
fn reads_the_namespace_the_events_and_their_options() {
    let file = parsed(FILE);
    assert_eq!(file.namespaces, vec!["tst"]);
    assert_eq!(file.events.len(), 2);

    let first = &file.events[0];
    assert_eq!(first.kind, "country_event");
    assert_eq!(first.id, "tst.1");
    assert_eq!(first.line, 4);
    assert_eq!(first.titles, vec!["tst.1.t"]);
    assert_eq!(first.descs.len(), 2);
    assert_eq!(first.descs[0], "tst.1.d");
    assert_eq!(
        first.descs[1],
        "text = tst.1.d.b\ntrigger = { has_government = fascism }"
    );
    assert_eq!(first.picture, "GFX_report_event_generic_sign_treaty");
    assert_eq!(first.is_triggered_only, "yes");
    assert_eq!(first.fire_only_once, "yes");
    assert_eq!(first.major, "");
    assert_eq!(first.trigger, "tag = TST");
    assert_eq!(
        first.immediate,
        "hidden_effect = { set_country_flag = tst_1_fired }"
    );
    assert_eq!(first.options.len(), 2);
    assert_eq!(first.options[0].name, "tst.1.a");
    assert_eq!(
        first.options[0].body,
        "ai_chance = { factor = 80 }\nadd_political_power = 50 # a bribe"
    );
    assert_eq!(first.options[1].name, "tst.1.b");
    assert_eq!(
        first.options[1].body,
        "trigger = { has_war = no }\nadd_stability = -0.05"
    );

    let second = &file.events[1];
    assert_eq!(second.kind, "news_event");
    assert_eq!(second.major, "yes");
    assert_eq!(second.options[0].body, "");
}

#[test]
fn events_a_no_op_save_changes_nothing() {
    let file = parsed(FILE);
    for event in &file.events {
        let text =
            update_source("(test)", FILE, &event.id, &update_from(event)).expect("updates");
        assert_eq!(text, FILE, "{} was rewritten", event.id);
    }
}

#[test]
fn edits_fields_in_place_and_keeps_the_rest() {
    let file = parsed(FILE);
    let mut change = update_from(&file.events[0]);
    change.picture = "GFX_report_event_generic_factory".into();
    change.fire_only_once = String::new();
    change.major = "yes".into();
    change.options[0].name = "tst.1.a.renamed".into();
    change.descs[0] = "tst.1.d.new".into();

    let text = update_source("(test)", FILE, "tst.1", &change).expect("updates");

    assert!(
        text.contains("picture = GFX_report_event_generic_factory"),
        "{text}"
    );
    assert!(!text.contains("fire_only_once"), "{text}");
    assert!(text.contains("\tmajor = yes\n"), "{text}");
    assert!(text.contains("name = tst.1.a.renamed\n"), "{text}");
    // The option's effects were not touched, so its comment is still there.
    assert!(
        text.contains("add_political_power = 50 # a bribe"),
        "{text}"
    );
    assert!(text.contains("desc = tst.1.d.new # plain"), "{text}");
    assert!(
        text.contains("trigger = { has_government = fascism }"),
        "{text}"
    );
    assert!(text.contains("# The first event"), "{text}");
    assert!(text.contains("tst.2.t"), "second event touched:\n{text}");
}

#[test]
fn an_option_whose_effects_change_is_written_out_again() {
    let file = parsed(FILE);
    let mut change = update_from(&file.events[0]);
    change.options[1].body =
        "trigger = { has_war = no }\nadd_stability = -0.10\nadd_war_support = 0.05".into();

    let text = update_source("(test)", FILE, "tst.1", &change).expect("updates");
    let event = &parsed(&text).events[0];
    assert_eq!(event.options.len(), 2);
    assert_eq!(event.options[1].name, "tst.1.b");
    assert_eq!(
        event.options[1].body,
        "trigger = { has_war = no }\nadd_stability = -0.10\nadd_war_support = 0.05"
    );
    assert!(
        text.contains("\toption = {\n\t\tname = tst.1.b\n\t\ttrigger = { has_war = no }\n\t\tadd_stability = -0.10\n\t\tadd_war_support = 0.05\n\t}\n"),
        "{text}"
    );
    // The first option kept its comment.
    assert!(text.contains("# a bribe"), "{text}");
}

#[test]
fn options_and_descriptions_are_added_and_dropped_by_position() {
    let file = parsed(FILE);
    let mut change = update_from(&file.events[1]);
    change.options.push(EventOption {
        name: "tst.2.b".into(),
        body: "add_political_power = -10".into(),
    });
    change
        .descs
        .push("text = tst.2.d.b\ntrigger = { has_war = yes }".into());
    change.titles = vec!["tst.2.t.new".into()];

    let text = update_source("(test)", FILE, "tst.2", &change).expect("updates");
    let event = &parsed(&text).events[1];
    assert_eq!(event.options.len(), 2);
    assert_eq!(event.options[1].body, "add_political_power = -10");
    assert_eq!(event.descs.len(), 2);
    assert_eq!(
        event.descs[1],
        "text = tst.2.d.b\ntrigger = { has_war = yes }"
    );
    assert_eq!(event.titles, vec!["tst.2.t.new"]);
    assert!(
        text.contains(
            "\tdesc = {\n\t\ttext = tst.2.d.b\n\t\ttrigger = { has_war = yes }\n\t}\n"
        ),
        "{text}"
    );

    let mut change = update_from(event);
    change.options.remove(0);
    change.descs.remove(1);
    let text = update_source("(test)", &text, "tst.2", &change).expect("updates");
    let event = &parsed(&text).events[1];
    assert_eq!(event.options.len(), 1);
    assert_eq!(event.options[0].name, "tst.2.b");
    assert_eq!(event.descs, vec!["tst.2.d"]);
}

#[test]
fn changes_the_kind_and_the_id() {
    let file = parsed(FILE);
    let mut change = update_from(&file.events[1]);
    change.kind = "country_event".into();
    change.id = "tst.3".into();

    let text = update_source("(test)", FILE, "tst.2", &change).expect("updates");
    let event = &parsed(&text).events[1];
    assert_eq!(event.kind, "country_event");
    assert_eq!(event.id, "tst.3");
    assert!(!text.contains("news_event = {"), "{text}");

    let mut clash = update_from(event);
    clash.id = "tst.1".into();
    assert!(update_source("(test)", &text, "tst.3", &clash).is_err());
}

#[test]
fn adds_and_deletes_an_event() {
    let added = add_source(
        "(test)",
        FILE,
        &EventUpdate {
            kind: "country_event".into(),
            id: "tst.3".into(),
            titles: vec!["tst.3.t".into()],
            descs: vec!["tst.3.d".into()],
            picture: "GFX_report_event_generic_sign_treaty".into(),
            is_triggered_only: "yes".into(),
            trigger: "tag = TST".into(),
            options: vec![EventOption {
                name: "tst.3.a".into(),
                body: "add_political_power = 10".into(),
            }],
            ..EventUpdate::default()
        },
    )
    .expect("adds");

    let reread = parsed(&added);
    assert_eq!(reread.events.len(), 3);
    let event = &reread.events[2];
    assert_eq!(event.id, "tst.3");
    assert_eq!(event.trigger, "tag = TST");
    assert_eq!(event.options[0].body, "add_political_power = 10");
    assert!(added.starts_with(FILE), "the rest was disturbed:\n{added}");
    assert!(
        added.ends_with("\n\ncountry_event = {\n\tid = tst.3\n\ttitle = tst.3.t\n\tdesc = tst.3.d\n\tpicture = GFX_report_event_generic_sign_treaty\n\tis_triggered_only = yes\n\n\ttrigger = {\n\t\ttag = TST\n\t}\n\n\toption = {\n\t\tname = tst.3.a\n\t\tadd_political_power = 10\n\t}\n}\n"),
        "{added}"
    );

    let deleted = delete_source("(test)", &added, "tst.2").expect("deletes");
    let reread = parsed(&deleted);
    assert_eq!(reread.events.len(), 2);
    assert!(!deleted.contains("tst.2"), "{deleted}");
    // Its blank line went with it: the neighbours are one blank line apart.
    assert!(
        deleted.contains("\t}\n}\n\ncountry_event = {\n\tid = tst.3\n"),
        "{deleted}"
    );
}

#[test]
fn a_namespace_only_file_gets_its_first_event() {
    let text = add_source(
        "(test)",
        "add_namespace = tst\n",
        &EventUpdate {
            kind: "news_event".into(),
            id: "tst.1".into(),
            ..EventUpdate::default()
        },
    )
    .expect("adds");

    assert_eq!(
        text,
        "add_namespace = tst\n\nnews_event = {\n\tid = tst.1\n}\n"
    );
}

#[test]
fn refuses_bad_ids_and_kinds() {
    let file = parsed(FILE);
    let mut change = update_from(&file.events[0]);
    change.id = "two words".into();
    assert!(update_source("(test)", FILE, "tst.1", &change).is_err());

    let mut change = update_from(&file.events[0]);
    change.kind = "province_event".into();
    assert!(update_source("(test)", FILE, "tst.1", &change).is_err());
}

#[test]
fn two_events_sharing_an_id_are_left_to_the_code_view() {
    let source = "country_event = {
	id = tst.1
	title = tst.1.t
}
country_event = {
	id = tst.1
	title = tst.1
}
";
    let file = parsed(source);
    assert_eq!(file.events.len(), 2);

    let error = update_source("(test)", source, "tst.1", &update_from(&file.events[1]))
        .expect_err("refuses");
    assert!(error.text().contains("2 events share"), "{}", error.text());
    assert!(delete_source("(test)", source, "tst.1").is_err());
}

#[test]
fn a_capitalised_key_is_edited_where_it_is() {
    let source = "country_event = {\n\tid = tst.1\n\tPicture = GFX_a\n\tHidden = yes\n\toption = { name = tst.1.a }\n}\n";
    let file = parsed(source);
    assert_eq!(file.events[0].picture, "GFX_a");
    assert_eq!(file.events[0].hidden, "yes");

    let mut change = update_from(&file.events[0]);
    change.picture = "GFX_b".into();
    let text = update_source("(test)", source, "tst.1", &change).expect("updates");
    assert!(text.contains("\tPicture = GFX_b\n"), "{text}");
}
