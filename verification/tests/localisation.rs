use hoi4ms::localisation::{
    describe, format_entry, is_language_header, localisation_bytes, parse, parse_entry, rewrite,
    LocalisationEntry,
};

const SAMPLE: &str = "l_english:\n # a comment\n GREETING:0 \"Hello\"\n FAREWELL:1 \"Goodbye \\\"friend\\\"\" # trailing\n\n EMPTY_VERSION: \"No version\"\n";

fn chars(s: &str) -> Vec<char> {
    s.chars().collect()
}

#[test]
fn parses_entries_versions_and_escapes() {
    let (language, entries) = parse(SAMPLE);

    assert_eq!(language, "l_english");
    assert_eq!(entries.len(), 3);
    assert_eq!(entries[0].key, "GREETING");
    assert_eq!(entries[0].version, "0");
    assert_eq!(entries[1].value, "Goodbye \"friend\"");
    assert_eq!(entries[2].version, "");
}

#[test]
fn keeps_comments_when_saving() {
    let (language, mut entries) = parse(SAMPLE);
    entries[0].value = "Hi there".to_string();

    let saved = rewrite(SAMPLE, &language, &entries);

    assert!(saved.contains("# a comment"));
    assert!(saved.contains("GREETING:0 \"Hi there\""));
}

#[test]
fn leaves_untouched_entry_lines_byte_for_byte() {
    let existing = "l_english:\n GREETING:0 \"Hello\"\n FAREWELL:0 \"Bye\" # translator note\n  SPACED:0    \"Odd spacing\"\n";
    let (language, mut entries) = parse(existing);
    entries[0].value = "Hi".to_string();

    let saved = rewrite(existing, &language, &entries);

    assert!(saved.contains(" GREETING:0 \"Hi\""));
    assert!(saved.contains(" FAREWELL:0 \"Bye\" # translator note"), "comment lost:\n{saved}");
    assert!(saved.contains("  SPACED:0    \"Odd spacing\""), "spacing lost:\n{saved}");
}

#[test]
fn adds_and_removes_entries() {
    let (language, entries) = parse(SAMPLE);
    let mut entries: Vec<LocalisationEntry> =
        entries.into_iter().filter(|entry| entry.key != "FAREWELL").collect();
    entries.push(LocalisationEntry {
        key: "NEW_KEY".into(),
        version: "0".into(),
        value: "Added".into(),
        line: None,
    });

    let saved = rewrite(SAMPLE, &language, &entries);
    let (_, reread) = parse(&saved);

    assert!(reread.iter().all(|entry| entry.key != "FAREWELL"));
    assert!(reread.iter().any(|entry| entry.key == "NEW_KEY"));
    assert_eq!(reread.len(), 3);
}

#[test]
fn escapes_quotes_on_the_way_out() {
    let existing = "l_english:\n KEY:0 \"plain\"\n";
    let (language, mut entries) = parse(existing);
    entries[0].value = "say \"hello\"".to_string();

    let saved = rewrite(existing, &language, &entries);
    let (_, reread) = parse(&saved);

    assert_eq!(reread[0].value, "say \"hello\"");
}

#[test]
fn an_unchanged_save_keeps_the_text() {
    let (language, entries) = parse(SAMPLE);
    assert_eq!(rewrite(SAMPLE, &language, &entries), SAMPLE);
}

#[test]
fn a_new_file_gets_an_english_header_and_a_final_newline() {
    let entries = vec![LocalisationEntry {
        key: "KEY".into(),
        version: "1".into(),
        value: "back\\slash".into(),
        line: None,
    }];

    let saved = rewrite("", "", &entries);

    assert_eq!(saved, "l_english:\n KEY:1 \"back\\\\slash\"\n");
    assert_eq!(parse(&saved).1[0].value, "back\\slash");
}

#[test]
fn the_language_asked_for_replaces_the_header() {
    let saved = rewrite("l_english:\r\n K:0 \"v\"\r\n", " l_german: ", &parse("l_english:\r\n K:0 \"v\"\r\n").1);
    assert_eq!(saved, "l_german:\r\n K:0 \"v\"\r\n");
}

#[test]
fn a_hash_inside_the_quotes_is_part_of_the_value() {
    let entry = parse_entry(&chars(" KEY:0 \"one # two\" # note"), 4).expect("an entry");
    assert_eq!(entry.value, "one # two");
    assert_eq!(entry.line, Some(4));
}

#[test]
fn a_header_is_not_an_entry() {
    assert!(is_language_header(&chars("  L_English:  ")));
    assert!(!is_language_header(&chars(" l_english: \"x\"")));
    assert!(parse_entry(&chars("l_english:"), 0).is_none());
    assert!(parse_entry(&chars(" no colon here"), 0).is_none());
}

#[test]
fn an_entry_is_written_with_trimmed_key_and_version() {
    let entry = LocalisationEntry {
        key: "  KEY ".into(),
        version: " 2 ".into(),
        value: "a \"b\"".into(),
        line: Some(1),
    };
    assert_eq!(format_entry(&entry), " KEY:2 \"a \\\"b\\\"\"");
}

#[test]
fn the_listing_counts_entries() {
    let info = describe("C:/mod/localisation/a.yml".into(), "localisation\\a.yml", SAMPLE, true);
    assert_eq!(info.entry_count, 3);
    assert_eq!(info.language, "l_english");
    assert_eq!(info.relative_path, "localisation/a.yml");
}

#[test]
fn writes_a_byte_order_mark() {
    let existing = "l_english:\n KEY:0 \"value\"\n";
    let (language, entries) = parse(existing);
    let bytes = localisation_bytes(existing, &language, &entries);
    assert_eq!(&bytes[..3], &[0xEF, 0xBB, 0xBF]);
    assert_eq!(&bytes[3..], rewrite(existing, &language, &entries).as_bytes());
}
