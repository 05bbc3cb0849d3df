use hoi4ms::console::{Console, Level, Source, CAPACITY};

#[test]
fn keeps_entries_in_order_with_rising_ids() {
    let mut console = Console::default();
    console.push(Level::Info, Source::App, "first".into(), None);
    console.push(Level::Warn, Source::Files, "second".into(), Some("why".into()));

    let entries = console.entries();

    assert_eq!(entries.len(), 2);
    assert!(entries[0].id < entries[1].id);
    assert_eq!(entries[1].message, "second");
    assert_eq!(entries[1].detail.as_deref(), Some("why"));
}

#[test]
fn drops_the_oldest_entry_past_capacity() {
    let mut console = Console::default();
    for index in 0..=CAPACITY {
        console.push(Level::Info, Source::App, index.to_string(), None);
    }

    let entries = console.entries();

    assert_eq!(entries.len(), CAPACITY);
    assert_eq!(entries[0].message, "1");
    assert_eq!(entries[CAPACITY - 1].message, CAPACITY.to_string());
}

#[test]
fn clearing_empties_the_log_but_not_the_id_sequence() {
    let mut console = Console::default();
    console.push(Level::Info, Source::App, "before".into(), None);
    console.clear();
    let after = console.push(Level::Info, Source::App, "after".into(), None);

    assert_eq!(console.entries().len(), 1);
    assert_eq!(after.id, 1);
}

#[test]
fn push_at_keeps_the_time_it_was_given() {
    let mut console = Console::new();
    let entry = console.push_at(Level::Error, Source::Mcp, "late".into(), None, 42);

    assert_eq!(entry.at_ms, 42);
    assert_eq!(entry.id, 0);
    assert_eq!(console.entries()[0].at_ms, 42);
}
