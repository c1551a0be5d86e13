use scribobulate::history::{row_label, FindHistory, HISTORY_CAP, HISTORY_LABEL_CHARS};

fn recorded(entries: &[&str]) -> FindHistory {
    let mut h = FindHistory::default();
    for e in entries {
        h.record(e);
    }
    h
}

/// The history as the session file holds it: a table with one key whose value is a bare
/// array of strings.
fn session_table(h: &FindHistory) -> toml::Table {
    let mut table = toml::Table::new();
    table.insert(
        "h".to_string(),
        toml::Value::Array(
            h.entries()
                .iter()
                .map(|e| toml::Value::String(e.clone()))
                .collect(),
        ),
    );
    table
}

/// Read the history back out of the session file's text, as it is deserialised: the bare
/// string array, taken as it stands.
fn from_session_text(text: &str) -> FindHistory {
    let table: toml::Table = toml::from_str(text).expect("a bare string array deserialises");
    let entries = table["h"]
        .as_array()
        .expect("an array")
        .iter()
        .map(|v| v.as_str().expect("a string").to_string())
        .collect();
    FindHistory::from_entries(entries)
}

#[test]
fn entries_come_back_most_recent_first() {
    let h = recorded(&["one", "two", "three"]);
    assert_eq!(h.entries(), ["three", "two", "one"]);
}

#[test]
fn re_committing_a_term_moves_it_to_the_front() {
    let h = recorded(&["one", "two", "one"]);
    assert_eq!(h.entries(), ["one", "two"]);
    let h = recorded(&["a", "b", "a", "b", "a", "b"]);
    assert_eq!(h.entries(), ["b", "a"], "no duplicates accumulate");
}

#[test]
fn the_list_is_capped_and_drops_the_oldest() {
    let many: Vec<String> = (0..HISTORY_CAP + 5).map(|i| format!("q{i}")).collect();
    let mut h = FindHistory::default();
    for e in &many {
        h.record(e);
    }
    assert_eq!(h.entries().len(), HISTORY_CAP);
    assert_eq!(h.entries()[0], format!("q{}", HISTORY_CAP + 4));
    assert!(
        !h.entries().contains(&"q0".to_string()),
        "the oldest entries are what the cap drops"
    );
}

#[test]
fn an_empty_entry_is_not_recorded() {
    let h = recorded(&["one", "", "two"]);
    assert_eq!(h.entries(), ["two", "one"]);
    assert!(FindHistory::default().is_empty());
}

#[test]
fn a_persisted_history_is_repaired_rather_than_rejected() {
    let raw = from_session_text(
        "h = [\"newest\", \"dup\", \"\", \"dup\", \"3\", \"4\", \"5\", \"6\", \"7\", \
         \"8\", \"9\", \"10\", \"11\", \"12\", \"13\"]",
    );
    let fixed = raw.sanitised();
    assert_eq!(fixed.entries().len(), HISTORY_CAP);
    assert_eq!(
        fixed.entries()[0],
        "newest",
        "the file's own order is preserved, not reversed"
    );
    assert_eq!(
        fixed.entries().iter().filter(|e| *e == "dup").count(),
        1,
        "a duplicate is collapsed"
    );
    assert!(
        !fixed.entries().iter().any(|e| e.is_empty()),
        "an empty entry is dropped"
    );
}

#[test]
fn a_history_round_trips_through_the_session_format() {
    let h = recorded(&["one", "two"]);
    let text = toml::to_string(&session_table(&h)).expect("serialises");
    assert_eq!(text.trim(), r#"h = ["two", "one"]"#);
    assert_eq!(from_session_text(&text), h);
}

#[test]
fn a_long_entry_is_shortened_for_its_row() {
    let long = "x".repeat(HISTORY_LABEL_CHARS + 20);
    let label = row_label(&long);
    assert_eq!(label.chars().count(), HISTORY_LABEL_CHARS + 1);
    assert!(label.ends_with('…'));
    assert_eq!(row_label("short"), "short", "a short entry is untouched");
}

#[test]
fn a_rows_label_does_not_break_across_lines() {
    assert_eq!(row_label("a\nb\tc"), "a b c");
    let mut h = FindHistory::default();
    h.record("a\nb");
    assert_eq!(h.entries(), ["a\nb"], "the stored entry keeps its own text");
}

/// Recording a term twice in a row is the same as recording it once.
#[test]
fn recording_a_term_twice_is_recording_it_once() {
    let once = recorded(&["x", "y", "z"]);
    let twice = recorded(&["x", "y", "z", "z"]);
    assert_eq!(once, twice);
}

/// Repair leaves a well-formed list exactly as it is.
#[test]
fn repair_leaves_a_good_list_alone() {
    let h = recorded(&["one", "two", "three"]);
    assert_eq!(h.clone().sanitised(), h);
}

/// A label exactly at the limit is not cut, and multibyte text is cut on a character.
#[test]
fn a_label_at_the_limit_is_not_cut() {
    let exact = "é".repeat(HISTORY_LABEL_CHARS);
    assert_eq!(row_label(&exact), exact);
    let over = "é".repeat(HISTORY_LABEL_CHARS + 1);
    assert_eq!(row_label(&over), format!("{exact}…"));
}

/// The white space a row label flattens is exactly what the standard library calls white
/// space, over every character.
#[test]
fn white_space_is_unicodes_white_space() {
    for u in 0..=0x10FFFFu32 {
        if let Some(c) = char::from_u32(u) {
            assert_eq!(scribobulate::history::is_whitespace(c), c.is_whitespace(), "U+{u:04X}");
        }
    }
}
