use keyed_index_tracker::{Row, TrackerError};

#[test]
fn row_new_keeps_key_and_value() {
    let row = Row::new("key 0", "value 0");
    assert_eq!(row.key(), "key 0");
    assert_eq!(row.value, "value 0");
    assert_eq!(row.value(), "value 0");
}

#[test]
fn row_new_accepts_empty_strings() {
    let row = Row::new("", "");
    assert_eq!(row.key(), "");
    assert_eq!(row.value(), "");
    assert_eq!(row.label(), " -> ... ");
}

#[test]
fn row_label_joins_key_and_value() {
    let row = Row::new("key 3", "value 3");
    assert_eq!(row.label(), "key 3 -> ... value 3");
}

#[test]
fn row_label_follows_a_changed_value() {
    let mut row = Row::new("k", "v");
    row.value.push_str(".");
    assert_eq!(row.label(), "k -> ... v.");
}

#[test]
fn row_clone_copies_both_fields() {
    let row = Row::new("k", "v");
    let copy = row.clone();
    assert_eq!(copy.key(), "k");
    assert_eq!(copy.value(), "v");
    assert_eq!(row.key(), "k");
    assert_eq!(row.value(), "v");
}

#[test]
fn row_clone_is_independent_of_its_source() {
    let row = Row::new("k", "v");
    let mut copy = row.clone();
    copy.value.push_str("!");
    assert_eq!(row.value(), "v");
    assert_eq!(copy.value(), "v!");
}

#[test]
fn row_with_key_replaces_the_key_only() {
    let row = Row::new("old", "payload").with_key("new");
    assert_eq!(row.key(), "new");
    assert_eq!(row.value(), "payload");
}

#[test]
fn row_keeps_non_ascii_text() {
    let row = Row::new("clé", "värde");
    assert_eq!(row.key(), "clé");
    assert_eq!(row.label(), "clé -> ... värde");
}

#[test]
fn error_descriptions_differ() {
    assert_eq!(TrackerError::DuplicateKey.describe(), "duplicate key");
    assert_eq!(TrackerError::NotFound.describe(), "key not found");
    assert_eq!(TrackerError::IndexOutOfRange.describe(), "position out of range");
}

#[test]
fn errors_compare_by_variant() {
    assert_eq!(TrackerError::NotFound, TrackerError::NotFound);
    assert_ne!(TrackerError::NotFound, TrackerError::DuplicateKey);
    assert_ne!(TrackerError::IndexOutOfRange, TrackerError::DuplicateKey);
}
