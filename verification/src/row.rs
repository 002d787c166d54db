//! The keyed record that the tracker holds.

use vstd::prelude::*;
use vstd::string::StringExecFns;

verus! {

/// What a [`Row`] is to the contracts: its key and its payload as character
/// sequences.
#[verifier::ext_equal]
pub struct RowView {
    pub key: Seq<char>,
    pub value: Seq<char>,
}

/// A row of data: a key that identifies it for as long as it lives, and a
/// value that may change.
#[derive(Debug)]
pub struct Row {
    /// The unique identifier for the data
    key: String,
    /// The value associated with the row
    pub value: String,
}

impl View for Row {
    type V = RowView;

    closed spec fn view(&self) -> RowView {
        RowView { key: self.key@, value: self.value@ }
    }
}

/// The rows of a list as the contracts see them, in the same order.
pub open spec fn row_views(rows: Seq<Row>) -> Seq<RowView> {
    rows.map_values(|row: Row| row@)
}

/// The text between a row's key and its value where the row is shown.
pub open spec fn separator() -> Seq<char> {
    " -> ... "@
}

/// The text that shows a row: its key, the separator, its value.
pub open spec fn label_of(row: RowView) -> Seq<char> {
    row.key + separator() + row.value
}

impl Row {
    /// A row with the given key and value.
    pub fn new(key: &str, value: &str) -> (row: Self)
        ensures
            row@ == (RowView { key: key@, value: value@ }),
    {
        Self { key: String::from_str(key), value: String::from_str(value) }
    }

    /// The unique identifier of the row.
    pub fn key(&self) -> (key: &str)
        ensures
            key@ == self@.key,
    {
        self.key.as_str()
    }

    /// The value associated with the row.
    pub fn value(&self) -> (value: &str)
        ensures
            value@ == self@.value,
    {
        self.value.as_str()
    }

    /// The row's value under the given key.
    pub fn with_key(self, key: &str) -> (row: Self)
        ensures
            row@ == (RowView { key: key@, value: self@.value }),
    {
        Self { key: String::from_str(key), value: self.value }
    }

    /// The text that shows the row.
    pub fn label(&self) -> (text: String)
        ensures
            text@ == label_of(self@),
    {
        let mut text = self.key.clone();
        text.append(" -> ... ");
        text.append(self.value.as_str());
        text
    }
}

impl Clone for Row {
    fn clone(&self) -> (row: Self)
        ensures
            row@ == self@,
    {
        Self { key: self.key.clone(), value: self.value.clone() }
    }
}

} // verus!
