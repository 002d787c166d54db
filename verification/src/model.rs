//! The mathematical model of the tracker: a sequence of records and a map
//! from keys to positions, the predicate that ties them together, and what
//! each operation does to them.

use crate::row::RowView;
use vstd::prelude::*;

verus! {

/// What a tracker is to the contracts.
#[verifier::ext_equal]
pub struct TrackerView {
    /// The records in display order.
    pub records: Seq<RowView>,
    /// The position that the index holds for each key.
    pub index: Map<Seq<char>, int>,
}

/// No two records of the sequence share a key.
pub open spec fn keys_distinct(records: Seq<RowView>) -> bool {
    forall|i: int, j: int|
        0 <= i < j < records.len() ==> (#[trigger] records[i]).key != (#[trigger] records[j]).key
}

/// Some record of the sequence has the key.
pub open spec fn has_key(records: Seq<RowView>, key: Seq<char>) -> bool {
    exists|i: int| 0 <= i < records.len() && (#[trigger] records[i]).key == key
}

/// The first position at which the sequence holds the key.
pub open spec fn first_position(records: Seq<RowView>, key: Seq<char>) -> int {
    choose|i: int|
        0 <= i < records.len() && (#[trigger] records[i]).key == key && forall|j: int|
            0 <= j < i ==> (#[trigger] records[j]).key != key
}

/// The index that one scan of the sequence builds: every key that occurs,
/// mapped to the position where it stands.
pub open spec fn position_index(records: Seq<RowView>) -> Map<Seq<char>, int> {
    Map::new(|k: Seq<char>| has_key(records, k), |k: Seq<char>| first_position(records, k))
}

impl TrackerView {
    /// The index and the sequence agree: each record's key is mapped to the
    /// record's position, and each key of the index is that of the record at
    /// the position it is mapped to.
    pub open spec fn wf(self) -> bool {
        &&& forall|i: int|
            0 <= i < self.records.len() ==> self.index.contains_key(
                (#[trigger] self.records[i]).key,
            ) && self.index[self.records[i].key] == i
        &&& forall|k: Seq<char>| #[trigger]
            self.index.contains_key(k) ==> 0 <= self.index[k] < self.records.len()
                && self.records[self.index[k]].key == k
    }

    /// The tracker that holds exactly these records.
    pub open spec fn of(records: Seq<RowView>) -> TrackerView {
        TrackerView { records, index: position_index(records) }
    }

    /// The tracker after the record is appended.
    pub open spec fn append(self, record: RowView) -> TrackerView {
        TrackerView {
            records: self.records.push(record),
            index: self.index.insert(record.key, self.records.len() as int),
        }
    }

    /// The tracker after the record under `key` is removed: the records behind
    /// it move one position to the front, and so do their index entries.
    pub open spec fn remove(self, key: Seq<char>) -> TrackerView {
        let at = self.index[key];
        TrackerView {
            records: self.records.remove(at),
            index: Map::new(
                |k: Seq<char>| self.index.contains_key(k) && k != key,
                |k: Seq<char>|
                    if self.index[k] > at {
                        self.index[k] - 1
                    } else {
                        self.index[k]
                    },
            ),
        }
    }

    /// The tracker after the record under `key` is given another value.
    pub open spec fn with_value(self, key: Seq<char>, value: Seq<char>) -> TrackerView {
        TrackerView {
            records: self.records.update(self.index[key], RowView { key, value }),
            index: self.index,
        }
    }
}

/// One call on a tracker, as far as it can change the tracker.
pub enum Step {
    /// Append the record.
    Append(RowView),
    /// Remove the record under the key.
    Remove(Seq<char>),
    /// Give the record under the key another value.
    Revalue(Seq<char>, Seq<char>),
}

impl TrackerView {
    /// The tracker after the call: changed where the call succeeds, the same
    /// where it fails.
    pub open spec fn apply(self, step: Step) -> TrackerView {
        match step {
            Step::Append(record) => if self.index.contains_key(record.key) {
                self
            } else {
                self.append(record)
            },
            Step::Remove(key) => if self.index.contains_key(key) {
                self.remove(key)
            } else {
                self
            },
            Step::Revalue(key, value) => if self.index.contains_key(key) {
                self.with_value(key, value)
            } else {
                self
            },
        }
    }

    /// The tracker after the calls, made in their order.
    pub open spec fn run(self, steps: Seq<Step>) -> TrackerView
        decreases steps.len(),
    {
        if steps.len() == 0 {
            self
        } else {
            self.run(steps.drop_last()).apply(steps.last())
        }
    }
}

/// In a tracker whose index and sequence agree, no key occurs twice, and the
/// index is the one that a scan of the sequence builds: the sequence alone
/// says what the index holds.
pub proof fn lemma_index_follows_records(tracker: TrackerView)
    requires
        tracker.wf(),
    ensures
        keys_distinct(tracker.records),
        tracker.index == position_index(tracker.records),
{
    let records = tracker.records;
    assert forall|k: Seq<char>| tracker.index.contains_key(k) implies has_key(records, k)
        && first_position(records, k) == tracker.index[k] by {
        let at = tracker.index[k];
        assert(records[at].key == k);
        assert forall|j: int| 0 <= j < at implies (#[trigger] records[j]).key != k by {}
        let first = first_position(records, k);
        assert(records[first].key == k);
    }
    assert forall|k: Seq<char>| has_key(records, k) implies tracker.index.contains_key(k) by {
        let i = choose|i: int| 0 <= i < records.len() && (#[trigger] records[i]).key == k;
        assert(records[i].key == k);
    }
    assert(tracker.index =~= position_index(records));
}

/// Where no key occurs twice, the index that a scan builds agrees with the
/// sequence.
pub proof fn lemma_scan_agrees(records: Seq<RowView>)
    requires
        keys_distinct(records),
    ensures
        TrackerView::of(records).wf(),
{
    let tracker = TrackerView::of(records);
    assert forall|i: int| 0 <= i < records.len() implies tracker.index.contains_key(
        (#[trigger] records[i]).key,
    ) && tracker.index[records[i].key] == i by {
        let k = records[i].key;
        assert(has_key(records, k));
        assert forall|j: int| 0 <= j < i implies (#[trigger] records[j]).key != k by {}
        let first = first_position(records, k);
        assert(records[first].key == k);
    }
    assert forall|k: Seq<char>| #[trigger] tracker.index.contains_key(k) implies 0
        <= tracker.index[k] < records.len() && records[tracker.index[k]].key == k by {
        let i = choose|i: int| 0 <= i < records.len() && (#[trigger] records[i]).key == k;
        assert(records[i].key == k);
        assert forall|j: int| 0 <= j < i implies (#[trigger] records[j]).key != k by {}
    }
}

/// Appending a record under a key that is not yet tracked keeps the index and
/// the sequence in agreement.
pub proof fn lemma_append_agrees(tracker: TrackerView, record: RowView)
    requires
        tracker.wf(),
        !tracker.index.contains_key(record.key),
    ensures
        tracker.append(record).wf(),
{
    let after = tracker.append(record);
    assert forall|i: int| 0 <= i < after.records.len() implies after.index.contains_key(
        (#[trigger] after.records[i]).key,
    ) && after.index[after.records[i].key] == i by {
        if i < tracker.records.len() {
            assert(after.records[i] == tracker.records[i]);
        }
    }
}

/// Removing the record under a tracked key keeps the index and the sequence
/// in agreement.
pub proof fn lemma_remove_agrees(tracker: TrackerView, key: Seq<char>)
    requires
        tracker.wf(),
        tracker.index.contains_key(key),
    ensures
        tracker.remove(key).wf(),
{
    let at = tracker.index[key];
    let after = tracker.remove(key);
    assert forall|i: int| 0 <= i < after.records.len() implies after.index.contains_key(
        (#[trigger] after.records[i]).key,
    ) && after.index[after.records[i].key] == i by {
        if i < at {
            assert(after.records[i] == tracker.records[i]);
        } else {
            assert(after.records[i] == tracker.records[i + 1]);
        }
    }
    assert forall|k: Seq<char>| #[trigger] after.index.contains_key(k) implies 0 <= after.index[k]
        < after.records.len() && after.records[after.index[k]].key == k by {
        assert(tracker.index.contains_key(k));
        let was = tracker.index[k];
        assert(tracker.records[was].key == k);
        if was > at {
            assert(after.records[was - 1] == tracker.records[was]);
        } else {
            assert(after.records[was] == tracker.records[was]);
        }
    }
}

/// Giving the record under a tracked key another value keeps the index and
/// the sequence in agreement.
pub proof fn lemma_with_value_agrees(tracker: TrackerView, key: Seq<char>, value: Seq<char>)
    requires
        tracker.wf(),
        tracker.index.contains_key(key),
    ensures
        tracker.with_value(key, value).wf(),
{
    let at = tracker.index[key];
    let after = tracker.with_value(key, value);
    assert forall|i: int| 0 <= i < after.records.len() implies after.index.contains_key(
        (#[trigger] after.records[i]).key,
    ) && after.index[after.records[i].key] == i by {
        if i != at {
            assert(after.records[i] == tracker.records[i]);
        }
        assert(after.records[i].key == tracker.records[i].key);
    }
}

} // verus!
