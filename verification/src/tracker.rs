//! The tracker itself: the records in a vector, the positions in a hash map
//! keyed by the records' keys, and the operations that keep the two in step.

use crate::error::TrackerError;
use crate::laws::lemma_index_as_long_as_sequence;
use crate::model::{
    keys_distinct, lemma_index_follows_records, lemma_remove_agrees, lemma_with_value_agrees,
    position_index, Step, TrackerView,
};
use crate::row::{row_views, Row};
use vstd::hash_map::StringHashMap;
use vstd::prelude::*;
use vstd::string::StringExecFns;

verus! {

/// An ordered list of keyed rows with constant-time lookup of a row's
/// position by its key.
pub struct KeyedIndexTracker {
    rows: Vec<Row>,
    positions: StringHashMap<usize>,
}

/// The positions of a hash map as the model's integers.
spec fn index_view(positions: Map<Seq<char>, usize>) -> Map<Seq<char>, int> {
    positions.map_values(|at: usize| at as int)
}

impl View for KeyedIndexTracker {
    type V = TrackerView;

    closed spec fn view(&self) -> TrackerView {
        TrackerView { records: row_views(self.rows@), index: index_view(self.positions@) }
    }
}

impl KeyedIndexTracker {
    #[verifier::type_invariant]
    spec fn agrees(self) -> bool {
        self@.wf()
    }

    /// A tracker without records.
    pub fn new() -> (tracker: Self)
        ensures
            tracker@.wf(),
            tracker@ == TrackerView::of(Seq::empty()),
    {
        let tracker = KeyedIndexTracker { rows: Vec::new(), positions: StringHashMap::new() };
        assert(tracker@.index =~= position_index(Seq::empty()));
        assert(tracker@.records =~= Seq::empty());
        tracker
    }

    /// A tracker that holds the given records in their order, each key mapped
    /// to the position where its record stands. Fails with `DuplicateKey`
    /// where two records share a key.
    pub fn initialize(records: Vec<Row>) -> (made: Result<Self, TrackerError>)
        ensures
            match made {
                Ok(tracker) => keys_distinct(row_views(records@)) && tracker@.wf() && tracker@
                    == TrackerView::of(row_views(records@)),
                Err(e) => e == TrackerError::DuplicateKey && !keys_distinct(row_views(records@)),
            },
    {
        let ghost views = row_views(records@);
        let mut positions: StringHashMap<usize> = StringHashMap::new();
        let mut at: usize = 0;
        while at < records.len()
            invariant
                at <= records.len(),
                views == row_views(records@),
                forall|i: int|
                    0 <= i < at ==> positions@.contains_key((#[trigger] views[i]).key)
                        && positions@[views[i].key] == i,
                forall|k: Seq<char>| #[trigger]
                    positions@.contains_key(k) ==> positions@[k] < at && views[positions@[k] as int].key
                        == k,
            decreases records.len() - at,
        {
            let key = records[at].key();
            if positions.contains_key(key) {
                proof {
                    let earlier = positions@[key@] as int;
                    assert(views[earlier].key == views[at as int].key);
                }
                return Err(TrackerError::DuplicateKey);
            }
            positions.insert(String::from_str(key), at);
            at += 1;
        }
        let tracker = KeyedIndexTracker { rows: records, positions };
        proof {
            assert(tracker@.records == views);
            assert(tracker@.wf());
            lemma_index_follows_records(tracker@);
        }
        Ok(tracker)
    }

    /// The number of records, which is also the number of keys in the index.
    pub fn len(&self) -> (count: usize)
        ensures
            self@.wf(),
            count == self@.records.len(),
            count == self@.index.len(),
    {
        proof {
            use_type_invariant(self);
            lemma_index_as_long_as_sequence(self@);
        }
        self.rows.len()
    }

    /// The current position of the record with the given key.
    pub fn position_of(&self, key: &str) -> (found: Result<usize, TrackerError>)
        ensures
            self@.wf(),
            match found {
                Ok(at) => self@.index.contains_key(key@) && at == self@.index[key@],
                Err(e) => e == TrackerError::NotFound && !self@.index.contains_key(key@),
            },
    {
        proof {
            use_type_invariant(self);
        }
        match self.positions.get(key) {
            Some(at) => Ok(*at),
            None => Err(TrackerError::NotFound),
        }
    }

    /// The record at the given position.
    pub fn record_at(&self, position: usize) -> (found: Result<&Row, TrackerError>)
        ensures
            self@.wf(),
            match found {
                Ok(row) => position < self@.records.len() && row@ == self@.records[position as int],
                Err(e) => e == TrackerError::IndexOutOfRange && position >= self@.records.len(),
            },
    {
        proof {
            use_type_invariant(self);
        }
        if position < self.rows.len() {
            Ok(&self.rows[position])
        } else {
            Err(TrackerError::IndexOutOfRange)
        }
    }

    /// Appends the record and returns its position, the former length. Fails
    /// with `DuplicateKey`, and changes nothing, where the key is already
    /// tracked.
    pub fn append(&mut self, record: Row) -> (placed: Result<usize, TrackerError>)
        ensures
            final(self)@.wf(),
            final(self)@ == old(self)@.apply(Step::Append(record@)),
            match placed {
                Ok(at) => !old(self)@.index.contains_key(record@.key) && at == old(
                    self,
                )@.records.len() && final(self)@ == old(self)@.append(record@),
                Err(e) => e == TrackerError::DuplicateKey && old(self)@.index.contains_key(
                    record@.key,
                ) && final(self)@ == old(self)@,
            },
    {
        proof {
            use_type_invariant(&*self);
        }
        if self.positions.contains_key(record.key()) {
            return Err(TrackerError::DuplicateKey);
        }
        let (mut rows, mut positions) = self.take_parts();
        let at = rows.len();
        let key = String::from_str(record.key());
        rows.push(record);
        positions.insert(key, at);
        proof {
            assert(row_views(rows@) =~= old(self)@.records.push(record@));
            assert(index_view(positions@) =~= old(self)@.index.insert(record@.key, at as int));
        }
        *self = KeyedIndexTracker { rows, positions };
        Ok(at)
    }

    /// Removes the record with the given key and returns it. The records
    /// behind it move one position to the front, and their index entries
    /// follow, in ascending order of position. Fails with `NotFound`, and
    /// changes nothing, where the key is not tracked.
    pub fn remove_by_key(&mut self, key: &str) -> (removed: Result<Row, TrackerError>)
        ensures
            final(self)@.wf(),
            final(self)@ == old(self)@.apply(Step::Remove(key@)),
            match removed {
                Ok(row) => old(self)@.index.contains_key(key@) && row@ == old(self)@.records[old(
                    self,
                )@.index[key@]] && final(self)@ == old(self)@.remove(key@),
                Err(e) => e == TrackerError::NotFound && !old(self)@.index.contains_key(key@)
                    && final(self)@ == old(self)@,
            },
    {
        proof {
            use_type_invariant(&*self);
        }
        let at = match self.positions.get(key) {
            Some(at) => *at,
            None => {
                return Err(TrackerError::NotFound);
            },
        };
        let ghost before = self@;
        let ghost held = self.positions@;
        proof {
            assert(before.index.contains_key(key@));
            assert(before.records.len() == self.rows@.len());
        }
        let (mut rows, mut positions) = self.take_parts();
        let row = rows.remove(at);
        positions.remove(key);
        proof {
            assert(row_views(rows@) =~= before.records.remove(at as int));
        }
        let mut next = at;
        while next < rows.len()
            invariant
                before.wf(),
                before.index == index_view(held),
                held.contains_key(key@),
                held[key@] == at,
                at < before.records.len(),
                row_views(rows@) == before.records.remove(at as int),
                at <= next <= rows.len(),
                forall|k: Seq<char>|
                    positions@.contains_key(k) <==> held.contains_key(k) && k != key@,
                forall|k: Seq<char>| #[trigger]
                    positions@.contains_key(k) ==> positions@[k] == if at < held[k] <= next {
                        held[k] - 1
                    } else {
                        held[k] as int
                    },
            decreases rows.len() - next,
        {
            let moved = String::from_str(rows[next].key());
            proof {
                before.records.remove_ensures(at as int);
                assert(row_views(rows@)[next as int] == before.records[next + 1]);
                assert(before.index.contains_key(moved@));
                assert forall|k: Seq<char>| held.contains_key(k) && k != moved@ implies held[k]
                    != next + 1 by {
                    assert(before.index.contains_key(k));
                }
            }
            positions.insert(moved, next);
            next += 1;
        }
        proof {
            assert(index_view(positions@) =~= before.remove(key@).index) by {
                assert forall|k: Seq<char>| held.contains_key(k) implies held[k]
                    < before.records.len() by {
                    assert(before.index.contains_key(k));
                }
            }
            lemma_remove_agrees(before, key@);
        }
        *self = KeyedIndexTracker { rows, positions };
        Ok(row)
    }

    /// Shows the record with the given key to `change` and keeps the value of
    /// the record that comes back, under the same key and at the same
    /// position. The index is left as it is. Fails with `NotFound`, and
    /// changes nothing, where the key is not tracked.
    pub fn mutate_payload<F: FnOnce(&Row) -> Row>(&mut self, key: &str, change: F) -> (done: Result<
        (),
        TrackerError,
    >)
        requires
            forall|given: Row|
                old(self)@.index.contains_key(key@) && given@ == old(self)@.records[old(
                    self,
                )@.index[key@]] ==> call_requires(change, (&given,)),
        ensures
            final(self)@.wf(),
            final(self)@.index == old(self)@.index,
            match done {
                Ok(()) => old(self)@.index.contains_key(key@) && exists|given: Row, changed: Row|
                    given@ == old(self)@.records[old(self)@.index[key@]] && #[trigger] call_ensures(
                        change,
                        (&given,),
                        changed,
                    ) && final(self)@ == old(self)@.with_value(key@, changed@.value),
                Err(e) => e == TrackerError::NotFound && !old(self)@.index.contains_key(key@)
                    && final(self)@ == old(self)@,
            },
    {
        proof {
            use_type_invariant(&*self);
        }
        let at = match self.positions.get(key) {
            Some(at) => *at,
            None => {
                return Err(TrackerError::NotFound);
            },
        };
        let ghost before = self@;
        proof {
            assert(before.index.contains_key(key@));
            assert(before.records.len() == self.rows@.len());
        }
        let changed = change(&self.rows[at]);
        let (mut rows, positions) = self.take_parts();
        rows[at] = changed.with_key(key);
        proof {
            assert(row_views(rows@) =~= before.with_value(key@, changed@.value).records);
            lemma_with_value_agrees(before, key@, changed@.value);
        }
        *self = KeyedIndexTracker { rows, positions };
        Ok(())
    }

    /// Moves the records and the positions out and leaves an empty tracker,
    /// so that the two can be changed one after the other.
    fn take_parts(&mut self) -> (parts: (Vec<Row>, StringHashMap<usize>))
        ensures
            parts.0 == old(self).rows,
            parts.1 == old(self).positions,
    {
        let mut taken = KeyedIndexTracker::new();
        std::mem::swap(self, &mut taken);
        (taken.rows, taken.positions)
    }
}

} // verus!
