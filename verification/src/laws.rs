//! What holds of every tracker, whatever was done to it: the index always
//! agrees with the sequence, it is as long as the sequence, it finds each key
//! at its one place, and a key that was removed is gone.

use crate::model::{
    keys_distinct, lemma_append_agrees, lemma_remove_agrees, lemma_scan_agrees,
    lemma_with_value_agrees, Step, TrackerView,
};
use crate::row::RowView;
use vstd::prelude::*;

verus! {

/// A call on a tracker whose index and sequence agree leaves them in
/// agreement, whether it succeeds or fails.
pub proof fn lemma_step_keeps_agreement(tracker: TrackerView, step: Step)
    requires
        tracker.wf(),
    ensures
        tracker.apply(step).wf(),
{
    match step {
        Step::Append(record) => {
            if !tracker.index.contains_key(record.key) {
                lemma_append_agrees(tracker, record);
            }
        },
        Step::Remove(key) => {
            if tracker.index.contains_key(key) {
                lemma_remove_agrees(tracker, key);
            }
        },
        Step::Revalue(key, value) => {
            if tracker.index.contains_key(key) {
                lemma_with_value_agrees(tracker, key, value);
            }
        },
    }
}

/// After a tracker is made from records with distinct keys, and after any
/// sequence of calls on it, the index and the sequence agree.
pub proof fn lemma_agreement_after_any_calls(records: Seq<RowView>, steps: Seq<Step>)
    requires
        keys_distinct(records),
    ensures
        TrackerView::of(records).run(steps).wf(),
    decreases steps.len(),
{
    if steps.len() == 0 {
        lemma_scan_agrees(records);
    } else {
        lemma_agreement_after_any_calls(records, steps.drop_last());
        lemma_step_keeps_agreement(TrackerView::of(records).run(steps.drop_last()), steps.last());
    }
}

/// Where the index and the sequence agree, the position that the index holds
/// for a key is the one place in the sequence where a record with that key
/// stands.
pub proof fn lemma_position_is_place_in_sequence(tracker: TrackerView, key: Seq<char>)
    requires
        tracker.wf(),
        tracker.index.contains_key(key),
    ensures
        0 <= tracker.index[key] < tracker.records.len(),
        tracker.records[tracker.index[key]].key == key,
        forall|i: int|
            0 <= i < tracker.records.len() && (#[trigger] tracker.records[i]).key == key ==> i
                == tracker.index[key],
{
}

/// Where the index and the sequence agree, the index has exactly as many
/// entries as the sequence has records.
pub proof fn lemma_index_as_long_as_sequence(tracker: TrackerView)
    requires
        tracker.wf(),
    ensures
        tracker.index.dom().finite(),
        tracker.index.len() == tracker.records.len(),
    decreases tracker.records.len(),
{
    if tracker.records.len() == 0 {
        assert(tracker.index.dom() =~= Set::empty());
    } else {
        let last = tracker.records.last();
        let shorter = TrackerView {
            records: tracker.records.drop_last(),
            index: tracker.index.remove(last.key),
        };
        assert forall|i: int| 0 <= i < shorter.records.len() implies shorter.index.contains_key(
            (#[trigger] shorter.records[i]).key,
        ) && shorter.index[shorter.records[i].key] == i by {
            assert(shorter.records[i] == tracker.records[i]);
        }
        assert forall|k: Seq<char>| #[trigger] shorter.index.contains_key(k) implies 0
            <= shorter.index[k] < shorter.records.len() && shorter.records[shorter.index[k]].key
            == k by {
            assert(tracker.index.contains_key(k));
        }
        lemma_index_as_long_as_sequence(shorter);
        assert(tracker.index.dom() =~= shorter.index.dom().insert(last.key));
    }
}

/// Once the record under a key is removed, the key is no longer tracked: a
/// second removal under the same key finds nothing and changes nothing.
pub proof fn lemma_removed_key_is_gone(tracker: TrackerView, key: Seq<char>)
    requires
        tracker.wf(),
        tracker.index.contains_key(key),
    ensures
        !tracker.remove(key).index.contains_key(key),
        tracker.remove(key).apply(Step::Remove(key)) == tracker.remove(key),
{
}

/// Giving a record another value moves no record: every key keeps its
/// position.
pub proof fn lemma_revalue_keeps_positions(tracker: TrackerView, key: Seq<char>, value: Seq<char>)
    ensures
        tracker.apply(Step::Revalue(key, value)).index == tracker.index,
{
}

} // verus!
