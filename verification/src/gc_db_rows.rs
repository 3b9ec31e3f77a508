//! What the row garbage collector does with what a table reports as due for
//! removal.
use crate::sync_persist::PERSIST_DELAY_MICROS;
use vstd::prelude::*;

verus! {

/// What a table reports as due for removal: whole partitions, and rows by
/// partition key.
pub struct DataToGc {
    pub partitions: Vec<String>,
    pub db_rows: Vec<(String, Vec<String>)>,
}

/// A removal to carry out, made at `now` and due to be persisted at
/// `persist_moment` (microseconds).
pub enum GcAction {
    DeletePartitions { partition_keys: Vec<String>, persist_moment: i64, now: i64 },
    BulkDelete { rows: Vec<(String, Vec<String>)>, persist_moment: i64, now: i64 },
}

/// The removals for one table: its partitions when there are any, then its
/// rows when there are any, both due to be persisted five seconds after `now`.
pub open spec fn gc_actions(data: DataToGc, now: i64) -> Seq<GcAction> {
    let persist_moment = (now + PERSIST_DELAY_MICROS) as i64;
    let partitions = if data.partitions@.len() > 0 {
        seq![GcAction::DeletePartitions { partition_keys: data.partitions, persist_moment, now }]
    } else {
        Seq::empty()
    };
    let rows = if data.db_rows@.len() > 0 {
        seq![GcAction::BulkDelete { rows: data.db_rows, persist_moment, now }]
    } else {
        Seq::empty()
    };
    partitions + rows
}

/// Whatever the rows hold, partitions due for removal are deleted first, all
/// of them; whatever the partitions hold, rows due for removal are deleted
/// last, all of them; nothing else is done, and both removals are due to be
/// persisted five seconds after `now`.
pub proof fn lemma_gc_actions(data: DataToGc, now: i64)
    requires
        now <= i64::MAX - PERSIST_DELAY_MICROS,
    ensures
        gc_actions(data, now).len() == (if data.partitions@.len() > 0 { 1int } else { 0int }) + (if data.db_rows@.len() > 0 { 1int } else { 0int }),
        data.partitions@.len() > 0 ==> gc_actions(data, now)[0] == (GcAction::DeletePartitions {
            partition_keys: data.partitions,
            persist_moment: (now + 5_000_000) as i64,
            now,
        }),
        data.db_rows@.len() > 0 ==> gc_actions(data, now).last() == (GcAction::BulkDelete {
            rows: data.db_rows,
            persist_moment: (now + 5_000_000) as i64,
            now,
        }),
{
}

/// Turns what a table reports as due for removal at `now` into the removals
/// to carry out, in order; a failed removal does not stop the next one.
pub fn gc_it(data_to_gc: DataToGc, now: i64) -> (r: Vec<GcAction>)
    requires
        now <= i64::MAX - PERSIST_DELAY_MICROS,
    ensures
        r@ == gc_actions(data_to_gc, now),
        r@.len() == (if data_to_gc.partitions@.len() > 0 { 1int } else { 0int }) + (if data_to_gc.db_rows@.len() > 0 { 1int } else { 0int }),
        data_to_gc.partitions@.len() > 0 ==> r@[0] == (GcAction::DeletePartitions {
            partition_keys: data_to_gc.partitions,
            persist_moment: (now + 5_000_000) as i64,
            now,
        }),
        data_to_gc.db_rows@.len() > 0 ==> r@.last() == (GcAction::BulkDelete {
            rows: data_to_gc.db_rows,
            persist_moment: (now + 5_000_000) as i64,
            now,
        }),
{
    proof {
        lemma_gc_actions(data_to_gc, now);
    }
    let ghost data = data_to_gc;
    let persist_moment = now + PERSIST_DELAY_MICROS;
    let DataToGc { partitions, db_rows } = data_to_gc;
    let mut result: Vec<GcAction> = Vec::new();
    if partitions.len() > 0 {
        result.push(GcAction::DeletePartitions { partition_keys: partitions, persist_moment, now });
    }
    if db_rows.len() > 0 {
        result.push(GcAction::BulkDelete { rows: db_rows, persist_moment, now });
    }
    assert(result@ =~= gc_actions(data, now));
    result
}

} // verus!
