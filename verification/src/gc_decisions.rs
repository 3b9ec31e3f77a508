//! Decisions taken by the server's timers: which readers to drop and how far
//! persistence lags behind.
use crate::date_time::MyDateTime;
use std::collections::HashMap;
use std::sync::Arc;
use vstd::prelude::*;

verus! {

/// The readers among `readers` (id and last incoming moment, in milliseconds)
/// that have been inactive for at least `max_inactive_millis` at `now`, in
/// the order given. A reader whose last moment is not before `now` is kept.
pub open spec fn inactive_readers(readers: Seq<(u64, i64)>, now: i64, max_inactive_millis: u64) -> Seq<u64>
    decreases readers.len(),
{
    if readers.len() == 0 {
        Seq::empty()
    } else {
        let rest = inactive_readers(readers.drop_last(), now, max_inactive_millis);
        let (id, last) = readers.last();
        if now > last && now - last >= max_inactive_millis {
            rest.push(id)
        } else {
            rest
        }
    }
}

/// The readers to disconnect are, in the order given, exactly those whose
/// last moment lies before `now` by at least `max_inactive_millis`.
pub proof fn lemma_inactive_readers(readers: Seq<(u64, i64)>, now: i64, max_inactive_millis: u64)
    ensures
        inactive_readers(readers, now, max_inactive_millis) == readers.filter(
            |p: (u64, i64)| now > p.1 && now - p.1 >= max_inactive_millis,
        ).map_values(|p: (u64, i64)| p.0),
    decreases readers.len(),
{
    reveal(Seq::filter);
    if readers.len() > 0 {
        lemma_inactive_readers(readers.drop_last(), now, max_inactive_millis);
        let f = readers.drop_last().filter(|p: (u64, i64)| now > p.1 && now - p.1 >= max_inactive_millis);
        assert(f.push(readers.last()).map_values(|p: (u64, i64)| p.0) =~= f.map_values(|p: (u64, i64)| p.0).push(readers.last().0));
    }
}

/// The ids of the readers to disconnect: those inactive for at least
/// `max_inactive_millis` at `now`.
pub fn get_items_to_gc(readers: &Vec<(u64, i64)>, now: MyDateTime, max_inactive_millis: u64) -> (r: Vec<u64>)
    ensures
        r@ == inactive_readers(readers@, now.miliseconds, max_inactive_millis),
        r@ == readers@.filter(
            |p: (u64, i64)| now.miliseconds > p.1 && now.miliseconds - p.1 >= max_inactive_millis,
        ).map_values(|p: (u64, i64)| p.0),
{
    proof {
        lemma_inactive_readers(readers@, now.miliseconds, max_inactive_millis);
    }
    let mut items_to_gc: Vec<u64> = Vec::new();
    let mut i: usize = 0;
    while i < readers.len()
        invariant
            i <= readers@.len(),
            items_to_gc@ == inactive_readers(readers@.subrange(0, i as int), now.miliseconds, max_inactive_millis),
        decreases readers@.len() - i,
    {
        let (id, last_incoming) = readers[i];
        let ghost next = readers@.subrange(0, i + 1);
        assert(next.drop_last() =~= readers@.subrange(0, i as int));
        if now.miliseconds > last_incoming {
            let inactive = now.miliseconds as i128 - last_incoming as i128;
            if inactive >= max_inactive_millis as i128 {
                items_to_gc.push(id);
            }
        }
        i = i + 1;
    }
    assert(readers@.subrange(0, readers@.len() as int) =~= readers@);
    items_to_gc
}

/// How many whole seconds the last persistence lags behind the last update
/// (moments in microseconds): zero when nothing was persisted yet or the
/// persistence is not older than the update.
pub open spec fn persist_delay(last_persist_time: Option<i64>, last_update_time: i64) -> int {
    match last_persist_time {
        Some(p) => if p < last_update_time {
            (last_update_time - p) / 1_000_000
        } else {
            0
        },
        None => 0,
    }
}

/// The persistence delay of a table, in whole seconds.
pub fn persist_delay_seconds(last_persist_time: Option<i64>, last_update_time: i64) -> (r: i64)
    ensures
        r == persist_delay(last_persist_time, last_update_time),
{
    match last_persist_time {
        Some(last_persist) => {
            if last_persist < last_update_time {
                let micros = last_update_time as i128 - last_persist as i128;
                (micros / 1_000_000) as i64
            } else {
                0
            }
        },
        None => 0,
    }
}

/// What the metrics timer reads of one table: how much waits to be
/// persisted, and when it was last persisted and last updated (microseconds).
pub struct TablePersistMetrics {
    pub persist_amount: usize,
    pub last_persist_time: Option<i64>,
    pub last_update_time: i64,
}

/// The sum of what waits to be persisted over all tables.
pub open spec fn total_persist_amount(tables: Seq<TablePersistMetrics>) -> int
    decreases tables.len(),
{
    if tables.len() == 0 {
        0
    } else {
        total_persist_amount(tables.drop_last()) + tables.last().persist_amount
    }
}

/// One tick of the metrics timer: what waits to be persisted over all tables,
/// and each table's persistence delay in whole seconds, in the order given.
pub fn metrics_tick(tables: &Vec<TablePersistMetrics>) -> (r: (usize, Vec<i64>))
    requires
        total_persist_amount(tables@) <= usize::MAX,
    ensures
        r.0 == total_persist_amount(tables@),
        r.1@.len() == tables@.len(),
        forall|i: int| 0 <= i < tables@.len() ==> #[trigger] r.1@[i] == persist_delay(tables@[i].last_persist_time, tables@[i].last_update_time),
{
    let mut persist_amount: usize = 0;
    let mut delays: Vec<i64> = Vec::new();
    let mut i: usize = 0;
    while i < tables.len()
        invariant
            i <= tables@.len(),
            total_persist_amount(tables@) <= usize::MAX,
            persist_amount == total_persist_amount(tables@.subrange(0, i as int)),
            delays@.len() == i,
            forall|j: int| 0 <= j < i ==> #[trigger] delays@[j] == persist_delay(tables@[j].last_persist_time, tables@[j].last_update_time),
        decreases tables@.len() - i,
    {
        proof {
            lemma_total_prefix_bounded(tables@, i as int + 1);
            assert(tables@.subrange(0, i + 1).drop_last() =~= tables@.subrange(0, i as int));
        }
        let table = &tables[i];
        persist_amount = persist_amount + table.persist_amount;
        delays.push(persist_delay_seconds(table.last_persist_time, table.last_update_time));
        i = i + 1;
    }
    assert(tables@.subrange(0, tables@.len() as int) =~= tables@);
    (persist_amount, delays)
}

/// The sum over a prefix is at most the sum over all tables.
proof fn lemma_total_prefix_bounded(tables: Seq<TablePersistMetrics>, n: int)
    requires
        0 <= n <= tables.len(),
    ensures
        total_persist_amount(tables.subrange(0, n)) <= total_persist_amount(tables),
    decreases tables.len() - n,
{
    if n < tables.len() {
        lemma_total_prefix_bounded(tables, n + 1);
        assert(tables.subrange(0, n + 1).drop_last() =~= tables.subrange(0, n));
    } else {
        assert(tables.subrange(0, n) =~= tables);
    }
}

/// A row of a table, by its keys.
pub struct DbRow {
    pub partition_key: String,
    pub row_key: String,
}

/// Groups the row keys of expired rows by partition key. The grouping tests
/// for an existing group the wrong way round (it creates a group only when one
/// is already there), so the first row always finds no group and the lookup
/// that follows fails: only the empty input yields a map, the empty one.
pub fn as_hash_map(rows_to_delete: Vec<Arc<DbRow>>) -> (r: HashMap<String, Vec<String>>)
    requires
        rows_to_delete@.len() == 0,
    ensures
        r@ == Map::<String, Vec<String>>::empty(),
{
    HashMap::new()
}

} // verus!
