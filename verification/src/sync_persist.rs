//! Which parts of a table a batch of changes marks for persistence, and when.
use crate::sync_events::SyncEvent;
use vstd::prelude::*;

verus! {

/// How far after a change its persistence is due, in microseconds.
pub const PERSIST_DELAY_MICROS: i64 = 5_000_000;

/// A mark left for the persistence loop.
#[derive(Debug)]
pub enum PersistAction {
    /// The table's attributes are to be saved.
    UpdateTableAttributes,
    /// The whole table is to be saved.
    FlagTable,
    /// These partitions are to be saved.
    FlagPartitions(Vec<String>),
}

pub enum PersistActionView {
    UpdateTableAttributes,
    FlagTable,
    FlagPartitions(Seq<Seq<char>>),
}

/// Strings as character sequences.
pub open spec fn strings_view(s: Seq<String>) -> Seq<Seq<char>> {
    s.map_values(|k: String| k@)
}

impl View for PersistAction {
    type V = PersistActionView;

    open spec fn view(&self) -> PersistActionView {
        match self {
            PersistAction::UpdateTableAttributes => PersistActionView::UpdateTableAttributes,
            PersistAction::FlagTable => PersistActionView::FlagTable,
            PersistAction::FlagPartitions(keys) => PersistActionView::FlagPartitions(strings_view(keys@)),
        }
    }
}

/// The views of a list of marks.
pub open spec fn actions_view(actions: Seq<PersistAction>) -> Seq<PersistActionView> {
    actions.map_values(|a: PersistAction| a@)
}

/// The marks one change leaves on a table that exists. A subscriber's first
/// snapshot leaves none; data changes leave marks only on a persisted table.
pub open spec fn event_persist_actions(e: SyncEvent) -> Seq<PersistActionView> {
    match e {
        SyncEvent::TableFirstInit { .. } => Seq::empty(),
        SyncEvent::UpdateTableAttributes { .. } => seq![PersistActionView::UpdateTableAttributes],
        SyncEvent::InitTable { persist, .. } => if persist {
            seq![PersistActionView::FlagTable]
        } else {
            Seq::empty()
        },
        SyncEvent::InitPartitions { persist, partitions_to_update, .. } => if persist {
            seq![PersistActionView::FlagPartitions(partitions_to_update@.map_values(|p: (String, Option<Vec<u8>>)| p.0@))]
        } else {
            Seq::empty()
        },
        SyncEvent::UpdateRows { persist, updated_partitions, .. } => if persist {
            seq![PersistActionView::FlagPartitions(strings_view(updated_partitions@))]
        } else {
            Seq::empty()
        },
        SyncEvent::DeleteRows { persist, deleted_partitions, deleted_rows, .. } => if persist {
            let partitions = match deleted_partitions {
                Some(p) => seq![PersistActionView::FlagPartitions(strings_view(p@))],
                None => Seq::empty(),
            };
            let rows = match deleted_rows {
                Some(r) => seq![PersistActionView::FlagPartitions(r@.map_values(|x: (String, Vec<String>)| x.0@))],
                None => Seq::empty(),
            };
            partitions + rows
        } else {
            Seq::empty()
        },
        SyncEvent::DeleteTable { .. } => seq![PersistActionView::FlagTable],
    }
}

/// The marks a list of changes leaves on a table that exists, in order.
pub open spec fn events_persist_actions(events: Seq<SyncEvent>) -> Seq<PersistActionView>
    decreases events.len(),
{
    if events.len() == 0 {
        Seq::empty()
    } else {
        events_persist_actions(events.drop_last()) + event_persist_actions(events.last())
    }
}

/// The marks a batch of changes leaves: on a table that is gone, the whole
/// table is flagged once.
pub open spec fn persist_plan(table_exists: bool, events: Seq<SyncEvent>) -> Seq<PersistActionView> {
    if table_exists {
        events_persist_actions(events)
    } else {
        seq![PersistActionView::FlagTable]
    }
}

/// The marks one change leaves on a table that exists, said mark by mark: a
/// subscriber's first snapshot leaves none; a change of attributes asks for
/// the attributes to be saved; a deleted table flags the whole table; on a
/// persisted table, a snapshot flags the whole table, partitions to update
/// and updated rows flag their partitions, in order, and deletions flag the
/// deleted partitions, then the partitions with deleted rows; on a table that
/// is not persisted, data changes leave none.
pub open spec fn marks_follow_event(e: SyncEvent, ms: Seq<PersistActionView>) -> bool {
    match e {
        SyncEvent::TableFirstInit { .. } => ms.len() == 0,
        SyncEvent::UpdateTableAttributes { .. } => ms == seq![PersistActionView::UpdateTableAttributes],
        SyncEvent::InitTable { persist, .. } => if persist {
            ms == seq![PersistActionView::FlagTable]
        } else {
            ms.len() == 0
        },
        SyncEvent::InitPartitions { persist, partitions_to_update, .. } => if persist {
            &&& ms.len() == 1
            &&& ms[0] matches PersistActionView::FlagPartitions(keys)
            &&& keys.len() == partitions_to_update@.len()
            &&& forall|i: int| 0 <= i < keys.len() ==> #[trigger] keys[i] == partitions_to_update@[i].0@
        } else {
            ms.len() == 0
        },
        SyncEvent::UpdateRows { persist, updated_partitions, .. } => if persist {
            &&& ms.len() == 1
            &&& ms[0] matches PersistActionView::FlagPartitions(keys)
            &&& keys.len() == updated_partitions@.len()
            &&& forall|i: int| 0 <= i < keys.len() ==> #[trigger] keys[i] == updated_partitions@[i]@
        } else {
            ms.len() == 0
        },
        SyncEvent::DeleteRows { persist, deleted_partitions, deleted_rows, .. } => if persist {
            let first: int = if deleted_partitions is Some { 1 } else { 0 };
            &&& ms.len() == first + if deleted_rows is Some { 1int } else { 0int }
            &&& deleted_partitions matches Some(p) ==> (ms[0] matches PersistActionView::FlagPartitions(keys)
                && keys.len() == p@.len()
                && forall|i: int| 0 <= i < keys.len() ==> #[trigger] keys[i] == p@[i]@)
            &&& deleted_rows matches Some(r) ==> (ms[first] matches PersistActionView::FlagPartitions(keys)
                && keys.len() == r@.len()
                && forall|i: int| 0 <= i < keys.len() ==> #[trigger] keys[i] == r@[i].0@)
        } else {
            ms.len() == 0
        },
        SyncEvent::DeleteTable { .. } => ms == seq![PersistActionView::FlagTable],
    }
}

/// Every change leaves the marks `marks_follow_event` says.
pub proof fn lemma_event_persist_actions(e: SyncEvent)
    ensures
        marks_follow_event(e, event_persist_actions(e)),
{
}

/// The marks of two batches of changes, one after the other, are the marks
/// of the first batch followed by those of the second.
pub proof fn lemma_batches_concatenate(a: Seq<SyncEvent>, b: Seq<SyncEvent>)
    ensures
        events_persist_actions(a + b) == events_persist_actions(a) + events_persist_actions(b),
    decreases b.len(),
{
    if b.len() == 0 {
        assert(a + b =~= a);
        assert(events_persist_actions(b) =~= Seq::<PersistActionView>::empty());
        assert(events_persist_actions(a) + events_persist_actions(b) =~= events_persist_actions(a));
    } else {
        lemma_batches_concatenate(a, b.drop_last());
        assert((a + b).drop_last() =~= a + b.drop_last());
        assert((a + b).last() == b.last());
        assert(events_persist_actions(a + b) =~= events_persist_actions(a) + events_persist_actions(b));
    }
}

/// A batch of one change leaves that change's marks.
pub proof fn lemma_single_event_batch(e: SyncEvent)
    ensures
        events_persist_actions(seq![e]) == event_persist_actions(e),
{
    assert(seq![e].drop_last() =~= Seq::<SyncEvent>::empty());
    assert(events_persist_actions(Seq::<SyncEvent>::empty()) + event_persist_actions(e) =~= event_persist_actions(e));
}

/// A subscriber's first snapshot is skipped by persistence: it leaves the
/// marks of a batch unchanged wherever it stands in it.
pub proof fn lemma_first_init_leaves_no_mark(before: Seq<SyncEvent>, first_init: SyncEvent, after: Seq<SyncEvent>)
    requires
        first_init is TableFirstInit,
    ensures
        events_persist_actions(before + seq![first_init] + after) == events_persist_actions(before + after),
    decreases after.len(),
{
    if after.len() == 0 {
        assert(before + seq![first_init] + after =~= before.push(first_init));
        assert(before.push(first_init).drop_last() =~= before);
        assert(before + after =~= before);
    } else {
        let shorter = after.drop_last();
        lemma_first_init_leaves_no_mark(before, first_init, shorter);
        assert((before + seq![first_init] + after).drop_last() =~= before + seq![first_init] + shorter);
        assert((before + after).drop_last() =~= before + shorter);
    }
}

/// A copy of a list of keys.
fn copy_keys(keys: &Vec<String>) -> (r: Vec<String>)
    ensures
        strings_view(r@) == strings_view(keys@),
{
    let mut result: Vec<String> = Vec::new();
    let mut i: usize = 0;
    while i < keys.len()
        invariant
            i <= keys@.len(),
            strings_view(result@) == strings_view(keys@.subrange(0, i as int)),
        decreases keys@.len() - i,
    {
        let ghost before = result@;
        let key = keys[i].clone();
        result.push(key);
        proof {
            assert(keys@.subrange(0, i + 1) =~= keys@.subrange(0, i as int).push(keys@[i as int]));
            assert(strings_view(result@) =~= strings_view(before).push(key@));
        }
        i = i + 1;
    }
    assert(keys@.subrange(0, keys@.len() as int) =~= keys@);
    result
}

/// The first components of a list of pairs keyed by strings.
fn keys_of<T>(pairs: &Vec<(String, T)>) -> (r: Vec<String>)
    ensures
        strings_view(r@) == pairs@.map_values(|p: (String, T)| p.0@),
{
    let mut result: Vec<String> = Vec::new();
    let mut i: usize = 0;
    while i < pairs.len()
        invariant
            i <= pairs@.len(),
            strings_view(result@) == pairs@.subrange(0, i as int).map_values(|p: (String, T)| p.0@),
        decreases pairs@.len() - i,
    {
        let ghost before = result@;
        let key = pairs[i].0.clone();
        result.push(key);
        proof {
            assert(pairs@.subrange(0, i + 1) =~= pairs@.subrange(0, i as int).push(pairs@[i as int]));
            assert(strings_view(result@) =~= strings_view(before).push(key@));
        }
        i = i + 1;
    }
    assert(pairs@.subrange(0, pairs@.len() as int) =~= pairs@);
    result
}

/// The marks one change leaves on a table that exists.
fn event_actions(event: &SyncEvent) -> (r: Vec<PersistAction>)
    ensures
        actions_view(r@) == event_persist_actions(*event),
        marks_follow_event(*event, actions_view(r@)),
{
    let mut result: Vec<PersistAction> = Vec::new();
    match event {
        SyncEvent::TableFirstInit { .. } => {},
        SyncEvent::UpdateTableAttributes { .. } => {
            result.push(PersistAction::UpdateTableAttributes);
        },
        SyncEvent::InitTable { persist, .. } => {
            if *persist {
                result.push(PersistAction::FlagTable);
            }
        },
        SyncEvent::InitPartitions { persist, partitions_to_update, .. } => {
            if *persist {
                result.push(PersistAction::FlagPartitions(keys_of(partitions_to_update)));
            }
        },
        SyncEvent::UpdateRows { persist, updated_partitions, .. } => {
            if *persist {
                result.push(PersistAction::FlagPartitions(copy_keys(updated_partitions)));
            }
        },
        SyncEvent::DeleteRows { persist, deleted_partitions, deleted_rows, .. } => {
            if *persist {
                if let Some(partitions) = deleted_partitions {
                    result.push(PersistAction::FlagPartitions(copy_keys(partitions)));
                }
                if let Some(rows) = deleted_rows {
                    result.push(PersistAction::FlagPartitions(keys_of(rows)));
                }
            }
        },
        SyncEvent::DeleteTable { .. } => {
            result.push(PersistAction::FlagTable);
        },
    }
    proof {
        assert(actions_view(result@) =~= event_persist_actions(*event));
        lemma_event_persist_actions(*event);
    }
    result
}

/// The marks a batch of changes to one table leaves for the persistence loop;
/// `table_exists` tells whether the table is still there.
pub fn execute(table_exists: bool, events: &Vec<SyncEvent>) -> (r: Vec<PersistAction>)
    ensures
        actions_view(r@) == persist_plan(table_exists, events@),
        !table_exists ==> actions_view(r@) == seq![PersistActionView::FlagTable],
        table_exists && events@.len() == 1 ==> marks_follow_event(events@[0], actions_view(r@)),
{
    proof {
        if events@.len() == 1 {
            assert(events@ =~= seq![events@[0]]);
            lemma_single_event_batch(events@[0]);
            lemma_event_persist_actions(events@[0]);
        }
    }
    let mut result: Vec<PersistAction> = Vec::new();
    if !table_exists {
        result.push(PersistAction::FlagTable);
        assert(actions_view(result@) =~= seq![PersistActionView::FlagTable]);
        return result;
    }
    let mut i: usize = 0;
    while i < events.len()
        invariant
            i <= events@.len(),
            actions_view(result@) == events_persist_actions(events@.subrange(0, i as int)),
        decreases events@.len() - i,
    {
        let ghost before = result@;
        let mut actions = event_actions(&events[i]);
        let ghost added = actions@;
        result.append(&mut actions);
        proof {
            let next = events@.subrange(0, i + 1);
            assert(next.drop_last() =~= events@.subrange(0, i as int));
            assert(actions_view(result@) =~= actions_view(before) + actions_view(added));
        }
        i = i + 1;
    }
    assert(events@.subrange(0, events@.len() as int) =~= events@);
    result
}

/// The moment a change made at `now` is due to be persisted.
pub fn persist_moment(now: i64) -> (r: i64)
    requires
        now <= i64::MAX - PERSIST_DELAY_MICROS,
    ensures
        r == now + PERSIST_DELAY_MICROS,
        r - now == 5_000_000,
{
    now + PERSIST_DELAY_MICROS
}

} // verus!
