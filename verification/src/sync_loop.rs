//! Who is sent a table change: a first snapshot goes to the reader that
//! subscribed, any other change to the subscribers that have had theirs.
use crate::sync_events::SyncEvent;
use vstd::prelude::*;

verus! {

#[derive(Debug)]
pub enum Recipients {
    /// Only the reader on this connection, which then counts as initialized.
    FirstInit(u64),
    /// These connections, in order.
    Subscribers(Vec<u64>),
}

/// The connections of the subscribers that have had their first snapshot,
/// given as (connection, has first snapshot) pairs.
pub open spec fn initialized_subscribers(subscribers: Seq<(u64, bool)>) -> Seq<u64>
    decreases subscribers.len(),
{
    if subscribers.len() == 0 {
        Seq::empty()
    } else {
        let rest = initialized_subscribers(subscribers.drop_last());
        if subscribers.last().1 {
            rest.push(subscribers.last().0)
        } else {
            rest
        }
    }
}

/// The subscribers that get a change other than a first snapshot are those
/// that have had their first snapshot, in the order given.
pub proof fn lemma_initialized_subscribers(subscribers: Seq<(u64, bool)>)
    ensures
        initialized_subscribers(subscribers) == subscribers.filter(|p: (u64, bool)| p.1).map_values(|p: (u64, bool)| p.0),
    decreases subscribers.len(),
{
    reveal(Seq::filter);
    if subscribers.len() > 0 {
        lemma_initialized_subscribers(subscribers.drop_last());
        let f = subscribers.drop_last().filter(|p: (u64, bool)| p.1);
        assert(f.push(subscribers.last()).map_values(|p: (u64, bool)| p.0) =~= f.map_values(|p: (u64, bool)| p.0).push(subscribers.last().0));
    }
}

/// Picks who gets `event` out of the table's subscribers.
pub fn handle_event(event: &SyncEvent, subscribers: &Vec<(u64, bool)>) -> (r: Recipients)
    ensures
        match *event {
            SyncEvent::TableFirstInit { connection_id, .. } => r == Recipients::FirstInit(connection_id),
            _ => r matches Recipients::Subscribers(ids) && ids@ == initialized_subscribers(subscribers@),
        },
        !(*event is TableFirstInit) ==> (r matches Recipients::Subscribers(ids)
            && ids@ == subscribers@.filter(|p: (u64, bool)| p.1).map_values(|p: (u64, bool)| p.0)),
{
    proof {
        lemma_initialized_subscribers(subscribers@);
    }
    if let SyncEvent::TableFirstInit { connection_id, .. } = event {
        return Recipients::FirstInit(*connection_id);
    }
    let mut ids: Vec<u64> = Vec::new();
    let mut i: usize = 0;
    while i < subscribers.len()
        invariant
            i <= subscribers@.len(),
            ids@ == initialized_subscribers(subscribers@.subrange(0, i as int)),
        decreases subscribers@.len() - i,
    {
        let (id, has_first_init) = subscribers[i];
        proof {
            assert(subscribers@.subrange(0, i + 1).drop_last() =~= subscribers@.subrange(0, i as int));
        }
        if has_first_init {
            ids.push(id);
        }
        i = i + 1;
    }
    assert(subscribers@.subrange(0, subscribers@.len() as int) =~= subscribers@);
    Recipients::Subscribers(ids)
}

/// Who the sync handler sends `event` to, out of the connections subscribed
/// to its table: nobody when none is subscribed (a first snapshot included),
/// else the reader that subscribed for a first snapshot, and every subscribed
/// connection for any other change.
pub fn broadcast(event: &SyncEvent, subscribed: &Vec<u64>) -> (r: Recipients)
    ensures
        subscribed@.len() == 0 ==> (r matches Recipients::Subscribers(ids) && ids@.len() == 0),
        subscribed@.len() > 0 ==> match *event {
            SyncEvent::TableFirstInit { connection_id, .. } => r == Recipients::FirstInit(connection_id),
            _ => r matches Recipients::Subscribers(ids) && ids@ == subscribed@,
        },
{
    if subscribed.len() > 0 {
        if let SyncEvent::TableFirstInit { connection_id, .. } = event {
            return Recipients::FirstInit(*connection_id);
        }
    }
    let mut ids: Vec<u64> = Vec::new();
    let mut i: usize = 0;
    while i < subscribed.len()
        invariant
            i <= subscribed@.len(),
            ids@ == subscribed@.subrange(0, i as int),
        decreases subscribed@.len() - i,
    {
        ids.push(subscribed[i]);
        i = i + 1;
        assert(ids@ =~= subscribed@.subrange(0, i as int));
    }
    assert(subscribed@.subrange(0, subscribed@.len() as int) =~= subscribed@);
    Recipients::Subscribers(ids)
}

} // verus!
