//! The packets a table change is broadcast as when it comes from a transaction.
use crate::data_reader_contract::DataReaderContract;
use crate::sync_events::{contracts_view, event_contracts, event_packets, packets_follow_event, SyncEvent};
use vstd::prelude::*;

verus! {

/// The events that are broadcast to readers from a transaction: all but a
/// change of table attributes and a deleted table.
pub open spec fn broadcast_from_transaction(e: SyncEvent) -> bool {
    match e {
        SyncEvent::UpdateTableAttributes { .. } => false,
        SyncEvent::DeleteTable { .. } => false,
        _ => true,
    }
}

/// The packets of `event`, or `None` where the event is not broadcast.
pub fn into_tcp_contract(event: &SyncEvent) -> (r: Option<Vec<DataReaderContract>>)
    ensures
        r is Some <==> broadcast_from_transaction(*event),
        r matches Some(v) ==> contracts_view(v@) == event_packets(*event),
        r is Some <==> !(*event is UpdateTableAttributes || *event is DeleteTable),
        r matches Some(v) ==> packets_follow_event(*event, contracts_view(v@)),
{
    match event {
        SyncEvent::UpdateTableAttributes { .. } => None,
        SyncEvent::DeleteTable { .. } => None,
        _ => Some(event_contracts(event)),
    }
}

} // verus!
