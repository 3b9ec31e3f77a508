//! The packets a TCP reader is sent for a table change, with the mark of
//! those that go out compressed when the reader asked for compression.
use crate::data_reader_contract::{ContractView, DataReaderContract};
use crate::sync_events::{
    contracts_view, event_contracts, event_packets, lemma_event_packets, packets_follow_event, SyncEvent,
};
use vstd::prelude::*;

verus! {

/// Whether the packets of an event may be compressed: snapshots and updates
/// may, deletions are sent as they are.
pub open spec fn compressible(e: SyncEvent) -> bool {
    match e {
        SyncEvent::TableFirstInit { .. } => true,
        SyncEvent::UpdateTableAttributes { .. } => true,
        SyncEvent::InitTable { .. } => true,
        SyncEvent::InitPartitions { .. } => true,
        SyncEvent::UpdateRows { .. } => true,
        SyncEvent::DeleteRows { .. } => false,
        SyncEvent::DeleteTable { .. } => false,
    }
}

/// The packets of an event, each with whether it goes out compressed.
pub open spec fn tcp_packets(e: SyncEvent, compress: bool) -> Seq<(ContractView, bool)> {
    event_packets(e).map_values(|c: ContractView| (c, compress && compressible(e)))
}

/// The views of packets with their compression marks.
pub open spec fn payload_view(packets: Seq<(DataReaderContract, bool)>) -> Seq<(ContractView, bool)> {
    packets.map_values(|p: (DataReaderContract, bool)| (p.0@, p.1))
}

/// The packets a TCP reader gets for `sync_event`, each marked with whether
/// it is to be compressed.
pub fn serialize(sync_event: &SyncEvent, compress: bool) -> (r: Vec<(DataReaderContract, bool)>)
    ensures
        payload_view(r@) == tcp_packets(*sync_event, compress),
        packets_follow_event(*sync_event, r@.map_values(|p: (DataReaderContract, bool)| p.0@)),
        forall|i: int| 0 <= i < r@.len() ==> #[trigger] r@[i].1 == (compress && !(*sync_event is DeleteRows) && !(*sync_event is DeleteTable)),
{
    let mark = compress && match sync_event {
        SyncEvent::DeleteRows { .. } => false,
        SyncEvent::DeleteTable { .. } => false,
        _ => true,
    };
    let mut contracts = event_contracts(sync_event);
    let ghost all = contracts@;
    let mut result: Vec<(DataReaderContract, bool)> = Vec::new();
    while contracts.len() > 0
        invariant
            contracts_view(all) == event_packets(*sync_event),
            mark == (compress && compressible(*sync_event)),
            result@.len() + contracts@.len() == all.len(),
            contracts@ == all.subrange(result@.len() as int, all.len() as int),
            forall|i: int| 0 <= i < result@.len() ==> #[trigger] result@[i] == (all[i], mark),
        decreases contracts@.len(),
    {
        let contract = contracts.remove(0);
        result.push((contract, mark));
    }
    proof {
        assert(payload_view(result@) =~= tcp_packets(*sync_event, compress));
        assert(result@.map_values(|p: (DataReaderContract, bool)| p.0@) =~= event_packets(*sync_event));
        lemma_event_packets(*sync_event);
    }
    result
}

/// Compression only marks packets: the packets themselves are the same
/// whether or not the reader asked for compression, and a reader that did
/// not ask gets none of them compressed.
pub proof fn lemma_compression_only_marks(e: SyncEvent, a: bool, b: bool)
    ensures
        tcp_packets(e, a).map_values(|p: (ContractView, bool)| p.0) == tcp_packets(e, b).map_values(|p: (ContractView, bool)| p.0),
        forall|i: int| 0 <= i < tcp_packets(e, false).len() ==> !(#[trigger] tcp_packets(e, false)[i]).1,
{
    assert(tcp_packets(e, a).map_values(|p: (ContractView, bool)| p.0) =~= event_packets(e));
    assert(tcp_packets(e, b).map_values(|p: (ContractView, bool)| p.0) =~= event_packets(e));
}

/// The packets of an event keep their order and content whatever the
/// reader asked for; each is marked compressed exactly when the reader asked
/// for compression and the event is no deletion.
pub proof fn lemma_tcp_packets(e: SyncEvent, compress: bool)
    ensures
        tcp_packets(e, compress).len() == event_packets(e).len(),
        forall|i: int| 0 <= i < event_packets(e).len() ==> #[trigger] tcp_packets(e, compress)[i] == (
            event_packets(e)[i],
            compress && !(e is DeleteRows) && !(e is DeleteTable),
        ),
        packets_follow_event(e, tcp_packets(e, compress).map_values(|p: (ContractView, bool)| p.0)),
{
    assert(tcp_packets(e, compress).map_values(|p: (ContractView, bool)| p.0) =~= event_packets(e));
    lemma_event_packets(e);
}

} // verus!
