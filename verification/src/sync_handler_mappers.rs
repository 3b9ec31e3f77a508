//! The packets a table change is broadcast as, grouped as none, one, or many.
use crate::data_reader_contract::{ContractView, DataReaderContract};
use crate::sync_events::{
    contracts_view, event_contracts, event_packets, lemma_event_packets, packets_follow_event, SyncEvent,
};
use vstd::prelude::*;

verus! {

#[derive(Debug)]
pub enum TcpContractsToSend {
    Nothing,
    Single(DataReaderContract),
    Multiple(Vec<DataReaderContract>),
}

/// The events that come out as one packet.
pub open spec fn sends_single(e: SyncEvent) -> bool {
    match e {
        SyncEvent::TableFirstInit { .. } => true,
        SyncEvent::InitTable { .. } => true,
        SyncEvent::UpdateRows { .. } => true,
        SyncEvent::DeleteTable { .. } => true,
        _ => false,
    }
}

/// The events that come out as a list of packets, maybe empty.
pub open spec fn sends_multiple(e: SyncEvent) -> bool {
    match e {
        SyncEvent::InitPartitions { .. } => true,
        SyncEvent::DeleteRows { .. } => true,
        _ => false,
    }
}

/// The packets held, in order.
pub open spec fn to_send_view(t: TcpContractsToSend) -> Seq<ContractView> {
    match t {
        TcpContractsToSend::Nothing => Seq::empty(),
        TcpContractsToSend::Single(c) => seq![c@],
        TcpContractsToSend::Multiple(v) => contracts_view(v@),
    }
}

/// The packets of `event`: none for a change of table attributes, one for a
/// snapshot, an update or a deleted table, a list for partitions and deletions.
pub fn into_tcp_contract(event: &SyncEvent) -> (r: TcpContractsToSend)
    ensures
        to_send_view(r) == event_packets(*event),
        r is Nothing <==> event is UpdateTableAttributes,
        r is Single <==> sends_single(*event),
        r is Multiple <==> sends_multiple(*event),
        packets_follow_event(*event, to_send_view(r)),
        r is Single <==> (*event is TableFirstInit || *event is InitTable || *event is UpdateRows || *event is DeleteTable),
        r is Multiple <==> (*event is InitPartitions || *event is DeleteRows),
{
    proof {
        lemma_event_packets(*event);
    }
    let mut contracts = event_contracts(event);
    match event {
        SyncEvent::UpdateTableAttributes { .. } => TcpContractsToSend::Nothing,
        SyncEvent::InitPartitions { .. } => TcpContractsToSend::Multiple(contracts),
        SyncEvent::DeleteRows { .. } => TcpContractsToSend::Multiple(contracts),
        _ => {
            let ghost all = contracts@;
            assert(all.len() == 1) by {
                assert(contracts_view(all).len() == all.len());
            }
            let contract = contracts.remove(0);
            proof {
                assert(seq![contract@] =~= contracts_view(all));
            }
            TcpContractsToSend::Single(contract)
        },
    }
}

} // verus!
