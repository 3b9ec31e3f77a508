//! The changes of a table that are synced to subscribed readers and to
//! persistence, and the packets and persistence marks each one turns into.
use crate::data_reader_contract::{rows_view, ContractView, DataReaderContract};
use vstd::prelude::*;

verus! {

/// A change of a table, with the serialized JSON the readers get. Partition
/// snapshots that are gone (`None`) are sent as an empty JSON array.
#[derive(Debug)]
pub enum SyncEvent {
    /// The reader on connection `connection_id` subscribed and gets the
    /// whole table for the first time.
    TableFirstInit { connection_id: u64, table_name: String, data: Vec<u8> },
    UpdateTableAttributes { table_name: String },
    InitTable { table_name: String, persist: bool, data: Vec<u8> },
    InitPartitions {
        table_name: String,
        persist: bool,
        partitions_to_update: Vec<(String, Option<Vec<u8>>)>,
    },
    UpdateRows { table_name: String, persist: bool, updated_partitions: Vec<String>, data: Vec<u8> },
    DeleteRows {
        table_name: String,
        persist: bool,
        deleted_partitions: Option<Vec<String>>,
        deleted_rows: Option<Vec<(String, Vec<String>)>>,
    },
    DeleteTable { table_name: String },
}

/// Queues table changes for the loop that delivers them to readers and to
/// persistence.
pub trait EventsDispatcher {
    fn dispatch(&self, event: SyncEvent);

    /// How many queued changes have not been taken yet.
    fn get_events_queue_size(&self) -> usize;
}

/// The JSON of an empty array, which stands for an emptied partition or table.
pub open spec fn empty_array() -> Seq<u8> {
    seq![91u8, 93u8]
}

/// Builds the JSON of an empty array.
pub fn empty_array_json() -> (r: Vec<u8>)
    ensures
        r@ == empty_array(),
{
    let mut r = Vec::new();
    r.push(91u8);
    r.push(93u8);
    assert(r@ =~= empty_array());
    r
}

/// The name of the table an event is about.
pub open spec fn event_table_name(e: SyncEvent) -> Seq<char> {
    match e {
        SyncEvent::TableFirstInit { table_name, .. } => table_name@,
        SyncEvent::UpdateTableAttributes { table_name } => table_name@,
        SyncEvent::InitTable { table_name, .. } => table_name@,
        SyncEvent::InitPartitions { table_name, .. } => table_name@,
        SyncEvent::UpdateRows { table_name, .. } => table_name@,
        SyncEvent::DeleteRows { table_name, .. } => table_name@,
        SyncEvent::DeleteTable { table_name } => table_name@,
    }
}

impl SyncEvent {
    pub fn get_table_name(&self) -> (r: &str)
        ensures
            r@ == event_table_name(*self),
    {
        match self {
            SyncEvent::TableFirstInit { table_name, .. } => table_name.as_str(),
            SyncEvent::UpdateTableAttributes { table_name } => table_name.as_str(),
            SyncEvent::InitTable { table_name, .. } => table_name.as_str(),
            SyncEvent::InitPartitions { table_name, .. } => table_name.as_str(),
            SyncEvent::UpdateRows { table_name, .. } => table_name.as_str(),
            SyncEvent::DeleteRows { table_name, .. } => table_name.as_str(),
            SyncEvent::DeleteTable { table_name } => table_name.as_str(),
        }
    }
}

/// One `InitPartition` packet per partition to update, in order, with the
/// partition's JSON or an empty array.
pub open spec fn init_partition_packets(table_name: Seq<char>, partitions: Seq<(String, Option<Vec<u8>>)>) -> Seq<ContractView>
    decreases partitions.len(),
{
    if partitions.len() == 0 {
        Seq::empty()
    } else {
        let (key, data) = partitions.last();
        init_partition_packets(table_name, partitions.drop_last()).push(ContractView::InitPartition {
            table_name,
            partition_key: key@,
            data: match data {
                Some(d) => d@,
                None => empty_array(),
            },
        })
    }
}

/// One `InitPartition` packet with an empty array per deleted partition.
pub open spec fn emptied_partition_packets(table_name: Seq<char>, partitions: Seq<String>) -> Seq<ContractView>
    decreases partitions.len(),
{
    if partitions.len() == 0 {
        Seq::empty()
    } else {
        emptied_partition_packets(table_name, partitions.drop_last()).push(ContractView::InitPartition {
            table_name,
            partition_key: partitions.last()@,
            data: empty_array(),
        })
    }
}

/// The rows of one partition as (partition key, row key) pairs.
pub open spec fn partition_rows(partition_key: Seq<char>, row_keys: Seq<String>) -> Seq<(Seq<char>, Seq<char>)> {
    row_keys.map_values(|k: String| (partition_key, k@))
}

/// One `DeleteRows` packet per partition with deleted rows.
pub open spec fn deleted_rows_packets(table_name: Seq<char>, rows: Seq<(String, Vec<String>)>) -> Seq<ContractView>
    decreases rows.len(),
{
    if rows.len() == 0 {
        Seq::empty()
    } else {
        let (key, row_keys) = rows.last();
        deleted_rows_packets(table_name, rows.drop_last()).push(ContractView::DeleteRows {
            table_name,
            rows: partition_rows(key@, row_keys@),
        })
    }
}

/// The packets a reader gets for an event, in the order they are sent.
pub open spec fn event_packets(e: SyncEvent) -> Seq<ContractView> {
    match e {
        SyncEvent::TableFirstInit { table_name, data, .. } => seq![ContractView::InitTable { table_name: table_name@, data: data@ }],
        SyncEvent::UpdateTableAttributes { .. } => Seq::empty(),
        SyncEvent::InitTable { table_name, data, .. } => seq![ContractView::InitTable { table_name: table_name@, data: data@ }],
        SyncEvent::InitPartitions { table_name, partitions_to_update, .. } =>
            init_partition_packets(table_name@, partitions_to_update@),
        SyncEvent::UpdateRows { table_name, data, .. } => seq![ContractView::UpdateRows { table_name: table_name@, data: data@ }],
        SyncEvent::DeleteRows { table_name, deleted_partitions, deleted_rows, .. } => {
            let emptied = match deleted_partitions {
                Some(p) => emptied_partition_packets(table_name@, p@),
                None => Seq::empty(),
            };
            let deleted = match deleted_rows {
                Some(r) => deleted_rows_packets(table_name@, r@),
                None => Seq::empty(),
            };
            emptied + deleted
        },
        SyncEvent::DeleteTable { table_name } => seq![ContractView::InitTable { table_name: table_name@, data: empty_array() }],
    }
}

/// The views of a list of packets.
pub open spec fn contracts_view(contracts: Seq<DataReaderContract>) -> Seq<ContractView> {
    contracts.map_values(|c: DataReaderContract| c@)
}

/// What a reader is sent for an event, said packet by packet: a snapshot
/// (first or not) is one `InitTable` with the event's own bytes; an update is
/// one `UpdateRows` with the event's own bytes; a change of attributes sends
/// nothing; a deleted table is one `InitTable` with the empty JSON array `[]`;
/// partitions to update are one `InitPartition` each, in order, with the
/// partition's bytes or `[]` when it is gone; deletions are one emptying
/// `InitPartition` per deleted partition, in order, then one `DeleteRows` per
/// partition with deleted rows, listing its (partition key, row key) pairs in
/// order.
pub open spec fn packets_follow_event(e: SyncEvent, ps: Seq<ContractView>) -> bool {
    match e {
        SyncEvent::TableFirstInit { table_name, data, .. } => ps == seq![ContractView::InitTable { table_name: table_name@, data: data@ }],
        SyncEvent::UpdateTableAttributes { .. } => ps.len() == 0,
        SyncEvent::InitTable { table_name, data, .. } => ps == seq![ContractView::InitTable { table_name: table_name@, data: data@ }],
        SyncEvent::InitPartitions { table_name, partitions_to_update, .. } => {
            &&& ps.len() == partitions_to_update@.len()
            &&& forall|i: int| 0 <= i < ps.len() ==> #[trigger] ps[i] == ContractView::InitPartition {
                table_name: table_name@,
                partition_key: partitions_to_update@[i].0@,
                data: match partitions_to_update@[i].1 {
                    Some(d) => d@,
                    None => seq![91u8, 93u8],
                },
            }
        },
        SyncEvent::UpdateRows { table_name, data, .. } => ps == seq![ContractView::UpdateRows { table_name: table_name@, data: data@ }],
        SyncEvent::DeleteRows { table_name, deleted_partitions, deleted_rows, .. } => {
            let parts: Seq<String> = match deleted_partitions {
                Some(p) => p@,
                None => Seq::empty(),
            };
            let rows: Seq<(String, Vec<String>)> = match deleted_rows {
                Some(r) => r@,
                None => Seq::empty(),
            };
            &&& ps.len() == parts.len() + rows.len()
            &&& forall|i: int| 0 <= i < parts.len() ==> #[trigger] ps[i] == ContractView::InitPartition {
                table_name: table_name@,
                partition_key: parts[i]@,
                data: seq![91u8, 93u8],
            }
            &&& forall|i: int| 0 <= i < rows.len() ==> (#[trigger] ps[parts.len() + i] matches ContractView::DeleteRows { table_name: t, rows: pairs }
                && t == table_name@
                && pairs.len() == rows[i].1@.len()
                && forall|j: int| 0 <= j < pairs.len() ==> #[trigger] pairs[j] == (rows[i].0@, rows[i].1@[j]@))
        },
        SyncEvent::DeleteTable { table_name } => ps == seq![ContractView::InitTable { table_name: table_name@, data: seq![91u8, 93u8] }],
    }
}

proof fn lemma_init_partition_packets_at(table_name: Seq<char>, partitions: Seq<(String, Option<Vec<u8>>)>)
    ensures
        init_partition_packets(table_name, partitions).len() == partitions.len(),
        forall|i: int| 0 <= i < partitions.len() ==> #[trigger] init_partition_packets(table_name, partitions)[i] == (ContractView::InitPartition {
            table_name,
            partition_key: partitions[i].0@,
            data: match partitions[i].1 {
                Some(d) => d@,
                None => seq![91u8, 93u8],
            },
        }),
    decreases partitions.len(),
{
    if partitions.len() > 0 {
        lemma_init_partition_packets_at(table_name, partitions.drop_last());
    }
}

pub(crate) proof fn lemma_emptied_partition_packets_at(table_name: Seq<char>, partitions: Seq<String>)
    ensures
        emptied_partition_packets(table_name, partitions).len() == partitions.len(),
        forall|i: int| 0 <= i < partitions.len() ==> #[trigger] emptied_partition_packets(table_name, partitions)[i] == (ContractView::InitPartition {
            table_name,
            partition_key: partitions[i]@,
            data: seq![91u8, 93u8],
        }),
    decreases partitions.len(),
{
    if partitions.len() > 0 {
        lemma_emptied_partition_packets_at(table_name, partitions.drop_last());
    }
}

proof fn lemma_deleted_rows_packets_at(table_name: Seq<char>, rows: Seq<(String, Vec<String>)>)
    ensures
        deleted_rows_packets(table_name, rows).len() == rows.len(),
        forall|i: int| 0 <= i < rows.len() ==> #[trigger] deleted_rows_packets(table_name, rows)[i] == (ContractView::DeleteRows {
            table_name,
            rows: partition_rows(rows[i].0@, rows[i].1@),
        }),
    decreases rows.len(),
{
    if rows.len() > 0 {
        lemma_deleted_rows_packets_at(table_name, rows.drop_last());
    }
}

/// Every event is sent as `packets_follow_event` says.
pub proof fn lemma_event_packets(e: SyncEvent)
    ensures
        packets_follow_event(e, event_packets(e)),
{
    match e {
        SyncEvent::InitPartitions { table_name, partitions_to_update, .. } => {
            lemma_init_partition_packets_at(table_name@, partitions_to_update@);
        },
        SyncEvent::DeleteRows { table_name, deleted_partitions, deleted_rows, .. } => {
            let parts: Seq<String> = match deleted_partitions {
                Some(p) => p@,
                None => Seq::empty(),
            };
            let rows: Seq<(String, Vec<String>)> = match deleted_rows {
                Some(r) => r@,
                None => Seq::empty(),
            };
            lemma_emptied_partition_packets_at(table_name@, parts);
            lemma_deleted_rows_packets_at(table_name@, rows);
            let a = emptied_partition_packets(table_name@, parts);
            let b = deleted_rows_packets(table_name@, rows);
            assert(deleted_partitions is None ==> a =~= Seq::<ContractView>::empty());
            assert(deleted_rows is None ==> b =~= Seq::<ContractView>::empty());
            assert(event_packets(e) == a + b);
            assert forall|i: int| 0 <= i < rows.len() implies (#[trigger] event_packets(e)[parts.len() + i] matches ContractView::DeleteRows { table_name: t, rows: pairs }
                && t == table_name@
                && pairs.len() == rows[i].1@.len()
                && forall|j: int| 0 <= j < pairs.len() ==> #[trigger] pairs[j] == (rows[i].0@, rows[i].1@[j]@)) by {
                assert((a + b)[parts.len() + i] == b[i]);
            }
            assert forall|i: int| 0 <= i < parts.len() implies #[trigger] event_packets(e)[i] == (ContractView::InitPartition {
                table_name: table_name@,
                partition_key: parts[i]@,
                data: seq![91u8, 93u8],
            }) by {
                assert((a + b)[i] == a[i]);
            }
        },
        _ => {},
    }
}

/// Appends one `InitPartition` packet per partition to update.
fn push_init_partitions(result: &mut Vec<DataReaderContract>, table_name: &String, partitions: &Vec<(String, Option<Vec<u8>>)>)
    ensures
        contracts_view(final(result)@) == contracts_view(old(result)@) + init_partition_packets(table_name@, partitions@),
{
    let mut i: usize = 0;
    while i < partitions.len()
        invariant
            i <= partitions@.len(),
            contracts_view(result@) == contracts_view(old(result)@) + init_partition_packets(table_name@, partitions@.subrange(0, i as int)),
        decreases partitions@.len() - i,
    {
        let (partition_key, snapshot) = &partitions[i];
        let data = match snapshot {
            Some(d) => d.clone(),
            None => empty_array_json(),
        };
        let ghost before = result@;
        let contract = DataReaderContract::InitPartition {
            table_name: table_name.clone(),
            partition_key: partition_key.clone(),
            data,
        };
        result.push(contract);
        proof {
            let prefix = partitions@.subrange(0, i as int);
            let next = partitions@.subrange(0, i + 1);
            assert(next.drop_last() =~= prefix);
            assert(contracts_view(result@) =~= contracts_view(before).push(result@.last()@));
        }
        i = i + 1;
    }
    assert(partitions@.subrange(0, partitions@.len() as int) =~= partitions@);
}

/// Appends one emptying `InitPartition` packet per deleted partition.
pub(crate) fn push_emptied_partitions(result: &mut Vec<DataReaderContract>, table_name: &String, partitions: &Vec<String>)
    ensures
        contracts_view(final(result)@) == contracts_view(old(result)@) + emptied_partition_packets(table_name@, partitions@),
{
    let mut i: usize = 0;
    while i < partitions.len()
        invariant
            i <= partitions@.len(),
            contracts_view(result@) == contracts_view(old(result)@) + emptied_partition_packets(table_name@, partitions@.subrange(0, i as int)),
        decreases partitions@.len() - i,
    {
        let ghost before = result@;
        let contract = DataReaderContract::InitPartition {
            table_name: table_name.clone(),
            partition_key: partitions[i].clone(),
            data: empty_array_json(),
        };
        result.push(contract);
        proof {
            let prefix = partitions@.subrange(0, i as int);
            let next = partitions@.subrange(0, i + 1);
            assert(next.drop_last() =~= prefix);
            assert(contracts_view(result@) =~= contracts_view(before).push(result@.last()@));
        }
        i = i + 1;
    }
    assert(partitions@.subrange(0, partitions@.len() as int) =~= partitions@);
}

/// The (partition key, row key) pairs of one partition's deleted rows.
pub(crate) fn rows_of_partition(partition_key: &String, row_keys: &Vec<String>) -> (r: Vec<(String, String)>)
    ensures
        rows_view(r@) == partition_rows(partition_key@, row_keys@),
{
    let mut rows: Vec<(String, String)> = Vec::new();
    let mut i: usize = 0;
    while i < row_keys.len()
        invariant
            i <= row_keys@.len(),
            rows_view(rows@) == partition_rows(partition_key@, row_keys@.subrange(0, i as int)),
        decreases row_keys@.len() - i,
    {
        let ghost before = rows@;
        let pk = partition_key.clone();
        let rk = row_keys[i].clone();
        rows.push((pk, rk));
        proof {
            assert(rows@ == before.push((pk, rk)));
            assert(row_keys@.subrange(0, i + 1) =~= row_keys@.subrange(0, i as int).push(row_keys@[i as int]));
            assert(rows_view(rows@) =~= rows_view(before).push((pk@, rk@)));
            assert(partition_rows(partition_key@, row_keys@.subrange(0, i + 1)) =~= partition_rows(partition_key@, row_keys@.subrange(0, i as int)).push((partition_key@, row_keys@[i as int]@)));
        }
        i = i + 1;
    }
    assert(row_keys@.subrange(0, row_keys@.len() as int) =~= row_keys@);
    rows
}

/// Appends one `DeleteRows` packet per partition with deleted rows.
fn push_deleted_rows(result: &mut Vec<DataReaderContract>, table_name: &String, rows: &Vec<(String, Vec<String>)>)
    ensures
        contracts_view(final(result)@) == contracts_view(old(result)@) + deleted_rows_packets(table_name@, rows@),
{
    let mut i: usize = 0;
    while i < rows.len()
        invariant
            i <= rows@.len(),
            contracts_view(result@) == contracts_view(old(result)@) + deleted_rows_packets(table_name@, rows@.subrange(0, i as int)),
        decreases rows@.len() - i,
    {
        let (partition_key, row_keys) = &rows[i];
        let ghost before = result@;
        let contract = DataReaderContract::DeleteRows {
            table_name: table_name.clone(),
            rows: rows_of_partition(partition_key, row_keys),
        };
        result.push(contract);
        proof {
            let prefix = rows@.subrange(0, i as int);
            let next = rows@.subrange(0, i + 1);
            assert(next.drop_last() =~= prefix);
            assert(contracts_view(result@) =~= contracts_view(before).push(result@.last()@));
        }
        i = i + 1;
    }
    assert(rows@.subrange(0, rows@.len() as int) =~= rows@);
}

/// Builds the packets a reader gets for `sync_event`.
pub fn event_contracts(sync_event: &SyncEvent) -> (r: Vec<DataReaderContract>)
    ensures
        contracts_view(r@) == event_packets(*sync_event),
        packets_follow_event(*sync_event, contracts_view(r@)),
{
    let mut result: Vec<DataReaderContract> = Vec::new();
    match sync_event {
        SyncEvent::TableFirstInit { table_name, data, .. } => {
            result.push(DataReaderContract::InitTable { table_name: table_name.clone(), data: data.clone() });
        },
        SyncEvent::UpdateTableAttributes { .. } => {},
        SyncEvent::InitTable { table_name, data, .. } => {
            result.push(DataReaderContract::InitTable { table_name: table_name.clone(), data: data.clone() });
        },
        SyncEvent::InitPartitions { table_name, partitions_to_update, .. } => {
            push_init_partitions(&mut result, table_name, partitions_to_update);
            assert(contracts_view(result@) =~= init_partition_packets(table_name@, partitions_to_update@));
        },
        SyncEvent::UpdateRows { table_name, data, .. } => {
            result.push(DataReaderContract::UpdateRows { table_name: table_name.clone(), data: data.clone() });
        },
        SyncEvent::DeleteRows { table_name, deleted_partitions, deleted_rows, .. } => {
            if let Some(deleted_partitions) = deleted_partitions {
                push_emptied_partitions(&mut result, table_name, deleted_partitions);
            }
            if let Some(deleted_rows) = deleted_rows {
                push_deleted_rows(&mut result, table_name, deleted_rows);
            }
            proof {
                let a = match deleted_partitions {
                    Some(p) => emptied_partition_packets(table_name@, p@),
                    None => Seq::empty(),
                };
                let b = match deleted_rows {
                    Some(rr) => deleted_rows_packets(table_name@, rr@),
                    None => Seq::empty(),
                };
                assert(contracts_view(result@) =~= a + b);
            }
        },
        SyncEvent::DeleteTable { table_name } => {
            result.push(DataReaderContract::InitTable { table_name: table_name.clone(), data: empty_array_json() });
        },
    }
    proof {
        assert(contracts_view(result@) =~= event_packets(*sync_event));
        lemma_event_packets(*sync_event);
    }
    result
}

} // verus!
