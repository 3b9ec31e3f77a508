//! What the readers are sent for each committed transaction, and the commands
//! the readers' broadcast loop takes.
use crate::data_reader_contract::{rows_view, ContractView, DataReaderContract};
use crate::sync_events::{
    contracts_view, emptied_partition_packets, empty_array, empty_array_json, lemma_emptied_partition_packets_at, partition_rows,
    push_emptied_partitions, rows_of_partition,
};
use std::sync::Arc;
use vstd::prelude::*;

verus! {

/// A committed change of a table, with the serialized JSON the readers get.
#[derive(Debug)]
pub enum TransactionEvent {
    InitTable { table_name: String, data: Vec<u8> },
    UpdateRow { table_name: String, partition_key: String, data: Vec<u8> },
    UpdateRows { table_name: String, data: Vec<u8> },
    CleanTable { table_name: String },
    DeletePartitions { table_name: String, partitions: Vec<String> },
    /// The row keys deleted, by partition.
    DeleteRows { table_name: String, rows: Vec<(String, Vec<String>)> },
    UpdateTableAttributes { table_name: String, persist: bool, max_partitions_amount: Option<usize> },
    DeleteTable { table_name: String },
}

#[derive(Debug)]
pub enum DataReadersCommand {
    Subscribe { connection_id: u64, table_name: String },
    TransactionEvent(Arc<TransactionEvent>),
}

/// All deleted rows as (partition key, row key) pairs, partition by partition.
pub open spec fn flattened_rows(rows: Seq<(String, Vec<String>)>) -> Seq<(Seq<char>, Seq<char>)>
    decreases rows.len(),
{
    if rows.len() == 0 {
        Seq::empty()
    } else {
        flattened_rows(rows.drop_last()) + partition_rows(rows.last().0@, rows.last().1@)
    }
}

/// The packets broadcast for a committed transaction, in order.
pub open spec fn transaction_packets(e: TransactionEvent) -> Seq<ContractView> {
    match e {
        TransactionEvent::InitTable { table_name, data } => seq![ContractView::InitTable { table_name: table_name@, data: data@ }],
        TransactionEvent::UpdateRow { table_name, data, .. } => seq![ContractView::UpdateRows { table_name: table_name@, data: data@ }],
        TransactionEvent::UpdateRows { table_name, data } => seq![ContractView::UpdateRows { table_name: table_name@, data: data@ }],
        TransactionEvent::CleanTable { table_name } => seq![ContractView::InitTable { table_name: table_name@, data: empty_array() }],
        TransactionEvent::DeletePartitions { table_name, partitions } => emptied_partition_packets(table_name@, partitions@),
        TransactionEvent::DeleteRows { table_name, rows } => seq![ContractView::DeleteRows { table_name: table_name@, rows: flattened_rows(rows@) }],
        TransactionEvent::UpdateTableAttributes { .. } => Seq::empty(),
        TransactionEvent::DeleteTable { table_name } => seq![ContractView::InitTable { table_name: table_name@, data: empty_array() }],
    }
}

/// What the readers are sent for a committed transaction, said packet by
/// packet: a table snapshot is one `InitTable` with the event's own bytes;
/// an update of one row or of many is one `UpdateRows` with the event's own
/// bytes; a cleaned or deleted table is one `InitTable` with the empty JSON
/// array `[]`; deleted partitions are one emptying `InitPartition` each, in
/// order; deleted rows are one `DeleteRows` listing every (partition key, row
/// key) pair, partition by partition; a change of attributes sends nothing.
pub open spec fn transaction_packets_follow(e: TransactionEvent, ps: Seq<ContractView>) -> bool {
    match e {
        TransactionEvent::InitTable { table_name, data } => ps == seq![ContractView::InitTable { table_name: table_name@, data: data@ }],
        TransactionEvent::UpdateRow { table_name, data, .. } => ps == seq![ContractView::UpdateRows { table_name: table_name@, data: data@ }],
        TransactionEvent::UpdateRows { table_name, data } => ps == seq![ContractView::UpdateRows { table_name: table_name@, data: data@ }],
        TransactionEvent::CleanTable { table_name } => ps == seq![ContractView::InitTable { table_name: table_name@, data: seq![91u8, 93u8] }],
        TransactionEvent::DeletePartitions { table_name, partitions } => {
            &&& ps.len() == partitions@.len()
            &&& forall|i: int| 0 <= i < ps.len() ==> #[trigger] ps[i] == (ContractView::InitPartition {
                table_name: table_name@,
                partition_key: partitions@[i]@,
                data: seq![91u8, 93u8],
            })
        },
        TransactionEvent::DeleteRows { table_name, rows } => ps == seq![ContractView::DeleteRows {
            table_name: table_name@,
            rows: rows@.map_values(|r: (String, Vec<String>)| r.1@.map_values(|k: String| (r.0@, k@))).flatten(),
        }],
        TransactionEvent::UpdateTableAttributes { .. } => ps.len() == 0,
        TransactionEvent::DeleteTable { table_name } => ps == seq![ContractView::InitTable { table_name: table_name@, data: seq![91u8, 93u8] }],
    }
}

proof fn lemma_flattened_rows(rows: Seq<(String, Vec<String>)>)
    ensures
        flattened_rows(rows) == rows.map_values(|r: (String, Vec<String>)| r.1@.map_values(|k: String| (r.0@, k@))).flatten(),
    decreases rows.len(),
{
    let f = |r: (String, Vec<String>)| r.1@.map_values(|k: String| (r.0@, k@));
    if rows.len() == 0 {
        assert(rows.map_values(f) =~= Seq::<Seq<(Seq<char>, Seq<char>)>>::empty());
    } else {
        lemma_flattened_rows(rows.drop_last());
        assert(rows.map_values(f) =~= rows.drop_last().map_values(f).push(f(rows.last())));
        rows.drop_last().map_values(f).lemma_flatten_push(f(rows.last()));
        assert(partition_rows(rows.last().0@, rows.last().1@) =~= f(rows.last()));
    }
}

/// Every committed transaction is broadcast as `transaction_packets_follow`
/// says.
pub proof fn lemma_transaction_packets(e: TransactionEvent)
    ensures
        transaction_packets_follow(e, transaction_packets(e)),
{
    match e {
        TransactionEvent::DeletePartitions { table_name, partitions } => {
            lemma_emptied_partition_packets_at(table_name@, partitions@);
        },
        TransactionEvent::DeleteRows { table_name, rows } => {
            lemma_flattened_rows(rows@);
        },
        _ => {},
    }
}

/// Every deleted row as a (partition key, row key) pair.
fn flatten_rows(rows: &Vec<(String, Vec<String>)>) -> (r: Vec<(String, String)>)
    ensures
        rows_view(r@) == flattened_rows(rows@),
{
    let mut result: Vec<(String, String)> = Vec::new();
    let mut i: usize = 0;
    while i < rows.len()
        invariant
            i <= rows@.len(),
            rows_view(result@) == flattened_rows(rows@.subrange(0, i as int)),
        decreases rows@.len() - i,
    {
        let (partition_key, row_keys) = &rows[i];
        let ghost before = result@;
        let mut of_partition = rows_of_partition(partition_key, row_keys);
        let ghost added = of_partition@;
        result.append(&mut of_partition);
        proof {
            let prefix = rows@.subrange(0, i as int);
            let next = rows@.subrange(0, i + 1);
            assert(next.drop_last() =~= prefix);
            assert(rows_view(result@) =~= rows_view(before) + rows_view(added));
        }
        i = i + 1;
    }
    assert(rows@.subrange(0, rows@.len() as int) =~= rows@);
    result
}

/// The packets to broadcast to the readers of the table for a committed
/// transaction; a change of table attributes is not broadcast.
pub fn handle_transaction_event(event: &TransactionEvent) -> (r: Vec<DataReaderContract>)
    ensures
        contracts_view(r@) == transaction_packets(*event),
        transaction_packets_follow(*event, contracts_view(r@)),
{
    let mut result: Vec<DataReaderContract> = Vec::new();
    match event {
        TransactionEvent::InitTable { table_name, data } => {
            result.push(DataReaderContract::InitTable { table_name: table_name.clone(), data: data.clone() });
        },
        TransactionEvent::UpdateRow { table_name, data, .. } => {
            result.push(DataReaderContract::UpdateRows { table_name: table_name.clone(), data: data.clone() });
        },
        TransactionEvent::UpdateRows { table_name, data } => {
            result.push(DataReaderContract::UpdateRows { table_name: table_name.clone(), data: data.clone() });
        },
        TransactionEvent::CleanTable { table_name } => {
            result.push(DataReaderContract::InitTable { table_name: table_name.clone(), data: empty_array_json() });
        },
        TransactionEvent::DeletePartitions { table_name, partitions } => {
            push_emptied_partitions(&mut result, table_name, partitions);
            assert(contracts_view(result@) =~= emptied_partition_packets(table_name@, partitions@));
        },
        TransactionEvent::DeleteRows { table_name, rows } => {
            result.push(DataReaderContract::DeleteRows { table_name: table_name.clone(), rows: flatten_rows(rows) });
        },
        TransactionEvent::UpdateTableAttributes { .. } => {},
        TransactionEvent::DeleteTable { table_name } => {
            result.push(DataReaderContract::InitTable { table_name: table_name.clone(), data: empty_array_json() });
        },
    }
    proof {
        assert(contracts_view(result@) =~= transaction_packets(*event));
        lemma_transaction_packets(*event);
    }
    result
}

} // verus!
