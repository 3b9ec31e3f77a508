//! The packets a read-only node sends its main node about what its readers
//! touched, so that expiration and last-read moments stay in step.
use crate::sync_persist::strings_view;
use vstd::prelude::*;

verus! {

/// A change waiting to be delivered to the main node, with the id the main
/// node confirms it by. Moments are in microseconds.
pub enum DeliverToMainNodeEvent {
    UpdatePartitionsExpiration { confirmation_id: i64, table_name: String, partitions: Vec<(String, Option<i64>)> },
    UpdatePartitionsLastReadTime { confirmation_id: i64, table_name: String, partitions: Vec<String> },
    UpdateRowsExpirationTime {
        confirmation_id: i64,
        table_name: String,
        partition_key: String,
        row_keys: Vec<String>,
        expiration_time: Option<i64>,
    },
    UpdateRowsLastReadTime { confirmation_id: i64, table_name: String, partition_key: String, row_keys: Vec<String> },
}

/// The packet that carries a change to the main node.
#[derive(Debug)]
pub enum MainNodeContract {
    UpdatePartitionsExpirationTime { confirmation_id: i64, table_name: String, partitions: Vec<(String, Option<i64>)> },
    UpdatePartitionsLastReadTime { confirmation_id: i64, table_name: String, partitions: Vec<String> },
    UpdateRowsExpirationTime {
        confirmation_id: i64,
        table_name: String,
        partition_key: String,
        row_keys: Vec<String>,
        expiration_time: Option<i64>,
    },
    UpdateRowsLastReadTime { confirmation_id: i64, table_name: String, partition_key: String, row_keys: Vec<String> },
}

/// Partition keys with their expiration moments, keys as characters.
pub open spec fn expirations_view(p: Seq<(String, Option<i64>)>) -> Seq<(Seq<char>, Option<i64>)> {
    p.map_values(|x: (String, Option<i64>)| (x.0@, x.1))
}

/// Whether `c` is the packet that delivers `e`: same kind, same confirmation
/// id, same table, keys and moments, in the same order.
pub open spec fn delivers(e: DeliverToMainNodeEvent, c: MainNodeContract) -> bool {
    match (e, c) {
        (
            DeliverToMainNodeEvent::UpdatePartitionsExpiration { confirmation_id: a, table_name: t, partitions: p },
            MainNodeContract::UpdatePartitionsExpirationTime { confirmation_id: b, table_name: u, partitions: q },
        ) => a == b && t@ == u@ && expirations_view(p@) == expirations_view(q@),
        (
            DeliverToMainNodeEvent::UpdatePartitionsLastReadTime { confirmation_id: a, table_name: t, partitions: p },
            MainNodeContract::UpdatePartitionsLastReadTime { confirmation_id: b, table_name: u, partitions: q },
        ) => a == b && t@ == u@ && strings_view(p@) == strings_view(q@),
        (
            DeliverToMainNodeEvent::UpdateRowsExpirationTime { confirmation_id: a, table_name: t, partition_key: k, row_keys: r, expiration_time: x },
            MainNodeContract::UpdateRowsExpirationTime { confirmation_id: b, table_name: u, partition_key: l, row_keys: s, expiration_time: y },
        ) => a == b && t@ == u@ && k@ == l@ && strings_view(r@) == strings_view(s@) && x == y,
        (
            DeliverToMainNodeEvent::UpdateRowsLastReadTime { confirmation_id: a, table_name: t, partition_key: k, row_keys: r },
            MainNodeContract::UpdateRowsLastReadTime { confirmation_id: b, table_name: u, partition_key: l, row_keys: s },
        ) => a == b && t@ == u@ && k@ == l@ && strings_view(r@) == strings_view(s@),
        _ => false,
    }
}

/// The packet that delivers `event` to the main node.
pub fn to_main_node_pusher(event: DeliverToMainNodeEvent) -> (r: MainNodeContract)
    ensures
        delivers(event, r),
{
    match event {
        DeliverToMainNodeEvent::UpdatePartitionsExpiration { confirmation_id, table_name, partitions } => {
            MainNodeContract::UpdatePartitionsExpirationTime {
                confirmation_id,
                table_name,
                partitions,
            }
        },
        DeliverToMainNodeEvent::UpdatePartitionsLastReadTime { confirmation_id, table_name, partitions } => {
            MainNodeContract::UpdatePartitionsLastReadTime {
                confirmation_id,
                table_name,
                partitions,
            }
        },
        DeliverToMainNodeEvent::UpdateRowsExpirationTime { confirmation_id, table_name, partition_key, row_keys, expiration_time } => {
            MainNodeContract::UpdateRowsExpirationTime {
                confirmation_id,
                table_name,
                partition_key,
                row_keys,
                expiration_time,
            }
        },
        DeliverToMainNodeEvent::UpdateRowsLastReadTime { confirmation_id, table_name, partition_key, row_keys } => {
            MainNodeContract::UpdateRowsLastReadTime {
                confirmation_id,
                table_name,
                partition_key,
                row_keys,
            }
        },
    }
}

} // verus!
