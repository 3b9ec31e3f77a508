use my_no_sql_server::gc_db_rows::{gc_it, DataToGc, GcAction};
use my_no_sql_server::save_retries::{
    attributes_retry_message, attributes_save_step, partition_retry_message, partition_save_step, SaveStep,
};
use my_no_sql_server::sync_to_main_node::{to_main_node_pusher, DeliverToMainNodeEvent, MainNodeContract};
use my_no_sql_server::table_load::{init_to_db_table, LoadBlobResult, LoadedTableData, TableMetadata};

#[test]
fn main_node_gets_rows_expiration() {
    let event = DeliverToMainNodeEvent::UpdateRowsExpirationTime {
        confirmation_id: 7,
        table_name: "t".to_string(),
        partition_key: "p".to_string(),
        row_keys: vec!["a".to_string(), "b".to_string()],
        expiration_time: Some(100),
    };
    match to_main_node_pusher(event) {
        MainNodeContract::UpdateRowsExpirationTime { confirmation_id, table_name, partition_key, row_keys, expiration_time } => {
            assert_eq!(confirmation_id, 7);
            assert_eq!(table_name, "t");
            assert_eq!(partition_key, "p");
            assert_eq!(row_keys, vec!["a".to_string(), "b".to_string()]);
            assert_eq!(expiration_time, Some(100));
        }
        other => panic!("unexpected {:?}", other),
    }
}

#[test]
fn main_node_gets_partitions_last_read() {
    let event = DeliverToMainNodeEvent::UpdatePartitionsLastReadTime {
        confirmation_id: 3,
        table_name: "t".to_string(),
        partitions: vec!["p".to_string()],
    };
    match to_main_node_pusher(event) {
        MainNodeContract::UpdatePartitionsLastReadTime { confirmation_id, partitions, .. } => {
            assert_eq!(confirmation_id, 3);
            assert_eq!(partitions, vec!["p".to_string()]);
        }
        other => panic!("unexpected {:?}", other),
    }
}

#[test]
fn retry_messages() {
    assert_eq!(partition_retry_message("pk", 3), "Can not sync partition pk. Attempt: 3");
    assert_eq!(attributes_retry_message(12), "Can not sync table attributes.Attempt: 12");
}

#[test]
fn loaded_blobs_build_the_table() {
    let mut table = LoadedTableData::new("t".to_string());
    assert!(table.persist);
    assert_eq!(table.max_partitions_amount, None);
    init_to_db_table(
        &mut table,
        vec![
            LoadBlobResult::DbPartition { partition_key: "a".to_string(), db_partition: vec![b"{}".to_vec()] },
            LoadBlobResult::Metadata(TableMetadata { persist: false, max_partitions_amount: Some(10) }),
            LoadBlobResult::DbPartition { partition_key: "a".to_string(), db_partition: vec![] },
            LoadBlobResult::DbPartition { partition_key: "b".to_string(), db_partition: vec![b"{}".to_vec()] },
        ],
    );
    assert!(!table.persist);
    assert_eq!(table.max_partitions_amount, Some(10));
    assert_eq!(table.get_partition("a"), Some(&vec![]));
    assert_eq!(table.get_partition("b"), Some(&vec![b"{}".to_vec()]));
    assert_eq!(table.get_partition("c"), None);
}

#[test]
fn gc_removes_partitions_then_rows() {
    let data = DataToGc { partitions: vec!["p".to_string()], db_rows: vec![("q".to_string(), vec!["r".to_string()])] };
    let actions = gc_it(data, 1_000_000);
    assert_eq!(actions.len(), 2);
    match &actions[0] {
        GcAction::DeletePartitions { partition_keys, persist_moment, now } => {
            assert_eq!(partition_keys, &vec!["p".to_string()]);
            assert_eq!((*persist_moment, *now), (6_000_000, 1_000_000));
        }
        _ => panic!("partitions first"),
    }
    match &actions[1] {
        GcAction::BulkDelete { rows, persist_moment, .. } => {
            assert_eq!(rows, &vec![("q".to_string(), vec!["r".to_string()])]);
            assert_eq!(*persist_moment, 6_000_000);
        }
        _ => panic!("rows second"),
    }
    let only_rows = gc_it(DataToGc { partitions: vec![], db_rows: vec![("q".to_string(), vec![])] }, 0);
    assert_eq!(only_rows.len(), 1);
    assert!(gc_it(DataToGc { partitions: vec![], db_rows: vec![] }, 0).is_empty());
}

#[test]
fn failed_saves_are_retried_with_their_attempt_number() {
    assert!(matches!(partition_save_step("pk", 0, true), SaveStep::Saved));
    match partition_save_step("pk", 2, false) {
        SaveStep::Retry { attempt_no, message, delay_seconds } => {
            assert_eq!(attempt_no, 3);
            assert_eq!(message, "Can not sync partition pk. Attempt: 3");
            assert_eq!(delay_seconds, 3);
        }
        other => panic!("unexpected {:?}", other),
    }
    match attributes_save_step(0, false) {
        SaveStep::Retry { attempt_no, message, .. } => {
            assert_eq!(attempt_no, 1);
            assert_eq!(message, "Can not sync table attributes.Attempt: 1");
        }
        other => panic!("unexpected {:?}", other),
    }
    assert!(matches!(attributes_save_step(5, true), SaveStep::Saved));
}
