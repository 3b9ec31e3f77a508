use my_no_sql_server::data_reader_contract::DataReaderContract;
use my_no_sql_server::data_readers_broadcast::{handle_transaction_event, DataReadersCommand, TransactionEvent};
use my_no_sql_server::incoming_packets::{handle_incoming_package, IncomingAction};
use my_no_sql_server::sync_events::{event_contracts, SyncEvent};
use my_no_sql_server::sync_handler_mappers::{self, TcpContractsToSend};
use my_no_sql_server::sync_loop::{broadcast, handle_event, Recipients};
use my_no_sql_server::sync_persist::{execute, persist_moment, PersistAction};
use my_no_sql_server::tcp_payload_to_send::serialize;
use my_no_sql_server::transactions_mappers;

fn s(v: &str) -> String {
    v.to_string()
}

fn delete_rows_event(persist: bool) -> SyncEvent {
    SyncEvent::DeleteRows {
        table_name: s("t"),
        persist,
        deleted_partitions: Some(vec![s("p1"), s("p2")]),
        deleted_rows: Some(vec![(s("p3"), vec![s("r1"), s("r2")]), (s("p4"), vec![s("r3")])]),
    }
}

fn debug<T: std::fmt::Debug>(v: &T) -> String {
    format!("{:?}", v)
}

#[test]
fn deleted_rows_become_emptied_partitions_then_row_deletions() {
    let contracts = event_contracts(&delete_rows_event(true));
    assert_eq!(contracts.len(), 4);
    match &contracts[0] {
        DataReaderContract::InitPartition { table_name, partition_key, data } => {
            assert_eq!(table_name, "t");
            assert_eq!(partition_key, "p1");
            assert_eq!(data, b"[]");
        }
        other => panic!("unexpected {:?}", other),
    }
    match &contracts[1] {
        DataReaderContract::InitPartition { partition_key, .. } => assert_eq!(partition_key, "p2"),
        other => panic!("unexpected {:?}", other),
    }
    match &contracts[2] {
        DataReaderContract::DeleteRows { table_name, rows } => {
            assert_eq!(table_name, "t");
            assert_eq!(rows, &vec![(s("p3"), s("r1")), (s("p3"), s("r2"))]);
        }
        other => panic!("unexpected {:?}", other),
    }
    match &contracts[3] {
        DataReaderContract::DeleteRows { rows, .. } => assert_eq!(rows, &vec![(s("p4"), s("r3"))]),
        other => panic!("unexpected {:?}", other),
    }
}

#[test]
fn missing_partition_snapshot_is_sent_as_empty_array() {
    let event = SyncEvent::InitPartitions {
        table_name: s("t"),
        persist: true,
        partitions_to_update: vec![(s("a"), Some(b"[{}]".to_vec())), (s("b"), None)],
    };
    let contracts = event_contracts(&event);
    assert_eq!(contracts.len(), 2);
    match (&contracts[0], &contracts[1]) {
        (
            DataReaderContract::InitPartition { partition_key: k0, data: d0, .. },
            DataReaderContract::InitPartition { partition_key: k1, data: d1, .. },
        ) => {
            assert_eq!((k0.as_str(), d0.as_slice()), ("a", &b"[{}]"[..]));
            assert_eq!((k1.as_str(), d1.as_slice()), ("b", &b"[]"[..]));
        }
        other => panic!("unexpected {:?}", other),
    }
}

#[test]
fn deletions_are_never_compressed() {
    let marks: Vec<bool> = serialize(&delete_rows_event(true), true).iter().map(|p| p.1).collect();
    assert_eq!(marks, vec![false, false, false, false]);
    let table = SyncEvent::InitTable { table_name: s("t"), persist: true, data: b"[]".to_vec() };
    let marks: Vec<bool> = serialize(&table, true).iter().map(|p| p.1).collect();
    assert_eq!(marks, vec![true]);
    let marks: Vec<bool> = serialize(&table, false).iter().map(|p| p.1).collect();
    assert_eq!(marks, vec![false]);
    let deleted = SyncEvent::DeleteTable { table_name: s("t") };
    let payload = serialize(&deleted, true);
    assert_eq!(payload.len(), 1);
    assert!(!payload[0].1);
    assert_eq!(debug(&payload[0].0), debug(&DataReaderContract::InitTable { table_name: s("t"), data: b"[]".to_vec() }));
}

#[test]
fn attribute_changes_send_nothing() {
    let event = SyncEvent::UpdateTableAttributes { table_name: s("t") };
    assert!(serialize(&event, true).is_empty());
    assert!(matches!(sync_handler_mappers::into_tcp_contract(&event), TcpContractsToSend::Nothing));
    assert!(transactions_mappers::into_tcp_contract(&event).is_none());
}

#[test]
fn mappers_group_packets() {
    let update = SyncEvent::UpdateRows {
        table_name: s("t"),
        persist: true,
        updated_partitions: vec![s("p")],
        data: b"[1]".to_vec(),
    };
    match sync_handler_mappers::into_tcp_contract(&update) {
        TcpContractsToSend::Single(DataReaderContract::UpdateRows { table_name, data }) => {
            assert_eq!(table_name, "t");
            assert_eq!(data, b"[1]");
        }
        other => panic!("unexpected {:?}", other),
    }
    match sync_handler_mappers::into_tcp_contract(&delete_rows_event(false)) {
        TcpContractsToSend::Multiple(v) => assert_eq!(v.len(), 4),
        other => panic!("unexpected {:?}", other),
    }
    let deleted = SyncEvent::DeleteTable { table_name: s("t") };
    assert!(matches!(sync_handler_mappers::into_tcp_contract(&deleted), TcpContractsToSend::Single(_)));
    assert!(transactions_mappers::into_tcp_contract(&deleted).is_none());
    assert_eq!(transactions_mappers::into_tcp_contract(&update).unwrap().len(), 1);
}

#[test]
fn transactions_become_packets() {
    let clean = handle_transaction_event(&TransactionEvent::CleanTable { table_name: s("t") });
    assert_eq!(debug(&clean), debug(&vec![DataReaderContract::InitTable { table_name: s("t"), data: b"[]".to_vec() }]));

    let row = handle_transaction_event(&TransactionEvent::UpdateRow {
        table_name: s("t"),
        partition_key: s("p"),
        data: b"[{}]".to_vec(),
    });
    assert_eq!(debug(&row), debug(&vec![DataReaderContract::UpdateRows { table_name: s("t"), data: b"[{}]".to_vec() }]));

    let partitions = handle_transaction_event(&TransactionEvent::DeletePartitions {
        table_name: s("t"),
        partitions: vec![s("a"), s("b")],
    });
    assert_eq!(
        debug(&partitions),
        debug(&vec![
            DataReaderContract::InitPartition { table_name: s("t"), partition_key: s("a"), data: b"[]".to_vec() },
            DataReaderContract::InitPartition { table_name: s("t"), partition_key: s("b"), data: b"[]".to_vec() },
        ])
    );

    let rows = handle_transaction_event(&TransactionEvent::DeleteRows {
        table_name: s("t"),
        rows: vec![(s("a"), vec![s("1"), s("2")]), (s("b"), vec![s("3")])],
    });
    assert_eq!(
        debug(&rows),
        debug(&vec![DataReaderContract::DeleteRows {
            table_name: s("t"),
            rows: vec![(s("a"), s("1")), (s("a"), s("2")), (s("b"), s("3"))],
        }])
    );

    let attributes = handle_transaction_event(&TransactionEvent::UpdateTableAttributes {
        table_name: s("t"),
        persist: false,
        max_partitions_amount: Some(3),
    });
    assert!(attributes.is_empty());

    let deleted = handle_transaction_event(&TransactionEvent::DeleteTable { table_name: s("t") });
    assert_eq!(debug(&deleted), debug(&clean));
}

#[test]
fn persistence_marks_follow_the_events() {
    let events = vec![
        SyncEvent::TableFirstInit { connection_id: 1, table_name: s("t"), data: vec![] },
        SyncEvent::UpdateTableAttributes { table_name: s("t") },
        SyncEvent::InitTable { table_name: s("t"), persist: false, data: vec![] },
        SyncEvent::UpdateRows { table_name: s("t"), persist: true, updated_partitions: vec![s("p")], data: vec![] },
        delete_rows_event(true),
        delete_rows_event(false),
        SyncEvent::DeleteTable { table_name: s("t") },
    ];
    let actions = execute(true, &events);
    assert_eq!(
        debug(&actions),
        debug(&vec![
            PersistAction::UpdateTableAttributes,
            PersistAction::FlagPartitions(vec![s("p")]),
            PersistAction::FlagPartitions(vec![s("p1"), s("p2")]),
            PersistAction::FlagPartitions(vec![s("p3"), s("p4")]),
            PersistAction::FlagTable,
        ])
    );
}

#[test]
fn gone_table_is_flagged_whole() {
    let events = vec![SyncEvent::UpdateTableAttributes { table_name: s("t") }, delete_rows_event(true)];
    assert_eq!(debug(&execute(false, &events)), debug(&vec![PersistAction::FlagTable]));
    assert_eq!(debug(&execute(false, &vec![])), debug(&vec![PersistAction::FlagTable]));
    assert!(execute(true, &vec![]).is_empty());
}

#[test]
fn persistence_is_due_five_seconds_later() {
    assert_eq!(persist_moment(1_000_000), 6_000_000);
}

#[test]
fn first_snapshot_goes_to_its_reader_only() {
    let subscribers = vec![(1u64, true), (2u64, false), (3u64, true)];
    let first = SyncEvent::TableFirstInit { connection_id: 2, table_name: s("t"), data: vec![] };
    assert!(matches!(handle_event(&first, &subscribers), Recipients::FirstInit(2)));
    let update = SyncEvent::UpdateTableAttributes { table_name: s("t") };
    match handle_event(&update, &subscribers) {
        Recipients::Subscribers(ids) => assert_eq!(ids, vec![1, 3]),
        other => panic!("unexpected {:?}", other),
    }
}

#[test]
fn event_names_its_table() {
    assert_eq!(delete_rows_event(true).get_table_name(), "t");
}

#[test]
fn reader_packets_become_actions() {
    match handle_incoming_package(DataReaderContract::Ping, 5) {
        IncomingAction::Reply(bytes) => assert_eq!(bytes, vec![1u8]),
        other => panic!("unexpected {:?}", other),
    }
    match handle_incoming_package(DataReaderContract::Greeting { name: s("reader") }, 5) {
        IncomingAction::SetName(name) => assert_eq!(name, "reader"),
        other => panic!("unexpected {:?}", other),
    }
    match handle_incoming_package(DataReaderContract::Subscribe { table_name: s("t") }, 5) {
        IncomingAction::Post(DataReadersCommand::Subscribe { connection_id, table_name }) => {
            assert_eq!(connection_id, 5);
            assert_eq!(table_name, "t");
        }
        other => panic!("unexpected {:?}", other),
    }
}

#[test]
fn sync_handler_sends_nothing_without_subscribers() {

    let first = SyncEvent::TableFirstInit { connection_id: 4, table_name: s("t"), data: vec![] };
    match broadcast(&first, &vec![]) {
        Recipients::Subscribers(ids) => assert!(ids.is_empty()),
        other => panic!("unexpected {:?}", other),
    }
    assert!(matches!(broadcast(&first, &vec![1, 4]), Recipients::FirstInit(4)));
    match broadcast(&delete_rows_event(true), &vec![3, 1]) {
        Recipients::Subscribers(ids) => assert_eq!(ids, vec![3, 1]),
        other => panic!("unexpected {:?}", other),
    }
}
