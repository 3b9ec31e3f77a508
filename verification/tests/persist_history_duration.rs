use my_no_sql_server::persist_history_duration::PersistHistoryDuration;

#[test]
fn history_keeps_fewer_than_max_entries() {
    let mut history = PersistHistoryDuration::new();
    assert!(history.get().is_empty());
    for i in 0..200usize {
        history.add(i);
    }
    let data = history.get();
    assert_eq!(data.len(), 119);
    assert_eq!(data[0], 81);
    assert_eq!(data[118], 199);
}

#[test]
fn history_below_limit_keeps_everything() {
    let mut history = PersistHistoryDuration::new();
    history.add(5);
    history.add(7);
    assert_eq!(history.get(), vec![5, 7]);
}
