use my_no_sql_server::data_reader_updatable_data::DataReaderUpdatableData;

#[test]
fn subscribe_and_unsubscribe() {
    let mut data = DataReaderUpdatableData::new();
    assert!(!data.has_table("a"));
    data.subscribe("a".to_string());
    data.subscribe("b".to_string());
    data.subscribe("a".to_string());
    assert!(data.has_table("a"));
    assert!(data.has_table("b"));
    let mut names = data.get_table_names();
    names.sort();
    assert_eq!(names, vec!["a".to_string(), "b".to_string()]);
    data.unsubscribe("a");
    assert!(!data.has_table("a"));
    data.unsubscribe("missing");
    assert_eq!(data.get_table_names(), vec!["b".to_string()]);
}
