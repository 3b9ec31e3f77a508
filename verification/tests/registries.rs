use my_no_sql_server::data_readers_data::{get_http_sessions_to_gc, get_subscribred_to_table, DataReadersData, ReaderConnectionKey};
use my_no_sql_server::db_namespace::{DbNamespaces, DeleteNamespaceError, NamespaceTables};
use my_no_sql_server::http_writers::HttpWritersData;
use std::sync::Arc;

#[test]
fn readers_registry_by_connection() {
    let mut data: DataReadersData<&'static str> = DataReadersData::new();
    assert_eq!(data.get_next_id(), 0);
    assert_eq!(data.get_next_id(), 1);
    data.insert("Tcp-5".to_string(), ReaderConnectionKey::Tcp(5), Arc::new("tcp reader"));
    data.insert("Http-1".to_string(), ReaderConnectionKey::Http("s1".to_string()), Arc::new("http reader"));
    assert_eq!(*data.get_tcp(5).unwrap(), "tcp reader");
    assert!(data.get_tcp(6).is_none());
    assert_eq!(*data.get_http("s1").unwrap(), "http reader");
    assert_eq!(data.get_all().len(), 2);
    assert_eq!(data.http_sessions().len(), 1);

    assert_eq!(*data.remove_tcp(5).unwrap(), "tcp reader");
    assert!(data.remove_tcp(5).is_none());
    data.remove_http("s1");
    assert!(data.get_http("s1").is_none());
    assert!(data.get_all().is_empty());
}

#[test]
fn idle_http_sessions_are_selected() {
    let sessions = vec![
        ("a".to_string(), 1_000i64),
        ("b".to_string(), 9_000i64),
        ("c".to_string(), 20_000i64),
    ];
    assert_eq!(get_http_sessions_to_gc(&sessions, 10_000, 1_000), vec!["a".to_string(), "b".to_string()]);
    assert_eq!(get_http_sessions_to_gc(&sessions, 10_000, 9_001), Vec::<String>::new());
}

struct Ns(usize);

impl NamespaceTables for Ns {
    fn tables_amount(&self) -> usize {
        self.0
    }
}

#[test]
fn namespaces_delete_rules() {
    let mut namespaces: DbNamespaces<Ns> = DbNamespaces::new("default".to_string());
    namespaces.get_or_insert("default".to_string(), Arc::new(Ns(0)));
    namespaces.get_or_insert("full".to_string(), Arc::new(Ns(3)));
    namespaces.get_or_insert("empty".to_string(), Arc::new(Ns(0)));
    let again = namespaces.get_or_insert("full".to_string(), Arc::new(Ns(7)));
    assert_eq!(again.0, 3);
    assert_eq!(namespaces.get_default().0, 0);
    assert_eq!(namespaces.get_all().len(), 3);

    assert!(matches!(namespaces.delete("default"), Err(DeleteNamespaceError::IsDefault)));
    assert!(matches!(namespaces.delete("none"), Err(DeleteNamespaceError::NotFound)));
    assert!(matches!(namespaces.delete("full"), Err(DeleteNamespaceError::NotEmpty(3))));
    assert!(namespaces.delete("empty").is_ok());
    assert!(namespaces.get("empty").is_none());
    assert!(namespaces.get("full").is_some());
}

#[test]
fn http_writers_update_and_gc() {
    let mut writers = HttpWritersData::new();
    writers.update("w1", "1.0", vec!["t".to_string()], 0);
    writers.update("w2", "1.0", vec![], 50_000_000);
    writers.update("w1", "2.0", vec![], 10_000_000);
    assert_eq!(writers.get().len(), 2);
    assert_eq!(writers.get()[0].1.version, "2.0");

    writers.gc(129_999_999);
    assert_eq!(writers.get().len(), 2);
    writers.gc(130_000_000);
    assert_eq!(writers.get().len(), 1);
    assert_eq!(writers.get()[0].0, "w2");
}

#[test]
fn subscribed_readers_are_selected_in_order() {
    let a = Arc::new(1u8);
    let b = Arc::new(2u8);
    let c = Arc::new(3u8);
    let selected = get_subscribred_to_table(vec![(a.clone(), true), (b.clone(), false), (c.clone(), true)]).unwrap();
    assert_eq!(selected, vec![a.clone(), c.clone()]);
    assert!(get_subscribred_to_table(vec![(a, false), (b, false)]).is_none());
    assert!(get_subscribred_to_table::<u8>(vec![]).is_none());
}

#[test]
fn namespaces_are_listed_by_name() {
    let mut namespaces: DbNamespaces<Ns> = DbNamespaces::new("default".to_string());
    namespaces.get_or_insert("zeta".to_string(), Arc::new(Ns(1)));
    namespaces.get_or_insert("alpha".to_string(), Arc::new(Ns(2)));
    namespaces.get_or_insert("default".to_string(), Arc::new(Ns(3)));
    namespaces.get_or_insert("Beta".to_string(), Arc::new(Ns(4)));
    let amounts: Vec<usize> = namespaces.get_all().iter().map(|n| n.0).collect();
    assert_eq!(amounts, vec![4, 2, 3, 1]);
}

#[test]
fn writers_are_listed_by_name() {
    let mut writers = HttpWritersData::new();
    writers.update("w2", "1.0", vec![], 0);
    writers.update("w10", "1.0", vec![], 0);
    writers.update("a", "1.0", vec![], 0);
    let names: Vec<&str> = writers.get().iter().map(|w| w.0.as_str()).collect();
    assert_eq!(names, vec!["a", "w10", "w2"]);
}
