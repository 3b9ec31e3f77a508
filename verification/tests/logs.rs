use my_no_sql_server::logs::{console_prints, gc_logs, LogItem, LogLevel, LogsData, SystemProcess};
use std::sync::Arc;

fn item(table: Option<&str>, level: LogLevel, process: SystemProcess, message: &str) -> LogItem {
    LogItem {
        date: 0,
        table: table.map(|t| t.to_string()),
        level,
        process,
        process_name: "test".to_string(),
        message: message.to_string(),
        err_ctx: None,
    }
}

#[test]
fn system_process_names_parse_back() {
    for p in SystemProcess::iterate() {
        let name = match p {
            SystemProcess::System => "system",
            SystemProcess::TcpSocket => "tcpsocket",
            SystemProcess::BlobOperation => "bloboperation",
            SystemProcess::TableOperation => "tableoperation",
            SystemProcess::Init => "init",
        };
        assert_eq!(SystemProcess::parse(name), Some(p));
    }
    assert_eq!(SystemProcess::parse("System"), None);
    assert_eq!(SystemProcess::parse(""), None);
}

#[test]
fn system_process_numbers() {
    let numbers: Vec<u8> = SystemProcess::iterate().iter().map(|p| p.as_u8()).collect();
    assert_eq!(numbers, vec![0, 1, 2, 3, 4]);
}

#[test]
fn console_print_counts() {
    assert_eq!(console_prints(&item(None, LogLevel::Info, SystemProcess::TcpSocket, "m")), 0);
    assert_eq!(console_prints(&item(None, LogLevel::Error, SystemProcess::TcpSocket, "m")), 1);
    assert_eq!(console_prints(&item(None, LogLevel::Info, SystemProcess::Init, "m")), 1);
    assert_eq!(console_prints(&item(None, LogLevel::FatalError, SystemProcess::System, "m")), 2);
}

#[test]
fn gc_logs_keeps_newest_hundred() {
    let mut items: Vec<Arc<LogItem>> = (0..150)
        .map(|i| Arc::new(item(None, LogLevel::Info, SystemProcess::Init, &i.to_string())))
        .collect();
    gc_logs(&mut items);
    assert_eq!(items.len(), 100);
    assert_eq!(items[0].message, "50");
    assert_eq!(items[99].message, "149");
}

#[test]
fn logs_are_kept_per_table_and_process() {
    let mut logs = LogsData::new();
    logs.add(item(Some("a"), LogLevel::Info, SystemProcess::TableOperation, "1"));
    logs.add(item(None, LogLevel::Error, SystemProcess::System, "2"));
    logs.add(item(Some("a"), LogLevel::Info, SystemProcess::System, "3"));

    assert_eq!(logs.get().len(), 3);
    let by_table: Vec<String> = logs.get_by_table_name("a").unwrap().iter().map(|i| i.message.clone()).collect();
    assert_eq!(by_table, vec!["1".to_string(), "3".to_string()]);
    assert!(logs.get_by_table_name("b").is_none());
    let by_process: Vec<String> = logs.get_by_process(SystemProcess::System).unwrap().iter().map(|i| i.message.clone()).collect();
    assert_eq!(by_process, vec!["2".to_string(), "3".to_string()]);
    assert!(logs.get_by_process(SystemProcess::TcpSocket).is_none());
}

#[test]
fn each_log_list_stays_within_a_hundred() {
    let mut logs = LogsData::new();
    for i in 0..250 {
        logs.add(item(Some("t"), LogLevel::Info, SystemProcess::BlobOperation, &i.to_string()));
    }
    assert_eq!(logs.get().len(), 100);
    let by_table = logs.get_by_table_name("t").unwrap();
    assert_eq!(by_table.len(), 100);
    assert_eq!(by_table[99].message, "249");
    assert_eq!(logs.get_by_process(SystemProcess::BlobOperation).unwrap().len(), 100);
}
