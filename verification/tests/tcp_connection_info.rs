use my_no_sql_server::tcp_connection_info::{ConnectionStatistics, ReaderName, TcpConnection, TcpConnectionInfo};
use std::sync::atomic::AtomicUsize;
use std::sync::Arc;

fn connection(addr: Option<&str>) -> Arc<TcpConnection> {
    Arc::new(TcpConnection {
        id: 12,
        addr: addr.map(|a| a.to_string()),
        statistics: ConnectionStatistics {
            pending_to_send_buffer_size: AtomicUsize::new(33),
        },
    })
}

#[test]
fn reader_names() {
    let reader = ReaderName::AsReader("r1".to_string());
    assert!(!reader.is_node());
    assert_eq!(reader.get_name(), "r1");
    let node = ReaderName::AsNode {
        location: "eu".to_string(),
        version: "1.0".to_string(),
    };
    assert!(node.is_node());
    assert_eq!(node.get_name(), "eu");
}

#[test]
fn connection_info_getters() {
    let info = TcpConnectionInfo::new(connection(Some("10.0.0.1:5125")), ReaderName::AsReader("r".to_string()), true);
    assert_eq!(info.get_id(), 12);
    assert_eq!(info.get_ip(), "10.0.0.1:5125");
    assert!(info.is_compressed_data());
    assert!(!info.is_node());
    assert_eq!(info.get_name(), "r");
    assert_eq!(info.get_pending_to_send(), 33);
    let unknown = TcpConnectionInfo::new(connection(None), ReaderName::AsNode { location: "l".to_string(), version: "v".to_string() }, false);
    assert_eq!(unknown.get_ip(), "unknown");
    assert!(unknown.is_node());
}

#[test]
fn sent_amount_is_counted_per_period() {
    let info = TcpConnectionInfo::new(connection(None), ReaderName::AsReader("r".to_string()), false);
    info.add_sent_amount(3);
    info.add_sent_amount(4);
    assert_eq!(info.take_sent_amount(), 7);
    assert_eq!(info.take_sent_amount(), 0);
}
