use my_no_sql_server::connection_delivery_info::HttpConnectionDeliveryInfo;

#[test]
fn waiting_request_is_pinged_after_timeout() {
    let mut info: HttpConnectionDeliveryInfo<&'static str, Vec<u8>> = HttpConnectionDeliveryInfo::new();
    assert!(info.payload_to_deliver.is_empty());
    assert!(info.ping(10_000_000).is_none());
    info.issue_task_completion("task", 1_000_000);
    assert!(info.is_waiting());
    assert!(info.ping(3_999_999).is_none());
    assert!(info.is_waiting());
    assert_eq!(info.ping(4_000_000), Some("task"));
    assert!(!info.is_waiting());
}

#[test]
fn task_is_taken_once() {
    let mut info: HttpConnectionDeliveryInfo<u32, Vec<u8>> = HttpConnectionDeliveryInfo::new();
    info.issue_task_completion(7, 0);
    assert_eq!(info.get_task_to_write_response(), Some(7));
    assert_eq!(info.get_task_to_write_response(), None);
}
