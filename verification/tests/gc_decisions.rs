use my_no_sql_server::date_time::MyDateTime;
use my_no_sql_server::gc_decisions::{as_hash_map, get_items_to_gc, metrics_tick, persist_delay_seconds, TablePersistMetrics};
use my_no_sql_server::request_metrics::{RequestMetric, RequestMetricsData};
use std::time::Duration;

#[test]
fn inactive_readers_are_selected() {
    let readers = vec![(1u64, 0i64), (2u64, 5_000i64), (3u64, 20_000i64)];
    assert_eq!(get_items_to_gc(&readers, MyDateTime::new(10_000), 5_000), vec![1u64, 2u64]);
    assert_eq!(get_items_to_gc(&readers, MyDateTime::new(10_000), 5_001), vec![1u64]);
}

#[test]
fn persist_delay_in_whole_seconds() {
    assert_eq!(persist_delay_seconds(None, 5_000_000), 0);
    assert_eq!(persist_delay_seconds(Some(1_000_000), 3_500_000), 2);
    assert_eq!(persist_delay_seconds(Some(4_000_000), 3_500_000), 0);
}

#[test]
fn no_rows_give_an_empty_map() {
    assert!(as_hash_map(vec![]).is_empty());
}

#[test]
fn request_metrics_keep_newest_hundred() {
    let mut metrics = RequestMetricsData::new();
    for i in 0..120u16 {
        metrics.add_metric(RequestMetric {
            moment: i as i64,
            name: format!("r{}", i),
            duration: Duration::from_millis(1),
            status_code: 200 + i,
            result_size: 0,
        });
    }
    let kept = metrics.get_metrics();
    assert_eq!(kept.len(), 100);
    assert_eq!(kept[0].name, "r20");
    assert_eq!(kept[99].status_code, 319);
}

#[test]
fn metrics_tick_sums_persist_amounts() {
    let tables = vec![
        TablePersistMetrics { persist_amount: 3, last_persist_time: Some(1_000_000), last_update_time: 3_500_000 },
        TablePersistMetrics { persist_amount: 4, last_persist_time: None, last_update_time: 0 },
    ];
    let (total, delays) = metrics_tick(&tables);
    assert_eq!(total, 7);
    assert_eq!(delays, vec![2, 0]);
}

#[test]
fn clock_reads_after_the_epoch() {
    assert!(MyDateTime::utc_now().miliseconds > 1_600_000_000_000);
}
