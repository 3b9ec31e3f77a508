use my_no_sql_server::date_time::{AtomicDateTime, MyDateTime};
use std::time::Duration;

#[test]
fn duration_from_later_moment() {
    let start = MyDateTime::new(1_000);
    assert_eq!(start.duration_from(MyDateTime::new(3_500)), Some(Duration::from_millis(2_500)));
    assert_eq!(start.duration_from(MyDateTime::new(1_000)), None);
    assert_eq!(start.duration_from(MyDateTime::new(10)), None);
}

#[test]
fn duration_from_far_apart_moments() {
    let start = MyDateTime::new(i64::MIN);
    assert_eq!(
        start.duration_from(MyDateTime::new(i64::MAX)),
        Some(Duration::from_millis(u64::MAX))
    );
}

#[test]
fn equals_and_update() {
    let mut a = MyDateTime::new(5);
    assert!(a.equals_to(MyDateTime::new(5)));
    a.update(MyDateTime::new(9));
    assert_eq!(a.miliseconds, 9);
    assert!(!a.equals_to(MyDateTime::new(5)));
}

#[test]
fn iso_string_of_epoch() {
    assert_eq!(MyDateTime::new(0).to_iso_string(), "1970-01-01T00:00:00Z");
    assert_eq!(MyDateTime::new(1_500).to_iso_string(), "1970-01-01T00:00:01.500Z");
}

#[test]
fn atomic_date_time_stores_and_measures() {
    let a = AtomicDateTime::from_date_time(MyDateTime::new(100));
    assert_eq!(a.get(), 100);
    a.update_value(200);
    assert_eq!(a.clone().get(), 200);
    a.update(MyDateTime::new(300));
    assert_eq!(a.duration_to(MyDateTime::new(1_300)), Some(Duration::from_millis(1_000)));
    assert_eq!(a.duration_to(MyDateTime::new(300)), None);
}

#[test]
fn utc_now_is_after_2020() {
    assert!(MyDateTime::utc_now().miliseconds > 1_577_836_800_000);
    assert!(AtomicDateTime::utc_now().get() > 1_577_836_800_000);
}
