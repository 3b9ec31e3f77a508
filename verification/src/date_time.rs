//! Moments in time as milliseconds since the Unix epoch.
use core::time::Duration;
use std::sync::atomic::AtomicI64;
use vstd::prelude::*;

verus! {

/// What `Duration::from_millis` gives for `millis`.
pub uninterp spec fn duration_of_millis(millis: u64) -> Duration;

/// Calls `Duration::from_millis`, which builds the duration of `millis`
/// milliseconds (a pure function of its argument, which never panics).
#[verifier::external_body]
fn duration_from_millis(millis: u64) -> (r: Duration)
    ensures
        r == duration_of_millis(millis),
{
    Duration::from_millis(millis)
}

/// std's `SystemTime`, a moment read from the system clock.
#[verifier::external_type_specification]
#[verifier::external_body]
pub struct ExSystemTime(std::time::SystemTime);

/// Calls `SystemTime::now`: the current moment of the system clock. Nothing
/// is stated of it: it comes from the clock.
#[verifier::external_body]
fn system_time_now() -> (r: std::time::SystemTime) {
    std::time::SystemTime::now()
}

/// What `SystemTime::duration_since` gives for `later` and `earlier`: the time
/// from `earlier` to `later`, or `None` where `later` is the earlier moment.
pub uninterp spec fn time_between(later: std::time::SystemTime, earlier: std::time::SystemTime) -> Option<Duration>;

/// Calls `SystemTime::duration_since`, which std documents as returning the
/// time elapsed from `earlier` to `later`, or an error when `earlier` is
/// later; it never panics. The outcome is a function of the two moments.
#[verifier::external_body]
fn duration_since(later: std::time::SystemTime, earlier: std::time::SystemTime) -> (r: Option<Duration>)
    ensures
        r == time_between(later, earlier),
{
    later.duration_since(earlier).ok()
}

/// std's `UNIX_EPOCH`, 1970-01-01 00:00:00 UTC.
#[verifier::external_body]
fn unix_epoch() -> (r: std::time::SystemTime) {
    std::time::UNIX_EPOCH
}

/// What `Duration::as_millis` gives for `d`: its whole milliseconds.
pub uninterp spec fn whole_millis(d: Duration) -> u128;

/// Calls `Duration::as_millis`, the number of whole milliseconds in `d`,
/// which never panics.
#[verifier::external_body]
fn duration_as_millis(d: Duration) -> (r: u128)
    ensures
        r == whole_millis(d),
{
    d.as_millis()
}

/// A count of milliseconds, capped at what an `i64` holds.
fn capped_millis(millis: u128) -> (r: i64)
    ensures
        r == (if millis <= i64::MAX as u128 { millis as i64 } else { i64::MAX }),
{
    if millis <= i64::MAX as u128 {
        millis as i64
    } else {
        i64::MAX
    }
}

/// The system clock in milliseconds since the Unix epoch: negative for a
/// clock set before 1970, capped at the range of an `i64`. Nothing more is
/// stated of the value: it comes from the clock.
fn utc_now_millis() -> (r: i64) {
    let now = system_time_now();
    let epoch = unix_epoch();
    match duration_since(now, epoch) {
        Some(elapsed) => capped_millis(duration_as_millis(elapsed)),
        None => match duration_since(epoch, now) {
            Some(before) => 0 - capped_millis(duration_as_millis(before)),
            None => 0,
        },
    }
}

/// What the `Debug` rendering of chrono's `DateTime<Utc>` gives for the
/// moment `millis` milliseconds after the Unix epoch.
pub uninterp spec fn iso_text_of_millis(millis: u64) -> Seq<char>;

/// The largest number of milliseconds after the Unix epoch that chrono's
/// `DateTime<Utc>` can hold (the last millisecond of the year 262142).
pub const MAX_CHRONO_MILLIS: i64 = 8_210_266_876_799_999;

/// Calls chrono's `DateTime::<Utc>::from_timestamp_millis` and formats the
/// moment with `{:?}`. chrono holds moments up to `MAX_CHRONO_MILLIS` (and
/// returns `None` past it, which is unwrapped here); within that range the
/// text is a function of `millis` alone, which the contract names without
/// describing it.
#[verifier::external_body]
fn iso_text(millis: i64) -> (r: String)
    requires
        0 <= millis <= MAX_CHRONO_MILLIS,
    ensures
        r@ == iso_text_of_millis(millis as u64),
{
    let datetime = chrono::DateTime::<chrono::Utc>::from_timestamp_millis(millis).unwrap();
    format!("{:?}", datetime)
}

/// The time from `from` to `to` in milliseconds, when `to` is later.
pub open spec fn duration_between(from: i64, to: i64) -> Option<Duration> {
    if to > from {
        Some(duration_of_millis((to - from) as u64))
    } else {
        None
    }
}

#[derive(Clone, Copy, Debug)]
pub struct MyDateTime {
    pub miliseconds: i64,
}

impl MyDateTime {
    pub fn new(miliseconds: i64) -> (r: Self)
        ensures
            r.miliseconds == miliseconds,
    {
        Self { miliseconds }
    }

    /// The current moment, read from the system clock.
    pub fn utc_now() -> (r: Self) {
        let miliseconds = utc_now_millis();
        Self { miliseconds }
    }

    /// The moment as chrono renders it with `{:?}` (ISO 8601, UTC). Moments
    /// before the epoch or past chrono's range make chrono panic.
    pub fn to_iso_string(&self) -> (r: String)
        requires
            0 <= self.miliseconds <= MAX_CHRONO_MILLIS,
        ensures
            r@ == iso_text_of_millis(self.miliseconds as u64),
    {
        iso_text(self.miliseconds)
    }

    /// The time elapsed from this moment to `now`, or `None` when `now` is
    /// not later.
    pub fn duration_from(&self, now: MyDateTime) -> (r: Option<Duration>)
        ensures
            r == duration_between(self.miliseconds, now.miliseconds),
    {
        if now.miliseconds > self.miliseconds {
            let milis = now.miliseconds as i128 - self.miliseconds as i128;
            return Some(duration_from_millis(milis as u64));
        }
        None
    }

    pub fn equals_to(&self, other_one: MyDateTime) -> (r: bool)
        ensures
            r == (self.miliseconds == other_one.miliseconds),
    {
        self.miliseconds == other_one.miliseconds
    }

    pub fn update(&mut self, value: MyDateTime)
        ensures
            final(self).miliseconds == value.miliseconds,
    {
        self.miliseconds = value.miliseconds;
    }
}

/// A moment that threads can read and replace concurrently. The atomic's
/// value is not modelled: another thread may store at any time, so a read can
/// give any value.
pub struct AtomicDateTime {
    miliseconds: AtomicI64,
}

impl AtomicDateTime {
    pub fn from_date_time(dt: MyDateTime) -> (r: Self) {
        Self { miliseconds: AtomicI64::new(dt.miliseconds) }
    }

    /// The current moment, read from the system clock.
    pub fn utc_now() -> (r: Self) {
        let miliseconds = utc_now_millis();
        Self { miliseconds: AtomicI64::new(miliseconds) }
    }

    pub fn update(&self, value: MyDateTime) {
        self.miliseconds.store(value.miliseconds, std::sync::atomic::Ordering::SeqCst);
    }

    pub fn update_value(&self, value: i64) {
        self.miliseconds.store(value, std::sync::atomic::Ordering::SeqCst);
    }

    pub fn get(&self) -> (r: i64) {
        self.miliseconds.load(std::sync::atomic::Ordering::SeqCst)
    }

    /// A new cell holding the value read from this one.
    pub fn clone(&self) -> (r: Self) {
        Self { miliseconds: AtomicI64::new(self.get()) }
    }

    /// The time elapsed from the stored moment to `now`, or `None` when `now`
    /// is not later; the stored moment is whatever the read gives.
    pub fn duration_to(&self, now: MyDateTime) -> (r: Option<Duration>)
        ensures
            exists|stored: i64| r == duration_between(stored, now.miliseconds),
    {
        let stored = MyDateTime::new(self.get());
        stored.duration_from(now)
    }
}

} // verus!
