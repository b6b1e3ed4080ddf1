//! The wall clock, read as seconds and nanoseconds since the Unix epoch.
use vstd::prelude::*;
use std::time::{Duration, SystemTime};

verus! {

/// `std::time::SystemTime`, a point in time that only the clock gives out.
#[verifier::external_type_specification]
#[verifier::external_body]
pub struct ExSystemTime(SystemTime);

/// Reads the system clock with `SystemTime::now`; nothing is claimed of the
/// reading.
#[verifier::external_body]
fn system_now() -> SystemTime {
    SystemTime::now()
}

/// `t.duration_since(UNIX_EPOCH)`, or `None` when `t` lies before the epoch;
/// nothing is claimed of the duration.
#[verifier::external_body]
fn since_unix_epoch(t: &SystemTime) -> Option<Duration> {
    t.duration_since(std::time::UNIX_EPOCH).ok()
}

/// `Duration::as_secs`: the whole seconds of the duration; nothing more is
/// claimed.
#[verifier::external_body]
fn whole_secs(d: &Duration) -> u64 {
    d.as_secs()
}

/// `Duration::subsec_nanos`: the fractional part in nanoseconds, which std
/// documents to be below one billion.
#[verifier::external_body]
fn subsec_nanos(d: &Duration) -> (n: u32)
    ensures
        n < 1_000_000_000,
{
    d.subsec_nanos()
}

/// A time since the Unix epoch as `(seconds, nanoseconds)`: the whole seconds
/// (cast as `as` casts them) and the nanoseconds of `since_epoch`, or `(0, 0)`
/// for a time before the epoch.
pub fn timespec_of(since_epoch: Option<(u64, u32)>) -> (t: (i64, i64))
    ensures
        t == (match since_epoch {
            Some((s, n)) => (s as i64, n as i64),
            None => (0i64, 0i64),
        }),
{
    match since_epoch {
        Some((secs, nanos)) => (secs as i64, nanos as i64),
        None => (0, 0),
    }
}

/// The current time as `(seconds, nanoseconds)` since the Unix epoch; a clock
/// set before the epoch reads as `(0, 0)`.
pub fn now_timespec() -> (t: (i64, i64))
    ensures
        0 <= t.1 < 1_000_000_000,
{
    let now = system_now();
    let since = match since_unix_epoch(&now) {
        Some(d) => Some((whole_secs(&d), subsec_nanos(&d))),
        None => None,
    };
    timespec_of(since)
}

} // verus!
