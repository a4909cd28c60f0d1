//! Readings of the system clocks. What the clocks read is not known in
//! advance, so the functions here promise nothing about the values; the
//! logic that uses them takes the readings as arguments.

use vstd::prelude::*;
use core::time::Duration;
use std::time::{Instant, SystemTime};

verus! {

#[verifier::external_type_specification]
#[verifier::external_body]
pub struct ExInstant(Instant);

#[verifier::external_type_specification]
#[verifier::external_body]
pub struct ExSystemTime(SystemTime);

/// `Instant::now`: the current reading of the monotonic clock.
#[verifier::external_body]
pub(crate) fn instant_now() -> Instant {
    Instant::now()
}

/// `Instant::elapsed`: time passed since `at`.
#[verifier::external_body]
pub(crate) fn elapsed_since(at: &Instant) -> Duration {
    at.elapsed()
}

/// `Duration::as_nanos`: the duration in whole nanoseconds.
#[verifier::external_body]
pub(crate) fn duration_nanos(d: &Duration) -> u128 {
    d.as_nanos()
}

/// `Duration::as_secs`: the duration in whole seconds.
#[verifier::external_body]
pub(crate) fn duration_secs(d: &Duration) -> u64 {
    d.as_secs()
}

/// `SystemTime::now`: the current wall-clock time.
#[verifier::external_body]
pub(crate) fn system_now() -> SystemTime {
    SystemTime::now()
}

/// `SystemTime::duration_since(UNIX_EPOCH)`; the error for a time before
/// the epoch becomes `None`.
#[verifier::external_body]
pub(crate) fn since_unix_epoch(t: &SystemTime) -> Option<Duration> {
    t.duration_since(SystemTime::UNIX_EPOCH).ok()
}

/// Unix seconds for a time `secs` whole seconds after the epoch, or `None`
/// for a time before it: the count as a signed number (`as i64`, which
/// wraps past `i64::MAX`).
pub fn unix_seconds(secs: Option<u64>) -> (r: Option<i64>)
    ensures
        r == match secs {
            Some(s) => Some(s as i64),
            None => None::<i64>,
        },
{
    match secs {
        Some(s) => Some(s as i64),
        None => None,
    }
}

/// Whole seconds from the Unix epoch to `t`, or `None` for a time before
/// the epoch. A count beyond `i64::MAX` wraps, as an `as i64` cast does.
/// What the clock types hold is opaque here; `unix_seconds` states the
/// conversion of what `SystemTime::duration_since` and `Duration::as_secs` give.
pub fn to_unix(t: &SystemTime) -> Option<i64> {
    let secs = match since_unix_epoch(t) {
        Some(d) => Some(duration_secs(&d)),
        None => None,
    };
    unix_seconds(secs)
}

/// Current Unix time in seconds; 0 when the clock reads before the epoch.
pub fn unix_now() -> i64 {
    let now = system_now();
    match to_unix(&now) {
        Some(s) => s,
        None => 0,
    }
}

} // verus!
