//! Wall-clock and monotonic time.

use std::time::{Duration, Instant, SystemTime, UNIX_EPOCH};

use vstd::prelude::*;

verus! {

#[verifier::external_type_specification]
#[verifier::external_body]
pub struct ExInstant(Instant);

#[verifier::external_type_specification]
#[verifier::external_body]
pub struct ExSystemTime(SystemTime);

/// Wraps `Instant::now`: a point on the monotonic clock.
#[verifier::external_body]
pub(crate) fn instant_now() -> Instant {
    Instant::now()
}

/// Wraps `Instant::elapsed`: the time since `origin` (zero if the clock
/// reads earlier).
#[verifier::external_body]
fn elapsed(origin: &Instant) -> Duration {
    origin.elapsed()
}

/// Wraps `Duration::as_nanos`.
#[verifier::external_body]
fn duration_nanos(d: &Duration) -> u128 {
    d.as_nanos()
}

/// Wraps `Duration::as_millis`.
#[verifier::external_body]
fn duration_millis(d: &Duration) -> u128 {
    d.as_millis()
}

/// Wraps `SystemTime::now`: the wall clock.
#[verifier::external_body]
fn system_now() -> SystemTime {
    SystemTime::now()
}

/// Wraps `SystemTime::duration_since(UNIX_EPOCH)`: the time since the Unix
/// epoch, or `None` when `t` is earlier than the epoch.
#[verifier::external_body]
fn since_epoch(t: &SystemTime) -> Option<Duration> {
    match t.duration_since(UNIX_EPOCH) {
        Ok(d) => Some(d),
        Err(_) => None,
    }
}

/// Nanoseconds on the monotonic clock since `origin`, truncated to 64 bits.
pub(crate) fn elapsed_nanos(origin: &Instant) -> u64 {
    let d = elapsed(origin);
    #[verifier::truncate] (duration_nanos(&d) as u64)
}

/// Milliseconds as an `i64` timestamp: the low 64 bits of the count, or 0
/// when the clock could not be read.
pub fn millis_to_i64(ms: Option<u128>) -> (r: i64)
    ensures
        r == match ms {
            Some(m) => m as i64,
            None => 0,
        },
{
    match ms {
        Some(m) => #[verifier::truncate] (m as i64),
        None => 0,
    }
}

/// Current Unix time in milliseconds (0 if the clock is before the epoch).
pub fn now_ms() -> i64 {
    let ms = match since_epoch(&system_now()) {
        Some(d) => Some(duration_millis(&d)),
        None => None,
    };
    millis_to_i64(ms)
}

} // verus!
