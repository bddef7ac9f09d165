//! The clocks of the standard library, reached through small unverified
//! functions: instants of the monotonic clock, times of the system clock, and
//! the durations between them. Nothing is stated of any reading, since each
//! rests on the clock.

use vstd::prelude::*;
use std::time::{Duration, Instant, SystemTime, SystemTimeError, UNIX_EPOCH};

verus! {

#[verifier::external_type_specification]
#[verifier::external_body]
pub struct ExInstant(Instant);

#[verifier::external_type_specification]
#[verifier::external_body]
pub struct ExSystemTime(SystemTime);

#[verifier::external_type_specification]
#[verifier::external_body]
pub struct ExSystemTimeError(SystemTimeError);

/// Calls `Instant::now`, a reading of the monotonic clock; nothing is stated
/// of the instant it returns.
#[verifier::external_body]
pub(crate) fn instant_now() -> Instant {
    Instant::now()
}

/// Calls `Instant::duration_since`: the time from `earlier` to `later`.
/// Nothing is stated of it, since it rests on clock readings.
#[verifier::external_body]
pub(crate) fn duration_since(later: &Instant, earlier: &Instant) -> Duration {
    later.duration_since(*earlier)
}

/// Calls `SystemTime::now`, a reading of the system clock; nothing is stated
/// of the time it returns.
#[verifier::external_body]
pub(crate) fn system_time_now() -> SystemTime {
    SystemTime::now()
}

/// Calls `SystemTime::duration_since(UNIX_EPOCH)`: the time since the epoch,
/// or, for a time before it, the error that holds the time until it. Nothing
/// is stated of the duration, which rests on the clock reading handed in.
#[verifier::external_body]
pub(crate) fn since_epoch(t: &SystemTime) -> Result<Duration, SystemTimeError> {
    t.duration_since(UNIX_EPOCH)
}

/// Calls `SystemTimeError::duration`: how far the later time lay past the
/// earlier one in the failed `duration_since`. Nothing is stated, since
/// `Duration` is opaque here.
#[verifier::external_body]
pub(crate) fn time_error_duration(e: &SystemTimeError) -> Duration {
    e.duration()
}

/// Calls `Duration::as_millis`: the whole milliseconds of `d`. A `Duration`
/// is at most `Duration::MAX`, documented as `u64::MAX` seconds and
/// 999,999,999 nanoseconds, so the result is at most that many whole
/// milliseconds; which value it is rests on the clock readings and is not
/// stated.
#[verifier::external_body]
pub(crate) fn duration_millis(d: &Duration) -> (n: u128)
    ensures
        n <= 0xffff_ffff_ffff_ffff * 1_000 + 999,
{
    d.as_millis()
}

/// Calls `Duration::as_micros`: the whole microseconds of `d`. A `Duration`
/// is at most `Duration::MAX`, documented as `u64::MAX` seconds and
/// 999,999,999 nanoseconds, so the result is at most that many whole
/// microseconds; which value it is rests on the clock readings and is not
/// stated.
#[verifier::external_body]
pub(crate) fn duration_micros(d: &Duration) -> (n: u128)
    ensures
        n <= 0xffff_ffff_ffff_ffff * 1_000_000 + 999_999,
{
    d.as_micros()
}

/// Calls `Duration::as_nanos`: the whole nanoseconds of `d`. A `Duration`
/// holds a `u64` of whole seconds and fewer than a billion nanoseconds (its
/// documented maximum, `Duration::MAX`, is `u64::MAX` seconds and
/// 999,999,999 nanoseconds), so the result is at most that many nanoseconds;
/// which value it is rests on the clock reading and is not stated.
#[verifier::external_body]
pub(crate) fn duration_nanos(d: &Duration) -> (n: u128)
    ensures
        n <= 0xffff_ffff_ffff_ffff * 1_000_000_000 + 999_999_999,
{
    d.as_nanos()
}

} // verus!
