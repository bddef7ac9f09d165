//! Timing helpers for debugging: run a closure and report how long it took.

use vstd::prelude::*;
use crate::clock::{duration_micros, duration_millis, duration_nanos, duration_since, instant_now};

verus! {

/// Runs `f` and returns the whole milliseconds it took, with its result.
/// The time is at most the longest duration there is (`u64::MAX` seconds and
/// 999,999,999 nanoseconds) in whole milliseconds.
pub fn debug_time_millis<R, F: FnOnce() -> R>(f: F) -> (r: (u128, R))
    requires
        f.requires(()),
    ensures
        f.ensures((), r.1),
        r.0 <= 0xffff_ffff_ffff_ffff * 1_000 + 999,
{
    let start = instant_now();
    let result = f();
    let end = instant_now();
    let duration = duration_millis(&duration_since(&end, &start));
    (duration, result)
}

/// Runs `f` and returns the whole microseconds it took, with its result.
/// The time is at most the longest duration there is (`u64::MAX` seconds and
/// 999,999,999 nanoseconds) in whole microseconds.
pub fn debug_time_micros<R, F: FnOnce() -> R>(f: F) -> (r: (u128, R))
    requires
        f.requires(()),
    ensures
        f.ensures((), r.1),
        r.0 <= 0xffff_ffff_ffff_ffff * 1_000_000 + 999_999,
{
    let start = instant_now();
    let result = f();
    let end = instant_now();
    let duration = duration_micros(&duration_since(&end, &start));
    (duration, result)
}

/// Runs `f` and returns the whole nanoseconds it took, with its result.
/// The time is at most the longest duration there is (`u64::MAX` seconds and
/// 999,999,999 nanoseconds) in nanoseconds.
pub fn debug_time_nanos<R, F: FnOnce() -> R>(f: F) -> (r: (u128, R))
    requires
        f.requires(()),
    ensures
        f.ensures((), r.1),
        r.0 <= 0xffff_ffff_ffff_ffff * 1_000_000_000 + 999_999_999,
{
    let start = instant_now();
    let result = f();
    let end = instant_now();
    let duration = duration_nanos(&duration_since(&end, &start));
    (duration, result)
}

} // verus!
