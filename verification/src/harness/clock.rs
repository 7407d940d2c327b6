//! Durations and counters of a measurement.

use vstd::prelude::*;

verus! {

/// The nanoseconds of a duration.
pub uninterp spec fn whole_nanos(d: std::time::Duration) -> nat;

/// `Duration::as_nanos` returns the nanoseconds that the duration holds.
pub assume_specification[ std::time::Duration::as_nanos ](d: &std::time::Duration) -> (r: u128)
    ensures
        r == whole_nanos(*d),
;

/// `Duration::as_millis` returns the whole milliseconds that the duration holds:
/// its nanoseconds over a million, rounded down.
pub assume_specification[ std::time::Duration::as_millis ](d: &std::time::Duration) -> (r: u128)
    ensures
        r == whole_nanos(*d) / 1_000_000,
;

/// Milliseconds as a recorded integer, the largest one for what is beyond it.
pub fn clamp_ms(millis: u128) -> (r: i64)
    ensures
        r == if millis <= i64::MAX { millis as int } else { i64::MAX as int },
{
    if millis <= i64::MAX as u128 {
        millis as i64
    } else {
        i64::MAX
    }
}

/// The whole milliseconds of a duration, the largest integer for what is beyond it.
pub fn elapsed_to_ms(duration: &std::time::Duration) -> (r: i64)
    ensures
        r == if whole_nanos(*duration) / 1_000_000 <= i64::MAX {
            whole_nanos(*duration) as int / 1_000_000
        } else {
            i64::MAX as int
        },
{
    clamp_ms(duration.as_millis())
}

} // verus!
