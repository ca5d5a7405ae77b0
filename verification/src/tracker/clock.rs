//! The monotonic clock, and what it means for a record to have gone stale.

use vstd::prelude::*;

verus! {

/// Nanoseconds in a second.
pub const NANOS_PER_SEC: u64 = 1_000_000_000;

/// The current reading of the monotonic clock, in nanoseconds since a
/// moment that is fixed but not known.
///
/// Calls `time::precise_time_ns`. Nothing is claimed of the number: two
/// readings may be any two values.
#[verifier::external_body]
pub(crate) fn monotonic_nanos() -> u64 {
    time::precise_time_ns()
}

/// Whether a record last touched at `last` has, at `now`, been left alone
/// for more than `limit` seconds. Both times are readings of the clock in
/// nanoseconds.
pub open spec fn idle(now: u64, last: u64, limit: i64) -> bool {
    now - last > limit * NANOS_PER_SEC
}

/// Whether a record last touched at `last` has, at `now`, been left alone
/// for more than `limit` seconds.
pub fn is_idle(now: u64, last: u64, limit: i64) -> (stale: bool)
    ensures
        stale == idle(now, last, limit),
{
    let elapsed: i128 = now as i128 - last as i128;
    let bound: i128 = limit as i128 * 1_000_000_000i128;
    elapsed > bound
}

/// The whole seconds from `from` to `to`; zero if `to` is the earlier.
pub open spec fn seconds_between(from: u64, to: u64) -> u64 {
    if to > from {
        ((to - from) / NANOS_PER_SEC as int) as u64
    } else {
        0
    }
}

/// The whole seconds from `from` to `to`; zero if `to` is the earlier.
pub fn whole_seconds(from: u64, to: u64) -> (secs: u64)
    ensures
        secs == seconds_between(from, to),
{
    if to > from {
        (to - from) / NANOS_PER_SEC
    } else {
        0
    }
}

} // verus!
