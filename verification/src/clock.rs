//! Time: how long a scan goes on, how long it waits, and how its length is reported.

use crate::observer::ScanObserver;
use std::time::Duration;
use vstd::prelude::*;

verus! {

/// The length of a duration in nanoseconds, which `Duration::as_nanos` returns.
pub uninterp spec fn nanos(duration: Duration) -> nat;

/// `Duration::as_nanos` returns the total number of nanoseconds of the duration.
pub assume_specification[ Duration::as_nanos ](duration: &Duration) -> (count: u128)
    ensures
        count == nanos(*duration),
;

/// `Duration::from_nanos` makes a duration of the given number of nanoseconds.
pub assume_specification[ Duration::from_nanos ](count: u64) -> (duration: Duration)
    ensures
        nanos(duration) == count,
;

/// The longest wait between two looks at the observer, in nanoseconds.
pub const POLL_INTERVAL_NANOS: u64 = 50_000_000;

/// The smaller of two numbers.
pub open spec fn smaller(a: int, b: int) -> int {
    if a <= b {
        a
    } else {
        b
    }
}

/// The whole milliseconds of a duration, or `limit` where there are more.
pub open spec fn capped_millis(duration: Duration, limit: int) -> int {
    smaller(nanos(duration) as int / 1_000_000, limit)
}

/// Whether a scan goes on: while time is left and the observer does not cancel it.
/// The observer is asked only while time is left.
pub fn keep_scanning<O: ScanObserver + ?Sized>(
    observer: &O,
    elapsed: Duration,
    duration: Duration,
) -> (keep: bool)
    ensures
        nanos(elapsed) >= nanos(duration) ==> !keep,
        nanos(elapsed) < nanos(duration) ==> call_ensures(O::is_cancelled, (observer,), !keep),
{
    elapsed.as_nanos() < duration.as_nanos() && !observer.is_cancelled()
}

/// How long to wait for the next event: what is left of the scan, but no longer
/// than the poll interval. A wait never takes a scan past its end, and while time is
/// left there is something to wait for.
pub fn next_wait(elapsed: Duration, duration: Duration) -> (wait: Duration)
    ensures
        nanos(wait) == smaller(
            if nanos(elapsed) <= nanos(duration) {
                nanos(duration) - nanos(elapsed)
            } else {
                0
            },
            POLL_INTERVAL_NANOS as int,
        ),
        nanos(elapsed) <= nanos(duration) ==> nanos(elapsed) + nanos(wait) <= nanos(duration),
        nanos(elapsed) < nanos(duration) ==> nanos(wait) > 0,
{
    let remaining: u128 = duration.as_nanos().saturating_sub(elapsed.as_nanos());
    if remaining <= POLL_INTERVAL_NANOS as u128 {
        Duration::from_nanos(remaining as u64)
    } else {
        Duration::from_nanos(POLL_INTERVAL_NANOS)
    }
}

/// The progress to report: the elapsed time, but no more than the whole scan.
pub fn progress_point(elapsed: Duration, duration: Duration) -> (point: Duration)
    ensures
        point == if nanos(elapsed) <= nanos(duration) {
            elapsed
        } else {
            duration
        },
        nanos(point) <= nanos(duration),
{
    if elapsed.as_nanos() <= duration.as_nanos() {
        elapsed
    } else {
        duration
    }
}

} // verus!
