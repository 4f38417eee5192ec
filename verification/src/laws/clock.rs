//! Laws of time: how long a scan goes on, waits, and says that it went on.

use crate::clock::{capped_millis, keep_scanning, nanos, next_wait, progress_point};
use crate::observer::{NoopObserver, ScanObserver};
use std::time::Duration;
use vstd::prelude::*;

verus! {

/// A scan goes on exactly if time is left and the observer, asked then, did not cancel.
pub proof fn law_scan_goes_on_until_time_is_up_or_it_is_cancelled<O: ScanObserver + ?Sized>(
    observer: &O,
    elapsed: Duration,
    duration: Duration,
    keep: bool,
)
    requires
        call_ensures(keep_scanning::<O>, (observer, elapsed, duration), keep),
    ensures
        keep ==> nanos(elapsed) < nanos(duration) && call_ensures(
            O::is_cancelled,
            (observer,),
            false,
        ),
        !keep ==> nanos(elapsed) >= nanos(duration) || call_ensures(
            O::is_cancelled,
            (observer,),
            true,
        ),
{
}

/// The observer for callers that need none never cancels: only time ends the scan.
pub proof fn law_noop_observer_never_cancels(
    observer: &NoopObserver,
    elapsed: Duration,
    duration: Duration,
    cancelled: bool,
    keep: bool,
)
    requires
        call_ensures(<NoopObserver as ScanObserver>::is_cancelled, (observer,), cancelled),
        call_ensures(keep_scanning::<NoopObserver>, (observer, elapsed, duration), keep),
    ensures
        !cancelled,
        keep <==> nanos(elapsed) < nanos(duration),
{
}

/// A wait is fifty milliseconds, or what is left of the scan where that is less; nothing
/// where no time is left.
pub proof fn law_waits_end_with_the_scan(elapsed: Duration, duration: Duration, wait: Duration)
    requires
        call_ensures(next_wait, (elapsed, duration), wait),
    ensures
        nanos(wait) <= 50_000_000,
        nanos(elapsed) >= nanos(duration) ==> nanos(wait) == 0,
        nanos(elapsed) < nanos(duration) ==> nanos(elapsed) + nanos(wait) <= nanos(duration),
        nanos(elapsed) < nanos(duration) && nanos(wait) < 50_000_000 ==> nanos(elapsed) + nanos(
            wait,
        ) == nanos(duration),
{
}

/// The progress that is reported is the elapsed time until the scan is over, and the
/// whole scan from then on.
pub proof fn law_progress_stops_at_the_end(elapsed: Duration, duration: Duration, point: Duration)
    requires
        call_ensures(progress_point, (elapsed, duration), point),
    ensures
        nanos(elapsed) <= nanos(duration) ==> point == elapsed,
        nanos(elapsed) > nanos(duration) ==> point == duration,
{
}

/// The number counts the whole milliseconds in some nanoseconds, up to a limit.
pub open spec fn counts_millis(count: int, nanoseconds: nat, limit: int) -> bool {
    &&& 0 <= count <= limit
    &&& count * 1_000_000 <= nanoseconds
    &&& count < limit ==> nanoseconds < (count + 1) * 1_000_000
}

/// Durations are reported in whole milliseconds, up to a limit.
pub proof fn law_whole_milliseconds_are_counted(duration: Duration, limit: int)
    requires
        limit >= 0,
    ensures
        counts_millis(capped_millis(duration, limit), nanos(duration), limit),
{
}

} // verus!
