//! How a caller watches a scan and ends it early.

use std::time::Duration;
use vstd::prelude::*;

verus! {

/// Cooperative controls observed while a scan is running.
pub trait ScanObserver {
    /// Returns true when the caller no longer needs the scan.
    fn is_cancelled(&self) -> (cancelled: bool)
        default_ensures
            !cancelled,
    {
        false
    }

    /// Reports elapsed and requested scan time.
    fn progress(&self, _elapsed: Duration, _total: Duration) {
    }
}

/// Observer for callers that do not need cancellation or progress.
#[derive(Debug, Default, Clone, Copy)]
pub struct NoopObserver;

impl ScanObserver for NoopObserver {

}

} // verus!
