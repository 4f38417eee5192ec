//! Laws of reports: what stands in each field.

use crate::advertisement::Advertisement;
use crate::clock::nanos;
use crate::laws::clock::{counts_millis, law_whole_milliseconds_are_counted};
use crate::report::{clock_said, AdapterReport, ScanReport};
use std::time::Duration;
use vstd::prelude::*;

verus! {

/// The time of a report is that of an age of the Unix epoch: its whole milliseconds, or
/// zero where it is not known.
pub open spec fn dated(report: ScanReport, age: Option<Duration>) -> bool {
    match age {
        Some(age) => counts_millis(
            report.observed_at_epoch_ms as int,
            nanos(age),
            0x7fff_ffff_ffff_ffff,
        ),
        None => report.observed_at_epoch_ms == 0,
    }
}

/// The report is of a scan by this library, so long, and was dated by the clock.
pub open spec fn measured(report: ScanReport, elapsed: Duration) -> bool {
    &&& counts_millis(report.elapsed_ms as int, nanos(elapsed), 0xffff_ffff_ffff_ffff)
    &&& report.discovery_mode@ == "native_ble"@
    &&& exists|age: Option<Duration>| #[trigger] clock_said(age) && dated(report, age)
}

/// The report of a scan is dated and measured.
pub proof fn law_scan_reports_are_measured(
    report: ScanReport,
    set: Map<Seq<char>, crate::advertisement::AdvertisementView>,
    elapsed: Duration,
)
    requires
        report.of_scan(set, elapsed),
    ensures
        measured(report, elapsed),
{
    law_whole_milliseconds_are_counted(elapsed, u64::MAX as int);
    let age: Option<Duration> = choose|age: Option<Duration>| #[trigger]
        clock_said(age) && report.observed_at_epoch_ms == crate::report::epoch_millis(age);
    if let Some(age) = age {
        law_whole_milliseconds_are_counted(age, i64::MAX as int);
    }
    assert(clock_said(age) && dated(report, age));
}

/// A report has the parts that it was made of, each in its field.
pub proof fn law_report_has_its_parts(
    elapsed: Duration,
    adapters: Vec<AdapterReport>,
    advertisements: Vec<Advertisement>,
    skipped: usize,
    errors: Vec<String>,
    report: ScanReport,
)
    requires
        call_ensures(
            ScanReport::new,
            (elapsed, adapters, advertisements, skipped, errors),
            report,
        ),
    ensures
        report.adapters == adapters,
        report.advertisements == advertisements,
        report.skipped_without_rssi == skipped,
        report.errors == errors,
        measured(report, elapsed),
{
    law_whole_milliseconds_are_counted(elapsed, u64::MAX as int);
    let age: Option<Duration> = choose|age: Option<Duration>| #[trigger]
        clock_said(age) && report.observed_at_epoch_ms == crate::report::epoch_millis(age);
    if let Some(age) = age {
        law_whole_milliseconds_are_counted(age, i64::MAX as int);
    }
    assert(clock_said(age) && dated(report, age));
}

/// A report of a given time has that time, and the parts that it was made of.
pub proof fn law_observed_report_has_its_time_and_parts(
    age: Option<Duration>,
    elapsed: Duration,
    adapters: Vec<AdapterReport>,
    advertisements: Vec<Advertisement>,
    skipped: usize,
    errors: Vec<String>,
    report: ScanReport,
)
    requires
        call_ensures(
            ScanReport::observed,
            (age, elapsed, adapters, advertisements, skipped, errors),
            report,
        ),
    ensures
        dated(report, age),
        counts_millis(report.elapsed_ms as int, nanos(elapsed), 0xffff_ffff_ffff_ffff),
        report.discovery_mode@ == "native_ble"@,
        report.adapters == adapters,
        report.advertisements == advertisements,
        report.skipped_without_rssi == skipped,
        report.errors == errors,
{
    law_whole_milliseconds_are_counted(elapsed, u64::MAX as int);
    if let Some(age) = age {
        law_whole_milliseconds_are_counted(age, i64::MAX as int);
    }
}

/// The errors of a report are those of its adapters, one adapter after the other: each
/// adapter's errors begin where those of the adapters before it end.
pub open spec fn errors_by_adapter(report: ScanReport, starts: Seq<int>) -> bool {
    &&& starts.len() == report.adapters@.len() + 1
    &&& starts[0] == 0
    &&& forall|i: int|
        0 <= i < report.adapters@.len() ==> starts[i + 1] == starts[i] + (
        #[trigger] report.adapters@[i]).errors@.len()
    &&& report.errors@.len() == starts[report.adapters@.len() as int]
    &&& forall|i: int, k: int|
        0 <= i < report.adapters@.len() && 0 <= k < report.adapters@[i].errors@.len()
            ==> report.errors@[starts[i] + k]@ == (#[trigger] report.adapters@[i].errors@[k])@
}

} // verus!
