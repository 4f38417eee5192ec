use std::cell::Cell;
use std::time::Duration;

use radiochron_native_ble::clock::{keep_scanning, next_wait, progress_point};
use radiochron_native_ble::error::failure;
use radiochron_native_ble::{AdapterReport, Error, NoopObserver, ScanObserver, ScanReport};

struct Counting {
    asked: Cell<usize>,
    cancel: bool,
}

impl ScanObserver for Counting {
    fn is_cancelled(&self) -> bool {
        self.asked.set(self.asked.get() + 1);
        self.cancel
    }
}

fn millis(count: u64) -> Duration {
    Duration::from_millis(count)
}

#[test]
fn scans_until_time_is_up() {
    assert!(keep_scanning(&NoopObserver, millis(0), millis(1)));
    assert!(keep_scanning(&NoopObserver, Duration::from_nanos(999_999), millis(1)));
    assert!(!keep_scanning(&NoopObserver, millis(1), millis(1)));
    assert!(!keep_scanning(&NoopObserver, millis(2), millis(1)));
    assert!(!keep_scanning(&NoopObserver, millis(0), Duration::ZERO));
}

#[test]
fn the_observer_cancels_and_is_asked_only_while_time_is_left() {
    let observer = Counting { asked: Cell::new(0), cancel: true };
    assert!(!keep_scanning(&observer, millis(2), millis(1)));
    assert_eq!(observer.asked.get(), 0);
    assert!(!keep_scanning(&observer, millis(0), millis(1)));
    assert_eq!(observer.asked.get(), 1);
    let object: &dyn ScanObserver = &Counting { asked: Cell::new(0), cancel: false };
    assert!(keep_scanning(object, millis(0), millis(1)));
}

#[test]
fn the_noop_observer_does_nothing() {
    assert!(!NoopObserver.is_cancelled());
    NoopObserver.progress(millis(1), millis(2));
}

#[test]
fn waits_for_the_rest_but_not_long() {
    assert_eq!(next_wait(millis(0), millis(1000)), millis(50));
    assert_eq!(next_wait(millis(970), millis(1000)), millis(30));
    assert_eq!(next_wait(millis(950), millis(1000)), millis(50));
    assert_eq!(next_wait(millis(1000), millis(1000)), Duration::ZERO);
    assert_eq!(next_wait(millis(1001), millis(1000)), Duration::ZERO);
    assert_eq!(next_wait(Duration::ZERO, Duration::MAX), millis(50));
}

#[test]
fn progress_stops_at_the_end() {
    assert_eq!(progress_point(millis(3), millis(9)), millis(3));
    assert_eq!(progress_point(millis(9), millis(9)), millis(9));
    assert_eq!(progress_point(millis(10), millis(9)), millis(9));
}

#[test]
fn reports_whole_milliseconds_within_bounds() {
    let report = ScanReport::observed(
        Some(Duration::from_micros(1_700_000_000_123_999)),
        Duration::from_micros(4_999),
        Vec::new(),
        Vec::new(),
        3,
        vec!["oops".to_owned()],
    );
    assert_eq!(report.observed_at_epoch_ms, 1_700_000_000_123);
    assert_eq!(report.elapsed_ms, 4);
    assert_eq!(report.discovery_mode, "native_ble");
    assert_eq!(report.skipped_without_rssi, 3);
    assert_eq!(report.errors, ["oops"]);
    let longest = Duration::MAX;
    let report =
        ScanReport::observed(Some(longest), longest, Vec::new(), Vec::new(), 0, Vec::new());
    assert_eq!(report.observed_at_epoch_ms, i64::MAX);
    assert_eq!(report.elapsed_ms, u64::MAX);
    let report =
        ScanReport::observed(None, Duration::ZERO, Vec::new(), Vec::new(), 0, Vec::new());
    assert_eq!(report.observed_at_epoch_ms, 0);
}

#[test]
fn a_new_report_is_of_this_moment() {
    let adapter = AdapterReport {
        name: "hci0".to_owned(),
        state: "powered_on".to_owned(),
        scan_started: true,
        errors: Vec::new(),
    };
    let report = ScanReport::new(millis(12), vec![adapter.clone()], Vec::new(), 1, Vec::new());
    assert!(report.observed_at_epoch_ms > 1_600_000_000_000);
    assert_eq!(report.elapsed_ms, 12);
    assert_eq!(report.adapters, [adapter]);
    assert_eq!(report.skipped_without_rssi, 1);
}

#[test]
fn errors_carry_their_message() {
    assert_eq!(Error::new("no bus").message(), "no bus");
    assert_eq!(Error::new(failure("connect", "refused")).message(), "connect: refused");
    assert_eq!(Error::new(String::from("x")), Error::new("x"));
}
