//! What a scan reports.

use crate::advertisement::{
    finished, law_lower_case_uuids_stay, merged_all, names_lower_uuids, reports, Advertisement,
    AdvertisementView,
};
use crate::clock::capped_millis;
use crate::payload::{lemma_keys_ascending_distinct, lemma_last_wins_distinct};
use crate::text::{ascii_lower, is_lower};
use std::time::{Duration, UNIX_EPOCH};
use vstd::prelude::*;

verus! {

/// Status of one native Bluetooth adapter used by a scan.
#[derive(Debug, Clone, PartialEq, Eq)]
pub struct AdapterReport {
    pub name: String,
    pub state: String,
    pub scan_started: bool,
    pub errors: Vec<String>,
}

/// Normalized result of one native BLE scan.
#[derive(Debug, Clone, PartialEq, Eq)]
pub struct ScanReport {
    pub observed_at_epoch_ms: i64,
    pub elapsed_ms: u64,
    pub discovery_mode: String,
    pub adapters: Vec<AdapterReport>,
    pub advertisements: Vec<Advertisement>,
    pub skipped_without_rssi: usize,
    pub errors: Vec<String>,
}

/// What an adapter's status says.
pub struct AdapterView {
    pub name: Seq<char>,
    pub state: Seq<char>,
    pub scan_started: bool,
    pub errors: Seq<Seq<char>>,
}

impl DeepView for AdapterReport {
    type V = AdapterView;

    open spec fn deep_view(&self) -> AdapterView {
        AdapterView {
            name: self.name@,
            state: self.state@,
            scan_started: self.scan_started,
            errors: self.errors.deep_view(),
        }
    }
}

/// `SystemTime::elapsed`, called on the Unix epoch: how long ago that was by the
/// system's clock, and nothing where the clock is set to an earlier time. Nothing is
/// said of the result, which rests on the clock.
#[verifier::external_body]
fn time_since_epoch() -> (age: Option<Duration>) {
    UNIX_EPOCH.elapsed().ok()
}

/// The system's clock told, when it was asked, that the Unix epoch is so long ago.
pub closed spec fn clock_said(age: Option<Duration>) -> bool {
    call_ensures(time_since_epoch, (), age)
}

/// What the clock told is what the call returned, and nothing else.
proof fn law_clock_said_what_the_call_returned(age: Option<Duration>)
    ensures
        clock_said(age) <==> call_ensures(time_since_epoch, (), age),
{
}

/// The time of a report, in whole milliseconds since the Unix epoch, for how long
/// ago that was; zero where it is not known.
pub open spec fn epoch_millis(age: Option<Duration>) -> int {
    match age {
        Some(age) => capped_millis(age, i64::MAX as int),
        None => 0,
    }
}

impl ScanReport {
    /// The time of the report is what the system's clock told.
    pub open spec fn timed_by_clock(self) -> bool {
        exists|age: Option<Duration>| #[trigger]
            clock_said(age) && self.observed_at_epoch_ms == epoch_millis(age)
    }

    /// The report has the given parts, and the length of the scan in whole
    /// milliseconds.
    pub open spec fn made_of(
        self,
        elapsed: Duration,
        adapters: Vec<AdapterReport>,
        advertisements: Vec<Advertisement>,
        skipped_without_rssi: usize,
        errors: Vec<String>,
    ) -> bool {
        &&& self.elapsed_ms == capped_millis(elapsed, u64::MAX as int)
        &&& self.discovery_mode@ == "native_ble"@
        &&& self.adapters == adapters
        &&& self.advertisements == advertisements
        &&& self.skipped_without_rssi == skipped_without_rssi
        &&& self.errors == errors
    }

    /// The report of a scan of the given length that saw what the set holds.
    pub open spec fn of_scan(
        self,
        set: Map<Seq<char>, AdvertisementView>,
        elapsed: Duration,
    ) -> bool {
        &&& finished(set, self.advertisements@, self.skipped_without_rssi as int)
        &&& self.elapsed_ms == capped_millis(elapsed, u64::MAX as int)
        &&& self.discovery_mode@ == "native_ble"@
        &&& self.timed_by_clock()
    }

    /// The report of a scan that ended now.
    pub fn new(
        elapsed: Duration,
        adapters: Vec<AdapterReport>,
        advertisements: Vec<Advertisement>,
        skipped_without_rssi: usize,
        errors: Vec<String>,
    ) -> (report: Self)
        ensures
            report.made_of(elapsed, adapters, advertisements, skipped_without_rssi, errors),
            report.timed_by_clock(),
    {
        let age: Option<Duration> = time_since_epoch();
        assert(clock_said(age));
        ScanReport::observed(age, elapsed, adapters, advertisements, skipped_without_rssi, errors)
    }

    /// The report of a scan that ended at a time after the Unix epoch, or at a time
    /// that is not known.
    pub fn observed(
        age: Option<Duration>,
        elapsed: Duration,
        adapters: Vec<AdapterReport>,
        advertisements: Vec<Advertisement>,
        skipped_without_rssi: usize,
        errors: Vec<String>,
    ) -> (report: Self)
        ensures
            report.made_of(elapsed, adapters, advertisements, skipped_without_rssi, errors),
            report.observed_at_epoch_ms == epoch_millis(age),
    {
        let observed_at_epoch_ms: i64 = match age {
            Some(age) => {
                let millis: u128 = age.as_nanos() / 1_000_000;
                if millis <= i64::MAX as u128 {
                    millis as i64
                } else {
                    i64::MAX
                }
            },
            None => 0,
        };
        let millis: u128 = elapsed.as_nanos() / 1_000_000;
        let elapsed_ms: u64 = if millis <= u64::MAX as u128 {
            millis as u64
        } else {
            u64::MAX
        };
        ScanReport {
            observed_at_epoch_ms,
            elapsed_ms,
            discovery_mode: "native_ble".to_owned(),
            adapters,
            advertisements,
            skipped_without_rssi,
            errors,
        }
    }
}

/// The UUIDs in the lists of a reported advertisement are in lower case.
pub open spec fn lists_lower_uuids(advertisement: Advertisement) -> bool {
    &&& forall|i: int|
        0 <= i < advertisement.service_uuids@.len() ==> is_lower(
            (#[trigger] advertisement.service_uuids@[i])@,
        )
    &&& forall|i: int|
        0 <= i < advertisement.service_data@.len() ==> is_lower(
            (#[trigger] advertisement.service_data@[i]).uuid@,
        )
}

/// Every UUID in the report of a scan is in lower case, where those of the
/// advertisements that it heard were.
pub proof fn law_reported_uuids_are_lower_case(
    report: ScanReport,
    heard: Seq<AdvertisementView>,
    elapsed: Duration,
)
    requires
        forall|i: int| 0 <= i < heard.len() ==> names_lower_uuids(#[trigger] heard[i]),
        report.of_scan(merged_all(Map::empty(), heard), elapsed),
    ensures
        forall|i: int|
            0 <= i < report.advertisements@.len() ==> lists_lower_uuids(
                #[trigger] report.advertisements@[i],
            ),
{
    let set: Map<Seq<char>, AdvertisementView> = merged_all(Map::empty(), heard);
    law_lower_case_uuids_stay(Map::empty(), heard);
    assert forall|i: int| 0 <= i < report.advertisements@.len() implies lists_lower_uuids(
        #[trigger] report.advertisements@[i],
    ) by {
        let item: Advertisement = report.advertisements@[i];
        let known: AdvertisementView = set[ascii_lower(item.address@)];
        assert(set.contains_key(ascii_lower(item.address@)) && reports(item, known));
        assert(names_lower_uuids(known));
        let uuids: Seq<Seq<char>> = item.service_uuids.deep_view();
        let data: Seq<(Seq<char>, Seq<u8>)> = item.service_data.deep_view();
        assert forall|j: int| 0 <= j < item.service_uuids@.len() implies is_lower(
            (#[trigger] item.service_uuids@[j])@,
        ) by {
            assert(uuids[j] == item.service_uuids@[j]@);
            assert(uuids.to_set().contains(uuids[j]));
        }
        lemma_keys_ascending_distinct(data);
        lemma_last_wins_distinct(data);
        assert forall|j: int| 0 <= j < item.service_data@.len() implies is_lower(
            (#[trigger] item.service_data@[j]).uuid@,
        ) by {
            assert(data[j].0 == item.service_data@[j].uuid@);
            assert(known.service_data.contains_key(data[j].0));
        }
    }
}

} // verus!
