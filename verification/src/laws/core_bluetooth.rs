//! Laws of scanning through CoreBluetooth: what its events become, and what a scan
//! reports.

use crate::address::AddressType;
use crate::advertisement::{merged_all, RawAdvertisement};
use crate::clock::nanos;
use crate::core_bluetooth::{
    convert_advertisement, full_uuid, normalize_uuid, not_ready_report, service_item,
    state_from_event, state_is_final, state_name, CentralAdvertisement, CentralEvent, CentralScan,
    CentralServiceData, CentralState,
};
use crate::error::Error;
use crate::laws::address::shared_tail;
use crate::laws::advertisement::{law_report_tells_what_was_heard, lemma_said_push, said, tells};
use crate::laws::list::{lemma_filter_map_is_picked, picked};
use crate::laws::report::{law_scan_reports_are_measured, measured};
use crate::laws::text::{law_lower_case_is_the_small_form, small_form};
use crate::observer::ScanObserver;
use crate::payload::ServiceData;
use crate::report::{AdapterView, ScanReport};
use crate::text::ascii_lower;
use std::time::Duration;
use vstd::prelude::*;
use vstd::string::*;
use vstd::utf8::*;

verus! {

/// Each state goes by its name, and one that is not listed by that of the unknown one.
pub open spec fn goes_by(state: CentralState, name: Seq<char>) -> bool {
    &&& state == CentralState::PoweredOn ==> name == "powered_on"@
    &&& state == CentralState::PoweredOff ==> name == "powered_off"@
    &&& state == CentralState::Unauthorized ==> name == "unauthorized"@
    &&& state == CentralState::Unsupported ==> name == "unsupported"@
    &&& state == CentralState::Resetting ==> name == "resetting"@
    &&& state == CentralState::Unknown || state == CentralState::Other ==> name == "unknown"@
}

/// States go by their names.
pub proof fn law_states_go_by_their_names(state: CentralState, name: &'static str)
    requires
        call_ensures(state_name, (state,), name),
    ensures
        goes_by(state, name@),
{
}

/// A UUID is the full form of a text: the text in small letters, filled up where it has
/// four bytes or eight.
pub open spec fn is_full_form(text: Seq<char>, uuid: Seq<char>) -> bool {
    forall|small: Seq<char>| #[trigger]
        small_form(text, small) ==> {
            &&& encode_utf8(small).len() == 4 ==> uuid == seq!['0', '0', '0', '0'] + small
                + shared_tail()
            &&& encode_utf8(small).len() == 8 ==> uuid == small + shared_tail()
            &&& encode_utf8(small).len() != 4 && encode_utf8(small).len() != 8 ==> uuid == small
        }
}

proof fn lemma_full_form(text: Seq<char>, uuid: Seq<char>)
    ensures
        is_full_form(text, uuid) <==> uuid == full_uuid(text),
{
    reveal_strlit("0000");
    reveal_strlit("-0000-1000-8000-00805f9b34fb");
    let lower: Seq<char> = ascii_lower(text);
    assert("0000"@ =~= seq!['0', '0', '0', '0']);
    assert("-0000-1000-8000-00805f9b34fb"@ =~= shared_tail());
    assert forall|small: Seq<char>| #[trigger] small_form(text, small) <==> small == lower by {
        law_lower_case_is_the_small_form(text, small);
    }
    assert(small_form(text, lower));
}

/// A UUID is brought to its full form.
pub proof fn law_uuids_are_brought_to_full_form(text: &str, uuid: String)
    requires
        call_ensures(normalize_uuid, (text,), uuid),
    ensures
        is_full_form(text@, uuid@),
{
    lemma_full_form(text@, uuid@);
}

/// Service data that are there are taken over as they are, under the full UUID.
pub open spec fn service_read(received: CentralServiceData, item: ServiceData) -> bool {
    &&& is_full_form(received.uuid@, item.uuid@)
    &&& match received.data {
        Some(data) => data@ == item.data@,
        None => false,
    }
}

/// An advertisement says, field by field, what was received.
pub open spec fn says_received(received: CentralAdvertisement, raw: RawAdvertisement) -> bool {
    &&& small_form(received.identifier@, raw.address@)
    &&& raw.address_type == AddressType::Unknown
    &&& match received.local_name {
        Some(name) => raw.local_name is Some && raw.local_name->0@ == name@,
        None => raw.local_name is None,
    }
    &&& raw.rssi_dbm is Some
    &&& raw.rssi_dbm->0 == received.rssi_dbm
    &&& raw.tx_power_dbm == received.tx_power_dbm
    &&& raw.connectable == received.connectable
    &&& match received.service_uuids {
        Some(uuids) => raw.service_uuids@.len() == uuids@.len() && forall|i: int|
            0 <= i < uuids@.len() ==> is_full_form(
                uuids@[i]@,
                (#[trigger] raw.service_uuids@[i])@,
            ),
        None => raw.service_uuids@.len() == 0,
    }
    &&& match received.manufacturer_data {
        Some(bytes) => if bytes@.len() >= 2 {
            &&& raw.manufacturer_data@.len() == 1
            &&& raw.manufacturer_data@[0].company_id == bytes@[0] + 0x100 * bytes@[1]
            &&& raw.manufacturer_data@[0].data@.len() == bytes@.len() - 2
            &&& forall|i: int|
                0 <= i < bytes@.len() - 2 ==> #[trigger] raw.manufacturer_data@[0].data@[i]
                    == bytes@[2 + i]
        } else {
            raw.manufacturer_data@.len() == 0
        },
        None => raw.manufacturer_data@.len() == 0,
    }
    &&& match received.service_data {
        Some(items) => picked(
            items@,
            |from: CentralServiceData| from.data is Some,
            |from: CentralServiceData, item: ServiceData| service_read(from, item),
            raw.service_data@,
        ),
        None => raw.service_data@.len() == 0,
    }
    &&& raw.protocol_identity is Some
    &&& raw.protocol_identity->0@ == "corebluetooth:"@ + raw.address@
}

/// A received advertisement is converted field by field.
#[verifier::rlimit(40)]
pub proof fn law_conversion_says_what_was_received(
    received: CentralAdvertisement,
    raw: RawAdvertisement,
)
    requires
        call_ensures(convert_advertisement, (received,), raw),
    ensures
        says_received(received, raw),
{
    law_lower_case_is_the_small_form(received.identifier@, raw.address@);
    assert(raw.service_uuids@.len() == raw.service_uuids.deep_view().len());
    if let Some(uuids) = received.service_uuids {
        assert forall|i: int| 0 <= i < uuids@.len() implies is_full_form(
            uuids@[i]@,
            (#[trigger] raw.service_uuids@[i])@,
        ) by {
            assert(raw.service_uuids.deep_view()[i] == raw.service_uuids@[i]@);
            assert(uuids.deep_view()[i] == uuids@[i]@);
            lemma_full_form(uuids@[i]@, raw.service_uuids@[i]@);
        }
    }
    assert(raw.manufacturer_data@.len() == raw.manufacturer_data.deep_view().len());
    if let Some(bytes) = received.manufacturer_data {
        if bytes@.len() >= 2 {
            assert(raw.manufacturer_data.deep_view()[0] == raw.manufacturer_data@[0].deep_view());
        }
    }
    assert(raw.service_data@.len() == raw.service_data.deep_view().len());
    if let Some(items) = received.service_data {
        let f = |item: CentralServiceData| service_item(item);
        let view = |item: ServiceData| item.deep_view();
        let reads = |from: CentralServiceData, item: ServiceData| service_read(from, item);
        let readable = |from: CentralServiceData| from.data is Some;
        assert forall|a: CentralServiceData, b: ServiceData| f(a) == Some(
            view(b),
        ) implies #[trigger] reads(a, b) by {
            lemma_full_form(a.uuid@, b.uuid@);
        }
        assert forall|k: int| 0 <= k < raw.service_data@.len() implies view(
            #[trigger] raw.service_data@[k],
        ) == items@.filter_map(f)[k] by {
            assert(raw.service_data.deep_view()[k] == raw.service_data@[k].deep_view());
        }
        lemma_filter_map_is_picked(items@, f, raw.service_data@, view, readable, reads);
    }
}

/// Whether a device takes connections is handed on as it was received: advertisements
/// that differ in it are converted to ones that differ in it, and so are those that
/// differ in the signal strength or the transmit power.
pub proof fn law_conversion_keeps_advertisements_apart(
    received: CentralAdvertisement,
    raw: RawAdvertisement,
    other: CentralAdvertisement,
    other_raw: RawAdvertisement,
)
    requires
        call_ensures(convert_advertisement, (received,), raw),
        call_ensures(convert_advertisement, (other,), other_raw),
    ensures
        raw.connectable == other_raw.connectable <==> received.connectable == other.connectable,
        raw.tx_power_dbm == other_raw.tx_power_dbm <==> received.tx_power_dbm
            == other.tx_power_dbm,
        raw.rssi_dbm == other_raw.rssi_dbm <==> received.rssi_dbm == other.rssi_dbm,
{
}

/// The state of the manager is taken as it is exactly if it will not change by itself,
/// or no time is left, or the observer, asked then, cancelled.
pub proof fn law_unsettled_states_are_waited_for<O: ScanObserver + ?Sized>(
    observer: &O,
    state: CentralState,
    elapsed: Duration,
    duration: Duration,
    take: bool,
)
    requires
        call_ensures(state_is_final::<O>, (observer, state, elapsed, duration), take),
    ensures
        state != CentralState::Unknown && state != CentralState::Resetting ==> take,
        nanos(elapsed) >= nanos(duration) ==> take,
        (state == CentralState::Unknown || state == CentralState::Resetting) && nanos(elapsed)
            < nanos(duration) ==> call_ensures(O::is_cancelled, (observer,), take),
{
}

/// While the manager gets ready a state is handed on, other events are passed over, and
/// the loss of the delegate is an error.
pub proof fn law_readiness_comes_from_states(
    event: CentralEvent,
    state: Result<Option<CentralState>, Error>,
)
    requires
        call_ensures(state_from_event, (event,), state),
    ensures
        event matches CentralEvent::State(next) ==> state is Ok && state->Ok_0 == Some(next),
        event is Advertisement || event is Timeout ==> state is Ok && state->Ok_0 is None,
        event is Disconnected ==> state is Err && state->Err_0@
            == "CoreBluetooth delegate stopped"@,
{
}

/// A scan is refused exactly if the adapter is not powered on; the report then names the
/// state, in its one adapter and in its one error.
#[verifier::rlimit(40)]
pub proof fn law_scans_need_a_powered_adapter(
    state: CentralState,
    elapsed: Duration,
    report: Option<ScanReport>,
)
    requires
        call_ensures(not_ready_report, (state, elapsed), report),
    ensures
        report is Some <==> state != CentralState::PoweredOn,
        report matches Some(report) ==> {
            &&& report.advertisements@.len() == 0
            &&& report.skipped_without_rssi == 0
            &&& measured(report, elapsed)
            &&& report.adapters@.len() == 1
            &&& report.adapters@[0].name@ == "CoreBluetooth"@
            &&& goes_by(state, report.adapters@[0].state@)
            &&& !report.adapters@[0].scan_started
            &&& report.adapters@[0].errors@.len() == 1
            &&& report.adapters@[0].errors@[0]@ == "CoreBluetooth adapter is "@
                + report.adapters@[0].state@
            &&& report.errors@.len() == 1
            &&& report.errors@[0]@ == "CoreBluetooth adapter is "@ + report.adapters@[0].state@
        },
{
    if let Some(report) = report {
        assert(said(seq![]) =~= seq![]);
        let nothing: Seq<RawAdvertisement> = seq![];
        law_report_tells_what_was_heard(nothing, report, elapsed);
        law_scan_reports_are_measured(report, Map::empty(), elapsed);
        if report.advertisements@.len() > 0 {
            let item = report.advertisements@[0];
            assert(crate::laws::advertisement::tells_device(nothing, item));
        }
        let silent: Set<Seq<char>> = choose|silent: Set<Seq<char>>|
            silent.finite() && silent.len() == report.skipped_without_rssi && forall|
                key: Seq<char>,
            | #[trigger]
                silent.contains(key) <==> crate::laws::advertisement::heard_without_rssi(
                    nothing,
                    key,
                );
        assert(silent =~= Set::empty());
        let views: Seq<AdapterView> = report.adapters.deep_view();
        assert(views.len() == 1);
        assert(views[0] == report.adapters@[0].deep_view());
        let errors: Seq<Seq<char>> = report.errors.deep_view();
        assert(errors.len() == 1);
        assert(errors[0] == report.errors@[0]@);
        let adapter_errors: Seq<Seq<char>> = report.adapters@[0].errors.deep_view();
        assert(adapter_errors.len() == 1);
        assert(adapter_errors[0] == report.adapters@[0].errors@[0]@);
    }
}

/// A new scan has seen nothing.
pub proof fn law_new_scans_have_heard_nothing(scan: CentralScan)
    requires
        call_ensures(<CentralScan as Default>::default, (), scan),
    ensures
        scan.seen() == merged_all(Map::empty(), said(seq![])),
{
    assert(said(seq![]) =~= seq![]);
}

/// What was heard after an event: one advertisement more, where the event is one.
pub open spec fn heard_with(
    heard: Seq<RawAdvertisement>,
    event: CentralEvent,
) -> Seq<RawAdvertisement> {
    match event {
        CentralEvent::Advertisement(item) => heard.push(item),
        _ => heard,
    }
}

/// An event while the scan runs: an advertisement is taken in; the scan fails exactly if
/// the adapter is no longer powered on or the delegate is gone, and says which.
pub proof fn law_events_are_taken_in(
    heard: Seq<RawAdvertisement>,
    scan: &mut CentralScan,
    event: CentralEvent,
    outcome: Result<(), Error>,
)
    requires
        old(scan).seen() == merged_all(Map::empty(), said(heard)),
        call_ensures(CentralScan::received, (scan, event), outcome),
    ensures
        final(scan).seen() == merged_all(Map::empty(), said(heard_with(heard, event))),
        outcome is Err <==> event is Disconnected || (event is State && event->State_0
            != CentralState::PoweredOn),
        event is Disconnected ==> outcome->Err_0@ == "CoreBluetooth delegate stopped"@,
        event matches CentralEvent::State(next) ==> (outcome is Err ==> exists|name: Seq<char>|
            #[trigger] goes_by(next, name) && outcome->Err_0@ == "CoreBluetooth adapter became "@
                + name),
{
    if let CentralEvent::Advertisement(item) = event {
        lemma_said_push(heard, item);
    }
    if let CentralEvent::State(next) = event {
        assert(goes_by(next, crate::core_bluetooth::state_text(next)));
    }
}

/// Of the events that were left when the scan had stopped, advertisements are taken in.
pub proof fn law_late_advertisements_are_taken_in(
    heard: Seq<RawAdvertisement>,
    scan: &mut CentralScan,
    event: CentralEvent,
)
    requires
        old(scan).seen() == merged_all(Map::empty(), said(heard)),
        call_ensures(CentralScan::drained, (scan, event), ()),
    ensures
        final(scan).seen() == merged_all(Map::empty(), said(heard_with(heard, event))),
{
    if let CentralEvent::Advertisement(item) = event {
        lemma_said_push(heard, item);
    }
}

/// The report of a scan tells what was heard, without errors.
pub proof fn law_scan_reports_what_was_heard(
    heard: Seq<RawAdvertisement>,
    scan: CentralScan,
    cancelled: bool,
    elapsed: Duration,
    report: ScanReport,
)
    requires
        scan.seen() == merged_all(Map::empty(), said(heard)),
        call_ensures(CentralScan::finish, (scan, cancelled, elapsed), report),
    ensures
        tells(heard, report.advertisements@, report.skipped_without_rssi as int),
        measured(report, elapsed),
        report.errors@.len() == 0,
        report.adapters@.len() == 1,
        report.adapters@[0].name@ == "CoreBluetooth"@,
        cancelled ==> report.adapters@[0].state@ == "cancelled"@,
        !cancelled ==> report.adapters@[0].state@ == "powered_on"@,
        report.adapters@[0].scan_started,
        report.adapters@[0].errors@.len() == 0,
{
    law_report_tells_what_was_heard(heard, report, elapsed);
    law_scan_reports_are_measured(report, scan.seen(), elapsed);
    assert(report.errors@.len() == report.errors.deep_view().len());
    let views: Seq<AdapterView> = report.adapters.deep_view();
    assert(views.len() == 1);
    assert(views[0] == report.adapters@[0].deep_view());
    assert(report.adapters@[0].errors@.len() == report.adapters@[0].errors.deep_view().len());
}

} // verus!
