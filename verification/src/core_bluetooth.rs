//! Scanning through CoreBluetooth: what its events mean.

use crate::address::{assigned_uuid, base_uuid_tail, AddressType};
use crate::advertisement::{
    lemma_raw_names_lower_uuids, merged, merged_all, names_lower_uuids, AdvertisementSet,
    AdvertisementView, RawAdvertisement,
};
use crate::clock::{keep_scanning, nanos};
use crate::error::Error;
use crate::observer::ScanObserver;
use crate::payload::{lemma_filter_map_all, ManufacturerData, ServiceData};
use crate::report::{
    law_reported_uuids_are_lower_case, lists_lower_uuids, AdapterReport, AdapterView, ScanReport,
};
use crate::text::{
    ascii_lower, digit_number, hex, hex_digit, hex_number, is_hex_digit, is_hex_text, is_lower,
    join, law_ascii_lower_idempotent, lemma_hex_len, lower_char,
};
use std::time::Duration;
use vstd::prelude::*;
use vstd::slice::{slice_subrange, slice_to_vec};
use vstd::string::*;
use vstd::utf8::*;

verus! {

/// The states of the Bluetooth manager.
#[derive(Debug, Clone, Copy, PartialEq, Eq, Structural)]
pub enum CentralState {
    Unknown,
    Resetting,
    Unsupported,
    Unauthorized,
    PoweredOff,
    PoweredOn,
    /// A state that CoreBluetooth did not have when this list was made.
    Other,
}

/// One advertisement as the manager's delegate receives it.
#[derive(Debug)]
pub struct CentralAdvertisement {
    pub identifier: String,
    pub local_name: Option<String>,
    pub rssi_dbm: i16,
    pub tx_power_dbm: Option<i16>,
    pub connectable: Option<bool>,
    pub service_uuids: Option<Vec<String>>,
    pub manufacturer_data: Option<Vec<u8>>,
    pub service_data: Option<Vec<CentralServiceData>>,
}

/// The data of one service, where it is to be had.
#[derive(Debug)]
pub struct CentralServiceData {
    pub uuid: String,
    pub data: Option<Vec<u8>>,
}

/// What happened while the scan waited.
#[derive(Debug)]
pub enum CentralEvent {
    State(CentralState),
    Advertisement(RawAdvertisement),
    Timeout,
    Disconnected,
}

/// The name under which a state is reported.
pub open spec fn state_text(state: CentralState) -> Seq<char> {
    match state {
        CentralState::PoweredOn => "powered_on"@,
        CentralState::PoweredOff => "powered_off"@,
        CentralState::Unauthorized => "unauthorized"@,
        CentralState::Unsupported => "unsupported"@,
        CentralState::Resetting => "resetting"@,
        CentralState::Unknown => "unknown"@,
        CentralState::Other => "unknown"@,
    }
}

/// The name under which a state is reported.
pub fn state_name(state: CentralState) -> (name: &'static str)
    ensures
        name@ == state_text(state),
{
    if state == CentralState::PoweredOn {
        "powered_on"
    } else if state == CentralState::PoweredOff {
        "powered_off"
    } else if state == CentralState::Unauthorized {
        "unauthorized"
    } else if state == CentralState::Unsupported {
        "unsupported"
    } else if state == CentralState::Resetting {
        "resetting"
    } else {
        "unknown"
    }
}

/// The full form of a UUID in lower case: a text of four or of eight bytes stands
/// for a UUID that Bluetooth assigned.
pub open spec fn full_uuid(text: Seq<char>) -> Seq<char> {
    let lower: Seq<char> = ascii_lower(text);
    if encode_utf8(lower).len() == 4 {
        "0000"@ + lower + base_uuid_tail()
    } else if encode_utf8(lower).len() == 8 {
        lower + base_uuid_tail()
    } else {
        lower
    }
}

/// Brings the text of a UUID to its full form in lower case.
pub fn normalize_uuid(text: &str) -> (uuid: String)
    ensures
        uuid@ == full_uuid(text@),
{
    let value: String = text.to_ascii_lowercase();
    let width: usize = value.as_str().as_bytes().len();
    if width == 4 {
        let mut uuid: String = join("0000", value.as_str());
        uuid.append("-0000-1000-8000-00805f9b34fb");
        uuid
    } else if width == 8 {
        join(value.as_str(), "-0000-1000-8000-00805f9b34fb")
    } else {
        value
    }
}

proof fn lemma_digits_read_back(text: Seq<char>)
    requires
        is_hex_text(text),
    ensures
        ascii_lower(text) == hex(hex_number(text), text.len(), false),
        is_ascii_chars(ascii_lower(text)),
    decreases text.len(),
{
    lemma_hex_len(hex_number(text), text.len(), false);
    if text.len() > 0 {
        let front: Seq<char> = text.drop_last();
        lemma_digits_read_back(front);
        let number: nat = hex_number(text);
        assert(number / 16 == hex_number(front));
        assert(number % 16 == digit_number(text.last()));
        assert(is_hex_digit(text[text.len() - 1]));
        assert(lower_char(text.last()) == hex_digit(digit_number(text.last()), false));
        assert(ascii_lower(text) =~= ascii_lower(front).push(lower_char(text.last())));
        assert forall|i: int| 0 <= i < text.len() implies (#[trigger] ascii_lower(text)[i] as u32)
            < 0x80 by {
            assert(is_hex_digit(text[i]));
        }
    } else {
        assert(ascii_lower(text) =~= hex(0, 0, false));
    }
}

proof fn lemma_hex_leading_zeros(value: nat)
    requires
        value < 0x1_0000,
    ensures
        hex(value, 8, false) == "0000"@ + hex(value, 4, false),
{
    reveal_strlit("0000");
    reveal_with_fuel(hex, 9);
    let high: nat = value / 16 / 16 / 16 / 16;
    assert(high == 0);
    assert(hex(0, 4, false) =~= "0000"@);
    assert(hex(value, 8, false) =~= hex(high, 4, false) + hex(value, 4, false));
}

/// A short UUID that CoreBluetooth spells in four or eight hexadecimal digits, capital
/// or small, becomes the same full UUID as the number that the digits read as.
pub proof fn law_short_uuid_texts_and_numbers_agree(text: Seq<char>)
    requires
        is_hex_text(text),
        text.len() == 4 || text.len() == 8,
    ensures
        full_uuid(text) == assigned_uuid(hex_number(text)),
{
    lemma_digits_read_back(text);
    is_ascii_chars_encode_utf8(ascii_lower(text));
    if text.len() == 4 {
        reveal_with_fuel(hex_number, 5);
        assert(is_hex_digit(text[0]) && is_hex_digit(text[1]) && is_hex_digit(text[2])
            && is_hex_digit(text[3]));
        assert(hex_number(text) < 0x1_0000);
        lemma_hex_leading_zeros(hex_number(text));
        assert(full_uuid(text) =~= assigned_uuid(hex_number(text)));
    }
}

proof fn lemma_encode_concat_len(a: Seq<char>, b: Seq<char>)
    ensures
        encode_utf8(a + b).len() == encode_utf8(a).len() + encode_utf8(b).len(),
    decreases a.len(),
{
    if a.len() == 0 {
        assert(a + b =~= b);
    } else {
        assert((a + b).drop_first() =~= a.drop_first() + b);
        lemma_encode_concat_len(a.drop_first(), b);
    }
}

proof fn lemma_base_tail_is_lower()
    ensures
        ascii_lower(base_uuid_tail()) == base_uuid_tail(),
        encode_utf8(base_uuid_tail()).len() == 28,
        ascii_lower("0000"@) == "0000"@,
        encode_utf8("0000"@).len() == 4,
{
    reveal_strlit("-0000-1000-8000-00805f9b34fb");
    reveal_strlit("0000");
    assert(ascii_lower(base_uuid_tail()) =~= base_uuid_tail());
    assert(ascii_lower("0000"@) =~= "0000"@);
    assert(is_ascii_chars(base_uuid_tail()));
    assert(is_ascii_chars("0000"@));
    is_ascii_chars_encode_utf8(base_uuid_tail());
    is_ascii_chars_encode_utf8("0000"@);
}

/// The full form of a UUID in full form is that UUID, and it is in lower case.
pub proof fn law_normalizing_again_changes_nothing(text: Seq<char>)
    ensures
        is_lower(full_uuid(text)),
        full_uuid(full_uuid(text)) == full_uuid(text),
{
    let lower: Seq<char> = ascii_lower(text);
    let full: Seq<char> = full_uuid(text);
    law_ascii_lower_idempotent(text);
    lemma_base_tail_is_lower();
    lemma_encode_concat_len("0000"@, lower);
    lemma_encode_concat_len("0000"@ + lower, base_uuid_tail());
    lemma_encode_concat_len(lower, base_uuid_tail());
    assert(ascii_lower("0000"@ + lower + base_uuid_tail()) =~= ascii_lower("0000"@) + ascii_lower(
        lower,
    ) + ascii_lower(base_uuid_tail()));
    assert(ascii_lower(lower + base_uuid_tail()) =~= ascii_lower(lower) + ascii_lower(
        base_uuid_tail(),
    ));
    assert(ascii_lower(full) =~= full);
}

/// Manufacturer data: the company number, its low byte first, then the data. Fewer
/// than two bytes hold none.
pub open spec fn manufacturer_items(bytes: Option<Vec<u8>>) -> Seq<(u16, Seq<u8>)> {
    match bytes {
        Some(bytes) => if bytes@.len() >= 2 {
            seq![
                (
                    (bytes@[0] + 0x100 * bytes@[1]) as u16,
                    bytes@.subrange(2, bytes@.len() as int),
                ),
            ]
        } else {
            seq![]
        },
        None => seq![],
    }
}

/// The data of a service, where it is to be had, under its full UUID.
pub open spec fn service_item(item: CentralServiceData) -> Option<(Seq<char>, Seq<u8>)> {
    match item.data {
        Some(data) => Some((full_uuid(item.uuid@), data@)),
        None => None,
    }
}

/// The service data of an advertisement, in the order of its services.
pub open spec fn service_items(items: Option<Vec<CentralServiceData>>) -> Seq<
    (Seq<char>, Seq<u8>),
> {
    match items {
        Some(items) => items@.filter_map(|item: CentralServiceData| service_item(item)),
        None => seq![],
    }
}

/// The UUIDs of an advertisement in full form.
pub open spec fn full_uuids(uuids: Option<Vec<String>>) -> Seq<Seq<char>> {
    match uuids {
        Some(uuids) => uuids.deep_view().map_values(|uuid: Seq<char>| full_uuid(uuid)),
        None => seq![],
    }
}

fn read_manufacturer_data(bytes: Option<Vec<u8>>) -> (list: Vec<ManufacturerData>)
    ensures
        list.deep_view() == manufacturer_items(bytes),
{
    let mut list: Vec<ManufacturerData> = Vec::new();
    if let Some(bytes) = &bytes {
        if bytes.len() >= 2 {
            let company_id: u16 = bytes[0] as u16 + 0x100 * (bytes[1] as u16);
            let data: Vec<u8> = slice_to_vec(slice_subrange(bytes.as_slice(), 2, bytes.len()));
            list.push(ManufacturerData { company_id, data });
        }
    }
    assert(list.deep_view() =~= manufacturer_items(bytes));
    list
}

fn read_service_data(items: Option<Vec<CentralServiceData>>) -> (list: Vec<ServiceData>)
    ensures
        list.deep_view() == service_items(items),
{
    let mut list: Vec<ServiceData> = Vec::new();
    let ghost f = |item: CentralServiceData| service_item(item);
    if let Some(items) = items {
        let ghost all: Seq<CentralServiceData> = items@;
        assert(list.deep_view() =~= all.take(0).filter_map(f));
        for item in it: items.into_iter()
            invariant
                it.seq() == all,
                f == (|item: CentralServiceData| service_item(item)),
                list.deep_view() == all.take(it.index() as int).filter_map(f),
        {
            let ghost n: int = it.index() as int;
            let ghost before: Seq<(Seq<char>, Seq<u8>)> = list.deep_view();
            proof {
                assert(all.take(n + 1).drop_last() =~= all.take(n));
                assert(all.take(n + 1).last() == item);
            }
            if let Some(data) = item.data {
                let uuid: String = normalize_uuid(item.uuid.as_str());
                list.push(ServiceData { uuid, data });
                assert(list.deep_view() =~= before + seq![(uuid@, data@)]);
            }
        }
        assert(all.take(all.len() as int) =~= all);
    } else {
        assert(list.deep_view() =~= seq![]);
    }
    list
}

fn read_service_uuids(uuids: Option<Vec<String>>) -> (list: Vec<String>)
    ensures
        list.deep_view() == full_uuids(uuids),
{
    let mut list: Vec<String> = Vec::new();
    if let Some(uuids) = &uuids {
        let mut i: usize = 0;
        while i < uuids.len()
            invariant
                i <= uuids@.len(),
                list@.len() == i,
                forall|j: int| 0 <= j < i ==> (#[trigger] list@[j])@ == full_uuid(uuids@[j]@),
            decreases uuids@.len() - i,
        {
            list.push(normalize_uuid(uuids[i].as_str()));
            i += 1;
        }
    }
    assert(list.deep_view() =~= full_uuids(uuids));
    list
}

/// The advertisement says what was received.
pub open spec fn converted(received: CentralAdvertisement, raw: RawAdvertisement) -> bool {
    &&& raw.address@ == ascii_lower(received.identifier@)
    &&& raw.address_type == AddressType::Unknown
    &&& raw.local_name == received.local_name
    &&& raw.rssi_dbm == Some(received.rssi_dbm)
    &&& raw.tx_power_dbm == received.tx_power_dbm
    &&& raw.connectable == received.connectable
    &&& raw.service_uuids.deep_view() == full_uuids(received.service_uuids)
    &&& raw.manufacturer_data.deep_view() == manufacturer_items(received.manufacturer_data)
    &&& raw.service_data.deep_view() == service_items(received.service_data)
    &&& raw.protocol_identity.deep_view() == Some(
        "corebluetooth:"@ + ascii_lower(received.identifier@),
    )
}

/// What a received advertisement says. CoreBluetooth hides the address; its own
/// identifier of the device, in lower case, stands in for it.
pub fn convert_advertisement(received: CentralAdvertisement) -> (raw: RawAdvertisement)
    ensures
        converted(received, raw),
{
    let identifier: String = received.identifier.as_str().to_ascii_lowercase();
    let identity: String = join("corebluetooth:", identifier.as_str());
    RawAdvertisement {
        address: identifier,
        address_type: AddressType::Unknown,
        local_name: received.local_name,
        rssi_dbm: Some(received.rssi_dbm),
        tx_power_dbm: received.tx_power_dbm,
        connectable: received.connectable,
        service_uuids: read_service_uuids(received.service_uuids),
        manufacturer_data: read_manufacturer_data(received.manufacturer_data),
        service_data: read_service_data(received.service_data),
        protocol_identity: Some(identity),
    }
}

proof fn lemma_converted_names_lower_uuids(received: CentralAdvertisement, raw: RawAdvertisement)
    requires
        converted(received, raw),
    ensures
        names_lower_uuids(raw@),
{
    if let Some(uuids) = received.service_uuids {
        assert forall|i: int| 0 <= i < raw.service_uuids.deep_view().len() implies is_lower(
            #[trigger] raw.service_uuids.deep_view()[i],
        ) by {
            law_normalizing_again_changes_nothing(uuids.deep_view()[i]);
        }
    }
    if let Some(items) = received.service_data {
        let f = |item: CentralServiceData| service_item(item);
        let p = |item: (Seq<char>, Seq<u8>)| is_lower(item.0);
        assert forall|i: int, item: (Seq<char>, Seq<u8>)|
            0 <= i < items@.len() && f(#[trigger] items@[i]) == Some(item) implies #[trigger] p(
            item,
        ) by {
            law_normalizing_again_changes_nothing(items@[i].uuid@);
        }
        lemma_filter_map_all(items@, f, p);
        assert forall|i: int| 0 <= i < raw.service_data.deep_view().len() implies is_lower(
            (#[trigger] raw.service_data.deep_view()[i]).0,
        ) by {
            assert(p(items@.filter_map(f)[i]));
        }
    }
    lemma_raw_names_lower_uuids(raw);
}

/// Every UUID in the report of a scan is in lower case.
pub proof fn law_core_bluetooth_uuids_are_lower_case(
    received: Seq<CentralAdvertisement>,
    heard: Seq<RawAdvertisement>,
    report: ScanReport,
    elapsed: Duration,
)
    requires
        received.len() == heard.len(),
        forall|i: int| 0 <= i < heard.len() ==> converted(received[i], #[trigger] heard[i]),
        report.of_scan(
            merged_all(Map::empty(), heard.map_values(|raw: RawAdvertisement| raw@)),
            elapsed,
        ),
    ensures
        forall|i: int|
            0 <= i < report.advertisements@.len() ==> lists_lower_uuids(
                #[trigger] report.advertisements@[i],
            ),
{
    let views: Seq<AdvertisementView> = heard.map_values(|raw: RawAdvertisement| raw@);
    assert forall|i: int| 0 <= i < views.len() implies names_lower_uuids(#[trigger] views[i]) by {
        assert(converted(received[i], heard[i]));
        lemma_converted_names_lower_uuids(received[i], heard[i]);
    }
    law_reported_uuids_are_lower_case(report, views, elapsed);
}

/// Whether the manager's state is one that will not change soon by itself.
pub open spec fn settled(state: CentralState) -> bool {
    state != CentralState::Unknown && state != CentralState::Resetting
}

/// Whether to take the manager's state as it is: it is settled, or no time is left,
/// or the observer cancels the scan. The observer is asked last.
pub fn state_is_final<O: ScanObserver + ?Sized>(
    observer: &O,
    state: CentralState,
    elapsed: Duration,
    duration: Duration,
) -> (take: bool)
    ensures
        settled(state) ==> take,
        nanos(elapsed) >= nanos(duration) ==> take,
        !settled(state) && nanos(elapsed) < nanos(duration) ==> call_ensures(
            O::is_cancelled,
            (observer,),
            take,
        ),
{
    (state != CentralState::Unknown && state != CentralState::Resetting) || !keep_scanning(
        observer,
        elapsed,
        duration,
    )
}

/// What an event means while the manager gets ready: a state, nothing, or the end.
pub fn state_from_event(event: CentralEvent) -> (state: Result<Option<CentralState>, Error>)
    ensures
        match event {
            CentralEvent::State(next) => state == Ok::<Option<CentralState>, Error>(Some(next)),
            CentralEvent::Disconnected => fails_with(state, "CoreBluetooth delegate stopped"@),
            _ => state == Ok::<Option<CentralState>, Error>(None),
        },
{
    match event {
        CentralEvent::State(next) => Ok(Some(next)),
        CentralEvent::Advertisement(_) => Ok(None),
        CentralEvent::Timeout => Ok(None),
        CentralEvent::Disconnected => Err(Error::new("CoreBluetooth delegate stopped")),
    }
}

/// The report is that of a scan that could not start, for the manager's state.
pub open spec fn refuses(report: ScanReport, state: CentralState, elapsed: Duration) -> bool {
    let message: Seq<char> = "CoreBluetooth adapter is "@ + state_text(state);
    &&& report.of_scan(Map::empty(), elapsed)
    &&& report.errors.deep_view() == seq![message]
    &&& report.adapters.deep_view() == seq![
        AdapterView {
            name: "CoreBluetooth"@,
            state: state_text(state),
            scan_started: false,
            errors: seq![message],
        },
    ]
}

/// The report of a scan that cannot start, for the state that the manager is in;
/// nothing where the scan can start, which takes an adapter that is powered on.
pub fn not_ready_report(state: CentralState, elapsed: Duration) -> (report: Option<ScanReport>)
    ensures
        report is None <==> state == CentralState::PoweredOn,
        report matches Some(report) ==> refuses(report, state, elapsed),
{
    if state == CentralState::PoweredOn {
        return None;
    }
    let name: &'static str = state_name(state);
    let ghost message: Seq<char> = "CoreBluetooth adapter is "@ + state_text(state);
    let mut adapter_errors: Vec<String> = Vec::new();
    adapter_errors.push(join("CoreBluetooth adapter is ", name));
    assert(adapter_errors.deep_view() =~= seq![message]);
    let mut errors: Vec<String> = Vec::new();
    errors.push(join("CoreBluetooth adapter is ", name));
    assert(errors.deep_view() =~= seq![message]);
    let adapter: AdapterReport = AdapterReport {
        name: "CoreBluetooth".to_owned(),
        state: name.to_owned(),
        scan_started: false,
        errors: adapter_errors,
    };
    let ghost view: AdapterView = adapter.deep_view();
    let mut adapters: Vec<AdapterReport> = Vec::new();
    adapters.push(adapter);
    assert(adapters.deep_view() =~= seq![view]);
    Some(ScanReport::new(elapsed, adapters, Vec::new(), 0, errors))
}

/// What is known of each device after an event: only advertisements tell anything.
pub open spec fn after_event(
    seen: Map<Seq<char>, AdvertisementView>,
    event: CentralEvent,
) -> Map<Seq<char>, AdvertisementView> {
    match event {
        CentralEvent::Advertisement(item) => merged(seen, item@),
        _ => seen,
    }
}

/// The outcome is an error with the given message.
pub open spec fn fails_with<A>(outcome: Result<A, Error>, message: Seq<char>) -> bool {
    match outcome {
        Ok(_) => false,
        Err(error) => error@ == message,
    }
}

/// A scan in progress.
#[derive(Debug)]
pub struct CentralScan {
    advertisements: AdvertisementSet,
}

impl Default for CentralScan {
    fn default() -> (scan: Self)
        ensures
            scan.seen() == Map::<Seq<char>, AdvertisementView>::empty(),
    {
        CentralScan { advertisements: AdvertisementSet::default() }
    }
}

impl CentralScan {
    /// What is known of each device.
    pub closed spec fn seen(self) -> Map<Seq<char>, AdvertisementView> {
        self.advertisements@
    }

    /// Takes in one event while the scan runs. The scan fails once the adapter is no
    /// longer powered on, or its delegate is gone.
    pub fn received(&mut self, event: CentralEvent) -> (outcome: Result<(), Error>)
        ensures
            final(self).seen() == after_event(old(self).seen(), event),
            match event {
                CentralEvent::Advertisement(_) => outcome is Ok,
                CentralEvent::Timeout => outcome is Ok,
                CentralEvent::Disconnected => fails_with(
                    outcome,
                    "CoreBluetooth delegate stopped"@,
                ),
                CentralEvent::State(next) => if next == CentralState::PoweredOn {
                    outcome is Ok
                } else {
                    fails_with(outcome, "CoreBluetooth adapter became "@ + state_text(next))
                },
            },
    {
        match event {
            CentralEvent::Advertisement(item) => {
                self.advertisements.merge(item);
                Ok(())
            },
            CentralEvent::State(next) => if next != CentralState::PoweredOn {
                Err(Error::new(join("CoreBluetooth adapter became ", state_name(next))))
            } else {
                Ok(())
            },
            CentralEvent::Timeout => Ok(()),
            CentralEvent::Disconnected => Err(Error::new("CoreBluetooth delegate stopped")),
        }
    }

    /// Takes in one event that was left when the scan had stopped: only
    /// advertisements still count.
    pub fn drained(&mut self, event: CentralEvent)
        ensures
            final(self).seen() == after_event(old(self).seen(), event),
    {
        if let CentralEvent::Advertisement(item) = event {
            self.advertisements.merge(item);
        }
    }

    /// The report of the scan.
    pub fn finish(self, cancelled: bool, elapsed: Duration) -> (report: ScanReport)
        ensures
            report.of_scan(self.seen(), elapsed),
            report.errors.deep_view() == Seq::<Seq<char>>::empty(),
            report.adapters.deep_view() == seq![
                AdapterView {
                    name: "CoreBluetooth"@,
                    state: if cancelled {
                        "cancelled"@
                    } else {
                        "powered_on"@
                    },
                    scan_started: true,
                    errors: seq![],
                },
            ],
    {
        let state: String = if cancelled {
            "cancelled".to_owned()
        } else {
            "powered_on".to_owned()
        };
        let adapter: AdapterReport = AdapterReport {
            name: "CoreBluetooth".to_owned(),
            state,
            scan_started: true,
            errors: Vec::new(),
        };
        assert(adapter.errors.deep_view() =~= seq![]);
        let ghost view: AdapterView = adapter.deep_view();
        let mut adapters: Vec<AdapterReport> = Vec::new();
        adapters.push(adapter);
        assert(adapters.deep_view() =~= seq![view]);
        let (advertisements, skipped) = self.advertisements.finish();
        let errors: Vec<String> = Vec::new();
        assert(errors.deep_view() =~= seq![]);
        ScanReport::new(elapsed, adapters, advertisements, skipped, errors)
    }
}

} // verus!
