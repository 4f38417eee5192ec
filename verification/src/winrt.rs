//! Scanning through WinRT: what its events mean.

use crate::address::{
    assigned_uuid, address_text, bluetooth_uuid16, bluetooth_uuid32, classify_random_address,
    format_address, law_uuid_text_is_lower_case, le_uuid, le_value, random_address_type,
    uuid_from_le_bytes, AddressType,
};
use crate::advertisement::{
    lemma_raw_names_lower_uuids, merged, merged_all, names_lower_uuids, AdvertisementSet,
    AdvertisementView, RawAdvertisement,
};
use crate::error::{failure, failure_of, failure_text};
use crate::payload::{lemma_filter_map_all, ManufacturerData, ServiceData};
use crate::report::{
    law_reported_uuids_are_lower_case, lists_lower_uuids, AdapterReport, AdapterView, ScanReport,
};
use crate::text::{is_lower, lemma_lower_texts, lower_all, to_lower_all};
use std::time::Duration;
use vstd::prelude::*;
use vstd::slice::{slice_subrange, slice_to_vec};

verus! {

/// Data section that begins with a 16-bit UUID.
pub const SERVICE_DATA_16_BIT_UUID: u8 = 0x16;

/// Data section that begins with a 32-bit UUID.
pub const SERVICE_DATA_32_BIT_UUID: u8 = 0x20;

/// Data section that begins with a 128-bit UUID.
pub const SERVICE_DATA_128_BIT_UUID: u8 = 0x21;

/// The kinds of addresses that WinRT tells apart.
#[derive(Debug, Clone, Copy, PartialEq, Eq, Structural)]
pub enum WinrtAddressKind {
    Public,
    Random,
    Other,
}

/// The kinds of advertisements that WinRT tells apart.
#[derive(Debug, Clone, Copy, PartialEq, Eq, Structural)]
pub enum AdvertisementKind {
    ConnectableUndirected,
    ConnectableDirected,
    ScannableUndirected,
    NonConnectableUndirected,
    ScanResponse,
    Extended,
    Other,
}

/// Manufacturer data of one advertisement; a part that could not be read is missing.
#[derive(Debug)]
pub struct WinrtManufacturerData {
    pub company_id: Option<u16>,
    pub data: Option<Vec<u8>>,
}

/// One data section of an advertisement; a part that could not be read is missing.
#[derive(Debug)]
pub struct WinrtDataSection {
    pub kind: Option<u8>,
    pub data: Option<Vec<u8>>,
}

/// One received advertisement; what could not be read is missing.
#[derive(Debug)]
pub struct WinrtAdvertisement {
    pub address: u64,
    pub address_kind: WinrtAddressKind,
    pub local_name: Option<String>,
    pub rssi_dbm: Option<i16>,
    pub tx_power_dbm: Option<i16>,
    pub kind: Option<AdvertisementKind>,
    pub service_uuids: Option<Vec<String>>,
    pub manufacturer_data: Option<Vec<WinrtManufacturerData>>,
    pub data_sections: Option<Vec<WinrtDataSection>>,
}

/// Whether a device that sends advertisements of a kind takes connections; of an
/// unlisted kind it is not known.
pub open spec fn kind_connectable(kind: AdvertisementKind) -> Option<bool> {
    match kind {
        AdvertisementKind::ConnectableUndirected => Some(true),
        AdvertisementKind::ConnectableDirected => Some(true),
        AdvertisementKind::Other => None,
        _ => Some(false),
    }
}

/// Whether a device that sends advertisements of this kind takes connections.
pub fn connectable_from_type(kind: AdvertisementKind) -> (connectable: Option<bool>)
    ensures
        connectable == kind_connectable(kind),
{
    if kind == AdvertisementKind::ConnectableUndirected || kind
        == AdvertisementKind::ConnectableDirected {
        Some(true)
    } else if kind == AdvertisementKind::ScannableUndirected || kind
        == AdvertisementKind::NonConnectableUndirected || kind == AdvertisementKind::ScanResponse
        || kind == AdvertisementKind::Extended {
        Some(false)
    } else {
        None
    }
}

/// The number of bytes of the UUID with which service data of a kind begins.
pub open spec fn uuid_width(kind: u8) -> Option<int> {
    if kind == SERVICE_DATA_16_BIT_UUID {
        Some(2)
    } else if kind == SERVICE_DATA_32_BIT_UUID {
        Some(4)
    } else if kind == SERVICE_DATA_128_BIT_UUID {
        Some(16)
    } else {
        None
    }
}

/// The service data in a data section: a UUID, its lowest byte first, then the data.
/// Other kinds of sections, and those too short for their UUID, hold none.
pub open spec fn decoded(kind: u8, bytes: Seq<u8>) -> Option<(Seq<char>, Seq<u8>)> {
    match uuid_width(kind) {
        None => None,
        Some(width) => if bytes.len() < width {
            None
        } else {
            let uuid: Seq<u8> = bytes.subrange(0, width);
            Some(
                (
                    if width == 16 {
                        le_uuid(uuid)
                    } else {
                        assigned_uuid(le_value(uuid))
                    },
                    bytes.subrange(width, bytes.len() as int),
                ),
            )
        },
    }
}

/// Decodes one data section.
pub fn decode_service_data(kind: u8, bytes: &[u8]) -> (item: Option<ServiceData>)
    ensures
        item.deep_view() == decoded(kind, bytes@),
{
    if kind == SERVICE_DATA_16_BIT_UUID && bytes.len() >= 2 {
        let value: u16 = bytes[0] as u16 + 0x100 * (bytes[1] as u16);
        proof {
            reveal_with_fuel(le_value, 3);
            let uuid: Seq<u8> = bytes@.subrange(0, 2);
            assert(uuid[0] == bytes@[0]);
            assert(uuid.drop_first()[0] == bytes@[1]);
            assert(value == le_value(uuid));
        }
        return Some(
            ServiceData {
                uuid: bluetooth_uuid16(value),
                data: slice_to_vec(slice_subrange(bytes, 2, bytes.len())),
            },
        );
    }
    if kind == SERVICE_DATA_32_BIT_UUID && bytes.len() >= 4 {
        let value: u32 = bytes[0] as u32 + 0x100 * (bytes[1] as u32) + 0x1_0000 * (bytes[2] as u32)
            + 0x100_0000 * (bytes[3] as u32);
        proof {
            reveal_with_fuel(le_value, 5);
            let uuid: Seq<u8> = bytes@.subrange(0, 4);
            assert(uuid[0] == bytes@[0]);
            assert(uuid.drop_first()[0] == bytes@[1]);
            assert(uuid.drop_first().drop_first()[0] == bytes@[2]);
            assert(uuid.drop_first().drop_first().drop_first()[0] == bytes@[3]);
            assert(value == le_value(uuid));
        }
        return Some(
            ServiceData {
                uuid: bluetooth_uuid32(value),
                data: slice_to_vec(slice_subrange(bytes, 4, bytes.len())),
            },
        );
    }
    if kind == SERVICE_DATA_128_BIT_UUID && bytes.len() >= 16 {
        return match uuid_from_le_bytes(slice_subrange(bytes, 0, 16)) {
            Some(uuid) => Some(
                ServiceData { uuid, data: slice_to_vec(slice_subrange(bytes, 16, bytes.len())) },
            ),
            None => None,
        };
    }
    None
}

/// Manufacturer data of which both parts could be read.
pub open spec fn readable_manufacturer_data(item: WinrtManufacturerData) -> Option<
    (u16, Seq<u8>),
> {
    match (item.company_id, item.data) {
        (Some(company_id), Some(data)) => Some((company_id, data@)),
        _ => None,
    }
}

/// The service data of a section of which both parts could be read.
pub open spec fn readable_section(section: WinrtDataSection) -> Option<(Seq<char>, Seq<u8>)> {
    match (section.kind, section.data) {
        (Some(kind), Some(data)) => decoded(kind, data@),
        _ => None,
    }
}

/// The manufacturer data of an advertisement, in the order of its items.
pub open spec fn manufacturer_items(items: Option<Vec<WinrtManufacturerData>>) -> Seq<
    (u16, Seq<u8>),
> {
    match items {
        Some(items) => items@.filter_map(
            |item: WinrtManufacturerData| readable_manufacturer_data(item),
        ),
        None => seq![],
    }
}

/// The service data of an advertisement, in the order of its sections.
pub open spec fn section_items(sections: Option<Vec<WinrtDataSection>>) -> Seq<
    (Seq<char>, Seq<u8>),
> {
    match sections {
        Some(sections) => sections@.filter_map(
            |section: WinrtDataSection| readable_section(section),
        ),
        None => seq![],
    }
}

/// A name that says something: an empty one is no name.
pub open spec fn spoken_name(name: Option<Seq<char>>) -> Option<Seq<char>> {
    match name {
        Some(text) => if text.len() == 0 {
            None
        } else {
            name
        },
        None => None,
    }
}

fn read_manufacturer_data(items: Option<Vec<WinrtManufacturerData>>) -> (list: Vec<
    ManufacturerData,
>)
    ensures
        list.deep_view() == manufacturer_items(items),
{
    let mut list: Vec<ManufacturerData> = Vec::new();
    let ghost f = |item: WinrtManufacturerData| readable_manufacturer_data(item);
    if let Some(items) = items {
        let ghost all: Seq<WinrtManufacturerData> = items@;
        assert(list.deep_view() =~= all.take(0).filter_map(f));
        for item in it: items.into_iter()
            invariant
                it.seq() == all,
                f == (|item: WinrtManufacturerData| readable_manufacturer_data(item)),
                list.deep_view() == all.take(it.index() as int).filter_map(f),
        {
            let ghost n: int = it.index() as int;
            let ghost before: Seq<(u16, Seq<u8>)> = list.deep_view();
            proof {
                assert(all.take(n + 1).drop_last() =~= all.take(n));
                assert(all.take(n + 1).last() == item);
            }
            if let Some(company_id) = item.company_id {
                if let Some(data) = item.data {
                    list.push(ManufacturerData { company_id, data });
                    assert(list.deep_view() =~= before + seq![(company_id, data@)]);
                }
            }
        }
        assert(all.take(all.len() as int) =~= all);
    } else {
        assert(list.deep_view() =~= seq![]);
    }
    list
}

fn read_sections(sections: Option<Vec<WinrtDataSection>>) -> (list: Vec<ServiceData>)
    ensures
        list.deep_view() == section_items(sections),
{
    let mut list: Vec<ServiceData> = Vec::new();
    let ghost f = |section: WinrtDataSection| readable_section(section);
    if let Some(sections) = sections {
        let ghost all: Seq<WinrtDataSection> = sections@;
        assert(list.deep_view() =~= all.take(0).filter_map(f));
        for section in it: sections.into_iter()
            invariant
                it.seq() == all,
                f == (|section: WinrtDataSection| readable_section(section)),
                list.deep_view() == all.take(it.index() as int).filter_map(f),
        {
            let ghost n: int = it.index() as int;
            let ghost before: Seq<(Seq<char>, Seq<u8>)> = list.deep_view();
            proof {
                assert(all.take(n + 1).drop_last() =~= all.take(n));
                assert(all.take(n + 1).last() == section);
            }
            if let Some(kind) = section.kind {
                if let Some(data) = section.data {
                    if let Some(item) = decode_service_data(kind, data.as_slice()) {
                        let ghost view: (Seq<char>, Seq<u8>) = item.deep_view();
                        list.push(item);
                        assert(list.deep_view() =~= before + seq![view]);
                    }
                }
            }
        }
        assert(all.take(all.len() as int) =~= all);
    } else {
        assert(list.deep_view() =~= seq![]);
    }
    list
}

/// The advertisement says what was received.
pub open spec fn converted(received: WinrtAdvertisement, raw: RawAdvertisement) -> bool {
    &&& raw.address@ == address_text(received.address as nat)
    &&& raw.address_type == match received.address_kind {
        WinrtAddressKind::Public => AddressType::Public,
        WinrtAddressKind::Random => random_address_type(received.address as nat),
        WinrtAddressKind::Other => AddressType::Unknown,
    }
    &&& raw.local_name.deep_view() == spoken_name(received.local_name.deep_view())
    &&& raw.rssi_dbm == received.rssi_dbm
    &&& raw.tx_power_dbm == received.tx_power_dbm
    &&& raw.connectable == match received.kind {
        Some(kind) => kind_connectable(kind),
        None => None,
    }
    &&& raw.service_uuids.deep_view() == match received.service_uuids {
        Some(uuids) => lower_all(uuids.deep_view()),
        None => seq![],
    }
    &&& raw.manufacturer_data.deep_view() == manufacturer_items(received.manufacturer_data)
    &&& raw.service_data.deep_view() == section_items(received.data_sections)
    &&& raw.protocol_identity is None
}

/// What a received advertisement says.
pub fn convert_advertisement(received: WinrtAdvertisement) -> (raw: RawAdvertisement)
    ensures
        converted(received, raw),
{
    let address_type: AddressType = match received.address_kind {
        WinrtAddressKind::Public => AddressType::Public,
        WinrtAddressKind::Random => classify_random_address(received.address),
        WinrtAddressKind::Other => AddressType::Unknown,
    };
    let local_name: Option<String> = match received.local_name {
        Some(name) => if name.as_str().is_empty() {
            None
        } else {
            Some(name)
        },
        None => None,
    };
    let connectable: Option<bool> = match received.kind {
        Some(kind) => connectable_from_type(kind),
        None => None,
    };
    let service_uuids: Vec<String> = match received.service_uuids {
        Some(uuids) => to_lower_all(&uuids),
        None => {
            let none: Vec<String> = Vec::new();
            assert(none.deep_view() =~= seq![]);
            none
        },
    };
    RawAdvertisement {
        address: format_address(received.address),
        address_type,
        local_name,
        rssi_dbm: received.rssi_dbm,
        tx_power_dbm: received.tx_power_dbm,
        connectable,
        service_uuids,
        manufacturer_data: read_manufacturer_data(received.manufacturer_data),
        service_data: read_sections(received.data_sections),
        protocol_identity: None,
    }
}

proof fn lemma_sections_are_lower(sections: Seq<WinrtDataSection>)
    ensures
        ({
            let items: Seq<(Seq<char>, Seq<u8>)> = sections.filter_map(
                |section: WinrtDataSection| readable_section(section),
            );
            forall|i: int| 0 <= i < items.len() ==> is_lower((#[trigger] items[i]).0)
        }),
{
    let f = |section: WinrtDataSection| readable_section(section);
    let p = |item: (Seq<char>, Seq<u8>)| is_lower(item.0);
    assert forall|i: int, item: (Seq<char>, Seq<u8>)|
        0 <= i < sections.len() && f(#[trigger] sections[i]) == Some(item) implies #[trigger] p(
        item,
    ) by {
        let bytes: Seq<u8> = sections[i].data->0@;
        let uuid: Seq<u8> = bytes.subrange(0, uuid_width(sections[i].kind->0)->0);
        law_uuid_text_is_lower_case(le_value(uuid), uuid);
    }
    lemma_filter_map_all(sections, f, p);
    assert forall|i: int| 0 <= i < sections.filter_map(f).len() implies is_lower(
        (#[trigger] sections.filter_map(f)[i]).0,
    ) by {
        assert(p(sections.filter_map(f)[i]));
    }
}

proof fn lemma_converted_names_lower_uuids(received: WinrtAdvertisement, raw: RawAdvertisement)
    requires
        converted(received, raw),
    ensures
        names_lower_uuids(raw@),
{
    if let Some(uuids) = received.service_uuids {
        assert forall|i: int| 0 <= i < raw.service_uuids.deep_view().len() implies is_lower(
            #[trigger] raw.service_uuids.deep_view()[i],
        ) by {
            lemma_lower_texts(uuids.deep_view()[i], uuids.deep_view()[i]);
        }
    }
    if let Some(sections) = received.data_sections {
        lemma_sections_are_lower(sections@);
    }
    lemma_raw_names_lower_uuids(raw);
}

/// Every UUID in the report of a scan is in lower case.
pub proof fn law_winrt_uuids_are_lower_case(
    received: Seq<WinrtAdvertisement>,
    heard: Seq<RawAdvertisement>,
    report: ScanReport,
    elapsed: Duration,
)
    requires
        received.len() == heard.len(),
        forall|i: int| 0 <= i < heard.len() ==> converted(received[i], #[trigger] heard[i]),
        report.of_scan(
            merged_all(Map::empty(), heard.map_values(|raw: RawAdvertisement| raw@)),
            elapsed,
        ),
    ensures
        forall|i: int|
            0 <= i < report.advertisements@.len() ==> lists_lower_uuids(
                #[trigger] report.advertisements@[i],
            ),
{
    let views: Seq<AdvertisementView> = heard.map_values(|raw: RawAdvertisement| raw@);
    assert forall|i: int| 0 <= i < views.len() implies names_lower_uuids(#[trigger] views[i]) by {
        assert(converted(received[i], heard[i]));
        lemma_converted_names_lower_uuids(received[i], heard[i]);
    }
    law_reported_uuids_are_lower_case(report, views, elapsed);
}

/// The errors after one more: an error that was noted before is not noted again.
pub open spec fn noted(errors: Seq<Seq<char>>, message: Seq<char>) -> Seq<Seq<char>> {
    if errors.contains(message) {
        errors
    } else {
        errors.push(message)
    }
}

/// However often an error occurs, it is noted once.
pub proof fn law_errors_are_noted_once(errors: Seq<Seq<char>>, message: Seq<char>)
    requires
        errors.no_duplicates(),
    ensures
        noted(errors, message).no_duplicates(),
        noted(errors, message).contains(message),
        noted(noted(errors, message), message) == noted(errors, message),
{
    if !errors.contains(message) {
        assert(errors.push(message)[errors.len() as int] == message);
    }
}

fn contains_string(list: &Vec<String>, item: &String) -> (found: bool)
    ensures
        found == list.deep_view().contains(item@),
{
    let mut i: usize = 0;
    while i < list.len()
        invariant
            i <= list@.len(),
            forall|j: int| 0 <= j < i ==> list.deep_view()[j] != item@,
        decreases list@.len() - i,
    {
        if list[i] == *item {
            assert(list.deep_view()[i as int] == item@);
            return true;
        }
        i += 1;
    }
    false
}

/// A scan in progress: what was seen so far, and what could not be read.
#[derive(Debug)]
pub struct WinrtScan {
    advertisements: AdvertisementSet,
    errors: Vec<String>,
}

/// The errors of a scan: those of its end, then those of its events.
pub open spec fn scan_errors(
    stop: Result<(), String>,
    unsubscribe: Result<(), String>,
    noted: Seq<Seq<char>>,
) -> Seq<Seq<char>> {
    failure_of(stop, "stop WinRT BLE scan"@) + failure_of(
        unsubscribe,
        "unsubscribe WinRT BLE watcher"@,
    ) + noted
}

impl Default for WinrtScan {
    fn default() -> (scan: Self)
        ensures
            scan.seen() == Map::<Seq<char>, AdvertisementView>::empty(),
            scan.noted() == Seq::<Seq<char>>::empty(),
    {
        let scan: WinrtScan = WinrtScan {
            advertisements: AdvertisementSet::default(),
            errors: Vec::new(),
        };
        assert(scan.noted() =~= Seq::<Seq<char>>::empty());
        scan
    }
}

impl WinrtScan {
    /// What is known of each device.
    pub closed spec fn seen(self) -> Map<Seq<char>, AdvertisementView> {
        self.advertisements@
    }

    /// The errors that were noted.
    pub closed spec fn noted(self) -> Seq<Seq<char>> {
        self.errors.deep_view()
    }

    /// Takes in one event: an advertisement, or why it could not be read.
    pub fn received(&mut self, event: Result<RawAdvertisement, String>)
        ensures
            event matches Ok(item) ==> final(self).seen() == merged(old(self).seen(), item@)
                && final(self).noted() == old(self).noted(),
            event matches Err(cause) ==> final(self).seen() == old(self).seen()
                && final(self).noted() == noted(
                old(self).noted(),
                failure_text("decode WinRT BLE advertisement"@, cause@),
            ),
    {
        match event {
            Ok(item) => self.advertisements.merge(item),
            Err(cause) => {
                let message: String = failure("decode WinRT BLE advertisement", cause.as_str());
                if !contains_string(&self.errors, &message) {
                    let ghost before: Seq<Seq<char>> = self.errors.deep_view();
                    let ghost text: Seq<char> = message@;
                    self.errors.push(message);
                    assert(self.errors.deep_view() =~= before.push(text));
                }
            },
        }
    }

    /// The report of the scan.
    pub fn finish(
        self,
        stop: Result<(), String>,
        unsubscribe: Result<(), String>,
        cancelled: bool,
        elapsed: Duration,
    ) -> (report: ScanReport)
        ensures
            report.of_scan(self.seen(), elapsed),
            report.errors.deep_view() == scan_errors(stop, unsubscribe, self.noted()),
            report.adapters.deep_view() == seq![
                AdapterView {
                    name: "WinRT Bluetooth LE"@,
                    state: if cancelled {
                        "cancelled"@
                    } else {
                        "powered_on"@
                    },
                    scan_started: true,
                    errors: scan_errors(stop, unsubscribe, self.noted()),
                },
            ],
    {
        let mut errors: Vec<String> = Vec::new();
        if let Err(cause) = &stop {
            errors.push(failure("stop WinRT BLE scan", cause.as_str()));
        }
        assert(errors.deep_view() =~= failure_of(stop, "stop WinRT BLE scan"@));
        if let Err(cause) = &unsubscribe {
            errors.push(failure("unsubscribe WinRT BLE watcher", cause.as_str()));
        }
        assert(errors.deep_view() =~= failure_of(stop, "stop WinRT BLE scan"@) + failure_of(
            unsubscribe,
            "unsubscribe WinRT BLE watcher"@,
        ));
        let mut noted: Vec<String> = self.errors;
        errors.append(&mut noted);
        assert(errors.deep_view() =~= scan_errors(stop, unsubscribe, self.noted()));
        let state: String = if cancelled {
            "cancelled".to_owned()
        } else {
            "powered_on".to_owned()
        };
        let adapter: AdapterReport = AdapterReport {
            name: "WinRT Bluetooth LE".to_owned(),
            state,
            scan_started: true,
            errors: errors.clone(),
        };
        assert(adapter.errors.deep_view() =~= errors.deep_view());
        let mut adapters: Vec<AdapterReport> = Vec::new();
        let ghost view: AdapterView = adapter.deep_view();
        adapters.push(adapter);
        assert(adapters.deep_view() =~= seq![view]);
        let (advertisements, skipped) = self.advertisements.finish();
        ScanReport::new(elapsed, adapters, advertisements, skipped, errors)
    }
}

} // verus!
