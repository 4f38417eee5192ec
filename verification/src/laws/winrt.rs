//! Laws of scanning through WinRT: what its events become, and what a scan reports.

use crate::address::{le_value, AddressType};
use crate::advertisement::{merged_all, RawAdvertisement};
use crate::laws::address::{
    is_address_of, is_assigned, is_uuid_of, law_assigned_uuids_are_written_so,
    law_le_uuid_shows_each_byte,
};
use crate::laws::advertisement::{law_report_tells_what_was_heard, lemma_said_push, said, tells};
use crate::laws::list::{lemma_filter_map_is_picked, picked};
use crate::laws::report::{law_scan_reports_are_measured, measured};
use crate::laws::text::{law_lower_case_is_the_small_form, small_form};
use crate::payload::{ManufacturerData, ServiceData};
use crate::report::ScanReport;
use crate::winrt::{
    connectable_from_type, convert_advertisement, decode_service_data, decoded,
    readable_manufacturer_data, readable_section, AdvertisementKind, WinrtAddressKind,
    WinrtAdvertisement, WinrtDataSection, WinrtManufacturerData, WinrtScan,
};
use std::time::Duration;
use vstd::prelude::*;
use vstd::string::*;

verus! {

/// Only the two connectable kinds of advertisements come from devices that take
/// connections, and only of other kinds than those that WinRT lists nothing is known.
pub proof fn law_kinds_tell_who_takes_connections(
    kind: AdvertisementKind,
    connectable: Option<bool>,
)
    requires
        call_ensures(connectable_from_type, (kind,), connectable),
    ensures
        connectable == Some(true) <==> kind == AdvertisementKind::ConnectableUndirected || kind
            == AdvertisementKind::ConnectableDirected,
        connectable == Some(false) <==> kind == AdvertisementKind::ScannableUndirected || kind
            == AdvertisementKind::NonConnectableUndirected || kind
            == AdvertisementKind::ScanResponse || kind == AdvertisementKind::Extended,
        connectable is None <==> kind == AdvertisementKind::Other,
{
}

/// A section of a kind holds service data if it has the bytes of its UUID.
pub open spec fn holds_service_data(kind: u8, count: nat) -> bool {
    ||| kind == 0x16 && count >= 2
    ||| kind == 0x20 && count >= 4
    ||| kind == 0x21 && count >= 16
}

/// A section is the bytes of a UUID followed by the data, and nothing of it is lost.
pub open spec fn section_holds(
    kind: u8,
    bytes: Seq<u8>,
    uuid: Seq<char>,
    data: Seq<u8>,
) -> bool {
    &&& holds_service_data(kind, bytes.len())
    &&& kind == 0x16 ==> {
        &&& is_assigned(uuid, (bytes[0] + 0x100 * bytes[1]) as nat)
        &&& data.len() == bytes.len() - 2
        &&& forall|i: int| 0 <= i < data.len() ==> #[trigger] data[i] == bytes[2 + i]
    }
    &&& kind == 0x20 ==> {
        &&& is_assigned(
            uuid,
            (bytes[0] + 0x100 * bytes[1] + 0x1_0000 * bytes[2] + 0x100_0000 * bytes[3]) as nat,
        )
        &&& data.len() == bytes.len() - 4
        &&& forall|i: int| 0 <= i < data.len() ==> #[trigger] data[i] == bytes[4 + i]
    }
    &&& kind == 0x21 ==> {
        &&& is_uuid_of(uuid, bytes.subrange(0, 16))
        &&& data.len() == bytes.len() - 16
        &&& forall|i: int| 0 <= i < data.len() ==> #[trigger] data[i] == bytes[16 + i]
    }
}

proof fn lemma_decoded_holds(kind: u8, bytes: Seq<u8>)
    ensures
        decoded(kind, bytes) is Some <==> holds_service_data(kind, bytes.len()),
        decoded(kind, bytes) matches Some(item) ==> section_holds(kind, bytes, item.0, item.1),
{
    if let Some(item) = decoded(kind, bytes) {
        if kind == 0x16 {
            let uuid: Seq<u8> = bytes.subrange(0, 2);
            reveal_with_fuel(le_value, 3);
            assert(uuid[0] == bytes[0]);
            assert(uuid.drop_first()[0] == bytes[1]);
            law_assigned_uuids_are_written_so(le_value(uuid));
        } else if kind == 0x20 {
            let uuid: Seq<u8> = bytes.subrange(0, 4);
            reveal_with_fuel(le_value, 5);
            assert(uuid[0] == bytes[0]);
            assert(uuid.drop_first()[0] == bytes[1]);
            assert(uuid.drop_first().drop_first()[0] == bytes[2]);
            assert(uuid.drop_first().drop_first().drop_first()[0] == bytes[3]);
            law_assigned_uuids_are_written_so(le_value(uuid));
        } else {
            law_le_uuid_shows_each_byte(bytes.subrange(0, 16));
        }
    }
}

/// Nothing of a section is lost: it is decoded exactly if it has the bytes of its UUID,
/// and the data are all that follows them.
pub proof fn law_sections_are_decoded_whole(kind: u8, bytes: &[u8], item: Option<ServiceData>)
    requires
        call_ensures(decode_service_data, (kind, bytes), item),
    ensures
        item is Some <==> holds_service_data(kind, bytes@.len()),
        item matches Some(item) ==> section_holds(kind, bytes@, item.uuid@, item.data@),
{
    lemma_decoded_holds(kind, bytes@);
}

/// Manufacturer data that could be read are taken over as they are.
pub open spec fn manufacturer_read(
    received: WinrtManufacturerData,
    item: ManufacturerData,
) -> bool {
    &&& received.company_id == Some(item.company_id)
    &&& match received.data {
        Some(data) => data@ == item.data@,
        None => false,
    }
}

/// Both parts of manufacturer data could be read.
pub open spec fn manufacturer_readable(received: WinrtManufacturerData) -> bool {
    received.company_id is Some && received.data is Some
}

/// A section that could be read holds the service data, whole.
pub open spec fn section_read(section: WinrtDataSection, item: ServiceData) -> bool {
    &&& section_readable(section)
    &&& section_holds(section.kind->0, section.data->0@, item.uuid@, item.data@)
}

/// Both parts of a section could be read, and it holds service data.
pub open spec fn section_readable(section: WinrtDataSection) -> bool {
    &&& section.kind is Some
    &&& section.data is Some
    &&& holds_service_data(section.kind->0, section.data->0@.len())
}

/// A list of texts is another one with the capitals made small, item by item.
pub open spec fn small_forms(texts: Seq<String>, small: Seq<String>) -> bool {
    &&& small.len() == texts.len()
    &&& forall|i: int| 0 <= i < texts.len() ==> small_form(texts[i]@, (#[trigger] small[i])@)
}

/// The kind of a random address by its bits 47 and 46.
pub open spec fn kind_by_bits(address: u64) -> AddressType {
    if address & 0x4000_0000_0000 != 0 {
        if address & 0x8000_0000_0000 != 0 {
            AddressType::RandomStatic
        } else {
            AddressType::ResolvablePrivate
        }
    } else if address & 0x8000_0000_0000 != 0 {
        AddressType::Unknown
    } else {
        AddressType::NonResolvablePrivate
    }
}

/// An advertisement says, field by field, what was received.
pub open spec fn says_received(received: WinrtAdvertisement, raw: RawAdvertisement) -> bool {
    &&& is_address_of(raw.address@, received.address as nat)
    &&& received.address_kind == WinrtAddressKind::Public ==> raw.address_type
        == AddressType::Public
    &&& received.address_kind == WinrtAddressKind::Random ==> raw.address_type == kind_by_bits(
        received.address,
    )
    &&& received.address_kind == WinrtAddressKind::Other ==> raw.address_type
        == AddressType::Unknown
    &&& match received.local_name {
        Some(name) => if name@.len() == 0 {
            raw.local_name is None
        } else {
            raw.local_name is Some && raw.local_name->0@ == name@
        },
        None => raw.local_name is None,
    }
    &&& raw.rssi_dbm == received.rssi_dbm
    &&& raw.tx_power_dbm == received.tx_power_dbm
    &&& raw.connectable == Some(true) <==> received.kind == Some(
        AdvertisementKind::ConnectableUndirected,
    ) || received.kind == Some(AdvertisementKind::ConnectableDirected)
    &&& raw.connectable is None <==> received.kind is None || received.kind == Some(
        AdvertisementKind::Other,
    )
    &&& match received.service_uuids {
        Some(uuids) => small_forms(uuids@, raw.service_uuids@),
        None => raw.service_uuids@.len() == 0,
    }
    &&& match received.manufacturer_data {
        Some(items) => picked(
            items@,
            |from: WinrtManufacturerData| manufacturer_readable(from),
            |from: WinrtManufacturerData, item: ManufacturerData| manufacturer_read(from, item),
            raw.manufacturer_data@,
        ),
        None => raw.manufacturer_data@.len() == 0,
    }
    &&& match received.data_sections {
        Some(sections) => picked(
            sections@,
            |from: WinrtDataSection| section_readable(from),
            |from: WinrtDataSection, item: ServiceData| section_read(from, item),
            raw.service_data@,
        ),
        None => raw.service_data@.len() == 0,
    }
    &&& raw.protocol_identity is None
}

/// A received advertisement is converted field by field.
#[verifier::rlimit(40)]
pub proof fn law_conversion_says_what_was_received(
    received: WinrtAdvertisement,
    raw: RawAdvertisement,
)
    requires
        call_ensures(convert_advertisement, (received,), raw),
    ensures
        says_received(received, raw),
{
    let address: u64 = received.address;
    assert((address / 0x4000_0000_0000) % 4 >= 2 <==> address & 0x8000_0000_0000 != 0)
        by (bit_vector);
    assert((address / 0x4000_0000_0000) % 2 == 1 <==> address & 0x4000_0000_0000 != 0)
        by (bit_vector);
    crate::laws::address::law_address_texts_show_each_byte(address as nat);
    if let Some(uuids) = received.service_uuids {
        assert(raw.service_uuids@.len() == raw.service_uuids.deep_view().len());
        assert forall|i: int| 0 <= i < uuids@.len() implies small_form(
            uuids@[i]@,
            (#[trigger] raw.service_uuids@[i])@,
        ) by {
            assert(raw.service_uuids.deep_view()[i] == raw.service_uuids@[i]@);
            assert(uuids.deep_view()[i] == uuids@[i]@);
            law_lower_case_is_the_small_form(uuids@[i]@, raw.service_uuids@[i]@);
        }
    } else {
        assert(raw.service_uuids@.len() == raw.service_uuids.deep_view().len());
    }
    assert(raw.manufacturer_data@.len() == raw.manufacturer_data.deep_view().len());
    if let Some(items) = received.manufacturer_data {
        let f = |item: WinrtManufacturerData| readable_manufacturer_data(item);
        let view = |item: ManufacturerData| item.deep_view();
        let reads = |from: WinrtManufacturerData, item: ManufacturerData|
            manufacturer_read(from, item);
        assert forall|k: int| 0 <= k < raw.manufacturer_data@.len() implies view(
            #[trigger] raw.manufacturer_data@[k],
        ) == items@.filter_map(f)[k] by {
            assert(raw.manufacturer_data.deep_view()[k] == raw.manufacturer_data@[k].deep_view());
        }
        let readable = |from: WinrtManufacturerData| manufacturer_readable(from);
        lemma_filter_map_is_picked(items@, f, raw.manufacturer_data@, view, readable, reads);
    }
    assert(raw.service_data@.len() == raw.service_data.deep_view().len());
    if let Some(sections) = received.data_sections {
        let f = |section: WinrtDataSection| readable_section(section);
        let view = |item: ServiceData| item.deep_view();
        let reads = |from: WinrtDataSection, item: ServiceData| section_read(from, item);
        let readable = |from: WinrtDataSection| section_readable(from);
        assert forall|a: WinrtDataSection| #[trigger] readable(a) <==> f(a) is Some by {
            if a.kind is Some && a.data is Some {
                lemma_decoded_holds(a.kind->0, a.data->0@);
            }
        }
        assert forall|a: WinrtDataSection, b: ServiceData| f(a) == Some(
            view(b),
        ) implies #[trigger] reads(a, b) by {
            lemma_decoded_holds(a.kind->0, a.data->0@);
        }
        assert forall|k: int| 0 <= k < raw.service_data@.len() implies view(
            #[trigger] raw.service_data@[k],
        ) == sections@.filter_map(f)[k] by {
            assert(raw.service_data.deep_view()[k] == raw.service_data@[k].deep_view());
        }
        lemma_filter_map_is_picked(sections@, f, raw.service_data@, view, readable, reads);
    }
}

/// A new scan has seen nothing and noted nothing.
pub proof fn law_new_scans_have_heard_nothing(scan: WinrtScan)
    requires
        call_ensures(<WinrtScan as Default>::default, (), scan),
    ensures
        scan.seen() == merged_all(Map::empty(), said(seq![])),
        scan.noted().len() == 0,
{
    assert(said(seq![]) =~= seq![]);
}

/// An advertisement is taken in, and no error is noted.
pub proof fn law_advertisements_are_taken_in(
    heard: Seq<RawAdvertisement>,
    scan: &mut WinrtScan,
    item: RawAdvertisement,
)
    requires
        old(scan).seen() == merged_all(Map::empty(), said(heard)),
        call_ensures(
            WinrtScan::received,
            (scan, Ok::<RawAdvertisement, String>(item)),
            (),
        ),
    ensures
        final(scan).seen() == merged_all(Map::empty(), said(heard.push(item))),
        final(scan).noted() == old(scan).noted(),
{
    lemma_said_push(heard, item);
}

/// The cause why an advertisement could not be read is noted behind the others, once,
/// and nothing that was seen or noted changes.
pub proof fn law_unreadable_advertisements_are_noted(scan: &mut WinrtScan, cause: String)
    requires
        call_ensures(
            WinrtScan::received,
            (scan, Err::<RawAdvertisement, String>(cause)),
            (),
        ),
    ensures
        final(scan).seen() == old(scan).seen(),
        final(scan).noted().len() >= old(scan).noted().len(),
        forall|i: int|
            0 <= i < old(scan).noted().len() ==> #[trigger] final(scan).noted()[i]
                == old(scan).noted()[i],
        final(scan).noted().contains("decode WinRT BLE advertisement: "@ + cause@),
        old(scan).noted().contains("decode WinRT BLE advertisement: "@ + cause@)
            ==> final(scan).noted().len() == old(scan).noted().len(),
        !old(scan).noted().contains("decode WinRT BLE advertisement: "@ + cause@)
            ==> final(scan).noted().len() == old(scan).noted().len() + 1
            && final(scan).noted().last() == "decode WinRT BLE advertisement: "@ + cause@,
{
    reveal_strlit("decode WinRT BLE advertisement: ");
    reveal_strlit("decode WinRT BLE advertisement");
    reveal_strlit(": ");
    let message: Seq<char> = "decode WinRT BLE advertisement: "@ + cause@;
    assert(crate::error::failure_text("decode WinRT BLE advertisement"@, cause@) =~= message);
    let after: Seq<Seq<char>> = final(scan).noted();
    if !old(scan).noted().contains(message) {
        assert(after[after.len() - 1] == message);
    }
}

/// The number of errors that an outcome adds.
pub open spec fn failed(outcome: Result<(), String>) -> int {
    if outcome is Err {
        1
    } else {
        0
    }
}

/// The report of a scan tells what was heard, and first how its end failed, then what
/// could not be read; its one adapter says the same.
#[verifier::rlimit(40)]
pub proof fn law_scan_reports_what_was_heard(
    heard: Seq<RawAdvertisement>,
    scan: WinrtScan,
    stop: Result<(), String>,
    unsubscribe: Result<(), String>,
    cancelled: bool,
    elapsed: Duration,
    report: ScanReport,
)
    requires
        scan.seen() == merged_all(Map::empty(), said(heard)),
        call_ensures(
            WinrtScan::finish,
            (scan, stop, unsubscribe, cancelled, elapsed),
            report,
        ),
    ensures
        tells(heard, report.advertisements@, report.skipped_without_rssi as int),
        measured(report, elapsed),
        report.errors@.len() == failed(stop) + failed(unsubscribe) + scan.noted().len(),
        stop matches Err(cause) ==> report.errors@[0]@ == "stop WinRT BLE scan: "@ + cause@,
        unsubscribe matches Err(cause) ==> report.errors@[failed(stop)]@
            == "unsubscribe WinRT BLE watcher: "@ + cause@,
        forall|i: int|
            0 <= i < scan.noted().len() ==> report.errors@[failed(stop) + failed(unsubscribe)
                + i]@ == #[trigger] scan.noted()[i],
        report.adapters@.len() == 1,
        report.adapters@[0].name@ == "WinRT Bluetooth LE"@,
        cancelled ==> report.adapters@[0].state@ == "cancelled"@,
        !cancelled ==> report.adapters@[0].state@ == "powered_on"@,
        report.adapters@[0].scan_started,
        report.adapters@[0].errors@.len() == report.errors@.len(),
        forall|i: int|
            0 <= i < report.errors@.len() ==> report.adapters@[0].errors@[i]@ == (
            #[trigger] report.errors@[i])@,
{
    law_report_tells_what_was_heard(heard, report, elapsed);
    law_scan_reports_are_measured(report, scan.seen(), elapsed);
    reveal_strlit("stop WinRT BLE scan: ");
    reveal_strlit("stop WinRT BLE scan");
    reveal_strlit("unsubscribe WinRT BLE watcher: ");
    reveal_strlit("unsubscribe WinRT BLE watcher");
    reveal_strlit(": ");
    let errors: Seq<Seq<char>> = report.errors.deep_view();
    assert(errors.len() == report.errors@.len());
    assert(forall|i: int| 0 <= i < errors.len() ==> errors[i] == (#[trigger] report.errors@[i])@);
    if let Err(cause) = stop {
        assert(errors[0] == crate::error::failure_text("stop WinRT BLE scan"@, cause@));
        assert(crate::error::failure_text("stop WinRT BLE scan"@, cause@)
            =~= "stop WinRT BLE scan: "@ + cause@);
        assert(report.errors@[0]@ == errors[0]);
    }
    if let Err(cause) = unsubscribe {
        assert(errors[failed(stop)] == crate::error::failure_text(
            "unsubscribe WinRT BLE watcher"@,
            cause@,
        ));
        assert(crate::error::failure_text("unsubscribe WinRT BLE watcher"@, cause@)
            =~= "unsubscribe WinRT BLE watcher: "@ + cause@);
        assert(report.errors@[failed(stop)]@ == errors[failed(stop)]);
    }
    assert forall|i: int| 0 <= i < scan.noted().len() implies report.errors@[failed(stop)
        + failed(unsubscribe) + i]@ == #[trigger] scan.noted()[i] by {
        let at: int = failed(stop) + failed(unsubscribe) + i;
        assert(errors[at] == scan.noted()[i]);
        assert(report.errors@[at]@ == errors[at]);
    }
    let view: Seq<crate::report::AdapterView> = report.adapters.deep_view();
    assert(view.len() == 1);
    assert(view[0] == report.adapters@[0].deep_view());
    assert(report.adapters@[0].errors.deep_view() == errors);
    assert forall|i: int| 0 <= i < report.errors@.len() implies report.adapters@[0].errors@[i]@ == (
    #[trigger] report.errors@[i])@ by {
        assert(report.adapters@[0].errors.deep_view()[i] == report.adapters@[0].errors@[i]@);
    }
    assert(report.adapters@[0].errors@.len() == report.adapters@[0].errors.deep_view().len());
}

} // verus!
