use std::time::Duration;

use radiochron_native_ble::address::{bluetooth_uuid16, bluetooth_uuid32};
use radiochron_native_ble::core_bluetooth::{
    convert_advertisement, normalize_uuid, not_ready_report, state_from_event, state_is_final,
    state_name, CentralAdvertisement, CentralEvent, CentralScan, CentralServiceData, CentralState,
};
use radiochron_native_ble::{AddressType, NoopObserver, RawAdvertisement, ScanObserver};

struct Cancelled;

impl ScanObserver for Cancelled {
    fn is_cancelled(&self) -> bool {
        true
    }
}

fn received() -> CentralAdvertisement {
    CentralAdvertisement {
        identifier: "ABCD-EF".to_owned(),
        local_name: Some("band".to_owned()),
        rssi_dbm: -61,
        tx_power_dbm: Some(8),
        connectable: Some(false),
        service_uuids: Some(vec!["180D".to_owned(), "FEEDBEEF-1".to_owned()]),
        manufacturer_data: Some(vec![0x4c, 0x00, 2, 21]),
        service_data: Some(vec![
            CentralServiceData { uuid: "180F".to_owned(), data: Some(vec![50]) },
            CentralServiceData { uuid: "1800".to_owned(), data: None },
        ]),
    }
}

#[test]
fn names_the_manager_states() {
    assert_eq!(state_name(CentralState::PoweredOn), "powered_on");
    assert_eq!(state_name(CentralState::PoweredOff), "powered_off");
    assert_eq!(state_name(CentralState::Unauthorized), "unauthorized");
    assert_eq!(state_name(CentralState::Unsupported), "unsupported");
    assert_eq!(state_name(CentralState::Resetting), "resetting");
    assert_eq!(state_name(CentralState::Unknown), "unknown");
    assert_eq!(state_name(CentralState::Other), "unknown");
}

#[test]
fn short_uuids_are_expanded() {
    assert_eq!(normalize_uuid("180D"), bluetooth_uuid16(0x180d));
    assert_eq!(normalize_uuid("DEADBEEF"), bluetooth_uuid32(0xdead_beef));
    assert_eq!(normalize_uuid("deAdbEeF"), bluetooth_uuid32(0xdead_beef));
    assert_eq!(normalize_uuid("fEeD"), bluetooth_uuid16(0xfeed));
    assert_eq!(
        normalize_uuid("12345678-9ABC-DEF0-1234-56789ABCDEF0"),
        "12345678-9abc-def0-1234-56789abcdef0"
    );
    assert_eq!(normalize_uuid("ää"), "0000ää-0000-1000-8000-00805f9b34fb");
    assert_eq!(normalize_uuid(""), "");
}

#[test]
fn normalizing_twice_is_normalizing_once() {
    for text in ["180D", "DEADBEEF", "ABC", "", "12345678-9ABC-DEF0-1234-56789ABCDEF0"] {
        let once = normalize_uuid(text);
        assert_eq!(normalize_uuid(&once), once);
    }
}

#[test]
fn converts_a_central_advertisement() {
    let raw = convert_advertisement(received());
    assert_eq!(raw.address, "abcd-ef");
    assert_eq!(raw.address_type, AddressType::Unknown);
    assert_eq!(raw.local_name.as_deref(), Some("band"));
    assert_eq!(raw.rssi_dbm, Some(-61));
    assert_eq!(raw.tx_power_dbm, Some(8));
    assert_eq!(raw.connectable, Some(false));
    assert_eq!(
        raw.service_uuids,
        ["0000180d-0000-1000-8000-00805f9b34fb", "feedbeef-1"]
    );
    assert_eq!(raw.manufacturer_data.len(), 1);
    assert_eq!(raw.manufacturer_data[0].company_id, 0x004c);
    assert_eq!(raw.manufacturer_data[0].data, [2, 21]);
    assert_eq!(raw.service_data.len(), 1);
    assert_eq!(raw.service_data[0].uuid, "0000180f-0000-1000-8000-00805f9b34fb");
    assert_eq!(raw.service_data[0].data, [50]);
    assert_eq!(raw.protocol_identity.as_deref(), Some("corebluetooth:abcd-ef"));
}

#[test]
fn short_manufacturer_data_is_dropped() {
    let mut item = received();
    item.manufacturer_data = Some(vec![1]);
    item.service_uuids = None;
    item.service_data = None;
    let raw = convert_advertisement(item);
    assert!(raw.manufacturer_data.is_empty());
    assert!(raw.service_uuids.is_empty());
    assert!(raw.service_data.is_empty());
    let mut item = received();
    item.manufacturer_data = Some(vec![1, 2]);
    let raw = convert_advertisement(item);
    assert_eq!(raw.manufacturer_data[0].company_id, 0x0201);
    assert!(raw.manufacturer_data[0].data.is_empty());
}

#[test]
fn waits_until_the_state_is_settled() {
    let second = Duration::from_secs(1);
    assert!(state_is_final(&NoopObserver, CentralState::PoweredOff, Duration::ZERO, second));
    assert!(!state_is_final(&NoopObserver, CentralState::Unknown, Duration::ZERO, second));
    assert!(!state_is_final(&NoopObserver, CentralState::Resetting, Duration::ZERO, second));
    assert!(state_is_final(&NoopObserver, CentralState::Unknown, second, second));
    assert!(state_is_final(&Cancelled, CentralState::Unknown, Duration::ZERO, second));
    assert!(state_is_final(&NoopObserver, CentralState::Other, Duration::ZERO, second));
}

#[test]
fn readiness_comes_with_a_state_event() {
    assert_eq!(
        state_from_event(CentralEvent::State(CentralState::Resetting)),
        Ok(Some(CentralState::Resetting))
    );
    assert_eq!(state_from_event(CentralEvent::Timeout), Ok(None));
    assert_eq!(
        state_from_event(CentralEvent::Advertisement(RawAdvertisement::minimal("a"))),
        Ok(None)
    );
    let error = state_from_event(CentralEvent::Disconnected).unwrap_err();
    assert_eq!(error.message(), "CoreBluetooth delegate stopped");
}

#[test]
fn reports_an_adapter_that_is_not_ready() {
    assert_eq!(not_ready_report(CentralState::PoweredOn, Duration::ZERO), None);
    let report = not_ready_report(CentralState::PoweredOff, Duration::from_millis(7)).unwrap();
    assert_eq!(report.errors, ["CoreBluetooth adapter is powered_off"]);
    assert_eq!(report.adapters.len(), 1);
    assert_eq!(report.adapters[0].name, "CoreBluetooth");
    assert_eq!(report.adapters[0].state, "powered_off");
    assert!(!report.adapters[0].scan_started);
    assert_eq!(report.adapters[0].errors, ["CoreBluetooth adapter is powered_off"]);
    assert!(report.advertisements.is_empty());
    assert_eq!(report.skipped_without_rssi, 0);
    assert_eq!(report.elapsed_ms, 7);
}

#[test]
fn central_scan_takes_in_events() {
    let mut scan = CentralScan::default();
    assert_eq!(scan.received(CentralEvent::Timeout), Ok(()));
    assert_eq!(scan.received(CentralEvent::State(CentralState::PoweredOn)), Ok(()));
    let item = convert_advertisement(received());
    assert_eq!(scan.received(CentralEvent::Advertisement(item)), Ok(()));
    let error = scan
        .received(CentralEvent::State(CentralState::PoweredOff))
        .unwrap_err();
    assert_eq!(error.message(), "CoreBluetooth adapter became powered_off");
    let error = scan.received(CentralEvent::Disconnected).unwrap_err();
    assert_eq!(error.message(), "CoreBluetooth delegate stopped");
    let mut late = RawAdvertisement::minimal("zz");
    late.rssi_dbm = Some(-1);
    scan.drained(CentralEvent::Advertisement(late));
    scan.drained(CentralEvent::State(CentralState::PoweredOff));
    scan.drained(CentralEvent::Disconnected);
    let report = scan.finish(true, Duration::from_secs(2));
    assert_eq!(report.adapters[0].state, "cancelled");
    assert!(report.adapters[0].scan_started);
    assert!(report.adapters[0].errors.is_empty());
    assert!(report.errors.is_empty());
    assert_eq!(report.advertisements.len(), 2);
    assert_eq!(report.advertisements[0].address, "abcd-ef");
    assert_eq!(
        report.advertisements[0].service_uuids,
        ["0000180d-0000-1000-8000-00805f9b34fb", "feedbeef-1"]
    );
    assert_eq!(report.advertisements[1].address, "zz");
    assert_eq!(report.elapsed_ms, 2000);
}
