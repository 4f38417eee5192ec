use std::time::Duration;

use radiochron_native_ble::winrt::{
    connectable_from_type, convert_advertisement, decode_service_data, AdvertisementKind,
    WinrtAddressKind, WinrtAdvertisement, WinrtDataSection, WinrtManufacturerData, WinrtScan,
};
use radiochron_native_ble::{AddressType, ManufacturerData, RawAdvertisement};

fn received() -> WinrtAdvertisement {
    WinrtAdvertisement {
        address: 0xc0aa_bbcc_ddee,
        address_kind: WinrtAddressKind::Random,
        local_name: Some("lamp".to_owned()),
        rssi_dbm: Some(-44),
        tx_power_dbm: Some(-4),
        kind: Some(AdvertisementKind::ConnectableUndirected),
        service_uuids: Some(vec!["0000180D-0000-1000-8000-00805F9B34FB".to_owned()]),
        manufacturer_data: Some(vec![
            WinrtManufacturerData { company_id: Some(3), data: Some(vec![7, 8]) },
            WinrtManufacturerData { company_id: None, data: Some(vec![1]) },
            WinrtManufacturerData { company_id: Some(4), data: None },
        ]),
        data_sections: Some(vec![
            WinrtDataSection { kind: Some(0x16), data: Some(vec![0x0f, 0x18, 99]) },
            WinrtDataSection { kind: Some(0x16), data: Some(vec![0x0f]) },
            WinrtDataSection { kind: Some(0x09), data: Some(vec![1, 2, 3]) },
            WinrtDataSection { kind: None, data: Some(vec![1, 2, 3]) },
            WinrtDataSection { kind: Some(0x20), data: None },
        ]),
    }
}

#[test]
fn decodes_service_data_prefix() {
    let item = decode_service_data(0x16, &[0x0d, 0x18, 1, 2]).unwrap();
    assert_eq!(item.uuid, "0000180d-0000-1000-8000-00805f9b34fb");
    assert_eq!(item.data, [1, 2]);
}

#[test]
fn decodes_longer_service_uuids() {
    let item = decode_service_data(0x20, &[0x78, 0x56, 0x34, 0x12]).unwrap();
    assert_eq!(item.uuid, "12345678-0000-1000-8000-00805f9b34fb");
    assert!(item.data.is_empty());
    let item = decode_service_data(
        0x21,
        &[
            0xff, 0xee, 0xdd, 0xcc, 0xbb, 0xaa, 0x99, 0x88, 0x77, 0x66, 0x55, 0x44, 0x33, 0x22,
            0x11, 0x00, 5, 6, 7,
        ],
    )
    .unwrap();
    assert_eq!(item.uuid, "00112233-4455-6677-8899-aabbccddeeff");
    assert_eq!(item.data, [5, 6, 7]);
}

#[test]
fn short_or_unknown_sections_hold_no_service_data() {
    assert_eq!(decode_service_data(0x16, &[1]), None);
    assert_eq!(decode_service_data(0x20, &[1, 2, 3]), None);
    assert_eq!(decode_service_data(0x21, &[0; 15]), None);
    assert_eq!(decode_service_data(0x17, &[0; 32]), None);
}

#[test]
fn connectable_follows_the_kind() {
    assert_eq!(connectable_from_type(AdvertisementKind::ConnectableUndirected), Some(true));
    assert_eq!(connectable_from_type(AdvertisementKind::ConnectableDirected), Some(true));
    assert_eq!(connectable_from_type(AdvertisementKind::ScannableUndirected), Some(false));
    assert_eq!(connectable_from_type(AdvertisementKind::NonConnectableUndirected), Some(false));
    assert_eq!(connectable_from_type(AdvertisementKind::ScanResponse), Some(false));
    assert_eq!(connectable_from_type(AdvertisementKind::Extended), Some(false));
    assert_eq!(connectable_from_type(AdvertisementKind::Other), None);
}

#[test]
fn converts_a_winrt_advertisement() {
    let raw = convert_advertisement(received());
    assert_eq!(raw.address, "C0:AA:BB:CC:DD:EE");
    assert_eq!(raw.address_type, AddressType::RandomStatic);
    assert_eq!(raw.local_name.as_deref(), Some("lamp"));
    assert_eq!(raw.rssi_dbm, Some(-44));
    assert_eq!(raw.tx_power_dbm, Some(-4));
    assert_eq!(raw.connectable, Some(true));
    assert_eq!(raw.service_uuids, ["0000180d-0000-1000-8000-00805f9b34fb"]);
    assert_eq!(raw.manufacturer_data, [ManufacturerData { company_id: 3, data: vec![7, 8] }]);
    assert_eq!(raw.service_data.len(), 1);
    assert_eq!(raw.service_data[0].uuid, "0000180f-0000-1000-8000-00805f9b34fb");
    assert_eq!(raw.service_data[0].data, [99]);
    assert_eq!(raw.protocol_identity, None);
}

#[test]
fn winrt_parts_may_be_missing() {
    let mut bare = received();
    bare.address_kind = WinrtAddressKind::Public;
    bare.local_name = Some(String::new());
    bare.kind = None;
    bare.service_uuids = None;
    bare.manufacturer_data = None;
    bare.data_sections = None;
    let raw = convert_advertisement(bare);
    assert_eq!(raw.address_type, AddressType::Public);
    assert_eq!(raw.local_name, None);
    assert_eq!(raw.connectable, None);
    assert!(raw.service_uuids.is_empty());
    assert!(raw.manufacturer_data.is_empty());
    assert!(raw.service_data.is_empty());
    let mut other = received();
    other.address_kind = WinrtAddressKind::Other;
    assert_eq!(convert_advertisement(other).address_type, AddressType::Unknown);
}

#[test]
fn winrt_errors_are_noted_once_and_reported_last() {
    let mut scan = WinrtScan::default();
    scan.received(Err("bad".to_owned()));
    scan.received(Err("worse".to_owned()));
    scan.received(Err("bad".to_owned()));
    let mut item = RawAdvertisement::minimal("aa");
    item.rssi_dbm = Some(-30);
    scan.received(Ok(item));
    let report = scan.finish(
        Err("busy".to_owned()),
        Err("gone".to_owned()),
        false,
        Duration::from_millis(1500),
    );
    let expected = [
        "stop WinRT BLE scan: busy",
        "unsubscribe WinRT BLE watcher: gone",
        "decode WinRT BLE advertisement: bad",
        "decode WinRT BLE advertisement: worse",
    ];
    assert_eq!(report.errors, expected);
    assert_eq!(report.adapters.len(), 1);
    assert_eq!(report.adapters[0].name, "WinRT Bluetooth LE");
    assert_eq!(report.adapters[0].state, "powered_on");
    assert!(report.adapters[0].scan_started);
    assert_eq!(report.adapters[0].errors, expected);
    assert_eq!(report.advertisements.len(), 1);
    assert_eq!(report.elapsed_ms, 1500);
}

#[test]
fn winrt_uuids_are_reported_in_lower_case() {
    let mut scan = WinrtScan::default();
    scan.received(Ok(convert_advertisement(received())));
    let report = scan.finish(Ok(()), Ok(()), false, Duration::ZERO);
    let item = &report.advertisements[0];
    assert_eq!(item.service_uuids, ["0000180d-0000-1000-8000-00805f9b34fb"]);
    assert_eq!(item.service_data[0].uuid, "0000180f-0000-1000-8000-00805f9b34fb");
}

#[test]
fn winrt_reports_a_cancelled_scan() {
    let report = WinrtScan::default().finish(Ok(()), Ok(()), true, Duration::ZERO);
    assert_eq!(report.adapters[0].state, "cancelled");
    assert!(report.errors.is_empty());
    assert!(report.advertisements.is_empty());
    assert_eq!(report.skipped_without_rssi, 0);
}
