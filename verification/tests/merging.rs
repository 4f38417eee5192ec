use radiochron_native_ble::payload::{merge_manufacturer_data, merge_service_data, union_strings};
use radiochron_native_ble::text::str_less;
use radiochron_native_ble::{
    AddressType, Advertisement, AdvertisementSet, ManufacturerData, RawAdvertisement, ServiceData,
};

fn strings(texts: &[&str]) -> Vec<String> {
    texts.iter().map(|text| text.to_string()).collect()
}

fn heard(address: &str, rssi_dbm: i16) -> RawAdvertisement {
    let mut raw = RawAdvertisement::minimal(address);
    raw.rssi_dbm = Some(rssi_dbm);
    raw
}

fn full(address: &str) -> RawAdvertisement {
    RawAdvertisement {
        address: address.to_owned(),
        address_type: AddressType::Public,
        local_name: Some("sensor".to_owned()),
        rssi_dbm: Some(-50),
        tx_power_dbm: Some(4),
        connectable: Some(true),
        service_uuids: strings(&["b", "a", "b"]),
        manufacturer_data: vec![
            ManufacturerData { company_id: 9, data: vec![1] },
            ManufacturerData { company_id: 2, data: vec![2] },
            ManufacturerData { company_id: 9, data: vec![3] },
        ],
        service_data: vec![
            ServiceData { uuid: "y".to_owned(), data: vec![4] },
            ServiceData { uuid: "x".to_owned(), data: vec![5] },
        ],
        protocol_identity: Some("id".to_owned()),
    }
}

fn finish(items: &[RawAdvertisement]) -> (Vec<Advertisement>, usize) {
    let mut set = AdvertisementSet::default();
    for item in items {
        set.merge(item.clone());
    }
    set.finish()
}

#[test]
fn merges_cumulative_advertisements_and_sorts_output() {
    let mut set = AdvertisementSet::default();
    let mut first = RawAdvertisement::minimal("AA:BB");
    first.rssi_dbm = Some(-70);
    first.service_uuids = vec!["z".to_owned()];
    set.merge(first);
    let mut second = RawAdvertisement::minimal("aa:bb");
    second.local_name = Some("sensor".to_owned());
    second.rssi_dbm = Some(-60);
    second.service_uuids = vec!["a".to_owned()];
    second.manufacturer_data = vec![ManufacturerData {
        company_id: 7,
        data: vec![1],
    }];
    set.merge(second);

    let (items, skipped) = set.finish();
    assert_eq!(skipped, 0);
    assert_eq!(items.len(), 1);
    assert_eq!(items[0].rssi_dbm, -60);
    assert_eq!(items[0].local_name.as_deref(), Some("sensor"));
    assert_eq!(items[0].service_uuids, ["a", "z"]);
}

#[test]
fn skips_entries_without_signal_strength() {
    let mut set = AdvertisementSet::default();
    set.merge(RawAdvertisement::minimal("unknown"));
    let (items, skipped) = set.finish();
    assert!(items.is_empty());
    assert_eq!(skipped, 1);
}

#[test]
fn minimal_advertisement_has_only_its_address() {
    let raw = RawAdvertisement::minimal("AA:BB");
    assert_eq!(raw.address, "AA:BB");
    assert_eq!(raw.address_type, AddressType::Unknown);
    assert_eq!(raw.local_name, None);
    assert_eq!(raw.rssi_dbm, None);
    assert_eq!(raw.tx_power_dbm, None);
    assert_eq!(raw.connectable, None);
    assert!(raw.service_uuids.is_empty());
    assert!(raw.manufacturer_data.is_empty());
    assert!(raw.service_data.is_empty());
    assert_eq!(raw.protocol_identity, None);
    assert_eq!(RawAdvertisement::minimal(String::from("q")).address, "q");
}

#[test]
fn reports_every_field_in_order() {
    let (items, skipped) = finish(&[full("AA")]);
    assert_eq!(skipped, 0);
    assert_eq!(
        items,
        [Advertisement {
            address: "AA".to_owned(),
            address_type: AddressType::Public,
            local_name: Some("sensor".to_owned()),
            rssi_dbm: -50,
            tx_power_dbm: Some(4),
            connectable: Some(true),
            service_uuids: strings(&["a", "b"]),
            manufacturer_data: vec![
                ManufacturerData { company_id: 2, data: vec![2] },
                ManufacturerData { company_id: 9, data: vec![3] },
            ],
            service_data: vec![
                ServiceData { uuid: "x".to_owned(), data: vec![5] },
                ServiceData { uuid: "y".to_owned(), data: vec![4] },
            ],
            protocol_identity: Some("id".to_owned()),
        }]
    );
}

#[test]
fn missing_fields_keep_what_was_known() {
    let once = finish(&[full("AA")]);
    let mut expected = once.clone();
    expected.0[0].address = "aA".to_owned();
    assert_eq!(
        finish(&[full("AA"), RawAdvertisement::minimal("aA")]),
        expected
    );
}

#[test]
fn merging_again_changes_nothing() {
    assert_eq!(finish(&[full("AA"), full("AA")]), finish(&[full("AA")]));
}

#[test]
fn newer_data_replaces_older() {
    let mut update = heard("AA", -40);
    update.address_type = AddressType::RandomStatic;
    update.connectable = Some(false);
    update.manufacturer_data = vec![ManufacturerData { company_id: 2, data: vec![8] }];
    update.service_data = vec![ServiceData { uuid: "y".to_owned(), data: vec![9] }];
    let (items, _) = finish(&[full("AA"), update]);
    assert_eq!(items[0].rssi_dbm, -40);
    assert_eq!(items[0].address_type, AddressType::RandomStatic);
    assert_eq!(items[0].connectable, Some(false));
    assert_eq!(items[0].local_name.as_deref(), Some("sensor"));
    assert_eq!(items[0].manufacturer_data[0].data, [8]);
    assert_eq!(items[0].manufacturer_data[1].data, [3]);
    assert_eq!(items[0].service_data[0].data, [5]);
    assert_eq!(items[0].service_data[1].data, [9]);
}

#[test]
fn advertisements_are_sorted_by_address_as_received() {
    let (items, skipped) = finish(&[
        heard("b", -1),
        heard("C", -2),
        RawAdvertisement::minimal("d"),
        heard("a", -3),
    ]);
    let addresses: Vec<&str> = items.iter().map(|item| item.address.as_str()).collect();
    assert_eq!(addresses, ["C", "a", "b"]);
    assert_eq!(skipped, 1);
}

#[test]
fn order_of_different_devices_does_not_matter() {
    let items = [full("b"), heard("A", -9), RawAdvertisement::minimal("c")];
    let forward = finish(&items);
    let backward: Vec<RawAdvertisement> = items.iter().rev().cloned().collect();
    assert_eq!(forward, finish(&backward));
}

#[test]
fn turns_of_devices_do_not_matter() {
    let mut later = heard("aA", -4);
    later.local_name = Some("late".to_owned());
    let one = [full("AA"), heard("b", -9), later.clone(), heard("B", -8)];
    let other = [heard("b", -9), heard("B", -8), full("AA"), later];
    let (items, _) = finish(&one);
    assert_eq!(items[0].address, "B");
    assert_eq!(items[1].local_name.as_deref(), Some("late"));
    assert_eq!(finish(&one), finish(&other));
}

#[test]
fn letters_outside_ascii_keep_their_case() {
    let (items, _) = finish(&[heard("Äx", -1), heard("äx", -2), heard("ÄX", -3)]);
    assert_eq!(items.len(), 2);
}

#[test]
fn unions_are_sorted_and_without_repetition() {
    let mut target = strings(&["m", "c", "m"]);
    union_strings(&mut target, strings(&["z", "c", "a"]));
    assert_eq!(target, ["a", "c", "m", "z"]);
    let mut empty: Vec<String> = Vec::new();
    union_strings(&mut empty, Vec::new());
    assert!(empty.is_empty());
}

#[test]
fn later_data_wins_under_one_key() {
    let mut manufacturer = vec![
        ManufacturerData { company_id: 5, data: vec![1] },
        ManufacturerData { company_id: 5, data: vec![2] },
    ];
    merge_manufacturer_data(&mut manufacturer, Vec::new());
    assert_eq!(manufacturer, [ManufacturerData { company_id: 5, data: vec![2] }]);
    merge_manufacturer_data(
        &mut manufacturer,
        vec![
            ManufacturerData { company_id: 5, data: vec![3] },
            ManufacturerData { company_id: 1, data: vec![4] },
        ],
    );
    assert_eq!(
        manufacturer,
        [
            ManufacturerData { company_id: 1, data: vec![4] },
            ManufacturerData { company_id: 5, data: vec![3] },
        ]
    );
    let mut service = vec![ServiceData { uuid: "b".to_owned(), data: vec![1] }];
    merge_service_data(
        &mut service,
        vec![
            ServiceData { uuid: "b".to_owned(), data: vec![2] },
            ServiceData { uuid: "a".to_owned(), data: vec![3] },
        ],
    );
    assert_eq!(
        service,
        [
            ServiceData { uuid: "a".to_owned(), data: vec![3] },
            ServiceData { uuid: "b".to_owned(), data: vec![2] },
        ]
    );
}

#[test]
fn strings_are_ordered_as_the_standard_library_orders_them() {
    let texts = ["", "a", "ab", "b", "B", "\u{7f}", "\u{80}", "ä", "\u{ffff}", "\u{10000}", "zz"];
    for a in texts {
        for b in texts {
            assert_eq!(str_less(a, b), a < b, "{a:?} {b:?}");
        }
    }
}
