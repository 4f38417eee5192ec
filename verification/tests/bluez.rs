use std::time::Duration;

use radiochron_native_ble::bluez::{
    collect_devices, convert_device, dictionary_entries, plan_adapters, refarg_bytes, BluezScan,
    BusProperty, BusValue, ManagedObject, NameTable, StartAttempt,
};
use radiochron_native_ble::AddressType;

fn unsigned(number: u64) -> BusValue {
    BusValue { variant: false, unsigned: Some(number), text: None, items: None }
}

fn text(text: &str) -> BusValue {
    BusValue { variant: false, unsigned: None, text: Some(text.to_owned()), items: None }
}

fn list(items: Vec<BusValue>) -> BusValue {
    BusValue { variant: false, unsigned: None, text: None, items: Some(items) }
}

fn variant(item: BusValue) -> BusValue {
    BusValue { variant: true, unsigned: None, text: None, items: Some(vec![item]) }
}

fn property() -> BusProperty {
    BusProperty { string: None, boolean: None, int16: None, strings: None, items: None }
}

fn string(text: &str) -> BusProperty {
    BusProperty { string: Some(text.to_owned()), ..property() }
}

fn device(address: &str, rssi_dbm: Option<i16>) -> ManagedObject {
    let mut properties = NameTable::new();
    properties.insert("Address".to_owned(), string(address));
    if let Some(rssi_dbm) = rssi_dbm {
        properties.insert(
            "RSSI".to_owned(),
            BusProperty { int16: Some(rssi_dbm), ..property() },
        );
    }
    let mut interfaces = NameTable::new();
    interfaces.insert("org.bluez.Device1".to_owned(), properties);
    ManagedObject { path: format!("/dev/{address}"), interfaces }
}

fn adapter(
    path: &str,
    alias: Option<&str>,
    name: Option<&str>,
    powered: Option<bool>,
) -> ManagedObject {
    let mut properties = NameTable::new();
    if let Some(alias) = alias {
        properties.insert("Alias".to_owned(), string(alias));
    }
    if let Some(name) = name {
        properties.insert("Name".to_owned(), string(name));
    }
    if powered.is_some() {
        properties.insert("Powered".to_owned(), BusProperty { boolean: powered, ..property() });
    }
    let mut interfaces = NameTable::new();
    interfaces.insert("org.bluez.Adapter1".to_owned(), properties);
    ManagedObject { path: path.to_owned(), interfaces }
}

#[test]
fn tables_keep_one_value_per_name() {
    let mut table = NameTable::new();
    assert_eq!(table.get("a"), None);
    table.insert("a".to_owned(), 1);
    table.insert("b".to_owned(), 2);
    table.insert("a".to_owned(), 3);
    assert_eq!(table.get("a"), Some(&3));
    assert_eq!(table.get("b"), Some(&2));
    assert_eq!(table.get("A"), None);
}

#[test]
fn bytes_are_read_through_a_variant() {
    let bytes = || list(vec![unsigned(1), unsigned(256), text("x"), unsigned(255)]);
    assert_eq!(refarg_bytes(&bytes()), Some(vec![1, 255]));
    assert_eq!(refarg_bytes(&variant(bytes())), Some(vec![1, 255]));
    assert_eq!(refarg_bytes(&variant(variant(bytes()))), Some(vec![]));
    assert_eq!(refarg_bytes(&unsigned(3)), None);
    assert_eq!(refarg_bytes(&variant(unsigned(3))), None);
    let mut hollow = variant(unsigned(3));
    hollow.items = Some(vec![]);
    assert_eq!(refarg_bytes(&hollow), None);
    hollow.items = None;
    assert_eq!(refarg_bytes(&hollow), None);
}

#[test]
fn converts_a_bluez_device() {
    let mut properties = NameTable::new();
    properties.insert("Address".to_owned(), string("AA:BB"));
    properties.insert("AddressType".to_owned(), string("public"));
    properties.insert("Name".to_owned(), string("name"));
    properties.insert("Alias".to_owned(), string("alias"));
    properties.insert("RSSI".to_owned(), BusProperty { int16: Some(-80), ..property() });
    properties.insert("TxPower".to_owned(), BusProperty { int16: Some(6), ..property() });
    properties.insert(
        "UUIDs".to_owned(),
        BusProperty { strings: Some(vec!["FF".to_owned(), "AA".to_owned()]), ..property() },
    );
    properties.insert(
        "ManufacturerData".to_owned(),
        BusProperty {
            items: Some(vec![
                list(vec![unsigned(76), variant(list(vec![unsigned(2), unsigned(3)]))]),
                list(vec![unsigned(65536), list(vec![])]),
                list(vec![unsigned(5)]),
                unsigned(76),
            ]),
            ..property()
        },
    );
    properties.insert(
        "ServiceData".to_owned(),
        BusProperty {
            items: Some(vec![
                list(vec![text("ABC"), list(vec![unsigned(9)])]),
                list(vec![unsigned(1), list(vec![unsigned(9)])]),
            ]),
            ..property()
        },
    );
    let raw = convert_device(&properties).unwrap();
    assert_eq!(raw.address, "AA:BB");
    assert_eq!(raw.address_type, AddressType::Public);
    assert_eq!(raw.local_name.as_deref(), Some("name"));
    assert_eq!(raw.rssi_dbm, Some(-80));
    assert_eq!(raw.tx_power_dbm, Some(6));
    assert_eq!(raw.connectable, None);
    assert_eq!(raw.service_uuids, ["ff", "aa"]);
    assert_eq!(raw.manufacturer_data.len(), 1);
    assert_eq!(raw.manufacturer_data[0].company_id, 76);
    assert_eq!(raw.manufacturer_data[0].data, [2, 3]);
    assert_eq!(raw.service_data.len(), 1);
    assert_eq!(raw.service_data[0].uuid, "abc");
    assert_eq!(raw.service_data[0].data, [9]);
    assert_eq!(raw.protocol_identity, None);
}

#[test]
fn a_device_needs_an_address() {
    let mut properties = NameTable::new();
    assert!(convert_device(&properties).is_none());
    properties.insert("Address".to_owned(), property());
    assert!(convert_device(&properties).is_none());
    properties.insert("Address".to_owned(), string("aa"));
    properties.insert("AddressType".to_owned(), string("random"));
    properties.insert("Alias".to_owned(), string("alias"));
    let raw = convert_device(&properties).unwrap();
    assert_eq!(raw.address_type, AddressType::Unknown);
    assert_eq!(raw.local_name.as_deref(), Some("alias"));
    assert_eq!(raw.rssi_dbm, None);
    assert!(raw.service_uuids.is_empty());
}

#[test]
fn collects_the_devices_among_the_objects() {
    let objects = vec![
        device("b", Some(-5)),
        adapter("/hci0", None, None, None),
        device("A", Some(-6)),
        device("c", None),
    ];
    let (items, skipped) = collect_devices(&objects).finish();
    assert_eq!(items.len(), 2);
    assert_eq!(items[0].address, "A");
    assert_eq!(items[1].address, "b");
    assert_eq!(skipped, 1);
}

#[test]
fn plans_the_adapters_among_the_objects() {
    let plans = plan_adapters(&vec![
        device("b", None),
        adapter("/hci0", Some("alias"), Some("name"), Some(true)),
        adapter("/hci1", None, Some("name"), Some(false)),
        adapter("/hci2", None, None, None),
    ]);
    assert_eq!(plans.len(), 3);
    assert_eq!(plans[0].path, "/hci0");
    assert_eq!(plans[0].report.name, "alias");
    assert_eq!(plans[0].report.state, "powered_on");
    assert!(plans[0].powered);
    assert!(!plans[0].report.scan_started);
    assert_eq!(plans[1].report.name, "name");
    assert_eq!(plans[1].report.state, "powered_off");
    assert!(!plans[1].powered);
    assert_eq!(plans[2].report.name, "/hci2");
    assert_eq!(plans[2].report.state, "powered_off");
}

#[test]
fn bluez_scan_reports_adapters_and_their_errors() {
    let plans = plan_adapters(&vec![
        adapter("/hci0", Some("zero"), None, None),
        adapter("/hci1", Some("one"), None, Some(true)),
        adapter("/hci2", Some("two"), None, Some(true)),
    ]);
    let mut scan = BluezScan::default();
    for plan in plans {
        let attempt = if plan.path == "/hci1" {
            Some(StartAttempt { filter: Err("no filter".to_owned()), start: Ok(()) })
        } else if plan.powered {
            Some(StartAttempt { filter: Ok(()), start: Err("busy".to_owned()) })
        } else {
            None
        };
        scan.add_adapter(plan, attempt);
    }
    assert_eq!(scan.active().len(), 1);
    assert_eq!(scan.active()[0].path, "/hci1");
    assert_eq!(scan.active()[0].adapter, 1);
    scan.stopped(1, Err("late".to_owned()));
    scan.stopped(1, Ok(()));
    scan.stopped(99, Err("nowhere".to_owned()));
    let report = scan.finish(&vec![device("a", Some(-1))], Duration::from_micros(2999));
    assert_eq!(report.adapters.len(), 3);
    assert!(!report.adapters[0].scan_started);
    assert!(report.adapters[0].errors.is_empty());
    assert!(report.adapters[1].scan_started);
    assert_eq!(
        report.adapters[1].errors,
        ["set BlueZ discovery filter: no filter", "stop BlueZ discovery: late"]
    );
    assert!(!report.adapters[2].scan_started);
    assert_eq!(report.adapters[2].errors, ["start BlueZ discovery: busy"]);
    assert_eq!(
        report.errors,
        [
            "set BlueZ discovery filter: no filter",
            "stop BlueZ discovery: late",
            "start BlueZ discovery: busy",
        ]
    );
    assert_eq!(report.advertisements.len(), 1);
    assert_eq!(report.elapsed_ms, 2);
}

#[test]
fn order_of_objects_does_not_matter() {
    let forward = vec![device("b", Some(-5)), device("A", None), device("c", Some(-7))];
    let backward = vec![device("c", Some(-7)), device("A", None), device("b", Some(-5))];
    assert_eq!(collect_devices(&forward).finish(), collect_devices(&backward).finish());
}

#[test]
fn an_attempt_counts_on_powered_adapters_only() {
    let plans = plan_adapters(&vec![
        adapter("/hci0", None, None, Some(false)),
        adapter("/hci1", None, None, Some(true)),
    ]);
    let mut scan = BluezScan::default();
    for plan in plans {
        let attempt = StartAttempt { filter: Err("no filter".to_owned()), start: Ok(()) };
        scan.add_adapter(plan, Some(attempt));
    }
    assert_eq!(scan.active().len(), 1);
    assert_eq!(scan.active()[0].path, "/hci1");
    assert_eq!(scan.active()[0].adapter, 1);
    let report = scan.finish(&Vec::new(), Duration::ZERO);
    assert_eq!(report.adapters[0].state, "powered_off");
    assert!(!report.adapters[0].scan_started);
    assert!(report.adapters[0].errors.is_empty());
    assert_eq!(report.adapters[1].state, "powered_on");
    assert!(report.adapters[1].scan_started);
    assert_eq!(report.errors, ["set BlueZ discovery filter: no filter"]);
}

#[test]
fn turns_of_objects_do_not_matter() {
    let one = vec![device("a", Some(-1)), device("b", Some(-2)), device("A", Some(-3))];
    let other = vec![device("b", Some(-2)), device("a", Some(-1)), device("A", Some(-3))];
    let (items, skipped) = collect_devices(&one).finish();
    assert_eq!(items[0].address, "A");
    assert_eq!(items[0].rssi_dbm, -3);
    assert_eq!((items, skipped), collect_devices(&other).finish());
}

#[test]
fn bluez_uuids_are_reported_in_lower_case() {
    let mut object = device("aa", Some(-1));
    let mut properties = NameTable::new();
    properties.insert("Address".to_owned(), string("aa"));
    properties.insert("RSSI".to_owned(), BusProperty { int16: Some(-1), ..property() });
    properties.insert(
        "UUIDs".to_owned(),
        BusProperty { strings: Some(vec!["FEED-B".to_owned()]), ..property() },
    );
    object.interfaces.insert("org.bluez.Device1".to_owned(), properties);
    let report = BluezScan::default().finish(&vec![object], Duration::ZERO);
    assert_eq!(report.advertisements[0].service_uuids, ["feed-b"]);
}

#[test]
fn dictionaries_are_read_as_entries() {
    assert!(dictionary_entries(vec![]).is_empty());
    assert!(dictionary_entries(vec![unsigned(1)]).is_empty());
    let entries = dictionary_entries(vec![
        unsigned(76),
        variant(list(vec![unsigned(2), unsigned(3)])),
        unsigned(77),
        variant(list(vec![])),
        unsigned(78),
    ]);
    assert_eq!(entries.len(), 2);
    let mut properties = NameTable::new();
    properties.insert("Address".to_owned(), string("aa"));
    properties.insert(
        "ManufacturerData".to_owned(),
        BusProperty { items: Some(entries), ..property() },
    );
    let raw = convert_device(&properties).unwrap();
    assert_eq!(raw.manufacturer_data.len(), 2);
    assert_eq!(raw.manufacturer_data[0].company_id, 76);
    assert_eq!(raw.manufacturer_data[0].data, [2, 3]);
    assert_eq!(raw.manufacturer_data[1].company_id, 77);
    assert!(raw.manufacturer_data[1].data.is_empty());
}
