//! Scanning through BlueZ: what its objects and their properties mean.

use crate::address::AddressType;
use crate::advertisement::{
    different_devices, law_order_of_devices_does_not_matter, law_turns_of_devices_do_not_matter,
    merged_all, names_lower_uuids, same_for_each_device, AdvertisementSet, AdvertisementView,
    RawAdvertisement,
};
use crate::error::{failure, failure_of};
use crate::payload::{
    distinct_keys, last_wins, lemma_filter_map_all, lemma_last_wins_distinct,
    lemma_last_wins_insert, lemma_last_wins_keys, lemma_last_wins_update, ManufacturerData,
    ServiceData,
};
use crate::report::{
    law_reported_uuids_are_lower_case, lists_lower_uuids, AdapterReport, AdapterView, ScanReport,
};
use crate::text::{ascii_lower, is_lower, lemma_lower_texts, lower_all, to_lower_all};
use std::time::Duration;
use vstd::prelude::*;

verus! {

/// Values by name, each name once.
#[derive(Debug)]
pub struct NameTable<V> {
    entries: Vec<(String, V)>,
}

spec fn named<V>(entries: Seq<(String, V)>) -> Seq<(Seq<char>, V)> {
    Seq::new(entries.len(), |i: int| (entries[i].0@, entries[i].1))
}

impl<V> View for NameTable<V> {
    type V = Map<Seq<char>, V>;

    closed spec fn view(&self) -> Map<Seq<char>, V> {
        last_wins(named(self.entries@))
    }
}

impl<V> NameTable<V> {
    #[verifier::type_invariant]
    spec fn inv(self) -> bool {
        distinct_keys(named(self.entries@))
    }

    /// A table without entries.
    pub fn new() -> (table: Self)
        ensures
            table@ == Map::<Seq<char>, V>::empty(),
    {
        NameTable { entries: Vec::new() }
    }

    /// Enters a value under a name; what was there goes.
    pub fn insert(&mut self, name: String, value: V)
        ensures
            final(self)@ == old(self)@.insert(name@, value),
    {
        proof {
            use_type_invariant(&*self);
        }
        let ghost before: Seq<(Seq<char>, V)> = named(self.entries@);
        let mut entries: Vec<(String, V)> = Vec::new();
        std::mem::swap(&mut entries, &mut self.entries);
        let mut i: usize = 0;
        while i < entries.len() && entries[i].0 != name
            invariant
                i <= entries@.len(),
                forall|j: int| 0 <= j < i ==> (#[trigger] entries@[j]).0@ != name@,
            ensures
                i <= entries@.len(),
                forall|j: int| 0 <= j < i ==> (#[trigger] entries@[j]).0@ != name@,
                i < entries@.len() ==> entries@[i as int].0@ == name@,
            decreases entries@.len() - i,
        {
            i += 1;
        }
        let ghost text: Seq<char> = name@;
        if i < entries.len() {
            entries[i] = (name, value);
            proof {
                assert(before[i as int].0 == text);
                assert(named(entries@) =~= before.update(i as int, (text, value)));
                lemma_last_wins_update(before, i as int, value);
            }
        } else {
            let ghost len: int = entries@.len() as int;
            entries.push((name, value));
            proof {
                assert(named(entries@) =~= before.insert(len, (text, value)));
                assert forall|x: int, y: int| 0 <= x < y < named(entries@).len() implies named(
                    entries@,
                )[x].0 != named(entries@)[y].0 by {
                    if y < len {
                        assert(before[x].0 != before[y].0);
                    } else {
                        assert(before[x].0 == entries@[x].0@);
                    }
                }
                lemma_last_wins_insert(before, len, text, value);
            }
        }
        self.entries = entries;
    }

    /// The value under a name.
    pub fn get(&self, name: &str) -> (value: Option<&V>)
        ensures
            match value {
                Some(value) => self@.contains_key(name@) && *value == self@[name@],
                None => !self@.contains_key(name@),
            },
    {
        proof {
            use_type_invariant(self);
            lemma_last_wins_distinct(named(self.entries@));
        }
        let wanted: String = name.to_owned();
        let ghost all: Seq<(Seq<char>, V)> = named(self.entries@);
        let mut i: usize = 0;
        while i < self.entries.len()
            invariant
                wanted@ == name@,
                all == named(self.entries@),
                self@ == last_wins(all),
                forall|i: int|
                    0 <= i < all.len() ==> last_wins(all).contains_key((#[trigger] all[i]).0)
                        && last_wins(all)[all[i].0] == all[i].1,
                i <= self.entries@.len(),
                forall|j: int| 0 <= j < i ==> (#[trigger] all[j]).0 != name@,
            decreases self.entries@.len() - i,
        {
            assert(all[i as int].0 == self.entries@[i as int].0@);
            if self.entries[i].0 == wanted {
                return Some(&self.entries[i].1);
            }
            i += 1;
        }
        None
    }
}

/// A value on the bus, by what can be asked of it.
#[derive(Debug)]
pub struct BusValue {
    /// The value is a variant.
    pub variant: bool,
    /// The value as an unsigned number.
    pub unsigned: Option<u64>,
    /// The value as text.
    pub text: Option<String>,
    /// The values in the value.
    pub items: Option<Vec<BusValue>>,
}

/// A property of an object, by what can be asked of it: its value as one of the
/// types that properties have, and the values in it.
#[derive(Debug)]
pub struct BusProperty {
    pub string: Option<String>,
    pub boolean: Option<bool>,
    pub int16: Option<i16>,
    pub strings: Option<Vec<String>>,
    pub items: Option<Vec<BusValue>>,
}

/// An object that BlueZ manages.
#[derive(Debug)]
pub struct ManagedObject {
    pub path: String,
    pub interfaces: NameTable<NameTable<BusProperty>>,
}

/// The value is an entry of a dictionary: a key and a value.
pub open spec fn is_entry(entry: BusValue, key: BusValue, value: BusValue) -> bool {
    &&& !entry.variant
    &&& entry.unsigned is None
    &&& entry.text is None
    &&& match entry.items {
        Some(fields) => fields@ == seq![key, value],
        None => false,
    }
}

/// The entries of a dictionary whose keys and values come in turn.
pub fn dictionary_entries(turns: Vec<BusValue>) -> (entries: Vec<BusValue>)
    ensures
        entries@.len() == turns@.len() / 2,
        forall|i: int|
            0 <= i < entries@.len() ==> is_entry(
                #[trigger] entries@[i],
                turns@[2 * i],
                turns@[2 * i + 1],
            ),
{
    let ghost all: Seq<BusValue> = turns@;
    let mut entries: Vec<BusValue> = Vec::new();
    let mut pending: Option<BusValue> = None;
    for item in it: turns.into_iter()
        invariant
            it.seq() == all,
            entries@.len() == it.index() / 2,
            forall|i: int|
                0 <= i < entries@.len() ==> is_entry(
                    #[trigger] entries@[i],
                    all[2 * i],
                    all[2 * i + 1],
                ),
            pending == if it.index() % 2 == 0 {
                None
            } else {
                Some(all[it.index() - 1])
            },
    {
        match pending {
            Some(key) => {
                let mut fields: Vec<BusValue> = Vec::new();
                fields.push(key);
                fields.push(item);
                assert(fields@ =~= seq![key, item]);
                entries.push(
                    BusValue { variant: false, unsigned: None, text: None, items: Some(fields) },
                );
                pending = None;
            },
            None => {
                pending = Some(item);
            },
        }
    }
    entries
}

/// The properties of an object on one interface.
pub type Properties = Map<Seq<char>, BusProperty>;

/// The interface of adapters.
pub open spec fn adapter_interface() -> Seq<char> {
    "org.bluez.Adapter1"@
}

/// The interface of devices.
pub open spec fn device_interface() -> Seq<char> {
    "org.bluez.Device1"@
}

/// The text of a property that is a string.
pub open spec fn string_property(properties: Properties, name: Seq<char>) -> Option<Seq<char>> {
    if properties.contains_key(name) {
        properties[name].string.deep_view()
    } else {
        None
    }
}

/// The number of a property that is one of sixteen bits with a sign.
pub open spec fn int16_property(properties: Properties, name: Seq<char>) -> Option<i16> {
    if properties.contains_key(name) {
        properties[name].int16
    } else {
        None
    }
}

/// The texts of a property that is a list of strings; none where it is not.
pub open spec fn strings_property(properties: Properties, name: Seq<char>) -> Seq<Seq<char>> {
    if properties.contains_key(name) {
        match properties[name].strings {
            Some(strings) => strings.deep_view(),
            None => seq![],
        }
    } else {
        seq![]
    }
}

/// The values in a property; none where it holds no values.
pub open spec fn items_property(properties: Properties, name: Seq<char>) -> Seq<BusValue> {
    if properties.contains_key(name) {
        match properties[name].items {
            Some(items) => items@,
            None => seq![],
        }
    } else {
        seq![]
    }
}

/// The first of two that is there.
pub open spec fn first_of<A>(first: Option<A>, second: Option<A>) -> Option<A> {
    if first is Some {
        first
    } else {
        second
    }
}

fn read_string(properties: &NameTable<BusProperty>, name: &str) -> (string: Option<String>)
    ensures
        string.deep_view() == string_property(properties@, name@),
{
    match properties.get(name) {
        Some(property) => match &property.string {
            Some(string) => Some(string.clone()),
            None => None,
        },
        None => None,
    }
}

fn read_int16(properties: &NameTable<BusProperty>, name: &str) -> (number: Option<i16>)
    ensures
        number == int16_property(properties@, name@),
{
    match properties.get(name) {
        Some(property) => property.int16,
        None => None,
    }
}

/// The number as a byte, where it is one.
pub open spec fn byte_of(value: BusValue) -> Option<u8> {
    match value.unsigned {
        Some(number) => if number <= 0xff {
            Some(number as u8)
        } else {
            None
        },
        None => None,
    }
}

/// The bytes among the values in a value.
pub open spec fn bytes_in(value: BusValue) -> Option<Seq<u8>> {
    match value.items {
        Some(items) => Some(items@.filter_map(|item: BusValue| byte_of(item))),
        None => None,
    }
}

/// The bytes among the values in a value, or in the value that a variant holds.
pub open spec fn value_bytes(value: BusValue) -> Option<Seq<u8>> {
    if value.variant {
        match value.items {
            Some(items) => if items@.len() > 0 {
                bytes_in(items@[0])
            } else {
                None
            },
            None => None,
        }
    } else {
        bytes_in(value)
    }
}

fn read_bytes_in(value: &BusValue) -> (bytes: Option<Vec<u8>>)
    ensures
        bytes.deep_view() == bytes_in(*value),
{
    let ghost f = |item: BusValue| byte_of(item);
    match &value.items {
        None => None,
        Some(items) => {
            let mut bytes: Vec<u8> = Vec::new();
            let mut i: usize = 0;
            assert(bytes@ =~= items@.take(0).filter_map(f));
            while i < items.len()
                invariant
                    i <= items@.len(),
                    f == (|item: BusValue| byte_of(item)),
                    bytes@ == items@.take(i as int).filter_map(f),
                decreases items@.len() - i,
            {
                proof {
                    assert(items@.take(i + 1).drop_last() =~= items@.take(i as int));
                    assert(items@.take(i + 1).last() == items@[i as int]);
                }
                if let Some(number) = items[i].unsigned {
                    if number <= 0xff {
                        let ghost before: Seq<u8> = bytes@;
                        bytes.push(number as u8);
                        assert(bytes@ =~= before + seq![number as u8]);
                    }
                }
                i += 1;
            }
            assert(items@.take(items@.len() as int) =~= items@);
            assert(bytes.deep_view() =~= bytes@);
            Some(bytes)
        },
    }
}

/// The bytes among the values in a value, or in the value that a variant holds.
pub fn refarg_bytes(value: &BusValue) -> (bytes: Option<Vec<u8>>)
    ensures
        bytes.deep_view() == value_bytes(*value),
{
    if value.variant {
        match &value.items {
            Some(items) => if items.len() > 0 {
                read_bytes_in(&items[0])
            } else {
                None
            },
            None => None,
        }
    } else {
        read_bytes_in(value)
    }
}

/// Manufacturer data: an entry of a number of sixteen bits and bytes.
pub open spec fn manufacturer_entry(entry: BusValue) -> Option<(u16, Seq<u8>)> {
    match entry.items {
        Some(fields) => if fields@.len() >= 2 {
            match (fields@[0].unsigned, value_bytes(fields@[1])) {
                (Some(id), Some(data)) => if id <= 0xffff {
                    Some((id as u16, data))
                } else {
                    None
                },
                _ => None,
            }
        } else {
            None
        },
        None => None,
    }
}

/// Service data: an entry of text and bytes.
pub open spec fn service_entry(entry: BusValue) -> Option<(Seq<char>, Seq<u8>)> {
    match entry.items {
        Some(fields) => if fields@.len() >= 2 {
            match (fields@[0].text, value_bytes(fields@[1])) {
                (Some(uuid), Some(data)) => Some((ascii_lower(uuid@), data)),
                _ => None,
            }
        } else {
            None
        },
        None => None,
    }
}

/// The manufacturer data among the entries of a property.
pub open spec fn manufacturer_items(items: Seq<BusValue>) -> Seq<(u16, Seq<u8>)> {
    items.filter_map(|entry: BusValue| manufacturer_entry(entry))
}

/// The service data among the entries of a property.
pub open spec fn service_items(items: Seq<BusValue>) -> Seq<(Seq<char>, Seq<u8>)> {
    items.filter_map(|entry: BusValue| service_entry(entry))
}

fn read_manufacturer_entry(entry: &BusValue) -> (item: Option<ManufacturerData>)
    ensures
        item.deep_view() == manufacturer_entry(*entry),
{
    if let Some(fields) = &entry.items {
        if fields.len() >= 2 {
            if let Some(id) = fields[0].unsigned {
                if id <= 0xffff {
                    if let Some(data) = refarg_bytes(&fields[1]) {
                        assert(data.deep_view() =~= data@);
                        return Some(ManufacturerData { company_id: id as u16, data });
                    }
                }
            }
        }
    }
    None
}

fn read_service_entry(entry: &BusValue) -> (item: Option<ServiceData>)
    ensures
        item.deep_view() == service_entry(*entry),
{
    if let Some(fields) = &entry.items {
        if fields.len() >= 2 {
            if let Some(uuid) = &fields[0].text {
                if let Some(data) = refarg_bytes(&fields[1]) {
                    assert(data.deep_view() =~= data@);
                    return Some(ServiceData { uuid: uuid.as_str().to_ascii_lowercase(), data });
                }
            }
        }
    }
    None
}

fn read_manufacturer_data(properties: &NameTable<BusProperty>) -> (list: Vec<ManufacturerData>)
    ensures
        list.deep_view() == manufacturer_items(items_property(properties@, "ManufacturerData"@)),
{
    let mut list: Vec<ManufacturerData> = Vec::new();
    let ghost f = |entry: BusValue| manufacturer_entry(entry);
    if let Some(property) = properties.get("ManufacturerData") {
        if let Some(items) = &property.items {
            let mut i: usize = 0;
            assert(list.deep_view() =~= items@.take(0).filter_map(f));
            while i < items.len()
                invariant
                    i <= items@.len(),
                    f == (|entry: BusValue| manufacturer_entry(entry)),
                    list.deep_view() == items@.take(i as int).filter_map(f),
                decreases items@.len() - i,
            {
                let ghost before: Seq<(u16, Seq<u8>)> = list.deep_view();
                proof {
                    assert(items@.take(i + 1).drop_last() =~= items@.take(i as int));
                    assert(items@.take(i + 1).last() == items@[i as int]);
                }
                if let Some(item) = read_manufacturer_entry(&items[i]) {
                    let ghost view: (u16, Seq<u8>) = item.deep_view();
                    list.push(item);
                    assert(list.deep_view() =~= before + seq![view]);
                }
                i += 1;
            }
            assert(items@.take(items@.len() as int) =~= items@);
            return list;
        }
    }
    assert(list.deep_view() =~= seq![]);
    list
}

fn read_service_data(properties: &NameTable<BusProperty>) -> (list: Vec<ServiceData>)
    ensures
        list.deep_view() == service_items(items_property(properties@, "ServiceData"@)),
{
    let mut list: Vec<ServiceData> = Vec::new();
    let ghost f = |entry: BusValue| service_entry(entry);
    if let Some(property) = properties.get("ServiceData") {
        if let Some(items) = &property.items {
            let mut i: usize = 0;
            assert(list.deep_view() =~= items@.take(0).filter_map(f));
            while i < items.len()
                invariant
                    i <= items@.len(),
                    f == (|entry: BusValue| service_entry(entry)),
                    list.deep_view() == items@.take(i as int).filter_map(f),
                decreases items@.len() - i,
            {
                let ghost before: Seq<(Seq<char>, Seq<u8>)> = list.deep_view();
                proof {
                    assert(items@.take(i + 1).drop_last() =~= items@.take(i as int));
                    assert(items@.take(i + 1).last() == items@[i as int]);
                }
                if let Some(item) = read_service_entry(&items[i]) {
                    let ghost view: (Seq<char>, Seq<u8>) = item.deep_view();
                    list.push(item);
                    assert(list.deep_view() =~= before + seq![view]);
                }
                i += 1;
            }
            assert(items@.take(items@.len() as int) =~= items@);
            return list;
        }
    }
    assert(list.deep_view() =~= seq![]);
    list
}

fn read_service_uuids(properties: &NameTable<BusProperty>) -> (list: Vec<String>)
    ensures
        list.deep_view() == lower_all(strings_property(properties@, "UUIDs"@)),
{
    if let Some(property) = properties.get("UUIDs") {
        if let Some(uuids) = &property.strings {
            return to_lower_all(uuids);
        }
    }
    let list: Vec<String> = Vec::new();
    assert(list.deep_view() =~= lower_all(seq![]));
    list
}

/// What the properties of a device say; nothing where it has no address.
pub open spec fn device_says(properties: Properties, raw: RawAdvertisement) -> bool {
    &&& string_property(properties, "Address"@) == Some(raw.address@)
    &&& raw.address_type == if string_property(properties, "AddressType"@) == Some("public"@) {
        AddressType::Public
    } else {
        AddressType::Unknown
    }
    &&& raw.local_name.deep_view() == first_of(
        string_property(properties, "Name"@),
        string_property(properties, "Alias"@),
    )
    &&& raw.rssi_dbm == int16_property(properties, "RSSI"@)
    &&& raw.tx_power_dbm == int16_property(properties, "TxPower"@)
    &&& raw.connectable is None
    &&& raw.service_uuids.deep_view() == lower_all(strings_property(properties, "UUIDs"@))
    &&& raw.manufacturer_data.deep_view() == manufacturer_items(
        items_property(properties, "ManufacturerData"@),
    )
    &&& raw.service_data.deep_view() == service_items(items_property(properties, "ServiceData"@))
    &&& raw.protocol_identity is None
}

/// What the properties of a device say.
pub fn convert_device(properties: &NameTable<BusProperty>) -> (raw: Option<RawAdvertisement>)
    ensures
        raw is Some <==> string_property(properties@, "Address"@) is Some,
        raw matches Some(raw) ==> device_says(properties@, raw),
{
    let address: String = match read_string(properties, "Address") {
        Some(address) => address,
        None => {
            return None;
        },
    };
    let address_type: AddressType = match read_string(properties, "AddressType") {
        Some(text) => if text == "public".to_owned() {
            AddressType::Public
        } else {
            AddressType::Unknown
        },
        None => AddressType::Unknown,
    };
    let local_name: Option<String> = match read_string(properties, "Name") {
        Some(name) => Some(name),
        None => read_string(properties, "Alias"),
    };
    Some(
        RawAdvertisement {
            address,
            address_type,
            local_name,
            rssi_dbm: read_int16(properties, "RSSI"),
            tx_power_dbm: read_int16(properties, "TxPower"),
            connectable: None,
            service_uuids: read_service_uuids(properties),
            manufacturer_data: read_manufacturer_data(properties),
            service_data: read_service_data(properties),
            protocol_identity: None,
        },
    )
}

/// What the properties of a device with an address say.
pub open spec fn device_view(properties: Properties) -> Option<AdvertisementView> {
    match string_property(properties, "Address"@) {
        Some(address) => Some(
            AdvertisementView {
                address,
                address_type: if string_property(properties, "AddressType"@) == Some("public"@) {
                    AddressType::Public
                } else {
                    AddressType::Unknown
                },
                local_name: first_of(
                    string_property(properties, "Name"@),
                    string_property(properties, "Alias"@),
                ),
                rssi_dbm: int16_property(properties, "RSSI"@),
                tx_power_dbm: int16_property(properties, "TxPower"@),
                connectable: None,
                service_uuids: lower_all(strings_property(properties, "UUIDs"@)).to_set(),
                manufacturer_data: last_wins(
                    manufacturer_items(items_property(properties, "ManufacturerData"@)),
                ),
                service_data: last_wins(
                    service_items(items_property(properties, "ServiceData"@)),
                ),
                protocol_identity: None,
            },
        ),
        None => None,
    }
}

/// What an object says if it is a device with an address.
pub open spec fn object_view(object: ManagedObject) -> Option<AdvertisementView> {
    if object.interfaces@.contains_key(device_interface()) {
        device_view(object.interfaces@[device_interface()]@)
    } else {
        None
    }
}

/// What the devices among the objects say, in the order of the objects.
pub open spec fn device_views(objects: Seq<ManagedObject>) -> Seq<AdvertisementView> {
    objects.filter_map(|object: ManagedObject| object_view(object))
}

proof fn lemma_device_views_contain(objects: Seq<ManagedObject>, view: AdvertisementView)
    ensures
        device_views(objects).contains(view) <==> exists|i: int|
            0 <= i < objects.len() && object_view(#[trigger] objects[i]) == Some(view),
    decreases objects.len(),
{
    if objects.len() > 0 {
        let front: Seq<ManagedObject> = objects.drop_last();
        let last: int = objects.len() - 1;
        let earlier: Seq<AdvertisementView> = device_views(front);
        lemma_device_views_contain(front, view);
        match object_view(objects[last]) {
            Some(said) => {
                assert(device_views(objects) == earlier + seq![said]);
                if earlier.contains(view) {
                    let i: int = choose|i: int|
                        0 <= i < front.len() && object_view(#[trigger] front[i]) == Some(view);
                    assert(objects[i] == front[i]);
                    let k: int = earlier.index_of(view);
                    assert((earlier + seq![said])[k] == view);
                }
                assert((earlier + seq![said])[earlier.len() as int] == said);
            },
            None => {
                assert(device_views(objects) == earlier);
                if earlier.contains(view) {
                    let i: int = choose|i: int|
                        0 <= i < front.len() && object_view(#[trigger] front[i]) == Some(view);
                    assert(objects[i] == front[i]);
                }
            },
        }
        if exists|i: int|
            0 <= i < objects.len() && object_view(#[trigger] objects[i]) == Some(view) {
            let i: int = choose|i: int|
                0 <= i < objects.len() && object_view(#[trigger] objects[i]) == Some(view);
            if i < last {
                assert(front[i] == objects[i]);
            }
        }
    }
}

/// What is seen depends on the order of the objects of one device only, where there
/// are several: two lists in which each device's objects say the same, in the same
/// order, give the same.
pub proof fn law_turns_of_objects_do_not_matter(a: Seq<ManagedObject>, b: Seq<ManagedObject>)
    requires
        same_for_each_device(device_views(a), device_views(b)),
    ensures
        merged_all(Map::empty(), device_views(a)) == merged_all(Map::empty(), device_views(b)),
{
    law_turns_of_devices_do_not_matter(Map::empty(), device_views(a), device_views(b));
}

/// BlueZ lists its objects in no order. Where they are devices with different
/// addresses, what is seen is the same in whatever order they come.
pub proof fn law_order_of_objects_does_not_matter(a: Seq<ManagedObject>, b: Seq<ManagedObject>)
    requires
        a.to_set() == b.to_set(),
        different_devices(device_views(a)),
        different_devices(device_views(b)),
    ensures
        merged_all(Map::empty(), device_views(a)) == merged_all(Map::empty(), device_views(b)),
{
    assert forall|view: AdvertisementView|
        device_views(a).contains(view) == device_views(b).contains(view) by {
        lemma_device_views_contain(a, view);
        lemma_device_views_contain(b, view);
        if device_views(a).contains(view) {
            let i: int = choose|i: int|
                0 <= i < a.len() && object_view(#[trigger] a[i]) == Some(view);
            assert(a.to_set().contains(a[i]));
            assert(b.to_set().contains(a[i]));
            let j: int = choose|j: int| 0 <= j < b.len() && b[j] == a[i];
            assert(object_view(b[j]) == Some(view));
        }
        if device_views(b).contains(view) {
            let i: int = choose|i: int|
                0 <= i < b.len() && object_view(#[trigger] b[i]) == Some(view);
            assert(b.to_set().contains(b[i]));
            assert(a.to_set().contains(b[i]));
            let j: int = choose|j: int| 0 <= j < a.len() && a[j] == b[i];
            assert(object_view(a[j]) == Some(view));
        }
    }
    assert(device_views(a).to_set() =~= device_views(b).to_set());
    law_order_of_devices_does_not_matter(device_views(a), device_views(b));
}

proof fn lemma_device_names_lower_uuids(properties: Properties)
    ensures
        device_view(properties) matches Some(view) ==> names_lower_uuids(view),
{
    if let Some(view) = device_view(properties) {
        let uuids: Seq<Seq<char>> = strings_property(properties, "UUIDs"@);
        let data: Seq<BusValue> = items_property(properties, "ServiceData"@);
        assert forall|uuid: Seq<char>| #[trigger]
            view.service_uuids.contains(uuid) implies is_lower(uuid) by {
            let i: int = choose|i: int| 0 <= i < uuids.len() && lower_all(uuids)[i] == uuid;
            lemma_lower_texts(uuids[i], uuids[i]);
        }
        lemma_service_items_are_lower(data);
        assert forall|uuid: Seq<char>| #[trigger]
            view.service_data.contains_key(uuid) implies is_lower(uuid) by {
            lemma_last_wins_keys(service_items(data), uuid);
        }
    }
}

proof fn lemma_service_items_are_lower(items: Seq<BusValue>)
    ensures
        forall|i: int|
            0 <= i < service_items(items).len() ==> is_lower(
                (#[trigger] service_items(items)[i]).0,
            ),
{
    let f = |entry: BusValue| service_entry(entry);
    let p = |item: (Seq<char>, Seq<u8>)| is_lower(item.0);
    assert forall|i: int, item: (Seq<char>, Seq<u8>)|
        0 <= i < items.len() && f(#[trigger] items[i]) == Some(item) implies #[trigger] p(item) by {
        let uuid: Seq<char> = items[i].items->0@[0].text->0@;
        lemma_lower_texts(uuid, uuid);
    }
    lemma_filter_map_all(items, f, p);
    assert forall|i: int| 0 <= i < service_items(items).len() implies is_lower(
        (#[trigger] service_items(items)[i]).0,
    ) by {
        assert(p(items.filter_map(f)[i]));
    }
}

/// Every UUID in the report of a scan is in lower case.
pub proof fn law_bluez_uuids_are_lower_case(
    report: ScanReport,
    discovered: Seq<ManagedObject>,
    elapsed: Duration,
)
    requires
        report.of_scan(merged_all(Map::empty(), device_views(discovered)), elapsed),
    ensures
        forall|i: int|
            0 <= i < report.advertisements@.len() ==> lists_lower_uuids(
                #[trigger] report.advertisements@[i],
            ),
{
    let heard: Seq<AdvertisementView> = device_views(discovered);
    assert forall|i: int| 0 <= i < heard.len() implies names_lower_uuids(#[trigger] heard[i]) by {
        lemma_device_views_contain(discovered, heard[i]);
        assert(heard.contains(heard[i]));
        let j: int = choose|j: int|
            0 <= j < discovered.len() && object_view(#[trigger] discovered[j]) == Some(heard[i]);
        lemma_device_names_lower_uuids(discovered[j].interfaces@[device_interface()]@);
    }
    law_reported_uuids_are_lower_case(report, heard, elapsed);
}

/// Merges what the devices among the objects say.
pub fn collect_devices(objects: &Vec<ManagedObject>) -> (set: AdvertisementSet)
    ensures
        set@ == merged_all(Map::empty(), device_views(objects@)),
{
    let mut set: AdvertisementSet = AdvertisementSet::default();
    let ghost f = |object: ManagedObject| object_view(object);
    let mut i: usize = 0;
    assert(objects@.take(0).filter_map(f) =~= seq![]);
    while i < objects.len()
        invariant
            i <= objects@.len(),
            f == (|object: ManagedObject| object_view(object)),
            set@ == merged_all(Map::empty(), objects@.take(i as int).filter_map(f)),
        decreases objects@.len() - i,
    {
        let ghost before: Seq<AdvertisementView> = objects@.take(i as int).filter_map(f);
        proof {
            assert(objects@.take(i + 1).drop_last() =~= objects@.take(i as int));
            assert(objects@.take(i + 1).last() == objects@[i as int]);
        }
        if let Some(properties) = objects[i].interfaces.get("org.bluez.Device1") {
            if let Some(item) = convert_device(properties) {
                proof {
                    let view: AdvertisementView = item@;
                    assert(device_view(properties@) == Some(view));
                    assert((before + seq![view]).drop_last() =~= before);
                }
                set.merge(item);
            }
        }
        i += 1;
    }
    assert(objects@.take(objects@.len() as int) =~= objects@);
    set
}

/// What is to be done with one adapter: where it is, what is reported of it so far,
/// and whether it can scan.
#[derive(Debug)]
pub struct AdapterPlan {
    pub path: String,
    pub report: AdapterReport,
    pub powered: bool,
}

/// Whether the properties say that the adapter is powered.
pub open spec fn is_powered(properties: Properties) -> bool {
    properties.contains_key("Powered"@) && properties["Powered"@].boolean == Some(true)
}

/// What is reported of an adapter before anything was tried. It goes by its alias,
/// else by its name, else by its path.
pub open spec fn adapter_view(path: Seq<char>, properties: Properties) -> AdapterView {
    AdapterView {
        name: match first_of(
            string_property(properties, "Alias"@),
            string_property(properties, "Name"@),
        ) {
            Some(name) => name,
            None => path,
        },
        state: if is_powered(properties) {
            "powered_on"@
        } else {
            "powered_off"@
        },
        scan_started: false,
        errors: seq![],
    }
}

/// The path, the report and the power of an object if it is an adapter.
pub open spec fn object_plan(object: ManagedObject) -> Option<(Seq<char>, AdapterView, bool)> {
    if object.interfaces@.contains_key(adapter_interface()) {
        let properties: Properties = object.interfaces@[adapter_interface()]@;
        Some((object.path@, adapter_view(object.path@, properties), is_powered(properties)))
    } else {
        None
    }
}

impl DeepView for AdapterPlan {
    type V = (Seq<char>, AdapterView, bool);

    open spec fn deep_view(&self) -> (Seq<char>, AdapterView, bool) {
        (self.path@, self.report.deep_view(), self.powered)
    }
}

/// Nothing was tried yet on the adapter of a plan, and the state that is reported of
/// it says whether it is powered.
pub open spec fn planned(plan: (Seq<char>, AdapterView, bool)) -> bool {
    &&& !plan.1.scan_started
    &&& plan.1.errors == Seq::<Seq<char>>::empty()
    &&& plan.1.state == if plan.2 {
        "powered_on"@
    } else {
        "powered_off"@
    }
}

/// What is reported of an adapter before anything was tried.
pub fn plan_adapter(path: &String, properties: &NameTable<BusProperty>) -> (plan: AdapterPlan)
    ensures
        plan.deep_view() == (
            path@,
            adapter_view(path@, properties@),
            is_powered(properties@),
        ),
        planned(plan.deep_view()),
{
    let name: String = match read_string(properties, "Alias") {
        Some(alias) => alias,
        None => match read_string(properties, "Name") {
            Some(name) => name,
            None => path.clone(),
        },
    };
    let powered: bool = match properties.get("Powered") {
        Some(property) => match property.boolean {
            Some(powered) => powered,
            None => false,
        },
        None => false,
    };
    let state: String = if powered {
        "powered_on".to_owned()
    } else {
        "powered_off".to_owned()
    };
    let errors: Vec<String> = Vec::new();
    assert(errors.deep_view() =~= seq![]);
    AdapterPlan {
        path: path.clone(),
        report: AdapterReport { name, state, scan_started: false, errors },
        powered,
    }
}

/// The adapters among the objects, in the order of the objects.
pub fn plan_adapters(objects: &Vec<ManagedObject>) -> (plans: Vec<AdapterPlan>)
    ensures
        plans.deep_view() == objects@.filter_map(|object: ManagedObject| object_plan(object)),
        forall|i: int| 0 <= i < plans@.len() ==> planned((#[trigger] plans@[i]).deep_view()),
{
    let mut plans: Vec<AdapterPlan> = Vec::new();
    let ghost f = |object: ManagedObject| object_plan(object);
    let mut i: usize = 0;
    assert(plans.deep_view() =~= objects@.take(0).filter_map(f));
    while i < objects.len()
        invariant
            i <= objects@.len(),
            f == (|object: ManagedObject| object_plan(object)),
            plans.deep_view() == objects@.take(i as int).filter_map(f),
            forall|j: int| 0 <= j < plans@.len() ==> planned((#[trigger] plans@[j]).deep_view()),
        decreases objects@.len() - i,
    {
        let ghost before: Seq<(Seq<char>, AdapterView, bool)> = plans.deep_view();
        proof {
            assert(objects@.take(i + 1).drop_last() =~= objects@.take(i as int));
            assert(objects@.take(i + 1).last() == objects@[i as int]);
        }
        if let Some(properties) = objects[i].interfaces.get("org.bluez.Adapter1") {
            let plan: AdapterPlan = plan_adapter(&objects[i].path, properties);
            let ghost view: (Seq<char>, AdapterView, bool) = plan.deep_view();
            plans.push(plan);
            assert(plans.deep_view() =~= before + seq![view]);
        }
        i += 1;
    }
    assert(objects@.take(objects@.len() as int) =~= objects@);
    plans
}

/// What came of setting the discovery filter and of starting discovery.
#[derive(Debug)]
pub struct StartAttempt {
    pub filter: Result<(), String>,
    pub start: Result<(), String>,
}

/// An adapter on which discovery runs, and its place among the reports.
#[derive(Debug)]
pub struct ActiveAdapter {
    pub path: String,
    pub adapter: usize,
}

impl DeepView for ActiveAdapter {
    type V = (Seq<char>, int);

    open spec fn deep_view(&self) -> (Seq<char>, int) {
        (self.path@, self.adapter as int)
    }
}

/// What is reported of an adapter after an attempt to start discovery on it.
pub open spec fn attempted(report: AdapterView, attempt: StartAttempt) -> AdapterView {
    AdapterView {
        scan_started: report.scan_started || attempt.start is Ok,
        errors: report.errors + failure_of(attempt.filter, "set BlueZ discovery filter"@)
            + failure_of(attempt.start, "start BlueZ discovery"@),
        ..report
    }
}

/// What is reported of an adapter after an attempt to stop discovery on it.
pub open spec fn stopped(report: AdapterView, outcome: Result<(), String>) -> AdapterView {
    AdapterView {
        errors: report.errors + failure_of(outcome, "stop BlueZ discovery"@),
        ..report
    }
}

/// The errors of all adapters, in the order of the adapters.
pub open spec fn all_errors(adapters: Seq<AdapterView>) -> Seq<Seq<char>> {
    adapters.flat_map(|adapter: AdapterView| adapter.errors)
}

/// Where discovery runs, it was reported as started.
pub open spec fn running_are_started(
    reports: Seq<AdapterView>,
    running: Seq<(Seq<char>, int)>,
) -> bool {
    forall|i: int|
        0 <= i < running.len() ==> 0 <= (#[trigger] running[i]).1 < reports.len()
            && reports[running[i].1].scan_started
}

/// Discovery runs on the adapter at a place among the reports.
pub open spec fn runs_on(running: Seq<(Seq<char>, int)>, adapter: int) -> bool {
    exists|i: int| 0 <= i < running.len() && (#[trigger] running[i]).1 == adapter
}

/// Where discovery was reported as started, it runs, and no adapter is listed twice:
/// each that was started is to be stopped, once.
pub open spec fn started_are_running(
    reports: Seq<AdapterView>,
    running: Seq<(Seq<char>, int)>,
) -> bool {
    &&& forall|adapter: int|
        0 <= adapter < reports.len() && (#[trigger] reports[adapter]).scan_started ==> runs_on(
            running,
            adapter,
        )
    &&& forall|i: int| 0 <= i < running.len() ==> 0 <= (#[trigger] running[i]).1 < reports.len()
    &&& forall|i: int, j: int|
        0 <= i < j < running.len() ==> (#[trigger] running[i]).1 != (#[trigger] running[j]).1
}

proof fn lemma_runs_on_push(running: Seq<(Seq<char>, int)>, more: (Seq<char>, int))
    ensures
        runs_on(running.push(more), more.1),
        forall|adapter: int| #[trigger]
            runs_on(running, adapter) ==> runs_on(running.push(more), adapter),
{
    let after: Seq<(Seq<char>, int)> = running.push(more);
    assert(after[running.len() as int] == more);
    assert forall|adapter: int| #[trigger] runs_on(running, adapter) implies runs_on(
        after,
        adapter,
    ) by {
        let i: int = choose|i: int| 0 <= i < running.len() && (#[trigger] running[i]).1 == adapter;
        assert(after[i] == running[i]);
    }
}

/// Anything was tried on powered adapters only: one that is not has no errors and was
/// not started.
pub open spec fn only_powered_scan(reports: Seq<AdapterView>) -> bool {
    forall|adapter: int|
        0 <= adapter < reports.len() && ((#[trigger] reports[adapter]).scan_started
            || reports[adapter].errors.len() > 0) ==> reports[adapter].state == "powered_on"@
}

/// A scan in progress.
#[derive(Debug)]
pub struct BluezScan {
    adapters: Vec<AdapterReport>,
    active: Vec<ActiveAdapter>,
}

impl Default for BluezScan {
    fn default() -> (scan: Self)
        ensures
            scan.reports() == Seq::<AdapterView>::empty(),
            scan.running() == Seq::<(Seq<char>, int)>::empty(),
            running_are_started(scan.reports(), scan.running()),
            started_are_running(scan.reports(), scan.running()),
            only_powered_scan(scan.reports()),
    {
        let scan: BluezScan = BluezScan { adapters: Vec::new(), active: Vec::new() };
        assert(scan.reports() =~= Seq::<AdapterView>::empty());
        assert(scan.running() =~= Seq::<(Seq<char>, int)>::empty());
        scan
    }
}

impl BluezScan {
    /// What is reported of the adapters.
    pub closed spec fn reports(self) -> Seq<AdapterView> {
        self.adapters.deep_view()
    }

    /// The paths of the adapters on which discovery runs, and their places among
    /// the reports.
    pub closed spec fn running(self) -> Seq<(Seq<char>, int)> {
        self.active.deep_view()
    }

    /// Takes in one adapter, and what came of the attempt to start discovery on it
    /// where there was one. Discovery is for powered adapters: on another one an
    /// attempt does not count.
    pub fn add_adapter(&mut self, plan: AdapterPlan, attempt: Option<StartAttempt>)
        ensures
            final(self).reports() == old(self).reports().push(
                match attempt {
                    Some(attempt) => if plan.powered {
                        attempted(plan.report.deep_view(), attempt)
                    } else {
                        plan.report.deep_view()
                    },
                    None => plan.report.deep_view(),
                },
            ),
            final(self).running() == match attempt {
                Some(attempt) => if plan.powered && attempt.start is Ok {
                    old(self).running().push((plan.path@, old(self).reports().len() as int))
                } else {
                    old(self).running()
                },
                None => old(self).running(),
            },
            running_are_started(old(self).reports(), old(self).running()) ==> running_are_started(
                final(self).reports(),
                final(self).running(),
            ),
            planned(plan.deep_view()) && started_are_running(
                old(self).reports(),
                old(self).running(),
            ) ==> started_are_running(final(self).reports(), final(self).running()),
            planned(plan.deep_view()) && only_powered_scan(old(self).reports())
                ==> only_powered_scan(final(self).reports()),
    {
        let ghost reports: Seq<AdapterView> = self.adapters.deep_view();
        let ghost running: Seq<(Seq<char>, int)> = self.active.deep_view();
        let mut report: AdapterReport = plan.report;
        let ghost before: AdapterView = report.deep_view();
        let counted: Option<StartAttempt> = if plan.powered {
            attempt
        } else {
            None
        };
        if let Some(attempt) = counted {
            let ghost errors: Seq<Seq<char>> = report.errors.deep_view();
            if let Err(cause) = &attempt.filter {
                report.errors.push(failure("set BlueZ discovery filter", cause.as_str()));
            }
            assert(report.errors.deep_view() =~= errors + failure_of(
                attempt.filter,
                "set BlueZ discovery filter"@,
            ));
            match &attempt.start {
                Ok(_) => {
                    report.scan_started = true;
                    let adapter: usize = self.adapters.len();
                    self.active.push(ActiveAdapter { path: plan.path, adapter });
                    assert(self.active.deep_view() =~= running.push(
                        (plan.path@, reports.len() as int),
                    ));
                },
                Err(cause) => {
                    report.errors.push(failure("start BlueZ discovery", cause.as_str()));
                },
            }
            assert(report.errors.deep_view() =~= errors + failure_of(
                attempt.filter,
                "set BlueZ discovery filter"@,
            ) + failure_of(attempt.start, "start BlueZ discovery"@));
            assert(report.deep_view() == attempted(before, attempt));
        }
        let ghost view: AdapterView = report.deep_view();
        self.adapters.push(report);
        assert(self.adapters.deep_view() =~= reports.push(view));
        proof {
            lemma_runs_on_push(running, (plan.path@, reports.len() as int));
            if planned(plan.deep_view()) && started_are_running(reports, running) {
                assert forall|adapter: int|
                    0 <= adapter < self.reports().len() && (
                    #[trigger] self.reports()[adapter]).scan_started implies runs_on(
                    self.running(),
                    adapter,
                ) by {
                    if adapter < reports.len() {
                        assert(self.reports()[adapter] == reports[adapter]);
                    }
                }
            }
        }
    }

    /// The adapters on which discovery runs.
    pub fn active(&self) -> (active: &Vec<ActiveAdapter>)
        ensures
            active.deep_view() == self.running(),
    {
        &self.active
    }

    /// Takes in what came of the attempt to stop discovery on an adapter, given by
    /// its place among the reports; a place that is not there is passed over.
    pub fn stopped(&mut self, adapter: usize, outcome: Result<(), String>)
        ensures
            final(self).running() == old(self).running(),
            final(self).reports() == if adapter < old(self).reports().len() {
                old(self).reports().update(
                    adapter as int,
                    stopped(old(self).reports()[adapter as int], outcome),
                )
            } else {
                old(self).reports()
            },
            running_are_started(old(self).reports(), old(self).running()) ==> running_are_started(
                final(self).reports(),
                final(self).running(),
            ),
            started_are_running(old(self).reports(), old(self).running()) ==> started_are_running(
                final(self).reports(),
                final(self).running(),
            ),
            only_powered_scan(old(self).reports()) && running_are_started(
                old(self).reports(),
                old(self).running(),
            ) && runs_on(old(self).running(), adapter as int) ==> only_powered_scan(
                final(self).reports(),
            ),
    {
        let ghost reports: Seq<AdapterView> = self.adapters.deep_view();
        match &outcome {
            Err(cause) => {
                if adapter < self.adapters.len() {
                    let ghost errors: Seq<Seq<char>> = reports[adapter as int].errors;
                    let message: String = failure("stop BlueZ discovery", cause.as_str());
                    let ghost text: Seq<char> = message@;
                    self.adapters[adapter].errors.push(message);
                    let ghost after: AdapterView = self.adapters.deep_view()[adapter as int];
                    assert(after.errors =~= errors + seq![text]);
                    assert(self.adapters.deep_view() =~= reports.update(
                        adapter as int,
                        stopped(reports[adapter as int], outcome),
                    ));
                }
            },
            Ok(_) => {
                if adapter < self.adapters.len() {
                    assert(stopped(reports[adapter as int], outcome).errors
                        =~= reports[adapter as int].errors);
                    assert(reports =~= reports.update(
                        adapter as int,
                        stopped(reports[adapter as int], outcome),
                    ));
                }
            },
        }
    }

    /// The report of the scan: what the devices among the objects say, and the
    /// adapters with their errors.
    pub fn finish(self, discovered: &Vec<ManagedObject>, elapsed: Duration) -> (report: ScanReport)
        ensures
            report.of_scan(merged_all(Map::empty(), device_views(discovered@)), elapsed),
            report.adapters.deep_view() == self.reports(),
            report.errors.deep_view() == all_errors(self.reports()),
    {
        let set: AdvertisementSet = collect_devices(discovered);
        let (advertisements, skipped) = set.finish();
        let errors: Vec<String> = gather_errors(&self.adapters);
        ScanReport::new(elapsed, self.adapters, advertisements, skipped, errors)
    }
}

fn gather_errors(adapters: &Vec<AdapterReport>) -> (errors: Vec<String>)
    ensures
        errors.deep_view() == all_errors(adapters.deep_view()),
{
    let ghost views: Seq<AdapterView> = adapters.deep_view();
    let ghost lists: Seq<Seq<Seq<char>>> = views.map_values(
        |adapter: AdapterView| adapter.errors,
    );
    let mut errors: Vec<String> = Vec::new();
    let mut i: usize = 0;
    assert(lists.take(0) =~= seq![]);
    assert(errors.deep_view() =~= lists.take(0).flatten());
    while i < adapters.len()
        invariant
            i <= adapters@.len(),
            views == adapters.deep_view(),
            lists == views.map_values(|adapter: AdapterView| adapter.errors),
            errors.deep_view() == lists.take(i as int).flatten(),
        decreases adapters@.len() - i,
    {
        let ghost before: Seq<Seq<char>> = errors.deep_view();
        let ghost held: Seq<String> = errors@;
        let mut more: Vec<String> = adapters[i].errors.clone();
        assert(more.deep_view() =~= views[i as int].errors);
        let ghost added: Seq<Seq<char>> = more.deep_view();
        errors.append(&mut more);
        proof {
            assert(errors.deep_view() =~= before + added);
            assert(lists.take(i + 1) =~= lists.take(i as int).push(lists[i as int]));
            lists.take(i as int).lemma_flatten_push(lists[i as int]);
        }
        i += 1;
    }
    assert(lists.take(lists.len() as int) =~= lists);
    errors
}

} // verus!
