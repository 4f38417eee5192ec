//! Laws of scanning through BlueZ: what its objects say, and what a scan reports.

use crate::address::AddressType;
use crate::advertisement::{merged_all, AdvertisementSet, RawAdvertisement};
use crate::bluez::{
    byte_of, collect_devices, convert_device, device_says, device_view, device_views,
    dictionary_entries, manufacturer_entry, manufacturer_items, object_plan, object_view,
    plan_adapter, plan_adapters, refarg_bytes, service_entry, service_items, value_bytes,
    ActiveAdapter, AdapterPlan, BluezScan, BusProperty, BusValue, ManagedObject, NameTable,
    StartAttempt,
};
use crate::laws::advertisement::{law_report_tells_what_was_heard, said, tells};
use crate::laws::list::{
    law_nothing_is_lost_where_all_is_readable, lemma_filter_map_is_picked,
    lemma_picked_is_filter_map, lemma_read_is_filter_map, picked,
};
use crate::laws::report::{errors_by_adapter, law_scan_reports_are_measured, measured};
use crate::laws::text::{law_lower_case_is_the_small_form, small_form};
use crate::laws::winrt::failed;
use crate::payload::{ManufacturerData, ServiceData};
use crate::report::{AdapterReport, AdapterView, ScanReport};
use crate::text::lower_all;
use std::time::Duration;
use vstd::prelude::*;
use vstd::string::*;

verus! {

/// A value that is entered under a name is found under it, and all others are found as
/// before.
pub proof fn law_entered_values_are_found<V>(
    table: &mut NameTable<V>,
    name: String,
    value: V,
    other: Seq<char>,
)
    requires
        call_ensures(NameTable::<V>::insert, (table, name, value), ()),
    ensures
        final(table)@.contains_key(name@),
        final(table)@[name@] == value,
        other != name@ ==> (final(table)@.contains_key(other) <==> old(table)@.contains_key(other)),
        other != name@ && old(table)@.contains_key(other) ==> final(table)@[other] == old(
            table)@[other],
{
}

/// A look under a name finds what is there, and nothing where nothing is.
pub proof fn law_looks_find_what_is_there<V>(
    table: &NameTable<V>,
    name: &str,
    found: Option<&V>,
)
    requires
        call_ensures(NameTable::<V>::get, (table, name), found),
    ensures
        found is Some <==> table@.contains_key(name@),
        found matches Some(value) ==> *value == table@[name@],
{
}

/// A new table holds nothing.
pub proof fn law_new_tables_are_empty<V>(table: NameTable<V>, name: Seq<char>)
    requires
        call_ensures(NameTable::<V>::new, (), table),
    ensures
        !table@.contains_key(name),
{
}

/// The entries of a dictionary take its keys and values two by two, and none is lost.
pub proof fn law_dictionary_is_read_two_by_two(turns: Vec<BusValue>, entries: Vec<BusValue>)
    requires
        call_ensures(dictionary_entries, (turns,), entries),
    ensures
        turns@.len() - 1 <= 2 * entries@.len() <= turns@.len(),
        forall|i: int|
            0 <= i < entries@.len() ==> {
                let entry: BusValue = #[trigger] entries@[i];
                &&& entry.items is Some
                &&& entry.items->0@.len() == 2
                &&& entry.items->0@[0] == turns@[2 * i]
                &&& entry.items->0@[1] == turns@[2 * i + 1]
                &&& !entry.variant
                &&& entry.unsigned is None
                &&& entry.text is None
            },
{
}

/// The values in which the bytes of a value are looked for: those in it, or those in what
/// a variant holds.
pub open spec fn looks_in(value: BusValue, items: Seq<BusValue>) -> bool {
    if value.variant {
        &&& value.items is Some
        &&& value.items->0@.len() > 0
        &&& value.items->0@[0].items is Some
        &&& value.items->0@[0].items->0@ == items
    } else {
        &&& value.items is Some
        &&& value.items->0@ == items
    }
}

/// A value is the number of a byte.
pub open spec fn is_byte(value: BusValue, byte: u8) -> bool {
    value.unsigned is Some && value.unsigned->0 == byte
}

/// A value is a number that fits into a byte.
pub open spec fn byte_sized(value: BusValue) -> bool {
    value.unsigned is Some && value.unsigned->0 <= 255
}

/// A value holds bytes: those among the values in it that are numbers of bytes, in their
/// order.
pub open spec fn holds_bytes(value: BusValue, bytes: Seq<u8>) -> bool {
    exists|items: Seq<BusValue>| #[trigger]
        looks_in(value, items) && picked(
            items,
            |value: BusValue| byte_sized(value),
            |value: BusValue, byte: u8| is_byte(value, byte),
            bytes,
        )
}

proof fn lemma_value_bytes(value: BusValue, bytes: Seq<u8>)
    ensures
        value_bytes(value) == Some(bytes) <==> holds_bytes(value, bytes),
        value_bytes(value) is Some <==> exists|items: Seq<BusValue>| #[trigger]
            looks_in(value, items),
{
    let f = |item: BusValue| byte_of(item);
    let view = |byte: u8| byte;
    let readable = |value: BusValue| byte_sized(value);
    let reads = |value: BusValue, byte: u8| is_byte(value, byte);
    if exists|items: Seq<BusValue>| #[trigger] looks_in(value, items) {
        let items: Seq<BusValue> = choose|items: Seq<BusValue>| #[trigger] looks_in(value, items);
        assert(value_bytes(value) == Some(items.filter_map(f)));
        lemma_filter_map_is_picked(items, f, items.filter_map(f), view, readable, reads);
        if holds_bytes(value, bytes) {
            let from: Seq<BusValue> = choose|from: Seq<BusValue>| #[trigger]
                looks_in(value, from) && picked(from, readable, reads, bytes);
            assert(from == items);
            lemma_picked_is_filter_map(items, f, bytes, view, readable, reads);
            assert(items.filter_map(f) =~= bytes);
        }
    } else if value_bytes(value) is Some {
        if value.variant {
            assert(looks_in(value, value.items->0@[0].items->0@));
        } else {
            assert(looks_in(value, value.items->0@));
        }
    }
}

/// The bytes of a value are read, in their order, exactly if it is a list or a variant
/// that holds one.
pub proof fn law_bytes_are_read_in_order(value: &BusValue, bytes: Option<Vec<u8>>)
    requires
        call_ensures(refarg_bytes, (value,), bytes),
    ensures
        bytes is Some <==> exists|items: Seq<BusValue>| #[trigger] looks_in(*value, items),
        bytes matches Some(bytes) ==> holds_bytes(*value, bytes@),
{
    if let Some(bytes) = bytes {
        assert(bytes.deep_view() =~= bytes@);
        lemma_value_bytes(*value, bytes@);
    } else {
        lemma_value_bytes(*value, seq![]);
    }
}

/// A list of bytes is read as it is: every byte, zero too, at its place.
pub proof fn law_lists_of_bytes_are_read_whole(
    value: &BusValue,
    items: Seq<BusValue>,
    bytes: Option<Vec<u8>>,
)
    requires
        call_ensures(refarg_bytes, (value,), bytes),
        looks_in(*value, items),
        forall|i: int|
            0 <= i < items.len() ==> (#[trigger] items[i]).unsigned is Some
                && items[i].unsigned->0 <= 255,
    ensures
        bytes is Some,
        bytes->0@.len() == items.len(),
        forall|i: int|
            0 <= i < items.len() ==> #[trigger] bytes->0@[i] == items[i].unsigned->0,
{
    law_bytes_are_read_in_order(value, bytes);
    let readable = |value: BusValue| byte_sized(value);
    let reads = |value: BusValue, byte: u8| is_byte(value, byte);
    let from: Seq<BusValue> = choose|from: Seq<BusValue>| #[trigger]
        looks_in(*value, from) && picked(from, readable, reads, bytes->0@);
    assert(from == items);
    law_nothing_is_lost_where_all_is_readable(items, readable, reads, bytes->0@);
    assert forall|i: int| 0 <= i < items.len() implies #[trigger] bytes->0@[i]
        == items[i].unsigned->0 by {
        assert(reads(items[i], bytes->0@[i]));
    }
}

/// The text under a name.
pub open spec fn text_under(
    properties: Map<Seq<char>, BusProperty>,
    name: Seq<char>,
) -> Option<Seq<char>> {
    if properties.contains_key(name) && properties[name].string is Some {
        Some(properties[name].string->0@)
    } else {
        None
    }
}

/// The number under a name.
pub open spec fn number_under(
    properties: Map<Seq<char>, BusProperty>,
    name: Seq<char>,
) -> Option<i16> {
    if properties.contains_key(name) {
        properties[name].int16
    } else {
        None
    }
}

/// The values under a name; none where there are none.
pub open spec fn values_under(
    properties: Map<Seq<char>, BusProperty>,
    name: Seq<char>,
) -> Seq<BusValue> {
    if properties.contains_key(name) && properties[name].items is Some {
        properties[name].items->0@
    } else {
        seq![]
    }
}

/// The texts under a name; none where there are none.
pub open spec fn texts_under(
    properties: Map<Seq<char>, BusProperty>,
    name: Seq<char>,
) -> Seq<String> {
    if properties.contains_key(name) && properties[name].strings is Some {
        properties[name].strings->0@
    } else {
        seq![]
    }
}

/// A text is there, with the given content, or is missing.
pub open spec fn is_text(text: Option<String>, content: Option<Seq<char>>) -> bool {
    match text {
        Some(text) => content == Some(text@),
        None => content is None,
    }
}

/// An entry has a key and a value in which bytes can be looked for.
pub open spec fn keyed_bytes(entry: BusValue) -> bool {
    &&& entry.items is Some
    &&& entry.items->0@.len() >= 2
    &&& exists|items: Seq<BusValue>| #[trigger] looks_in(entry.items->0@[1], items)
}

/// The key of an entry of bytes is a number of sixteen bits.
pub open spec fn manufacturer_readable(entry: BusValue) -> bool {
    &&& keyed_bytes(entry)
    &&& entry.items->0@[0].unsigned is Some
    &&& entry.items->0@[0].unsigned->0 <= 0xffff
}

/// The key of an entry of bytes is a text.
pub open spec fn service_readable(entry: BusValue) -> bool {
    keyed_bytes(entry) && entry.items->0@[0].text is Some
}

/// An entry of a company number and of bytes.
pub open spec fn manufacturer_read(entry: BusValue, item: ManufacturerData) -> bool {
    &&& entry.items is Some
    &&& entry.items->0@.len() >= 2
    &&& entry.items->0@[0].unsigned is Some
    &&& entry.items->0@[0].unsigned->0 == item.company_id
    &&& holds_bytes(entry.items->0@[1], item.data@)
}

/// An entry of a UUID, whose capitals are made small, and of bytes.
pub open spec fn service_read(entry: BusValue, item: ServiceData) -> bool {
    &&& entry.items is Some
    &&& entry.items->0@.len() >= 2
    &&& entry.items->0@[0].text is Some
    &&& small_form(entry.items->0@[0].text->0@, item.uuid@)
    &&& holds_bytes(entry.items->0@[1], item.data@)
}

/// An advertisement says, field by field, what the properties of a device say.
pub open spec fn device_tells(
    properties: Map<Seq<char>, BusProperty>,
    raw: RawAdvertisement,
) -> bool {
    &&& text_under(properties, "Address"@) == Some(raw.address@)
    &&& text_under(properties, "AddressType"@) == Some("public"@) ==> raw.address_type
        == AddressType::Public
    &&& text_under(properties, "AddressType"@) != Some("public"@) ==> raw.address_type
        == AddressType::Unknown
    &&& text_under(properties, "Name"@) is Some ==> is_text(
        raw.local_name,
        text_under(properties, "Name"@),
    )
    &&& text_under(properties, "Name"@) is None ==> is_text(
        raw.local_name,
        text_under(properties, "Alias"@),
    )
    &&& raw.rssi_dbm == number_under(properties, "RSSI"@)
    &&& raw.tx_power_dbm == number_under(properties, "TxPower"@)
    &&& raw.connectable is None
    &&& raw.service_uuids@.len() == texts_under(properties, "UUIDs"@).len()
    &&& forall|i: int|
        0 <= i < raw.service_uuids@.len() ==> small_form(
            texts_under(properties, "UUIDs"@)[i]@,
            (#[trigger] raw.service_uuids@[i])@,
        )
    &&& picked(
        values_under(properties, "ManufacturerData"@),
        |entry: BusValue| manufacturer_readable(entry),
        |entry: BusValue, item: ManufacturerData| manufacturer_read(entry, item),
        raw.manufacturer_data@,
    )
    &&& picked(
        values_under(properties, "ServiceData"@),
        |entry: BusValue| service_readable(entry),
        |entry: BusValue, item: ServiceData| service_read(entry, item),
        raw.service_data@,
    )
    &&& raw.protocol_identity is None
}

proof fn lemma_manufacturer_entry(entry: BusValue)
    ensures
        manufacturer_readable(entry) <==> manufacturer_entry(entry) is Some,
        forall|item: ManufacturerData|
            #![trigger item.deep_view()]
            manufacturer_read(entry, item) && manufacturer_readable(entry) <==> manufacturer_entry(
                entry,
            ) == Some(item.deep_view()),
{
    if entry.items is Some && entry.items->0@.len() >= 2 {
        lemma_value_bytes(entry.items->0@[1], seq![]);
    }
    assert forall|item: ManufacturerData|
        #![trigger item.deep_view()]
        manufacturer_read(entry, item) && manufacturer_readable(entry) <==> manufacturer_entry(
            entry,
        ) == Some(item.deep_view()) by {
        if entry.items is Some && entry.items->0@.len() >= 2 {
            lemma_value_bytes(entry.items->0@[1], item.data@);
        }
    }
}

proof fn lemma_manufacturer_list(items: Seq<BusValue>, list: Vec<ManufacturerData>)
    ensures
        list.deep_view() == manufacturer_items(items) <==> picked(
            items,
            |entry: BusValue| manufacturer_readable(entry),
            |entry: BusValue, item: ManufacturerData| manufacturer_read(entry, item),
            list@,
        ),
{
    let f = |entry: BusValue| manufacturer_entry(entry);
    let view = |item: ManufacturerData| item.deep_view();
    let readable = |entry: BusValue| manufacturer_readable(entry);
    let reads = |entry: BusValue, item: ManufacturerData| manufacturer_read(entry, item);
    assert forall|a: BusValue| #[trigger] readable(a) <==> f(a) is Some by {
        lemma_manufacturer_entry(a);
    }
    assert forall|a: BusValue, b: ManufacturerData| f(a) == Some(
        view(b),
    ) implies #[trigger] reads(a, b) by {
        lemma_manufacturer_entry(a);
    }
    assert forall|a: BusValue, b: ManufacturerData|
        #[trigger] reads(a, b) && readable(a) implies f(a) == Some(view(b)) by {
        lemma_manufacturer_entry(a);
    }
    assert(list.deep_view().len() == list@.len());
    assert(forall|k: int|
        0 <= k < list@.len() ==> list.deep_view()[k] == view(#[trigger] list@[k]));
    if list.deep_view() == manufacturer_items(items) {
        lemma_filter_map_is_picked(items, f, list@, view, readable, reads);
    }
    if picked(items, readable, reads, list@) {
        lemma_picked_is_filter_map(items, f, list@, view, readable, reads);
        assert(list.deep_view() =~= manufacturer_items(items));
    }
}

proof fn lemma_service_entry(entry: BusValue)
    ensures
        service_readable(entry) <==> service_entry(entry) is Some,
        forall|item: ServiceData|
            #![trigger item.deep_view()]
            service_read(entry, item) && service_readable(entry) <==> service_entry(entry) == Some(
                item.deep_view(),
            ),
{
    if entry.items is Some && entry.items->0@.len() >= 2 {
        lemma_value_bytes(entry.items->0@[1], seq![]);
    }
    assert forall|item: ServiceData|
        #![trigger item.deep_view()]
        service_read(entry, item) && service_readable(entry) <==> service_entry(entry) == Some(
            item.deep_view(),
        ) by {
        if entry.items is Some && entry.items->0@.len() >= 2 {
            lemma_value_bytes(entry.items->0@[1], item.data@);
            if entry.items->0@[0].text is Some {
                law_lower_case_is_the_small_form(entry.items->0@[0].text->0@, item.uuid@);
            }
        }
    }
}

proof fn lemma_service_list(items: Seq<BusValue>, list: Vec<ServiceData>)
    ensures
        list.deep_view() == service_items(items) <==> picked(
            items,
            |entry: BusValue| service_readable(entry),
            |entry: BusValue, item: ServiceData| service_read(entry, item),
            list@,
        ),
{
    let f = |entry: BusValue| service_entry(entry);
    let view = |item: ServiceData| item.deep_view();
    let readable = |entry: BusValue| service_readable(entry);
    let reads = |entry: BusValue, item: ServiceData| service_read(entry, item);
    assert forall|a: BusValue| #[trigger] readable(a) <==> f(a) is Some by {
        lemma_service_entry(a);
    }
    assert forall|a: BusValue, b: ServiceData| f(a) == Some(
        view(b),
    ) implies #[trigger] reads(a, b) by {
        lemma_service_entry(a);
    }
    assert forall|a: BusValue, b: ServiceData| #[trigger] reads(a, b) && readable(a) implies f(a)
        == Some(view(b)) by {
        lemma_service_entry(a);
    }
    assert(list.deep_view().len() == list@.len());
    assert(forall|k: int|
        0 <= k < list@.len() ==> list.deep_view()[k] == view(#[trigger] list@[k]));
    if list.deep_view() == service_items(items) {
        lemma_filter_map_is_picked(items, f, list@, view, readable, reads);
    }
    if picked(items, readable, reads, list@) {
        lemma_picked_is_filter_map(items, f, list@, view, readable, reads);
        assert(list.deep_view() =~= service_items(items));
    }
}

proof fn lemma_uuid_list(texts: Seq<String>, plain: Seq<Seq<char>>, list: Vec<String>)
    requires
        plain.len() == texts.len(),
        forall|i: int| 0 <= i < texts.len() ==> plain[i] == (#[trigger] texts[i])@,
    ensures
        list.deep_view() == lower_all(plain) <==> list@.len() == texts.len() && forall|i: int|
            0 <= i < list@.len() ==> small_form(texts[i]@, (#[trigger] list@[i])@),
{
    assert(list.deep_view().len() == list@.len());
    assert(lower_all(plain).len() == plain.len());
    if list.deep_view() == lower_all(plain) {
        assert forall|i: int| 0 <= i < list@.len() implies small_form(
            texts[i]@,
            (#[trigger] list@[i])@,
        ) by {
            assert(list.deep_view()[i] == list@[i]@);
            law_lower_case_is_the_small_form(texts[i]@, list@[i]@);
        }
    }
    if list@.len() == texts.len() && forall|i: int|
        0 <= i < list@.len() ==> small_form(texts[i]@, (#[trigger] list@[i])@) {
        assert forall|i: int| 0 <= i < list@.len() implies list.deep_view()[i] == lower_all(
            plain,
        )[i] by {
            law_lower_case_is_the_small_form(texts[i]@, list@[i]@);
        }
        assert(list.deep_view() =~= lower_all(plain));
    }
}

#[verifier::rlimit(40)]
proof fn lemma_device_tells(properties: Map<Seq<char>, BusProperty>, raw: RawAdvertisement)
    ensures
        device_tells(properties, raw) <==> device_says(properties, raw),
        device_tells(properties, raw) ==> device_view(properties) == Some(raw@),
{
    lemma_manufacturer_list(
        values_under(properties, "ManufacturerData"@),
        raw.manufacturer_data,
    );
    lemma_service_list(values_under(properties, "ServiceData"@), raw.service_data);
    lemma_uuid_list(
        texts_under(properties, "UUIDs"@),
        crate::bluez::strings_property(properties, "UUIDs"@),
        raw.service_uuids,
    );
}

/// A device object is converted exactly if it has an address, field by field.
pub proof fn law_conversion_says_what_the_device_says(
    properties: &NameTable<BusProperty>,
    raw: Option<RawAdvertisement>,
)
    requires
        call_ensures(convert_device, (properties,), raw),
    ensures
        raw is Some <==> text_under(properties@, "Address"@) is Some,
        raw matches Some(raw) ==> device_tells(properties@, raw),
{
    if let Some(raw) = raw {
        lemma_device_tells(properties@, raw);
    }
}

/// An object is a device with an address.
pub open spec fn is_device(object: ManagedObject) -> bool {
    &&& object.interfaces@.contains_key("org.bluez.Device1"@)
    &&& text_under(object.interfaces@["org.bluez.Device1"@]@, "Address"@) is Some
}

/// The advertisements say what the devices among some objects say, in their order: each
/// says what the object at its place says, and no device is left out.
pub open spec fn devices_at(
    objects: Seq<ManagedObject>,
    raws: Seq<RawAdvertisement>,
    at: Seq<int>,
) -> bool {
    &&& at.len() == raws.len()
    &&& forall|k: int|
        0 <= k < at.len() ==> 0 <= #[trigger] at[k] < objects.len() && is_device(objects[at[k]])
            && device_tells(objects[at[k]].interfaces@["org.bluez.Device1"@]@, raws[k])
    &&& forall|k: int, m: int| 0 <= k < m < at.len() ==> #[trigger] at[k] < #[trigger] at[m]
    &&& forall|i: int| 0 <= i < objects.len() && is_device(#[trigger] objects[i]) ==> at.contains(i)
}

proof fn lemma_device_views_are_said(
    objects: Seq<ManagedObject>,
    raws: Seq<RawAdvertisement>,
    at: Seq<int>,
)
    requires
        devices_at(objects, raws, at),
    ensures
        device_views(objects) == said(raws),
{
    let f = |object: ManagedObject| object_view(object);
    let view = |raw: RawAdvertisement| raw@;
    assert forall|k: int| 0 <= k < at.len() implies 0 <= #[trigger] at[k] < objects.len() && f(
        objects[at[k]],
    ) == Some(view(raws[k])) by {
        lemma_device_tells(objects[at[k]].interfaces@["org.bluez.Device1"@]@, raws[k]);
    }
    assert forall|i: int| 0 <= i < objects.len() && f(#[trigger] objects[i]) is Some implies
        at.contains(i) by {
        assert(is_device(objects[i]));
    }
    lemma_read_is_filter_map(objects, f, raws, view, at);
    assert(device_views(objects) =~= said(raws));
}

/// What the devices among some objects say is taken in, each device's words and no
/// others.
pub proof fn law_devices_are_collected(
    objects: &Vec<ManagedObject>,
    raws: Seq<RawAdvertisement>,
    at: Seq<int>,
    set: AdvertisementSet,
)
    requires
        devices_at(objects@, raws, at),
        call_ensures(collect_devices, (objects,), set),
    ensures
        set@ == merged_all(Map::empty(), said(raws)),
{
    lemma_device_views_are_said(objects@, raws, at);
}

/// A plan is that of an adapter: it goes by its alias, else its name, else its path; its
/// state tells whether it is powered; nothing was tried on it.
pub open spec fn plans_adapter(
    path: Seq<char>,
    properties: Map<Seq<char>, BusProperty>,
    plan: AdapterPlan,
) -> bool {
    &&& plan.path@ == path
    &&& text_under(properties, "Alias"@) is Some ==> text_under(properties, "Alias"@) == Some(
        plan.report.name@,
    )
    &&& text_under(properties, "Alias"@) is None && text_under(properties, "Name"@) is Some
        ==> text_under(properties, "Name"@) == Some(plan.report.name@)
    &&& text_under(properties, "Alias"@) is None && text_under(properties, "Name"@) is None
        ==> plan.report.name@ == path
    &&& plan.powered <==> properties.contains_key("Powered"@) && properties["Powered"@].boolean
        == Some(true)
    &&& plan.powered ==> plan.report.state@ == "powered_on"@
    &&& !plan.powered ==> plan.report.state@ == "powered_off"@
    &&& !plan.report.scan_started
    &&& plan.report.errors@.len() == 0
}

/// An adapter is planned for by its properties.
pub proof fn law_plans_follow_the_properties(
    path: &String,
    properties: &NameTable<BusProperty>,
    plan: AdapterPlan,
)
    requires
        call_ensures(plan_adapter, (path, properties), plan),
    ensures
        plans_adapter(path@, properties@, plan),
{
    assert(plan.report.errors@.len() == plan.report.errors.deep_view().len());
}

/// An object is an adapter.
pub open spec fn is_adapter(object: ManagedObject) -> bool {
    object.interfaces@.contains_key("org.bluez.Adapter1"@)
}

/// Every adapter among some objects is planned for, in their order, and nothing else.
pub proof fn law_every_adapter_is_planned_for(
    objects: &Vec<ManagedObject>,
    plans: Vec<AdapterPlan>,
)
    requires
        call_ensures(plan_adapters, (objects,), plans),
    ensures
        picked(
            objects@,
            |object: ManagedObject| is_adapter(object),
            |object: ManagedObject, plan: AdapterPlan|
                plans_adapter(
                    object.path@,
                    object.interfaces@["org.bluez.Adapter1"@]@,
                    plan,
                ),
            plans@,
        ),
{
    let f = |object: ManagedObject| object_plan(object);
    let view = |plan: AdapterPlan| plan.deep_view();
    let readable = |object: ManagedObject| is_adapter(object);
    let reads = |object: ManagedObject, plan: AdapterPlan|
        plans_adapter(object.path@, object.interfaces@["org.bluez.Adapter1"@]@, plan);
    assert(plans@.len() == plans.deep_view().len());
    assert forall|k: int| 0 <= k < plans@.len() implies view(#[trigger] plans@[k])
        == objects@.filter_map(f)[k] by {
        assert(plans.deep_view()[k] == plans@[k].deep_view());
    }
    assert forall|a: ManagedObject, b: AdapterPlan| f(a) == Some(
        view(b),
    ) implies #[trigger] reads(a, b) by {
        assert(b.report.errors@.len() == b.report.errors.deep_view().len());
    }
    lemma_filter_map_is_picked(objects@, f, plans@, view, readable, reads);
}

/// A new scan has no adapters.
pub proof fn law_new_scans_have_no_adapters(scan: BluezScan)
    requires
        call_ensures(<BluezScan as Default>::default, (), scan),
    ensures
        scan.reports().len() == 0,
        scan.running().len() == 0,
{
}

/// An attempt counts: it was made, and the adapter is powered.
pub open spec fn counts(plan: AdapterPlan, attempt: Option<StartAttempt>) -> bool {
    plan.powered && attempt is Some
}

/// The number of errors that an attempt adds.
pub open spec fn errors_added(plan: AdapterPlan, attempt: Option<StartAttempt>) -> int {
    if counts(plan, attempt) {
        failed(attempt->0.filter) + failed(attempt->0.start)
    } else {
        0
    }
}

/// An adapter is reported behind the others, under its name and state. Discovery runs on
/// it exactly if it is powered and discovery was started; what failed is told behind the
/// errors that it had, first of the filter, then of the start.
#[verifier::rlimit(40)]
pub proof fn law_adapters_are_taken_in(
    scan: &mut BluezScan,
    plan: AdapterPlan,
    attempt: Option<StartAttempt>,
)
    requires
        call_ensures(BluezScan::add_adapter, (scan, plan, attempt), ()),
    ensures
        final(scan).reports().len() == old(scan).reports().len() + 1,
        forall|i: int|
            0 <= i < old(scan).reports().len() ==> #[trigger] final(scan).reports()[i] == old(
                scan).reports()[i],
        ({
            let report: AdapterView = final(scan).reports().last();
            let before: int = plan.report.errors@.len() as int;
            &&& report.name == plan.report.name@
            &&& report.state == plan.report.state@
            &&& report.scan_started <==> plan.report.scan_started || (counts(plan, attempt)
                && attempt->0.start is Ok)
            &&& report.errors.len() == before + errors_added(plan, attempt)
            &&& forall|i: int|
                0 <= i < before ==> #[trigger] report.errors[i] == plan.report.errors@[i]@
            &&& counts(plan, attempt) && attempt->0.filter is Err ==> report.errors[before]
                == "set BlueZ discovery filter: "@ + attempt->0.filter->Err_0@
            &&& counts(plan, attempt) && attempt->0.start is Err ==> report.errors[before + failed(
                attempt->0.filter,
            )] == "start BlueZ discovery: "@ + attempt->0.start->Err_0@
        }),
        counts(plan, attempt) && attempt->0.start is Ok ==> final(scan).running() == old(
            scan).running().push((plan.path@, old(scan).reports().len() as int)),
        !(counts(plan, attempt) && attempt->0.start is Ok) ==> final(scan).running() == old(
            scan).running(),
{
    reveal_strlit("set BlueZ discovery filter: ");
    reveal_strlit("set BlueZ discovery filter");
    reveal_strlit("start BlueZ discovery: ");
    reveal_strlit("start BlueZ discovery");
    reveal_strlit(": ");
    let errors: Seq<Seq<char>> = plan.report.errors.deep_view();
    assert(errors.len() == plan.report.errors@.len());
    assert(forall|i: int|
        0 <= i < errors.len() ==> #[trigger] errors[i] == plan.report.errors@[i]@);
    if counts(plan, attempt) {
        if let Err(cause) = attempt->0.filter {
            assert(crate::error::failure_text("set BlueZ discovery filter"@, cause@)
                =~= "set BlueZ discovery filter: "@ + cause@);
        }
        if let Err(cause) = attempt->0.start {
            assert(crate::error::failure_text("start BlueZ discovery"@, cause@)
                =~= "start BlueZ discovery: "@ + cause@);
        }
    }
}

/// The adapters on which discovery runs are handed out with their paths and places.
pub proof fn law_running_adapters_are_handed_out(scan: &BluezScan, active: &Vec<ActiveAdapter>)
    requires
        call_ensures(BluezScan::active, (scan,), active),
    ensures
        active@.len() == scan.running().len(),
        forall|i: int|
            0 <= i < active@.len() ==> (#[trigger] active@[i]).path@ == scan.running()[i].0
                && active@[i].adapter == scan.running()[i].1,
{
    assert(active@.len() == active.deep_view().len());
    assert forall|i: int| 0 <= i < active@.len() implies (#[trigger] active@[i]).path@
        == scan.running()[i].0 && active@[i].adapter == scan.running()[i].1 by {
        assert(active.deep_view()[i] == active@[i].deep_view());
    }
}

/// That discovery could not be stopped is told of the adapter at the place, behind its
/// other errors; nothing else changes, and a success changes nothing.
pub proof fn law_failed_stops_are_told(
    scan: &mut BluezScan,
    adapter: usize,
    outcome: Result<(), String>,
)
    requires
        call_ensures(BluezScan::stopped, (scan, adapter, outcome), ()),
    ensures
        final(scan).running() == old(scan).running(),
        final(scan).reports().len() == old(scan).reports().len(),
        forall|i: int|
            0 <= i < old(scan).reports().len() && (i != adapter || outcome is Ok)
                ==> #[trigger] final(scan).reports()[i] == old(scan).reports()[i],
        adapter < old(scan).reports().len() && outcome is Err ==> {
            let before: AdapterView = old(scan).reports()[adapter as int];
            let after: AdapterView = final(scan).reports()[adapter as int];
            &&& after.name == before.name
            &&& after.state == before.state
            &&& after.scan_started == before.scan_started
            &&& after.errors.len() == before.errors.len() + 1
            &&& forall|i: int|
                0 <= i < before.errors.len() ==> #[trigger] after.errors[i] == before.errors[i]
            &&& after.errors.last() == "stop BlueZ discovery: "@ + outcome->Err_0@
        },
{
    reveal_strlit("stop BlueZ discovery: ");
    reveal_strlit("stop BlueZ discovery");
    reveal_strlit(": ");
    if let Err(cause) = outcome {
        assert(crate::error::failure_text("stop BlueZ discovery"@, cause@)
            =~= "stop BlueZ discovery: "@ + cause@);
    } else if adapter < old(scan).reports().len() {
        let before: AdapterView = old(scan).reports()[adapter as int];
        assert(before.errors + seq![] =~= before.errors);
    }
}

/// The items of each list stand in another list from the list's place on.
spec fn stand_at(lists: Seq<Seq<Seq<char>>>, flat: Seq<Seq<char>>, starts: Seq<int>) -> bool {
    forall|i: int, k: int|
        0 <= i < lists.len() && 0 <= k < lists[i].len() ==> #[trigger] stands_at(
            lists,
            flat,
            starts,
            i,
            k,
        )
}

spec fn stands_at(
    lists: Seq<Seq<Seq<char>>>,
    flat: Seq<Seq<char>>,
    starts: Seq<int>,
    i: int,
    k: int,
) -> bool {
    0 <= starts[i] + k < flat.len() && flat[starts[i] + k] == lists[i][k]
}

proof fn lemma_flatten_starts(lists: Seq<Seq<Seq<char>>>) -> (starts: Seq<int>)
    ensures
        starts.len() == lists.len() + 1,
        starts[0] == 0,
        forall|i: int|
            0 <= i < lists.len() ==> starts[i + 1] == starts[i] + (#[trigger] lists[i]).len(),
        lists.flatten().len() == starts[lists.len() as int],
        stand_at(lists, lists.flatten(), starts),
    decreases lists.len(),
{
    if lists.len() == 0 {
        seq![0]
    } else {
        let front: Seq<Seq<Seq<char>>> = lists.drop_last();
        let last: int = lists.len() - 1;
        let before: Seq<int> = lemma_flatten_starts(front);
        let end: int = before[last] + lists[last].len();
        let starts: Seq<int> = before.push(end);
        assert(lists =~= front.push(lists[last]));
        front.lemma_flatten_push(lists[last]);
        assert(lists.flatten() == front.flatten() + lists[last]);
        assert forall|i: int| 0 <= i < lists.len() implies starts[i + 1] == starts[i] + (
        #[trigger] lists[i]).len() by {
            if i < last {
                assert(front[i] == lists[i]);
            }
        }
        let flat: Seq<Seq<char>> = lists.flatten();
        assert forall|i: int, k: int| 0 <= i < lists.len() && 0 <= k < lists[i].len() implies
            #[trigger] stands_at(lists, flat, starts, i, k) by {
            if i < last {
                assert(starts[i] == before[i]);
                assert(front[i] == lists[i]);
                assert(stands_at(front, front.flatten(), before, i, k));
            } else {
                assert(starts[i] == front.flatten().len());
            }
        }
        assert(stand_at(lists, flat, starts));
        starts
    }
}

/// The report of a scan tells what the devices say; it has the adapters as they were
/// taken in, and their errors, one adapter after the other.
#[verifier::rlimit(40)]
pub proof fn law_scan_reports_what_the_devices_say(
    scan: BluezScan,
    discovered: &Vec<ManagedObject>,
    raws: Seq<RawAdvertisement>,
    at: Seq<int>,
    elapsed: Duration,
    report: ScanReport,
)
    requires
        devices_at(discovered@, raws, at),
        call_ensures(BluezScan::finish, (scan, discovered, elapsed), report),
    ensures
        tells(raws, report.advertisements@, report.skipped_without_rssi as int),
        measured(report, elapsed),
        report.adapters@.len() == scan.reports().len(),
        forall|i: int|
            0 <= i < report.adapters@.len() ==> adapter_is(
                #[trigger] report.adapters@[i],
                scan.reports()[i],
            ),
        exists|starts: Seq<int>| #[trigger] errors_by_adapter(report, starts),
{
    lemma_device_views_are_said(discovered@, raws, at);
    law_report_tells_what_was_heard(raws, report, elapsed);
    law_scan_reports_are_measured(
        report,
        merged_all(Map::empty(), device_views(discovered@)),
        elapsed,
    );
    let views: Seq<AdapterView> = report.adapters.deep_view();
    assert(report.adapters@.len() == views.len());
    assert forall|i: int| 0 <= i < report.adapters@.len() implies adapter_is(
        #[trigger] report.adapters@[i],
        scan.reports()[i],
    ) by {
        assert(views[i] == report.adapters@[i].deep_view());
        lemma_adapter_is(report.adapters@[i]);
    }
    let lists: Seq<Seq<Seq<char>>> = views.map_values(|adapter: AdapterView| adapter.errors);
    let starts: Seq<int> = lemma_flatten_starts(lists);
    let errors: Seq<Seq<char>> = report.errors.deep_view();
    assert(errors == lists.flatten());
    assert(report.errors@.len() == errors.len());
    assert forall|i: int| 0 <= i < report.adapters@.len() implies starts[i + 1] == starts[i] + (
    #[trigger] report.adapters@[i]).errors@.len() by {
        assert(lists[i] == views[i].errors);
        assert(views[i] == report.adapters@[i].deep_view());
        assert(report.adapters@[i].errors.deep_view().len() == report.adapters@[i].errors@.len());
    }
    assert forall|i: int, k: int|
        0 <= i < report.adapters@.len() && 0 <= k < report.adapters@[i].errors@.len() implies
        report.errors@[starts[i] + k]@ == (#[trigger] report.adapters@[i].errors@[k])@ by {
        assert(lists[i] == views[i].errors);
        assert(views[i] == report.adapters@[i].deep_view());
        assert(report.adapters@[i].errors.deep_view()[k] == report.adapters@[i].errors@[k]@);
        assert(lists[i][k] == report.adapters@[i].errors@[k]@);
        assert(stands_at(lists, errors, starts, i, k));
        assert(errors[starts[i] + k] == report.errors@[starts[i] + k]@);
    }
    assert(errors_by_adapter(report, starts));
}

/// An adapter is reported as it was taken in.
pub open spec fn adapter_is(adapter: AdapterReport, view: AdapterView) -> bool {
    &&& adapter.name@ == view.name
    &&& adapter.state@ == view.state
    &&& adapter.scan_started == view.scan_started
    &&& adapter.errors@.len() == view.errors.len()
    &&& forall|k: int|
        0 <= k < adapter.errors@.len() ==> (#[trigger] adapter.errors@[k])@ == view.errors[k]
}

proof fn lemma_adapter_is(adapter: AdapterReport)
    ensures
        adapter_is(adapter, adapter.deep_view()),
{
    assert(adapter.errors@.len() == adapter.errors.deep_view().len());
    assert(forall|k: int|
        0 <= k < adapter.errors@.len() ==> adapter.errors.deep_view()[k] == (
        #[trigger] adapter.errors@[k])@);
}

} // verus!
