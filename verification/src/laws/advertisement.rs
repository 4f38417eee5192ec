//! Laws of merging and reporting: what is known of a device and what is reported of it,
//! told from the advertisements that were heard.

use crate::address::AddressType;
use crate::advertisement::{
    finished, law_skipped_devices_have_no_signal_strength, merged, merged_all, reports,
    Advertisement, AdvertisementSet, AdvertisementView, RawAdvertisement,
};
use crate::laws::payload::{
    law_ascending_manufacturer_data_are_in_order, law_ascending_service_data_are_in_order,
    law_ascending_strings_are_in_order, law_manufacturer_list_is_read_by_item,
    law_service_list_is_read_by_item, law_string_list_is_read_by_item, lists, manufacturer_in_order,
    manufacturer_named, manufacturer_says, service_in_order, service_named, service_says,
    strings_in_order,
};
use crate::laws::text::{
    comes_before, law_first_difference_decides, law_lower_case_forgets_case_only,
    law_lower_case_is_the_small_form, same_but_for_case, small_form,
};
use crate::report::ScanReport;
use crate::text::{ascii_lower, text_less};
use std::time::Duration;
use vstd::prelude::*;
use vstd::utf8::*;

verus! {

/// A field after a merge: the incoming value where there is one, and exactly the value
/// before where the advertisement leaves it out.
pub open spec fn replaced_or_kept<A>(
    before: Option<A>,
    incoming: Option<A>,
    after: Option<A>,
) -> bool {
    match incoming {
        Some(value) => after == Some(value),
        None => after == before,
    }
}

/// What is known of a device after an advertisement of it, field by field: what it says
/// replaces what was known, and what it leaves out is as it was.
pub open spec fn took_in(
    before: AdvertisementView,
    incoming: RawAdvertisement,
    after: AdvertisementView,
) -> bool {
    &&& after.address == incoming.address@
    &&& incoming.address_type != AddressType::Unknown ==> after.address_type
        == incoming.address_type
    &&& incoming.address_type == AddressType::Unknown ==> after.address_type
        == before.address_type
    &&& match incoming.local_name {
        Some(name) => after.local_name == Some(name@),
        None => after.local_name == before.local_name,
    }
    &&& replaced_or_kept(before.rssi_dbm, incoming.rssi_dbm, after.rssi_dbm)
    &&& replaced_or_kept(before.tx_power_dbm, incoming.tx_power_dbm, after.tx_power_dbm)
    &&& replaced_or_kept(before.connectable, incoming.connectable, after.connectable)
    &&& match incoming.protocol_identity {
        Some(identity) => after.protocol_identity == Some(identity@),
        None => after.protocol_identity == before.protocol_identity,
    }
    &&& forall|uuid: Seq<char>| #[trigger]
        after.service_uuids.contains(uuid) <==> before.service_uuids.contains(uuid) || lists(
            incoming.service_uuids@,
            uuid,
        )
    &&& forall|id: u16| #[trigger]
        after.manufacturer_data.contains_key(id) <==> before.manufacturer_data.contains_key(id)
            || manufacturer_named(incoming.manufacturer_data@, id)
    &&& forall|id: u16|
        #![trigger after.manufacturer_data[id]]
        manufacturer_named(incoming.manufacturer_data@, id) ==> manufacturer_says(
            incoming.manufacturer_data@,
            id,
            after.manufacturer_data[id],
        )
    &&& forall|id: u16|
        #![trigger after.manufacturer_data[id]]
        before.manufacturer_data.contains_key(id) && !manufacturer_named(
            incoming.manufacturer_data@,
            id,
        ) ==> after.manufacturer_data[id] == before.manufacturer_data[id]
    &&& forall|uuid: Seq<char>| #[trigger]
        after.service_data.contains_key(uuid) <==> before.service_data.contains_key(uuid)
            || service_named(incoming.service_data@, uuid)
    &&& forall|uuid: Seq<char>|
        #![trigger after.service_data[uuid]]
        service_named(incoming.service_data@, uuid) ==> service_says(
            incoming.service_data@,
            uuid,
            after.service_data[uuid],
        )
    &&& forall|uuid: Seq<char>|
        #![trigger after.service_data[uuid]]
        before.service_data.contains_key(uuid) && !service_named(incoming.service_data@, uuid)
            ==> after.service_data[uuid] == before.service_data[uuid]
}

/// What an advertisement says, read item by item.
proof fn lemma_view_by_item(raw: RawAdvertisement)
    ensures
        forall|uuid: Seq<char>| #[trigger]
            raw@.service_uuids.contains(uuid) <==> lists(raw.service_uuids@, uuid),
        forall|id: u16| #[trigger]
            raw@.manufacturer_data.contains_key(id) <==> manufacturer_named(
                raw.manufacturer_data@,
                id,
            ),
        forall|id: u16, data: Seq<u8>| #[trigger]
            manufacturer_says(raw.manufacturer_data@, id, data)
                <==> raw@.manufacturer_data.contains_key(id) && raw@.manufacturer_data[id] == data,
        forall|uuid: Seq<char>| #[trigger]
            raw@.service_data.contains_key(uuid) <==> service_named(raw.service_data@, uuid),
        forall|uuid: Seq<char>, data: Seq<u8>| #[trigger]
            service_says(raw.service_data@, uuid, data) <==> raw@.service_data.contains_key(uuid)
                && raw@.service_data[uuid] == data,
{
    assert forall|uuid: Seq<char>| #[trigger] raw@.service_uuids.contains(uuid) <==> lists(
        raw.service_uuids@,
        uuid,
    ) by {
        law_string_list_is_read_by_item(raw.service_uuids, uuid);
    }
    assert forall|id: u16| #[trigger] raw@.manufacturer_data.contains_key(id)
        <==> manufacturer_named(raw.manufacturer_data@, id) by {
        law_manufacturer_list_is_read_by_item(raw.manufacturer_data, id, seq![]);
    }
    assert forall|id: u16, data: Seq<u8>| #[trigger]
        manufacturer_says(raw.manufacturer_data@, id, data)
            <==> raw@.manufacturer_data.contains_key(id) && raw@.manufacturer_data[id] == data by {
        law_manufacturer_list_is_read_by_item(raw.manufacturer_data, id, data);
    }
    assert forall|uuid: Seq<char>| #[trigger] raw@.service_data.contains_key(uuid)
        <==> service_named(raw.service_data@, uuid) by {
        law_service_list_is_read_by_item(raw.service_data, uuid, seq![]);
    }
    assert forall|uuid: Seq<char>, data: Seq<u8>| #[trigger]
        service_says(raw.service_data@, uuid, data) <==> raw@.service_data.contains_key(uuid)
            && raw@.service_data[uuid] == data by {
        law_service_list_is_read_by_item(raw.service_data, uuid, data);
    }
}

/// The merge of an advertisement of a device that is known: each field that it leaves
/// out is exactly as before, and what it says is taken over. Other devices are not
/// touched.
#[verifier::rlimit(40)]
pub proof fn law_merge_replaces_what_is_said_and_keeps_the_rest(
    set: &mut AdvertisementSet,
    incoming: RawAdvertisement,
    key: Seq<char>,
)
    requires
        call_ensures(AdvertisementSet::merge, (set, incoming), ()),
        old(set)@.contains_key(key),
    ensures
        final(set)@.contains_key(key),
        small_form(incoming.address@, key) ==> took_in(
            old(set)@[key],
            incoming,
            final(set)@[key],
        ),
        !small_form(incoming.address@, key) ==> final(set)@[key] == old(set)@[key],
{
    law_lower_case_is_the_small_form(incoming.address@, key);
    lemma_view_by_item(incoming);
}

/// The merge of an advertisement of a device that is not known: the device is then
/// known, by what the advertisement says and nothing else. No other device becomes
/// known.
#[verifier::rlimit(40)]
pub proof fn law_merge_of_a_new_device_takes_what_is_said(
    set: &mut AdvertisementSet,
    incoming: RawAdvertisement,
    key: Seq<char>,
)
    requires
        call_ensures(AdvertisementSet::merge, (set, incoming), ()),
        !old(set)@.contains_key(key),
    ensures
        final(set)@.contains_key(key) <==> small_form(incoming.address@, key),
        small_form(incoming.address@, key) ==> {
            let known: AdvertisementView = final(set)@[key];
            &&& known.address == incoming.address@
            &&& known.address_type == incoming.address_type
            &&& known.local_name is Some <==> incoming.local_name is Some
            &&& incoming.local_name matches Some(name) ==> known.local_name == Some(name@)
            &&& known.rssi_dbm == incoming.rssi_dbm
            &&& known.tx_power_dbm == incoming.tx_power_dbm
            &&& known.connectable == incoming.connectable
            &&& known.protocol_identity is Some <==> incoming.protocol_identity is Some
            &&& incoming.protocol_identity matches Some(identity) ==> known.protocol_identity
                == Some(identity@)
            &&& forall|uuid: Seq<char>| #[trigger]
                known.service_uuids.contains(uuid) <==> lists(incoming.service_uuids@, uuid)
            &&& forall|id: u16| #[trigger]
                known.manufacturer_data.contains_key(id) <==> manufacturer_named(
                    incoming.manufacturer_data@,
                    id,
                )
            &&& forall|id: u16|
                #![trigger known.manufacturer_data[id]]
                manufacturer_named(incoming.manufacturer_data@, id) ==> manufacturer_says(
                    incoming.manufacturer_data@,
                    id,
                    known.manufacturer_data[id],
                )
            &&& forall|uuid: Seq<char>| #[trigger]
                known.service_data.contains_key(uuid) <==> service_named(
                    incoming.service_data@,
                    uuid,
                )
            &&& forall|uuid: Seq<char>|
                #![trigger known.service_data[uuid]]
                service_named(incoming.service_data@, uuid) ==> service_says(
                    incoming.service_data@,
                    uuid,
                    known.service_data[uuid],
                )
        },
{
    law_lower_case_is_the_small_form(incoming.address@, key);
    lemma_view_by_item(incoming);
}

/// What several advertisements say, in the order in which they were heard.
pub open spec fn said(heard: Seq<RawAdvertisement>) -> Seq<AdvertisementView> {
    Seq::new(heard.len(), |i: int| heard[i]@)
}

/// The advertisement at a place is of the device with an address.
pub open spec fn of_device_at(
    heard: Seq<RawAdvertisement>,
    address: Seq<char>,
    i: int,
) -> bool {
    0 <= i < heard.len() && same_but_for_case(heard[i].address@, address)
}

/// The value of a field is the one that the last advertisement of a device to carry it
/// carried, and is missing exactly if none carried it.
pub open spec fn newest<A>(
    heard: Seq<RawAdvertisement>,
    address: Seq<char>,
    field: spec_fn(RawAdvertisement) -> Option<A>,
    value: Option<A>,
) -> bool {
    match value {
        None => forall|i: int| #[trigger]
            of_device_at(heard, address, i) ==> field(heard[i]) is None,
        Some(_) => exists|i: int| #[trigger]
            of_device_at(heard, address, i) && field(heard[i]) == value && forall|j: int|
                i < j && #[trigger] of_device_at(heard, address, j) ==> field(heard[j]) is None,
    }
}

proof fn lemma_newest_push<A>(
    heard: Seq<RawAdvertisement>,
    address: Seq<char>,
    field: spec_fn(RawAdvertisement) -> Option<A>,
    value: Option<A>,
)
    requires
        heard.len() > 0,
        newest(heard.drop_last(), address, field, value),
    ensures
        !same_but_for_case(heard.last().address@, address) ==> newest(
            heard,
            address,
            field,
            value,
        ),
        same_but_for_case(heard.last().address@, address) ==> newest(
            heard,
            address,
            field,
            if field(heard.last()) is Some {
                field(heard.last())
            } else {
                value
            },
        ),
{
    let front: Seq<RawAdvertisement> = heard.drop_last();
    let last: int = heard.len() - 1;
    let this: bool = same_but_for_case(heard.last().address@, address);
    assert forall|i: int| i != last implies #[trigger] of_device_at(heard, address, i)
        == of_device_at(front, address, i) by {
        if 0 <= i < last {
            assert(front[i] == heard[i]);
        }
    }
    assert(of_device_at(heard, address, last) == this);
    if this && field(heard.last()) is Some {
        assert(of_device_at(heard, address, last) && field(heard[last]) == field(heard.last()));
    } else {
        match value {
            None => {
                assert forall|i: int| #[trigger] of_device_at(heard, address, i) implies field(
                    heard[i],
                ) is None by {
                    if i != last {
                        assert(of_device_at(front, address, i));
                        assert(front[i] == heard[i]);
                    }
                }
            },
            Some(_) => {
                let i: int = choose|i: int| #[trigger]
                    of_device_at(front, address, i) && field(front[i]) == value && forall|j: int|
                        i < j && #[trigger] of_device_at(front, address, j) ==> field(
                            front[j],
                        ) is None;
                assert(of_device_at(heard, address, i) && heard[i] == front[i]);
                assert forall|j: int|
                    i < j && #[trigger] of_device_at(heard, address, j) implies field(
                    heard[j],
                ) is None by {
                    if j != last {
                        assert(of_device_at(front, address, j));
                        assert(front[j] == heard[j]);
                    }
                }
            },
        }
    }
}

/// The address, which every advertisement carries.
pub open spec fn address_field(raw: RawAdvertisement) -> Option<Seq<char>> {
    Some(raw.address@)
}

/// The kind of the address, where the advertisement tells it.
pub open spec fn address_type_field(raw: RawAdvertisement) -> Option<AddressType> {
    if raw.address_type == AddressType::Unknown {
        None
    } else {
        Some(raw.address_type)
    }
}

/// The content of a text, where it is carried.
pub open spec fn text_field(text: Option<String>) -> Option<Seq<char>> {
    match text {
        Some(text) => Some(text@),
        None => None,
    }
}

/// The data under a key in a list, where the list has the key.
spec fn under<K>(items: Map<K, Seq<u8>>, key: K) -> Option<Seq<u8>> {
    if items.contains_key(key) {
        Some(items[key])
    } else {
        None
    }
}

spec fn member(items: Set<Seq<char>>, item: Seq<char>) -> Option<()> {
    if items.contains(item) {
        Some(())
    } else {
        None
    }
}

/// What is known of a device is the newest of what was heard of it.
spec fn known_from(
    heard: Seq<RawAdvertisement>,
    address: Seq<char>,
    known: AdvertisementView,
) -> bool {
    &&& newest(heard, address, |raw: RawAdvertisement| address_field(raw), Some(known.address))
    &&& newest(
        heard,
        address,
        |raw: RawAdvertisement| address_type_field(raw),
        if known.address_type == AddressType::Unknown {
            None
        } else {
            Some(known.address_type)
        },
    )
    &&& newest(
        heard,
        address,
        |raw: RawAdvertisement| text_field(raw.local_name),
        known.local_name,
    )
    &&& newest(heard, address, |raw: RawAdvertisement| raw.rssi_dbm, known.rssi_dbm)
    &&& newest(heard, address, |raw: RawAdvertisement| raw.tx_power_dbm, known.tx_power_dbm)
    &&& newest(heard, address, |raw: RawAdvertisement| raw.connectable, known.connectable)
    &&& newest(
        heard,
        address,
        |raw: RawAdvertisement| text_field(raw.protocol_identity),
        known.protocol_identity,
    )
    &&& forall|uuid: Seq<char>|
        newest(
            heard,
            address,
            |raw: RawAdvertisement| member(raw@.service_uuids, uuid),
            #[trigger] member(known.service_uuids, uuid),
        )
    &&& forall|id: u16|
        newest(
            heard,
            address,
            |raw: RawAdvertisement| under(raw@.manufacturer_data, id),
            #[trigger] under(known.manufacturer_data, id),
        )
    &&& forall|uuid: Seq<char>|
        newest(
            heard,
            address,
            |raw: RawAdvertisement| under(raw@.service_data, uuid),
            #[trigger] under(known.service_data, uuid),
        )
}

#[verifier::rlimit(40)]
proof fn lemma_absorb_is_newest(
    heard: Seq<RawAdvertisement>,
    address: Seq<char>,
    before: AdvertisementView,
)
    requires
        heard.len() > 0,
        same_but_for_case(heard.last().address@, address),
        known_from(heard.drop_last(), address, before) || (before.address_type
            == AddressType::Unknown && before.local_name is None && before.rssi_dbm is None
            && before.tx_power_dbm is None && before.connectable is None
            && before.protocol_identity is None && before.service_uuids == Set::<Seq<char>>::empty()
            && before.manufacturer_data == Map::<u16, Seq<u8>>::empty() && before.service_data
            == Map::<Seq<char>, Seq<u8>>::empty() && forall|i: int|
            0 <= i < heard.len() - 1 ==> !same_but_for_case(
                (#[trigger] heard[i]).address@,
                address,
            )),
    ensures
        known_from(heard, address, before.absorb(heard.last()@)),
{
    let front: Seq<RawAdvertisement> = heard.drop_last();
    let raw: RawAdvertisement = heard.last();
    let after: AdvertisementView = before.absorb(raw@);
    assert forall|i: int| 0 <= i < front.len() implies #[trigger] front[i] == heard[i] by {}
    let fresh: bool = !known_from(front, address, before);
    if fresh {
        assert forall|i: int| !#[trigger] of_device_at(front, address, i) by {
            if 0 <= i < front.len() {
                assert(front[i] == heard[i]);
            }
        }
    }
    let addresses = |raw: RawAdvertisement| address_field(raw);
    assert(newest(heard, address, addresses, Some(after.address))) by {
        let last: int = heard.len() - 1;
        assert(of_device_at(heard, address, last) && addresses(heard[last]) == Some(
            after.address,
        ));
    }
    let types = |raw: RawAdvertisement| address_type_field(raw);
    lemma_newest_push(
        heard,
        address,
        types,
        if before.address_type == AddressType::Unknown {
            None
        } else {
            Some(before.address_type)
        },
    );
    lemma_newest_push(
        heard,
        address,
        |raw: RawAdvertisement| text_field(raw.local_name),
        before.local_name,
    );
    lemma_newest_push(heard, address, |raw: RawAdvertisement| raw.rssi_dbm, before.rssi_dbm);
    lemma_newest_push(
        heard,
        address,
        |raw: RawAdvertisement| raw.tx_power_dbm,
        before.tx_power_dbm,
    );
    lemma_newest_push(heard, address, |raw: RawAdvertisement| raw.connectable, before.connectable);
    lemma_newest_push(
        heard,
        address,
        |raw: RawAdvertisement| text_field(raw.protocol_identity),
        before.protocol_identity,
    );
    assert forall|uuid: Seq<char>|
        newest(
            heard,
            address,
            |raw: RawAdvertisement| member(raw@.service_uuids, uuid),
            #[trigger] member(after.service_uuids, uuid),
        ) by {
        let f = |raw: RawAdvertisement| member(raw@.service_uuids, uuid);
        assert(newest(front, address, f, member(before.service_uuids, uuid)));
        lemma_newest_push(heard, address, f, member(before.service_uuids, uuid));
    }
    assert forall|id: u16|
        newest(
            heard,
            address,
            |raw: RawAdvertisement| under(raw@.manufacturer_data, id),
            #[trigger] under(after.manufacturer_data, id),
        ) by {
        let f = |raw: RawAdvertisement| under(raw@.manufacturer_data, id);
        assert(newest(front, address, f, under(before.manufacturer_data, id)));
        lemma_newest_push(heard, address, f, under(before.manufacturer_data, id));
    }
    assert forall|uuid: Seq<char>|
        newest(
            heard,
            address,
            |raw: RawAdvertisement| under(raw@.service_data, uuid),
            #[trigger] under(after.service_data, uuid),
        ) by {
        let f = |raw: RawAdvertisement| under(raw@.service_data, uuid);
        assert(newest(front, address, f, under(before.service_data, uuid)));
        lemma_newest_push(heard, address, f, under(before.service_data, uuid));
    }
}

proof fn lemma_known_from(heard: Seq<RawAdvertisement>, address: Seq<char>)
    ensures
        merged_all(Map::empty(), said(heard)).contains_key(ascii_lower(address)) <==> exists|i: int|
            #[trigger] of_device_at(heard, address, i),
        merged_all(Map::empty(), said(heard)).contains_key(ascii_lower(address)) ==> known_from(
            heard,
            address,
            merged_all(Map::empty(), said(heard))[ascii_lower(address)],
        ),
    decreases heard.len(),
{
    let key: Seq<char> = ascii_lower(address);
    if heard.len() > 0 {
        let front: Seq<RawAdvertisement> = heard.drop_last();
        let last: int = heard.len() - 1;
        let before: Map<Seq<char>, AdvertisementView> = merged_all(Map::empty(), said(front));
        let after: Map<Seq<char>, AdvertisementView> = merged_all(Map::empty(), said(heard));
        assert(said(heard).drop_last() =~= said(front));
        assert(said(heard).last() == heard[last]@);
        assert(after == merged(before, heard[last]@));
        lemma_known_from(front, address);
        law_lower_case_forgets_case_only(heard[last].address@, address);
        assert forall|i: int| i != last implies #[trigger] of_device_at(heard, address, i)
            == of_device_at(front, address, i) by {
            if 0 <= i < last {
                assert(front[i] == heard[i]);
            }
        }
        if same_but_for_case(heard[last].address@, address) {
            assert(of_device_at(heard, address, last));
            if before.contains_key(key) {
                lemma_absorb_is_newest(heard, address, before[key]);
            } else {
                assert forall|i: int| 0 <= i < heard.len() - 1 implies !same_but_for_case(
                    (#[trigger] heard[i]).address@,
                    address,
                ) by {
                    assert(!of_device_at(front, address, i));
                    assert(front[i] == heard[i]);
                }
                lemma_absorb_is_newest(
                    heard,
                    address,
                    AdvertisementView::minimal(heard[last].address@),
                );
            }
        } else {
            if after.contains_key(key) {
                let known: AdvertisementView = before[key];
                assert(after[key] == known);
                let i: int = choose|i: int| #[trigger] of_device_at(front, address, i);
                assert(of_device_at(heard, address, i));
                lemma_other_device_is_newest(heard, address, known);
            }
            if exists|i: int| #[trigger] of_device_at(heard, address, i) {
                let i: int = choose|i: int| #[trigger] of_device_at(heard, address, i);
                assert(i != last);
                assert(of_device_at(front, address, i));
            }
        }
    } else {
        assert(said(heard) =~= seq![]);
    }
}

#[verifier::rlimit(40)]
proof fn lemma_other_device_is_newest(
    heard: Seq<RawAdvertisement>,
    address: Seq<char>,
    known: AdvertisementView,
)
    requires
        heard.len() > 0,
        !same_but_for_case(heard.last().address@, address),
        known_from(heard.drop_last(), address, known),
    ensures
        known_from(heard, address, known),
{
    let front: Seq<RawAdvertisement> = heard.drop_last();
    lemma_newest_push(
        heard,
        address,
        |raw: RawAdvertisement| address_field(raw),
        Some(known.address),
    );
    lemma_newest_push(
        heard,
        address,
        |raw: RawAdvertisement| address_type_field(raw),
        if known.address_type == AddressType::Unknown {
            None
        } else {
            Some(known.address_type)
        },
    );
    lemma_newest_push(
        heard,
        address,
        |raw: RawAdvertisement| text_field(raw.local_name),
        known.local_name,
    );
    lemma_newest_push(heard, address, |raw: RawAdvertisement| raw.rssi_dbm, known.rssi_dbm);
    lemma_newest_push(heard, address, |raw: RawAdvertisement| raw.tx_power_dbm, known.tx_power_dbm);
    lemma_newest_push(heard, address, |raw: RawAdvertisement| raw.connectable, known.connectable);
    lemma_newest_push(
        heard,
        address,
        |raw: RawAdvertisement| text_field(raw.protocol_identity),
        known.protocol_identity,
    );
    assert forall|uuid: Seq<char>|
        newest(
            heard,
            address,
            |raw: RawAdvertisement| member(raw@.service_uuids, uuid),
            #[trigger] member(known.service_uuids, uuid),
        ) by {
        let f = |raw: RawAdvertisement| member(raw@.service_uuids, uuid);
        assert(newest(front, address, f, member(known.service_uuids, uuid)));
        lemma_newest_push(heard, address, f, member(known.service_uuids, uuid));
    }
    assert forall|id: u16|
        newest(
            heard,
            address,
            |raw: RawAdvertisement| under(raw@.manufacturer_data, id),
            #[trigger] under(known.manufacturer_data, id),
        ) by {
        let f = |raw: RawAdvertisement| under(raw@.manufacturer_data, id);
        assert(newest(front, address, f, under(known.manufacturer_data, id)));
        lemma_newest_push(heard, address, f, under(known.manufacturer_data, id));
    }
    assert forall|uuid: Seq<char>|
        newest(
            heard,
            address,
            |raw: RawAdvertisement| under(raw@.service_data, uuid),
            #[trigger] under(known.service_data, uuid),
        ) by {
        let f = |raw: RawAdvertisement| under(raw@.service_data, uuid);
        assert(newest(front, address, f, under(known.service_data, uuid)));
        lemma_newest_push(heard, address, f, under(known.service_data, uuid));
    }
}

/// A service UUID was heard from a device.
pub open spec fn uuid_heard(
    heard: Seq<RawAdvertisement>,
    address: Seq<char>,
    uuid: Seq<char>,
) -> bool {
    exists|i: int| #[trigger]
        of_device_at(heard, address, i) && lists(heard[i].service_uuids@, uuid)
}

/// The last advertisement of a device to name a company number had this data under it.
pub open spec fn manufacturer_heard(
    heard: Seq<RawAdvertisement>,
    address: Seq<char>,
    id: u16,
    data: Seq<u8>,
) -> bool {
    exists|i: int| #[trigger]
        of_device_at(heard, address, i) && manufacturer_says(heard[i].manufacturer_data@, id, data)
            && forall|j: int|
            i < j && #[trigger] of_device_at(heard, address, j) ==> !manufacturer_named(
                heard[j].manufacturer_data@,
                id,
            )
}

/// The last advertisement of a device to name a service in its data had this data for it.
pub open spec fn service_heard(
    heard: Seq<RawAdvertisement>,
    address: Seq<char>,
    uuid: Seq<char>,
    data: Seq<u8>,
) -> bool {
    exists|i: int| #[trigger]
        of_device_at(heard, address, i) && service_says(heard[i].service_data@, uuid, data)
            && forall|j: int|
            i < j && #[trigger] of_device_at(heard, address, j) ==> !service_named(
                heard[j].service_data@,
                uuid,
            )
}

/// A reported advertisement says no more and no less than what was heard of its device:
/// each field is the newest one that was heard, and missing exactly if none was; each
/// list holds what was heard, in order.
pub open spec fn tells_device(heard: Seq<RawAdvertisement>, item: Advertisement) -> bool {
    let address: Seq<char> = item.address@;
    &&& newest(heard, address, |raw: RawAdvertisement| address_field(raw), Some(address))
    &&& newest(
        heard,
        address,
        |raw: RawAdvertisement| address_type_field(raw),
        if item.address_type == AddressType::Unknown {
            None
        } else {
            Some(item.address_type)
        },
    )
    &&& newest(
        heard,
        address,
        |raw: RawAdvertisement| text_field(raw.local_name),
        text_field(item.local_name),
    )
    &&& newest(heard, address, |raw: RawAdvertisement| raw.rssi_dbm, Some(item.rssi_dbm))
    &&& newest(heard, address, |raw: RawAdvertisement| raw.tx_power_dbm, item.tx_power_dbm)
    &&& newest(heard, address, |raw: RawAdvertisement| raw.connectable, item.connectable)
    &&& newest(
        heard,
        address,
        |raw: RawAdvertisement| text_field(raw.protocol_identity),
        text_field(item.protocol_identity),
    )
    &&& forall|uuid: Seq<char>| #[trigger]
        lists(item.service_uuids@, uuid) <==> uuid_heard(heard, address, uuid)
    &&& strings_in_order(item.service_uuids@)
    &&& forall|id: u16, data: Seq<u8>| #[trigger]
        manufacturer_says(item.manufacturer_data@, id, data) <==> manufacturer_heard(
            heard,
            address,
            id,
            data,
        )
    &&& manufacturer_in_order(item.manufacturer_data@)
    &&& forall|uuid: Seq<char>, data: Seq<u8>| #[trigger]
        service_says(item.service_data@, uuid, data) <==> service_heard(heard, address, uuid, data)
    &&& service_in_order(item.service_data@)
}

/// A device, given by its address in small letters, was heard but never with a signal
/// strength.
pub open spec fn heard_without_rssi(heard: Seq<RawAdvertisement>, key: Seq<char>) -> bool {
    &&& exists|i: int|
        0 <= i < heard.len() && small_form((#[trigger] heard[i]).address@, key)
    &&& forall|i: int|
        0 <= i < heard.len() && small_form((#[trigger] heard[i]).address@, key)
            ==> heard[i].rssi_dbm is None
}

/// A list of advertisements and a number of skipped devices tell what was heard: each
/// device that was heard with a signal strength is told of, once, in the order of the
/// addresses, and the others are counted.
pub open spec fn tells(
    heard: Seq<RawAdvertisement>,
    advertisements: Seq<Advertisement>,
    skipped: int,
) -> bool {
    &&& forall|i: int|
        0 <= i < advertisements.len() ==> tells_device(heard, #[trigger] advertisements[i])
    &&& forall|i: int, j: int|
        0 <= i < j < advertisements.len() ==> comes_before(
            encode_utf8((#[trigger] advertisements[i]).address@),
            encode_utf8((#[trigger] advertisements[j]).address@),
        ) && !same_but_for_case(advertisements[i].address@, advertisements[j].address@)
    &&& forall|k: int|
        0 <= k < heard.len() && (#[trigger] heard[k]).rssi_dbm is Some ==> exists|i: int|
            0 <= i < advertisements.len() && same_but_for_case(
                (#[trigger] advertisements[i]).address@,
                heard[k].address@,
            )
    &&& exists|silent: Set<Seq<char>>|
        silent.finite() && silent.len() == skipped && forall|key: Seq<char>| #[trigger]
            silent.contains(key) <==> heard_without_rssi(heard, key)
}

#[verifier::rlimit(40)]
proof fn lemma_reports_tell(
    heard: Seq<RawAdvertisement>,
    item: Advertisement,
    known: AdvertisementView,
)
    requires
        known_from(heard, item.address@, known),
        reports(item, known),
    ensures
        tells_device(heard, item),
{
    let address: Seq<char> = item.address@;
    law_ascending_strings_are_in_order(item.service_uuids);
    law_ascending_manufacturer_data_are_in_order(item.manufacturer_data);
    law_ascending_service_data_are_in_order(item.service_data);
    assert forall|uuid: Seq<char>| #[trigger] lists(item.service_uuids@, uuid) <==> uuid_heard(
        heard,
        address,
        uuid,
    ) by {
        law_string_list_is_read_by_item(item.service_uuids, uuid);
        let f = |raw: RawAdvertisement| member(raw@.service_uuids, uuid);
        assert(newest(heard, address, f, member(known.service_uuids, uuid)));
        if known.service_uuids.contains(uuid) {
            let i: int = choose|i: int| #[trigger]
                of_device_at(heard, address, i) && f(heard[i]) == Some(());
            lemma_view_by_item(heard[i]);
            assert(heard[i]@.service_uuids.contains(uuid));
        }
        if uuid_heard(heard, address, uuid) {
            let i: int = choose|i: int| #[trigger]
                of_device_at(heard, address, i) && lists(heard[i].service_uuids@, uuid);
            lemma_view_by_item(heard[i]);
            assert(heard[i]@.service_uuids.contains(uuid));
            assert(f(heard[i]) == Some(()));
        }
    }
    assert forall|id: u16, data: Seq<u8>| #[trigger]
        manufacturer_says(item.manufacturer_data@, id, data) <==> manufacturer_heard(
            heard,
            address,
            id,
            data,
        ) by {
        law_manufacturer_list_is_read_by_item(item.manufacturer_data, id, data);
        let f = |raw: RawAdvertisement| under(raw@.manufacturer_data, id);
        let value: Option<Seq<u8>> = under(known.manufacturer_data, id);
        assert(newest(heard, address, f, value));
        assert forall|j: int| #[trigger] of_device_at(heard, address, j) implies (f(
            heard[j],
        ) is None <==> !manufacturer_named(heard[j].manufacturer_data@, id)) && (f(heard[j]) == Some(
            data,
        ) <==> manufacturer_says(heard[j].manufacturer_data@, id, data)) by {
            law_manufacturer_list_is_read_by_item(heard[j].manufacturer_data, id, data);
        }
        lemma_newest_is_unique(heard, address, f, value, data);
        if value == Some(data) {
            let i: int = choose|i: int| #[trigger]
                of_device_at(heard, address, i) && f(heard[i]) == value && forall|j: int|
                    i < j && #[trigger] of_device_at(heard, address, j) ==> f(heard[j]) is None;
            assert(manufacturer_says(heard[i].manufacturer_data@, id, data));
            assert(manufacturer_heard(heard, address, id, data));
        }
        if manufacturer_heard(heard, address, id, data) {
            let i: int = choose|i: int| #[trigger]
                of_device_at(heard, address, i) && manufacturer_says(
                    heard[i].manufacturer_data@,
                    id,
                    data,
                ) && forall|j: int|
                    i < j && #[trigger] of_device_at(heard, address, j) ==> !manufacturer_named(
                        heard[j].manufacturer_data@,
                        id,
                    );
            assert(f(heard[i]) == Some(data));
            assert(newest(heard, address, f, Some(data)));
        }
    }
    assert forall|uuid: Seq<char>, data: Seq<u8>| #[trigger]
        service_says(item.service_data@, uuid, data) <==> service_heard(
            heard,
            address,
            uuid,
            data,
        ) by {
        law_service_list_is_read_by_item(item.service_data, uuid, data);
        let f = |raw: RawAdvertisement| under(raw@.service_data, uuid);
        let value: Option<Seq<u8>> = under(known.service_data, uuid);
        assert(newest(heard, address, f, value));
        assert forall|j: int| #[trigger] of_device_at(heard, address, j) implies (f(
            heard[j],
        ) is None <==> !service_named(heard[j].service_data@, uuid)) && (f(heard[j]) == Some(data)
            <==> service_says(heard[j].service_data@, uuid, data)) by {
            law_service_list_is_read_by_item(heard[j].service_data, uuid, data);
        }
        lemma_newest_is_unique(heard, address, f, value, data);
        if value == Some(data) {
            let i: int = choose|i: int| #[trigger]
                of_device_at(heard, address, i) && f(heard[i]) == value && forall|j: int|
                    i < j && #[trigger] of_device_at(heard, address, j) ==> f(heard[j]) is None;
            assert(service_says(heard[i].service_data@, uuid, data));
            assert(service_heard(heard, address, uuid, data));
        }
        if service_heard(heard, address, uuid, data) {
            let i: int = choose|i: int| #[trigger]
                of_device_at(heard, address, i) && service_says(heard[i].service_data@, uuid, data)
                    && forall|j: int|
                    i < j && #[trigger] of_device_at(heard, address, j) ==> !service_named(
                        heard[j].service_data@,
                        uuid,
                    );
            assert(f(heard[i]) == Some(data));
            assert(newest(heard, address, f, Some(data)));
        }
    }
}

proof fn lemma_newest_is_unique(
    heard: Seq<RawAdvertisement>,
    address: Seq<char>,
    field: spec_fn(RawAdvertisement) -> Option<Seq<u8>>,
    value: Option<Seq<u8>>,
    data: Seq<u8>,
)
    requires
        newest(heard, address, field, value),
    ensures
        newest(heard, address, field, Some(data)) ==> value == Some(data),
{
    if newest(heard, address, field, Some(data)) {
        let i: int = choose|i: int| #[trigger]
            of_device_at(heard, address, i) && field(heard[i]) == Some(data) && forall|j: int|
                i < j && #[trigger] of_device_at(heard, address, j) ==> field(heard[j]) is None;
        if value is Some {
            let k: int = choose|k: int| #[trigger]
                of_device_at(heard, address, k) && field(heard[k]) == value && forall|j: int|
                    k < j && #[trigger] of_device_at(heard, address, j) ==> field(heard[j]) is None;
            assert(i == k);
        }
    }
}

/// A finished scan tells what was heard.
#[verifier::rlimit(40)]
pub proof fn law_finished_scan_tells_what_was_heard(
    heard: Seq<RawAdvertisement>,
    advertisements: Seq<Advertisement>,
    skipped: int,
)
    requires
        finished(merged_all(Map::empty(), said(heard)), advertisements, skipped),
    ensures
        tells(heard, advertisements, skipped),
{
    let set: Map<Seq<char>, AdvertisementView> = merged_all(Map::empty(), said(heard));
    assert forall|i: int| 0 <= i < advertisements.len() implies tells_device(
        heard,
        #[trigger] advertisements[i],
    ) by {
        let item: Advertisement = advertisements[i];
        let key: Seq<char> = ascii_lower(item.address@);
        assert(set.contains_key(key) && reports(item, set[key]));
        lemma_known_from(heard, item.address@);
        lemma_reports_tell(heard, item, set[key]);
    }
    assert forall|i: int, j: int| 0 <= i < j < advertisements.len() implies comes_before(
        encode_utf8((#[trigger] advertisements[i]).address@),
        encode_utf8((#[trigger] advertisements[j]).address@),
    ) && !same_but_for_case(advertisements[i].address@, advertisements[j].address@) by {
        let a: Seq<char> = advertisements[i].address@;
        let b: Seq<char> = advertisements[j].address@;
        assert(text_less(a, b));
        law_first_difference_decides(encode_utf8(a), encode_utf8(b));
        law_lower_case_forgets_case_only(a, b);
        if same_but_for_case(a, b) {
            assert(reports(advertisements[i], set[ascii_lower(a)]));
            assert(reports(advertisements[j], set[ascii_lower(b)]));
            crate::text::law_text_order(a, a, a);
        }
    }
    assert forall|k: int|
        0 <= k < heard.len() && (#[trigger] heard[k]).rssi_dbm is Some implies exists|i: int|
        0 <= i < advertisements.len() && same_but_for_case(
            (#[trigger] advertisements[i]).address@,
            heard[k].address@,
        ) by {
        let address: Seq<char> = heard[k].address@;
        let key: Seq<char> = ascii_lower(address);
        lemma_known_from(heard, address);
        law_lower_case_forgets_case_only(address, address);
        assert(of_device_at(heard, address, k));
        let f = |raw: RawAdvertisement| raw.rssi_dbm;
        assert(newest(heard, address, f, set[key].rssi_dbm));
        assert(f(heard[k]) is Some);
        let i: int = choose|i: int|
            0 <= i < advertisements.len() && ascii_lower((#[trigger] advertisements[i]).address@)
                == key;
        law_lower_case_forgets_case_only(advertisements[i].address@, address);
    }
    law_skipped_devices_have_no_signal_strength(set, advertisements, skipped);
    let silent: Set<Seq<char>> = set.dom().filter(|key: Seq<char>| set[key].rssi_dbm is None);
    assert forall|key: Seq<char>| #[trigger] silent.contains(key) <==> heard_without_rssi(
        heard,
        key,
    ) by {
        lemma_silent(heard, key);
    }
}

#[verifier::rlimit(40)]
proof fn lemma_silent(heard: Seq<RawAdvertisement>, key: Seq<char>)
    ensures
        ({
            let set: Map<Seq<char>, AdvertisementView> = merged_all(Map::empty(), said(heard));
            heard_without_rssi(heard, key) <==> set.contains_key(key) && set[key].rssi_dbm is None
        }),
{
    let set: Map<Seq<char>, AdvertisementView> = merged_all(Map::empty(), said(heard));
    crate::advertisement::law_sets_are_keyed_by_address(Map::empty(), said(heard));
    let f = |raw: RawAdvertisement| raw.rssi_dbm;
    if exists|i: int| 0 <= i < heard.len() && small_form((#[trigger] heard[i]).address@, key) {
        let i: int = choose|i: int|
            0 <= i < heard.len() && small_form((#[trigger] heard[i]).address@, key);
        let address: Seq<char> = heard[i].address@;
        law_lower_case_is_the_small_form(address, key);
        lemma_known_from(heard, address);
        law_lower_case_forgets_case_only(address, address);
        assert(of_device_at(heard, address, i));
        assert(newest(heard, address, f, set[key].rssi_dbm));
        assert forall|j: int| 0 <= j < heard.len() implies of_device_at(heard, address, j)
            == small_form((#[trigger] heard[j]).address@, key) by {
            law_lower_case_is_the_small_form(heard[j].address@, key);
            law_lower_case_forgets_case_only(heard[j].address@, address);
        }
        if set[key].rssi_dbm is None {
            assert forall|j: int|
                0 <= j < heard.len() && small_form((#[trigger] heard[j]).address@, key) implies
                heard[j].rssi_dbm is None by {
                assert(of_device_at(heard, address, j));
                assert(f(heard[j]) is None);
            }
        } else {
            let j: int = choose|j: int| #[trigger]
                of_device_at(heard, address, j) && f(heard[j]) == set[key].rssi_dbm;
            assert(small_form(heard[j].address@, key));
        }
    } else if set.contains_key(key) {
        let address: Seq<char> = set[key].address;
        assert(key == ascii_lower(address));
        lemma_known_from(heard, address);
        let i: int = choose|i: int| #[trigger] of_device_at(heard, address, i);
        law_lower_case_forgets_case_only(heard[i].address@, address);
        law_lower_case_is_the_small_form(heard[i].address@, key);
        assert(small_form(heard[i].address@, key));
    }
}

/// A set that took in what was heard tells it in the end.
pub proof fn law_finish_tells_what_was_heard(
    heard: Seq<RawAdvertisement>,
    set: AdvertisementSet,
    result: (Vec<Advertisement>, usize),
)
    requires
        set@ == merged_all(Map::empty(), said(heard)),
        call_ensures(AdvertisementSet::finish, (set,), result),
    ensures
        tells(heard, result.0@, result.1 as int),
{
    law_finished_scan_tells_what_was_heard(heard, result.0@, result.1 as int);
}

/// A set that took in what was heard has, after one more advertisement, taken in that
/// too.
pub proof fn law_merge_takes_in_what_is_heard(
    heard: Seq<RawAdvertisement>,
    set: &mut AdvertisementSet,
    incoming: RawAdvertisement,
)
    requires
        old(set)@ == merged_all(Map::empty(), said(heard)),
        call_ensures(AdvertisementSet::merge, (set, incoming), ()),
    ensures
        final(set)@ == merged_all(Map::empty(), said(heard.push(incoming))),
{
    lemma_said_push(heard, incoming);
}

/// One more advertisement is merged last.
pub proof fn lemma_said_push(heard: Seq<RawAdvertisement>, incoming: RawAdvertisement)
    ensures
        merged_all(Map::empty(), said(heard.push(incoming))) == merged(
            merged_all(Map::empty(), said(heard)),
            incoming@,
        ),
{
    let all: Seq<AdvertisementView> = said(heard.push(incoming));
    assert(all.drop_last() =~= said(heard));
    assert(all.last() == incoming@);
}

/// A new set has taken in nothing.
pub proof fn law_new_sets_have_heard_nothing(set: AdvertisementSet)
    requires
        call_ensures(<AdvertisementSet as Default>::default, (), set),
    ensures
        set@ == merged_all(Map::empty(), said(seq![])),
{
    assert(said(seq![]) =~= seq![]);
}

/// The report of a scan tells what was heard.
pub proof fn law_report_tells_what_was_heard(
    heard: Seq<RawAdvertisement>,
    report: ScanReport,
    elapsed: Duration,
)
    requires
        report.of_scan(merged_all(Map::empty(), said(heard)), elapsed),
    ensures
        tells(heard, report.advertisements@, report.skipped_without_rssi as int),
{
    law_finished_scan_tells_what_was_heard(
        heard,
        report.advertisements@,
        report.skipped_without_rssi as int,
    );
}

/// An advertisement with nothing but an address says nothing else.
pub proof fn law_minimal_says_the_address_only(address: &str, raw: RawAdvertisement)
    requires
        call_ensures(RawAdvertisement::minimal::<&str>, (address,), raw),
    ensures
        raw.address@ == address@,
        raw.address_type == AddressType::Unknown,
        raw.local_name is None,
        raw.rssi_dbm is None,
        raw.tx_power_dbm is None,
        raw.connectable is None,
        forall|uuid: Seq<char>| !#[trigger] lists(raw.service_uuids@, uuid),
        forall|id: u16| !#[trigger] manufacturer_named(raw.manufacturer_data@, id),
        forall|uuid: Seq<char>| !#[trigger] service_named(raw.service_data@, uuid),
        raw.protocol_identity is None,
{
    lemma_view_by_item(raw);
    assert forall|uuid: Seq<char>| !#[trigger] lists(raw.service_uuids@, uuid) by {
        assert(!raw@.service_uuids.contains(uuid));
    }
    assert forall|id: u16| !#[trigger] manufacturer_named(raw.manufacturer_data@, id) by {
        assert(!raw@.manufacturer_data.contains_key(id));
    }
    assert forall|uuid: Seq<char>| !#[trigger] service_named(raw.service_data@, uuid) by {
        assert(!raw@.service_data.contains_key(uuid));
    }
}

} // verus!
