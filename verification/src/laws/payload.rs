//! Laws of the lists of an advertisement: what a merged list holds, and where.

use crate::laws::text::{comes_before, law_first_difference_decides};
use crate::payload::{
    ids_ascending, keys_ascending, last_wins, merge_manufacturer_data, merge_service_data,
    union_strings, ManufacturerData, ServiceData,
};
use crate::text::text_less;
use vstd::prelude::*;
use vstd::utf8::*;

verus! {

/// The item of a list at a place is the last one under a key.
pub open spec fn last_under<K, V>(items: Seq<(K, V)>, key: K, at: int) -> bool {
    &&& 0 <= at < items.len()
    &&& items[at].0 == key
    &&& forall|later: int| at < later < items.len() ==> (#[trigger] items[later]).0 != key
}

/// Of the items of a list under one key the last counts, and keys that no item has are
/// not there.
pub proof fn law_last_item_under_a_key_counts<K, V>(items: Seq<(K, V)>, key: K)
    ensures
        last_wins(items).contains_key(key) <==> exists|i: int|
            0 <= i < items.len() && (#[trigger] items[i]).0 == key,
        last_wins(items).contains_key(key) ==> exists|i: int| #[trigger]
            last_under(items, key, i) && last_wins(items)[key] == items[i].1,
        forall|i: int| #[trigger]
            last_under(items, key, i) ==> last_wins(items).contains_key(key)
                && last_wins(items)[key] == items[i].1,
    decreases items.len(),
{
    if items.len() > 0 {
        let front: Seq<(K, V)> = items.drop_last();
        let last: int = items.len() - 1;
        law_last_item_under_a_key_counts(front, key);
        if items[last].0 == key {
            assert(last_under(items, key, last));
        } else {
            if last_wins(front).contains_key(key) {
                let i: int = choose|i: int| #[trigger]
                    last_under(front, key, i) && last_wins(front)[key] == front[i].1;
                assert forall|later: int| i < later < items.len() implies (
                #[trigger] items[later]).0 != key by {
                    if later < last {
                        assert(front[later] == items[later]);
                    }
                }
                assert(last_under(items, key, i));
            }
            assert forall|i: int| #[trigger] last_under(items, key, i) implies last_wins(
                items,
            ).contains_key(key) && last_wins(items)[key] == items[i].1 by {
                assert(front[i] == items[i]);
                assert forall|later: int| i < later < front.len() implies (
                #[trigger] front[later]).0 != key by {
                    assert(items[later].0 != key);
                }
                assert(last_under(front, key, i));
            }
            if exists|i: int| 0 <= i < items.len() && (#[trigger] items[i]).0 == key {
                let i: int = choose|i: int| 0 <= i < items.len() && (#[trigger] items[i]).0 == key;
                assert(front[i] == items[i]);
            }
        }
    }
}

/// A string is in a list.
pub open spec fn lists(list: Seq<String>, text: Seq<char>) -> bool {
    exists|i: int| 0 <= i < list.len() && (#[trigger] list[i])@ == text
}

/// The strings come in strictly ascending order of their bytes.
pub open spec fn strings_in_order(list: Seq<String>) -> bool {
    forall|i: int, j: int|
        0 <= i < j < list.len() ==> comes_before(
            encode_utf8((#[trigger] list[i])@),
            encode_utf8((#[trigger] list[j])@),
        )
}

/// The manufacturer data in a list under a company number: that of the last item.
pub open spec fn manufacturer_says(
    list: Seq<ManufacturerData>,
    company_id: u16,
    data: Seq<u8>,
) -> bool {
    exists|i: int| #[trigger] manufacturer_last(list, company_id, i) && list[i].data@ == data
}

/// The item of a list at a place is the last one under a company number.
pub open spec fn manufacturer_last(
    list: Seq<ManufacturerData>,
    company_id: u16,
    at: int,
) -> bool {
    &&& 0 <= at < list.len()
    &&& list[at].company_id == company_id
    &&& forall|later: int|
        at < later < list.len() ==> (#[trigger] list[later]).company_id != company_id
}

/// An item of a list has a company number.
pub open spec fn manufacturer_named(list: Seq<ManufacturerData>, company_id: u16) -> bool {
    exists|i: int| 0 <= i < list.len() && (#[trigger] list[i]).company_id == company_id
}

/// The service data in a list under a UUID: that of the last item.
pub open spec fn service_says(list: Seq<ServiceData>, uuid: Seq<char>, data: Seq<u8>) -> bool {
    exists|i: int| #[trigger] service_last(list, uuid, i) && list[i].data@ == data
}

/// The item of a list at a place is the last one under a UUID.
pub open spec fn service_last(list: Seq<ServiceData>, uuid: Seq<char>, at: int) -> bool {
    &&& 0 <= at < list.len()
    &&& list[at].uuid@ == uuid
    &&& forall|later: int| at < later < list.len() ==> (#[trigger] list[later]).uuid@ != uuid
}

/// An item of a list has a UUID.
pub open spec fn service_named(list: Seq<ServiceData>, uuid: Seq<char>) -> bool {
    exists|i: int| 0 <= i < list.len() && (#[trigger] list[i]).uuid@ == uuid
}

/// What a list of manufacturer data says, read item by item.
pub proof fn law_manufacturer_list_is_read_by_item(
    list: Vec<ManufacturerData>,
    company_id: u16,
    data: Seq<u8>,
)
    ensures
        last_wins(list.deep_view()).contains_key(company_id) <==> manufacturer_named(
            list@,
            company_id,
        ),
        manufacturer_says(list@, company_id, data) <==> last_wins(list.deep_view()).contains_key(
            company_id,
        ) && last_wins(list.deep_view())[company_id] == data,
{
    let items: Seq<(u16, Seq<u8>)> = list.deep_view();
    law_last_item_under_a_key_counts(items, company_id);
    assert forall|i: int| 0 <= i < list@.len() implies #[trigger] items[i] == (
        list@[i].company_id,
        list@[i].data@,
    ) by {}
    if manufacturer_named(list@, company_id) {
        let i: int = choose|i: int|
            0 <= i < list@.len() && (#[trigger] list@[i]).company_id == company_id;
        assert(items[i].0 == company_id);
    }
    if last_wins(items).contains_key(company_id) {
        let i: int = choose|i: int| #[trigger]
            last_under(items, company_id, i) && last_wins(items)[company_id] == items[i].1;
        assert(list@[i].company_id == company_id);
        assert forall|later: int| i < later < list@.len() implies (
        #[trigger] list@[later]).company_id != company_id by {
            assert(items[later].0 != company_id);
        }
        assert(manufacturer_last(list@, company_id, i));
    }
    if manufacturer_says(list@, company_id, data) {
        let i: int = choose|i: int| #[trigger]
            manufacturer_last(list@, company_id, i) && list@[i].data@ == data;
        assert forall|later: int| i < later < items.len() implies (#[trigger] items[later]).0
            != company_id by {
            assert(list@[later].company_id != company_id);
        }
        assert(last_under(items, company_id, i));
    }
}

/// What a list of service data says, read item by item.
pub proof fn law_service_list_is_read_by_item(
    list: Vec<ServiceData>,
    uuid: Seq<char>,
    data: Seq<u8>,
)
    ensures
        last_wins(list.deep_view()).contains_key(uuid) <==> service_named(list@, uuid),
        service_says(list@, uuid, data) <==> last_wins(list.deep_view()).contains_key(uuid)
            && last_wins(list.deep_view())[uuid] == data,
{
    let items: Seq<(Seq<char>, Seq<u8>)> = list.deep_view();
    law_last_item_under_a_key_counts(items, uuid);
    assert forall|i: int| 0 <= i < list@.len() implies #[trigger] items[i] == (
        list@[i].uuid@,
        list@[i].data@,
    ) by {}
    if service_named(list@, uuid) {
        let i: int = choose|i: int| 0 <= i < list@.len() && (#[trigger] list@[i]).uuid@ == uuid;
        assert(items[i].0 == uuid);
    }
    if last_wins(items).contains_key(uuid) {
        let i: int = choose|i: int| #[trigger]
            last_under(items, uuid, i) && last_wins(items)[uuid] == items[i].1;
        assert(list@[i].uuid@ == uuid);
        assert forall|later: int| i < later < list@.len() implies (#[trigger] list@[later]).uuid@
            != uuid by {
            assert(items[later].0 != uuid);
        }
        assert(service_last(list@, uuid, i));
    }
    if service_says(list@, uuid, data) {
        let i: int = choose|i: int| #[trigger]
            service_last(list@, uuid, i) && list@[i].data@ == data;
        assert forall|later: int| i < later < items.len() implies (#[trigger] items[later]).0
            != uuid by {
            assert(list@[later].uuid@ != uuid);
        }
        assert(last_under(items, uuid, i));
    }
}

/// What a list of strings holds, read item by item.
pub proof fn law_string_list_is_read_by_item(list: Vec<String>, text: Seq<char>)
    ensures
        list.deep_view().to_set().contains(text) <==> lists(list@, text),
{
    let texts: Seq<Seq<char>> = list.deep_view();
    if lists(list@, text) {
        let i: int = choose|i: int| 0 <= i < list@.len() && (#[trigger] list@[i])@ == text;
        assert(texts[i] == text);
    }
    if texts.to_set().contains(text) {
        let i: int = choose|i: int| 0 <= i < texts.len() && texts[i] == text;
        assert(list@[i]@ == text);
    }
}

/// Strings in ascending order are so byte by byte.
pub proof fn law_ascending_strings_are_in_order(list: Vec<String>)
    requires
        crate::text::ascending(list.deep_view()),
    ensures
        strings_in_order(list@),
{
    let texts: Seq<Seq<char>> = list.deep_view();
    assert forall|i: int, j: int| 0 <= i < j < list@.len() implies comes_before(
        encode_utf8((#[trigger] list@[i])@),
        encode_utf8((#[trigger] list@[j])@),
    ) by {
        assert(text_less(texts[i], texts[j]));
        law_first_difference_decides(encode_utf8(texts[i]), encode_utf8(texts[j]));
    }
}

/// The company numbers come in strictly ascending order.
pub open spec fn manufacturer_in_order(list: Seq<ManufacturerData>) -> bool {
    forall|i: int, j: int|
        0 <= i < j < list.len() ==> (#[trigger] list[i]).company_id < (
        #[trigger] list[j]).company_id
}

/// Manufacturer data in the order of the company numbers are so item by item.
pub proof fn law_ascending_manufacturer_data_are_in_order(list: Vec<ManufacturerData>)
    requires
        ids_ascending(list.deep_view()),
    ensures
        manufacturer_in_order(list@),
{
    let items: Seq<(u16, Seq<u8>)> = list.deep_view();
    assert forall|i: int, j: int| 0 <= i < j < list@.len() implies (
    #[trigger] list@[i]).company_id < (#[trigger] list@[j]).company_id by {
        assert(items[i].0 < items[j].0);
    }
}

/// The UUIDs come in strictly ascending order of their bytes.
pub open spec fn service_in_order(list: Seq<ServiceData>) -> bool {
    forall|i: int, j: int|
        0 <= i < j < list.len() ==> comes_before(
            encode_utf8((#[trigger] list[i]).uuid@),
            encode_utf8((#[trigger] list[j]).uuid@),
        )
}

/// Service data in the order of the UUIDs are so item by item.
pub proof fn law_ascending_service_data_are_in_order(list: Vec<ServiceData>)
    requires
        keys_ascending(list.deep_view()),
    ensures
        service_in_order(list@),
{
    let items: Seq<(Seq<char>, Seq<u8>)> = list.deep_view();
    assert forall|i: int, j: int| 0 <= i < j < list@.len() implies comes_before(
        encode_utf8((#[trigger] list@[i]).uuid@),
        encode_utf8((#[trigger] list@[j]).uuid@),
    ) by {
        assert(text_less(items[i].0, items[j].0));
        law_first_difference_decides(encode_utf8(items[i].0), encode_utf8(items[j].0));
    }
}

/// A string is in the united list exactly if it was in either, and the list is in
/// order.
pub proof fn law_union_holds_the_strings_of_both(
    target: &mut Vec<String>,
    incoming: Vec<String>,
    text: Seq<char>,
)
    requires
        call_ensures(union_strings, (target, incoming), ()),
    ensures
        lists(final(target)@, text) <==> lists(old(target)@, text) || lists(incoming@, text),
        strings_in_order(final(target)@),
{
    law_string_list_is_read_by_item(*old(target), text);
    law_string_list_is_read_by_item(*final(target), text);
    law_string_list_is_read_by_item(incoming, text);
    law_ascending_strings_are_in_order(*final(target));
}

/// Under a company number the merged list says what the incoming list says, else what
/// the old one said; it names the numbers of both, and is in order.
pub proof fn law_incoming_manufacturer_data_win(
    target: &mut Vec<ManufacturerData>,
    incoming: Vec<ManufacturerData>,
    company_id: u16,
    data: Seq<u8>,
)
    requires
        call_ensures(merge_manufacturer_data, (target, incoming), ()),
    ensures
        manufacturer_named(incoming@, company_id) ==> (manufacturer_says(
            final(target)@,
            company_id,
            data,
        ) <==> manufacturer_says(incoming@, company_id, data)),
        !manufacturer_named(incoming@, company_id) ==> (manufacturer_says(
            final(target)@,
            company_id,
            data,
        ) <==> manufacturer_says(old(target)@, company_id, data)),
        manufacturer_named(final(target)@, company_id) <==> manufacturer_named(
            old(target)@,
            company_id,
        ) || manufacturer_named(incoming@, company_id),
        manufacturer_in_order(final(target)@),
{
    law_manufacturer_list_is_read_by_item(*old(target), company_id, data);
    law_manufacturer_list_is_read_by_item(*final(target), company_id, data);
    law_manufacturer_list_is_read_by_item(incoming, company_id, data);
    law_ascending_manufacturer_data_are_in_order(*final(target));
}

/// Under a UUID the merged list says what the incoming list says, else what the old one
/// said; it names the UUIDs of both, and is in order.
pub proof fn law_incoming_service_data_win(
    target: &mut Vec<ServiceData>,
    incoming: Vec<ServiceData>,
    uuid: Seq<char>,
    data: Seq<u8>,
)
    requires
        call_ensures(merge_service_data, (target, incoming), ()),
    ensures
        service_named(incoming@, uuid) ==> (service_says(final(target)@, uuid, data)
            <==> service_says(incoming@, uuid, data)),
        !service_named(incoming@, uuid) ==> (service_says(final(target)@, uuid, data)
            <==> service_says(old(target)@, uuid, data)),
        service_named(final(target)@, uuid) <==> service_named(old(target)@, uuid)
            || service_named(incoming@, uuid),
        service_in_order(final(target)@),
{
    law_service_list_is_read_by_item(*old(target), uuid, data);
    law_service_list_is_read_by_item(*final(target), uuid, data);
    law_service_list_is_read_by_item(incoming, uuid, data);
    law_ascending_service_data_are_in_order(*final(target));
}

} // verus!
