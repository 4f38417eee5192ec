//! Advertisements as they are received, and the set into which they are merged.

use crate::address::AddressType;
use crate::payload::{
    distinct_keys, ids_ascending, keys_ascending, last_wins, law_ascending_lists_are_unique,
    law_manufacturer_lists_are_unique, law_service_lists_are_unique,
    lemma_keys_ascending_distinct, lemma_last_wins_distinct, lemma_last_wins_insert,
    lemma_last_wins_keys, lemma_last_wins_update, merge_manufacturer_data, merge_service_data,
    union_strings, ManufacturerData, ServiceData,
};
use crate::text::{ascending, ascii_lower, is_lower, law_text_order, str_less, text_less};
use vstd::prelude::*;

verus! {

/// One device's advertisement, as a scan reports it.
#[derive(Debug, Clone, PartialEq, Eq)]
pub struct Advertisement {
    pub address: String,
    pub address_type: AddressType,
    pub local_name: Option<String>,
    pub rssi_dbm: i16,
    pub tx_power_dbm: Option<i16>,
    pub connectable: Option<bool>,
    pub service_uuids: Vec<String>,
    pub manufacturer_data: Vec<ManufacturerData>,
    pub service_data: Vec<ServiceData>,
    /// Stable identity that the platform supplies, when it does.
    pub protocol_identity: Option<String>,
}

/// One advertisement as the platform delivered it: any part may be missing, and
/// the lists come in any order.
#[derive(Debug, Clone)]
pub struct RawAdvertisement {
    pub address: String,
    pub address_type: AddressType,
    pub local_name: Option<String>,
    pub rssi_dbm: Option<i16>,
    pub tx_power_dbm: Option<i16>,
    pub connectable: Option<bool>,
    pub service_uuids: Vec<String>,
    pub manufacturer_data: Vec<ManufacturerData>,
    pub service_data: Vec<ServiceData>,
    pub protocol_identity: Option<String>,
}

/// What an advertisement says, whatever the order of its lists.
pub struct AdvertisementView {
    pub address: Seq<char>,
    pub address_type: AddressType,
    pub local_name: Option<Seq<char>>,
    pub rssi_dbm: Option<i16>,
    pub tx_power_dbm: Option<i16>,
    pub connectable: Option<bool>,
    pub service_uuids: Set<Seq<char>>,
    pub manufacturer_data: Map<u16, Seq<u8>>,
    pub service_data: Map<Seq<char>, Seq<u8>>,
    pub protocol_identity: Option<Seq<char>>,
}

/// The newer value where there is one, else the older.
pub open spec fn newer<A>(older: Option<A>, newer: Option<A>) -> Option<A> {
    if newer is Some {
        newer
    } else {
        older
    }
}

impl AdvertisementView {
    /// An advertisement of which nothing but the address is known.
    pub open spec fn minimal(address: Seq<char>) -> AdvertisementView {
        AdvertisementView {
            address,
            address_type: AddressType::Unknown,
            local_name: None,
            rssi_dbm: None,
            tx_power_dbm: None,
            connectable: None,
            service_uuids: Set::empty(),
            manufacturer_data: Map::empty(),
            service_data: Map::empty(),
            protocol_identity: None,
        }
    }

    /// What is known of a device after one more advertisement from it: what the
    /// advertisement says replaces what was known, and what it leaves out stays.
    pub open spec fn absorb(self, incoming: AdvertisementView) -> AdvertisementView {
        AdvertisementView {
            address: incoming.address,
            address_type: if incoming.address_type == AddressType::Unknown {
                self.address_type
            } else {
                incoming.address_type
            },
            local_name: newer(self.local_name, incoming.local_name),
            rssi_dbm: newer(self.rssi_dbm, incoming.rssi_dbm),
            tx_power_dbm: newer(self.tx_power_dbm, incoming.tx_power_dbm),
            connectable: newer(self.connectable, incoming.connectable),
            service_uuids: self.service_uuids.union(incoming.service_uuids),
            manufacturer_data: self.manufacturer_data.union_prefer_right(
                incoming.manufacturer_data,
            ),
            service_data: self.service_data.union_prefer_right(incoming.service_data),
            protocol_identity: newer(self.protocol_identity, incoming.protocol_identity),
        }
    }
}

impl View for RawAdvertisement {
    type V = AdvertisementView;

    open spec fn view(&self) -> AdvertisementView {
        AdvertisementView {
            address: self.address@,
            address_type: self.address_type,
            local_name: self.local_name.deep_view(),
            rssi_dbm: self.rssi_dbm,
            tx_power_dbm: self.tx_power_dbm,
            connectable: self.connectable,
            service_uuids: self.service_uuids.deep_view().to_set(),
            manufacturer_data: last_wins(self.manufacturer_data.deep_view()),
            service_data: last_wins(self.service_data.deep_view()),
            protocol_identity: self.protocol_identity.deep_view(),
        }
    }
}

impl RawAdvertisement {
    /// An advertisement of which nothing but the address is known.
    pub fn minimal<A: Into<String>>(address: A) -> (raw: Self)
        ensures
            call_ensures(<A as Into<String>>::into, (address,), raw.address),
            raw@ == AdvertisementView::minimal(raw.address@),
    {
        let raw: RawAdvertisement = RawAdvertisement {
            address: address.into(),
            address_type: AddressType::Unknown,
            local_name: None,
            rssi_dbm: None,
            tx_power_dbm: None,
            connectable: None,
            service_uuids: Vec::new(),
            manufacturer_data: Vec::new(),
            service_data: Vec::new(),
            protocol_identity: None,
        };
        assert(raw.service_uuids.deep_view().to_set() =~= Set::<Seq<char>>::empty());
        raw
    }

    /// The lists are in order, each item once.
    pub open spec fn normal(self) -> bool {
        &&& ascending(self.service_uuids.deep_view())
        &&& ids_ascending(self.manufacturer_data.deep_view())
        &&& keys_ascending(self.service_data.deep_view())
    }

    /// Takes in one more advertisement of the same device.
    fn absorb(&mut self, incoming: RawAdvertisement)
        ensures
            final(self)@ == old(self)@.absorb(incoming@),
            final(self).normal(),
    {
        self.address = incoming.address;
        if incoming.address_type != AddressType::Unknown {
            self.address_type = incoming.address_type;
        }
        if incoming.local_name.is_some() {
            self.local_name = incoming.local_name;
        }
        if incoming.rssi_dbm.is_some() {
            self.rssi_dbm = incoming.rssi_dbm;
        }
        if incoming.tx_power_dbm.is_some() {
            self.tx_power_dbm = incoming.tx_power_dbm;
        }
        if incoming.connectable.is_some() {
            self.connectable = incoming.connectable;
        }
        if incoming.protocol_identity.is_some() {
            self.protocol_identity = incoming.protocol_identity;
        }
        union_strings(&mut self.service_uuids, incoming.service_uuids);
        merge_manufacturer_data(&mut self.manufacturer_data, incoming.manufacturer_data);
        merge_service_data(&mut self.service_data, incoming.service_data);
    }
}

/// What is known of one device, and the key under which it is kept: its address
/// in lower case.
#[derive(Debug)]
struct Entry {
    key: String,
    item: RawAdvertisement,
}

/// The advertisements of a scan, one per device. Addresses that differ in the case
/// of their letters only belong to one device.
#[derive(Debug)]
pub struct AdvertisementSet {
    entries: Vec<Entry>,
}

/// The entries as keys and what is known under them.
spec fn pairs(entries: Seq<Entry>) -> Seq<(Seq<char>, AdvertisementView)> {
    Seq::new(entries.len(), |i: int| (entries[i].key@, entries[i].item@))
}

/// The entries are in the order of their keys, and each is in order itself.
spec fn well_formed(entries: Seq<Entry>) -> bool {
    &&& keys_ascending(pairs(entries))
    &&& forall|i: int| 0 <= i < entries.len() ==> #[trigger] entry_well_formed(entries[i])
}

spec fn entry_well_formed(entry: Entry) -> bool {
    &&& entry.key@ == ascii_lower(entry.item.address@)
    &&& entry.item.normal()
}

/// The entries as keys and the advertisements that are kept under them.
spec fn kept(entries: Seq<Entry>) -> Seq<(Seq<char>, RawAdvertisement)> {
    Seq::new(entries.len(), |i: int| (entries[i].key@, entries[i].item))
}

proof fn lemma_well_formed_is_in_order(set: AdvertisementSet)
    requires
        well_formed(set.entries@),
    ensures
        set.in_order(),
        keyed_by_address(set@),
{
    let entries: Seq<Entry> = set.entries@;
    let keyed: Seq<(Seq<char>, AdvertisementView)> = pairs(entries);
    let items: Seq<(Seq<char>, RawAdvertisement)> = kept(entries);
    lemma_keys_ascending_distinct(keyed);
    assert forall|i: int, j: int| 0 <= i < j < items.len() implies items[i].0 != items[j].0 by {
        assert(keyed[i].0 != keyed[j].0);
    }
    lemma_last_wins_distinct(keyed);
    lemma_last_wins_distinct(items);
    assert forall|key: Seq<char>| #[trigger] set.stored().contains_key(key) implies {
        let item: RawAdvertisement = set.stored()[key];
        &&& set@.contains_key(key)
        &&& item@ == set@[key]
        &&& key == ascii_lower(item.address@)
        &&& item.normal()
    } by {
        let i: int = choose|i: int| 0 <= i < items.len() && (#[trigger] items[i]).0 == key;
        assert(keyed[i].0 == key);
        assert(entry_well_formed(entries[i]));
    }
    assert forall|key: Seq<char>| #[trigger]
        set@.contains_key(key) implies set.stored().contains_key(key) by {
        let i: int = choose|i: int| 0 <= i < keyed.len() && (#[trigger] keyed[i]).0 == key;
        assert(items[i].0 == key);
    }
    assert(set.stored().dom() =~= set@.dom());
}

/// What a set of advertisements holds after one more: the advertisement is
/// absorbed by what is known under its address in lower case.
pub open spec fn merged(
    set: Map<Seq<char>, AdvertisementView>,
    incoming: AdvertisementView,
) -> Map<Seq<char>, AdvertisementView> {
    let key: Seq<char> = ascii_lower(incoming.address);
    let known: AdvertisementView = if set.contains_key(key) {
        set[key]
    } else {
        AdvertisementView::minimal(incoming.address)
    };
    set.insert(key, known.absorb(incoming))
}

/// The advertisement reports what is known of a device of which the signal
/// strength is known: every field, with the lists in order and each item once.
pub open spec fn reports(advertisement: Advertisement, known: AdvertisementView) -> bool {
    &&& advertisement.address@ == known.address
    &&& advertisement.address_type == known.address_type
    &&& advertisement.local_name.deep_view() == known.local_name
    &&& known.rssi_dbm == Some(advertisement.rssi_dbm)
    &&& advertisement.tx_power_dbm == known.tx_power_dbm
    &&& advertisement.connectable == known.connectable
    &&& ascending(advertisement.service_uuids.deep_view())
    &&& advertisement.service_uuids.deep_view().to_set() == known.service_uuids
    &&& ids_ascending(advertisement.manufacturer_data.deep_view())
    &&& last_wins(advertisement.manufacturer_data.deep_view()) == known.manufacturer_data
    &&& keys_ascending(advertisement.service_data.deep_view())
    &&& last_wins(advertisement.service_data.deep_view()) == known.service_data
    &&& advertisement.protocol_identity.deep_view() == known.protocol_identity
}

/// The addresses of the advertisements come in strictly ascending order.
pub open spec fn addresses_ascending(advertisements: Seq<Advertisement>) -> bool {
    forall|i: int, j: int|
        0 <= i < j < advertisements.len() ==> text_less(
            advertisements[i].address@,
            advertisements[j].address@,
        )
}

/// What a scan ends with: of finitely many devices those of which the signal strength
/// is known, in the order of their addresses, and the number of the others.
pub open spec fn finished(
    set: Map<Seq<char>, AdvertisementView>,
    advertisements: Seq<Advertisement>,
    skipped: int,
) -> bool {
    &&& addresses_ascending(advertisements)
    &&& forall|i: int|
        0 <= i < advertisements.len() ==> {
            let key: Seq<char> = ascii_lower((#[trigger] advertisements[i]).address@);
            set.contains_key(key) && reports(advertisements[i], set[key])
        }
    &&& forall|key: Seq<char>|
        #[trigger] set.contains_key(key) && set[key].rssi_dbm is Some ==> exists|i: int|
            0 <= i < advertisements.len() && ascii_lower((#[trigger] advertisements[i]).address@)
                == key
    &&& set.dom().finite()
    &&& advertisements.len() + skipped == set.len()
}

impl View for AdvertisementSet {
    type V = Map<Seq<char>, AdvertisementView>;

    /// What is known of each device, under its address in lower case.
    closed spec fn view(&self) -> Map<Seq<char>, AdvertisementView> {
        last_wins(pairs(self.entries@))
    }
}

impl Default for AdvertisementSet {
    fn default() -> (set: Self)
        ensures
            set@ == Map::<Seq<char>, AdvertisementView>::empty(),
            set.in_order(),
            keyed_by_address(set@),
    {
        let set: AdvertisementSet = AdvertisementSet { entries: Vec::new() };
        proof {
            lemma_well_formed_is_in_order(set);
        }
        set
    }
}

impl AdvertisementSet {
    #[verifier::type_invariant]
    spec fn inv(self) -> bool {
        well_formed(self.entries@)
    }

    /// The advertisements that are kept, each under its device's address in lower case.
    pub closed spec fn stored(self) -> Map<Seq<char>, RawAdvertisement> {
        last_wins(kept(self.entries@))
    }

    /// Of each device one advertisement is kept: it says what is known of the device,
    /// and its lists are in order with each item once.
    pub open spec fn in_order(self) -> bool {
        &&& self.stored().dom() == self@.dom()
        &&& forall|key: Seq<char>| #[trigger]
            self.stored().contains_key(key) ==> {
                let item: RawAdvertisement = self.stored()[key];
                &&& item@ == self@[key]
                &&& key == ascii_lower(item.address@)
                &&& item.normal()
            }
    }

    /// Takes in one advertisement. Its lists may be in any order and may repeat items;
    /// what is kept is in order all the same.
    pub fn merge(&mut self, incoming: RawAdvertisement)
        ensures
            final(self)@ == merged(old(self)@, incoming@),
            final(self).in_order(),
            keyed_by_address(final(self)@),
    {
        proof {
            use_type_invariant(&*self);
        }
        let mut entries: Vec<Entry> = Vec::new();
        std::mem::swap(&mut entries, &mut self.entries);
        merge_entry(&mut entries, incoming);
        self.entries = entries;
        proof {
            lemma_well_formed_is_in_order(*self);
        }
    }

    /// The advertisements of the devices of which the signal strength is known, in
    /// the order of their addresses, and the number of the other devices.
    pub fn finish(self) -> (result: (Vec<Advertisement>, usize))
        ensures
            finished(self@, result.0@, result.1 as int),
            self.in_order(),
            keyed_by_address(self@),
    {
        proof {
            use_type_invariant(&self);
            lemma_well_formed_is_in_order(self);
        }
        let entries: Vec<Entry> = self.entries;
        let ghost all: Seq<Entry> = entries@;
        let ghost keyed: Seq<(Seq<char>, AdvertisementView)> = pairs(all);
        let count: usize = entries.len();
        let mut advertisements: Vec<Advertisement> = Vec::with_capacity(count);
        let mut skipped: usize = 0;
        let ghost mut sources: Seq<int> = Seq::empty();
        proof {
            lemma_keys_ascending_distinct(keyed);
            lemma_last_wins_distinct(keyed);
        }
        for entry in it: entries.into_iter()
            invariant
                it.seq() == all,
                count == all.len(),
                well_formed(all),
                keyed == pairs(all),
                distinct_keys(keyed),
                addresses_ascending(advertisements@),
                sources.len() == advertisements@.len(),
                forall|i: int|
                    0 <= i < sources.len() ==> 0 <= #[trigger] sources[i] < it.index() && reports(
                        advertisements@[i],
                        all[sources[i]].item@,
                    ),
                forall|j: int|
                    0 <= j < it.index() && (#[trigger] all[j]).item.rssi_dbm is Some
                        ==> sources.contains(j),
                advertisements@.len() + skipped == it.index(),
        {
            let ghost n: int = it.index() as int;
            let ghost known: AdvertisementView = entry.item@;
            let ghost old_sources: Seq<int> = sources;
            assert(entry_well_formed(all[n]));
            match entry.item.rssi_dbm {
                None => {
                    assert(n < count);
                    skipped += 1;
                },
                Some(rssi_dbm) => {
                    let item: RawAdvertisement = entry.item;
                    let advertisement: Advertisement = Advertisement {
                        address: item.address,
                        address_type: item.address_type,
                        local_name: item.local_name,
                        rssi_dbm,
                        tx_power_dbm: item.tx_power_dbm,
                        connectable: item.connectable,
                        service_uuids: item.service_uuids,
                        manufacturer_data: item.manufacturer_data,
                        service_data: item.service_data,
                        protocol_identity: item.protocol_identity,
                    };
                    assert(reports(advertisement, known));
                    proof {
                        assert forall|i: int| 0 <= i < advertisements@.len() implies (
                        #[trigger] advertisements@[i]).address@ != advertisement.address@ by {
                            assert(entry_well_formed(all[sources[i]]));
                            assert(keyed[sources[i]].0 != keyed[n].0);
                        }
                    }
                    let at: usize = insert_advertisement(&mut advertisements, advertisement);
                    proof {
                        sources = sources.insert(at as int, n);
                        assert(sources[at as int] == n);
                        assert forall|i: int| 0 <= i < sources.len() implies 0
                            <= #[trigger] sources[i] < n + 1 && reports(
                            advertisements@[i],
                            all[sources[i]].item@,
                        ) by {
                            if i < at {
                                assert(sources[i] == old_sources[i]);
                            } else if i > at {
                                assert(sources[i] == old_sources[i - 1]);
                            }
                        }
                        assert forall|j: int|
                            0 <= j < n + 1 && (#[trigger] all[j]).item.rssi_dbm is Some implies
                            sources.contains(j) by {
                            if j < n {
                                let i: int = choose|i: int|
                                    0 <= i < old_sources.len() && old_sources[i] == j;
                                assert(sources[if i < at { i } else { i + 1 }] == j);
                            }
                        }
                    }
                },
            }
        }
        proof {
            assert forall|i: int| 0 <= i < advertisements@.len() implies {
                let key: Seq<char> = ascii_lower((#[trigger] advertisements@[i]).address@);
                self@.contains_key(key) && reports(advertisements@[i], self@[key])
            } by {
                assert(entry_well_formed(all[sources[i]]));
                assert(keyed[sources[i]].0 == all[sources[i]].key@);
            }
            assert forall|key: Seq<char>|
                #[trigger] self@.contains_key(key) && self@[key].rssi_dbm is Some implies exists|
                i: int,
            |
                0 <= i < advertisements@.len() && ascii_lower(
                    (#[trigger] advertisements@[i]).address@,
                ) == key by {
                let j: int = choose|j: int| 0 <= j < keyed.len() && (#[trigger] keyed[j]).0 == key;
                assert(entry_well_formed(all[j]));
                assert(all[j].item.rssi_dbm is Some);
                let i: int = choose|i: int| 0 <= i < sources.len() && sources[i] == j;
                assert(advertisements@[i].address@ == all[j].item.address@);
            }
        }
        (advertisements, skipped)
    }
}

/// Puts an advertisement into its place in a list in the order of the addresses.
fn insert_advertisement(list: &mut Vec<Advertisement>, item: Advertisement) -> (at: usize)
    requires
        addresses_ascending(old(list)@),
        forall|i: int|
            0 <= i < old(list)@.len() ==> (#[trigger] old(list)@[i]).address@ != item.address@,
    ensures
        at <= old(list)@.len(),
        final(list)@ == old(list)@.insert(at as int, item),
        addresses_ascending(final(list)@),
{
    let ghost before: Seq<Advertisement> = list@;
    let mut at: usize = 0;
    while at < list.len() && str_less(list[at].address.as_str(), item.address.as_str())
        invariant
            before == list@,
            at <= list@.len(),
            forall|i: int| 0 <= i < at ==> text_less(before[i].address@, item.address@),
        ensures
            before == list@,
            at <= list@.len(),
            forall|i: int| 0 <= i < at ==> text_less(before[i].address@, item.address@),
            at < list@.len() ==> !text_less(before[at as int].address@, item.address@),
        decreases list@.len() - at,
    {
        at += 1;
    }
    list.insert(at, item);
    let ghost after: Seq<Advertisement> = list@;
    proof {
        assert forall|i: int, j: int| 0 <= i < j < after.len() implies text_less(
            after[i].address@,
            after[j].address@,
        ) by {
            let x: int = if i < at { i } else { i - 1 };
            let y: int = if j < at { j } else { j - 1 };
            if i == at {
                let here: Seq<char> = before[at as int].address@;
                law_text_order(item.address@, here, before[y].address@);
                if y > at {
                    assert(text_less(here, before[y].address@));
                }
            } else if j != at {
                assert(text_less(before[x].address@, before[y].address@));
            }
        }
    }
    at
}

/// Where `key` belongs among the entries.
fn entry_place(entries: &Vec<Entry>, key: &String) -> (at: usize)
    requires
        well_formed(entries@),
    ensures
        at <= entries@.len(),
        forall|i: int| 0 <= i < at ==> text_less(#[trigger] pairs(entries@)[i].0, key@),
        forall|i: int|
            at <= i < entries@.len() ==> !text_less(#[trigger] pairs(entries@)[i].0, key@),
{
    let ghost keyed: Seq<(Seq<char>, AdvertisementView)> = pairs(entries@);
    let mut at: usize = 0;
    while at < entries.len()
        invariant
            keyed == pairs(entries@),
            keys_ascending(keyed),
            at <= entries@.len(),
            forall|i: int| 0 <= i < at ==> text_less(#[trigger] keyed[i].0, key@),
        decreases entries@.len() - at,
    {
        assert(keyed[at as int].0 == entries@[at as int].key@);
        if !str_less(entries[at].key.as_str(), key.as_str()) {
            proof {
                assert forall|i: int| at <= i < entries@.len() implies !text_less(
                    #[trigger] keyed[i].0,
                    key@,
                ) by {
                    if i > at {
                        law_text_order(keyed[at as int].0, keyed[i].0, key@);
                    }
                }
            }
            return at;
        }
        at += 1;
    }
    at
}

fn merge_entry(entries: &mut Vec<Entry>, incoming: RawAdvertisement)
    requires
        well_formed(old(entries)@),
    ensures
        well_formed(final(entries)@),
        last_wins(pairs(final(entries)@)) == merged(last_wins(pairs(old(entries)@)), incoming@),
{
    let key: String = incoming.address.as_str().to_ascii_lowercase();
    let at: usize = entry_place(entries, &key);
    let ghost before: Seq<(Seq<char>, AdvertisementView)> = pairs(entries@);
    let ghost start: Seq<Entry> = entries@;
    let ghost said: AdvertisementView = incoming@;
    let ghost name: Seq<char> = key@;
    proof {
        lemma_keys_ascending_distinct(before);
        lemma_last_wins_distinct(before);
        if at < before.len() {
            assert(before[at as int].0 == entries@[at as int].key@);
        }
    }
    if at < entries.len() && entries[at].key == key {
        let mut item: RawAdvertisement = RawAdvertisement::minimal(String::new());
        std::mem::swap(&mut item, &mut entries[at].item);
        item.absorb(incoming);
        entries[at] = Entry { key, item };
        let ghost after: Seq<(Seq<char>, AdvertisementView)> = pairs(entries@);
        proof {
            assert(before[at as int].1 == start[at as int].item@);
            assert(after =~= before.update(at as int, (name, item@)));
            lemma_last_wins_update(before, at as int, item@);
        }
    } else {
        let mut item: RawAdvertisement = RawAdvertisement::minimal(incoming.address.clone());
        item.absorb(incoming);
        let ghost known: AdvertisementView = item@;
        entries.insert(at, Entry { key, item });
        let ghost after: Seq<(Seq<char>, AdvertisementView)> = pairs(entries@);
        proof {
            assert(after =~= before.insert(at as int, (name, known)));
            assert forall|i: int, j: int| 0 <= i < j < after.len() implies text_less(
                after[i].0,
                after[j].0,
            ) by {
                let x: int = if i < at { i } else { i - 1 };
                let y: int = if j < at { j } else { j - 1 };
                if i == at {
                    let here: Seq<char> = before[at as int].0;
                    law_text_order(name, here, before[y].0);
                    if y > at {
                        assert(text_less(here, before[y].0));
                    }
                } else if j != at {
                    assert(text_less(before[x].0, before[y].0));
                }
            }
            lemma_keys_ascending_distinct(after);
            lemma_last_wins_insert(before, at as int, name, known);
            assert(!last_wins(before).contains_key(name)) by {
                if last_wins(before).contains_key(name) {
                    let i: int = choose|i: int|
                        0 <= i < before.len() && (#[trigger] before[i]).0 == name;
                    law_text_order(name, name, name);
                    if i > at {
                        assert(text_less(before[at as int].0, before[i].0));
                    }
                }
            }
        }
    }
}

/// Merging an advertisement again changes nothing.
pub proof fn law_merging_again_changes_nothing(
    set: Map<Seq<char>, AdvertisementView>,
    incoming: AdvertisementView,
)
    ensures
        merged(merged(set, incoming), incoming) == merged(set, incoming),
{
    let key: Seq<char> = ascii_lower(incoming.address);
    let once: AdvertisementView = merged(set, incoming)[key];
    let twice: AdvertisementView = once.absorb(incoming);
    assert(twice.service_uuids =~= once.service_uuids);
    assert(twice.manufacturer_data =~= once.manufacturer_data);
    assert(twice.service_data =~= once.service_data);
    assert(twice == once);
    assert(merged(merged(set, incoming), incoming) =~= merged(set, incoming));
}

/// Advertisements of different devices may be merged in either order.
pub proof fn law_merges_of_different_devices_commute(
    set: Map<Seq<char>, AdvertisementView>,
    a: AdvertisementView,
    b: AdvertisementView,
)
    requires
        ascii_lower(a.address) != ascii_lower(b.address),
    ensures
        merged(merged(set, a), b) == merged(merged(set, b), a),
{
    assert(merged(merged(set, a), b) =~= merged(merged(set, b), a));
}

/// Nothing that was known of any device is forgotten: a field that was known is
/// known after the merge, and a service UUID, a company number or a service with
/// data that was seen stays.
pub proof fn law_merging_forgets_nothing(
    set: Map<Seq<char>, AdvertisementView>,
    incoming: AdvertisementView,
    key: Seq<char>,
)
    requires
        set.contains_key(key),
    ensures
        merged(set, incoming).contains_key(key),
        ({
            let before: AdvertisementView = set[key];
            let after: AdvertisementView = merged(set, incoming)[key];
            &&& before.address_type != AddressType::Unknown ==> after.address_type
                != AddressType::Unknown
            &&& before.local_name is Some ==> after.local_name is Some
            &&& before.rssi_dbm is Some ==> after.rssi_dbm is Some
            &&& before.tx_power_dbm is Some ==> after.tx_power_dbm is Some
            &&& before.connectable is Some ==> after.connectable is Some
            &&& before.protocol_identity is Some ==> after.protocol_identity is Some
            &&& before.service_uuids.subset_of(after.service_uuids)
            &&& before.manufacturer_data.dom().subset_of(after.manufacturer_data.dom())
            &&& before.service_data.dom().subset_of(after.service_data.dom())
            &&& key != ascii_lower(incoming.address) ==> after == before
        }),
{
}

/// What the advertisement says is what is known of its device after the merge.
pub proof fn law_merging_takes_what_was_said(
    set: Map<Seq<char>, AdvertisementView>,
    incoming: AdvertisementView,
)
    ensures
        merged(set, incoming).contains_key(ascii_lower(incoming.address)),
        ({
            let after: AdvertisementView = merged(set, incoming)[ascii_lower(incoming.address)];
            &&& after.address == incoming.address
            &&& incoming.address_type != AddressType::Unknown ==> after.address_type
                == incoming.address_type
            &&& incoming.local_name is Some ==> after.local_name == incoming.local_name
            &&& incoming.rssi_dbm is Some ==> after.rssi_dbm == incoming.rssi_dbm
            &&& incoming.tx_power_dbm is Some ==> after.tx_power_dbm == incoming.tx_power_dbm
            &&& incoming.connectable is Some ==> after.connectable == incoming.connectable
            &&& incoming.protocol_identity is Some ==> after.protocol_identity
                == incoming.protocol_identity
            &&& incoming.service_uuids.subset_of(after.service_uuids)
            &&& incoming.manufacturer_data.submap_of(after.manufacturer_data)
            &&& incoming.service_data.submap_of(after.service_data)
        }),
{
}

/// Addresses that differ in the case of their letters only are one device: the
/// second advertisement adds no device.
pub proof fn law_address_case_is_ignored(
    set: Map<Seq<char>, AdvertisementView>,
    a: AdvertisementView,
    b: AdvertisementView,
)
    requires
        ascii_lower(a.address) == ascii_lower(b.address),
    ensures
        merged(merged(set, a), b).dom() == merged(set, a).dom(),
{
    assert(merged(merged(set, a), b).dom() =~= merged(set, a).dom());
}

/// Each device is kept under its address in lower case, and there are finitely many.
pub open spec fn keyed_by_address(set: Map<Seq<char>, AdvertisementView>) -> bool {
    &&& set.dom().finite()
    &&& forall|key: Seq<char>| #[trigger]
        set.contains_key(key) ==> key == ascii_lower(set[key].address)
}

/// What a set holds after several advertisements, merged one after the other.
pub open spec fn merged_all(
    set: Map<Seq<char>, AdvertisementView>,
    incoming: Seq<AdvertisementView>,
) -> Map<Seq<char>, AdvertisementView>
    decreases incoming.len(),
{
    if incoming.len() == 0 {
        set
    } else {
        merged(merged_all(set, incoming.drop_last()), incoming.last())
    }
}

/// A set that is keyed by address stays so, whatever is merged into it; so every set
/// that merges make from an empty one is keyed by address, and finite.
pub proof fn law_sets_are_keyed_by_address(
    set: Map<Seq<char>, AdvertisementView>,
    incoming: Seq<AdvertisementView>,
)
    ensures
        keyed_by_address(set) ==> keyed_by_address(merged_all(set, incoming)),
        keyed_by_address(merged_all(Map::empty(), incoming)),
    decreases incoming.len(),
{
    if incoming.len() > 0 {
        law_sets_are_keyed_by_address(set, incoming.drop_last());
    }
}

/// The UUIDs that an advertisement names, of services and of their data, are in lower
/// case.
pub open spec fn names_lower_uuids(known: AdvertisementView) -> bool {
    &&& forall|uuid: Seq<char>| #[trigger] known.service_uuids.contains(uuid) ==> is_lower(uuid)
    &&& forall|uuid: Seq<char>| #[trigger]
        known.service_data.contains_key(uuid) ==> is_lower(uuid)
}

/// An advertisement names lower-case UUIDs if its lists do.
pub proof fn lemma_raw_names_lower_uuids(raw: RawAdvertisement)
    requires
        forall|i: int|
            0 <= i < raw.service_uuids.deep_view().len() ==> is_lower(
                #[trigger] raw.service_uuids.deep_view()[i],
            ),
        forall|i: int|
            0 <= i < raw.service_data.deep_view().len() ==> is_lower(
                (#[trigger] raw.service_data.deep_view()[i]).0,
            ),
    ensures
        names_lower_uuids(raw@),
{
    assert forall|uuid: Seq<char>| #[trigger] raw@.service_data.contains_key(uuid) implies is_lower(
        uuid,
    ) by {
        lemma_last_wins_keys(raw.service_data.deep_view(), uuid);
    }
}

/// Where all advertisements name lower-case UUIDs, so does what is known of each device.
pub proof fn law_lower_case_uuids_stay(
    set: Map<Seq<char>, AdvertisementView>,
    incoming: Seq<AdvertisementView>,
)
    requires
        forall|key: Seq<char>| #[trigger] set.contains_key(key) ==> names_lower_uuids(set[key]),
        forall|i: int| 0 <= i < incoming.len() ==> names_lower_uuids(#[trigger] incoming[i]),
    ensures
        forall|key: Seq<char>| #[trigger]
            merged_all(set, incoming).contains_key(key) ==> names_lower_uuids(
                merged_all(set, incoming)[key],
            ),
    decreases incoming.len(),
{
    if incoming.len() > 0 {
        let front: Seq<AdvertisementView> = incoming.drop_last();
        assert forall|i: int| 0 <= i < front.len() implies names_lower_uuids(
            #[trigger] front[i],
        ) by {
            assert(front[i] == incoming[i]);
        }
        law_lower_case_uuids_stay(set, front);
        let said: AdvertisementView = incoming[incoming.len() - 1];
        let before: Map<Seq<char>, AdvertisementView> = merged_all(set, front);
        let after: Map<Seq<char>, AdvertisementView> = merged_all(set, incoming);
        assert(names_lower_uuids(said));
        assert forall|key: Seq<char>| #[trigger] after.contains_key(key) implies names_lower_uuids(
            after[key],
        ) by {
            assert(before.contains_key(key) ==> names_lower_uuids(before[key]));
            if before.contains_key(key) && key == ascii_lower(said.address) {
                assert(after[key] == before[key].absorb(said));
            }
        }
    }
}

/// The advertisements of one device, given by its address in lower case, in the order
/// in which they came.
pub open spec fn of_device(incoming: Seq<AdvertisementView>, key: Seq<char>) -> Seq<
    AdvertisementView,
> {
    incoming.filter(|item: AdvertisementView| ascii_lower(item.address) == key)
}

/// Each device's advertisements come in the same order in both lists.
pub open spec fn same_for_each_device(
    a: Seq<AdvertisementView>,
    b: Seq<AdvertisementView>,
) -> bool {
    forall|key: Seq<char>| #[trigger] of_device(a, key) == of_device(b, key)
}

proof fn lemma_merged_all_of_device(
    set: Map<Seq<char>, AdvertisementView>,
    incoming: Seq<AdvertisementView>,
    key: Seq<char>,
)
    ensures
        merged_all(set, incoming).contains_key(key) == merged_all(
            set,
            of_device(incoming, key),
        ).contains_key(key),
        merged_all(set, incoming).contains_key(key) ==> merged_all(set, incoming)[key]
            == merged_all(set, of_device(incoming, key))[key],
    decreases incoming.len(),
{
    reveal(Seq::filter);
    if incoming.len() > 0 {
        let front: Seq<AdvertisementView> = incoming.drop_last();
        lemma_merged_all_of_device(set, front, key);
        if ascii_lower(incoming.last().address) == key {
            assert(of_device(incoming, key) == of_device(front, key).push(incoming.last()));
            assert(of_device(incoming, key).drop_last() =~= of_device(front, key));
        } else {
            assert(of_device(incoming, key) == of_device(front, key));
        }
    }
}

/// What is known after several advertisements depends on the order of those of one
/// device only: how the devices take turns does not matter.
pub proof fn law_turns_of_devices_do_not_matter(
    set: Map<Seq<char>, AdvertisementView>,
    a: Seq<AdvertisementView>,
    b: Seq<AdvertisementView>,
)
    requires
        same_for_each_device(a, b),
    ensures
        merged_all(set, a) == merged_all(set, b),
{
    let x: Map<Seq<char>, AdvertisementView> = merged_all(set, a);
    let y: Map<Seq<char>, AdvertisementView> = merged_all(set, b);
    assert forall|key: Seq<char>|
        #![trigger x.contains_key(key)]
        #![trigger y.contains_key(key)]
        x.contains_key(key) == y.contains_key(key) && (x.contains_key(key) ==> x[key]
            == y[key]) by {
        assert(of_device(a, key) == of_device(b, key));
        lemma_merged_all_of_device(set, a, key);
        lemma_merged_all_of_device(set, b, key);
    }
    assert(x =~= y);
}

/// No two of the advertisements are of one device.
pub open spec fn different_devices(incoming: Seq<AdvertisementView>) -> bool {
    forall|i: int, j: int|
        0 <= i < j < incoming.len() ==> ascii_lower(incoming[i].address) != ascii_lower(
            incoming[j].address,
        )
}

proof fn lemma_merged_all_different(incoming: Seq<AdvertisementView>)
    requires
        different_devices(incoming),
    ensures
        forall|key: Seq<char>| #[trigger]
            merged_all(Map::empty(), incoming).contains_key(key) <==> exists|i: int|
                0 <= i < incoming.len() && ascii_lower((#[trigger] incoming[i]).address) == key,
        forall|i: int|
            0 <= i < incoming.len() ==> merged_all(Map::empty(), incoming)[ascii_lower(
                (#[trigger] incoming[i]).address,
            )] == AdvertisementView::minimal(incoming[i].address).absorb(incoming[i]),
    decreases incoming.len(),
{
    let all: Map<Seq<char>, AdvertisementView> = merged_all(Map::empty(), incoming);
    if incoming.len() > 0 {
        let front: Seq<AdvertisementView> = incoming.drop_last();
        let last: int = incoming.len() - 1;
        let earlier: Map<Seq<char>, AdvertisementView> = merged_all(Map::empty(), front);
        lemma_merged_all_different(front);
        assert(!earlier.contains_key(ascii_lower(incoming[last].address))) by {
            if earlier.contains_key(ascii_lower(incoming[last].address)) {
                let i: int = choose|i: int|
                    0 <= i < front.len() && ascii_lower((#[trigger] front[i]).address)
                        == ascii_lower(incoming[last].address);
                assert(incoming[i] == front[i]);
            }
        }
        assert forall|key: Seq<char>| #[trigger] all.contains_key(key) implies exists|i: int|
            0 <= i < incoming.len() && ascii_lower((#[trigger] incoming[i]).address) == key by {
            if earlier.contains_key(key) {
                let i: int = choose|i: int|
                    0 <= i < front.len() && ascii_lower((#[trigger] front[i]).address) == key;
                assert(incoming[i] == front[i]);
            } else {
                assert(ascii_lower(incoming[last].address) == key);
            }
        }
        assert forall|i: int| 0 <= i < incoming.len() implies all.contains_key(
            ascii_lower((#[trigger] incoming[i]).address),
        ) && all[ascii_lower(incoming[i].address)] == AdvertisementView::minimal(
            incoming[i].address,
        ).absorb(incoming[i]) by {
            if i < last {
                assert(front[i] == incoming[i]);
            }
        }
    }
}

/// Where each device advertised once, the order in which the advertisements are
/// merged does not matter.
pub proof fn law_order_of_devices_does_not_matter(
    a: Seq<AdvertisementView>,
    b: Seq<AdvertisementView>,
)
    requires
        different_devices(a),
        different_devices(b),
        a.to_set() == b.to_set(),
    ensures
        merged_all(Map::empty(), a) == merged_all(Map::empty(), b),
{
    lemma_merged_all_different(a);
    lemma_merged_all_different(b);
    let x: Map<Seq<char>, AdvertisementView> = merged_all(Map::empty(), a);
    let y: Map<Seq<char>, AdvertisementView> = merged_all(Map::empty(), b);
    assert forall|key: Seq<char>| #[trigger] x.contains_key(key) implies y.contains_key(key)
        && x[key] == y[key] by {
        let i: int = choose|i: int|
            0 <= i < a.len() && ascii_lower((#[trigger] a[i]).address) == key;
        assert(a.to_set().contains(a[i]));
        assert(b.to_set().contains(a[i]));
        let j: int = choose|j: int| 0 <= j < b.len() && b[j] == a[i];
        assert(ascii_lower(b[j].address) == key);
    }
    assert forall|key: Seq<char>| #[trigger] y.contains_key(key) implies x.contains_key(key) by {
        let i: int = choose|i: int|
            0 <= i < b.len() && ascii_lower((#[trigger] b[i]).address) == key;
        assert(b.to_set().contains(b[i]));
        assert(a.to_set().contains(b[i]));
        let j: int = choose|j: int| 0 <= j < a.len() && a[j] == b[i];
        assert(ascii_lower(a[j].address) == key);
    }
    assert(x =~= y);
}

/// The number of devices that a finished scan skips is the number of those of which
/// the signal strength is not known.
pub proof fn law_skipped_devices_have_no_signal_strength(
    set: Map<Seq<char>, AdvertisementView>,
    advertisements: Seq<Advertisement>,
    skipped: int,
)
    requires
        finished(set, advertisements, skipped),
    ensures
        skipped == set.dom().filter(|key: Seq<char>| set[key].rssi_dbm is None).len(),
{
    let with: Set<Seq<char>> = set.dom().filter(|key: Seq<char>| set[key].rssi_dbm is Some);
    let without: Set<Seq<char>> = set.dom().filter(|key: Seq<char>| set[key].rssi_dbm is None);
    let keys: Seq<Seq<char>> = Seq::new(
        advertisements.len(),
        |i: int| ascii_lower(advertisements[i].address@),
    );
    assert forall|i: int, j: int| 0 <= i < j < keys.len() implies keys[i] != keys[j] by {
        if keys[i] == keys[j] {
            assert(reports(advertisements[i], set[keys[i]]));
            assert(reports(advertisements[j], set[keys[j]]));
            law_text_order(
                advertisements[i].address@,
                advertisements[i].address@,
                advertisements[i].address@,
            );
        }
    }
    assert(keys.no_duplicates());
    keys.unique_seq_to_set();
    assert forall|key: Seq<char>| #[trigger] with.contains(key) implies keys.to_set().contains(
        key,
    ) by {
        assert(set.contains_key(key));
        let i: int = choose|i: int|
            0 <= i < advertisements.len() && ascii_lower((#[trigger] advertisements[i]).address@)
                == key;
        assert(keys[i] == key);
    }
    assert forall|key: Seq<char>| keys.to_set().contains(key) implies #[trigger] with.contains(
        key,
    ) by {
        let i: int = choose|i: int| 0 <= i < keys.len() && keys[i] == key;
        assert(reports(advertisements[i], set[key]));
    }
    assert(keys.to_set() =~= with);
    assert(set.dom() =~= with.union(without));
    vstd::set_lib::lemma_set_disjoint_lens(with, without);
}

/// What an advertisement reports, with its lists in order.
pub struct ReportedView {
    pub address: Seq<char>,
    pub address_type: AddressType,
    pub local_name: Option<Seq<char>>,
    pub rssi_dbm: i16,
    pub tx_power_dbm: Option<i16>,
    pub connectable: Option<bool>,
    pub service_uuids: Seq<Seq<char>>,
    pub manufacturer_data: Seq<(u16, Seq<u8>)>,
    pub service_data: Seq<(Seq<char>, Seq<u8>)>,
    pub protocol_identity: Option<Seq<char>>,
}

impl DeepView for Advertisement {
    type V = ReportedView;

    open spec fn deep_view(&self) -> ReportedView {
        ReportedView {
            address: self.address@,
            address_type: self.address_type,
            local_name: self.local_name.deep_view(),
            rssi_dbm: self.rssi_dbm,
            tx_power_dbm: self.tx_power_dbm,
            connectable: self.connectable,
            service_uuids: self.service_uuids.deep_view(),
            manufacturer_data: self.manufacturer_data.deep_view(),
            service_data: self.service_data.deep_view(),
            protocol_identity: self.protocol_identity.deep_view(),
        }
    }
}

proof fn lemma_reports_determined(a: Advertisement, b: Advertisement, known: AdvertisementView)
    requires
        reports(a, known),
        reports(b, known),
    ensures
        a.deep_view() == b.deep_view(),
{
    law_ascending_lists_are_unique(a.service_uuids.deep_view(), b.service_uuids.deep_view());
    law_manufacturer_lists_are_unique(
        a.manufacturer_data.deep_view(),
        b.manufacturer_data.deep_view(),
    );
    law_service_lists_are_unique(a.service_data.deep_view(), b.service_data.deep_view());
}

proof fn lemma_same_addresses(
    set: Map<Seq<char>, AdvertisementView>,
    a: Seq<Advertisement>,
    m: int,
    b: Seq<Advertisement>,
    n: int,
    i: int,
) -> (j: int)
    requires
        finished(set, a, m),
        finished(set, b, n),
        0 <= i < a.len(),
    ensures
        0 <= j < b.len(),
        a[i].address@ == b[j].address@,
{
    let key: Seq<char> = ascii_lower(a[i].address@);
    assert(set.contains_key(key) && reports(a[i], set[key]));
    let j: int = choose|j: int|
        0 <= j < b.len() && ascii_lower((#[trigger] b[j]).address@) == key;
    assert(reports(b[j], set[key]));
    j
}

/// What is known decides what a scan reports: there is one list of advertisements,
/// in one order, and one number of skipped devices.
pub proof fn law_finished_scan_is_determined(
    set: Map<Seq<char>, AdvertisementView>,
    a: Seq<Advertisement>,
    m: int,
    b: Seq<Advertisement>,
    n: int,
)
    requires
        finished(set, a, m),
        finished(set, b, n),
    ensures
        m == n,
        a.len() == b.len(),
        forall|i: int| 0 <= i < a.len() ==> (#[trigger] a[i]).deep_view() == b[i].deep_view(),
{
    let x: Seq<Seq<char>> = Seq::new(a.len(), |i: int| a[i].address@);
    let y: Seq<Seq<char>> = Seq::new(b.len(), |i: int| b[i].address@);
    assert forall|s: Seq<char>| #[trigger] x.to_set().contains(s) implies y.to_set().contains(
        s,
    ) by {
        let i: int = choose|i: int| 0 <= i < x.len() && x[i] == s;
        let j: int = lemma_same_addresses(set, a, m, b, n, i);
        assert(y[j] == s);
    }
    assert forall|s: Seq<char>| y.to_set().contains(s) implies #[trigger] x.to_set().contains(
        s,
    ) by {
        let i: int = choose|i: int| 0 <= i < y.len() && y[i] == s;
        let j: int = lemma_same_addresses(set, b, n, a, m, i);
        assert(x[j] == s);
    }
    assert(x.to_set() =~= y.to_set());
    law_ascending_lists_are_unique(x, y);
    assert forall|i: int| 0 <= i < a.len() implies (#[trigger] a[i]).deep_view()
        == b[i].deep_view() by {
        assert(x[i] == y[i]);
        let key: Seq<char> = ascii_lower(a[i].address@);
        assert(reports(b[i], set[key]));
        lemma_reports_determined(a[i], b[i], set[key]);
    }
}

} // verus!
