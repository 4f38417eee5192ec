//! The lists that an advertisement carries: service UUIDs, manufacturer data and
//! service data, kept in order and without repetition.

use crate::text::{ascending, law_text_order, str_less, text_less};
use vstd::prelude::*;

verus! {

/// What a manufacturer put into an advertisement.
#[derive(Debug, Clone, PartialEq, Eq)]
pub struct ManufacturerData {
    pub company_id: u16,
    pub data: Vec<u8>,
}

impl DeepView for ManufacturerData {
    type V = (u16, Seq<u8>);

    open spec fn deep_view(&self) -> (u16, Seq<u8>) {
        (self.company_id, self.data@)
    }
}

/// What an advertisement says on behalf of one service.
#[derive(Debug, Clone, PartialEq, Eq)]
pub struct ServiceData {
    pub uuid: String,
    pub data: Vec<u8>,
}

impl DeepView for ServiceData {
    type V = (Seq<char>, Seq<u8>);

    open spec fn deep_view(&self) -> (Seq<char>, Seq<u8>) {
        (self.uuid@, self.data@)
    }
}

/// What a list of keyed values holds: of two values under one key, the later.
pub open spec fn last_wins<K, V>(items: Seq<(K, V)>) -> Map<K, V>
    decreases items.len(),
{
    if items.len() == 0 {
        Map::empty()
    } else {
        last_wins(items.drop_last()).insert(items.last().0, items.last().1)
    }
}

/// The numbers by which the list is keyed come in strictly ascending order.
pub open spec fn ids_ascending(items: Seq<(u16, Seq<u8>)>) -> bool {
    forall|i: int, j: int| 0 <= i < j < items.len() ==> items[i].0 < items[j].0
}

/// The texts by which the list is keyed come in strictly ascending order.
pub open spec fn keys_ascending<V>(items: Seq<(Seq<char>, V)>) -> bool {
    forall|i: int, j: int| 0 <= i < j < items.len() ==> text_less(items[i].0, items[j].0)
}

/// No key occurs twice.
pub open spec fn distinct_keys<K, V>(items: Seq<(K, V)>) -> bool {
    forall|i: int, j: int| 0 <= i < j < items.len() ==> items[i].0 != items[j].0
}

/// A list holds no keys but those of its items.
pub proof fn lemma_last_wins_keys<K, V>(items: Seq<(K, V)>, key: K)
    requires
        last_wins(items).contains_key(key),
    ensures
        exists|i: int| 0 <= i < items.len() && (#[trigger] items[i]).0 == key,
    decreases items.len(),
{
    if key == items.last().0 {
        assert(items[items.len() - 1].0 == key);
    } else {
        let front: Seq<(K, V)> = items.drop_last();
        lemma_last_wins_keys(front, key);
        let i: int = choose|i: int| 0 <= i < front.len() && (#[trigger] front[i]).0 == key;
        assert(items[i].0 == key);
    }
}

/// What holds of each thing that a function makes of the items of a list holds of each
/// item of the list of those things.
pub proof fn lemma_filter_map_all<A, B>(
    items: Seq<A>,
    f: spec_fn(A) -> Option<B>,
    p: spec_fn(B) -> bool,
)
    requires
        forall|i: int, b: B|
            0 <= i < items.len() && f(#[trigger] items[i]) == Some(b) ==> #[trigger] p(b),
    ensures
        forall|i: int| 0 <= i < items.filter_map(f).len() ==> p(#[trigger] items.filter_map(f)[i]),
    decreases items.len(),
{
    if items.len() > 0 {
        let front: Seq<A> = items.drop_last();
        assert forall|i: int, b: B|
            0 <= i < front.len() && f(#[trigger] front[i]) == Some(b) implies #[trigger] p(b) by {
            assert(items[i] == front[i]);
        }
        lemma_filter_map_all(front, f, p);
        let made: Seq<B> = items.filter_map(f);
        let earlier: Seq<B> = front.filter_map(f);
        assert forall|i: int| 0 <= i < made.len() implies p(#[trigger] made[i]) by {
            if i < earlier.len() {
                assert(made[i] == earlier[i]);
            } else {
                assert(f(items[items.len() - 1]) == Some(made[i]));
                assert(p(made[i]));
            }
        }
    }
}

/// A list without repeated keys holds each of its items, and no key besides.
pub proof fn lemma_last_wins_distinct<K, V>(items: Seq<(K, V)>)
    requires
        distinct_keys(items),
    ensures
        forall|i: int|
            0 <= i < items.len() ==> last_wins(items).contains_key((#[trigger] items[i]).0)
                && last_wins(items)[items[i].0] == items[i].1,
        forall|k: K|
            last_wins(items).contains_key(k) ==> exists|i: int|
                0 <= i < items.len() && (#[trigger] items[i]).0 == k,
        last_wins(items).dom().finite(),
        last_wins(items).len() == items.len(),
    decreases items.len(),
{
    if items.len() > 0 {
        let front: Seq<(K, V)> = items.drop_last();
        lemma_last_wins_distinct(front);
        assert forall|i: int| 0 <= i < items.len() implies last_wins(items).contains_key(
            (#[trigger] items[i]).0,
        ) && last_wins(items)[items[i].0] == items[i].1 by {
            if i < front.len() {
                assert(front[i] == items[i]);
            }
        }
        assert forall|k: K| last_wins(items).contains_key(k) implies exists|i: int|
            0 <= i < items.len() && (#[trigger] items[i]).0 == k by {
            if k == items.last().0 {
                assert(items[items.len() - 1].0 == k);
            } else {
                let i: int = choose|i: int| 0 <= i < front.len() && (#[trigger] front[i]).0 == k;
                assert(items[i].0 == k);
            }
        }
        assert(!last_wins(front).contains_key(items.last().0)) by {
            if last_wins(front).contains_key(items.last().0) {
                let i: int = choose|i: int|
                    0 <= i < front.len() && (#[trigger] front[i]).0 == items.last().0;
                assert(items[i].0 == items[items.len() - 1].0);
            }
        }
    }
}

/// A new key put anywhere into a list without repeated keys adds itself.
pub proof fn lemma_last_wins_insert<K, V>(items: Seq<(K, V)>, at: int, key: K, value: V)
    requires
        0 <= at <= items.len(),
        distinct_keys(items.insert(at, (key, value))),
    ensures
        distinct_keys(items),
        last_wins(items.insert(at, (key, value))) == last_wins(items).insert(key, value),
{
    let after: Seq<(K, V)> = items.insert(at, (key, value));
    assert forall|i: int, j: int| 0 <= i < j < items.len() implies items[i].0 != items[j].0 by {
        let x: int = if i < at { i } else { i + 1 };
        let y: int = if j < at { j } else { j + 1 };
        assert(after[x] == items[i]);
        assert(after[y] == items[j]);
    }
    lemma_last_wins_distinct(items);
    lemma_last_wins_distinct(after);
    let left: Map<K, V> = last_wins(after);
    let right: Map<K, V> = last_wins(items).insert(key, value);
    assert(after[at] == (key, value));
    assert forall|k: K| #[trigger] left.contains_key(k) implies right.contains_key(k) && left[k]
        == right[k] by {
        let i: int = choose|i: int| 0 <= i < after.len() && (#[trigger] after[i]).0 == k;
        if i < at {
            assert(items[i] == after[i]);
        } else if i > at {
            assert(items[i - 1] == after[i]);
        }
    }
    assert forall|k: K| #[trigger] right.contains_key(k) implies left.contains_key(k) by {
        if k != key {
            let i: int = choose|i: int| 0 <= i < items.len() && (#[trigger] items[i]).0 == k;
            let x: int = if i < at { i } else { i + 1 };
            assert(after[x] == items[i]);
        }
    }
    assert(left =~= right);
}

/// A new value under a key that a list without repeated keys has takes the old one's place.
pub proof fn lemma_last_wins_update<K, V>(items: Seq<(K, V)>, at: int, value: V)
    requires
        0 <= at < items.len(),
        distinct_keys(items),
    ensures
        distinct_keys(items.update(at, (items[at].0, value))),
        last_wins(items.update(at, (items[at].0, value))) == last_wins(items).insert(
            items[at].0,
            value,
        ),
{
    let after: Seq<(K, V)> = items.update(at, (items[at].0, value));
    lemma_last_wins_distinct(items);
    assert(distinct_keys(after));
    lemma_last_wins_distinct(after);
    let left: Map<K, V> = last_wins(after);
    let right: Map<K, V> = last_wins(items).insert(items[at].0, value);
    assert(after[at] == (items[at].0, value));
    assert forall|k: K| #[trigger] left.contains_key(k) implies right.contains_key(k) && left[k]
        == right[k] by {
        let i: int = choose|i: int| 0 <= i < after.len() && (#[trigger] after[i]).0 == k;
        assert(items[i].0 == k);
    }
    assert forall|k: K| #[trigger] right.contains_key(k) implies left.contains_key(k) by {
        if k != items[at].0 {
            let i: int = choose|i: int| 0 <= i < items.len() && (#[trigger] items[i]).0 == k;
            assert(after[i] == items[i]);
        }
    }
    assert(left =~= right);
}

/// Where `item` belongs in an ascending list: what comes before that place is less.
fn place_of(list: &Vec<String>, item: &String) -> (at: usize)
    requires
        ascending(list.deep_view()),
    ensures
        at <= list@.len(),
        forall|i: int| 0 <= i < at ==> text_less(list.deep_view()[i], item@),
        forall|i: int| at <= i < list@.len() ==> !text_less(list.deep_view()[i], item@),
{
    let mut at: usize = 0;
    while at < list.len()
        invariant
            ascending(list.deep_view()),
            at <= list@.len(),
            forall|i: int| 0 <= i < at ==> text_less(list.deep_view()[i], item@),
        decreases list@.len() - at,
    {
        if !str_less(list[at].as_str(), item.as_str()) {
            proof {
                assert forall|i: int| at <= i < list@.len() implies !text_less(
                    list.deep_view()[i],
                    item@,
                ) by {
                    let here: Seq<char> = list.deep_view()[at as int];
                    if i > at {
                        law_text_order(here, list.deep_view()[i], item@);
                    }
                }
            }
            return at;
        }
        at += 1;
    }
    at
}

/// Adds a string to an ascending list, unless it is there.
fn insert_string(list: &mut Vec<String>, item: String)
    requires
        ascending(old(list).deep_view()),
    ensures
        ascending(final(list).deep_view()),
        final(list).deep_view().to_set() == old(list).deep_view().to_set().insert(item@),
{
    let at: usize = place_of(list, &item);
    let ghost before: Seq<Seq<char>> = list.deep_view();
    let ghost text: Seq<char> = item@;
    if at < list.len() && list[at] == item {
        assert(before[at as int] == text);
        assert(before.to_set().insert(text) =~= before.to_set());
    } else {
        list.insert(at, item);
        let ghost after: Seq<Seq<char>> = list.deep_view();
        assert(after =~= before.insert(at as int, text));
        proof {
            assert forall|i: int, j: int| 0 <= i < j < after.len() implies text_less(
                after[i],
                after[j],
            ) by {
                let x: int = if i < at { i } else { i - 1 };
                let y: int = if j < at { j } else { j - 1 };
                if i == at {
                    assert(before[at as int] != text);
                    if y > at {
                        assert(text_less(before[at as int], before[y]));
                    }
                    law_text_order(text, before[y], text);
                } else if j == at {
                    assert(text_less(before[x], text));
                } else {
                    assert(text_less(before[x], before[y]));
                }
            }
            assert forall|s: Seq<char>| before.to_set().insert(text).contains(s) implies
                #[trigger] after.to_set().contains(s) by {
                if s == text {
                    assert(after[at as int] == s);
                } else {
                    let i: int = choose|i: int| 0 <= i < before.len() && before[i] == s;
                    assert(after[if i < at { i } else { i + 1 }] == s);
                }
            }
            assert forall|s: Seq<char>| #[trigger] after.to_set().contains(s) implies
                before.to_set().insert(text).contains(s) by {
                let i: int = choose|i: int| 0 <= i < after.len() && after[i] == s;
                if i < at {
                    assert(before[i] == s);
                } else if i > at {
                    assert(before[i - 1] == s);
                }
            }
            assert(after.to_set() =~= before.to_set().insert(text));
        }
    }
}

fn insert_strings(list: &mut Vec<String>, items: Vec<String>)
    requires
        ascending(old(list).deep_view()),
    ensures
        ascending(final(list).deep_view()),
        final(list).deep_view().to_set() == old(list).deep_view().to_set().union(
            items.deep_view().to_set(),
        ),
{
    let ghost texts: Seq<Seq<char>> = items.deep_view();
    let ghost start: Set<Seq<char>> = list.deep_view().to_set();
    assert(texts.take(0).to_set() =~= Set::empty());
    assert(start.union(texts.take(0).to_set()) =~= start);
    for item in it: items.into_iter()
        invariant
            it.seq() == items@,
            texts == items.deep_view(),
            ascending(list.deep_view()),
            list.deep_view().to_set() == start.union(texts.take(it.index() as int).to_set()),
    {
        proof {
            let n: int = it.index() as int;
            assert(texts.take(n + 1) =~= texts.take(n).push(texts[n]));
            lemma_push_to_set(texts.take(n), texts[n]);
            assert(start.union(texts.take(n).to_set()).insert(texts[n]) =~= start.union(
                texts.take(n + 1).to_set(),
            ));
        }
        insert_string(list, item);
    }
    assert(texts.take(texts.len() as int) =~= texts);
}

proof fn lemma_push_to_set<A>(items: Seq<A>, item: A)
    ensures
        items.push(item).to_set() == items.to_set().insert(item),
{
    let after: Seq<A> = items.push(item);
    assert forall|a: A| items.to_set().insert(item).contains(a) implies
        #[trigger] after.to_set().contains(a) by {
        if a == item {
            assert(after[items.len() as int] == a);
        } else {
            let i: int = choose|i: int| 0 <= i < items.len() && items[i] == a;
            assert(after[i] == a);
        }
    }
    assert(after.to_set() =~= items.to_set().insert(item));
}

/// Adds strings to a list and leaves it in ascending order, each string once.
pub fn union_strings(target: &mut Vec<String>, incoming: Vec<String>)
    ensures
        ascending(final(target).deep_view()),
        final(target).deep_view().to_set() == old(target).deep_view().to_set().union(
            incoming.deep_view().to_set(),
        ),
{
    let mut items: Vec<String> = Vec::new();
    std::mem::swap(&mut items, target);
    assert(target.deep_view().to_set() =~= Set::<Seq<char>>::empty());
    assert(Set::<Seq<char>>::empty().union(items.deep_view().to_set())
        =~= items.deep_view().to_set());
    insert_strings(target, items);
    insert_strings(target, incoming);
}

/// Puts manufacturer data into its place in a list in the order of the company
/// numbers; what was there under the same number goes.
fn insert_manufacturer_data(list: &mut Vec<ManufacturerData>, item: ManufacturerData)
    requires
        ids_ascending(old(list).deep_view()),
    ensures
        ids_ascending(final(list).deep_view()),
        last_wins(final(list).deep_view()) == last_wins(old(list).deep_view()).insert(
            item.company_id,
            item.data@,
        ),
{
    let ghost before: Seq<(u16, Seq<u8>)> = list.deep_view();
    let ghost id: u16 = item.company_id;
    let ghost data: Seq<u8> = item.data@;
    let mut at: usize = 0;
    while at < list.len() && list[at].company_id < item.company_id
        invariant
            before == list.deep_view(),
            at <= list@.len(),
            forall|i: int| 0 <= i < at ==> before[i].0 < item.company_id,
        decreases list@.len() - at,
    {
        assert(before[at as int].0 == list@[at as int].company_id);
        at += 1;
    }
    proof {
        assert(distinct_keys(before));
        if at < before.len() {
            assert(before[at as int].0 == list@[at as int].company_id);
        }
    }
    if at < list.len() && list[at].company_id == item.company_id {
        list[at] = item;
        assert(list.deep_view() =~= before.update(at as int, (id, data)));
        proof {
            lemma_last_wins_update(before, at as int, data);
        }
    } else {
        list.insert(at, item);
        let ghost after: Seq<(u16, Seq<u8>)> = list.deep_view();
        assert(after =~= before.insert(at as int, (id, data)));
        proof {
            assert forall|i: int, j: int| 0 <= i < j < after.len() implies after[i].0
                < after[j].0 by {
                let x: int = if i < at { i } else { i - 1 };
                let y: int = if j < at { j } else { j - 1 };
                if i == at {
                    assert(before[at as int].0 <= before[y].0);
                } else if j != at {
                    assert(before[x].0 < before[y].0);
                }
            }
            assert(distinct_keys(after));
            lemma_last_wins_insert(before, at as int, id, data);
        }
    }
}

fn insert_all_manufacturer_data(list: &mut Vec<ManufacturerData>, items: Vec<ManufacturerData>)
    requires
        ids_ascending(old(list).deep_view()),
    ensures
        ids_ascending(final(list).deep_view()),
        last_wins(final(list).deep_view()) == last_wins(
            old(list).deep_view(),
        ).union_prefer_right(last_wins(items.deep_view())),
{
    let ghost pairs: Seq<(u16, Seq<u8>)> = items.deep_view();
    let ghost start: Map<u16, Seq<u8>> = last_wins(list.deep_view());
    assert(start.union_prefer_right(last_wins(pairs.take(0))) =~= start);
    for item in it: items.into_iter()
        invariant
            it.seq() == items@,
            pairs == items.deep_view(),
            ids_ascending(list.deep_view()),
            last_wins(list.deep_view()) == start.union_prefer_right(
                last_wins(pairs.take(it.index() as int)),
            ),
    {
        proof {
            let n: int = it.index() as int;
            assert(pairs.take(n + 1).drop_last() =~= pairs.take(n));
            assert(start.union_prefer_right(last_wins(pairs.take(n))).insert(
                pairs[n].0,
                pairs[n].1,
            ) =~= start.union_prefer_right(last_wins(pairs.take(n + 1))));
        }
        insert_manufacturer_data(list, item);
    }
    assert(pairs.take(pairs.len() as int) =~= pairs);
}

/// Adds manufacturer data to a list and leaves it in the order of the company
/// numbers, each once: the incoming data wins, and in either list the later.
pub fn merge_manufacturer_data(
    target: &mut Vec<ManufacturerData>,
    incoming: Vec<ManufacturerData>,
)
    ensures
        ids_ascending(final(target).deep_view()),
        last_wins(final(target).deep_view()) == last_wins(
            old(target).deep_view(),
        ).union_prefer_right(last_wins(incoming.deep_view())),
{
    let mut items: Vec<ManufacturerData> = Vec::new();
    std::mem::swap(&mut items, target);
    let ghost held: Map<u16, Seq<u8>> = last_wins(items.deep_view());
    assert(last_wins(target.deep_view()) == Map::<u16, Seq<u8>>::empty());
    assert(Map::<u16, Seq<u8>>::empty().union_prefer_right(held) =~= held);
    insert_all_manufacturer_data(target, items);
    insert_all_manufacturer_data(target, incoming);
}

/// Puts service data into its place in a list in the order of the UUIDs; what was
/// there under the same UUID goes.
fn insert_service_data(list: &mut Vec<ServiceData>, item: ServiceData)
    requires
        keys_ascending(old(list).deep_view()),
    ensures
        keys_ascending(final(list).deep_view()),
        last_wins(final(list).deep_view()) == last_wins(old(list).deep_view()).insert(
            item.uuid@,
            item.data@,
        ),
{
    let ghost before: Seq<(Seq<char>, Seq<u8>)> = list.deep_view();
    let ghost uuid: Seq<char> = item.uuid@;
    let ghost data: Seq<u8> = item.data@;
    let mut at: usize = 0;
    while at < list.len() && str_less(list[at].uuid.as_str(), item.uuid.as_str())
        invariant
            before == list.deep_view(),
            at <= list@.len(),
            uuid == item.uuid@,
            forall|i: int| 0 <= i < at ==> text_less(before[i].0, uuid),
        ensures
            before == list.deep_view(),
            at <= list@.len(),
            uuid == item.uuid@,
            forall|i: int| 0 <= i < at ==> text_less(before[i].0, uuid),
            at < list@.len() ==> !text_less(before[at as int].0, uuid),
        decreases list@.len() - at,
    {
        assert(before[at as int].0 == list@[at as int].uuid@);
        at += 1;
    }
    proof {
        lemma_keys_ascending_distinct(before);
        if at < before.len() {
            assert(before[at as int].0 == list@[at as int].uuid@);
        }
    }
    if at < list.len() && list[at].uuid == item.uuid {
        list[at] = item;
        assert(list.deep_view() =~= before.update(at as int, (uuid, data)));
        proof {
            lemma_last_wins_update(before, at as int, data);
        }
    } else {
        list.insert(at, item);
        let ghost after: Seq<(Seq<char>, Seq<u8>)> = list.deep_view();
        assert(after =~= before.insert(at as int, (uuid, data)));
        proof {
            assert forall|i: int, j: int| 0 <= i < j < after.len() implies text_less(
                after[i].0,
                after[j].0,
            ) by {
                let x: int = if i < at { i } else { i - 1 };
                let y: int = if j < at { j } else { j - 1 };
                if i == at {
                    let here: Seq<char> = before[at as int].0;
                    law_text_order(uuid, here, before[y].0);
                    if y > at {
                        assert(text_less(here, before[y].0));
                    }
                } else if j != at {
                    assert(text_less(before[x].0, before[y].0));
                }
            }
            lemma_keys_ascending_distinct(after);
            lemma_last_wins_insert(before, at as int, uuid, data);
        }
    }
}

/// Keys in strictly ascending order are distinct.
pub proof fn lemma_keys_ascending_distinct<V>(items: Seq<(Seq<char>, V)>)
    requires
        keys_ascending(items),
    ensures
        distinct_keys(items),
{
    assert forall|i: int, j: int| 0 <= i < j < items.len() implies items[i].0 != items[j].0 by {
        law_text_order(items[i].0, items[j].0, items[j].0);
    }
}

fn insert_all_service_data(list: &mut Vec<ServiceData>, items: Vec<ServiceData>)
    requires
        keys_ascending(old(list).deep_view()),
    ensures
        keys_ascending(final(list).deep_view()),
        last_wins(final(list).deep_view()) == last_wins(
            old(list).deep_view(),
        ).union_prefer_right(last_wins(items.deep_view())),
{
    let ghost pairs: Seq<(Seq<char>, Seq<u8>)> = items.deep_view();
    let ghost start: Map<Seq<char>, Seq<u8>> = last_wins(list.deep_view());
    assert(start.union_prefer_right(last_wins(pairs.take(0))) =~= start);
    for item in it: items.into_iter()
        invariant
            it.seq() == items@,
            pairs == items.deep_view(),
            keys_ascending(list.deep_view()),
            last_wins(list.deep_view()) == start.union_prefer_right(
                last_wins(pairs.take(it.index() as int)),
            ),
    {
        proof {
            let n: int = it.index() as int;
            assert(pairs.take(n + 1).drop_last() =~= pairs.take(n));
            assert(start.union_prefer_right(last_wins(pairs.take(n))).insert(
                pairs[n].0,
                pairs[n].1,
            ) =~= start.union_prefer_right(last_wins(pairs.take(n + 1))));
        }
        insert_service_data(list, item);
    }
    assert(pairs.take(pairs.len() as int) =~= pairs);
}

/// Adds service data to a list and leaves it in the order of the UUIDs, each once:
/// the incoming data wins, and in either list the later.
pub fn merge_service_data(target: &mut Vec<ServiceData>, incoming: Vec<ServiceData>)
    ensures
        keys_ascending(final(target).deep_view()),
        last_wins(final(target).deep_view()) == last_wins(
            old(target).deep_view(),
        ).union_prefer_right(last_wins(incoming.deep_view())),
{
    let mut items: Vec<ServiceData> = Vec::new();
    std::mem::swap(&mut items, target);
    let ghost held: Map<Seq<char>, Seq<u8>> = last_wins(items.deep_view());
    assert(last_wins(target.deep_view()) == Map::<Seq<char>, Seq<u8>>::empty());
    assert(Map::<Seq<char>, Seq<u8>>::empty().union_prefer_right(held) =~= held);
    insert_all_service_data(target, items);
    insert_all_service_data(target, incoming);
}

proof fn lemma_ascending_first(a: Seq<Seq<char>>, b: Seq<Seq<char>>)
    requires
        ascending(a),
        ascending(b),
        a.to_set() == b.to_set(),
        a.len() > 0,
    ensures
        b.len() > 0,
        a[0] == b[0],
        ascending(a.drop_first()),
        ascending(b.drop_first()),
        a.drop_first().to_set() == b.drop_first().to_set(),
{
    assert(a.to_set().contains(a[0]));
    assert(b.to_set().contains(a[0]));
    let i: int = choose|i: int| 0 <= i < b.len() && b[i] == a[0];
    assert(b.to_set().contains(b[0]));
    assert(a.to_set().contains(b[0]));
    let j: int = choose|j: int| 0 <= j < a.len() && a[j] == b[0];
    if i > 0 && j > 0 {
        assert(text_less(b[0], b[i]));
        assert(text_less(a[0], a[j]));
        law_text_order(a[0], b[0], a[0]);
    }
    let x: Seq<Seq<char>> = a.drop_first();
    let y: Seq<Seq<char>> = b.drop_first();
    lemma_ascending_rest(a);
    lemma_ascending_rest(b);
    assert(x.to_set() =~= y.to_set());
}

proof fn lemma_ascending_rest(a: Seq<Seq<char>>)
    requires
        ascending(a),
        a.len() > 0,
    ensures
        ascending(a.drop_first()),
        a.drop_first().to_set() == a.to_set().remove(a[0]),
{
    let rest: Seq<Seq<char>> = a.drop_first();
    assert forall|s: Seq<char>| #[trigger] rest.to_set().contains(s) implies a.to_set().remove(
        a[0],
    ).contains(s) by {
        let i: int = choose|i: int| 0 <= i < rest.len() && rest[i] == s;
        assert(a[i + 1] == s);
        assert(text_less(a[0], a[i + 1]));
        law_text_order(a[0], a[0], a[0]);
    }
    assert forall|s: Seq<char>| a.to_set().remove(a[0]).contains(s) implies
        #[trigger] rest.to_set().contains(s) by {
        let i: int = choose|i: int| 0 <= i < a.len() && a[i] == s;
        assert(rest[i - 1] == s);
    }
    assert(rest.to_set() =~= a.to_set().remove(a[0]));
}

/// There is one way only to list a set of strings in ascending order.
pub proof fn law_ascending_lists_are_unique(a: Seq<Seq<char>>, b: Seq<Seq<char>>)
    requires
        ascending(a),
        ascending(b),
        a.to_set() == b.to_set(),
    ensures
        a == b,
    decreases a.len(),
{
    if a.len() > 0 {
        lemma_ascending_first(a, b);
        law_ascending_lists_are_unique(a.drop_first(), b.drop_first());
        assert(a =~= seq![a[0]] + a.drop_first());
        assert(b =~= seq![b[0]] + b.drop_first());
    } else if b.len() > 0 {
        assert(b.to_set().contains(b[0]));
        assert(a.to_set().contains(b[0]));
    } else {
        assert(a =~= b);
    }
}

/// There is one way only to list service data in the order of the UUIDs.
pub proof fn law_service_lists_are_unique(
    a: Seq<(Seq<char>, Seq<u8>)>,
    b: Seq<(Seq<char>, Seq<u8>)>,
)
    requires
        keys_ascending(a),
        keys_ascending(b),
        last_wins(a) == last_wins(b),
    ensures
        a == b,
{
    lemma_keys_ascending_distinct(a);
    lemma_keys_ascending_distinct(b);
    lemma_last_wins_distinct(a);
    lemma_last_wins_distinct(b);
    let x: Seq<Seq<char>> = Seq::new(a.len(), |i: int| a[i].0);
    let y: Seq<Seq<char>> = Seq::new(b.len(), |i: int| b[i].0);
    assert forall|s: Seq<char>| #[trigger] x.to_set().contains(s) implies y.to_set().contains(
        s,
    ) by {
        let i: int = choose|i: int| 0 <= i < x.len() && x[i] == s;
        assert(last_wins(a).contains_key(a[i].0));
        let j: int = choose|j: int| 0 <= j < b.len() && (#[trigger] b[j]).0 == s;
        assert(y[j] == s);
    }
    assert forall|s: Seq<char>| y.to_set().contains(s) implies #[trigger] x.to_set().contains(
        s,
    ) by {
        let i: int = choose|i: int| 0 <= i < y.len() && y[i] == s;
        assert(last_wins(b).contains_key(b[i].0));
        let j: int = choose|j: int| 0 <= j < a.len() && (#[trigger] a[j]).0 == s;
        assert(x[j] == s);
    }
    assert(x.to_set() =~= y.to_set());
    law_ascending_lists_are_unique(x, y);
    assert forall|i: int| 0 <= i < a.len() implies a[i] == b[i] by {
        assert(x[i] == y[i]);
        assert(last_wins(a)[a[i].0] == a[i].1);
        assert(last_wins(b)[b[i].0] == b[i].1);
    }
    assert(a =~= b);
}

/// The last item of an ascending list is the one with the greatest number.
proof fn lemma_ids_last(a: Seq<(u16, Seq<u8>)>, b: Seq<(u16, Seq<u8>)>)
    requires
        ids_ascending(a),
        ids_ascending(b),
        last_wins(a) == last_wins(b),
        a.len() > 0,
    ensures
        b.len() > 0,
        a.last() == b.last(),
        last_wins(a.drop_last()) == last_wins(b.drop_last()),
{
    assert(distinct_keys(a));
    assert(distinct_keys(b));
    lemma_last_wins_distinct(a);
    lemma_last_wins_distinct(b);
    let m: int = a.len() - 1;
    let n: int = b.len() - 1;
    assert(last_wins(b).contains_key(a[m].0));
    let i: int = choose|i: int| 0 <= i < b.len() && (#[trigger] b[i]).0 == a[m].0;
    assert(last_wins(a).contains_key(b[n].0));
    let j: int = choose|j: int| 0 <= j < a.len() && (#[trigger] a[j]).0 == b[n].0;
    assert(b[i].0 <= b[n].0);
    assert(a[j].0 <= a[m].0);
    lemma_last_wins_distinct(a.drop_last());
    lemma_last_wins_distinct(b.drop_last());
    assert(!last_wins(a.drop_last()).contains_key(a.last().0)) by {
        if last_wins(a.drop_last()).contains_key(a.last().0) {
            let k: int = choose|k: int|
                0 <= k < a.drop_last().len() && (#[trigger] a.drop_last()[k]).0 == a.last().0;
            assert(a[k].0 < a[m].0);
        }
    }
    assert(!last_wins(b.drop_last()).contains_key(b.last().0)) by {
        if last_wins(b.drop_last()).contains_key(b.last().0) {
            let k: int = choose|k: int|
                0 <= k < b.drop_last().len() && (#[trigger] b.drop_last()[k]).0 == b.last().0;
            assert(b[k].0 < b[n].0);
        }
    }
    assert(last_wins(a.drop_last()) =~= last_wins(a).remove(a.last().0));
    assert(last_wins(b.drop_last()) =~= last_wins(b).remove(b.last().0));
}

/// There is one way only to list manufacturer data in the order of the company numbers.
pub proof fn law_manufacturer_lists_are_unique(
    a: Seq<(u16, Seq<u8>)>,
    b: Seq<(u16, Seq<u8>)>,
)
    requires
        ids_ascending(a),
        ids_ascending(b),
        last_wins(a) == last_wins(b),
    ensures
        a == b,
    decreases a.len(),
{
    if a.len() > 0 {
        lemma_ids_last(a, b);
        law_manufacturer_lists_are_unique(a.drop_last(), b.drop_last());
        assert(a =~= a.drop_last().push(a.last()));
        assert(b =~= b.drop_last().push(b.last()));
    } else if b.len() > 0 {
        assert(last_wins(b).contains_key(b.last().0));
    } else {
        assert(a =~= b);
    }
}

} // verus!
