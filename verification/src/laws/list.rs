//! Laws of lists that are made by reading the items of another list.

use vstd::prelude::*;

verus! {

/// A list holds what could be read of the items of another, in their order, at the given
/// places: each item of the list was read at its place, and no place of a readable item
/// is left out.
pub open spec fn picked_at<A, B>(
    all: Seq<A>,
    readable: spec_fn(A) -> bool,
    reads: spec_fn(A, B) -> bool,
    list: Seq<B>,
    at: Seq<int>,
) -> bool {
    &&& at.len() == list.len()
    &&& forall|k: int|
        0 <= k < at.len() ==> 0 <= #[trigger] at[k] < all.len() && readable(all[at[k]]) && reads(
            all[at[k]],
            list[k],
        )
    &&& forall|k: int, m: int| 0 <= k < m < at.len() ==> #[trigger] at[k] < #[trigger] at[m]
    &&& forall|i: int| 0 <= i < all.len() && readable(#[trigger] all[i]) ==> at.contains(i)
}

/// A list holds what could be read of the readable items of another, in their order, and
/// nothing else.
pub open spec fn picked<A, B>(
    all: Seq<A>,
    readable: spec_fn(A) -> bool,
    reads: spec_fn(A, B) -> bool,
    list: Seq<B>,
) -> bool {
    exists|at: Seq<int>| #[trigger] picked_at(all, readable, reads, list, at)
}

proof fn lemma_filter_map_places<A, C>(all: Seq<A>, f: spec_fn(A) -> Option<C>) -> (at: Seq<int>)
    ensures
        at.len() == all.filter_map(f).len(),
        forall|k: int|
            0 <= k < at.len() ==> 0 <= #[trigger] at[k] < all.len() && f(all[at[k]]) == Some(
                all.filter_map(f)[k],
            ),
        forall|k: int, m: int| 0 <= k < m < at.len() ==> #[trigger] at[k] < #[trigger] at[m],
        forall|i: int| 0 <= i < all.len() && f(#[trigger] all[i]) is Some ==> at.contains(i),
    decreases all.len(),
{
    if all.len() == 0 {
        seq![]
    } else {
        let front: Seq<A> = all.drop_last();
        let last: int = all.len() - 1;
        let earlier: Seq<int> = lemma_filter_map_places(front, f);
        assert forall|k: int| 0 <= k < earlier.len() implies 0 <= #[trigger] earlier[k] < last
            && f(all[earlier[k]]) == Some(front.filter_map(f)[k]) by {
            assert(front[earlier[k]] == all[earlier[k]]);
        }
        match f(all.last()) {
            Some(item) => {
                let at: Seq<int> = earlier.push(last);
                assert(all.filter_map(f) == front.filter_map(f) + seq![item]);
                assert(at[earlier.len() as int] == last);
                assert forall|i: int| 0 <= i < all.len() && f(#[trigger] all[i]) is Some implies
                    at.contains(i) by {
                    if i < last {
                        assert(front[i] == all[i]);
                        let k: int = choose|k: int| 0 <= k < earlier.len() && earlier[k] == i;
                        assert(at[k] == i);
                    }
                }
                at
            },
            None => {
                assert forall|i: int| 0 <= i < all.len() && f(#[trigger] all[i]) is Some implies
                    earlier.contains(i) by {
                    assert(i < last);
                    assert(front[i] == all[i]);
                }
                earlier
            },
        }
    }
}

/// A list that has what a function makes of the items of another holds what can be read
/// of them.
pub proof fn lemma_filter_map_is_picked<A, B, C>(
    all: Seq<A>,
    f: spec_fn(A) -> Option<C>,
    list: Seq<B>,
    view: spec_fn(B) -> C,
    readable: spec_fn(A) -> bool,
    reads: spec_fn(A, B) -> bool,
)
    requires
        list.len() == all.filter_map(f).len(),
        forall|k: int| 0 <= k < list.len() ==> view(#[trigger] list[k]) == all.filter_map(f)[k],
        forall|a: A| #[trigger] readable(a) <==> f(a) is Some,
        forall|a: A, b: B| f(a) == Some(view(b)) ==> #[trigger] reads(a, b),
    ensures
        picked(all, readable, reads, list),
{
    let at: Seq<int> = lemma_filter_map_places(all, f);
    assert forall|k: int| 0 <= k < at.len() implies 0 <= #[trigger] at[k] < all.len() && readable(
        all[at[k]],
    ) && reads(all[at[k]], list[k]) by {
        assert(view(list[k]) == all.filter_map(f)[k]);
    }
    assert(picked_at(all, readable, reads, list, at));
}

/// A list that holds what can be read of the items of another has what a function makes
/// of them.
pub proof fn lemma_picked_is_filter_map<A, B, C>(
    all: Seq<A>,
    f: spec_fn(A) -> Option<C>,
    list: Seq<B>,
    view: spec_fn(B) -> C,
    readable: spec_fn(A) -> bool,
    reads: spec_fn(A, B) -> bool,
)
    requires
        picked(all, readable, reads, list),
        forall|a: A| f(a) is Some ==> #[trigger] readable(a),
        forall|a: A, b: B| #[trigger] reads(a, b) && readable(a) ==> f(a) == Some(view(b)),
    ensures
        all.filter_map(f).len() == list.len(),
        forall|k: int| 0 <= k < list.len() ==> all.filter_map(f)[k] == view(#[trigger] list[k]),
{
    let at: Seq<int> = choose|at: Seq<int>| #[trigger] picked_at(all, readable, reads, list, at);
    assert forall|k: int| 0 <= k < at.len() implies 0 <= #[trigger] at[k] < all.len() && f(
        all[at[k]],
    ) == Some(view(list[k])) by {
        assert(reads(all[at[k]], list[k]));
    }
    assert forall|i: int| 0 <= i < all.len() && f(#[trigger] all[i]) is Some implies at.contains(
        i,
    ) by {
        assert(readable(all[i]));
    }
    lemma_read_is_filter_map(all, f, list, view, at);
}

/// Where every item is readable, all of them are there: the list is as long as the other,
/// and each of its items was read at its own place.
pub proof fn law_nothing_is_lost_where_all_is_readable<A, B>(
    all: Seq<A>,
    readable: spec_fn(A) -> bool,
    reads: spec_fn(A, B) -> bool,
    list: Seq<B>,
)
    requires
        picked(all, readable, reads, list),
        forall|i: int| 0 <= i < all.len() ==> readable(#[trigger] all[i]),
    ensures
        list.len() == all.len(),
        forall|i: int| 0 <= i < all.len() ==> reads(all[i], #[trigger] list[i]),
{
    let at: Seq<int> = choose|at: Seq<int>| #[trigger] picked_at(all, readable, reads, list, at);
    assert forall|i: int| 0 <= i < all.len() implies #[trigger] at.contains(i) by {
        assert(readable(all[i]));
    }
    lemma_all_places(at, all.len() as int);
    assert forall|i: int| 0 <= i < all.len() implies reads(all[i], #[trigger] list[i]) by {
        assert(at[i] == i);
    }
}

proof fn lemma_all_places(at: Seq<int>, count: int)
    requires
        count >= 0,
        forall|k: int| 0 <= k < at.len() ==> 0 <= #[trigger] at[k] < count,
        forall|k: int, m: int| 0 <= k < m < at.len() ==> #[trigger] at[k] < #[trigger] at[m],
        forall|i: int| 0 <= i < count ==> #[trigger] at.contains(i),
    ensures
        at.len() == count,
        forall|k: int| 0 <= k < count ==> #[trigger] at[k] == k,
    decreases count,
{
    if count > 0 {
        let last: int = count - 1;
        assert(at.contains(last));
        let k: int = choose|k: int| 0 <= k < at.len() && at[k] == last;
        assert(k == at.len() - 1) by {
            if k < at.len() - 1 {
                assert(at[k] < at[k + 1]);
            }
        }
        let front: Seq<int> = at.drop_last();
        assert forall|i: int| 0 <= i < last implies #[trigger] front.contains(i) by {
            assert(at.contains(i));
            let m: int = choose|m: int| 0 <= m < at.len() && at[m] == i;
            assert(front[m] == i);
        }
        assert forall|m: int| 0 <= m < front.len() implies 0 <= #[trigger] front[m] < last by {
            assert(at[m] < at[k]);
        }
        assert forall|m: int, n: int| 0 <= m < n < front.len() implies #[trigger] front[m]
            < #[trigger] front[n] by {
            assert(at[m] < at[n]);
        }
        lemma_all_places(front, last);
        assert forall|m: int| 0 <= m < count implies #[trigger] at[m] == m by {
            if m < last {
                assert(front[m] == m);
            }
        }
    } else if at.len() > 0 {
        assert(0 <= at[0] < count);
    }
}

/// A list that was read at increasing places, where it was read wherever a function makes
/// something of an item, has what the function makes.
pub proof fn lemma_read_is_filter_map<A, B, C>(
    all: Seq<A>,
    f: spec_fn(A) -> Option<C>,
    list: Seq<B>,
    view: spec_fn(B) -> C,
    at: Seq<int>,
)
    requires
        at.len() == list.len(),
        forall|k: int|
            0 <= k < at.len() ==> 0 <= #[trigger] at[k] < all.len() && f(all[at[k]]) == Some(
                view(list[k]),
            ),
        forall|k: int, m: int| 0 <= k < m < at.len() ==> #[trigger] at[k] < #[trigger] at[m],
        forall|i: int| 0 <= i < all.len() && f(#[trigger] all[i]) is Some ==> at.contains(i),
    ensures
        all.filter_map(f).len() == list.len(),
        forall|k: int| 0 <= k < list.len() ==> all.filter_map(f)[k] == view(#[trigger] list[k]),
    decreases all.len(),
{
    if all.len() == 0 {
        if at.len() > 0 {
            assert(0 <= at[0] < all.len());
        }
    } else {
        let front: Seq<A> = all.drop_last();
        let last: int = all.len() - 1;
        assert forall|i: int| 0 <= i < last implies #[trigger] front[i] == all[i] by {}
        match f(all[last]) {
            Some(item) => {
                assert(at.contains(last));
                let k: int = choose|k: int| 0 <= k < at.len() && at[k] == last;
                assert(k == at.len() - 1) by {
                    if k < at.len() - 1 {
                        assert(at[k] < at[k + 1]);
                    }
                }
                let rest: Seq<int> = at.drop_last();
                let items: Seq<B> = list.drop_last();
                assert forall|m: int| 0 <= m < rest.len() implies 0 <= #[trigger] rest[m] < last
                    && f(front[rest[m]]) == Some(view(items[m])) by {
                    assert(at[m] < at[k]);
                }
                assert forall|m: int, n: int| 0 <= m < n < rest.len() implies #[trigger] rest[m]
                    < #[trigger] rest[n] by {
                    assert(at[m] < at[n]);
                }
                assert forall|i: int| 0 <= i < last && f(#[trigger] front[i]) is Some implies
                    rest.contains(i) by {
                    assert(f(all[i]) is Some);
                    let m: int = choose|m: int| 0 <= m < at.len() && at[m] == i;
                    assert(rest[m] == i);
                }
                lemma_read_is_filter_map(front, f, items, view, rest);
                assert(all.filter_map(f) == front.filter_map(f) + seq![item]);
                assert forall|m: int| 0 <= m < list.len() implies all.filter_map(f)[m] == view(
                    #[trigger] list[m],
                ) by {
                    if m < k {
                        assert(items[m] == list[m]);
                    } else {
                        assert(f(all[at[m]]) == Some(view(list[m])));
                    }
                }
            },
            None => {
                assert forall|m: int| 0 <= m < at.len() implies 0 <= #[trigger] at[m] < last && f(
                    front[at[m]],
                ) == Some(view(list[m])) by {
                    assert(at[m] != last);
                }
                assert forall|i: int| 0 <= i < last && f(#[trigger] front[i]) is Some implies
                    at.contains(i) by {
                    assert(f(all[i]) is Some);
                }
                lemma_read_is_filter_map(front, f, list, view, at);
            },
        }
    }
}

} // verus!
