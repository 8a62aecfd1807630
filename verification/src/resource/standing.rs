//! Lists in which some members stand in an order that is asked for.

use vstd::prelude::*;

use crate::resource::sorting::{
    asked_for, asked_for_members, ids_in_places, in_places, new_order_keeps_the_rest, order_in_place_stays,
    placed_before, relative_order, sorting_holds_the_same, sorting_puts_in_places,
};

verus! {

/// Whether the members that are asked for stand in a list one behind the other, as they
/// are asked for.
pub open spec fn stand_as_asked(list: Seq<u64>, asked: Seq<u64>) -> bool {
    forall|i: int, j: int|
        0 <= i < j < asked.len() ==> list.index_of(#[trigger] asked[i]) < list.index_of(#[trigger] asked[j])
}

proof fn place_in_rest(list: Seq<u64>, x: u64)
    requires
        list.no_duplicates(),
        list.len() > 0,
        list.contains(x),
    ensures
        x == list[0] ==> list.index_of(x) == 0,
        x != list[0] ==> list.drop_first().contains(x) && list.index_of(x) == list.drop_first().index_of(x) + 1,
        0 <= list.index_of(x) < list.len(),
        list[list.index_of(x)] == x,
{
    let i = list.index_of(x);
    assert(list[i] == x);
    if x != list[0] {
        assert(list.drop_first()[i - 1] == x);
        let k = list.drop_first().index_of(x);
        assert(list[k + 1] == x);
    }
}

proof fn asked_for_stand_in_order(list: Seq<u64>, asked: Seq<u64>)
    requires
        list.no_duplicates(),
    ensures
        stand_as_asked(list, asked_for(list, asked)),
    decreases list.len(),
{
    let found = asked_for(list, asked);
    if list.len() > 0 {
        let rest = list.drop_first();
        let found_rest = asked_for(rest, asked);
        asked_for_stand_in_order(rest, asked);
        asked_for_members(list, asked);
        asked_for_members(rest, asked);
        assert forall|i: int, j: int| 0 <= i < j < found.len() implies list.index_of(#[trigger] found[i])
            < list.index_of(#[trigger] found[j]) by {
            assert(found.contains(found[i]) && found.contains(found[j]));
            place_in_rest(list, found[i]);
            place_in_rest(list, found[j]);
            let shift: int = if asked.contains(list[0]) {
                1
            } else {
                0
            };
            assert(found[j] == found_rest[j - shift]);
            assert(found_rest.contains(found[j]));
            assert(rest.contains(found[j]));
            let m = rest.index_of(found[j]);
            assert(rest[m] == list[m + 1]);
            assert(found[j] != list[0]);
            if i - shift >= 0 {
                assert(found[i] == found_rest[i - shift]);
                assert(found_rest.contains(found[i]));
                assert(rest.contains(found[i]));
                let n = rest.index_of(found[i]);
                assert(rest[n] == list[n + 1]);
                assert(found[i] != list[0]);
                assert(rest.index_of(found_rest[i - shift]) < rest.index_of(found_rest[j - shift]));
            } else {
                assert(found[i] == list[0]);
            }
        }
    }
}

proof fn same_standing_same_list(list: Seq<u64>, a: Seq<u64>, b: Seq<u64>)
    requires
        stand_as_asked(list, a),
        stand_as_asked(list, b),
        forall|x: u64| #[trigger] a.contains(x) <==> b.contains(x),
    ensures
        a == b,
    decreases a.len(),
{
    if a.len() == 0 {
        if b.len() > 0 {
            assert(b.contains(b[0]));
            assert(a.contains(b[0]));
        }
        assert(a =~= b);
    } else {
        assert(a.contains(a.last()));
        assert(b.contains(a.last()));
        assert(b.contains(b.last()));
        assert(a.contains(b.last()));
        let i = a.index_of(b.last());
        let j = b.index_of(a.last());
        if i < a.len() - 1 {
            assert(list.index_of(a[i]) < list.index_of(a[a.len() - 1]));
        }
        if j < b.len() - 1 {
            assert(list.index_of(b[j]) < list.index_of(b[b.len() - 1]));
        }
        assert(a.last() == b.last());
        let a0 = a.drop_last();
        let b0 = b.drop_last();
        assert forall|x: u64| #[trigger] a0.contains(x) <==> b0.contains(x) by {
            if a0.contains(x) {
                let k = a0.index_of(x);
                assert(a[k] == x);
                assert(list.index_of(a[k]) < list.index_of(a[a.len() - 1]));
                assert(a.contains(x));
                let m = b.index_of(x);
                assert(b0[m] == x);
            }
            if b0.contains(x) {
                let k = b0.index_of(x);
                assert(b[k] == x);
                assert(list.index_of(b[k]) < list.index_of(b[b.len() - 1]));
                assert(b.contains(x));
                assert(a.contains(x));
                let m = a.index_of(x);
                assert(a0[m] == x);
            }
        }
        same_standing_same_list(list, a0, b0);
        assert(a =~= a0.push(a.last()));
        assert(b =~= b0.push(b.last()));
    }
}

/// A new order of a list is another one exactly where the members that are asked for do not
/// stand as they are asked for. It holds the same members, each once, has those that are
/// asked for as they are asked for, and all others in their places.
pub proof fn new_orders_stand_as_asked(list: Seq<u64>, asked: Seq<u64>, fixed: Seq<u64>)
    requires
        relative_order(list, asked, fixed) is Some,
    ensures
        ({
            let order = relative_order(list, asked, fixed)->0;
            &&& order == list <==> stand_as_asked(list, asked)
            &&& stand_as_asked(order, asked)
            &&& order.no_duplicates()
            &&& order.len() == list.len()
            &&& order.to_multiset() == list.to_multiset()
            &&& forall|i: int|
                0 <= i < list.len() && (!asked.contains(#[trigger] list[i]) || fixed.contains(list[i])) ==> order[i]
                    == list[i]
        }),
{
    let order = relative_order(list, asked, fixed)->0;
    new_order_keeps_the_rest(list, asked, fixed);
    asked_for_stand_in_order(order, asked);
    assert forall|i: int|
        0 <= i < list.len() && (!asked.contains(#[trigger] list[i]) || fixed.contains(list[i])) implies order[i]
        == list[i] by {
        assert(relative_order(list, asked, fixed)->0[i] == list[i]);
    }
    if stand_as_asked(list, asked) {
        let found = asked_for(list, asked);
        asked_for_stand_in_order(list, asked);
        asked_for_members(list, asked);
        assert forall|x: u64| #[trigger] found.contains(x) <==> asked.contains(x) by {
            if asked.contains(x) {
                let k = asked.index_of(x);
                assert(list.contains(asked[k]));
            }
        }
        same_standing_same_list(list, found, asked);
        order_in_place_stays(list, asked, fixed);
    }
}

/// A list in which the members that are asked for stand as they are asked for is kept.
pub proof fn standing_orders_are_kept(list: Seq<u64>, asked: Seq<u64>, fixed: Seq<u64>)
    requires
        list.no_duplicates(),
        stand_as_asked(list, asked),
        forall|k: int| 0 <= k < asked.len() ==> list.contains(#[trigger] asked[k]),
    ensures
        relative_order(list, asked, fixed) == Some(list),
{
    let found = asked_for(list, asked);
    asked_for_stand_in_order(list, asked);
    asked_for_members(list, asked);
    assert forall|x: u64| #[trigger] found.contains(x) <==> asked.contains(x) by {
        if asked.contains(x) {
            let k = asked.index_of(x);
            assert(list.contains(asked[k]));
        }
    }
    same_standing_same_list(list, found, asked);
    order_in_place_stays(list, asked, fixed);
}

/// Whether one thing with a place comes before another: by its rank, or by its identifier
/// where the ranks are equal.
pub open spec fn comes_before(a: (i64, u64), b: (i64, u64)) -> bool {
    a.0 < b.0 || a.0 == b.0 && a.1 < b.1
}

/// Things in the order of their places are listed by identifier, each as often as it is
/// there, and one behind the other as their places tell.
pub proof fn places_tell_the_order(items: Seq<(i64, u64)>)
    ensures
        ({
            let ids = ids_in_places(items);
            &&& ids.len() == items.len()
            &&& forall|id: u64|
                #[trigger] ids.contains(id) <==> exists|k: int| 0 <= k < items.len() && (#[trigger] items[k]).1 == id
            &&& ids.no_duplicates() <==> forall|i: int, j: int|
                0 <= i < j < items.len() ==> (#[trigger] items[i]).1 != (#[trigger] items[j]).1
            &&& ids.no_duplicates() ==> forall|i: int, j: int|
                0 <= i < items.len() && 0 <= j < items.len() ==> (ids.index_of((#[trigger] items[i]).1) < ids.index_of(
                    (#[trigger] items[j]).1,
                ) <==> comes_before(items[i], items[j]))
        }),
{
    broadcast use vstd::seq_lib::group_to_multiset_ensures;

    let sorted = in_places(items);
    let ids = ids_in_places(items);
    sorting_holds_the_same(items);
    sorting_puts_in_places(items);
    assert(sorted.to_multiset().len() == items.to_multiset().len());
    assert forall|id: u64| #[trigger] ids.contains(id) <==> exists|k: int|
        0 <= k < items.len() && (#[trigger] items[k]).1 == id by {
        if ids.contains(id) {
            let i = ids.index_of(id);
            assert(sorted.to_multiset().count(sorted[i]) > 0);
            assert(items.contains(sorted[i]));
            let k = items.index_of(sorted[i]);
            assert(items[k].1 == id);
        }
        if exists|k: int| 0 <= k < items.len() && (#[trigger] items[k]).1 == id {
            let k = choose|k: int| 0 <= k < items.len() && (#[trigger] items[k]).1 == id;
            assert(items.to_multiset().count(items[k]) > 0);
            assert(sorted.contains(items[k]));
            let i = sorted.index_of(items[k]);
            assert(ids[i] == id);
        }
    }
    let of = items.map_values(|item: (i64, u64)| item.1);
    same_items_same_ids(sorted, items);
    if ids.no_duplicates() {
        ids.lemma_multiset_has_no_duplicates();
        assert forall|x: u64| of.to_multiset().contains(x) implies #[trigger] of.to_multiset().count(x) == 1 by {}
        of.lemma_multiset_has_no_duplicates_conv();
        assert forall|i: int, j: int| 0 <= i < j < items.len() implies (#[trigger] items[i]).1 != (
        #[trigger] items[j]).1 by {
            assert(of[i] != of[j]);
        }
        assert forall|i: int, j: int| 0 <= i < items.len() && 0 <= j < items.len() implies (ids.index_of(
            (#[trigger] items[i]).1,
        ) < ids.index_of((#[trigger] items[j]).1) <==> comes_before(items[i], items[j])) by {
            assert(items.to_multiset().count(items[i]) > 0);
            assert(items.to_multiset().count(items[j]) > 0);
            assert(sorted.contains(items[i]) && sorted.contains(items[j]));
            let a = sorted.index_of(items[i]);
            let b = sorted.index_of(items[j]);
            assert(ids[a] == items[i].1 && ids[b] == items[j].1);
            let c = ids.index_of(items[i].1);
            let d = ids.index_of(items[j].1);
            assert(ids[c] == ids[a] && ids[d] == ids[b]);
            assert(c == a && d == b);
            if a < b {
                assert(!placed_before(sorted[b], sorted[a]));
                assert(ids[a] != ids[b]);
            } else if b < a {
                assert(!placed_before(sorted[a], sorted[b]));
                assert(ids[a] != ids[b]);
            }
        }
    } else {
        if forall|i: int, j: int| 0 <= i < j < items.len() ==> (#[trigger] items[i]).1 != (#[trigger] items[j]).1 {
            assert(of.no_duplicates()) by {
                assert forall|i: int, j: int| 0 <= i < of.len() && 0 <= j < of.len() && i != j implies of[i] != of[j] by {
                    if i < j {
                        assert(items[i].1 != items[j].1);
                    } else {
                        assert(items[j].1 != items[i].1);
                    }
                }
            }
            of.lemma_multiset_has_no_duplicates();
            assert forall|x: u64| ids.to_multiset().contains(x) implies #[trigger] ids.to_multiset().count(x) == 1 by {}
            ids.lemma_multiset_has_no_duplicates_conv();
        }
    }
}

proof fn same_items_same_ids(a: Seq<(i64, u64)>, b: Seq<(i64, u64)>)
    requires
        a.to_multiset() == b.to_multiset(),
    ensures
        a.map_values(|item: (i64, u64)| item.1).to_multiset() == b.map_values(|item: (i64, u64)| item.1).to_multiset(),
    decreases a.len(),
{
    broadcast use vstd::seq_lib::group_to_multiset_ensures;

    let of = |item: (i64, u64)| item.1;
    assert(a.len() == a.to_multiset().len() && b.len() == b.to_multiset().len());
    if a.len() > 0 {
        let last = a.last();
        assert(a.to_multiset().count(last) > 0);
        assert(b.contains(last));
        let k = b.index_of(last);
        let rest = b.remove(k);
        assert(a.drop_last().push(last) =~= a);
        assert(b =~= rest.insert(k, last));
        assert(a.drop_last().to_multiset() =~= rest.to_multiset());
        same_items_same_ids(a.drop_last(), rest);
        assert(a.map_values(of) =~= a.drop_last().map_values(of).push(last.1));
        assert(b.map_values(of) =~= rest.map_values(of).insert(k, last.1));
        assert(rest.map_values(of).insert(k, last.1).to_multiset() == rest.map_values(of).to_multiset().insert(last.1));
    } else {
        assert(a.map_values(of) =~= b.map_values(of));
    }
}

} // verus!
