//! The order of roles and channels, and how it is changed.

use vstd::prelude::*;

use crate::ids::DiscordId;
use crate::value::seen;

verus! {

/// Something with a place: a rank, and an identifier that decides between equal ranks.
pub open spec fn placed_before(a: (i64, u64), b: (i64, u64)) -> bool {
    a.0 < b.0 || (a.0 == b.0 && a.1 < b.1)
}

/// Sorted things with one more, put before the first that it comes before.
pub open spec fn with_placed(sorted: Seq<(i64, u64)>, item: (i64, u64)) -> Seq<(i64, u64)>
    decreases sorted.len(),
{
    if sorted.len() == 0 {
        seq![item]
    } else if placed_before(item, sorted[0]) {
        seq![item] + sorted
    } else {
        seq![sorted[0]] + with_placed(sorted.drop_first(), item)
    }
}

/// Things in the order of their places.
pub open spec fn in_places(items: Seq<(i64, u64)>) -> Seq<(i64, u64)>
    decreases items.len(),
{
    if items.len() == 0 {
        items
    } else {
        with_placed(in_places(items.drop_last()), items.last())
    }
}

/// The identifiers of things in the order of their places.
pub open spec fn ids_in_places(items: Seq<(i64, u64)>) -> Seq<u64> {
    in_places(items).map_values(|item: (i64, u64)| item.1)
}

proof fn with_placed_past(sorted: Seq<(i64, u64)>, item: (i64, u64), n: int)
    requires
        0 <= n <= sorted.len(),
        forall|k: int| 0 <= k < n ==> !placed_before(item, #[trigger] sorted[k]),
        n < sorted.len() ==> placed_before(item, sorted[n]),
    ensures
        with_placed(sorted, item) == sorted.insert(n, item),
    decreases n,
{
    if n == 0 {
        if sorted.len() == 0 {
            assert(sorted.insert(0, item) =~= seq![item]);
        } else {
            assert(sorted.insert(0, item) =~= seq![item] + sorted);
        }
    } else {
        assert(!placed_before(item, sorted[0]));
        let rest = sorted.drop_first();
        assert forall|k: int| 0 <= k < n - 1 implies !placed_before(item, #[trigger] rest[k]) by {
            assert(rest[k] == sorted[k + 1]);
        }
        with_placed_past(rest, item, n - 1);
        assert(sorted.insert(n, item) =~= seq![sorted[0]] + rest.insert(n - 1, item));
    }
}

/// Sorts things by their places.
pub fn sort_by_place(items: &Vec<(i64, u64)>) -> (sorted: Vec<(i64, u64)>)
    ensures
        sorted@ == in_places(items@),
{
    let mut sorted: Vec<(i64, u64)> = Vec::new();
    let mut i: usize = 0;
    assert(items@.take(0) =~= Seq::empty());
    while i < items.len()
        invariant
            i <= items@.len(),
            sorted@ == in_places(items@.take(i as int)),
        decreases items@.len() - i,
    {
        let item: (i64, u64) = items[i];
        let mut n: usize = 0;
        while n < sorted.len() && !(item.0 < sorted[n].0 || (item.0 == sorted[n].0 && item.1 < sorted[n].1))
            invariant
                n <= sorted@.len(),
                forall|k: int| 0 <= k < n ==> !placed_before(item, #[trigger] sorted@[k]),
            decreases sorted@.len() - n,
        {
            n += 1;
        }
        proof {
            with_placed_past(sorted@, item, n as int);
            assert(items@.take(i + 1).drop_last() =~= items@.take(i as int));
            assert(items@.take(i + 1).last() == item);
        }
        sorted.insert(n, item);
        i += 1;
    }
    assert(items@.take(i as int) =~= items@);
    sorted
}

proof fn with_placed_holds_the_same(sorted: Seq<(i64, u64)>, item: (i64, u64))
    ensures
        with_placed(sorted, item).to_multiset() == sorted.to_multiset().insert(item),
    decreases sorted.len(),
{
    broadcast use vstd::seq_lib::group_to_multiset_ensures;

    if sorted.len() == 0 {
        assert(seq![item] =~= sorted.push(item));
    } else if placed_before(item, sorted[0]) {
        assert(seq![item] + sorted =~= sorted.insert(0, item));
    } else {
        let rest = sorted.drop_first();
        with_placed_holds_the_same(rest, item);
        let after = with_placed(rest, item);
        assert(seq![sorted[0]] + after =~= after.insert(0, sorted[0]));
        assert(rest.insert(0, sorted[0]) =~= sorted);
        assert(after.to_multiset().insert(sorted[0]) =~= sorted.to_multiset().insert(item));
    }
}

/// Sorting keeps every thing as often as it was there.
pub proof fn sorting_holds_the_same(items: Seq<(i64, u64)>)
    ensures
        in_places(items).to_multiset() == items.to_multiset(),
    decreases items.len(),
{
    broadcast use vstd::seq_lib::group_to_multiset_ensures;

    if items.len() > 0 {
        sorting_holds_the_same(items.drop_last());
        with_placed_holds_the_same(in_places(items.drop_last()), items.last());
        assert(items.drop_last().push(items.last()) =~= items);
    }
}

/// Whether nothing comes after something that it should come before.
pub open spec fn is_in_places(items: Seq<(i64, u64)>) -> bool {
    forall|i: int, j: int|
        0 <= i < j < items.len() ==> !placed_before(#[trigger] items[j], #[trigger] items[i])
}

proof fn with_placed_is_sorted(sorted: Seq<(i64, u64)>, item: (i64, u64))
    requires
        is_in_places(sorted),
    ensures
        is_in_places(with_placed(sorted, item)),
        forall|k: int|
            0 <= k < with_placed(sorted, item).len() ==> (#[trigger] with_placed(sorted, item)[k] == item
                || sorted.contains(with_placed(sorted, item)[k])),
    decreases sorted.len(),
{
    let after = with_placed(sorted, item);
    if sorted.len() == 0 {
    } else if placed_before(item, sorted[0]) {
        assert forall|k: int| 0 <= k < after.len() implies #[trigger] after[k] == item || sorted.contains(
            after[k],
        ) by {
            if k > 0 {
                assert(after[k] == sorted[k - 1]);
            }
        }
        assert forall|i: int, j: int| 0 <= i < j < after.len() implies !placed_before(
            #[trigger] after[j],
            #[trigger] after[i],
        ) by {
            if i > 0 {
                assert(!placed_before(sorted[j - 1], sorted[i - 1]));
            } else if j - 1 > 0 {
                assert(!placed_before(sorted[j - 1], sorted[0]));
            }
        }
    } else {
        let rest = sorted.drop_first();
        assert forall|i: int, j: int| 0 <= i < j < rest.len() implies !placed_before(
            #[trigger] rest[j],
            #[trigger] rest[i],
        ) by {
            assert(!placed_before(sorted[j + 1], sorted[i + 1]));
        }
        with_placed_is_sorted(rest, item);
        let tail = with_placed(rest, item);
        assert forall|k: int| 0 <= k < after.len() implies #[trigger] after[k] == item || sorted.contains(
            after[k],
        ) by {
            if k > 0 {
                assert(after[k] == tail[k - 1]);
                if tail[k - 1] != item {
                    let m = rest.index_of(tail[k - 1]);
                    assert(sorted[m + 1] == tail[k - 1]);
                }
            } else {
                assert(after[0] == sorted[0]);
            }
        }
        assert forall|i: int, j: int| 0 <= i < j < after.len() implies !placed_before(
            #[trigger] after[j],
            #[trigger] after[i],
        ) by {
            assert(after[j] == tail[j - 1]);
            if i > 0 {
                assert(after[i] == tail[i - 1]);
            } else if tail[j - 1] != item {
                let m = rest.index_of(tail[j - 1]);
                assert(sorted[m + 1] == tail[j - 1]);
                assert(!placed_before(sorted[m + 1], sorted[0]));
            }
        }
    }
}

/// Sorting puts everything into place.
pub proof fn sorting_puts_in_places(items: Seq<(i64, u64)>)
    ensures
        is_in_places(in_places(items)),
    decreases items.len(),
{
    if items.len() > 0 {
        sorting_puts_in_places(items.drop_last());
        with_placed_is_sorted(in_places(items.drop_last()), items.last());
    }
}

/// The members of a list that another list asks for, in their order.
pub open spec fn asked_for(list: Seq<u64>, asked: Seq<u64>) -> Seq<u64>
    decreases list.len(),
{
    if list.len() == 0 {
        list
    } else if asked.contains(list[0]) {
        seq![list[0]] + asked_for(list.drop_first(), asked)
    } else {
        asked_for(list.drop_first(), asked)
    }
}

/// A list in which those that are asked for stand in the order they are asked
/// for, from the `n`th on, and all others stay where they are.
pub open spec fn reordered(list: Seq<u64>, asked: Seq<u64>, n: int) -> Seq<u64>
    decreases list.len(),
{
    if list.len() == 0 {
        list
    } else if asked.contains(list[0]) {
        seq![asked[n]] + reordered(list.drop_first(), asked, n + 1)
    } else {
        seq![list[0]] + reordered(list.drop_first(), asked, n)
    }
}

/// Whether everything that is fixed stays where it is, and nothing comes before
/// it that was not before it.
pub open spec fn keeps_fixed(list: Seq<u64>, desired: Seq<u64>, fixed: Seq<u64>) -> bool {
    forall|i: int|
        0 <= i < list.len() && fixed.contains(#[trigger] list[i]) ==> desired[i] == list[i] && forall|k: int|
            0 <= k < i ==> list.take(i).contains(#[trigger] desired[k])
}

/// A list with those that are asked for in the order they are asked for. There
/// is none where something is listed or asked for twice, where something is
/// asked for that is not listed, and where something fixed would be passed.
pub open spec fn relative_order(list: Seq<u64>, asked: Seq<u64>, fixed: Seq<u64>) -> Option<Seq<u64>> {
    if list.no_duplicates() && asked.no_duplicates() && (forall|k: int|
        0 <= k < asked.len() ==> list.contains(#[trigger] asked[k])) && keeps_fixed(
        list,
        reordered(list, asked, 0),
        fixed,
    ) {
        Some(reordered(list, asked, 0))
    } else {
        None
    }
}

/// Each asked for member is asked for and listed, and none twice.
pub(crate) proof fn asked_for_members(list: Seq<u64>, asked: Seq<u64>)
    requires
        list.no_duplicates(),
    ensures
        asked_for(list, asked).no_duplicates(),
        forall|x: u64| #[trigger] asked_for(list, asked).contains(x) <==> list.contains(x) && asked.contains(x),
    decreases list.len(),
{
    if list.len() > 0 {
        let rest = list.drop_first();
        assert(rest.no_duplicates()) by {
            assert forall|i: int, j: int| 0 <= i < rest.len() && 0 <= j < rest.len() && i != j implies rest[i]
                != rest[j] by {
                assert(list[i + 1] != list[j + 1]);
            }
        }
        asked_for_members(rest, asked);
        let tail = asked_for(rest, asked);
        assert forall|x: u64| list.contains(x) <==> x == list[0] || rest.contains(x) by {
            if list.contains(x) && x != list[0] {
                let i = list.index_of(x);
                assert(rest[i - 1] == x);
            }
            if rest.contains(x) {
                let i = rest.index_of(x);
                assert(list[i + 1] == x);
            }
        }
        assert(!rest.contains(list[0])) by {
            if rest.contains(list[0]) {
                let i = rest.index_of(list[0]);
                assert(list[i + 1] == list[0]);
            }
        }
        if asked.contains(list[0]) {
            let all = seq![list[0]] + tail;
            assert(!tail.contains(list[0]));
            assert forall|i: int, j: int| 0 <= i < all.len() && 0 <= j < all.len() && i != j implies all[i]
                != all[j] by {
                if i == 0 {
                    assert(tail.contains(tail[j - 1]));
                } else if j == 0 {
                    assert(tail.contains(tail[i - 1]));
                } else {
                    assert(tail[i - 1] != tail[j - 1]);
                }
            }
            assert forall|x: u64| #[trigger] all.contains(x) <==> list.contains(x) && asked.contains(x) by {
                if all.contains(x) && x != list[0] {
                    let i = all.index_of(x);
                    assert(tail[i - 1] == x);
                    assert(tail.contains(x));
                }
                if x == list[0] {
                    assert(all[0] == x);
                } else if tail.contains(x) {
                    let i = tail.index_of(x);
                    assert(all[i + 1] == x);
                }
            }
        }
    } else {
        assert forall|x: u64| !asked_for(list, asked).contains(x) by {}
    }
}

/// No more members are asked for than there are in the list that asks.
proof fn asked_for_at_most(list: Seq<u64>, asked: Seq<u64>)
    requires
        list.no_duplicates(),
    ensures
        asked_for(list, asked).len() <= asked.len(),
{
    asked_for_members(list, asked);
    let some = asked_for(list, asked);
    some.unique_seq_to_set();
    assert(some.to_set().subset_of(asked.to_set())) by {
        assert forall|x: u64| some.to_set().contains(x) implies asked.to_set().contains(x) by {
            assert(some.contains(x));
        }
    }
    vstd::set_lib::lemma_len_subset(some.to_set(), asked.to_set());
    asked.lemma_cardinality_of_set();
}

/// All are found that are asked for and listed.
proof fn asked_for_all(list: Seq<u64>, asked: Seq<u64>)
    requires
        list.no_duplicates(),
        asked.no_duplicates(),
        forall|k: int| 0 <= k < asked.len() ==> list.contains(#[trigger] asked[k]),
    ensures
        asked_for(list, asked).len() == asked.len(),
        asked_for(list, asked).to_multiset() == asked.to_multiset(),
{
    asked_for_members(list, asked);
    let some = asked_for(list, asked);
    some.unique_seq_to_set();
    asked.unique_seq_to_set();
    assert(some.to_set() =~= asked.to_set()) by {
        assert forall|x: u64| some.to_set().contains(x) <==> asked.to_set().contains(x) by {
            if asked.contains(x) {
                let k = asked.index_of(x);
                assert(list.contains(asked[k]));
                assert(some.contains(x));
            }
            if some.to_set().contains(x) {
                assert(some.contains(x));
            }
        }
    }
    some.lemma_multiset_has_no_duplicates();
    asked.lemma_multiset_has_no_duplicates();
    assert(some.to_multiset() =~= asked.to_multiset()) by {
        broadcast use vstd::seq_lib::group_to_multiset_ensures;

        assert forall|x: u64| #[trigger] some.to_multiset().count(x) == asked.to_multiset().count(x) by {
            if some.contains(x) {
                assert(some.to_set().contains(x));
                assert(asked.to_set().contains(x));
                assert(asked.contains(x));
                assert(some.to_multiset().contains(x));
                assert(asked.to_multiset().contains(x));
            } else {
                assert(!some.to_set().contains(x));
                assert(!asked.contains(x)) by {
                    if asked.contains(x) {
                        assert(asked.to_set().contains(x));
                    }
                }
            }
        }
    }
}

proof fn reordered_parts(list: Seq<u64>, asked: Seq<u64>, n: int)
    requires
        0 <= n,
        n + asked_for(list, asked).len() <= asked.len(),
    ensures
        reordered(list, asked, n).len() == list.len(),
        forall|i: int|
            0 <= i < list.len() && !asked.contains(list[i]) ==> #[trigger] reordered(list, asked, n)[i] == list[i],
        asked_for(reordered(list, asked, n), asked) == asked.subrange(n, n + asked_for(list, asked).len()),
        reordered(list, asked, n).to_multiset().add(asked_for(list, asked).to_multiset())
            == list.to_multiset().add(asked.subrange(n, n + asked_for(list, asked).len()).to_multiset()),
    decreases list.len(),
{
    broadcast use vstd::seq_lib::group_to_multiset_ensures;

    let found = asked_for(list, asked);
    let k = found.len() as int;
    if list.len() == 0 {
        assert(asked.subrange(n, n) =~= Seq::empty());
        assert(asked_for(reordered(list, asked, n), asked) =~= asked.subrange(n, n + k));
        assert(found =~= asked.subrange(n, n + k));
    } else {
        let rest = list.drop_first();
        assert(list =~= rest.insert(0, list[0]));
        if asked.contains(list[0]) {
            let tail = asked_for(rest, asked);
            assert(found =~= tail.insert(0, list[0]));
            reordered_parts(rest, asked, n + 1);
            let after = reordered(rest, asked, n + 1);
            let all = seq![asked[n]] + after;
            assert(all =~= after.insert(0, asked[n]));
            assert(all.drop_first() =~= after);
            let part = asked.subrange(n + 1, n + k);
            assert(asked.subrange(n, n + k) =~= part.insert(0, asked[n]));
            assert(asked.subrange(n, n + k) =~= seq![asked[n]] + part);
            assert(asked.contains(asked[n]));
            assert forall|i: int| 0 <= i < list.len() && !asked.contains(list[i]) implies #[trigger] all[i]
                == list[i] by {
                assert(rest[i - 1] == list[i]);
                assert(after[i - 1] == rest[i - 1]);
            }
            let left = all.to_multiset().add(found.to_multiset());
            let right = list.to_multiset().add(asked.subrange(n, n + k).to_multiset());
            assert(left =~= after.to_multiset().add(tail.to_multiset()).insert(asked[n]).insert(list[0]));
            assert(right =~= rest.to_multiset().add(part.to_multiset()).insert(asked[n]).insert(list[0]));
        } else {
            reordered_parts(rest, asked, n);
            let after = reordered(rest, asked, n);
            let all = seq![list[0]] + after;
            assert(all =~= after.insert(0, list[0]));
            assert(all.drop_first() =~= after);
            assert forall|i: int| 0 <= i < list.len() && !asked.contains(list[i]) implies #[trigger] all[i]
                == list[i] by {
                if i > 0 {
                    assert(rest[i - 1] == list[i]);
                    assert(after[i - 1] == rest[i - 1]);
                }
            }
            let part = asked.subrange(n, n + k);
            let left = all.to_multiset().add(found.to_multiset());
            let right = list.to_multiset().add(part.to_multiset());
            assert(left =~= after.to_multiset().add(found.to_multiset()).insert(list[0]));
            assert(right =~= rest.to_multiset().add(part.to_multiset()).insert(list[0]));
        }
    }
}

/// What a new order holds: the same members; those that are asked for, in the
/// order they are asked for; all others, and all that are fixed, where they were.
pub proof fn new_order_keeps_the_rest(list: Seq<u64>, asked: Seq<u64>, fixed: Seq<u64>)
    requires
        relative_order(list, asked, fixed) is Some,
    ensures
        relative_order(list, asked, fixed)->0.to_multiset() == list.to_multiset(),
        relative_order(list, asked, fixed)->0.len() == list.len(),
        relative_order(list, asked, fixed)->0.no_duplicates(),
        asked_for(relative_order(list, asked, fixed)->0, asked) == asked,
        forall|i: int|
            0 <= i < list.len() && (!asked.contains(list[i]) || fixed.contains(list[i]))
                ==> #[trigger] relative_order(list, asked, fixed)->0[i] == list[i],
{
    broadcast use vstd::seq_lib::group_to_multiset_ensures;

    asked_for_all(list, asked);
    reordered_parts(list, asked, 0);
    let desired = reordered(list, asked, 0);
    assert(asked.subrange(0, asked.len() as int) =~= asked);
    assert(desired.to_multiset() =~= list.to_multiset()) by {
        assert forall|x: u64| #[trigger] desired.to_multiset().count(x) == list.to_multiset().count(x) by {
            let left = desired.to_multiset().add(asked_for(list, asked).to_multiset());
            let right = list.to_multiset().add(asked.to_multiset());
            assert(left.count(x) == right.count(x));
        }
    }
    list.lemma_multiset_has_no_duplicates();
    desired.lemma_multiset_has_no_duplicates_conv();
    assert forall|i: int| 0 <= i < list.len() && fixed.contains(list[i]) implies #[trigger] desired[i] == list[i] by {
        assert(fixed.contains(list[i]));
    }
}

/// Where those that are asked for stand in that order already, nothing moves.
proof fn reordered_in_order(list: Seq<u64>, asked: Seq<u64>, n: int)
    requires
        0 <= n,
        n + asked_for(list, asked).len() <= asked.len(),
        asked_for(list, asked) == asked.subrange(n, n + asked_for(list, asked).len()),
    ensures
        reordered(list, asked, n) == list,
    decreases list.len(),
{
    if list.len() > 0 {
        let rest = list.drop_first();
        if asked.contains(list[0]) {
            let found = asked_for(list, asked);
            assert(found[0] == asked[n]);
            let tail = asked_for(rest, asked);
            assert(tail =~= found.drop_first());
            assert(tail =~= asked.subrange(n + 1, n + 1 + tail.len()));
            reordered_in_order(rest, asked, n + 1);
        } else {
            reordered_in_order(rest, asked, n);
        }
        assert(seq![list[0]] + rest =~= list);
    }
}

/// A list stays as it is where those that are asked for stand in that order already.
pub proof fn order_in_place_stays(list: Seq<u64>, asked: Seq<u64>, fixed: Seq<u64>)
    requires
        list.no_duplicates(),
        asked_for(list, asked) == asked,
    ensures
        relative_order(list, asked, fixed) == Some(list),
{
    asked_for_members(list, asked);
    assert(asked.subrange(0, asked.len() as int) =~= asked);
    reordered_in_order(list, asked, 0);
    assert forall|k: int| 0 <= k < asked.len() implies list.contains(#[trigger] asked[k]) by {
        assert(asked_for(list, asked).contains(asked[k]));
    }
    assert forall|i: int| 0 <= i < list.len() && fixed.contains(#[trigger] list[i]) implies forall|k: int|
        0 <= k < i ==> list.take(i).contains(#[trigger] list[k]) by {
        assert forall|k: int| 0 <= k < i implies list.take(i).contains(#[trigger] list[k]) by {
            assert(list.take(i)[k] == list[k]);
        }
    }
}

/// A new order is kept when it is asked for again.
pub proof fn new_order_stays(list: Seq<u64>, asked: Seq<u64>, fixed: Seq<u64>)
    requires
        relative_order(list, asked, fixed) is Some,
    ensures
        relative_order(relative_order(list, asked, fixed)->0, asked, fixed) == relative_order(list, asked, fixed),
{
    new_order_keeps_the_rest(list, asked, fixed);
    order_in_place_stays(relative_order(list, asked, fixed)->0, asked, fixed);
}

/// Whether an identifier is in a list.
pub fn has_id<Tag>(list: &Vec<DiscordId<Tag>>, id: u64) -> (found: bool)
    ensures
        found == list.deep_view().contains(id),
{
    has_id_before(list, id, list.len())
}

/// Whether an identifier is among the first of a list.
pub fn has_id_before<Tag>(list: &Vec<DiscordId<Tag>>, id: u64, n: usize) -> (found: bool)
    requires
        n <= list@.len(),
    ensures
        found == list.deep_view().take(n as int).contains(id),
        n == list@.len() ==> found == list.deep_view().contains(id),
{
    assert(list.deep_view().take(list@.len() as int) =~= list.deep_view());
    let mut i: usize = 0;
    while i < n
        invariant
            i <= n <= list@.len(),
            forall|k: int| 0 <= k < i ==> #[trigger] list.deep_view()[k] != id,
        decreases n - i,
    {
        if list[i].get() == id {
            assert(list.deep_view().take(n as int)[i as int] == id);
            return true;
        }
        i += 1;
    }
    false
}

fn has_no_duplicates<Tag>(list: &Vec<DiscordId<Tag>>) -> (answer: bool)
    ensures
        answer == list.deep_view().no_duplicates(),
{
    let ghost ids = list.deep_view();
    let mut i: usize = 0;
    while i < list.len()
        invariant
            i <= list@.len(),
            ids == list.deep_view(),
            forall|a: int, b: int| 0 <= a < b < i ==> ids[a] != ids[b],
        decreases list@.len() - i,
    {
        if has_id_before(list, list[i].get(), i) {
            proof {
                let k = ids.take(i as int).index_of(ids[i as int]);
                assert(ids[k] == ids[i as int]);
            }
            return false;
        }
        assert forall|a: int, b: int| 0 <= a < b < i + 1 implies ids[a] != ids[b] by {
            if b == i {
                assert(ids.take(i as int)[a] == ids[a]);
            }
        }
        i += 1;
    }
    true
}

fn are_listed<Tag>(asked: &Vec<DiscordId<Tag>>, list: &Vec<DiscordId<Tag>>) -> (answer: bool)
    ensures
        answer == (forall|k: int|
            0 <= k < asked.deep_view().len() ==> list.deep_view().contains(#[trigger] asked.deep_view()[k])),
{
    let mut i: usize = 0;
    while i < asked.len()
        invariant
            i <= asked@.len(),
            forall|k: int| 0 <= k < i ==> list.deep_view().contains(#[trigger] asked.deep_view()[k]),
        decreases asked@.len() - i,
    {
        if !has_id(list, asked[i].get()) {
            assert(!list.deep_view().contains(asked.deep_view()[i as int]));
            return false;
        }
        i += 1;
    }
    true
}

fn reorder<Tag>(list: &Vec<DiscordId<Tag>>, asked: &Vec<DiscordId<Tag>>) -> (desired: Vec<DiscordId<Tag>>)
    requires
        list.deep_view().no_duplicates(),
    ensures
        desired.deep_view() == reordered(list.deep_view(), asked.deep_view(), 0),
{
    let ghost ids = list.deep_view();
    let ghost wanted = asked.deep_view();
    let mut desired: Vec<DiscordId<Tag>> = Vec::new();
    let mut n: usize = 0;
    let mut i: usize = 0;
    assert(ids.skip(0) =~= ids);
    assert(desired.deep_view() + reordered(ids, wanted, 0) =~= reordered(ids, wanted, 0));
    assert(ids.take(0) =~= Seq::empty());
    while i < list.len()
        invariant
            i <= list@.len(),
            ids == list.deep_view(),
            wanted == asked.deep_view(),
            ids.no_duplicates(),
            n == asked_for(ids.take(i as int), wanted).len(),
            n <= asked@.len(),
            desired.deep_view() + reordered(ids.skip(i as int), wanted, n as int) == reordered(ids, wanted, 0),
        decreases list@.len() - i,
    {
        let ghost before = desired.deep_view();
        proof {
            assert(ids.skip(i as int)[0] == ids[i as int]);
            assert(ids.skip(i as int).drop_first() =~= ids.skip(i + 1));
            asked_for_append(ids.take(i as int), ids[i as int], wanted);
            assert(ids.take(i + 1) =~= ids.take(i as int).push(ids[i as int]));
            asked_for_at_most(ids.take(i + 1), wanted);
        }
        if has_id(asked, list[i].get()) {
            desired.push(asked[n]);
            assert(desired.deep_view() =~= before.push(wanted[n as int]));
            assert(n < asked.len());
            n += 1;
        } else {
            desired.push(list[i]);
            assert(desired.deep_view() =~= before.push(ids[i as int]));
        }
        proof {
            let step = desired.deep_view().last();
            assert(before + (seq![step] + reordered(ids.skip(i + 1), wanted, n as int)) =~= desired.deep_view()
                + reordered(ids.skip(i + 1), wanted, n as int));
        }
        i += 1;
    }
    assert(ids.skip(i as int) =~= Seq::empty());
    assert(desired.deep_view() + Seq::<u64>::empty() =~= desired.deep_view());
    desired
}

proof fn asked_for_append(list: Seq<u64>, last: u64, asked: Seq<u64>)
    ensures
        asked_for(list.push(last), asked) == if asked.contains(last) {
            asked_for(list, asked).push(last)
        } else {
            asked_for(list, asked)
        },
    decreases list.len(),
{
    let all = list.push(last);
    if list.len() == 0 {
        assert(all.drop_first() =~= Seq::empty());
        assert(asked_for(all.drop_first(), asked) =~= Seq::empty());
        if asked.contains(last) {
            assert(seq![last] + Seq::<u64>::empty() =~= list.push(last));
        }
    } else {
        assert(all.drop_first() =~= list.drop_first().push(last));
        asked_for_append(list.drop_first(), last, asked);
        if asked.contains(list[0]) && asked.contains(last) {
            assert(seq![list[0]] + asked_for(list.drop_first(), asked).push(last) =~= (seq![list[0]] + asked_for(
                list.drop_first(),
                asked,
            )).push(last));
        }
    }
}

fn leaves_fixed<Tag>(
    list: &Vec<DiscordId<Tag>>,
    desired: &Vec<DiscordId<Tag>>,
    fixed: &Vec<DiscordId<Tag>>,
) -> (answer: bool)
    requires
        list@.len() == desired@.len(),
    ensures
        answer == keeps_fixed(list.deep_view(), desired.deep_view(), fixed.deep_view()),
{
    let ghost ids = list.deep_view();
    let ghost after = desired.deep_view();
    let ghost kept = fixed.deep_view();
    let mut i: usize = 0;
    while i < list.len()
        invariant
            i <= list@.len() == desired@.len(),
            ids == list.deep_view(),
            after == desired.deep_view(),
            kept == fixed.deep_view(),
            forall|a: int|
                0 <= a < i && kept.contains(#[trigger] ids[a]) ==> after[a] == ids[a] && forall|k: int|
                    0 <= k < a ==> ids.take(a).contains(#[trigger] after[k]),
        decreases list@.len() - i,
    {
        if has_id(fixed, list[i].get()) {
            if desired[i].get() != list[i].get() {
                assert(kept.contains(ids[i as int]));
                return false;
            }
            let mut k: usize = 0;
            while k < i
                invariant
                    k <= i < list@.len(),
                    list@.len() == desired@.len(),
                    ids == list.deep_view(),
                    after == desired.deep_view(),
                    kept == fixed.deep_view(),
                    kept.contains(ids[i as int]),
                    forall|b: int| 0 <= b < k ==> ids.take(i as int).contains(#[trigger] after[b]),
                decreases i - k,
            {
                if !has_id_before(list, desired[k].get(), i) {
                    assert(!ids.take(i as int).contains(after[k as int]));
                    return false;
                }
                k += 1;
            }
        }
        i += 1;
    }
    true
}

/// What comes of asking for a new order.
pub open spec fn order_result(order: Option<Seq<u64>>) -> Result<Seq<u64>, ()> {
    match order {
        Some(order) => Ok(order),
        None => Err(()),
    }
}

/// The list with those that are asked for in the order they are asked for.
pub fn stable_relative_order<Tag>(
    current: &Vec<DiscordId<Tag>>,
    requested: &Vec<DiscordId<Tag>>,
    fixed: &Vec<DiscordId<Tag>>,
) -> (result: Result<Vec<DiscordId<Tag>>, ()>)
    ensures
        seen(result) == order_result(
            relative_order(current.deep_view(), requested.deep_view(), fixed.deep_view()),
        ),
{
    if !has_no_duplicates(current) || !has_no_duplicates(requested) || !are_listed(requested, current) {
        return Err(());
    }
    let desired: Vec<DiscordId<Tag>> = reorder(current, requested);
    proof {
        asked_for_all(current.deep_view(), requested.deep_view());
        reordered_parts(current.deep_view(), requested.deep_view(), 0);
    }
    if leaves_fixed(current, &desired, fixed) {
        Ok(desired)
    } else {
        Err(())
    }
}

} // verus!
