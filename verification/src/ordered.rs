//! Maps that are walked in the order of their keys.

use vstd::prelude::*;

use crate::text::{is_text_before, text_before, text_order_is_total, text_order_is_transitive};
use crate::value::Plain;

verus! {

/// A type whose values can be the keys of an ordered map.
pub trait OrderedKey: Plain {
    /// Whether the first key comes before the second.
    spec fn before(a: Self::V, b: Self::V) -> bool;

    /// Whether this key comes before the other.
    fn is_before(&self, other: &Self) -> (answer: bool)
        ensures
            answer == Self::before(self.deep_view(), other.deep_view()),
    ;

    /// Of two different keys exactly one comes before the other.
    proof fn order_is_total(a: Self::V, b: Self::V)
        ensures
            Self::before(a, b) || Self::before(b, a) || a == b,
            !(Self::before(a, b) && Self::before(b, a)),
            a == b ==> !Self::before(a, b),
    ;

    /// The order of keys is transitive.
    proof fn order_is_transitive(a: Self::V, b: Self::V, c: Self::V)
        requires
            Self::before(a, b),
            Self::before(b, c),
        ensures
            Self::before(a, c),
    ;
}

impl OrderedKey for String {
    open spec fn before(a: Seq<char>, b: Seq<char>) -> bool {
        text_before(a, b)
    }

    fn is_before(&self, other: &Self) -> (answer: bool) {
        is_text_before(self.as_str(), other.as_str())
    }

    proof fn order_is_total(a: Seq<char>, b: Seq<char>) {
        text_order_is_total(a, b);
    }

    proof fn order_is_transitive(a: Seq<char>, b: Seq<char>, c: Seq<char>) {
        text_order_is_transitive(a, b, c);
    }
}

/// The value that stands under a key.
pub open spec fn lookup<K, W>(entries: Seq<(K, W)>, key: K) -> Option<W>
    decreases entries.len(),
{
    if entries.len() == 0 {
        None
    } else if entries[0].0 == key {
        Some(entries[0].1)
    } else {
        lookup(entries.drop_first(), key)
    }
}

/// Whether a key is in the entries.
pub open spec fn has_key<K, W>(entries: Seq<(K, W)>, key: K) -> bool {
    lookup(entries, key) is Some
}

/// The entries after a value was put under a key: in place of the value that
/// stood there, or before the first greater key.
pub open spec fn put<K: OrderedKey, W>(entries: Seq<(K::V, W)>, key: K::V, value: W) -> Seq<(K::V, W)>
    decreases entries.len(),
{
    if entries.len() == 0 {
        seq![(key, value)]
    } else if entries[0].0 == key {
        seq![(key, value)] + entries.drop_first()
    } else if K::before(key, entries[0].0) {
        seq![(key, value)] + entries
    } else {
        seq![entries[0]] + put::<K, W>(entries.drop_first(), key, value)
    }
}

/// The entries without those under a key.
pub open spec fn without<K, W>(entries: Seq<(K, W)>, key: K) -> Seq<(K, W)>
    decreases entries.len(),
{
    if entries.len() == 0 {
        entries
    } else if entries[0].0 == key {
        without(entries.drop_first(), key)
    } else {
        seq![entries[0]] + without(entries.drop_first(), key)
    }
}

/// The entries after all of `more` were put, one after another.
pub open spec fn put_all<K: OrderedKey, W>(
    entries: Seq<(K::V, W)>,
    more: Seq<(K::V, W)>,
) -> Seq<(K::V, W)>
    decreases more.len(),
{
    if more.len() == 0 {
        entries
    } else {
        put_all::<K, W>(put::<K, W>(entries, more[0].0, more[0].1), more.drop_first())
    }
}

/// What a check finds first when it walks entries in order.
pub open spec fn first_in<K, W, F>(entries: Seq<(K, W)>, check: spec_fn(K, W) -> Option<F>) -> Option<F>
    decreases entries.len(),
{
    if entries.len() == 0 {
        None
    } else {
        match check(entries[0].0, entries[0].1) {
            Some(found) => Some(found),
            None => first_in(entries.drop_first(), check),
        }
    }
}

/// A check that finds nothing from a place on, or something there.
pub proof fn first_in_step<K, W, F>(entries: Seq<(K, W)>, check: spec_fn(K, W) -> Option<F>, i: int)
    requires
        0 <= i < entries.len(),
    ensures
        first_in(entries.skip(i), check) == match check(entries[i].0, entries[i].1) {
            Some(found) => Some(found),
            None => first_in(entries.skip(i + 1), check),
        },
{
    assert(entries.skip(i)[0] == entries[i]);
    assert(entries.skip(i).drop_first() =~= entries.skip(i + 1));
}

/// A check that finds nothing finds nothing at any entry, and the other way round.
pub proof fn first_in_none<K, W, F>(entries: Seq<(K, W)>, check: spec_fn(K, W) -> Option<F>)
    ensures
        first_in(entries, check) is None <==> forall|i: int|
            0 <= i < entries.len() ==> check((#[trigger] entries[i]).0, entries[i].1) is None,
    decreases entries.len(),
{
    if entries.len() > 0 {
        let rest = entries.drop_first();
        first_in_none(rest, check);
        if first_in(entries, check) is None {
            assert forall|i: int| 0 <= i < entries.len() implies check(
                (#[trigger] entries[i]).0,
                entries[i].1,
            ) is None by {
                if i > 0 {
                    assert(rest[i - 1] == entries[i]);
                }
            }
        }
        if forall|i: int| 0 <= i < entries.len() ==> check((#[trigger] entries[i]).0, entries[i].1) is None {
            assert(check(entries[0].0, entries[0].1) is None);
            assert forall|i: int| 0 <= i < rest.len() implies check((#[trigger] rest[i]).0, rest[i].1) is None by {
                assert(rest[i] == entries[i + 1]);
            }
        }
    }
}

/// Whether every key comes before the keys after it.
pub open spec fn sorted<K: OrderedKey, W>(entries: Seq<(K::V, W)>) -> bool {
    forall|i: int, j: int|
        0 <= i < j < entries.len() ==> K::before(#[trigger] entries[i].0, #[trigger] entries[j].0)
}

/// What was put under a key is found there, and every other key keeps its value.
pub proof fn put_then_lookup<K: OrderedKey, W>(entries: Seq<(K::V, W)>, key: K::V, value: W, asked: K::V)
    ensures
        lookup(put::<K, W>(entries, key, value), asked) == if asked == key {
            Some(value)
        } else {
            lookup(entries, asked)
        },
    decreases entries.len(),
{
    if entries.len() == 0 {
        let after = seq![(key, value)];
        assert(after.drop_first() =~= entries);
        assert(lookup(after.drop_first(), asked) is None);
    } else if entries[0].0 == key {
        let after = seq![(key, value)] + entries.drop_first();
        assert(after.drop_first() =~= entries.drop_first());
    } else if K::before(key, entries[0].0) {
        let after = seq![(key, value)] + entries;
        assert(after.drop_first() =~= entries);
    } else {
        put_then_lookup::<K, W>(entries.drop_first(), key, value, asked);
        let rest = put::<K, W>(entries.drop_first(), key, value);
        let after = seq![entries[0]] + rest;
        assert(after.drop_first() =~= rest);
    }
}

/// A key that was taken out is gone, and every other key keeps its value.
pub proof fn without_then_lookup<K, W>(entries: Seq<(K, W)>, key: K, asked: K)
    ensures
        lookup(without(entries, key), asked) == if asked == key {
            None
        } else {
            lookup(entries, asked)
        },
    decreases entries.len(),
{
    if entries.len() > 0 {
        without_then_lookup(entries.drop_first(), key, asked);
        if entries[0].0 != key {
            let rest = without(entries.drop_first(), key);
            assert((seq![entries[0]] + rest).drop_first() =~= rest);
        }
    }
}

/// After `more` was put, its keys have its values, and every other key keeps its value.
pub proof fn put_all_then_lookup<K: OrderedKey, W>(
    entries: Seq<(K::V, W)>,
    more: Seq<(K::V, W)>,
    asked: K::V,
)
    requires
        sorted::<K, W>(more),
    ensures
        lookup(put_all::<K, W>(entries, more), asked) == match lookup(more, asked) {
            Some(value) => Some(value),
            None => lookup(entries, asked),
        },
    decreases more.len(),
{
    if more.len() > 0 {
        let first = put::<K, W>(entries, more[0].0, more[0].1);
        let rest = more.drop_first();
        assert forall|i: int, j: int| 0 <= i < j < rest.len() implies K::before(
            #[trigger] rest[i].0,
            #[trigger] rest[j].0,
        ) by {
            assert(K::before(more[i + 1].0, more[j + 1].0));
        }
        put_all_then_lookup::<K, W>(first, rest, asked);
        put_then_lookup::<K, W>(entries, more[0].0, more[0].1, asked);
        if lookup(rest, asked) is Some {
            let i = lookup_has_entry(rest, asked);
            assert(K::before(more[0].0, more[i + 1].0));
            K::order_is_total(more[0].0, more[i + 1].0);
        }
    }
}

/// A key after all others is put at the end.
pub proof fn put_at_end<K: OrderedKey, W>(entries: Seq<(K::V, W)>, key: K::V, value: W)
    requires
        forall|k: int| 0 <= k < entries.len() ==> K::before((#[trigger] entries[k]).0, key),
    ensures
        put::<K, W>(entries, key, value) == entries.push((key, value)),
{
    put_past::<K, W>(entries, key, value, entries.len() as int);
    assert(entries.skip(entries.len() as int) =~= Seq::empty());
    assert(entries.take(entries.len() as int) + seq![(key, value)] =~= entries.push((key, value)));
}

/// A value is found under the key of its entry, where no earlier entry has that key.
pub proof fn lookup_of_first<K, W>(entries: Seq<(K, W)>, i: int)
    requires
        0 <= i < entries.len(),
        forall|k: int| 0 <= k < i ==> (#[trigger] entries[k]).0 != entries[i].0,
    ensures
        lookup(entries, entries[i].0) == Some(entries[i].1),
    decreases i,
{
    if i > 0 {
        let rest = entries.drop_first();
        assert forall|k: int| 0 <= k < i - 1 implies (#[trigger] rest[k]).0 != rest[i - 1].0 by {
            assert(rest[k] == entries[k + 1]);
        }
        lookup_of_first(rest, i - 1);
        assert(entries[0].0 != entries[i].0);
    }
}

/// In sorted entries every value is found under its key.
pub proof fn lookup_in_sorted<K: OrderedKey, W>(entries: Seq<(K::V, W)>, i: int)
    requires
        sorted::<K, W>(entries),
        0 <= i < entries.len(),
    ensures
        lookup(entries, entries[i].0) == Some(entries[i].1),
{
    assert forall|k: int| 0 <= k < i implies (#[trigger] entries[k]).0 != entries[i].0 by {
        K::order_is_total(entries[k].0, entries[i].0);
    }
    lookup_of_first(entries, i);
}

/// In two lists, one behind the other, a key is found in the first, or else in the second.
pub proof fn lookup_in_both<K, W>(first: Seq<(K, W)>, second: Seq<(K, W)>, key: K)
    ensures
        lookup(first + second, key) == match lookup(first, key) {
            Some(value) => Some(value),
            None => lookup(second, key),
        },
    decreases first.len(),
{
    if first.len() == 0 {
        assert(first + second =~= second);
    } else {
        assert((first + second)[0] == first[0]);
        assert((first + second).drop_first() =~= first.drop_first() + second);
        lookup_in_both(first.drop_first(), second, key);
    }
}

/// In order, a key comes before each that stands behind it.
pub proof fn sorted_entries<K: OrderedKey, W>(entries: Seq<(K::V, W)>, i: int, j: int)
    requires
        sorted::<K, W>(entries),
        0 <= i < j < entries.len(),
    ensures
        K::before(entries[i].0, entries[j].0),
{
}

/// A key that is found stands in some entry.
pub proof fn lookup_has_entry<K, W>(entries: Seq<(K, W)>, key: K) -> (i: int)
    requires
        lookup(entries, key) is Some,
    ensures
        0 <= i < entries.len(),
        entries[i].0 == key,
        lookup(entries, key) == Some(entries[i].1),
    decreases entries.len(),
{
    if entries[0].0 == key {
        0
    } else {
        let i = lookup_has_entry(entries.drop_first(), key);
        i + 1
    }
}

/// A key of an entry is found.
pub proof fn entry_is_found<K, W>(entries: Seq<(K, W)>, i: int)
    requires
        0 <= i < entries.len(),
    ensures
        lookup(entries, entries[i].0) is Some,
    decreases i,
{
    if i > 0 && entries[0].0 != entries[i].0 {
        entry_is_found(entries.drop_first(), i - 1);
    }
}

/// Every entry after a value was put is the new one or was there before.
pub proof fn put_entry<K: OrderedKey, W>(entries: Seq<(K::V, W)>, key: K::V, value: W, i: int)
    requires
        0 <= i < put::<K, W>(entries, key, value).len(),
    ensures
        put::<K, W>(entries, key, value)[i] == (key, value) || entries.contains(
            put::<K, W>(entries, key, value)[i],
        ),
    decreases entries.len(),
{
    let after = put::<K, W>(entries, key, value);
    if entries.len() == 0 {
    } else if entries[0].0 == key {
        if i > 0 {
            assert(after[i] == entries[i]);
        }
    } else if K::before(key, entries[0].0) {
        if i > 0 {
            assert(after[i] == entries[i - 1]);
        }
    } else {
        let rest = put::<K, W>(entries.drop_first(), key, value);
        if i == 0 {
            assert(after[0] == entries[0]);
        } else {
            assert(after[i] == rest[i - 1]);
            put_entry::<K, W>(entries.drop_first(), key, value, i - 1);
            if rest[i - 1] != (key, value) {
                let j = entries.drop_first().index_of(rest[i - 1]);
                assert(entries[j + 1] == rest[i - 1]);
            }
        }
    }
}

/// Sorted entries stay sorted when a value is put.
pub proof fn put_keeps_sorted<K: OrderedKey, W>(entries: Seq<(K::V, W)>, key: K::V, value: W)
    requires
        sorted::<K, W>(entries),
    ensures
        sorted::<K, W>(put::<K, W>(entries, key, value)),
    decreases entries.len(),
{
    let after = put::<K, W>(entries, key, value);
    if entries.len() == 0 {
    } else if entries[0].0 == key {
        assert forall|i: int, j: int| 0 <= i < j < after.len() implies K::before(
            #[trigger] after[i].0,
            #[trigger] after[j].0,
        ) by {
            assert(after[i].0 == entries[i].0 && after[j].0 == entries[j].0);
        }
    } else if K::before(key, entries[0].0) {
        assert forall|i: int, j: int| 0 <= i < j < after.len() implies K::before(
            #[trigger] after[i].0,
            #[trigger] after[j].0,
        ) by {
            assert(after[j] == entries[j - 1]);
            if i > 0 {
                assert(after[i] == entries[i - 1]);
            } else if j > 1 {
                K::order_is_transitive(key, entries[0].0, entries[j - 1].0);
            }
        }
    } else {
        let rest = entries.drop_first();
        assert forall|i: int, j: int| 0 <= i < j < rest.len() implies K::before(
            #[trigger] rest[i].0,
            #[trigger] rest[j].0,
        ) by {
            assert(rest[i] == entries[i + 1] && rest[j] == entries[j + 1]);
        }
        put_keeps_sorted::<K, W>(rest, key, value);
        K::order_is_total(key, entries[0].0);
        let tail = put::<K, W>(rest, key, value);
        assert forall|i: int, j: int| 0 <= i < j < after.len() implies K::before(
            #[trigger] after[i].0,
            #[trigger] after[j].0,
        ) by {
            assert(after[j] == tail[j - 1]);
            if i > 0 {
                assert(after[i] == tail[i - 1]);
            } else {
                put_entry::<K, W>(rest, key, value, j - 1);
                if tail[j - 1] != (key, value) {
                    let k = rest.index_of(tail[j - 1]);
                    assert(entries[k + 1] == tail[j - 1]);
                }
            }
        }
    }
}

/// Every entry that is left without a key was there before, under another key.
pub proof fn without_entry<K, W>(entries: Seq<(K, W)>, key: K, i: int)
    requires
        0 <= i < without(entries, key).len(),
    ensures
        entries.contains(without(entries, key)[i]),
        without(entries, key)[i].0 != key,
    decreases entries.len(),
{
    let after = without(entries, key);
    let rest = without(entries.drop_first(), key);
    if entries[0].0 == key {
        without_entry(entries.drop_first(), key, i);
        let j = entries.drop_first().index_of(after[i]);
        assert(entries[j + 1] == after[i]);
    } else if i == 0 {
        assert(after[0] == entries[0]);
    } else {
        assert(after[i] == rest[i - 1]);
        without_entry(entries.drop_first(), key, i - 1);
        let j = entries.drop_first().index_of(after[i]);
        assert(entries[j + 1] == after[i]);
    }
}

/// Sorted entries stay sorted without a key.
pub proof fn without_keeps_sorted<K: OrderedKey, W>(entries: Seq<(K::V, W)>, key: K::V)
    requires
        sorted::<K, W>(entries),
    ensures
        sorted::<K, W>(without(entries, key)),
    decreases entries.len(),
{
    if entries.len() > 0 {
        let rest = entries.drop_first();
        assert forall|i: int, j: int| 0 <= i < j < rest.len() implies K::before(
            #[trigger] rest[i].0,
            #[trigger] rest[j].0,
        ) by {
            assert(rest[i] == entries[i + 1] && rest[j] == entries[j + 1]);
        }
        without_keeps_sorted::<K, W>(rest, key);
        if entries[0].0 != key {
            let after = without(entries, key);
            let tail = without(rest, key);
            assert forall|i: int, j: int| 0 <= i < j < after.len() implies K::before(
                #[trigger] after[i].0,
                #[trigger] after[j].0,
            ) by {
                assert(after[j] == tail[j - 1]);
                if i > 0 {
                    assert(after[i] == tail[i - 1]);
                } else {
                    without_entry(rest, key, j - 1);
                    let k = rest.index_of(tail[j - 1]);
                    assert(entries[k + 1] == tail[j - 1]);
                }
            }
        }
    }
}

proof fn lookup_past<K, W>(entries: Seq<(K, W)>, key: K, n: int)
    requires
        0 <= n <= entries.len(),
        forall|k: int| 0 <= k < n ==> (#[trigger] entries[k]).0 != key,
    ensures
        lookup(entries, key) == lookup(entries.skip(n), key),
    decreases n,
{
    if n == 0 {
        assert(entries.skip(0) =~= entries);
    } else {
        assert(entries[0].0 != key);
        let rest = entries.drop_first();
        assert forall|k: int| 0 <= k < n - 1 implies (#[trigger] rest[k]).0 != key by {
            assert(rest[k] == entries[k + 1]);
        }
        lookup_past(rest, key, n - 1);
        assert(rest.skip(n - 1) =~= entries.skip(n));
    }
}

proof fn put_past<K: OrderedKey, W>(entries: Seq<(K::V, W)>, key: K::V, value: W, n: int)
    requires
        0 <= n <= entries.len(),
        forall|k: int| 0 <= k < n ==> K::before((#[trigger] entries[k]).0, key),
    ensures
        put::<K, W>(entries, key, value) == entries.take(n) + put::<K, W>(entries.skip(n), key, value),
    decreases n,
{
    if n == 0 {
        assert(entries.skip(0) =~= entries);
        assert(entries.take(0) + put::<K, W>(entries, key, value) =~= put::<K, W>(entries, key, value));
    } else {
        assert(K::before(entries[0].0, key));
        K::order_is_total(entries[0].0, key);
        let rest = entries.drop_first();
        assert forall|k: int| 0 <= k < n - 1 implies K::before((#[trigger] rest[k]).0, key) by {
            assert(rest[k] == entries[k + 1]);
        }
        put_past::<K, W>(rest, key, value, n - 1);
        assert(rest.skip(n - 1) =~= entries.skip(n));
        assert(seq![entries[0]] + (rest.take(n - 1) + put::<K, W>(entries.skip(n), key, value))
            =~= entries.take(n) + put::<K, W>(entries.skip(n), key, value));
    }
}

proof fn without_past<K, W>(entries: Seq<(K, W)>, key: K, n: int)
    requires
        0 <= n <= entries.len(),
        forall|k: int| 0 <= k < n ==> (#[trigger] entries[k]).0 != key,
    ensures
        without(entries, key) == entries.take(n) + without(entries.skip(n), key),
    decreases n,
{
    if n == 0 {
        assert(entries.skip(0) =~= entries);
        assert(entries.take(0) + without(entries, key) =~= without(entries, key));
    } else {
        assert(entries[0].0 != key);
        let rest = entries.drop_first();
        assert forall|k: int| 0 <= k < n - 1 implies (#[trigger] rest[k]).0 != key by {
            assert(rest[k] == entries[k + 1]);
        }
        without_past(rest, key, n - 1);
        assert(rest.skip(n - 1) =~= entries.skip(n));
        assert(seq![entries[0]] + (rest.take(n - 1) + without(entries.skip(n), key))
            =~= entries.take(n) + without(entries.skip(n), key));
    }
}

/// Without its first entry, what is in order stays in order, and the first key is gone.
pub proof fn rest_is_sorted<K: OrderedKey, W>(entries: Seq<(K::V, W)>)
    requires
        sorted::<K, W>(entries),
        entries.len() > 0,
    ensures
        sorted::<K, W>(entries.drop_first()),
        !has_key(entries.drop_first(), entries[0].0),
{
    let rest = entries.drop_first();
    assert forall|i: int, j: int| 0 <= i < j < rest.len() implies K::before(
        #[trigger] rest[i].0,
        #[trigger] rest[j].0,
    ) by {
        assert(rest[i] == entries[i + 1] && rest[j] == entries[j + 1]);
    }
    if has_key(rest, entries[0].0) {
        let i = lookup_has_entry(rest, entries[0].0);
        assert(rest[i] == entries[i + 1]);
        K::order_is_total(entries[0].0, entries[i + 1].0);
    }
}

/// Two lists of entries in order under which the same is found are the same.
pub proof fn same_lookups_same_entries<K: OrderedKey, W>(a: Seq<(K::V, W)>, b: Seq<(K::V, W)>)
    requires
        sorted::<K, W>(a),
        sorted::<K, W>(b),
        forall|key: K::V| #[trigger] lookup(a, key) == lookup(b, key),
    ensures
        a == b,
    decreases a.len(),
{
    if a.len() == 0 || b.len() == 0 {
        if a.len() > 0 {
            assert(lookup(a, a[0].0) == lookup(b, a[0].0));
        }
        if b.len() > 0 {
            assert(lookup(a, b[0].0) == lookup(b, b[0].0));
        }
        assert(a =~= b);
    } else {
        assert(lookup(a, a[0].0) == lookup(b, a[0].0));
        assert(lookup(a, b[0].0) == lookup(b, b[0].0));
        let i = lookup_has_entry(a, b[0].0);
        let j = lookup_has_entry(b, a[0].0);
        K::order_is_total(a[0].0, b[0].0);
        if i > 0 && j > 0 {
            assert(K::before(a[0].0, a[i].0));
            assert(K::before(b[0].0, b[j].0));
        }
        rest_is_sorted::<K, W>(a);
        rest_is_sorted::<K, W>(b);
        assert forall|key: K::V| #[trigger] lookup(a.drop_first(), key) == lookup(b.drop_first(), key) by {
            assert(lookup(a, key) == lookup(b, key));
        }
        same_lookups_same_entries::<K, W>(a.drop_first(), b.drop_first());
        assert(a =~= seq![a[0]] + a.drop_first());
        assert(b =~= seq![b[0]] + b.drop_first());
    }
}

/// Entries stay in order when more are put.
pub proof fn put_all_keeps_sorted<K: OrderedKey, W>(entries: Seq<(K::V, W)>, more: Seq<(K::V, W)>)
    requires
        sorted::<K, W>(entries),
    ensures
        sorted::<K, W>(put_all::<K, W>(entries, more)),
    decreases more.len(),
{
    if more.len() > 0 {
        put_keeps_sorted::<K, W>(entries, more[0].0, more[0].1);
        put_all_keeps_sorted::<K, W>(put::<K, W>(entries, more[0].0, more[0].1), more.drop_first());
    }
}

/// Entries that are put into none, or into themselves, are just these entries.
pub proof fn put_all_of_the_same<K: OrderedKey, W>(entries: Seq<(K::V, W)>)
    requires
        sorted::<K, W>(entries),
    ensures
        put_all::<K, W>(Seq::empty(), entries) == entries,
        put_all::<K, W>(entries, entries) == entries,
{
    let none = Seq::<(K::V, W)>::empty();
    put_all_keeps_sorted::<K, W>(none, entries);
    put_all_keeps_sorted::<K, W>(entries, entries);
    assert forall|key: K::V| #[trigger] lookup(put_all::<K, W>(none, entries), key) == lookup(entries, key) by {
        put_all_then_lookup::<K, W>(none, entries, key);
    }
    assert forall|key: K::V| #[trigger] lookup(put_all::<K, W>(entries, entries), key) == lookup(entries, key) by {
        put_all_then_lookup::<K, W>(entries, entries, key);
    }
    same_lookups_same_entries::<K, W>(put_all::<K, W>(none, entries), entries);
    same_lookups_same_entries::<K, W>(put_all::<K, W>(entries, entries), entries);
}

/// It does not matter whether entries are put one list after another or at once.
pub proof fn put_all_is_associative<K: OrderedKey, W>(a: Seq<(K::V, W)>, b: Seq<(K::V, W)>, c: Seq<(K::V, W)>)
    requires
        sorted::<K, W>(a),
        sorted::<K, W>(b),
        sorted::<K, W>(c),
    ensures
        put_all::<K, W>(put_all::<K, W>(a, b), c) == put_all::<K, W>(a, put_all::<K, W>(b, c)),
{
    let ab = put_all::<K, W>(a, b);
    let bc = put_all::<K, W>(b, c);
    put_all_keeps_sorted::<K, W>(a, b);
    put_all_keeps_sorted::<K, W>(b, c);
    put_all_keeps_sorted::<K, W>(ab, c);
    put_all_keeps_sorted::<K, W>(a, bc);
    assert forall|key: K::V| #[trigger]
        lookup(put_all::<K, W>(ab, c), key) == lookup(put_all::<K, W>(a, bc), key) by {
        put_all_then_lookup::<K, W>(ab, c, key);
        put_all_then_lookup::<K, W>(a, b, key);
        put_all_then_lookup::<K, W>(a, bc, key);
        put_all_then_lookup::<K, W>(b, c, key);
    }
    same_lookups_same_entries::<K, W>(put_all::<K, W>(ab, c), put_all::<K, W>(a, bc));
}

/// Nothing is there after more was put exactly where nothing was there and nothing was put.
pub proof fn put_all_of_nothing<K: OrderedKey, W>(entries: Seq<(K::V, W)>, more: Seq<(K::V, W)>)
    ensures
        put_all::<K, W>(entries, more).len() == 0 <==> entries.len() == 0 && more.len() == 0,
    decreases more.len(),
{
    if more.len() > 0 {
        put_all_of_nothing::<K, W>(put::<K, W>(entries, more[0].0, more[0].1), more.drop_first());
    }
}

/// Values under keys, each key once, in the order of the keys.
pub struct OrderedMap<K: OrderedKey, W> {
    entries: Vec<(K, W)>,
}

impl<K: OrderedKey, W: DeepView> DeepView for OrderedMap<K, W> {
    type V = Seq<(K::V, W::V)>;

    closed spec fn deep_view(&self) -> Seq<(K::V, W::V)> {
        self.entries.deep_view()
    }
}

impl<K: OrderedKey, W> OrderedMap<K, W> {
    #[verifier::type_invariant]
    spec fn keys_are_sorted(&self) -> bool {
        forall|i: int, j: int|
            0 <= i < j < self.entries@.len() ==> K::before(
                (#[trigger] self.entries@[i]).0.deep_view(),
                (#[trigger] self.entries@[j]).0.deep_view(),
            )
    }
}

impl<K: OrderedKey, W: DeepView> OrderedMap<K, W> {
    /// A map without entries.
    pub fn new() -> (map: Self)
        ensures
            map.deep_view() == Seq::<(K::V, W::V)>::empty(),
    {
        let map = OrderedMap { entries: Vec::new() };
        assert(map.deep_view() =~= Seq::<(K::V, W::V)>::empty());
        map
    }

    /// The number of entries. The keys are sorted.
    pub fn len(&self) -> (n: usize)
        ensures
            n == self.deep_view().len(),
            sorted::<K, W::V>(self.deep_view()),
    {
        proof {
            use_type_invariant(self);
        }
        self.entries.len()
    }

    /// Whether there is no entry.
    pub fn is_empty(&self) -> (empty: bool)
        ensures
            empty == (self.deep_view().len() == 0),
    {
        self.entries.len() == 0
    }

    /// The key of the entry at a place in the order.
    pub fn key_at(&self, i: usize) -> (key: &K)
        requires
            i < self.deep_view().len(),
        ensures
            key.deep_view() == self.deep_view()[i as int].0,
    {
        &self.entries[i].0
    }

    /// The value of the entry at a place in the order.
    pub fn value_at(&self, i: usize) -> (value: &W)
        requires
            i < self.deep_view().len(),
        ensures
            value.deep_view() == self.deep_view()[i as int].1,
    {
        &self.entries[i].1
    }

    /// The entries, in the order of their keys.
    pub fn into_entries(self) -> (entries: Vec<(K, W)>)
        ensures
            entries.deep_view() == self.deep_view(),
            sorted::<K, W::V>(self.deep_view()),
    {
        proof {
            use_type_invariant(&self);
        }
        self.entries
    }

    /// The value under a key.
    pub fn get(&self, key: &K) -> (value: Option<&W>)
        ensures
            value.deep_view() == lookup(self.deep_view(), key.deep_view()),
    {
        let mut i: usize = 0;
        while i < self.entries.len()
            invariant
                i <= self.entries@.len(),
                self.deep_view() == self.entries.deep_view(),
                forall|k: int| 0 <= k < i ==> (#[trigger] self.deep_view()[k]).0 != key.deep_view(),
            decreases self.entries@.len() - i,
        {
            if self.entries[i].0.same(key) {
                proof {
                    lookup_of_first(self.deep_view(), i as int);
                }
                return Some(&self.entries[i].1);
            }
            i += 1;
        }
        proof {
            lookup_past(self.deep_view(), key.deep_view(), i as int);
            assert(self.deep_view().skip(i as int) =~= Seq::empty());
        }
        None
    }

    /// Whether there is an entry under a key.
    pub fn contains_key(&self, key: &K) -> (found: bool)
        ensures
            found == has_key(self.deep_view(), key.deep_view()),
    {
        self.get(key).is_some()
    }

    /// Puts a value under a key.
    pub fn insert(&mut self, key: K, value: W)
        ensures
            final(self).deep_view() == put::<K, W::V>(old(self).deep_view(), key.deep_view(), value.deep_view()),
    {
        proof {
            use_type_invariant(&*self);
        }
        let mut taken: OrderedMap<K, W> = OrderedMap::new();
        std::mem::swap(self, &mut taken);
        let mut entries: Vec<(K, W)> = taken.entries;
        let ghost before = entries;
        let ghost key_view = key.deep_view();
        let ghost value_view = value.deep_view();
        let mut i: usize = 0;
        while i < entries.len() && entries[i].0.is_before(&key)
            invariant
                i <= entries@.len(),
                entries == before,
                key_view == key.deep_view(),
                forall|k: int| 0 <= k < i ==> K::before((#[trigger] entries@[k]).0.deep_view(), key_view),
            decreases entries@.len() - i,
        {
            i += 1;
        }
        proof {
            assert forall|k: int| 0 <= k < i implies K::before((#[trigger] before.deep_view()[k]).0, key_view) by {
                assert(before@[k].0.deep_view() == before.deep_view()[k].0);
            }
            put_past::<K, W::V>(before.deep_view(), key_view, value_view, i as int);
            if i < before@.len() {
                K::order_is_total(before@[i as int].0.deep_view(), key_view);
                assert(before.deep_view().skip(i as int)[0] == before@[i as int].deep_view());
            } else {
                assert(before.deep_view().skip(i as int) =~= Seq::empty());
            }
        }
        if i < entries.len() && entries[i].0.same(&key) {
            entries.set(i, (key, value));
            proof {
                assert(before.deep_view().skip(i as int).drop_first() =~= before.deep_view().skip(i + 1));
                assert(entries.deep_view() =~= before.deep_view().take(i as int) + (seq![(key_view, value_view)]
                    + before.deep_view().skip(i + 1)));
                assert forall|a: int, b: int| 0 <= a < b < entries@.len() implies K::before(
                    (#[trigger] entries@[a]).0.deep_view(),
                    (#[trigger] entries@[b]).0.deep_view(),
                ) by {
                    assert(K::before(before@[a].0.deep_view(), before@[b].0.deep_view()));
                }
            }
        } else {
            entries.insert(i, (key, value));
            proof {
                assert(entries.deep_view() =~= before.deep_view().take(i as int) + (seq![(key_view, value_view)]
                    + before.deep_view().skip(i as int)));
                assert forall|a: int, b: int| 0 <= a < b < entries@.len() implies K::before(
                    (#[trigger] entries@[a]).0.deep_view(),
                    (#[trigger] entries@[b]).0.deep_view(),
                ) by {
                    let x = if a < i { before@[a] } else { before@[a - 1] };
                    let y = if b < i { before@[b] } else { before@[b - 1] };
                    if a == i {
                        assert(i < before@.len());
                        assert(K::before(key_view, before@[i as int].0.deep_view()));
                        if b - 1 > i {
                            assert(K::before(before@[i as int].0.deep_view(), before@[b - 1].0.deep_view()));
                            K::order_is_transitive(
                                key_view,
                                before@[i as int].0.deep_view(),
                                before@[b - 1].0.deep_view(),
                            );
                        }
                    } else if b == i {
                        assert(K::before(before@[a].0.deep_view(), key_view));
                    } else {
                        assert(K::before(x.0.deep_view(), y.0.deep_view()));
                    }
                }
            }
        }
        *self = OrderedMap { entries };
    }

    /// Takes out the entry under a key.
    pub fn remove(&mut self, key: &K)
        ensures
            final(self).deep_view() == without(old(self).deep_view(), key.deep_view()),
    {
        proof {
            use_type_invariant(&*self);
        }
        let mut taken: OrderedMap<K, W> = OrderedMap::new();
        std::mem::swap(self, &mut taken);
        let mut entries: Vec<(K, W)> = taken.entries;
        let ghost before = entries;
        let mut i: usize = 0;
        while i < entries.len() && !entries[i].0.same(key)
            invariant
                i <= entries@.len(),
                entries == before,
                forall|k: int| 0 <= k < i ==> (#[trigger] entries@[k]).0.deep_view() != key.deep_view(),
            decreases entries@.len() - i,
        {
            i += 1;
        }
        proof {
            assert forall|k: int| 0 <= k < i implies (#[trigger] before.deep_view()[k]).0 != key.deep_view() by {
                assert(before@[k].0.deep_view() == before.deep_view()[k].0);
            }
            without_past(before.deep_view(), key.deep_view(), i as int);
        }
        if i < entries.len() {
            entries.remove(i);
            proof {
                let rest = before.deep_view().skip(i as int);
                assert(rest[0].0 == key.deep_view());
                let after = rest.drop_first();
                assert forall|k: int| 0 <= k < after.len() implies (#[trigger] after[k]).0 != key.deep_view() by {
                    assert(after[k] == before@[i + 1 + k].deep_view());
                    assert(K::before(before@[i as int].0.deep_view(), before@[i + 1 + k].0.deep_view()));
                    K::order_is_total(before@[i as int].0.deep_view(), before@[i + 1 + k].0.deep_view());
                }
                without_past(after, key.deep_view(), after.len() as int);
                assert(after.take(after.len() as int) + without(after.skip(after.len() as int), key.deep_view())
                    =~= after);
                assert(entries.deep_view() =~= before.deep_view().take(i as int) + after);
                assert forall|a: int, b: int| 0 <= a < b < entries@.len() implies K::before(
                    (#[trigger] entries@[a]).0.deep_view(),
                    (#[trigger] entries@[b]).0.deep_view(),
                ) by {
                    let x = if a < i { before@[a] } else { before@[a + 1] };
                    let y = if b < i { before@[b] } else { before@[b + 1] };
                    assert(K::before(x.0.deep_view(), y.0.deep_view()));
                }
            }
        } else {
            proof {
                assert(before.deep_view().skip(i as int) =~= Seq::empty());
                assert(before.deep_view().take(i as int) + without(
                    before.deep_view().skip(i as int),
                    key.deep_view(),
                ) =~= before.deep_view());
            }
        }
        *self = OrderedMap { entries };
    }
}

impl<K: OrderedKey, W: Plain> OrderedMap<K, W> {
    /// Puts all entries of another map.
    pub fn extend(&mut self, more: &OrderedMap<K, W>)
        ensures
            final(self).deep_view() == put_all::<K, W::V>(old(self).deep_view(), more.deep_view()),
    {
        let mut i: usize = 0;
        assert(more.deep_view().skip(0) =~= more.deep_view());
        while i < more.len()
            invariant
                i <= more.deep_view().len(),
                put_all::<K, W::V>(self.deep_view(), more.deep_view().skip(i as int)) == put_all::<K, W::V>(
                    old(self).deep_view(),
                    more.deep_view(),
                ),
            decreases more.deep_view().len() - i,
        {
            assert(more.deep_view().skip(i as int)[0] == more.deep_view()[i as int]);
            assert(more.deep_view().skip(i as int).drop_first() =~= more.deep_view().skip(i + 1));
            self.insert(more.key_at(i).copy(), more.value_at(i).copy());
            i += 1;
        }
        assert(more.deep_view().skip(i as int) =~= Seq::empty());
    }
}

impl<K: OrderedKey, W: Plain> Plain for OrderedMap<K, W> {
    fn copy(&self) -> (copied: Self) {
        proof {
            use_type_invariant(self);
        }
        let entries: Vec<(K, W)> = self.entries.copy();
        proof {
            assert forall|i: int, j: int| 0 <= i < j < entries@.len() implies K::before(
                (#[trigger] entries@[i]).0.deep_view(),
                (#[trigger] entries@[j]).0.deep_view(),
            ) by {
                assert(entries.deep_view().len() == self.entries.deep_view().len());
                assert(entries.deep_view()[i] == self.entries.deep_view()[i]);
                assert(entries.deep_view()[j] == self.entries.deep_view()[j]);
                assert(K::before(self.entries@[i].0.deep_view(), self.entries@[j].0.deep_view()));
            }
        }
        OrderedMap { entries }
    }

    fn same(&self, other: &Self) -> (equal: bool) {
        self.entries.same(&other.entries)
    }
}

} // verus!
