//! What holds of merging the attributes of roles and channels.

use vstd::prelude::*;

use crate::configuration::channel::{
    merged_overwrites, ChannelAttributesView, OverwritesView, OverwriteTarget, OverwriteTargetView, OverwriteValue,
};
use crate::configuration::permission::KnownPermission;
use crate::configuration::role::{ManagedValue, RoleAttributesView};
use crate::ordered::{
    lookup, put, put_all, put_all_is_associative, put_all_keeps_sorted, put_all_of_nothing, put_all_of_the_same,
    put_entry, put_keeps_sorted, put_then_lookup, rest_is_sorted, same_lookups_same_entries, sorted,
};

verus! {

/// The values that an overwrite gives to permissions.
pub type ValuesView = Seq<(Seq<char>, OverwriteValue)>;

/// Whether overwrites and the values of each are in order, as those of every value are.
pub open spec fn are_in_order(overwrites: OverwritesView) -> bool {
    &&& sorted::<OverwriteTarget, Seq<(Seq<char>, OverwriteValue)>>(overwrites)
    &&& forall|k: int|
        0 <= k < overwrites.len() ==> sorted::<KnownPermission, OverwriteValue>((#[trigger] overwrites[k]).1)
}

/// The values that are given for a target, none where there are none.
pub open spec fn values_for(overwrites: OverwritesView, target: OverwriteTargetView) -> ValuesView {
    match lookup(overwrites, target) {
        Some(values) => values,
        None => Seq::empty(),
    }
}

/// What stands under a target once later overwrites were merged.
pub open spec fn merged_at(first: OverwritesView, after: OverwritesView, target: OverwriteTargetView) -> Option<ValuesView> {
    match lookup(after, target) {
        None => lookup(first, target),
        Some(values) => Some(put_all::<KnownPermission, OverwriteValue>(values_for(first, target), values)),
    }
}

pub(crate) proof fn found_values_are_in_order(overwrites: OverwritesView, target: OverwriteTargetView)
    requires
        are_in_order(overwrites),
    ensures
        sorted::<KnownPermission, OverwriteValue>(values_for(overwrites, target)),
{
    if lookup(overwrites, target) is Some {
        let k = crate::ordered::lookup_has_entry(overwrites, target);
        assert(sorted::<KnownPermission, OverwriteValue>(overwrites[k].1));
    }
}

pub(crate) proof fn merged_overwrites_hold(first: OverwritesView, after: OverwritesView)
    requires
        are_in_order(first),
        are_in_order(after),
    ensures
        are_in_order(merged_overwrites(first, after)),
        forall|target: OverwriteTargetView| #[trigger]
            lookup(merged_overwrites(first, after), target) == merged_at(first, after, target),
    decreases after.len(),
{
    if after.len() > 0 {
        let (subject, more) = after[0];
        let rest = after.drop_first();
        let values = put_all::<KnownPermission, OverwriteValue>(values_for(first, subject), more);
        let next = put::<OverwriteTarget, ValuesView>(first, subject, values);
        found_values_are_in_order(first, subject);
        put_all_keeps_sorted::<KnownPermission, OverwriteValue>(values_for(first, subject), more);
        put_keeps_sorted::<OverwriteTarget, ValuesView>(first, subject, values);
        assert forall|k: int| 0 <= k < next.len() implies sorted::<KnownPermission, OverwriteValue>(
            (#[trigger] next[k]).1,
        ) by {
            put_entry::<OverwriteTarget, ValuesView>(first, subject, values, k);
            if next[k] != (subject, values) {
                let j = first.index_of(next[k]);
                assert(sorted::<KnownPermission, OverwriteValue>(first[j].1));
            }
        }
        rest_is_sorted::<OverwriteTarget, ValuesView>(after);
        assert forall|k: int| 0 <= k < rest.len() implies sorted::<KnownPermission, OverwriteValue>(
            (#[trigger] rest[k]).1,
        ) by {
            assert(rest[k] == after[k + 1]);
        }
        merged_overwrites_hold(next, rest);
        assert forall|target: OverwriteTargetView| #[trigger]
            lookup(merged_overwrites(first, after), target) == merged_at(first, after, target) by {
            put_then_lookup::<OverwriteTarget, ValuesView>(first, subject, values, target);
            assert(lookup(merged_overwrites(next, rest), target) == merged_at(next, rest, target));
        }
    }
}

proof fn merging_overwrites_with_nothing(overwrites: OverwritesView)
    requires
        are_in_order(overwrites),
    ensures
        merged_overwrites(Seq::empty(), overwrites) == overwrites,
        merged_overwrites(overwrites, overwrites) == overwrites,
{
    let none: OverwritesView = Seq::empty();
    merged_overwrites_hold(none, overwrites);
    merged_overwrites_hold(overwrites, overwrites);
    let from_none = merged_overwrites(none, overwrites);
    let twice = merged_overwrites(overwrites, overwrites);
    assert forall|target: OverwriteTargetView| #[trigger] lookup(from_none, target) == lookup(overwrites, target) by {
        assert(lookup(from_none, target) == merged_at(none, overwrites, target));
        found_values_are_in_order(overwrites, target);
        put_all_of_the_same::<KnownPermission, OverwriteValue>(values_for(overwrites, target));
    }
    assert forall|target: OverwriteTargetView| #[trigger] lookup(twice, target) == lookup(overwrites, target) by {
        assert(lookup(twice, target) == merged_at(overwrites, overwrites, target));
        found_values_are_in_order(overwrites, target);
        put_all_of_the_same::<KnownPermission, OverwriteValue>(values_for(overwrites, target));
    }
    same_lookups_same_entries::<OverwriteTarget, ValuesView>(from_none, overwrites);
    same_lookups_same_entries::<OverwriteTarget, ValuesView>(twice, overwrites);
}

proof fn merging_overwrites_is_associative(a: OverwritesView, b: OverwritesView, c: OverwritesView)
    requires
        are_in_order(a),
        are_in_order(b),
        are_in_order(c),
    ensures
        merged_overwrites(merged_overwrites(a, b), c) == merged_overwrites(a, merged_overwrites(b, c)),
{
    let ab = merged_overwrites(a, b);
    let bc = merged_overwrites(b, c);
    merged_overwrites_hold(a, b);
    merged_overwrites_hold(b, c);
    merged_overwrites_hold(ab, c);
    merged_overwrites_hold(a, bc);
    let left = merged_overwrites(ab, c);
    let right = merged_overwrites(a, bc);
    assert forall|target: OverwriteTargetView| #[trigger] lookup(left, target) == lookup(right, target) by {
        assert(lookup(left, target) == merged_at(ab, c, target));
        assert(lookup(right, target) == merged_at(a, bc, target));
        assert(lookup(ab, target) == merged_at(a, b, target));
        assert(lookup(bc, target) == merged_at(b, c, target));
        let x = values_for(a, target);
        let y = values_for(b, target);
        let z = values_for(c, target);
        found_values_are_in_order(a, target);
        found_values_are_in_order(b, target);
        found_values_are_in_order(c, target);
        put_all_is_associative::<KnownPermission, OverwriteValue>(x, y, z);
        put_all_of_the_same::<KnownPermission, OverwriteValue>(z);
    }
    same_lookups_same_entries::<OverwriteTarget, ValuesView>(left, right);
}

proof fn merging_no_overwrites(first: OverwritesView, after: OverwritesView)
    ensures
        merged_overwrites(first, after).len() == 0 <==> first.len() == 0 && after.len() == 0,
    decreases after.len(),
{
    if after.len() > 0 {
        let present = match lookup(first, after[0].0) {
            Some(values) => values,
            None => Seq::empty(),
        };
        let values = put_all::<KnownPermission, OverwriteValue>(present, after[0].1);
        merging_no_overwrites(put::<OverwriteTarget, ValuesView>(first, after[0].0, values), after.drop_first());
    }
}

/// Merging the attributes of a channel with no attributes changes nothing, on either side.
pub proof fn merging_with_nothing_changes_nothing(attributes: ChannelAttributesView)
    requires
        are_in_order(attributes.overwrites),
    ensures
        attributes.merged(ChannelAttributesView::none()) == attributes,
        ChannelAttributesView::none().merged(attributes) == attributes,
{
    merging_overwrites_with_nothing(attributes.overwrites);
}

/// Merging the attributes of a channel with themselves changes nothing.
pub proof fn merging_twice_changes_nothing(attributes: ChannelAttributesView)
    requires
        are_in_order(attributes.overwrites),
    ensures
        attributes.merged(attributes) == attributes,
{
    merging_overwrites_with_nothing(attributes.overwrites);
}

/// It does not matter in which groups the attributes of a channel are merged.
pub proof fn merging_is_associative(a: ChannelAttributesView, b: ChannelAttributesView, c: ChannelAttributesView)
    requires
        are_in_order(a.overwrites),
        are_in_order(b.overwrites),
        are_in_order(c.overwrites),
    ensures
        a.merged(b).merged(c) == a.merged(b.merged(c)),
{
    merging_overwrites_is_associative(a.overwrites, b.overwrites, c.overwrites);
}

/// Merged attributes of a channel are empty exactly where both are, and in order where both are.
pub proof fn merging_is_empty_where_both_are(a: ChannelAttributesView, b: ChannelAttributesView)
    ensures
        a.merged(b).is_empty() <==> a.is_empty() && b.is_empty(),
        are_in_order(a.overwrites) && are_in_order(b.overwrites) ==> are_in_order(a.merged(b).overwrites),
{
    merging_no_overwrites(a.overwrites, b.overwrites);
    if are_in_order(a.overwrites) && are_in_order(b.overwrites) {
        merged_overwrites_hold(a.overwrites, b.overwrites);
    }
}

/// The same laws hold of merging the attributes of roles: with no attributes or with
/// themselves nothing changes, the groups do not matter, and what is merged is empty
/// exactly where both are.
pub proof fn role_attributes_merge_alike(a: RoleAttributesView, b: RoleAttributesView, c: RoleAttributesView)
    requires
        sorted::<KnownPermission, ManagedValue<bool>>(a.permissions),
        sorted::<KnownPermission, ManagedValue<bool>>(b.permissions),
        sorted::<KnownPermission, ManagedValue<bool>>(c.permissions),
    ensures
        a.merged(RoleAttributesView::none()) == a,
        RoleAttributesView::none().merged(a) == a,
        a.merged(a) == a,
        a.merged(b).merged(c) == a.merged(b.merged(c)),
        a.merged(b).is_empty() <==> a.is_empty() && b.is_empty(),
{
    put_all_of_the_same::<KnownPermission, ManagedValue<bool>>(a.permissions);
    put_all_is_associative::<KnownPermission, ManagedValue<bool>>(a.permissions, b.permissions, c.permissions);
    put_all_of_nothing::<KnownPermission, ManagedValue<bool>>(a.permissions, b.permissions);
}

} // verus!
