//! What was exported of the channels of a guild is accepted, and asks for no change.

use vstd::prelude::*;
use vstd::string::*;

use crate::configuration::channel::{
    first_unknown_overwrite, merged_overwrites, ChannelAttributesView, ChannelDefinitionView, ChannelKind, ChannelValue,
    OverwritesView, OverwriteTarget, OverwriteTargetView, OverwriteValue, RawChannelDefinitionView,
};
use crate::configuration::definition::{parsed_channels, parsed_roles, DefinitionView};
use crate::configuration::input::{
    channel_fault, member_reference_fault, overwrite_target_fault, plan_input, references_fault, role_reference_fault,
};
use crate::configuration::permission::{first_unknown, KnownPermission};
use crate::configuration::role::{RawRoleDefinitionView, RoleDefinitionView, RoleMode};

use crate::configuration::state::{
    entry_has_holder, holder, holder_has_entry, is_injective, put_keeps_injective, sound_states_are_accepted,
    MappingsView, StateView,
};
use crate::domain::ErrorView;
use crate::export::channel::{
    channel_name, describable, described_channel, described_channels, described_overwrites, described_target,
    exported_channels, inverted, is_describable, lost_channel, member_references, named_channels, role_references,
    with_all_targets, with_bindings, with_named, with_object, with_overwrite_target, with_overwrite_targets,
    NamedChannelsView, NamesView, TargetsView,
};
use crate::export::role::{earlier_state, generated_name, referenced_role};
use crate::export::laws::{is_readable, meanings, meanings_are_found, nothing_is_said, readable_roles_are_read};
use crate::ids::{
    everyone, ChannelId, ChannelLogicalId, ChannelLogicalIdTag, LogicalId, MemberLogicalId, MemberLogicalIdTag,
    RoleLogicalId, RoleLogicalIdTag,
};
use crate::ordered::{
    entry_is_found, first_in, first_in_none, has_key, lookup, lookup_has_entry, lookup_in_sorted, put, put_all,
    put_entry, put_keeps_sorted, put_then_lookup, sorted, sorted_entries, OrderedKey,
};
use crate::port::{
    ChannelCatalogView, ChannelOverwritePermissionsView, ChannelOverwritesView, ChannelOverwriteTarget,
    ChannelOverwriteTargetView, ChannelSnapshotView,
};
use crate::resource::channel::create::{is_listed, named_parent_fault};
use crate::resource::channel::effects::stands_for;
use crate::resource::channel::laws::{
    channels_as_wanted_do_not_change, has_wanted_overwrites, has_wanted_values, is_as_wanted,
};
use crate::resource::channel::overwrites::{by_id, ActualChannelsView, permissions_for, resolved_target, value_in};
use crate::resource::channel::plan::{
    channel_plan, channel_step, with_declared, with_released, ChannelStepView, PlanView,
};
use crate::text::{decimal, decimal_round_trip};

verus! {

/// Whether no two channels have one identifier.
pub open spec fn ids_differ(channels: Seq<ChannelSnapshotView>) -> bool {
    forall|i: int, j: int| 0 <= i < j < channels.len() ==> (#[trigger] channels[i]).id != (#[trigger] channels[j]).id
}

proof fn describable_are_listed(channels: Seq<ChannelSnapshotView>, k: int)
    requires
        0 <= k < describable(channels).len(),
    ensures
        channels.contains(describable(channels)[k]),
        is_describable(describable(channels)[k]),
    decreases channels.len(),
{
    let rest = describable(channels.drop_last());
    if k < rest.len() {
        describable_are_listed(channels.drop_last(), k);
        let j = channels.drop_last().index_of(rest[k]);
        assert(channels[j] == describable(channels)[k]);
    } else {
        assert(channels[channels.len() - 1] == describable(channels)[k]);
    }
}

proof fn listed_are_describable(channels: Seq<ChannelSnapshotView>, k: int)
    requires
        0 <= k < channels.len(),
        is_describable(channels[k]),
    ensures
        describable(channels).contains(channels[k]),
    decreases channels.len(),
{
    let rest = describable(channels.drop_last());
    let all = describable(channels);
    if k < channels.len() - 1 {
        listed_are_describable(channels.drop_last(), k);
        let j = rest.index_of(channels[k]);
        assert(all[j] == channels[k]);
    } else {
        assert(all[all.len() - 1] == channels[k]);
    }
}

proof fn describable_ids_differ(channels: Seq<ChannelSnapshotView>)
    requires
        ids_differ(channels),
    ensures
        ids_differ(describable(channels)),
    decreases channels.len(),
{
    if channels.len() > 0 {
        let front = channels.drop_last();
        let rest = describable(front);
        let all = describable(channels);
        assert(ids_differ(front)) by {
            assert forall|i: int, j: int| 0 <= i < j < front.len() implies (#[trigger] front[i]).id != (
            #[trigger] front[j]).id by {
                assert(channels[i].id != channels[j].id);
            }
        }
        describable_ids_differ(front);
        assert forall|i: int, j: int| 0 <= i < j < all.len() implies (#[trigger] all[i]).id != (#[trigger] all[j]).id by {
            if j < rest.len() {
                assert(rest[i].id != rest[j].id);
            } else {
                describable_are_listed(front, i);
                let k = front.index_of(rest[i]);
                assert(channels[k].id != channels[channels.len() - 1].id);
            }
        }
    }
}

/// Names that are made up for different objects differ.
pub proof fn generated_names_differ(prefix: Seq<char>, a: u64, b: u64)
    requires
        generated_name(prefix, a) == generated_name(prefix, b),
    ensures
        a == b,
{
    let left = generated_name(prefix, a);
    let right = generated_name(prefix, b);
    assert(left.skip(prefix.len() as int) =~= decimal(a as nat));
    assert(right.skip(prefix.len() as int) =~= decimal(b as nat));
    decimal_round_trip(a as nat);
    decimal_round_trip(b as nat);
}

proof fn a_holder_is_bound<K: OrderedKey<V = Seq<char>>>(mappings: MappingsView, id: u64)
    requires
        sorted::<K, u64>(mappings),
        holder(mappings, id) is Some,
    ensures
        lookup(mappings, holder(mappings, id)->0) == Some(id),
{
    let i = holder_has_entry(mappings, id);
    lookup_in_sorted::<K, u64>(mappings, i);
}

proof fn a_bound_name_holds(mappings: MappingsView, name: Seq<char>, id: u64)
    requires
        is_injective(mappings),
        lookup(mappings, name) == Some(id),
    ensures
        holder(mappings, id) == Some(name),
{
    let k = lookup_has_entry(mappings, name);
    entry_has_holder(mappings, k);
    let j = holder_has_entry(mappings, id);
    if j < k {
        assert(mappings[j].1 != mappings[k].1);
    } else if k < j {
        assert(mappings[k].1 != mappings[j].1);
    }
}

/// Whether bindings are in order and one to one.
pub open spec fn are_proper(mappings: MappingsView) -> bool {
    sorted::<ChannelLogicalId, u64>(mappings) && is_injective(mappings)
}

/// Names of one kind are in order just when the same names of another kind are.
proof fn names_order_alike<A, B>(mappings: MappingsView)
    requires
        sorted::<LogicalId<A>, u64>(mappings),
    ensures
        sorted::<LogicalId<B>, u64>(mappings),
{
    assert forall|i: int, j: int| 0 <= i < j < mappings.len() implies LogicalId::<B>::before(
        #[trigger] mappings[i].0,
        #[trigger] mappings[j].0,
    ) by {
        sorted_entries::<LogicalId<A>, u64>(mappings, i, j);
    }
}

/// What holds of the names of the first channels.
spec fn names_hold(named: NamedChannelsView, channels: Seq<ChannelSnapshotView>, n: int, previous: MappingsView) -> bool {
    &&& are_proper(named.mappings)
    &&& forall|name: Seq<char>|
        lookup(previous, name) is Some ==> #[trigger] lookup(named.mappings, name) == lookup(previous, name)
    &&& forall|k: int|
        0 <= k < n ==> {
            let name = lookup(named.names, (#[trigger] channels[k]).id);
            &&& name is Some
            &&& channel_name(channels[k].id, previous) == Ok::<Seq<char>, ErrorView>(name->0)
            &&& lookup(named.mappings, name->0) == Some(channels[k].id)
        }
    &&& forall|id: u64|
        (#[trigger] lookup(named.names, id)) is Some ==> exists|k: int| 0 <= k < n && (#[trigger] channels[k]).id == id
    &&& forall|name: Seq<char>|
        (#[trigger] lookup(named.mappings, name)) is Some && lookup(previous, name) is None ==> exists|k: int|
            0 <= k < n && (#[trigger] channels[k]).id == lookup(named.mappings, name)->0
}

proof fn naming_holds(named: NamedChannelsView, channels: Seq<ChannelSnapshotView>, n: int, previous: MappingsView)
    requires
        0 <= n < channels.len(),
        ids_differ(channels),
        are_proper(previous),
        names_hold(named, channels, n, previous),
        with_named(named, channels[n].id, previous) is Ok,
    ensures
        names_hold(with_named(named, channels[n].id, previous)->Ok_0, channels, n + 1, previous),
{
    let id = channels[n].id;
    let name = channel_name(id, previous)->Ok_0;
    let after = with_named(named, id, previous)->Ok_0;
    if holder(previous, id) is Some {
        a_holder_is_bound::<ChannelLogicalId>(previous, id);
    }
    if let Some(other) = holder(named.mappings, id) {
        a_holder_is_bound::<ChannelLogicalId>(named.mappings, id);
        if lookup(previous, other) is Some {
            a_bound_name_holds(previous, other, id);
        } else {
            let k = choose|k: int| 0 <= k < n && (#[trigger] channels[k]).id == lookup(named.mappings, other)->0;
            assert(channels[k].id != channels[n].id);
        }
    }
    put_keeps_injective::<ChannelLogicalId>(named.mappings, name, id);
    put_keeps_sorted::<ChannelLogicalId, u64>(named.mappings, name, id);
    assert forall|asked: Seq<char>| #[trigger] lookup(after.mappings, asked) == (if asked == name {
        Some(id)
    } else {
        lookup(named.mappings, asked)
    }) by {
        put_then_lookup::<ChannelLogicalId, u64>(named.mappings, name, id, asked);
    }
    assert forall|asked: u64| #[trigger] lookup(after.names, asked) == (if asked == id {
        Some(name)
    } else {
        lookup(named.names, asked)
    }) by {
        put_then_lookup::<ChannelId, Seq<char>>(named.names, id, name, asked);
    }
    assert forall|asked: Seq<char>| lookup(previous, asked) is Some implies #[trigger] lookup(after.mappings, asked)
        == lookup(previous, asked) by {
        assert(lookup(named.mappings, asked) == lookup(previous, asked));
    }
    assert forall|k: int| 0 <= k < n + 1 implies {
        let own = lookup(after.names, (#[trigger] channels[k]).id);
        &&& own is Some
        &&& channel_name(channels[k].id, previous) == Ok::<Seq<char>, ErrorView>(own->0)
        &&& lookup(after.mappings, own->0) == Some(channels[k].id)
    } by {
        if k < n {
            assert(channels[k].id != channels[n].id);
            let own = lookup(named.names, channels[k].id)->0;
            assert(lookup(named.mappings, own) == Some(channels[k].id));
        }
    }
    assert forall|asked: u64| (#[trigger] lookup(after.names, asked)) is Some implies exists|k: int|
        0 <= k < n + 1 && (#[trigger] channels[k]).id == asked by {
        if asked == id {
            assert(channels[n].id == asked);
        } else {
            let k = choose|k: int| 0 <= k < n && (#[trigger] channels[k]).id == asked;
            assert(channels[k].id == asked);
        }
    }
    assert forall|asked: Seq<char>|
        (#[trigger] lookup(after.mappings, asked)) is Some && lookup(previous, asked) is None implies exists|k: int|
        0 <= k < n + 1 && (#[trigger] channels[k]).id == lookup(after.mappings, asked)->0 by {
        if asked == name {
            assert(channels[n].id == id);
        } else {
            assert(lookup(named.mappings, asked) is Some);
            let k = choose|k: int| 0 <= k < n && (#[trigger] channels[k]).id == lookup(named.mappings, asked)->0;
            assert(channels[k].id == lookup(after.mappings, asked)->0);
        }
    }
}

proof fn named_channels_hold(channels: Seq<ChannelSnapshotView>, n: int, previous: MappingsView)
    requires
        0 <= n <= channels.len(),
        ids_differ(channels),
        are_proper(previous),
        named_channels(channels.take(n), previous) is Ok,
    ensures
        names_hold(named_channels(channels.take(n), previous)->Ok_0, channels, n, previous),
    decreases n,
{
    if n > 0 {
        assert(channels.take(n).drop_last() =~= channels.take(n - 1));
        assert(channels.take(n).last() == channels[n - 1]);
        named_channels_hold(channels, n - 1, previous);
        naming_holds(named_channels(channels.take(n - 1), previous)->Ok_0, channels, n - 1, previous);
    } else {
        assert(channels.take(0) =~= Seq::empty());
        let named = named_channels(channels.take(0), previous)->Ok_0;
        assert forall|id: u64| (#[trigger] lookup(named.names, id)) is None by {}
    }
}

/// Whether objects have the names that they are bound to, or made up ones that are free.
spec fn are_named(names: NamesView, prefix: Seq<char>, previous: MappingsView) -> bool {
    &&& sorted::<ChannelId, Seq<char>>(names)
    &&& forall|id: u64|
        (#[trigger] lookup(names, id)) is Some ==> {
            let name = lookup(names, id)->0;
            lookup(previous, name) == Some(id) || (name == generated_name(prefix, id) && lookup(previous, name) is None
                && holder(previous, id) is None)
        }
    &&& forall|name: Seq<char>|
        (#[trigger] lookup(previous, name)) is Some ==> lookup(names, lookup(previous, name)->0) == Some(name)
}

proof fn inverted_are_named(previous: MappingsView, n: int)
    requires
        are_proper(previous),
        0 <= n <= previous.len(),
    ensures
        sorted::<ChannelId, Seq<char>>(inverted(previous.take(n))),
        forall|id: u64|
            (#[trigger] lookup(inverted(previous.take(n)), id)) is Some ==> lookup(
                previous,
                lookup(inverted(previous.take(n)), id)->0,
            ) == Some(id),
        forall|k: int|
            0 <= k < n ==> lookup(inverted(previous.take(n)), (#[trigger] previous[k]).1) == Some(previous[k].0),
    decreases n,
{
    let all = inverted(previous.take(n));
    if n > 0 {
        let before = inverted(previous.take(n - 1));
        let (name, id) = previous[n - 1];
        inverted_are_named(previous, n - 1);
        assert(previous.take(n).drop_last() =~= previous.take(n - 1));
        assert(previous.take(n).last() == previous[n - 1]);
        put_keeps_sorted::<ChannelId, Seq<char>>(before, id, name);
        lookup_in_sorted::<ChannelLogicalId, u64>(previous, n - 1);
        assert forall|asked: u64| #[trigger] lookup(all, asked) == (if asked == id {
            Some(name)
        } else {
            lookup(before, asked)
        }) by {
            put_then_lookup::<ChannelId, Seq<char>>(before, id, name, asked);
        }
        assert forall|k: int| 0 <= k < n implies lookup(all, (#[trigger] previous[k]).1) == Some(previous[k].0) by {
            if k < n - 1 {
                assert(previous[k].1 != previous[n - 1].1);
                assert(lookup(before, previous[k].1) == Some(previous[k].0));
            }
        }
        assert forall|asked: u64| (#[trigger] lookup(all, asked)) is Some implies lookup(
            previous,
            lookup(all, asked)->0,
        ) == Some(asked) by {
            if asked != id {
                assert(lookup(before, asked) is Some);
            }
        }
    } else {
        assert(previous.take(0) =~= Seq::empty());
        assert forall|id: u64| (#[trigger] lookup(all, id)) is None by {}
    }
}

proof fn inverted_names(prefix: Seq<char>, previous: MappingsView)
    requires
        are_proper(previous),
    ensures
        are_named(inverted(previous), prefix, previous),
{
    inverted_are_named(previous, previous.len() as int);
    assert(previous.take(previous.len() as int) =~= previous);
    assert forall|name: Seq<char>| (#[trigger] lookup(previous, name)) is Some implies lookup(
        inverted(previous),
        lookup(previous, name)->0,
    ) == Some(name) by {
        let k = lookup_has_entry(previous, name);
        assert(lookup(inverted(previous), previous[k].1) == Some(previous[k].0));
    }
}

proof fn objects_stay_named(names: NamesView, id: u64, prefix: Seq<char>, previous: MappingsView)
    requires
        are_proper(previous),
        are_named(names, prefix, previous),
        with_object(names, id, prefix, previous) is Ok,
    ensures
        are_named(with_object(names, id, prefix, previous)->Ok_0, prefix, previous),
        has_key(with_object(names, id, prefix, previous)->Ok_0, id),
        forall|other: u64| #[trigger]
            has_key(with_object(names, id, prefix, previous)->Ok_0, other) == (other == id || has_key(names, other)),
{
    let after = with_object(names, id, prefix, previous)->Ok_0;
    if !has_key(names, id) {
        let name = generated_name(prefix, id);
        put_keeps_sorted::<ChannelId, Seq<char>>(names, id, name);
        assert forall|asked: u64| #[trigger] lookup(after, asked) == (if asked == id {
            Some(name)
        } else {
            lookup(names, asked)
        }) by {
            put_then_lookup::<ChannelId, Seq<char>>(names, id, name, asked);
        }
        if let Some(other) = holder(previous, id) {
            a_holder_is_bound::<ChannelLogicalId>(previous, id);
            assert(lookup(previous, other) is Some);
        }
        assert forall|asked: Seq<char>| (#[trigger] lookup(previous, asked)) is Some implies lookup(
            after,
            lookup(previous, asked)->0,
        ) == Some(asked) by {
            assert(lookup(names, lookup(previous, asked)->0) == Some(asked));
        }
        assert forall|asked: u64| (#[trigger] lookup(after, asked)) is Some implies {
            let own = lookup(after, asked)->0;
            lookup(previous, own) == Some(asked) || (own == generated_name(prefix, asked) && lookup(previous, own)
                is None && holder(previous, asked) is None)
        } by {
            if asked != id {
                assert(lookup(names, asked) is Some);
            }
        }
        assert forall|other: u64| #[trigger] has_key(after, other) == (other == id || has_key(names, other)) by {
            assert(lookup(after, other) == lookup(after, other));
        }
    }
}

/// What holds of bindings to which the first named objects were added.
spec fn bindings_hold(mappings: MappingsView, names: NamesView, n: int, previous: MappingsView) -> bool {
    &&& are_proper(mappings)
    &&& forall|name: Seq<char>|
        lookup(previous, name) is Some ==> #[trigger] lookup(mappings, name) == lookup(previous, name)
    &&& forall|j: int| 0 <= j < n ==> lookup(mappings, (#[trigger] names[j]).1) == Some(names[j].0)
    &&& forall|name: Seq<char>|
        (#[trigger] lookup(mappings, name)) is Some && lookup(previous, name) is None ==> exists|j: int|
            0 <= j < n && (#[trigger] names[j]) == (lookup(mappings, name)->0, name)
}

proof fn bound_names_hold(names: NamesView, n: int, prefix: Seq<char>, previous: MappingsView)
    requires
        0 <= n <= names.len(),
        are_proper(previous),
        are_named(names, prefix, previous),
    ensures
        bindings_hold(with_bindings(previous, names.take(n)), names, n, previous),
    decreases n,
{
    let after = with_bindings(previous, names.take(n));
    if n > 0 {
        bound_names_hold(names, n - 1, prefix, previous);
        assert(names.take(n).drop_last() =~= names.take(n - 1));
        assert(names.take(n).last() == names[n - 1]);
        let before = with_bindings(previous, names.take(n - 1));
        let (id, name) = names[n - 1];
        lookup_in_sorted::<ChannelId, Seq<char>>(names, n - 1);
        assert(lookup(names, id) == Some(name));
        if has_key(before, name) {
            if lookup(previous, name) is None {
                assert(lookup(before, name) is Some);
                let j = choose|j: int| 0 <= j < n - 1 && (#[trigger] names[j]) == (lookup(before, name)->0, name);
                lookup_in_sorted::<ChannelId, Seq<char>>(names, j);
                let other = names[j].0;
                assert(lookup(names, other) == Some(name));
                generated_names_differ(prefix, id, other);
                assert(ChannelId::before(names[j].0, names[n - 1].0));
            } else {
                assert(lookup(before, name) == lookup(previous, name));
            }
            assert forall|asked: Seq<char>|
                (#[trigger] lookup(after, asked)) is Some && lookup(previous, asked) is None implies exists|j: int|
                0 <= j < n && (#[trigger] names[j]) == (lookup(after, asked)->0, asked) by {
                let j = choose|j: int| 0 <= j < n - 1 && (#[trigger] names[j]) == (lookup(before, asked)->0, asked);
                assert(0 <= j < n);
            }
        } else {
            assert(lookup(previous, name) is None) by {
                if lookup(previous, name) is Some {
                    assert(lookup(before, name) == lookup(previous, name));
                }
            }
            if let Some(other) = holder(before, id) {
                a_holder_is_bound::<ChannelLogicalId>(before, id);
                if lookup(previous, other) is Some {
                    assert(lookup(before, other) == lookup(previous, other));
                    a_bound_name_holds(previous, other, id);
                } else {
                    let j = choose|j: int| 0 <= j < n - 1 && (#[trigger] names[j]) == (lookup(before, other)->0, other);
                    assert(ChannelId::before(names[j].0, names[n - 1].0));
                }
            }
            names_order_alike::<ChannelLogicalIdTag, RoleLogicalIdTag>(before);
            put_keeps_injective::<RoleLogicalId>(before, name, id);
            put_keeps_sorted::<RoleLogicalId, u64>(before, name, id);
            names_order_alike::<RoleLogicalIdTag, ChannelLogicalIdTag>(after);
            assert forall|asked: Seq<char>| #[trigger] lookup(after, asked) == (if asked == name {
                Some(id)
            } else {
                lookup(before, asked)
            }) by {
                put_then_lookup::<RoleLogicalId, u64>(before, name, id, asked);
            }
            assert forall|asked: Seq<char>| lookup(previous, asked) is Some implies #[trigger] lookup(after, asked)
                == lookup(previous, asked) by {
                assert(lookup(before, asked) == lookup(previous, asked));
            }
            assert forall|j: int| 0 <= j < n implies lookup(after, (#[trigger] names[j]).1) == Some(names[j].0) by {
                if j < n - 1 {
                    assert(lookup(before, names[j].1) == Some(names[j].0));
                }
            }
            assert forall|asked: Seq<char>|
                (#[trigger] lookup(after, asked)) is Some && lookup(previous, asked) is None implies exists|j: int|
                0 <= j < n && (#[trigger] names[j]) == (lookup(after, asked)->0, asked) by {
                if asked == name {
                    assert(names[n - 1] == (lookup(after, asked)->0, asked));
                } else {
                    assert(lookup(before, asked) is Some);
                    let j = choose|j: int| 0 <= j < n - 1 && (#[trigger] names[j]) == (lookup(before, asked)->0, asked);
                    assert(0 <= j < n);
                }
            }
        }
    } else {
        assert(names.take(0) =~= Seq::empty());
    }
}

/// What holds of the roles and members for whom overwrites are.
spec fn targets_hold(targets: TargetsView, earlier: StateView) -> bool {
    &&& are_named(targets.roles, "role_"@, earlier.roles)
    &&& are_named(targets.members, "member_"@, earlier.members)
    &&& !has_key(targets.roles, earlier.guild_id)
}

/// Whether no overwrite is for the role that every member has, by its identifier.
pub open spec fn targets_are_proper(overwrites: ChannelOverwritesView, guild_id: u64) -> bool {
    forall|j: int| 0 <= j < overwrites.len() ==> (#[trigger] overwrites[j]).0 != ChannelOverwriteTargetView::Role(guild_id)
}

proof fn overwrite_targets_hold(targets: TargetsView, overwrites: ChannelOverwritesView, i: int, earlier: StateView)
    requires
        0 <= i <= overwrites.len(),
        are_proper(earlier.roles),
        are_proper(earlier.members),
        targets_hold(targets, earlier),
        targets_are_proper(overwrites, earlier.guild_id),
        with_overwrite_targets(targets, overwrites, i, earlier) is Ok,
    ensures
        targets_hold(with_overwrite_targets(targets, overwrites, i, earlier)->Ok_0, earlier),
    decreases overwrites.len() - i,
{
    if i < overwrites.len() {
        let next = with_overwrite_target(targets, overwrites[i].0, earlier)->Ok_0;
        match overwrites[i].0 {
            ChannelOverwriteTargetView::Everyone => {},
            ChannelOverwriteTargetView::Role(id) => {
                objects_stay_named(targets.roles, id, "role_"@, earlier.roles);
                assert(has_key(next.roles, earlier.guild_id) == (earlier.guild_id == id || has_key(
                    targets.roles,
                    earlier.guild_id,
                )));
            },
            ChannelOverwriteTargetView::Member(id) => {
                objects_stay_named(targets.members, id, "member_"@, earlier.members);
            },
        }
        overwrite_targets_hold(next, overwrites, i + 1, earlier);
    }
}

proof fn all_targets_hold(targets: TargetsView, channels: Seq<ChannelSnapshotView>, i: int, earlier: StateView)
    requires
        0 <= i <= channels.len(),
        are_proper(earlier.roles),
        are_proper(earlier.members),
        targets_hold(targets, earlier),
        forall|k: int|
            0 <= k < channels.len() ==> targets_are_proper((#[trigger] channels[k]).overwrites, earlier.guild_id),
        with_all_targets(targets, channels, i, earlier) is Ok,
    ensures
        targets_hold(with_all_targets(targets, channels, i, earlier)->Ok_0, earlier),
    decreases channels.len() - i,
{
    if i < channels.len() {
        overwrite_targets_hold(targets, channels[i].overwrites, 0, earlier);
        all_targets_hold(
            with_overwrite_targets(targets, channels[i].overwrites, 0, earlier)->Ok_0,
            channels,
            i + 1,
            earlier,
        );
    }
}

proof fn role_references_hold(names: NamesView)
    ensures
        sorted::<RoleLogicalId, RawRoleDefinitionView>(role_references(names)),
        forall|name: Seq<char>|
            (#[trigger] lookup(role_references(names), name)) is Some ==> lookup(role_references(names), name)
                == Some(referenced_role()) && exists|j: int| 0 <= j < names.len() && (#[trigger] names[j]).1 == name,
        forall|j: int| 0 <= j < names.len() ==> has_key(role_references(names), (#[trigger] names[j]).1),
    decreases names.len(),
{
    let all = role_references(names);
    if names.len() > 0 {
        let front = names.drop_last();
        let before = role_references(front);
        role_references_hold(front);
        let own = names.last().1;
        put_keeps_sorted::<RoleLogicalId, RawRoleDefinitionView>(before, own, referenced_role());
        assert forall|name: Seq<char>| #[trigger] lookup(all, name) == (if name == own {
            Some(referenced_role())
        } else {
            lookup(before, name)
        }) by {
            put_then_lookup::<RoleLogicalId, RawRoleDefinitionView>(before, own, referenced_role(), name);
        }
        assert forall|name: Seq<char>| (#[trigger] lookup(all, name)) is Some implies lookup(all, name) == Some(
            referenced_role(),
        ) && exists|j: int| 0 <= j < names.len() && (#[trigger] names[j]).1 == name by {
            if name == own {
                assert(names[names.len() - 1].1 == name);
            } else {
                assert(lookup(before, name) is Some);
                let j = choose|j: int| 0 <= j < front.len() && (#[trigger] front[j]).1 == name;
                assert(names[j].1 == name);
            }
        }
        assert forall|j: int| 0 <= j < names.len() implies has_key(all, (#[trigger] names[j]).1) by {
            if j < front.len() {
                assert(has_key(before, front[j].1));
            }
            assert(lookup(all, names[j].1) is Some);
        }
    }
}

proof fn member_references_hold(names: NamesView)
    ensures
        sorted::<MemberLogicalId, RoleMode>(member_references(names)),
        forall|name: Seq<char>|
            (#[trigger] lookup(member_references(names), name)) is Some ==> lookup(member_references(names), name)
                == Some(RoleMode::Reference) && exists|j: int|
                0 <= j < names.len() && (#[trigger] names[j]).1 == name,
        forall|j: int| 0 <= j < names.len() ==> has_key(member_references(names), (#[trigger] names[j]).1),
    decreases names.len(),
{
    let all = member_references(names);
    if names.len() > 0 {
        let front = names.drop_last();
        let before = member_references(front);
        member_references_hold(front);
        let own = names.last().1;
        put_keeps_sorted::<MemberLogicalId, RoleMode>(before, own, RoleMode::Reference);
        assert forall|name: Seq<char>| #[trigger] lookup(all, name) == (if name == own {
            Some(RoleMode::Reference)
        } else {
            lookup(before, name)
        }) by {
            put_then_lookup::<MemberLogicalId, RoleMode>(before, own, RoleMode::Reference, name);
        }
        assert forall|name: Seq<char>| (#[trigger] lookup(all, name)) is Some implies lookup(all, name) == Some(
            RoleMode::Reference,
        ) && exists|j: int| 0 <= j < names.len() && (#[trigger] names[j]).1 == name by {
            if name == own {
                assert(names[names.len() - 1].1 == name);
            } else {
                assert(lookup(before, name) is Some);
                let j = choose|j: int| 0 <= j < front.len() && (#[trigger] front[j]).1 == name;
                assert(names[j].1 == name);
            }
        }
        assert forall|j: int| 0 <= j < names.len() implies has_key(all, (#[trigger] names[j]).1) by {
            if j < front.len() {
                assert(has_key(before, front[j].1));
            }
            assert(lookup(all, names[j].1) is Some);
        }
    }
}

/// Written channels, with the channels that they describe.
type DescribedView = Seq<(Seq<char>, RawChannelDefinitionView)>;

/// What holds of the written channels once the first channels were described.
spec fn descriptions_hold(
    described: DescribedView,
    channels: Seq<ChannelSnapshotView>,
    n: int,
    names: NamesView,
    targets: TargetsView,
) -> bool {
    &&& sorted::<ChannelLogicalId, RawChannelDefinitionView>(described)
    &&& forall|k: int|
        0 <= k < n ==> {
            let name = lookup(names, (#[trigger] channels[k]).id)->0;
            &&& lookup(described, name) is Some
            &&& described_channel(name, channels[k], names, targets) == Ok::<RawChannelDefinitionView, ErrorView>(
                lookup(described, name)->0,
            )
        }
    &&& forall|name: Seq<char>|
        (#[trigger] lookup(described, name)) is Some ==> exists|k: int|
            0 <= k < n && lookup(names, (#[trigger] channels[k]).id) == Some(name)
}

/// Whether each channel has a name of its own.
spec fn own_names(channels: Seq<ChannelSnapshotView>, names: NamesView, mappings: MappingsView) -> bool {
    forall|k: int|
        0 <= k < channels.len() ==> {
            let name = lookup(names, (#[trigger] channels[k]).id);
            name is Some && lookup(mappings, name->0) == Some(channels[k].id)
        }
}

proof fn described_channels_hold(
    channels: Seq<ChannelSnapshotView>,
    i: int,
    names: NamesView,
    mappings: MappingsView,
    targets: TargetsView,
    described: DescribedView,
)
    requires
        0 <= i <= channels.len(),
        ids_differ(channels),
        own_names(channels, names, mappings),
        descriptions_hold(described, channels, i, names, targets),
        described_channels(channels, i, names, targets, described) is Ok,
    ensures
        descriptions_hold(
            described_channels(channels, i, names, targets, described)->Ok_0,
            channels,
            channels.len() as int,
            names,
            targets,
        ),
    decreases channels.len() - i,
{
    if i < channels.len() {
        let id = channels[i].id;
        let name = lookup(names, id)->0;
        let written = described_channel(name, channels[i], names, targets)->Ok_0;
        let next = put::<ChannelLogicalId, RawChannelDefinitionView>(described, name, written);
        assert(lookup(names, id) is Some);
        put_keeps_sorted::<ChannelLogicalId, RawChannelDefinitionView>(described, name, written);
        assert forall|asked: Seq<char>| #[trigger] lookup(next, asked) == (if asked == name {
            Some(written)
        } else {
            lookup(described, asked)
        }) by {
            put_then_lookup::<ChannelLogicalId, RawChannelDefinitionView>(described, name, written, asked);
        }
        assert forall|k: int| 0 <= k < i + 1 implies {
            let own = lookup(names, (#[trigger] channels[k]).id)->0;
            &&& lookup(next, own) is Some
            &&& described_channel(own, channels[k], names, targets) == Ok::<RawChannelDefinitionView, ErrorView>(
                lookup(next, own)->0,
            )
        } by {
            if k < i {
                let own = lookup(names, channels[k].id)->0;
                assert(channels[k].id != channels[i].id);
                assert(lookup(mappings, own) == Some(channels[k].id));
                assert(lookup(mappings, name) == Some(channels[i].id));
                assert(lookup(described, own) is Some);
            }
        }
        assert forall|asked: Seq<char>| (#[trigger] lookup(next, asked)) is Some implies exists|k: int|
            0 <= k < i + 1 && lookup(names, (#[trigger] channels[k]).id) == Some(asked) by {
            if asked == name {
                assert(lookup(names, channels[i].id) == Some(asked));
            } else {
                assert(lookup(described, asked) is Some);
                let k = choose|k: int| 0 <= k < i && lookup(names, (#[trigger] channels[k]).id) == Some(asked);
                assert(lookup(names, channels[k].id) == Some(asked));
            }
        }
        described_channels_hold(channels, i + 1, names, mappings, targets, next);
    }
}

proof fn by_id_finds(channels: Seq<ChannelSnapshotView>, k: int)
    requires
        ids_differ(channels),
        0 <= k < channels.len(),
    ensures
        lookup(by_id(channels), channels[k].id) == Some(channels[k]),
    decreases channels.len(),
{
    let front = channels.drop_last();
    let last = channels.last();
    put_then_lookup::<ChannelId, ChannelSnapshotView>(by_id(front), last.id, last, channels[k].id);
    if k < front.len() {
        assert(channels[k].id != channels[channels.len() - 1].id);
        assert forall|i: int, j: int| 0 <= i < j < front.len() implies (#[trigger] front[i]).id != (
        #[trigger] front[j]).id by {
            assert(channels[i].id != channels[j].id);
        }
        by_id_finds(front, k);
    }
}

/// Whether overwrites ask for what a channel has, for roles and members that are declared.
spec fn overwrites_fit(
    id: Seq<char>,
    wanted: OverwritesView,
    actual: ChannelOverwritesView,
    definition: DefinitionView,
    state: StateView,
) -> bool {
    &&& has_wanted_overwrites(id, wanted, actual, state)
    &&& forall|k: int|
        0 <= k < wanted.len() ==> overwrite_target_fault(id, (#[trigger] wanted[k]).0, definition, state) is None
}

proof fn put_values_fit(
    first: Seq<(Seq<char>, OverwriteValue)>,
    after: Seq<(Seq<char>, OverwriteValue)>,
    known: Seq<(Seq<char>, OverwriteValue)>,
)
    requires
        has_wanted_values(first, known),
        has_wanted_values(after, known),
    ensures
        has_wanted_values(put_all::<KnownPermission, OverwriteValue>(first, after), known),
    decreases after.len(),
{
    if after.len() > 0 {
        let next = put::<KnownPermission, OverwriteValue>(first, after[0].0, after[0].1);
        let rest = after.drop_first();
        assert forall|k: int| 0 <= k < next.len() implies value_in(known, (#[trigger] next[k]).0) == next[k].1 by {
            put_entry::<KnownPermission, OverwriteValue>(first, after[0].0, after[0].1, k);
            if next[k] == (after[0].0, after[0].1) {
                assert(value_in(known, after[0].0) == after[0].1);
            } else {
                let j = first.index_of(next[k]);
                assert(value_in(known, first[j].0) == first[j].1);
            }
        }
        assert forall|k: int| 0 <= k < rest.len() implies value_in(known, (#[trigger] rest[k]).0) == rest[k].1 by {
            assert(rest[k] == after[k + 1]);
        }
        put_values_fit(next, rest, known);
    }
}

proof fn merged_overwrites_fit(
    id: Seq<char>,
    first: OverwritesView,
    after: OverwritesView,
    actual: ChannelOverwritesView,
    definition: DefinitionView,
    state: StateView,
)
    requires
        overwrites_fit(id, first, actual, definition, state),
        overwrites_fit(id, after, actual, definition, state),
    ensures
        overwrites_fit(id, merged_overwrites(first, after), actual, definition, state),
    decreases after.len(),
{
    if after.len() > 0 {
        let subject = after[0].0;
        let present = match lookup(first, subject) {
            Some(permissions) => permissions,
            None => Seq::empty(),
        };
        let values = put_all::<KnownPermission, OverwriteValue>(present, after[0].1);
        let next = put::<OverwriteTarget, Seq<(Seq<char>, OverwriteValue)>>(first, subject, values);
        let rest = after.drop_first();
        let known = permissions_for(actual, resolved_target(subject, id, state)->Ok_0).known;
        assert(has_wanted_values(after[0].1, known));
        if lookup(first, subject) is Some {
            let j = lookup_has_entry(first, subject);
            assert(resolved_target(first[j].0, id, state) is Ok);
            assert(has_wanted_values(first[j].1, known));
        }
        assert(has_wanted_values(present, known));
        put_values_fit(present, after[0].1, known);
        assert forall|k: int| 0 <= k < next.len() implies {
            let target = resolved_target((#[trigger] next[k]).0, id, state);
            target is Ok && has_wanted_values(next[k].1, permissions_for(actual, target->Ok_0).known)
                && overwrite_target_fault(id, next[k].0, definition, state) is None
        } by {
            put_entry::<OverwriteTarget, Seq<(Seq<char>, OverwriteValue)>>(first, subject, values, k);
            if next[k] == (subject, values) {
                assert(resolved_target(after[0].0, id, state) is Ok);
            } else {
                let j = first.index_of(next[k]);
                assert(resolved_target(first[j].0, id, state) is Ok);
            }
        }
        assert forall|k: int| 0 <= k < rest.len() implies {
            let target = resolved_target((#[trigger] rest[k]).0, id, state);
            target is Ok && has_wanted_values(rest[k].1, permissions_for(actual, target->Ok_0).known)
                && overwrite_target_fault(id, rest[k].0, definition, state) is None
        } by {
            assert(rest[k] == after[k + 1]);
        }
        merged_overwrites_fit(id, next, rest, actual, definition, state);
    }
}

/// Whether a channel is one that Discord can have: its attributes have sizes that are
/// allowed, only a text channel has a parent, which is a category, and its overwrites
/// are for different roles and members and speak of known permissions.
pub open spec fn is_proper_channel(
    channel: ChannelSnapshotView,
    channels: Seq<ChannelSnapshotView>,
    guild_id: u64,
    known: Seq<(Seq<char>, ())>,
) -> bool {
    &&& 1 <= channel.name.len() <= 100
    &&& channel.topic is Some ==> channel.topic->0.len() <= 1024
    &&& channel.slowmode_seconds <= 21600
    &&& channel.default_thread_slowmode_seconds <= 21600
    &&& match channel.default_auto_archive_minutes {
        Some(minutes) => minutes == 60 || minutes == 1440 || minutes == 4320 || minutes == 10080,
        None => true,
    }
    &&& channel.kind == ChannelKind::Category ==> channel.parent_id is None
    &&& forall|k: int|
        0 <= k < channels.len() && Some((#[trigger] channels[k]).id) == channel.parent_id ==> channels[k].kind
            == ChannelKind::Category
    &&& targets_are_proper(channel.overwrites, guild_id)
    &&& sorted::<ChannelOverwriteTarget, ChannelOverwritePermissionsView>(channel.overwrites)
    &&& forall|j: int|
        0 <= j < channel.overwrites.len() ==> {
            let values = (#[trigger] channel.overwrites[j]).1.known;
            sorted::<KnownPermission, OverwriteValue>(values) && first_unknown(values, known) is None
        }
}

/// Whether channels are such as a guild can have: no two have one identifier, and each
/// that can be described is proper.
pub open spec fn are_proper_channels(
    channels: Seq<ChannelSnapshotView>,
    guild_id: u64,
    known: Seq<(Seq<char>, ())>,
) -> bool {
    &&& ids_differ(channels)
    &&& forall|k: int|
        0 <= k < channels.len() && is_describable(#[trigger] channels[k]) ==> is_proper_channel(
            channels[k],
            channels,
            guild_id,
            known,
        )
}

/// Whether a state is one that an earlier export or bind can have left.
pub open spec fn is_earlier_record(state: StateView, guild_id: u64) -> bool {
    &&& state.is_sound()
    &&& state.guild_id == guild_id
    &&& sorted::<RoleLogicalId, u64>(state.roles)
    &&& sorted::<ChannelLogicalId, u64>(state.channels)
    &&& sorted::<MemberLogicalId, u64>(state.members)
}

/// Whether each bound channel that the guild has can be described.
pub open spec fn bound_are_describable(mappings: MappingsView, channels: Seq<ChannelSnapshotView>) -> bool {
    forall|i: int, k: int|
        0 <= i < mappings.len() && 0 <= k < channels.len() && (#[trigger] mappings[i]).1 == (#[trigger] channels[k]).id
            ==> is_describable(channels[k])
}

/// An export of channels and what was exported.
struct ExportView {
    all: Seq<ChannelSnapshotView>,
    channels: Seq<ChannelSnapshotView>,
    named: NamedChannelsView,
    targets: TargetsView,
    described: DescribedView,
    earlier: StateView,
    definition: DefinitionView,
    state: StateView,
    known: Seq<(Seq<char>, ())>,
}

/// The attributes that a described channel has once it was read.
spec fn read_attributes(written: RawChannelDefinitionView) -> ChannelAttributesView {
    ChannelAttributesView::none().merged(written.attributes)
}

/// What written channels that describe the guild mean.
spec fn channel_meanings(described: DescribedView) -> Seq<(Seq<char>, ChannelDefinitionView)> {
    described.map_values(
        |entry: (Seq<char>, RawChannelDefinitionView)|
            (entry.0, ChannelDefinitionView::Managed { attributes: read_attributes(entry.1) }),
    )
}

proof fn channel_meanings_are_found(described: DescribedView, name: Seq<char>)
    ensures
        lookup(channel_meanings(described), name) == match lookup(described, name) {
            Some(written) => Some(ChannelDefinitionView::Managed { attributes: read_attributes(written) }),
            None => None,
        },
    decreases described.len(),
{
    if described.len() > 0 {
        channel_meanings_are_found(described.drop_first(), name);
        assert(channel_meanings(described).drop_first() =~= channel_meanings(described.drop_first()));
    }
}

impl ExportView {
    /// What holds of an export.
    spec fn holds(self) -> bool {
        &&& are_proper_channels(self.all, self.state.guild_id, self.known)
        &&& ids_differ(self.channels)
        &&& forall|k: int|
            0 <= k < self.channels.len() ==> self.all.contains(#[trigger] self.channels[k]) && is_describable(
                self.channels[k],
            )
        &&& is_earlier_record(self.earlier, self.state.guild_id)
        &&& names_hold(self.named, self.channels, self.channels.len() as int, self.earlier.channels)
        &&& targets_hold(self.targets, self.earlier)
        &&& bindings_hold(
            self.state.roles,
            self.targets.roles,
            self.targets.roles.len() as int,
            self.earlier.roles,
        )
        &&& bindings_hold(
            self.state.members,
            self.targets.members,
            self.targets.members.len() as int,
            self.earlier.members,
        )
        &&& self.state.channels == self.named.mappings
        &&& descriptions_hold(
            self.described,
            self.channels,
            self.channels.len() as int,
            self.named.names,
            self.targets,
        )
        &&& self.definition.roles == meanings(role_references(self.targets.roles))
        &&& self.definition.members == member_references(self.targets.members)
        &&& self.definition.channels == channel_meanings(self.described)
    }
}

proof fn made_up_roles_are_not_everyone(id: u64)
    ensures
        generated_name("role_"@, id) != everyone(),
{
    reveal_strlit("role_");
    reveal_strlit("everyone");
    assert(generated_name("role_"@, id)[0] == 'r');
    assert(everyone()[0] == 'e');
}

proof fn everyone_is_not_bound(export: ExportView)
    requires
        export.holds(),
    ensures
        lookup(export.state.roles, everyone()) is None,
{
    if lookup(export.state.roles, everyone()) is Some {
        let names = export.targets.roles;
        let j = choose|j: int|
            0 <= j < names.len() && (#[trigger] names[j]) == (lookup(export.state.roles, everyone())->0, everyone());
        lookup_in_sorted::<ChannelId, Seq<char>>(names, j);
        assert(lookup(names, names[j].0) is Some);
        made_up_roles_are_not_everyone(names[j].0);
    }
}

proof fn the_guild_is_not_bound(export: ExportView)
    requires
        export.holds(),
    ensures
        holder(export.state.roles, export.state.guild_id) is None,
{
    let guild_id = export.state.guild_id;
    if let Some(name) = holder(export.state.roles, guild_id) {
        a_holder_is_bound::<ChannelLogicalId>(export.state.roles, guild_id);
        if lookup(export.earlier.roles, name) is Some {
            assert(lookup(export.state.roles, name) == lookup(export.earlier.roles, name));
            a_bound_name_holds(export.earlier.roles, name, guild_id);
        } else {
            let names = export.targets.roles;
            let j = choose|j: int| 0 <= j < names.len() && (#[trigger] names[j]) == (guild_id, name);
            entry_is_found(names, j);
        }
    }
}

proof fn references_mean_references(names: NamesView, name: Seq<char>)
    ensures
        lookup(meanings(role_references(names)), name) is Some ==> lookup(meanings(role_references(names)), name) == Some(
            RoleDefinitionView::Reference,
        ),
        forall|j: int|
            0 <= j < names.len() && (#[trigger] names[j]).1 == name ==> lookup(meanings(role_references(names)), name)
                == Some(RoleDefinitionView::Reference),
{
    role_references_hold(names);
    meanings_are_found(role_references(names), name);
    assert forall|j: int| 0 <= j < names.len() && (#[trigger] names[j]).1 == name implies lookup(
        meanings(role_references(names)),
        name,
    ) == Some(RoleDefinitionView::Reference) by {
        assert(has_key(role_references(names), names[j].1));
        assert(lookup(role_references(names), name) is Some);
    }
}

proof fn described_target_fits(export: ExportView, id: Seq<char>, target: ChannelOverwriteTargetView)
    requires
        export.holds(),
        described_target(target, export.targets) is Ok,
    ensures
        ({
            let subject = described_target(target, export.targets)->Ok_0;
            &&& resolved_target(subject, id, export.state) == Ok::<ChannelOverwriteTargetView, ErrorView>(target)
            &&& overwrite_target_fault(id, subject, export.definition, export.state) is None
        }),
{
    match target {
        ChannelOverwriteTargetView::Everyone => {
            references_mean_references(export.targets.roles, everyone());
        },
        ChannelOverwriteTargetView::Role(role) => {
            let names = export.targets.roles;
            let name = lookup(names, role)->0;
            let j = lookup_has_entry(names, role);
            assert(lookup(export.state.roles, names[j].1) == Some(names[j].0));
            everyone_is_not_bound(export);
            references_mean_references(names, name);
        },
        ChannelOverwriteTargetView::Member(member) => {
            let names = export.targets.members;
            let j = lookup_has_entry(names, member);
            assert(lookup(export.state.members, names[j].1) == Some(names[j].0));
            member_references_hold(names);
            assert(has_key(member_references(names), names[j].1));
        },
    }
}

proof fn described_overwrites_fit(
    export: ExportView,
    id: Seq<char>,
    channel: ChannelSnapshotView,
    i: int,
    described: OverwritesView,
)
    requires
        export.holds(),
        is_proper_channel(channel, export.all, export.state.guild_id, export.known),
        0 <= i <= channel.overwrites.len(),
        overwrites_fit(id, described, channel.overwrites, export.definition, export.state),
        forall|k: int| 0 <= k < described.len() ==> first_unknown((#[trigger] described[k]).1, export.known) is None,
        described_overwrites(channel.overwrites, i, export.targets, described) is Ok,
    ensures
        ({
            let all = described_overwrites(channel.overwrites, i, export.targets, described)->Ok_0;
            &&& overwrites_fit(id, all, channel.overwrites, export.definition, export.state)
            &&& forall|k: int| 0 <= k < all.len() ==> first_unknown((#[trigger] all[k]).1, export.known) is None
        }),
    decreases channel.overwrites.len() - i,
{
    let actual = channel.overwrites;
    if i < actual.len() {
        let target = actual[i].0;
        let values = actual[i].1.known;
        let subject = described_target(target, export.targets)->Ok_0;
        let next = put::<OverwriteTarget, Seq<(Seq<char>, OverwriteValue)>>(described, subject, values);
        described_target_fits(export, id, target);
        lookup_in_sorted::<ChannelOverwriteTarget, ChannelOverwritePermissionsView>(actual, i);
        assert(sorted::<KnownPermission, OverwriteValue>(values));
        assert forall|k: int| 0 <= k < values.len() implies value_in(values, (#[trigger] values[k]).0) == values[k].1 by {
            lookup_in_sorted::<KnownPermission, OverwriteValue>(values, k);
        }
        assert forall|k: int| 0 <= k < next.len() implies {
            let resolved = resolved_target((#[trigger] next[k]).0, id, export.state);
            resolved is Ok && has_wanted_values(next[k].1, permissions_for(actual, resolved->Ok_0).known)
                && overwrite_target_fault(id, next[k].0, export.definition, export.state) is None && first_unknown(
                next[k].1,
                export.known,
            ) is None
        } by {
            put_entry::<OverwriteTarget, Seq<(Seq<char>, OverwriteValue)>>(described, subject, values, k);
            if next[k] != (subject, values) {
                let j = described.index_of(next[k]);
                assert(resolved_target(described[j].0, id, export.state) is Ok);
            }
        }
        described_overwrites_fit(export, id, channel, i + 1, next);
    }
}

proof fn known_overwrites(overwrites: OverwritesView, known: Seq<(Seq<char>, ())>)
    requires
        forall|k: int| 0 <= k < overwrites.len() ==> first_unknown((#[trigger] overwrites[k]).1, known) is None,
    ensures
        first_unknown_overwrite(overwrites, known) is None,
    decreases overwrites.len(),
{
    if overwrites.len() > 0 {
        let rest = overwrites.drop_first();
        assert forall|k: int| 0 <= k < rest.len() implies first_unknown((#[trigger] rest[k]).1, known) is None by {
            assert(rest[k] == overwrites[k + 1]);
        }
        known_overwrites(rest, known);
    }
}

proof fn described_channel_fits(export: ExportView, k: int, can_manage_roles: bool)
    requires
        export.holds(),
        0 <= k < export.channels.len(),
    ensures
        ({
            let name = lookup(export.named.names, export.channels[k].id)->0;
            let written = lookup(export.described, name)->0;
            let channel = ChannelDefinitionView::Managed { attributes: read_attributes(written) };
            &&& lookup(export.described, name) is Some
            &&& lookup(export.state.channels, name) == Some(export.channels[k].id)
            &&& written.attributes.breaks_nothing()
            &&& written.parsed(name, Seq::empty(), export.known) == Ok::<ChannelDefinitionView, ErrorView>(channel)
            &&& channel_fault(name, channel, export.definition, export.state) is None
            &&& channel_step(name, channel, export.definition, export.state, by_id(export.all), can_manage_roles)
                == Ok::<ChannelStepView, ErrorView>(ChannelStepView::Nothing)
        }),
{
    let channel = export.channels[k];
    let name = lookup(export.named.names, channel.id)->0;
    let written = lookup(export.described, name)->0;
    let attributes = read_attributes(written);
    let actual = by_id(export.all);
    let place = export.all.index_of(channel);
    assert(export.all.contains(export.channels[k]));
    assert(is_proper_channel(export.all[place], export.all, export.state.guild_id, export.known));
    by_id_finds(export.all, place);
    assert(lookup(export.named.names, channel.id) is Some);
    assert(lookup(export.described, name) is Some);
    described_overwrites_fit(export, name, channel, 0, Seq::empty());
    known_overwrites(written.attributes.overwrites, export.known);
    merged_overwrites_fit(
        name,
        Seq::empty(),
        written.attributes.overwrites,
        channel.overwrites,
        export.definition,
        export.state,
    );
    assert(attributes.kind == Some(channel.kind));
    assert(attributes.kind_fault(name) is None);
    assert(written.parsed(name, Seq::empty(), export.known) == Ok::<ChannelDefinitionView, ErrorView>(
        ChannelDefinitionView::Managed { attributes },
    ));
    let bad_target = |subject: OverwriteTargetView, permissions: Seq<(Seq<char>, OverwriteValue)>|
        overwrite_target_fault(name, subject, export.definition, export.state);
    first_in_none(attributes.overwrites, bad_target);
    if let Some(parent_id) = channel.parent_id {
        let parent = lookup(export.named.names, parent_id)->0;
        assert(lookup(export.named.names, parent_id) is Some);
        let j = choose|j: int| 0 <= j < export.channels.len() && (#[trigger] export.channels[j]).id == parent_id;
        assert(lookup(export.described, parent) is Some);
        channel_meanings_are_found(export.described, parent);
        assert(export.all.contains(export.channels[j]));
        let parent_place = export.all.index_of(export.channels[j]);
        assert(Some(export.all[parent_place].id) == channel.parent_id);
        by_id_finds(export.all, parent_place);
        assert(lookup(export.state.channels, parent) == Some(parent_id));
        assert(named_parent_fault(name, parent, export.definition, export.state, actual) is None);
    }
    assert(is_as_wanted(name, channel, attributes, export.definition, export.state, None));
    channels_as_wanted_do_not_change(
        name,
        channel,
        attributes,
        export.definition,
        export.state,
        can_manage_roles,
        None,
    );
}

proof fn readable_channels_are_read(
    described: DescribedView,
    known: Seq<(Seq<char>, ())>,
    parsed: Seq<(Seq<char>, ChannelDefinitionView)>,
)
    requires
        forall|i: int|
            0 <= i < described.len() ==> (#[trigger] described[i]).1.parsed(described[i].0, Seq::empty(), known) == Ok::<
                ChannelDefinitionView,
                ErrorView,
            >(ChannelDefinitionView::Managed { attributes: read_attributes(described[i].1) }),
    ensures
        parsed_channels(described, Seq::empty(), known, parsed) == Ok::<
            Seq<(Seq<char>, ChannelDefinitionView)>,
            ErrorView,
        >(parsed + channel_meanings(described)),
    decreases described.len(),
{
    if described.len() > 0 {
        let rest = described.drop_first();
        let first = (
            described[0].0,
            ChannelDefinitionView::Managed { attributes: read_attributes(described[0].1) },
        );
        assert(described[0].1.parsed(described[0].0, Seq::empty(), known) is Ok);
        assert forall|i: int| 0 <= i < rest.len() implies (#[trigger] rest[i]).1.parsed(
            rest[i].0,
            Seq::empty(),
            known,
        ) == Ok::<ChannelDefinitionView, ErrorView>(
            ChannelDefinitionView::Managed { attributes: read_attributes(rest[i].1) },
        ) by {
            assert(rest[i] == described[i + 1]);
        }
        readable_channels_are_read(rest, known, parsed.push(first));
        assert(parsed.push(first) + channel_meanings(rest) =~= parsed + channel_meanings(described));
    } else {
        assert(parsed + channel_meanings(described) =~= parsed);
    }
}

proof fn no_channel_is_lost(previous: MappingsView, i: int, channels: Seq<ChannelSnapshotView>)
    requires
        0 <= i <= previous.len(),
        lost_channel(previous, i, channels) is None,
    ensures
        forall|j: int| i <= j < previous.len() ==> is_listed(channels, (#[trigger] previous[j]).1),
    decreases previous.len() - i,
{
    if i < previous.len() {
        no_channel_is_lost(previous, i + 1, channels);
    }
}

proof fn nothing_is_planned(
    i: int,
    definition: DefinitionView,
    state: StateView,
    actual: ActualChannelsView,
    can_manage_roles: bool,
)
    requires
        0 <= i <= definition.channels.len(),
        forall|k: int|
            0 <= k < definition.channels.len() ==> channel_step(
                (#[trigger] definition.channels[k]).0,
                definition.channels[k].1,
                definition,
                state,
                actual,
                can_manage_roles,
            ) == Ok::<ChannelStepView, ErrorView>(ChannelStepView::Nothing),
    ensures
        with_declared(PlanView::none(), definition.channels, i, definition, state, actual, can_manage_roles) == Ok::<
            PlanView,
            ErrorView,
        >(PlanView::none()),
    decreases definition.channels.len() - i,
{
    if i < definition.channels.len() {
        assert(channel_step(
            definition.channels[i].0,
            definition.channels[i].1,
            definition,
            state,
            actual,
            can_manage_roles,
        ) is Ok);
        nothing_is_planned(i + 1, definition, state, actual, can_manage_roles);
    }
}

proof fn nothing_is_released(
    plan: PlanView,
    bound: MappingsView,
    i: int,
    declared: Seq<(Seq<char>, ChannelDefinitionView)>,
)
    requires
        0 <= i <= bound.len(),
        forall|k: int| 0 <= k < bound.len() ==> has_key(declared, (#[trigger] bound[k]).0),
    ensures
        with_released(plan, bound, i, declared) == plan,
    decreases bound.len() - i,
{
    if i < bound.len() {
        assert(has_key(declared, bound[i].0));
        nothing_is_released(plan, bound, i + 1, declared);
    }
}

proof fn bound_channels_are_described(export: ExportView, name: Seq<char>)
    requires
        export.holds(),
        lookup(export.state.channels, name) is Some,
        exists|k: int|
            0 <= k < export.channels.len() && Some((#[trigger] export.channels[k]).id) == lookup(
                export.state.channels,
                name,
            ),
    ensures
        lookup(export.described, name) is Some,
{
    let k = choose|k: int|
        0 <= k < export.channels.len() && Some((#[trigger] export.channels[k]).id) == lookup(
            export.state.channels,
            name,
        );
    let id = export.channels[k].id;
    let own = lookup(export.named.names, id)->0;
    assert(lookup(export.named.mappings, own) == Some(id));
    a_bound_name_holds(export.named.mappings, own, id);
    a_bound_name_holds(export.named.mappings, name, id);
}

/// The export of the channels of a guild.
spec fn export_of(
    catalog: ChannelCatalogView,
    guild_id: u64,
    previous: Option<StateView>,
    known: Seq<(Seq<char>, ())>,
) -> ExportView {
    let earlier = earlier_state(guild_id, previous);
    let channels = describable(catalog.channels);
    let named = named_channels(channels, earlier.channels)->Ok_0;
    let start = TargetsView { roles: inverted(earlier.roles), members: inverted(earlier.members) };
    let targets = with_all_targets(start, channels, 0, earlier)->Ok_0;
    let described = described_channels(channels, 0, named.names, targets, Seq::empty())->Ok_0;
    let (written, state) = exported_channels(catalog, guild_id, previous)->Ok_0;
    let definition = DefinitionView {
        settings_sets: written.settings_sets,
        roles: meanings(written.roles),
        channels: channel_meanings(described),
        members: written.members,
        message_sets: Seq::empty(),
        threads: Seq::empty(),
        order: None,
    };
    ExportView { all: catalog.channels, channels, named, targets, described, earlier, definition, state, known }
}

proof fn describable_are_proper(all: Seq<ChannelSnapshotView>, guild_id: u64, known: Seq<(Seq<char>, ())>)
    requires
        are_proper_channels(all, guild_id, known),
    ensures
        ids_differ(describable(all)),
        forall|k: int|
            0 <= k < describable(all).len() ==> all.contains(#[trigger] describable(all)[k]) && is_describable(
                describable(all)[k],
            ) && targets_are_proper(describable(all)[k].overwrites, guild_id),
{
    let channels = describable(all);
    describable_ids_differ(all);
    assert forall|k: int| 0 <= k < channels.len() implies all.contains(#[trigger] channels[k]) && is_describable(
        channels[k],
    ) && targets_are_proper(channels[k].overwrites, guild_id) by {
        describable_are_listed(all, k);
        let j = all.index_of(channels[k]);
        assert(is_proper_channel(all[j], all, guild_id, known));
    }
}

proof fn earlier_targets_hold(earlier: StateView)
    requires
        is_earlier_record(earlier, earlier.guild_id),
    ensures
        are_proper(earlier.roles),
        are_proper(earlier.members),
        targets_hold(
            TargetsView { roles: inverted(earlier.roles), members: inverted(earlier.members) },
            earlier,
        ),
{
    let guild_id = earlier.guild_id;
    names_order_alike::<RoleLogicalIdTag, ChannelLogicalIdTag>(earlier.roles);
    names_order_alike::<MemberLogicalIdTag, ChannelLogicalIdTag>(earlier.members);
    inverted_names("role_"@, earlier.roles);
    inverted_names("member_"@, earlier.members);
    if has_key(inverted(earlier.roles), guild_id) {
        let name = lookup(inverted(earlier.roles), guild_id)->0;
        assert(lookup(inverted(earlier.roles), guild_id) is Some);
        inverted_are_named(earlier.roles, earlier.roles.len() as int);
        assert(earlier.roles.take(earlier.roles.len() as int) =~= earlier.roles);
        a_bound_name_holds(earlier.roles, name, guild_id);
    }
}

proof fn target_bindings_hold(targets: TargetsView, earlier: StateView)
    requires
        are_proper(earlier.roles),
        are_proper(earlier.members),
        targets_hold(targets, earlier),
    ensures
        bindings_hold(
            with_bindings(earlier.roles, targets.roles),
            targets.roles,
            targets.roles.len() as int,
            earlier.roles,
        ),
        bindings_hold(
            with_bindings(earlier.members, targets.members),
            targets.members,
            targets.members.len() as int,
            earlier.members,
        ),
{
    assert(targets.roles.take(targets.roles.len() as int) =~= targets.roles);
    assert(targets.members.take(targets.members.len() as int) =~= targets.members);
    bound_names_hold(targets.roles, targets.roles.len() as int, "role_"@, earlier.roles);
    bound_names_hold(targets.members, targets.members.len() as int, "member_"@, earlier.members);
}

proof fn channel_descriptions_hold(
    channels: Seq<ChannelSnapshotView>,
    earlier: MappingsView,
    named: NamedChannelsView,
    targets: TargetsView,
)
    requires
        ids_differ(channels),
        are_proper(earlier),
        named_channels(channels, earlier) == Ok::<NamedChannelsView, ErrorView>(named),
        described_channels(channels, 0, named.names, targets, Seq::empty()) is Ok,
    ensures
        names_hold(named, channels, channels.len() as int, earlier),
        descriptions_hold(
            described_channels(channels, 0, named.names, targets, Seq::empty())->Ok_0,
            channels,
            channels.len() as int,
            named.names,
            targets,
        ),
{
    assert(channels.take(channels.len() as int) =~= channels);
    named_channels_hold(channels, channels.len() as int, earlier);
    described_channels_hold(channels, 0, named.names, named.mappings, targets, Seq::empty());
}

proof fn exports_hold(
    catalog: ChannelCatalogView,
    guild_id: u64,
    previous: Option<StateView>,
    known: Seq<(Seq<char>, ())>,
)
    requires
        are_proper_channels(catalog.channels, guild_id, known),
        previous is Some ==> is_earlier_record(previous->0, guild_id),
        exported_channels(catalog, guild_id, previous) is Ok,
    ensures
        export_of(catalog, guild_id, previous, known).holds(),
{
    let export = export_of(catalog, guild_id, previous, known);
    let earlier = export.earlier;
    let start = TargetsView { roles: inverted(earlier.roles), members: inverted(earlier.members) };
    assert(is_earlier_record(earlier, guild_id));
    describable_are_proper(catalog.channels, guild_id, known);
    earlier_targets_hold(earlier);
    all_targets_hold(start, export.channels, 0, earlier);
    target_bindings_hold(export.targets, earlier);
    channel_descriptions_hold(export.channels, earlier.channels, export.named, export.targets);
}

/// What each written channel of an export is owed: it can be read, and asks for nothing.
spec fn is_settled(export: ExportView, i: int, can_manage_roles: bool) -> bool {
    let name = export.described[i].0;
    let written = export.described[i].1;
    let channel = ChannelDefinitionView::Managed { attributes: read_attributes(written) };
    &&& written.attributes.breaks_nothing()
    &&& written.parsed(name, Seq::empty(), export.known) == Ok::<ChannelDefinitionView, ErrorView>(channel)
    &&& channel_fault(name, channel, export.definition, export.state) is None
    &&& channel_step(name, channel, export.definition, export.state, by_id(export.all), can_manage_roles) == Ok::<
        ChannelStepView,
        ErrorView,
    >(ChannelStepView::Nothing)
}

proof fn described_channels_are_settled(export: ExportView, i: int, can_manage_roles: bool)
    requires
        export.holds(),
        0 <= i < export.described.len(),
    ensures
        is_settled(export, i, can_manage_roles),
{
    let name = export.described[i].0;
    lookup_in_sorted::<ChannelLogicalId, RawChannelDefinitionView>(export.described, i);
    assert(lookup(export.described, name) is Some);
    let k = choose|k: int|
        0 <= k < export.channels.len() && lookup(export.named.names, (#[trigger] export.channels[k]).id) == Some(name);
    described_channel_fits(export, k, can_manage_roles);
}

proof fn channels_are_accepted(export: ExportView, can_manage_roles: bool)
    requires
        export.holds(),
    ensures
        forall|i: int|
            0 <= i < export.described.len() ==> (#[trigger] export.described[i]).1.attributes.breaks_nothing(),
        parsed_channels(export.described, Seq::empty(), export.known, Seq::empty()) == Ok::<
            Seq<(Seq<char>, ChannelDefinitionView)>,
            ErrorView,
        >(export.definition.channels),
        first_in(
            export.definition.channels,
            |id: Seq<char>, channel: ChannelDefinitionView|
                channel_fault(id, channel, export.definition, export.state),
        ) is None,
        with_declared(
            PlanView::none(),
            export.definition.channels,
            0,
            export.definition,
            export.state,
            by_id(export.all),
            can_manage_roles,
        ) == Ok::<PlanView, ErrorView>(PlanView::none()),
{
    let described = export.described;
    let declared = export.definition.channels;
    assert forall|i: int| 0 <= i < described.len() implies (#[trigger] described[i]).1.attributes.breaks_nothing()
        && described[i].1.parsed(described[i].0, Seq::empty(), export.known) == Ok::<
        ChannelDefinitionView,
        ErrorView,
    >(ChannelDefinitionView::Managed { attributes: read_attributes(described[i].1) }) by {
        described_channels_are_settled(export, i, can_manage_roles);
    }
    readable_channels_are_read(described, export.known, Seq::empty());
    assert(Seq::<(Seq<char>, ChannelDefinitionView)>::empty() + declared =~= declared);
    let bad_channel = |id: Seq<char>, channel: ChannelDefinitionView|
        channel_fault(id, channel, export.definition, export.state);
    assert forall|i: int| 0 <= i < declared.len() implies bad_channel((#[trigger] declared[i]).0, declared[i].1) is None
        && channel_step(
        declared[i].0,
        declared[i].1,
        export.definition,
        export.state,
        by_id(export.all),
        can_manage_roles,
    ) == Ok::<ChannelStepView, ErrorView>(ChannelStepView::Nothing) by {
        described_channels_are_settled(export, i, can_manage_roles);
    }
    first_in_none(declared, bad_channel);
    nothing_is_planned(0, export.definition, export.state, by_id(export.all), can_manage_roles);
}

proof fn roles_are_accepted(export: ExportView)
    requires
        export.holds(),
    ensures
        ({
            let written = role_references(export.targets.roles);
            &&& forall|i: int|
                0 <= i < written.len() ==> (#[trigger] written[i]).1.attributes.name_fault() is None
            &&& parsed_roles(written, Seq::empty(), export.known, Seq::empty()) == Ok::<
                Seq<(Seq<char>, RoleDefinitionView)>,
                ErrorView,
            >(export.definition.roles)
        }),
        first_in(
            export.definition.roles,
            |id: Seq<char>, role: RoleDefinitionView| role_reference_fault(id, role, export.state),
        ) is None,
{
    let names = export.targets.roles;
    let written = role_references(names);
    let declared = export.definition.roles;
    role_references_hold(names);
    assert forall|i: int| 0 <= i < written.len() implies (#[trigger] written[i]).1 == referenced_role() && has_key(
        export.state.roles,
        written[i].0,
    ) by {
        lookup_in_sorted::<RoleLogicalId, RawRoleDefinitionView>(written, i);
        let name = written[i].0;
        assert(lookup(written, name) is Some);
        let j = choose|j: int| 0 <= j < names.len() && (#[trigger] names[j]).1 == name;
        assert(lookup(export.state.roles, names[j].1) == Some(names[j].0));
    }
    assert forall|i: int| 0 <= i < written.len() implies is_readable((#[trigger] written[i]).1, export.known) by {
        assert(written[i].1 == referenced_role());
    }
    readable_roles_are_read(written, export.known, Seq::empty());
    assert(Seq::<(Seq<char>, RoleDefinitionView)>::empty() + declared =~= declared);
    let bad_role = |id: Seq<char>, role: RoleDefinitionView| role_reference_fault(id, role, export.state);
    assert forall|i: int| 0 <= i < declared.len() implies bad_role((#[trigger] declared[i]).0, declared[i].1) is None by {
        assert(written[i].1 == referenced_role());
    }
    first_in_none(declared, bad_role);
}

proof fn members_are_accepted(export: ExportView)
    requires
        export.holds(),
    ensures
        forall|i: int|
            0 <= i < export.definition.members.len() ==> (#[trigger] export.definition.members[i]).1
                == RoleMode::Reference,
        first_in(
            export.definition.members,
            |id: Seq<char>, mode: RoleMode| member_reference_fault(id, mode, export.state),
        ) is None,
{
    let names = export.targets.members;
    let declared = export.definition.members;
    member_references_hold(names);
    let bad_member = |id: Seq<char>, mode: RoleMode| member_reference_fault(id, mode, export.state);
    assert forall|i: int| 0 <= i < declared.len() implies (#[trigger] declared[i]).1 == RoleMode::Reference
        && bad_member(declared[i].0, declared[i].1) is None by {
        lookup_in_sorted::<MemberLogicalId, RoleMode>(declared, i);
        let name = declared[i].0;
        assert(lookup(declared, name) is Some);
        let j = choose|j: int| 0 <= j < names.len() && (#[trigger] names[j]).1 == name;
        assert(lookup(export.state.members, names[j].1) == Some(names[j].0));
    }
    first_in_none(declared, bad_member);
}

proof fn no_binding_is_released(export: ExportView)
    requires
        export.holds(),
        export.channels == describable(export.all),
        lost_channel(export.earlier.channels, 0, export.all) is None,
        bound_are_describable(export.earlier.channels, export.all),
    ensures
        with_released(PlanView::none(), export.state.channels, 0, export.definition.channels) == PlanView::none(),
{
    let all = export.all;
    let channels = export.channels;
    let earlier = export.earlier.channels;
    let bound = export.state.channels;
    no_channel_is_lost(earlier, 0, all);
    assert forall|k: int| 0 <= k < bound.len() implies has_key(export.definition.channels, (#[trigger] bound[k]).0) by {
        let (name, id) = bound[k];
        lookup_in_sorted::<ChannelLogicalId, u64>(bound, k);
        if lookup(earlier, name) is Some {
            let i = lookup_has_entry(earlier, name);
            assert(lookup(export.named.mappings, name) == lookup(earlier, name));
            assert(is_listed(all, earlier[i].1));
            let j = choose|j: int| 0 <= j < all.len() && (#[trigger] all[j]).id == id;
            assert(earlier[i].1 == all[j].id);
            listed_are_describable(all, j);
            let n = channels.index_of(all[j]);
            assert(Some(channels[n].id) == lookup(bound, name));
        } else {
            assert(lookup(export.named.mappings, name) is Some);
            let n = choose|n: int|
                0 <= n < channels.len() && (#[trigger] channels[n]).id == lookup(export.named.mappings, name)->0;
            assert(Some(channels[n].id) == lookup(bound, name));
        }
        bound_channels_are_described(export, name);
        channel_meanings_are_found(export.described, name);
    }
    nothing_is_released(PlanView::none(), bound, 0, export.definition.channels);
}

/// What was exported of the channels of a guild is accepted, is bound to the channels
/// it describes, and asks for no change of the guild as it is, whatever the bot may do.
/// Each channel that was bound before must be one that can be described: a binding of
/// another is kept, but nothing declares it.
pub proof fn exported_channels_need_no_change(
    catalog: ChannelCatalogView,
    guild_id: u64,
    previous: Option<StateView>,
    known: Seq<(Seq<char>, ())>,
    can_manage_roles: bool,
)
    requires
        are_proper_channels(catalog.channels, guild_id, known),
        previous is Some ==> is_earlier_record(previous->0, guild_id) && bound_are_describable(
            previous->0.channels,
            catalog.channels,
        ),
        exported_channels(catalog, guild_id, previous) is Ok,
    ensures
        ({
            let (definition, state) = exported_channels(catalog, guild_id, previous)->Ok_0;
            let input = plan_input(definition, state, guild_id, known);
            &&& input is Ok
            &&& input->Ok_0.1 == state
            &&& channel_plan(input->Ok_0.0, state, catalog, can_manage_roles) == Ok::<PlanView, ErrorView>(
                PlanView::none(),
            )
        }),
{
    let (written, state) = exported_channels(catalog, guild_id, previous)->Ok_0;
    let export = export_of(catalog, guild_id, previous, known);
    let definition = export.definition;
    exports_hold(catalog, guild_id, previous, known);
    channels_are_accepted(export, can_manage_roles);
    roles_are_accepted(export);
    members_are_accepted(export);
    nothing_is_said(written);
    assert(written.parsed(known) == Ok::<DefinitionView, ErrorView>(definition));
    everyone_is_not_bound(export);
    the_guild_is_not_bound(export);
    assert(state.is_sound());
    sound_states_are_accepted(state);
    assert(references_fault(definition, state) is None);
    no_binding_is_released(export);
}

/// Whether written overwrites are those of a channel: for each target, under a subject that
/// stands for it, the same permissions are allowed and denied.
pub open spec fn overwrites_are_written(
    written: OverwritesView,
    overwrites: ChannelOverwritesView,
    state: StateView,
) -> bool {
    forall|j: int|
        0 <= j < overwrites.len() ==> exists|subject: OverwriteTargetView| #[trigger]
            stands_for(subject, state) == Some((#[trigger] overwrites[j]).0) && lookup(written, subject) == Some(
                overwrites[j].1.known,
            )
}

/// Whether a written channel holds what a channel is: its kind, its name, its parent and
/// its overwrites, and what only a text channel has.
pub open spec fn is_written(written: RawChannelDefinitionView, channel: ChannelSnapshotView, state: StateView) -> bool {
    let attributes = written.attributes;
    let is_text = channel.kind == ChannelKind::Text;
    &&& written.mode == RoleMode::Managed && written.ensure is None && written.settings_sets.len() == 0
    &&& attributes.kind == Some(channel.kind)
    &&& attributes.name == Some(ChannelValue::Value(channel.name))
    &&& match channel.parent_id {
        Some(parent_id) => attributes.parent is Some && attributes.parent->0 is Value && lookup(
            state.channels,
            attributes.parent->0->Value_0,
        ) == Some(parent_id),
        None => attributes.parent == if is_text {
            Some(ChannelValue::<Seq<char>>::Clear)
        } else {
            None
        },
    }
    &&& attributes.topic == if is_text {
        match channel.topic {
            Some(topic) => Some(ChannelValue::Value(topic)),
            None => Some(ChannelValue::Clear),
        }
    } else {
        None
    }
    &&& attributes.nsfw == if is_text {
        Some(ChannelValue::Value(channel.nsfw))
    } else {
        None
    }
    &&& attributes.slowmode_seconds == if is_text {
        Some(ChannelValue::Value(channel.slowmode_seconds))
    } else {
        None
    }
    &&& attributes.default_auto_archive_minutes == if is_text && channel.default_auto_archive_minutes is Some {
        Some(ChannelValue::Value(channel.default_auto_archive_minutes->0))
    } else {
        None
    }
    &&& attributes.default_thread_slowmode_seconds == if is_text {
        Some(ChannelValue::Value(channel.default_thread_slowmode_seconds))
    } else {
        None
    }
    &&& attributes.permissions_sync is None
    &&& overwrites_are_written(attributes.overwrites, channel.overwrites, state)
}

proof fn described_overwrites_are_found(
    export: ExportView,
    overwrites: ChannelOverwritesView,
    i: int,
    described: OverwritesView,
    j: int,
)
    requires
        export.holds(),
        sorted::<ChannelOverwriteTarget, ChannelOverwritePermissionsView>(overwrites),
        0 <= i <= overwrites.len(),
        0 <= j < overwrites.len(),
        j < i ==> described_target(overwrites[j].0, export.targets) is Ok,
        described_overwrites(overwrites, i, export.targets, described) is Ok,
    ensures
        described_target(overwrites[j].0, export.targets) is Ok,
        ({
            let subject = described_target(overwrites[j].0, export.targets)->Ok_0;
            lookup(described_overwrites(overwrites, i, export.targets, described)->Ok_0, subject) == if j >= i {
                Some(overwrites[j].1.known)
            } else {
                lookup(described, subject)
            }
        }),
    decreases overwrites.len() - i,
{
    if i < overwrites.len() {
        let target = described_target(overwrites[i].0, export.targets)->Ok_0;
        let next = put::<OverwriteTarget, Seq<(Seq<char>, OverwriteValue)>>(described, target, overwrites[i].1.known);
        described_overwrites_are_found(export, overwrites, i + 1, next, j);
        let subject = described_target(overwrites[j].0, export.targets)->Ok_0;
        put_then_lookup::<OverwriteTarget, Seq<(Seq<char>, OverwriteValue)>>(
            described,
            target,
            overwrites[i].1.known,
            subject,
        );
        if i != j {
            described_target_fits(export, Seq::empty(), overwrites[i].0);
            described_target_fits(export, Seq::empty(), overwrites[j].0);
            if i < j {
                sorted_entries::<ChannelOverwriteTarget, ChannelOverwritePermissionsView>(overwrites, i, j);
            } else {
                sorted_entries::<ChannelOverwriteTarget, ChannelOverwritePermissionsView>(overwrites, j, i);
            }
            ChannelOverwriteTarget::order_is_total(overwrites[i].0, overwrites[j].0);
        }
    }
}

proof fn described_channels_are_written(export: ExportView, k: int)
    requires
        export.holds(),
        0 <= k < export.channels.len(),
    ensures
        ({
            let channel = export.channels[k];
            let name = lookup(export.named.names, channel.id)->0;
            &&& lookup(export.state.channels, name) == Some(channel.id)
            &&& lookup(export.described, name) is Some
            &&& is_written(lookup(export.described, name)->0, channel, export.state)
        }),
{
    let channel = export.channels[k];
    let state = export.state;
    let name = lookup(export.named.names, export.channels[k].id)->0;
    let written = lookup(export.described, name)->0;
    assert(described_channel(name, export.channels[k], export.named.names, export.targets) == Ok::<
        RawChannelDefinitionView,
        ErrorView,
    >(written));
    assert(export.all.contains(export.channels[k]));
    let n = export.all.index_of(channel);
    assert(is_describable(export.all[n]));
    assert(is_proper_channel(channel, export.all, state.guild_id, export.known));
    assert(overwrites_are_written(written.attributes.overwrites, channel.overwrites, state)) by {
        assert forall|j: int| 0 <= j < channel.overwrites.len() implies exists|subject: OverwriteTargetView| #[trigger]
            stands_for(subject, state) == Some((#[trigger] channel.overwrites[j]).0) && lookup(
                written.attributes.overwrites,
                subject,
            ) == Some(channel.overwrites[j].1.known) by {
            described_overwrites_are_found(export, channel.overwrites, 0, Seq::empty(), j);
            let subject = described_target(channel.overwrites[j].0, export.targets)->Ok_0;
            described_target_fits(export, name, channel.overwrites[j].0);
            assert(stands_for(subject, state) == Some(channel.overwrites[j].0));
        }
    }
    if channel.parent_id is Some {
        let parent = lookup(export.named.names, channel.parent_id->0);
        assert(parent is Some);
        let m = choose|m: int| 0 <= m < export.channels.len() && (#[trigger] export.channels[m]).id
            == channel.parent_id->0;
        assert(lookup(export.named.mappings, parent->0) == Some(export.channels[m].id));
    }
}

proof fn names_are_kept_or_made_up(export: ExportView, k: int)
    requires
        export.holds(),
        0 <= k < export.channels.len(),
    ensures
        ({
            let id = export.channels[k].id;
            let earlier = export.earlier.channels;
            let name = lookup(export.named.names, id)->0;
            &&& (forall|other: Seq<char>| #[trigger] lookup(earlier, other) != Some(id)) ==> name == "channel_"@
                + decimal(id as nat)
            &&& forall|other: Seq<char>| #[trigger] lookup(earlier, other) == Some(id) ==> other == name
        }),
{
    let id = export.channels[k].id;
    let earlier = export.earlier.channels;
    let name = lookup(export.named.names, export.channels[k].id)->0;
    assert(channel_name(id, earlier) == Ok::<Seq<char>, ErrorView>(name));
    assert forall|other: Seq<char>| #[trigger] lookup(earlier, other) == Some(id) implies other == name by {
        a_bound_name_holds(earlier, other, id);
    }
    if forall|other: Seq<char>| #[trigger] lookup(earlier, other) != Some(id) {
        if holder(earlier, id) is Some {
            a_holder_is_bound::<ChannelLogicalId>(earlier, id);
            assert(lookup(earlier, holder(earlier, id)->0) == Some(id));
        }
    }
}

proof fn declared_stand_for_channels(export: ExportView, declared: Seq<char>)
    requires
        export.holds(),
        has_key(export.described, declared),
    ensures
        stands_for_a_channel(declared, export.state, export.all),
{
    assert(lookup(export.described, declared) is Some);
    let m = choose|m: int| 0 <= m < export.channels.len() && lookup(
        export.named.names,
        (#[trigger] export.channels[m]).id,
    ) == Some(declared);
    assert(export.all.contains(export.channels[m]));
    let c = export.all.index_of(export.channels[m]);
    assert(export.all[c] == export.channels[m]);
    assert(is_describable(export.channels[m]));
}

/// Whether a channel of the guild is written down with all that it is, bound to it, under
/// the name it had or one that is made up for it.
pub open spec fn is_written_down(
    channel: ChannelSnapshotView,
    definitions: Seq<(Seq<char>, RawChannelDefinitionView)>,
    state: StateView,
    previous: MappingsView,
) -> bool {
    exists|name: Seq<char>| #[trigger]
        lookup(state.channels, name) == Some(channel.id) && lookup(definitions, name) is Some && is_written(
            lookup(definitions, name)->0,
            channel,
            state,
        ) && ((forall|earlier: Seq<char>| #[trigger] lookup(previous, earlier) != Some(channel.id)) ==> name
            == "channel_"@ + decimal(channel.id as nat)) && (forall|earlier: Seq<char>| #[trigger]
            lookup(previous, earlier) == Some(channel.id) ==> earlier == name)
}

/// Whether a declared name is bound to a channel of the guild that the bot can manage.
pub open spec fn stands_for_a_channel(
    declared: Seq<char>,
    state: StateView,
    channels: Seq<ChannelSnapshotView>,
) -> bool {
    exists|k: int|
        0 <= k < channels.len() && (#[trigger] channels[k]).manageable && lookup(state.channels, declared) == Some(
            channels[k].id,
        )
}

proof fn exports_write_down(export: ExportView, n: int)
    requires
        export.holds(),
        export.channels == describable(export.all),
        0 <= n < export.all.len(),
        is_describable(export.all[n]),
    ensures
        is_written_down(export.all[n], export.described, export.state, export.earlier.channels),
{
    let channel = export.all[n];
    listed_are_describable(export.all, n);
    let k = export.channels.index_of(channel);
    assert(export.channels[k] == channel);
    let name = lookup(export.named.names, channel.id)->0;
    described_channels_are_written(export, k);
    names_are_kept_or_made_up(export, k);
    assert(lookup(export.state.channels, name) == Some(channel.id));
}

proof fn bindings_are_kept(export: ExportView, name: Seq<char>)
    requires
        export.holds(),
        lookup(export.earlier.channels, name) is Some,
    ensures
        lookup(export.state.channels, name) == lookup(export.earlier.channels, name),
{
    assert(lookup(export.named.mappings, name) == lookup(export.earlier.channels, name));
}

/// What was exported of the channels of a guild holds all of it: each channel that can be
/// described with its kind, its name, its parent, its overwrites and what only a text
/// channel has, bound to it, under the name that it had before or one that is made up for
/// it. All that is declared stands for a channel, and what was bound stays bound.
pub proof fn exported_channels_hold_the_guild(
    catalog: ChannelCatalogView,
    guild_id: u64,
    previous: Option<StateView>,
    known: Seq<(Seq<char>, ())>,
    n: int,
    declared: Seq<char>,
)
    requires
        are_proper_channels(catalog.channels, guild_id, known),
        previous is Some ==> is_earlier_record(previous->0, guild_id),
        exported_channels(catalog, guild_id, previous) is Ok,
        0 <= n < catalog.channels.len(),
        catalog.channels[n].manageable && catalog.channels[n].kind != ChannelKind::Unsupported,
    ensures
        ({
            let (definition, state) = exported_channels(catalog, guild_id, previous)->Ok_0;
            let earlier = match previous {
                Some(state) => state.channels,
                None => Seq::empty(),
            };
            &&& is_written_down(catalog.channels[n], definition.channels, state, earlier)
            &&& has_key(definition.channels, declared) ==> stands_for_a_channel(declared, state, catalog.channels)
            &&& state.guild_id == guild_id
            &&& lookup(earlier, declared) is Some ==> lookup(state.channels, declared) == lookup(earlier, declared)
        }),
{
    let (definition, state) = exported_channels(catalog, guild_id, previous)->Ok_0;
    let export = export_of(catalog, guild_id, previous, known);
    let earlier = match previous {
        Some(state) => state.channels,
        None => Seq::empty(),
    };
    assert(earlier =~= export.earlier.channels);
    assert(definition.channels == export.described);
    assert(state == export.state);
    assert(is_written_down(catalog.channels[n], definition.channels, state, earlier)) by {
        exports_hold(catalog, guild_id, previous, known);
        exports_write_down(export, n);
    }
    if has_key(definition.channels, declared) {
        assert(stands_for_a_channel(declared, state, catalog.channels)) by {
            exports_hold(catalog, guild_id, previous, known);
            declared_stand_for_channels(export, declared);
        }
    }
    if lookup(earlier, declared) is Some {
        assert(lookup(state.channels, declared) == lookup(earlier, declared)) by {
            exports_hold(catalog, guild_id, previous, known);
            bindings_are_kept(export, declared);
        }
    }
}

} // verus!
