//! What holds of plans of channels as a whole.

use vstd::prelude::*;

use crate::configuration::channel::{
    given_value, valued_if_any, ChannelAttributesView, ChannelDefinitionView, OverwritesView, OverwriteValue,
};
use crate::configuration::definition::DefinitionView;
use crate::configuration::permission::KnownPermission;
use crate::configuration::state::{MappingsView, StateView};
use crate::domain::ErrorView;
use crate::ids::ChannelLogicalId;
use crate::ordered::{
    entry_is_found, has_key, lookup, lookup_has_entry, lookup_in_sorted, put, put_entry, put_keeps_sorted,
    put_then_lookup, sorted, sorted_entries, without_then_lookup, OrderedKey,
};
use crate::port::{
    ChannelCatalogView, ChannelOverwritePermissionsView, ChannelOverwritesView, ChannelOverwriteTarget,
    ChannelOverwriteTargetView, ChannelSnapshotView,
};
use crate::resource::change::ValueChange;
use crate::resource::channel::attributes::{
    attribute_changes, wanted_name, wanted_nsfw, wanted_parent, wanted_seconds, AttributeChangesView, ParentTargetView,
};
use crate::resource::channel::create::{created_channel, CreateDesiredView};
use crate::resource::channel::overwrites::{
    by_id, desired_values, overwrite_changes, permissions_for, resolved_target, value_changes, value_in, with_changes,
    with_definition, with_target, with_value, with_values, ActualChannelsView, OverwriteChangesView,
};
use crate::resource::channel::plan::{
    channel_plan, channel_step, with_declared, with_released, ChangeView, ChannelStepView, PlanView,
};

verus! {

/// Whether an overwrite gives each permission the value that is wanted.
pub open spec fn has_wanted_values(
    wanted: Seq<(Seq<char>, OverwriteValue)>,
    known: Seq<(Seq<char>, OverwriteValue)>,
) -> bool {
    forall|k: int| 0 <= k < wanted.len() ==> value_in(known, (#[trigger] wanted[k]).0) == wanted[k].1
}

/// Whether overwrites give each permission the value that is wanted.
pub open spec fn has_wanted_overwrites(
    id: Seq<char>,
    wanted: OverwritesView,
    actual: ChannelOverwritesView,
    state: StateView,
) -> bool {
    forall|k: int|
        0 <= k < wanted.len() ==> {
            let target = resolved_target((#[trigger] wanted[k]).0, id, state);
            target is Ok && has_wanted_values(wanted[k].1, permissions_for(actual, target->Ok_0).known)
        }
}

/// Whether a channel has every attribute that is wanted, as it is wanted. A parent that
/// is still to be created is not.
pub open spec fn is_as_wanted(
    id: Seq<char>,
    actual: ChannelSnapshotView,
    desired: ChannelAttributesView,
    definition: DefinitionView,
    state: StateView,
    synced: Option<ChannelOverwritesView>,
) -> bool {
    &&& match wanted_parent(desired.parent, id, definition, state) {
        Ok(Some(ParentTargetView::Resolved(parent_id))) => actual.parent_id == parent_id,
        Ok(None) => true,
        _ => false,
    }
    &&& match wanted_name(desired.name, id) {
        Ok(Some(name)) => actual.name == name,
        Ok(None) => true,
        Err(_) => false,
    }
    &&& match wanted_nsfw(desired.nsfw) {
        Ok(Some(nsfw)) => actual.nsfw == nsfw,
        Ok(None) => true,
        Err(_) => false,
    }
    &&& desired.topic is Some ==> actual.topic == valued_if_any(desired.topic->0, None)
    &&& desired.slowmode_seconds is Some ==> Some(actual.slowmode_seconds) == wanted_seconds(desired.slowmode_seconds)
    &&& desired.default_auto_archive_minutes is Some ==> actual.default_auto_archive_minutes == valued_if_any(
        desired.default_auto_archive_minutes->0,
        Some(1440),
    )
    &&& desired.default_thread_slowmode_seconds is Some ==> Some(actual.default_thread_slowmode_seconds)
        == wanted_seconds(desired.default_thread_slowmode_seconds)
    &&& match synced {
        Some(overwrites) => actual.overwrites == overwrites,
        None => has_wanted_overwrites(id, desired.overwrites, actual.overwrites, state),
    }
}

proof fn wanted_values_do_not_change(
    wanted: Seq<(Seq<char>, OverwriteValue)>,
    i: int,
    known: Seq<(Seq<char>, OverwriteValue)>,
    changes: Seq<(Seq<char>, ValueChange<OverwriteValue>)>,
)
    requires
        0 <= i <= wanted.len(),
        has_wanted_values(wanted, known),
    ensures
        value_changes(wanted, i, known, changes) == changes,
    decreases wanted.len() - i,
{
    if i < wanted.len() {
        assert(value_in(known, wanted[i].0) == wanted[i].1);
        wanted_values_do_not_change(wanted, i + 1, known, changes);
    }
}

proof fn wanted_overwrites_do_not_change(
    id: Seq<char>,
    wanted: OverwritesView,
    i: int,
    actual: ChannelOverwritesView,
    state: StateView,
    changes: OverwriteChangesView,
)
    requires
        0 <= i <= wanted.len(),
        has_wanted_overwrites(id, wanted, actual, state),
    ensures
        overwrite_changes(id, wanted, i, actual, state, changes) == Ok::<OverwriteChangesView, ErrorView>(changes),
    decreases wanted.len() - i,
{
    if i < wanted.len() {
        let target = resolved_target(wanted[i].0, id, state)->Ok_0;
        assert(has_wanted_values(wanted[i].1, permissions_for(actual, target).known));
        wanted_values_do_not_change(wanted[i].1, 0, permissions_for(actual, target).known, Seq::empty());
        wanted_overwrites_do_not_change(id, wanted, i + 1, actual, state, changes);
    }
}

/// A channel that is as it is wanted does not change, whatever the bot may do.
pub proof fn channels_as_wanted_do_not_change(
    id: Seq<char>,
    actual: ChannelSnapshotView,
    desired: ChannelAttributesView,
    definition: DefinitionView,
    state: StateView,
    can_manage_roles: bool,
    synced: Option<ChannelOverwritesView>,
)
    requires
        is_as_wanted(id, actual, desired, definition, state, synced),
    ensures
        attribute_changes(id, actual, desired, definition, state, can_manage_roles, synced) == Ok::<
            Option<AttributeChangesView>,
            ErrorView,
        >(None),
{
    if synced is None {
        wanted_overwrites_do_not_change(id, desired.overwrites, 0, actual.overwrites, state, Seq::empty());
    }
}

pub(crate) proof fn with_values_have(
    known: Seq<(Seq<char>, OverwriteValue)>,
    values: Seq<(Seq<char>, OverwriteValue)>,
    name: Seq<char>,
)
    requires
        sorted::<KnownPermission, OverwriteValue>(values),
    ensures
        value_in(with_values(known, values), name) == match lookup(values, name) {
            Some(value) => value,
            None => value_in(known, name),
        },
    decreases values.len(),
{
    if values.len() > 0 {
        let rest = values.drop_first();
        let first = values[0].0;
        let value = values[0].1;
        assert(sorted::<KnownPermission, OverwriteValue>(rest)) by {
            assert forall|i: int, j: int| 0 <= i < j < rest.len() implies KnownPermission::before(
                #[trigger] rest[i].0,
                #[trigger] rest[j].0,
            ) by {
                assert(rest[i] == values[i + 1] && rest[j] == values[j + 1]);
            }
        }
        with_values_have(with_value(known, first, value), rest, name);
        put_then_lookup::<KnownPermission, OverwriteValue>(known, first, value, name);
        without_then_lookup(known, first, name);
        if name == first && has_key(rest, name) {
            let k = lookup_has_entry(rest, name);
            assert(rest[k] == values[k + 1]);
            KnownPermission::order_is_total(values[0].0, values[k + 1].0);
        }
    }
}

pub(crate) proof fn with_target_has(
    overwrites: ChannelOverwritesView,
    target: ChannelOverwriteTargetView,
    values: Seq<(Seq<char>, OverwriteValue)>,
    other: ChannelOverwriteTargetView,
    name: Seq<char>,
)
    requires
        sorted::<KnownPermission, OverwriteValue>(values),
    ensures
        value_in(permissions_for(with_target(overwrites, target, values), other).known, name) == if other == target
            && has_key(values, name) {
            lookup(values, name)->0
        } else {
            value_in(permissions_for(overwrites, other).known, name)
        },
{
    let before = permissions_for(overwrites, target);
    let after = ChannelOverwritePermissionsView { known: with_values(before.known, values), ..before };
    with_values_have(before.known, values, name);
    put_then_lookup::<ChannelOverwriteTarget, ChannelOverwritePermissionsView>(overwrites, target, after, other);
    without_then_lookup(overwrites, target, other);
    if after.is_empty() {
        assert(after.known =~= Seq::empty());
    }
}

/// Whether changes of overwrites are in order, target by target.
pub open spec fn changes_are_sorted(changes: OverwriteChangesView) -> bool {
    &&& sorted::<ChannelOverwriteTarget, Seq<(Seq<char>, ValueChange<OverwriteValue>)>>(changes)
    &&& forall|k: int|
        0 <= k < changes.len() ==> sorted::<KnownPermission, ValueChange<OverwriteValue>>(
            (#[trigger] changes[k]).1,
        )
}

proof fn desired_values_are_found(changes: Seq<(Seq<char>, ValueChange<OverwriteValue>)>, name: Seq<char>)
    ensures
        lookup(desired_values(changes), name) == match lookup(changes, name) {
            Some(change) => Some(change.desired),
            None => None,
        },
    decreases changes.len(),
{
    if changes.len() > 0 {
        assert(desired_values(changes).drop_first() =~= desired_values(changes.drop_first()));
        desired_values_are_found(changes.drop_first(), name);
    }
}

pub(crate) proof fn with_changes_has(
    overwrites: ChannelOverwritesView,
    changes: OverwriteChangesView,
    i: int,
    other: ChannelOverwriteTargetView,
    name: Seq<char>,
)
    requires
        0 <= i <= changes.len(),
        changes_are_sorted(changes),
    ensures
        value_in(permissions_for(with_changes(overwrites, changes, i), other).known, name) == match lookup(
            changes.skip(i),
            other,
        ) {
            Some(of_target) => match lookup(of_target, name) {
                Some(change) => change.desired,
                None => value_in(permissions_for(overwrites, other).known, name),
            },
            None => value_in(permissions_for(overwrites, other).known, name),
        },
    decreases changes.len() - i,
{
    if i < changes.len() {
        let target = changes[i].0;
        let of_target = changes[i].1;
        let values = desired_values(of_target);
        assert(sorted::<KnownPermission, OverwriteValue>(values)) by {
            assert(sorted::<KnownPermission, ValueChange<OverwriteValue>>(of_target));
            assert forall|a: int, b: int| 0 <= a < b < values.len() implies KnownPermission::before(
                #[trigger] values[a].0,
                #[trigger] values[b].0,
            ) by {
                assert(values[a].0 == of_target[a].0 && values[b].0 == of_target[b].0);
            }
        }
        with_target_has(overwrites, target, values, other, name);
        desired_values_are_found(of_target, name);
        with_changes_has(with_target(overwrites, target, values), changes, i + 1, other, name);
        assert(changes.skip(i)[0] == changes[i]);
        assert(changes.skip(i).drop_first() =~= changes.skip(i + 1));
        if other == target && has_key(changes.skip(i + 1), other) {
            let k = lookup_has_entry(changes.skip(i + 1), other);
            assert(changes.skip(i + 1)[k] == changes[i + 1 + k]);
            ChannelOverwriteTarget::order_is_total(changes[i].0, changes[i + 1 + k].0);
        }
    }
}

pub(crate) proof fn value_changes_lead_to_wanted(
    wanted: Seq<(Seq<char>, OverwriteValue)>,
    i: int,
    known: Seq<(Seq<char>, OverwriteValue)>,
    changes: Seq<(Seq<char>, ValueChange<OverwriteValue>)>,
    name: Seq<char>,
)
    requires
        0 <= i <= wanted.len(),
        sorted::<KnownPermission, OverwriteValue>(wanted),
        sorted::<KnownPermission, ValueChange<OverwriteValue>>(changes),
    ensures
        ({
            let all = value_changes(wanted, i, known, changes);
            &&& sorted::<KnownPermission, ValueChange<OverwriteValue>>(all)
            &&& match lookup(wanted.skip(i), name) {
                Some(value) => if value_in(known, name) == value {
                    lookup(all, name) == lookup(changes, name)
                } else {
                    lookup(all, name) is Some && lookup(all, name)->0.desired == value
                },
                None => lookup(all, name) == lookup(changes, name),
            }
        }),
    decreases wanted.len() - i,
{
    if i < wanted.len() {
        let first = wanted[i].0;
        let change = ValueChange { current: value_in(known, first), desired: wanted[i].1 };
        let next = if value_in(known, first) == wanted[i].1 {
            changes
        } else {
            put::<KnownPermission, ValueChange<OverwriteValue>>(changes, first, change)
        };
        put_keeps_sorted::<KnownPermission, ValueChange<OverwriteValue>>(changes, first, change);
        put_then_lookup::<KnownPermission, ValueChange<OverwriteValue>>(changes, first, change, name);
        value_changes_lead_to_wanted(wanted, i + 1, known, next, name);
        assert(wanted.skip(i)[0] == wanted[i]);
        assert(wanted.skip(i).drop_first() =~= wanted.skip(i + 1));
        if name == first && has_key(wanted.skip(i + 1), name) {
            let k = lookup_has_entry(wanted.skip(i + 1), name);
            assert(wanted.skip(i + 1)[k] == wanted[i + 1 + k]);
            KnownPermission::order_is_total(wanted[i].0, wanted[i + 1 + k].0);
        }
    }
}

/// Whether no two overwrites that are wanted are for one target, and the values of each
/// are in order.
pub open spec fn targets_differ(id: Seq<char>, wanted: OverwritesView, state: StateView) -> bool {
    &&& forall|i: int, j: int|
        0 <= i < j < wanted.len() ==> resolved_target((#[trigger] wanted[i]).0, id, state) != resolved_target(
            (#[trigger] wanted[j]).0,
            id,
            state,
        )
    &&& forall|k: int|
        0 <= k < wanted.len() ==> sorted::<KnownPermission, OverwriteValue>((#[trigger] wanted[k]).1)
}

/// The changes of one target that an overwrite asks for.
pub open spec fn target_changes(
    id: Seq<char>,
    wanted: OverwritesView,
    k: int,
    actual: ChannelOverwritesView,
    state: StateView,
) -> Seq<(Seq<char>, ValueChange<OverwriteValue>)> {
    let target = resolved_target(wanted[k].0, id, state)->Ok_0;
    value_changes(wanted[k].1, 0, permissions_for(actual, target).known, Seq::empty())
}

pub(crate) proof fn overwrite_changes_hold(
    id: Seq<char>,
    wanted: OverwritesView,
    i: int,
    actual: ChannelOverwritesView,
    state: StateView,
    changes: OverwriteChangesView,
    k: int,
)
    requires
        0 <= i <= wanted.len(),
        targets_differ(id, wanted, state),
        changes_are_sorted(changes),
        overwrite_changes(id, wanted, i, actual, state, changes) is Ok,
        0 <= k < wanted.len(),
        k < i ==> resolved_target(wanted[k].0, id, state) is Ok,
    ensures
        ({
            let all = overwrite_changes(id, wanted, i, actual, state, changes)->Ok_0;
            let target = resolved_target(wanted[k].0, id, state);
            &&& changes_are_sorted(all)
            &&& target is Ok
            &&& lookup(all, target->Ok_0) == if k < i || target_changes(id, wanted, k, actual, state).len() == 0 {
                lookup(changes, target->Ok_0)
            } else {
                Some(target_changes(id, wanted, k, actual, state))
            }
        }),
    decreases wanted.len() - i,
{
    if i < wanted.len() {
        let target = resolved_target(wanted[i].0, id, state)->Ok_0;
        let of_target = target_changes(id, wanted, i, actual, state);
        let known = permissions_for(actual, target).known;
        assert(sorted::<KnownPermission, OverwriteValue>(wanted[i].1));
        value_changes_lead_to_wanted(wanted[i].1, 0, known, Seq::empty(), Seq::empty());
        let next = if of_target.len() == 0 {
            changes
        } else {
            put::<ChannelOverwriteTarget, Seq<(Seq<char>, ValueChange<OverwriteValue>)>>(changes, target, of_target)
        };
        put_keeps_sorted::<ChannelOverwriteTarget, Seq<(Seq<char>, ValueChange<OverwriteValue>)>>(
            changes,
            target,
            of_target,
        );
        assert forall|j: int| 0 <= j < next.len() implies sorted::<KnownPermission, ValueChange<OverwriteValue>>(
            (#[trigger] next[j]).1,
        ) by {
            if of_target.len() > 0 {
                put_entry::<ChannelOverwriteTarget, Seq<(Seq<char>, ValueChange<OverwriteValue>)>>(
                    changes,
                    target,
                    of_target,
                    j,
                );
                if next[j] != (target, of_target) {
                    let m = changes.index_of(next[j]);
                    assert(changes[m] == next[j]);
                }
            }
        }
        overwrite_changes_hold(id, wanted, i + 1, actual, state, next, k);
        let asked = resolved_target(wanted[k].0, id, state)->Ok_0;
        put_then_lookup::<ChannelOverwriteTarget, Seq<(Seq<char>, ValueChange<OverwriteValue>)>>(
            changes,
            target,
            of_target,
            asked,
        );
        if k < i {
            assert(resolved_target(wanted[k].0, id, state) != resolved_target(wanted[i].0, id, state));
        } else if i < k {
            assert(resolved_target(wanted[i].0, id, state) != resolved_target(wanted[k].0, id, state));
        }
    }
}

proof fn planned_overwrites_settle(
    id: Seq<char>,
    wanted: OverwritesView,
    actual: ChannelOverwritesView,
    state: StateView,
)
    requires
        targets_differ(id, wanted, state),
        overwrite_changes(id, wanted, 0, actual, state, Seq::empty()) is Ok,
    ensures
        ({
            let changes = overwrite_changes(id, wanted, 0, actual, state, Seq::empty())->Ok_0;
            has_wanted_overwrites(id, wanted, with_changes(actual, changes, 0), state)
        }),
{
    let changes = overwrite_changes(id, wanted, 0, actual, state, Seq::empty())->Ok_0;
    let updated = with_changes(actual, changes, 0);
    assert forall|k: int| 0 <= k < wanted.len() implies {
        let target = resolved_target((#[trigger] wanted[k]).0, id, state);
        target is Ok && has_wanted_values(wanted[k].1, permissions_for(updated, target->Ok_0).known)
    } by {
        overwrite_changes_hold(id, wanted, 0, actual, state, Seq::empty(), k);
        let target = resolved_target(wanted[k].0, id, state)->Ok_0;
        let known = permissions_for(actual, target).known;
        let of_target = target_changes(id, wanted, k, actual, state);
        let values = wanted[k].1;
        assert(changes.skip(0) =~= changes);
        assert(values.skip(0) =~= values);
        assert(sorted::<KnownPermission, OverwriteValue>(values));
        assert forall|j: int| 0 <= j < values.len() implies value_in(
            permissions_for(updated, target).known,
            (#[trigger] values[j]).0,
        ) == values[j].1 by {
            let name = values[j].0;
            lookup_in_sorted::<KnownPermission, OverwriteValue>(values, j);
            value_changes_lead_to_wanted(values, 0, known, Seq::empty(), name);
            with_changes_has(actual, changes, 0, target, name);
            if of_target.len() == 0 {
                assert(lookup(of_target, name) is None);
            }
        }
    }
}

/// A channel that was changed as planned is as it is wanted: the next plan does not
/// change it again. A parent that is still to be created is settled only once it exists.
pub proof fn planned_updates_settle_channels(
    id: Seq<char>,
    actual: ChannelSnapshotView,
    desired: ChannelAttributesView,
    definition: DefinitionView,
    state: StateView,
    can_manage_roles: bool,
    synced: Option<ChannelOverwritesView>,
    may_later: bool,
)
    requires
        targets_differ(id, desired.overwrites, state),
        attribute_changes(id, actual, desired, definition, state, can_manage_roles, synced) is Ok,
        attribute_changes(id, actual, desired, definition, state, can_manage_roles, synced)->Ok_0 is Some,
        attribute_changes(
            id,
            actual,
            desired,
            definition,
            state,
            can_manage_roles,
            synced,
        )->Ok_0->0.planned_parent is None,
    ensures
        ({
            let changes = attribute_changes(
                id,
                actual,
                desired,
                definition,
                state,
                can_manage_roles,
                synced,
            )->Ok_0->0;
            let update = changes.update(actual, state);
            &&& update is Ok
            &&& is_as_wanted(id, update->Ok_0.applied_to(actual), desired, definition, state, synced)
            &&& attribute_changes(
                id,
                update->Ok_0.applied_to(actual),
                desired,
                definition,
                state,
                may_later,
                synced,
            ) == Ok::<Option<AttributeChangesView>, ErrorView>(None)
        }),
{
    let changes = attribute_changes(id, actual, desired, definition, state, can_manage_roles, synced)->Ok_0->0;
    let updated = changes.update(actual, state)->Ok_0.applied_to(actual);
    if synced is None {
        planned_overwrites_settle(id, desired.overwrites, actual.overwrites, state);
        if changes.overwrites.len() == 0 {
            assert(changes.overwrites =~= Seq::empty());
            assert(with_changes(actual.overwrites, changes.overwrites, 0) == actual.overwrites);
        }
    }
    assert(is_as_wanted(id, updated, desired, definition, state, synced));
    channels_as_wanted_do_not_change(id, updated, desired, definition, state, may_later, synced);
}

proof fn defined_overwrites_keep(
    id: Seq<char>,
    wanted: OverwritesView,
    i: int,
    state: StateView,
    overwrites: ChannelOverwritesView,
    k: int,
    name: Seq<char>,
)
    requires
        0 <= i <= wanted.len(),
        0 <= k < wanted.len(),
        targets_differ(id, wanted, state),
        with_definition(id, wanted, i, state, overwrites) is Ok,
        resolved_target(wanted[k].0, id, state) is Ok,
    ensures
        ({
            let target = resolved_target(wanted[k].0, id, state)->Ok_0;
            let all = with_definition(id, wanted, i, state, overwrites)->Ok_0;
            value_in(permissions_for(all, target).known, name) == if k >= i && has_key(wanted[k].1, name) {
                lookup(wanted[k].1, name)->0
            } else {
                value_in(permissions_for(overwrites, target).known, name)
            }
        }),
    decreases wanted.len() - i,
{
    if i < wanted.len() {
        let target = resolved_target(wanted[i].0, id, state)->Ok_0;
        let asked = resolved_target(wanted[k].0, id, state)->Ok_0;
        assert(sorted::<KnownPermission, OverwriteValue>(wanted[i].1));
        with_target_has(overwrites, target, wanted[i].1, asked, name);
        defined_overwrites_keep(
            id,
            wanted,
            i + 1,
            state,
            with_target(overwrites, target, wanted[i].1),
            k,
            name,
        );
        if k < i {
            assert(resolved_target(wanted[k].0, id, state) != resolved_target(wanted[i].0, id, state));
        } else if i < k {
            assert(resolved_target(wanted[i].0, id, state) != resolved_target(wanted[k].0, id, state));
        }
    }
}

proof fn defined_targets_are_known(
    id: Seq<char>,
    wanted: OverwritesView,
    i: int,
    state: StateView,
    overwrites: ChannelOverwritesView,
    k: int,
)
    requires
        0 <= i <= k < wanted.len(),
        with_definition(id, wanted, i, state, overwrites) is Ok,
    ensures
        resolved_target(wanted[k].0, id, state) is Ok,
    decreases wanted.len() - i,
{
    if i < k {
        let target = resolved_target(wanted[i].0, id, state)->Ok_0;
        defined_targets_are_known(id, wanted, i + 1, state, with_target(overwrites, target, wanted[i].1), k);
    }
}

/// A channel that was created as planned is as it is wanted: the next plan does not
/// change it. Its parent, if it has one, must exist, and it must not take over the
/// overwrites of that parent.
pub proof fn planned_creations_settle_channels(
    id: Seq<char>,
    desired: ChannelAttributesView,
    definition: DefinitionView,
    state: StateView,
    actual: ActualChannelsView,
    created: ChannelSnapshotView,
    can_manage_roles: bool,
)
    requires
        targets_differ(id, desired.overwrites, state),
        desired.permissions_sync != Some(true),
        given_value(desired.parent) is Some ==> has_key(state.channels, given_value(desired.parent)->0),
        created_channel(id, desired, definition, state, actual) is Ok,
        ({
            let payload = created_channel(id, desired, definition, state, actual)->Ok_0;
            &&& created.name == payload.name
            &&& created.parent_id == payload.parent_id
            &&& created.topic == payload.topic
            &&& created.nsfw == payload.nsfw
            &&& created.slowmode_seconds == payload.slowmode_seconds
            &&& created.default_auto_archive_minutes == payload.default_auto_archive_minutes
            &&& created.default_thread_slowmode_seconds == payload.default_thread_slowmode_seconds
            &&& created.overwrites == payload.overwrites
        }),
    ensures
        is_as_wanted(id, created, desired, definition, state, None),
        attribute_changes(id, created, desired, definition, state, can_manage_roles, None) == Ok::<
            Option<AttributeChangesView>,
            ErrorView,
        >(None),
{
    let wanted = desired.overwrites;
    assert forall|k: int| 0 <= k < wanted.len() implies {
        let target = resolved_target((#[trigger] wanted[k]).0, id, state);
        target is Ok && has_wanted_values(wanted[k].1, permissions_for(created.overwrites, target->Ok_0).known)
    } by {
        defined_targets_are_known(id, wanted, 0, state, Seq::empty(), k);
        let target = resolved_target(wanted[k].0, id, state)->Ok_0;
        let values = wanted[k].1;
        assert(sorted::<KnownPermission, OverwriteValue>(values));
        assert forall|j: int| 0 <= j < values.len() implies value_in(
            permissions_for(created.overwrites, target).known,
            (#[trigger] values[j]).0,
        ) == values[j].1 by {
            lookup_in_sorted::<KnownPermission, OverwriteValue>(values, j);
            defined_overwrites_keep(id, wanted, 0, state, Seq::empty(), k, values[j].0);
        }
    }
    channels_as_wanted_do_not_change(id, created, desired, definition, state, can_manage_roles, None);
}

/// Whether changes of attributes touch overwrites.
pub open spec fn changes_touch_overwrites(changes: AttributeChangesView) -> bool {
    changes.overwrites.len() > 0 || changes.synced_overwrites is Some
}

/// Whether what shall be done with a channel touches overwrites.
pub open spec fn step_touches_overwrites(step: ChannelStepView) -> bool {
    match step {
        ChannelStepView::Nothing => false,
        ChannelStepView::Create(desired) => desired.payload.overwrites.len() > 0,
        ChannelStepView::Do(ChangeView::Update { attributes, .. }) => changes_touch_overwrites(attributes),
        ChannelStepView::Do(_) => false,
    }
}

/// Whether a plan touches the overwrites of a channel.
pub open spec fn touches_overwrites_of(plan: PlanView, id: Seq<char>) -> bool {
    ||| match lookup(plan.changes, id) {
        Some(ChangeView::Update { attributes, .. }) => changes_touch_overwrites(attributes),
        _ => false,
    }
    ||| match lookup(plan.create_desired, id) {
        Some(desired) => desired.payload.overwrites.len() > 0,
        None => false,
    }
}

/// Whether a plan touches overwrites.
pub open spec fn touches_overwrites(plan: PlanView) -> bool {
    exists|id: Seq<char>| #[trigger] touches_overwrites_of(plan, id)
}

/// Whether a plan is refused because the bot may not manage roles.
pub open spec fn is_denied<W>(result: Result<W, ErrorView>) -> bool {
    result is Err && result->Err_0 is ChannelPermissionDenied
}

proof fn steps_need_the_right(
    id: Seq<char>,
    channel: ChannelDefinitionView,
    definition: DefinitionView,
    state: StateView,
    actual: ActualChannelsView,
)
    ensures
        ({
            let with_right = channel_step(id, channel, definition, state, actual, true);
            let without_right = channel_step(id, channel, definition, state, actual, false);
            if with_right is Ok && step_touches_overwrites(with_right->Ok_0) {
                is_denied(without_right)
            } else {
                without_right == with_right
            }
        }),
{
}

proof fn declared_need_the_right(
    plan: PlanView,
    channels: Seq<(Seq<char>, ChannelDefinitionView)>,
    i: int,
    definition: DefinitionView,
    state: StateView,
    actual: ActualChannelsView,
)
    requires
        0 <= i <= channels.len(),
        sorted::<ChannelLogicalId, ChannelDefinitionView>(channels),
        forall|k: int|
            i <= k < channels.len() ==> !has_key(plan.changes, (#[trigger] channels[k]).0) && !has_key(
                plan.create_desired,
                channels[k].0,
            ),
    ensures
        ({
            let with_right = with_declared(plan, channels, i, definition, state, actual, true);
            let without_right = with_declared(plan, channels, i, definition, state, actual, false);
            &&& without_right == with_right || is_denied(without_right)
            &&& with_right is Ok ==> {
                let planned = with_right->Ok_0;
                &&& forall|id: Seq<char>|
                    touches_overwrites_of(plan, id) ==> #[trigger] touches_overwrites_of(planned, id)
                &&& without_right == with_right ==> forall|id: Seq<char>|
                    #[trigger] touches_overwrites_of(planned, id) ==> touches_overwrites_of(plan, id)
                &&& is_denied(without_right) ==> touches_overwrites(planned)
            }
        }),
    decreases channels.len() - i,
{
    if i < channels.len() {
        let (id, channel) = channels[i];
        let step = channel_step(id, channel, definition, state, actual, true);
        steps_need_the_right(id, channel, definition, state, actual);
        if step is Ok {
            let next = plan.after(id, step->Ok_0);
            assert forall|asked: Seq<char>| asked != id implies #[trigger] lookup(next.changes, asked) == lookup(
                plan.changes,
                asked,
            ) && lookup(next.create_desired, asked) == lookup(plan.create_desired, asked) by {
                match step->Ok_0 {
                    ChannelStepView::Nothing => {},
                    ChannelStepView::Create(desired) => {
                        put_then_lookup::<ChannelLogicalId, ChangeView>(plan.changes, id, ChangeView::Create, asked);
                        put_then_lookup::<ChannelLogicalId, CreateDesiredView>(
                            plan.create_desired,
                            id,
                            desired,
                            asked,
                        );
                    },
                    ChannelStepView::Do(change) => {
                        put_then_lookup::<ChannelLogicalId, ChangeView>(plan.changes, id, change, asked);
                    },
                }
            }
            match step->Ok_0 {
                ChannelStepView::Nothing => {},
                ChannelStepView::Create(desired) => {
                    put_then_lookup::<ChannelLogicalId, ChangeView>(plan.changes, id, ChangeView::Create, id);
                    put_then_lookup::<ChannelLogicalId, CreateDesiredView>(plan.create_desired, id, desired, id);
                },
                ChannelStepView::Do(change) => {
                    put_then_lookup::<ChannelLogicalId, ChangeView>(plan.changes, id, change, id);
                },
            }
            assert(!has_key(plan.changes, id) && !has_key(plan.create_desired, id));
            assert(!touches_overwrites_of(plan, id));
            assert(touches_overwrites_of(next, id) == step_touches_overwrites(step->Ok_0));
            assert forall|k: int| i + 1 <= k < channels.len() implies !has_key(next.changes, (#[trigger] channels[k]).0)
                && !has_key(next.create_desired, channels[k].0) by {
                sorted_entries::<ChannelLogicalId, ChannelDefinitionView>(channels, i, k);
                ChannelLogicalId::order_is_total(channels[i].0, channels[k].0);
                assert(!has_key(plan.changes, channels[k].0));
                assert(lookup(next.changes, channels[k].0) == lookup(plan.changes, channels[k].0));
            }
            declared_need_the_right(next, channels, i + 1, definition, state, actual);
            let with_right = with_declared(plan, channels, i, definition, state, actual, true);
            let without_right = with_declared(plan, channels, i, definition, state, actual, false);
            if with_right is Ok {
                let planned = with_right->Ok_0;
                assert forall|asked: Seq<char>| touches_overwrites_of(plan, asked) implies
                    #[trigger] touches_overwrites_of(planned, asked) by {
                    assert(asked != id);
                    assert(lookup(next.changes, asked) == lookup(plan.changes, asked));
                    assert(touches_overwrites_of(next, asked));
                }
                if without_right == with_right {
                    assert(!step_touches_overwrites(step->Ok_0));
                    assert forall|asked: Seq<char>| #[trigger] touches_overwrites_of(planned, asked) implies
                        touches_overwrites_of(plan, asked) by {
                        assert(touches_overwrites_of(next, asked));
                        assert(asked != id);
                        assert(lookup(next.changes, asked) == lookup(plan.changes, asked));
                    }
                }
                if step_touches_overwrites(step->Ok_0) {
                    assert(touches_overwrites_of(planned, id));
                }
            }
        }
    }
}

proof fn releases_touch_no_overwrites(
    plan: PlanView,
    bound: MappingsView,
    i: int,
    declared: Seq<(Seq<char>, ChannelDefinitionView)>,
    id: Seq<char>,
)
    requires
        0 <= i <= bound.len(),
        !has_key(declared, id) ==> !touches_overwrites_of(plan, id),
    ensures
        touches_overwrites_of(with_released(plan, bound, i, declared), id) == touches_overwrites_of(plan, id),
    decreases bound.len() - i,
{
    if i < bound.len() {
        if has_key(declared, bound[i].0) {
            releases_touch_no_overwrites(plan, bound, i + 1, declared, id);
        } else {
            let release = ChangeView::Release { discord_id: bound[i].1 };
            put_then_lookup::<ChannelLogicalId, ChangeView>(plan.changes, bound[i].0, release, id);
            releases_touch_no_overwrites(plan.with(bound[i].0, release), bound, i + 1, declared, id);
        }
    }
}

/// Without the right to manage roles, a plan that touches no overwrite stays the same,
/// and one that touches an overwrite is refused for want of that right. Where there is no
/// plan even with the right, there is none without it, for the same reason or for want of
/// the right.
pub proof fn overwrites_need_the_right_to_manage_roles(
    definition: DefinitionView,
    state: StateView,
    catalog: ChannelCatalogView,
)
    requires
        sorted::<ChannelLogicalId, ChannelDefinitionView>(definition.channels),
    ensures
        ({
            let with_right = channel_plan(definition, state, catalog, true);
            let without_right = channel_plan(definition, state, catalog, false);
            match with_right {
                Ok(plan) => if touches_overwrites(plan) {
                    is_denied(without_right)
                } else {
                    without_right == with_right
                },
                Err(_) => without_right == with_right || is_denied(without_right),
            }
        }),
{
    let actual = by_id(catalog.channels);
    let none = PlanView::none();
    let channels = definition.channels;
    let with_right = with_declared(none, channels, 0, definition, state, actual, true);
    let without_right = with_declared(none, channels, 0, definition, state, actual, false);
    declared_need_the_right(none, channels, 0, definition, state, actual);
    assert forall|id: Seq<char>| !touches_overwrites_of(none, id) by {}
    if let Ok(plan) = channel_plan(definition, state, catalog, true) {
        let declared = with_right->Ok_0;
        let released = with_released(declared, state.channels, 0, channels);
        assert forall|id: Seq<char>| #[trigger] touches_overwrites_of(plan, id) == touches_overwrites_of(declared, id) by {
            assert(!touches_overwrites_of(none, id));
            undeclared_are_untouched(none, channels, 0, definition, state, actual, id);
            releases_touch_no_overwrites(declared, state.channels, 0, channels, id);
            assert(touches_overwrites_of(plan, id) == touches_overwrites_of(released, id));
        }
        if touches_overwrites(plan) {
            let id = choose|id: Seq<char>| #[trigger] touches_overwrites_of(plan, id);
            assert(touches_overwrites_of(declared, id));
            assert(!touches_overwrites_of(none, id));
        } else if is_denied(without_right) {
            let id = choose|id: Seq<char>| #[trigger] touches_overwrites_of(declared, id);
            assert(touches_overwrites_of(plan, id));
        }
    }
}

proof fn undeclared_are_untouched(
    plan: PlanView,
    channels: Seq<(Seq<char>, ChannelDefinitionView)>,
    i: int,
    definition: DefinitionView,
    state: StateView,
    actual: ActualChannelsView,
    id: Seq<char>,
)
    requires
        0 <= i <= channels.len(),
        with_declared(plan, channels, i, definition, state, actual, true) is Ok,
        !has_key(channels, id) ==> !touches_overwrites_of(plan, id),
    ensures
        !has_key(channels, id) ==> !touches_overwrites_of(
            with_declared(plan, channels, i, definition, state, actual, true)->Ok_0,
            id,
        ),
    decreases channels.len() - i,
{
    if i < channels.len() {
        let name = channels[i].0;
        entry_is_found(channels, i);
        let step = channel_step(name, channels[i].1, definition, state, actual, true)->Ok_0;
        match step {
            ChannelStepView::Nothing => {},
            ChannelStepView::Create(desired) => {
                put_then_lookup::<ChannelLogicalId, ChangeView>(plan.changes, name, ChangeView::Create, id);
                put_then_lookup::<ChannelLogicalId, CreateDesiredView>(plan.create_desired, name, desired, id);
            },
            ChannelStepView::Do(change) => {
                put_then_lookup::<ChannelLogicalId, ChangeView>(plan.changes, name, change, id);
            },
        }
        undeclared_are_untouched(plan.after(name, step), channels, i + 1, definition, state, actual, id);
    }
}

} // verus!
