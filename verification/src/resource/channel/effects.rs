//! What a plan of channels comes to, told by what the definition, the state and the guild hold.

use vstd::prelude::*;

use crate::configuration::channel::{
    ChannelAttributesView, ChannelDefinitionView, ChannelKind, ChannelValue, OverwritesView, OverwriteTargetView,
    OverwriteValue,
};
use crate::configuration::definition::DefinitionView;
use crate::configuration::permission::KnownPermission;
use crate::configuration::state::{holder, holder_has_entry, MappingsView, StateView};
use crate::ids::{ChannelId, ChannelLogicalId};
use crate::ordered::{
    first_in_none, has_key, lookup, lookup_has_entry, lookup_in_sorted, put, put_entry, put_then_lookup, sorted,
    sorted_entries, without_then_lookup, OrderedKey,
};
use crate::port::{
    ChannelCatalogView, ChannelOverwritePermissionsView, ChannelOverwritesView, ChannelOverwriteTarget,
    ChannelOverwriteTargetView, ChannelSnapshotView,
};
use crate::resource::change::{NullableValueChange, ValueChange};
use crate::resource::channel::attributes::{attribute_changes, AttributeChangesView, PlannedParentChangeView};
use crate::resource::channel::create::{created_channel, CreateDesiredView};
use crate::resource::channel::laws::{
    changes_are_sorted, overwrite_changes_hold, target_changes, targets_differ, value_changes_lead_to_wanted,
    with_changes_has, with_target_has,
};
use crate::resource::channel::overwrites::{
    by_id, desired_overwrites, overwrite_changes, permissions_for, present_overwrites, resolved_target,
    synced_overwrites, value_changes, value_in, with_changes, with_definition, with_target, with_values,
    ActualChannelsView, OverwriteChangesView,
};
use crate::resource::channel::plan::{
    category_fault, channel_plan, channel_step, inside_category_fault, with_declared, with_released, ChangeView,
    ChannelStepView, PlanView,
};
use crate::resource::role::effects::{bound_to, leads};

verus! {

/// The value that overwrites give to a permission of a target: none, where no entry says one.
pub open spec fn given(
    overwrites: ChannelOverwritesView,
    target: ChannelOverwriteTargetView,
    permission: Seq<char>,
) -> OverwriteValue {
    match lookup(overwrites, target) {
        None => OverwriteValue::Clear,
        Some(permissions) => match lookup(permissions.known, permission) {
            None => OverwriteValue::Clear,
            Some(value) => value,
        },
    }
}

/// The bits that overwrites allow and deny to a target beyond the known permissions.
pub open spec fn unknown_bits(overwrites: ChannelOverwritesView, target: ChannelOverwriteTargetView) -> (u64, u64) {
    match lookup(overwrites, target) {
        None => (0, 0),
        Some(permissions) => (permissions.allow_unknown, permissions.deny_unknown),
    }
}

/// Whom the subject of a declared overwrite is in a guild, where it is bound.
pub open spec fn stands_for(subject: OverwriteTargetView, state: StateView) -> Option<ChannelOverwriteTargetView> {
    match subject {
        OverwriteTargetView::Everyone => Some(ChannelOverwriteTargetView::Everyone),
        OverwriteTargetView::Role(name) => match bound_to(state, name) {
            Some(id) => Some(ChannelOverwriteTargetView::Role(id)),
            None => None,
        },
        OverwriteTargetView::Member(name) => match lookup(state.members, name) {
            Some(id) => Some(ChannelOverwriteTargetView::Member(id)),
            None => None,
        },
    }
}

/// Whether a declared overwrite names a permission of a target.
pub open spec fn names(
    wanted: OverwritesView,
    k: int,
    target: ChannelOverwriteTargetView,
    permission: Seq<char>,
    state: StateView,
) -> bool {
    0 <= k < wanted.len() && stands_for(wanted[k].0, state) == Some(target) && has_key(wanted[k].1, permission)
}

/// Whether all subjects of declared overwrites are bound.
pub open spec fn subjects_are_bound(wanted: OverwritesView, state: StateView) -> bool {
    forall|k: int| 0 <= k < wanted.len() ==> stands_for((#[trigger] wanted[k]).0, state) is Some
}

/// Whether the permissions of each declared overwrite are in order.
pub open spec fn values_are_sorted(wanted: OverwritesView) -> bool {
    forall|k: int| 0 <= k < wanted.len() ==> sorted::<KnownPermission, OverwriteValue>((#[trigger] wanted[k]).1)
}

/// Whether no two declared overwrites are for one target.
pub open spec fn no_target_twice(wanted: OverwritesView, state: StateView) -> bool {
    forall|i: int, j: int|
        0 <= i < j < wanted.len() ==> stands_for((#[trigger] wanted[i]).0, state) != stands_for(
            (#[trigger] wanted[j]).0,
            state,
        )
}

/// Whether overwrites give each permission of each target the value that is declared for
/// it last, and all others, the unknown ones too, the value that they had before.
pub open spec fn are_as_declared(
    after: ChannelOverwritesView,
    wanted: OverwritesView,
    before: ChannelOverwritesView,
    state: StateView,
) -> bool {
    &&& forall|target: ChannelOverwriteTargetView, permission: Seq<char>, k: int| #[trigger]
        names(wanted, k, target, permission, state) && (forall|j: int|
            k < j ==> !#[trigger] names(wanted, j, target, permission, state)) ==> given(after, target, permission)
            == lookup(wanted[k].1, permission)->0
    &&& forall|target: ChannelOverwriteTargetView, permission: Seq<char>|
        (forall|k: int| !#[trigger] names(wanted, k, target, permission, state)) ==> #[trigger] given(
            after,
            target,
            permission,
        ) == given(before, target, permission)
    &&& forall|target: ChannelOverwriteTargetView| #[trigger] unknown_bits(after, target) == unknown_bits(before, target)
}

/// Whether a catalog lists a channel under an identifier, as the last of those that have it.
pub open spec fn lists(catalog: ChannelCatalogView, id: u64, channel: ChannelSnapshotView) -> bool {
    exists|k: int|
        0 <= k < catalog.channels.len() && (#[trigger] catalog.channels[k]) == channel && channel.id == id && forall|
            j: int,
        |
            k < j < catalog.channels.len() ==> (#[trigger] catalog.channels[j]).id != id
}

/// Whether a catalog lists no channel under an identifier.
pub open spec fn lists_none(catalog: ChannelCatalogView, id: u64) -> bool {
    forall|k: int| 0 <= k < catalog.channels.len() ==> (#[trigger] catalog.channels[k]).id != id
}

/// Whether overwrites are those that a declared channel has in the guild: none, where it
/// is not bound, or the guild does not have it.
pub open spec fn are_in_guild(
    overwrites: ChannelOverwritesView,
    name: Seq<char>,
    state: StateView,
    catalog: ChannelCatalogView,
) -> bool {
    match lookup(state.channels, name) {
        None => overwrites.len() == 0,
        Some(id) => (lists_none(catalog, id) && overwrites.len() == 0) || exists|channel: ChannelSnapshotView|
            #[trigger] lists(catalog, id, channel) && channel.overwrites == overwrites,
    }
}

/// The overwrites that are declared for a channel.
pub open spec fn declared_overwrites(definition: DefinitionView, name: Seq<char>) -> OverwritesView {
    match lookup(definition.channels, name) {
        Some(ChannelDefinitionView::Managed { attributes }) => attributes.overwrites,
        _ => Seq::empty(),
    }
}

/// Whether a declared channel takes over the overwrites of its parent.
pub open spec fn is_synchronised(definition: DefinitionView, name: Seq<char>) -> bool {
    match lookup(definition.channels, name) {
        Some(ChannelDefinitionView::Managed { attributes }) => attributes.permissions_sync == Some(true),
        _ => false,
    }
}

/// Whether overwrites are those that a channel takes over from its parent: what is declared
/// for the parent, and else what the parent has in the guild.
pub open spec fn are_of_parent(
    overwrites: ChannelOverwritesView,
    parent: Seq<char>,
    definition: DefinitionView,
    state: StateView,
    catalog: ChannelCatalogView,
) -> bool {
    &&& subjects_are_bound(declared_overwrites(definition, parent), state)
    &&& exists|before: ChannelOverwritesView| #[trigger]
        are_in_guild(before, parent, state, catalog) && are_as_declared(
            overwrites,
            declared_overwrites(definition, parent),
            before,
            state,
        )
}

proof fn subjects_resolve(subject: OverwriteTargetView, id: Seq<char>, state: StateView)
    ensures
        match stands_for(subject, state) {
            Some(target) => resolved_target(subject, id, state) is Ok && resolved_target(subject, id, state)->Ok_0
                == target,
            None => resolved_target(subject, id, state) is Err,
        },
{
}

pub(crate) proof fn given_is_value_in(overwrites: ChannelOverwritesView, target: ChannelOverwriteTargetView, name: Seq<char>)
    ensures
        given(overwrites, target, name) == value_in(permissions_for(overwrites, target).known, name),
{
    if lookup(overwrites, target) is None {
        assert(permissions_for(overwrites, target).known =~= Seq::empty());
    }
}

proof fn with_target_keeps_unknown(
    overwrites: ChannelOverwritesView,
    target: ChannelOverwriteTargetView,
    values: Seq<(Seq<char>, OverwriteValue)>,
    other: ChannelOverwriteTargetView,
)
    ensures
        unknown_bits(with_target(overwrites, target, values), other) == unknown_bits(overwrites, other),
{
    let before = permissions_for(overwrites, target);
    let after = ChannelOverwritePermissionsView { known: with_values(before.known, values), ..before };
    put_then_lookup::<ChannelOverwriteTarget, ChannelOverwritePermissionsView>(overwrites, target, after, other);
    without_then_lookup(overwrites, target, other);
}

proof fn defined_values_are_given(
    id: Seq<char>,
    wanted: OverwritesView,
    i: int,
    state: StateView,
    overwrites: ChannelOverwritesView,
    target: ChannelOverwriteTargetView,
    permission: Seq<char>,
    k: int,
)
    requires
        0 <= i <= wanted.len(),
        values_are_sorted(wanted),
        with_definition(id, wanted, i, state, overwrites) is Ok,
        k < i || names(wanted, k, target, permission, state),
        forall|j: int| k < j ==> !#[trigger] names(wanted, j, target, permission, state),
    ensures
        given(with_definition(id, wanted, i, state, overwrites)->Ok_0, target, permission) == if k < i {
            given(overwrites, target, permission)
        } else {
            lookup(wanted[k].1, permission)->0
        },
    decreases wanted.len() - i,
{
    if i < wanted.len() {
        let resolved = resolved_target(wanted[i].0, id, state)->Ok_0;
        let next = with_target(overwrites, resolved, wanted[i].1);
        subjects_resolve(wanted[i].0, id, state);
        assert(sorted::<KnownPermission, OverwriteValue>(wanted[i].1));
        with_target_has(overwrites, resolved, wanted[i].1, target, permission);
        given_is_value_in(overwrites, target, permission);
        given_is_value_in(next, target, permission);
        defined_values_are_given(id, wanted, i + 1, state, next, target, permission, k);
        if k < i {
            assert(!names(wanted, i, target, permission, state));
        }
    }
}

proof fn defined_values_keep_unknown(
    id: Seq<char>,
    wanted: OverwritesView,
    i: int,
    state: StateView,
    overwrites: ChannelOverwritesView,
    target: ChannelOverwriteTargetView,
)
    requires
        0 <= i <= wanted.len(),
        with_definition(id, wanted, i, state, overwrites) is Ok,
    ensures
        unknown_bits(with_definition(id, wanted, i, state, overwrites)->Ok_0, target) == unknown_bits(
            overwrites,
            target,
        ),
        forall|k: int| i <= k < wanted.len() ==> stands_for((#[trigger] wanted[k]).0, state) is Some,
    decreases wanted.len() - i,
{
    if i < wanted.len() {
        let resolved = resolved_target(wanted[i].0, id, state)->Ok_0;
        subjects_resolve(wanted[i].0, id, state);
        with_target_keeps_unknown(overwrites, resolved, wanted[i].1, target);
        defined_values_keep_unknown(id, wanted, i + 1, state, with_target(overwrites, resolved, wanted[i].1), target);
    }
}

proof fn defined_overwrites_are_as_declared(
    id: Seq<char>,
    wanted: OverwritesView,
    state: StateView,
    overwrites: ChannelOverwritesView,
)
    requires
        values_are_sorted(wanted),
        with_definition(id, wanted, 0, state, overwrites) is Ok,
    ensures
        are_as_declared(with_definition(id, wanted, 0, state, overwrites)->Ok_0, wanted, overwrites, state),
        subjects_are_bound(wanted, state),
{
    let after = with_definition(id, wanted, 0, state, overwrites)->Ok_0;
    assert forall|target: ChannelOverwriteTargetView, permission: Seq<char>, k: int| #[trigger]
        names(wanted, k, target, permission, state) && (forall|j: int|
            k < j ==> !#[trigger] names(wanted, j, target, permission, state)) implies given(after, target, permission)
        == lookup(wanted[k].1, permission)->0 by {
        defined_values_are_given(id, wanted, 0, state, overwrites, target, permission, k);
    }
    assert forall|target: ChannelOverwriteTargetView, permission: Seq<char>|
        (forall|k: int| !#[trigger] names(wanted, k, target, permission, state)) implies #[trigger] given(
        after,
        target,
        permission,
    ) == given(overwrites, target, permission) by {
        defined_values_are_given(id, wanted, 0, state, overwrites, target, permission, -1);
    }
    assert forall|target: ChannelOverwriteTargetView| #[trigger] unknown_bits(after, target) == unknown_bits(
        overwrites,
        target,
    ) by {
        defined_values_keep_unknown(id, wanted, 0, state, overwrites, target);
    }
    defined_values_keep_unknown(id, wanted, 0, state, overwrites, ChannelOverwriteTargetView::Everyone);
}

/// A channel that is found by its identifier is the one that the catalog lists.
proof fn found_channels_are_listed(catalog: ChannelCatalogView, id: u64)
    ensures
        match lookup(by_id(catalog.channels), id) {
            Some(channel) => lists(catalog, id, channel) && channel.id == id,
            None => lists_none(catalog, id),
        },
    decreases catalog.channels.len(),
{
    let channels = catalog.channels;
    if channels.len() > 0 {
        let front = ChannelCatalogView { channels: channels.drop_last() };
        let last = channels.last();
        found_channels_are_listed(front, id);
        put_then_lookup::<ChannelId, ChannelSnapshotView>(by_id(front.channels), last.id, last, id);
        if last.id == id {
            assert(channels[channels.len() - 1] == last);
            assert(lists(catalog, id, last));
        } else {
            match lookup(by_id(front.channels), id) {
                Some(channel) => {
                    let k = choose|k: int|
                        0 <= k < front.channels.len() && (#[trigger] front.channels[k]) == channel && channel.id == id
                            && forall|j: int|
                            k < j < front.channels.len() ==> (#[trigger] front.channels[j]).id != id;
                    assert(channels[k] == channel);
                    assert forall|j: int| k < j < channels.len() implies (#[trigger] channels[j]).id != id by {
                        if j < channels.len() - 1 {
                            assert(front.channels[j].id != id);
                        }
                    }
                },
                None => {
                    assert forall|k: int| 0 <= k < channels.len() implies (#[trigger] channels[k]).id != id by {
                        if k < channels.len() - 1 {
                            assert(front.channels[k].id != id);
                        }
                    }
                },
            }
        }
    }
}

/// No two channels are listed under one identifier.
proof fn listed_channels_are_one(
    catalog: ChannelCatalogView,
    id: u64,
    one: ChannelSnapshotView,
    other: ChannelSnapshotView,
)
    requires
        lists(catalog, id, one),
        lists(catalog, id, other),
    ensures
        one == other,
{
    let channels = catalog.channels;
    let a = choose|k: int|
        0 <= k < channels.len() && (#[trigger] channels[k]) == one && one.id == id && forall|j: int|
            k < j < channels.len() ==> (#[trigger] channels[j]).id != id;
    let b = choose|k: int|
        0 <= k < channels.len() && (#[trigger] channels[k]) == other && other.id == id && forall|j: int|
            k < j < channels.len() ==> (#[trigger] channels[j]).id != id;
    if a < b {
        assert(channels[b].id != id);
    } else if b < a {
        assert(channels[a].id != id);
    }
}

proof fn unsynchronised_overwrites_are_of_parent(
    parent: Seq<char>,
    definition: DefinitionView,
    state: StateView,
    catalog: ChannelCatalogView,
    visited: Seq<Seq<char>>,
)
    requires
        desired_overwrites(parent, definition, state, by_id(catalog.channels), visited) is Ok,
        !is_synchronised(definition, parent),
        values_are_sorted(declared_overwrites(definition, parent)),
    ensures
        are_of_parent(
            desired_overwrites(parent, definition, state, by_id(catalog.channels), visited)->Ok_0,
            parent,
            definition,
            state,
            catalog,
        ),
{
    let actual = by_id(catalog.channels);
    let before = present_overwrites(parent, state, actual);
    let declared = lookup(definition.channels, parent)->0;
    assert(declared_overwrites(definition, parent) =~= declared.attributes().overwrites);
    match lookup(state.channels, parent) {
        None => {},
        Some(id) => {
            found_channels_are_listed(catalog, id);
        },
    }
    assert(are_in_guild(before, parent, state, catalog));
    defined_overwrites_are_as_declared(parent, declared_overwrites(definition, parent), state, before);
}

/// The overwrites of a channel that takes over those of its parent.
///
/// For each target and permission that is declared for the parent they give the declared
/// value, and for all others what the parent has in the guild.
pub proof fn synchronised_channels_take_over(
    id: Seq<char>,
    attributes: ChannelAttributesView,
    parent: Seq<char>,
    definition: DefinitionView,
    state: StateView,
    catalog: ChannelCatalogView,
)
    requires
        attributes.permissions_sync == Some(true),
        attributes.parent == Some(ChannelValue::Value(parent)),
        !is_synchronised(definition, parent),
        values_are_sorted(declared_overwrites(definition, parent)),
    ensures
        ({
            let synced = synced_overwrites(id, attributes, definition, state, by_id(catalog.channels));
            synced is Ok ==> synced->Ok_0 is Some && are_of_parent(
                synced->Ok_0->0,
                parent,
                definition,
                state,
                catalog,
            )
        }),
{
    let actual = by_id(catalog.channels);
    let synced = synced_overwrites(id, attributes, definition, state, actual);
    if synced is Ok {
        unsynchronised_overwrites_are_of_parent(parent, definition, state, catalog, Seq::empty());
    }
}

/// The value that an attribute asks for, given what the default and no value stand for.
pub open spec fn asked<W>(value: Option<ChannelValue<W>>, default: W, clear: W) -> Option<W> {
    match value {
        None => None,
        Some(ChannelValue::Value(value)) => Some(value),
        Some(ChannelValue::Default) => Some(default),
        Some(ChannelValue::Clear) => Some(clear),
    }
}

/// What an attribute that may be absent is asked to be, given the default.
pub open spec fn asked_if_any<W>(value: Option<ChannelValue<W>>, default: Option<W>) -> Option<Option<W>> {
    match value {
        None => None,
        Some(ChannelValue::Value(value)) => Some(Some(value)),
        Some(ChannelValue::Default) => Some(default),
        Some(ChannelValue::Clear) => Some(None),
    }
}

/// Whether a change of an attribute that may be absent leads from a value to what is asked
/// for, and is there only where these differ.
pub open spec fn leads_if_any<W>(
    change: Option<NullableValueChange<W>>,
    current: Option<W>,
    asked: Option<Option<W>>,
) -> bool {
    match change {
        None => asked is None || asked == Some(current),
        Some(NullableValueChange::Replace { current: before, desired }) => before == current && asked == Some(
            Some(desired),
        ) && current != Some(desired),
        Some(NullableValueChange::Clear { current: before }) => before == current && asked == Some(None::<W>)
            && current is Some,
    }
}

/// Whether a declared channel is a category that the bot manages.
pub open spec fn is_managed_category(definition: DefinitionView, name: Seq<char>) -> bool {
    match lookup(definition.channels, name) {
        Some(ChannelDefinitionView::Managed { attributes }) => attributes.kind == Some(ChannelKind::Category),
        _ => false,
    }
}

/// Whether changes of the parent lead from the parent of a channel to the one that is asked
/// for. One that does not exist yet is a managed category, and is planned by its name.
pub open spec fn parent_leads(
    changes: AttributeChangesView,
    current: Option<u64>,
    value: Option<ChannelValue<Seq<char>>>,
    definition: DefinitionView,
    state: StateView,
) -> bool {
    match value {
        None => changes.parent is None && changes.planned_parent is None,
        Some(ChannelValue::Clear) => changes.planned_parent is None && leads_if_any(
            changes.parent,
            current,
            Some(None),
        ),
        Some(ChannelValue::Value(name)) => match lookup(state.channels, name) {
            Some(parent_id) => changes.planned_parent is None && leads_if_any(
                changes.parent,
                current,
                Some(Some(parent_id)),
            ),
            None => changes.parent is None && is_managed_category(definition, name) && changes.planned_parent == Some(
                PlannedParentChangeView { current, logical_id: name },
            ),
        },
        Some(ChannelValue::Default) => false,
    }
}

/// The change of a permission of a target, if there is one.
pub open spec fn change_of(
    changes: OverwriteChangesView,
    target: ChannelOverwriteTargetView,
    permission: Seq<char>,
) -> Option<ValueChange<OverwriteValue>> {
    match lookup(changes, target) {
        None => None,
        Some(of_target) => lookup(of_target, permission),
    }
}

/// Whether changes of overwrites lead from what a channel has to what is declared for it,
/// permission by permission, and change nothing else.
pub open spec fn overwrites_lead(
    changes: OverwriteChangesView,
    current: ChannelOverwritesView,
    wanted: OverwritesView,
    state: StateView,
) -> bool {
    &&& subjects_are_bound(wanted, state)
    &&& forall|target: ChannelOverwriteTargetView, permission: Seq<char>, k: int| #[trigger]
        names(wanted, k, target, permission, state) ==> leads(
            change_of(changes, target, permission),
            given(current, target, permission),
            lookup(wanted[k].1, permission),
        )
    &&& forall|target: ChannelOverwriteTargetView, permission: Seq<char>|
        (forall|k: int| !#[trigger] names(wanted, k, target, permission, state)) ==> #[trigger] change_of(
            changes,
            target,
            permission,
        ) is None
    &&& forall|n: int| 0 <= n < changes.len() ==> (#[trigger] changes[n]).1.len() > 0
}

/// The overwrites that a channel takes over, as changes of attributes have them, or else
/// as it has them already.
pub open spec fn taken_over(changes: AttributeChangesView, actual: ChannelSnapshotView) -> ChannelOverwritesView {
    match changes.synced_overwrites {
        Some(overwrites) => overwrites,
        None => actual.overwrites,
    }
}

/// Whether changes of attributes lead from a channel to what is asked for, attribute by attribute.
pub open spec fn changes_lead(
    changes: AttributeChangesView,
    actual: ChannelSnapshotView,
    attributes: ChannelAttributesView,
    definition: DefinitionView,
    state: StateView,
    catalog: ChannelCatalogView,
) -> bool {
    &&& attributes.name is None || attributes.name->0 is Value
    &&& leads(changes.name, actual.name, asked(attributes.name, actual.name, actual.name))
    &&& parent_leads(changes, actual.parent_id, attributes.parent, definition, state)
    &&& leads_if_any(changes.topic, actual.topic, asked_if_any(attributes.topic, None))
    &&& attributes.nsfw is None || !(attributes.nsfw->0 is Clear)
    &&& leads(changes.nsfw, actual.nsfw, asked(attributes.nsfw, false, false))
    &&& leads(changes.slowmode_seconds, actual.slowmode_seconds, asked(attributes.slowmode_seconds, 0, 0))
    &&& leads_if_any(
        changes.default_auto_archive_minutes,
        actual.default_auto_archive_minutes,
        asked_if_any(attributes.default_auto_archive_minutes, Some(1440)),
    )
    &&& leads(
        changes.default_thread_slowmode_seconds,
        actual.default_thread_slowmode_seconds,
        asked(attributes.default_thread_slowmode_seconds, 0, 0),
    )
    &&& if attributes.permissions_sync == Some(true) {
        &&& attributes.parent is Some && attributes.parent->0 is Value
        &&& changes.overwrites.len() == 0
        &&& changes.synced_overwrites != Some(actual.overwrites)
        &&& are_of_parent(
            taken_over(changes, actual),
            attributes.parent->0->Value_0,
            definition,
            state,
            catalog,
        )
    } else {
        changes.synced_overwrites is None && overwrites_lead(
            changes.overwrites,
            actual.overwrites,
            attributes.overwrites,
            state,
        )
    }
}

/// Changes of attributes that change nothing.
pub open spec fn no_changes() -> AttributeChangesView {
    AttributeChangesView {
        name: None,
        parent: None,
        planned_parent: None,
        topic: None,
        nsfw: None,
        slowmode_seconds: None,
        default_auto_archive_minutes: None,
        default_thread_slowmode_seconds: None,
        overwrites: Seq::empty(),
        synced_overwrites: None,
    }
}

/// Whether changes of attributes change something.
pub open spec fn changes_something(changes: AttributeChangesView) -> bool {
    ||| changes.name is Some
    ||| changes.parent is Some
    ||| changes.planned_parent is Some
    ||| changes.topic is Some
    ||| changes.nsfw is Some
    ||| changes.slowmode_seconds is Some
    ||| changes.default_auto_archive_minutes is Some
    ||| changes.default_thread_slowmode_seconds is Some
    ||| changes.overwrites.len() > 0
    ||| changes.synced_overwrites is Some
}

/// Whether changes of attributes touch overwrites.
pub open spec fn touch_overwrites(changes: AttributeChangesView) -> bool {
    changes.overwrites.len() > 0 || changes.synced_overwrites is Some
}

/// Whether a channel that shall be created is what is asked for, attribute by attribute.
pub open spec fn creation_is_asked(
    desired: CreateDesiredView,
    attributes: ChannelAttributesView,
    definition: DefinitionView,
    state: StateView,
    catalog: ChannelCatalogView,
) -> bool {
    let payload = desired.payload;
    &&& attributes.kind == Some(payload.kind)
    &&& attributes.name == Some(ChannelValue::Value(payload.name))
    &&& match attributes.parent {
        Some(ChannelValue::Value(name)) => desired.parent_logical_id == Some(name) && payload.parent_id == lookup(
            state.channels,
            name,
        ) && (payload.parent_id is None ==> is_managed_category(definition, name)),
        Some(ChannelValue::Default) => false,
        _ => desired.parent_logical_id is None && payload.parent_id is None,
    }
    &&& payload.topic == match asked_if_any(attributes.topic, None) {
        Some(topic) => topic,
        None => None,
    }
    &&& attributes.nsfw is None || !(attributes.nsfw->0 is Clear)
    &&& payload.nsfw == (attributes.nsfw == Some(ChannelValue::Value(true)))
    &&& payload.slowmode_seconds == match asked(attributes.slowmode_seconds, 0, 0) {
        Some(seconds) => seconds,
        None => 0,
    }
    &&& payload.default_auto_archive_minutes == match asked_if_any(
        attributes.default_auto_archive_minutes,
        Some(1440),
    ) {
        Some(minutes) => minutes,
        None => Some(1440),
    }
    &&& payload.default_thread_slowmode_seconds == match asked(attributes.default_thread_slowmode_seconds, 0, 0) {
        Some(seconds) => seconds,
        None => 0,
    }
    &&& if attributes.permissions_sync == Some(true) {
        &&& attributes.parent is Some && attributes.parent->0 is Value
        &&& are_of_parent(payload.overwrites, attributes.parent->0->Value_0, definition, state, catalog)
    } else {
        &&& subjects_are_bound(attributes.overwrites, state)
        &&& are_as_declared(payload.overwrites, attributes.overwrites, Seq::empty(), state)
    }
}

/// Whether the overwrites that are declared for each channel are in order.
pub open spec fn overwrites_are_sorted(definition: DefinitionView) -> bool {
    forall|name: Seq<char>| values_are_sorted(#[trigger] declared_overwrites(definition, name))
}

proof fn declared_values_are_led_to(
    id: Seq<char>,
    wanted: OverwritesView,
    i: int,
    actual: ChannelOverwritesView,
    state: StateView,
    changes: OverwriteChangesView,
    target: ChannelOverwriteTargetView,
)
    requires
        0 <= i <= wanted.len(),
        values_are_sorted(wanted),
        overwrite_changes(id, wanted, i, actual, state, changes) is Ok,
        forall|n: int| 0 <= n < changes.len() ==> (#[trigger] changes[n]).1.len() > 0,
    ensures
        ({
            let all = overwrite_changes(id, wanted, i, actual, state, changes)->Ok_0;
            &&& forall|n: int| 0 <= n < all.len() ==> (#[trigger] all[n]).1.len() > 0
            &&& forall|k: int| i <= k < wanted.len() ==> stands_for((#[trigger] wanted[k]).0, state) is Some
            &&& (forall|k: int| i <= k < wanted.len() ==> stands_for((#[trigger] wanted[k]).0, state) != Some(target))
                ==> lookup(all, target) == lookup(changes, target)
        }),
    decreases wanted.len() - i,
{
    if i < wanted.len() {
        let resolved = resolved_target(wanted[i].0, id, state)->Ok_0;
        subjects_resolve(wanted[i].0, id, state);
        let of_target = value_changes(wanted[i].1, 0, permissions_for(actual, resolved).known, Seq::empty());
        let put_there = put::<ChannelOverwriteTarget, Seq<(Seq<char>, ValueChange<OverwriteValue>)>>(
            changes,
            resolved,
            of_target,
        );
        let next = if of_target.len() == 0 {
            changes
        } else {
            put_there
        };
        put_then_lookup::<ChannelOverwriteTarget, Seq<(Seq<char>, ValueChange<OverwriteValue>)>>(
            changes,
            resolved,
            of_target,
            target,
        );
        assert forall|n: int| 0 <= n < next.len() implies (#[trigger] next[n]).1.len() > 0 by {
            if of_target.len() > 0 {
                put_entry::<ChannelOverwriteTarget, Seq<(Seq<char>, ValueChange<OverwriteValue>)>>(
                    changes,
                    resolved,
                    of_target,
                    n,
                );
                if next[n] != (resolved, of_target) {
                    let m = changes.index_of(next[n]);
                    assert(changes[m] == next[n]);
                }
            }
        }
        declared_values_are_led_to(id, wanted, i + 1, actual, state, next, target);
        if forall|k: int| i <= k < wanted.len() ==> stands_for((#[trigger] wanted[k]).0, state) != Some(target) {
            assert(stands_for(wanted[i].0, state) != Some(target));
        }
    }
}

proof fn changes_of_target_lead(
    wanted: Seq<(Seq<char>, OverwriteValue)>,
    i: int,
    known: Seq<(Seq<char>, OverwriteValue)>,
    changes: Seq<(Seq<char>, ValueChange<OverwriteValue>)>,
    name: Seq<char>,
)
    requires
        0 <= i <= wanted.len(),
        forall|n: int| 0 <= n < changes.len() ==> (#[trigger] changes[n]).1.current == value_in(known, changes[n].0)
            && changes[n].1.current != changes[n].1.desired,
    ensures
        ({
            let all = value_changes(wanted, i, known, changes);
            forall|n: int| 0 <= n < all.len() ==> (#[trigger] all[n]).1.current == value_in(known, all[n].0)
                && all[n].1.current != all[n].1.desired
        }),
    decreases wanted.len() - i,
{
    if i < wanted.len() {
        let change = ValueChange { current: value_in(known, wanted[i].0), desired: wanted[i].1 };
        let next = if value_in(known, wanted[i].0) == wanted[i].1 {
            changes
        } else {
            put::<KnownPermission, ValueChange<OverwriteValue>>(changes, wanted[i].0, change)
        };
        assert forall|n: int| 0 <= n < next.len() implies (#[trigger] next[n]).1.current == value_in(known, next[n].0)
            && next[n].1.current != next[n].1.desired by {
            if next != changes {
                put_entry::<KnownPermission, ValueChange<OverwriteValue>>(changes, wanted[i].0, change, n);
                if next[n] != (wanted[i].0, change) {
                    let m = changes.index_of(next[n]);
                    assert(changes[m] == next[n]);
                }
            }
        }
        changes_of_target_lead(wanted, i + 1, known, next, name);
    }
}

proof fn planned_overwrites_lead(
    id: Seq<char>,
    wanted: OverwritesView,
    actual: ChannelOverwritesView,
    state: StateView,
)
    requires
        values_are_sorted(wanted),
        no_target_twice(wanted, state),
        overwrite_changes(id, wanted, 0, actual, state, Seq::empty()) is Ok,
    ensures
        overwrites_lead(
            overwrite_changes(id, wanted, 0, actual, state, Seq::empty())->Ok_0,
            actual,
            wanted,
            state,
        ),
{
    let all = overwrite_changes(id, wanted, 0, actual, state, Seq::empty())->Ok_0;
    declared_values_are_led_to(id, wanted, 0, actual, state, Seq::empty(), ChannelOverwriteTargetView::Everyone);
    assert(targets_differ(id, wanted, state)) by {
        assert forall|i: int, j: int| 0 <= i < j < wanted.len() implies resolved_target(
            (#[trigger] wanted[i]).0,
            id,
            state,
        ) != resolved_target((#[trigger] wanted[j]).0, id, state) by {
            subjects_resolve(wanted[i].0, id, state);
            subjects_resolve(wanted[j].0, id, state);
            assert(stands_for(wanted[i].0, state) != stands_for(wanted[j].0, state));
        }
    }
    assert(changes_are_sorted(Seq::empty()));
    assert forall|target: ChannelOverwriteTargetView, permission: Seq<char>, k: int| #[trigger]
        names(wanted, k, target, permission, state) implies leads(
        change_of(all, target, permission),
        given(actual, target, permission),
        lookup(wanted[k].1, permission),
    ) by {
        subjects_resolve(wanted[k].0, id, state);
        overwrite_changes_hold(id, wanted, 0, actual, state, Seq::empty(), k);
        named_permission_is_led_to(id, wanted, actual, state, target, permission, k);
    }
    assert forall|target: ChannelOverwriteTargetView, permission: Seq<char>|
        (forall|k: int| !#[trigger] names(wanted, k, target, permission, state)) implies #[trigger] change_of(
        all,
        target,
        permission,
    ) is None by {
        if exists|k: int| 0 <= k < wanted.len() && stands_for((#[trigger] wanted[k]).0, state) == Some(target) {
            let k = choose|k: int| 0 <= k < wanted.len() && stands_for((#[trigger] wanted[k]).0, state) == Some(target);
            assert(!names(wanted, k, target, permission, state));
            subjects_resolve(wanted[k].0, id, state);
            overwrite_changes_hold(id, wanted, 0, actual, state, Seq::empty(), k);
            let known = permissions_for(actual, target).known;
            assert(sorted::<KnownPermission, OverwriteValue>(wanted[k].1));
            value_changes_lead_to_wanted(wanted[k].1, 0, known, Seq::empty(), permission);
            assert(wanted[k].1.skip(0) =~= wanted[k].1);
        } else {
            declared_values_are_led_to(id, wanted, 0, actual, state, Seq::empty(), target);
        }
    }
}

proof fn named_permission_is_led_to(
    id: Seq<char>,
    wanted: OverwritesView,
    actual: ChannelOverwritesView,
    state: StateView,
    target: ChannelOverwriteTargetView,
    permission: Seq<char>,
    k: int,
)
    requires
        names(wanted, k, target, permission, state),
        values_are_sorted(wanted),
        resolved_target(wanted[k].0, id, state) is Ok,
    ensures
        ({
            let of_target = target_changes(id, wanted, k, actual, state);
            leads(
                lookup(of_target, permission),
                given(actual, target, permission),
                lookup(wanted[k].1, permission),
            )
        }),
        target_changes(id, wanted, k, actual, state).len() == 0 ==> leads(
            None,
            given(actual, target, permission),
            lookup(wanted[k].1, permission),
        ),
{
    subjects_resolve(wanted[k].0, id, state);
    let known = permissions_for(actual, target).known;
    let of_target = target_changes(id, wanted, k, actual, state);
    given_is_value_in(actual, target, permission);
    assert(sorted::<KnownPermission, OverwriteValue>(wanted[k].1));
    value_changes_lead_to_wanted(wanted[k].1, 0, known, Seq::empty(), permission);
    changes_of_target_lead(wanted[k].1, 0, known, Seq::empty(), permission);
    assert(wanted[k].1.skip(0) =~= wanted[k].1);
    if lookup(of_target, permission) is Some {
        let n = lookup_has_entry(of_target, permission);
        assert(of_target[n].1.current == value_in(known, of_target[n].0));
    }
}

proof fn attribute_changes_lead(
    id: Seq<char>,
    actual: ChannelSnapshotView,
    attributes: ChannelAttributesView,
    definition: DefinitionView,
    state: StateView,
    catalog: ChannelCatalogView,
    can_manage_roles: bool,
)
    requires
        overwrites_are_sorted(definition),
        values_are_sorted(attributes.overwrites),
        no_target_twice(attributes.overwrites, state),
        attributes.permissions_sync == Some(true) && attributes.parent is Some && attributes.parent->0 is Value
            ==> !is_synchronised(definition, attributes.parent->0->Value_0),
        synced_overwrites(id, attributes, definition, state, by_id(catalog.channels)) is Ok,
        attribute_changes(
            id,
            actual,
            attributes,
            definition,
            state,
            can_manage_roles,
            synced_overwrites(id, attributes, definition, state, by_id(catalog.channels))->Ok_0,
        ) is Ok,
    ensures
        ({
            let synced = synced_overwrites(id, attributes, definition, state, by_id(catalog.channels))->Ok_0;
            let changes = attribute_changes(
                id,
                actual,
                attributes,
                definition,
                state,
                can_manage_roles,
                synced,
            )->Ok_0;
            match changes {
                None => changes_lead(no_changes(), actual, attributes, definition, state, catalog),
                Some(changes) => changes_lead(changes, actual, attributes, definition, state, catalog)
                    && changes_something(changes) && (touch_overwrites(changes) ==> can_manage_roles),
            }
        }),
{
    let synced = synced_overwrites(id, attributes, definition, state, by_id(catalog.channels))->Ok_0;
    let changes = attribute_changes(id, actual, attributes, definition, state, can_manage_roles, synced)->Ok_0;
    if attributes.permissions_sync == Some(true) {
        let parent = attributes.parent->0->Value_0;
        assert(values_are_sorted(declared_overwrites(definition, parent)));
        synchronised_channels_take_over(id, attributes, parent, definition, state, catalog);
        assert(synced is Some);
    } else {
        planned_overwrites_lead(id, attributes.overwrites, actual.overwrites, state);
        if changes is None {
            let none = overwrite_changes(id, attributes.overwrites, 0, actual.overwrites, state, Seq::empty())->Ok_0;
            assert(none =~= Seq::empty());
        }
    }
}

pub(crate) proof fn new_channels_are_as_asked(
    id: Seq<char>,
    attributes: ChannelAttributesView,
    definition: DefinitionView,
    state: StateView,
    catalog: ChannelCatalogView,
)
    requires
        overwrites_are_sorted(definition),
        lookup(definition.channels, id) == Some(ChannelDefinitionView::Managed { attributes }),
        attributes.permissions_sync == Some(true) && attributes.parent is Some && attributes.parent->0 is Value
            ==> !is_synchronised(definition, attributes.parent->0->Value_0),
        created_channel(id, attributes, definition, state, by_id(catalog.channels)) is Ok,
    ensures
        creation_is_asked(
            CreateDesiredView {
                payload: created_channel(id, attributes, definition, state, by_id(catalog.channels))->Ok_0,
                parent_logical_id: crate::configuration::channel::given_value(attributes.parent),
            },
            attributes,
            definition,
            state,
            catalog,
        ),
{
    let actual = by_id(catalog.channels);
    let payload = created_channel(id, attributes, definition, state, actual)->Ok_0;
    assert(values_are_sorted(declared_overwrites(definition, id)));
    if attributes.permissions_sync == Some(true) {
        let parent = attributes.parent->0->Value_0;
        let none = Seq::<Seq<char>>::empty();
        assert(!none.contains(id));
        assert(desired_overwrites(id, definition, state, actual, none) == desired_overwrites(
            parent,
            definition,
            state,
            actual,
            none.push(id),
        ));
        assert(values_are_sorted(declared_overwrites(definition, parent)));
        unsynchronised_overwrites_are_of_parent(parent, definition, state, catalog, none.push(id));
    } else {
        defined_overwrites_are_as_declared(id, attributes.overwrites, state, Seq::empty());
    }
}

proof fn step_is_taken(plan: PlanView, name: Seq<char>, step: ChannelStepView, id: Seq<char>)
    ensures
        lookup(plan.after(name, step).changes, id) == if id == name {
            match step {
                ChannelStepView::Nothing => lookup(plan.changes, id),
                ChannelStepView::Create(_) => Some(ChangeView::Create),
                ChannelStepView::Do(change) => Some(change),
            }
        } else {
            lookup(plan.changes, id)
        },
        lookup(plan.after(name, step).create_desired, id) == if id == name && step is Create {
            Some(step->Create_0)
        } else {
            lookup(plan.create_desired, id)
        },
{
    match step {
        ChannelStepView::Nothing => {},
        ChannelStepView::Create(desired) => {
            put_then_lookup::<ChannelLogicalId, ChangeView>(plan.changes, name, ChangeView::Create, id);
            put_then_lookup::<ChannelLogicalId, CreateDesiredView>(plan.create_desired, name, desired, id);
        },
        ChannelStepView::Do(change) => {
            put_then_lookup::<ChannelLogicalId, ChangeView>(plan.changes, name, change, id);
        },
    }
}

proof fn others_are_left(
    plan: PlanView,
    i: int,
    definition: DefinitionView,
    state: StateView,
    actual: ActualChannelsView,
    can_manage_roles: bool,
    id: Seq<char>,
)
    requires
        0 <= i <= definition.channels.len(),
        with_declared(plan, definition.channels, i, definition, state, actual, can_manage_roles) is Ok,
        forall|k: int| i <= k < definition.channels.len() ==> (#[trigger] definition.channels[k]).0 != id,
    ensures
        ({
            let after = with_declared(
                plan,
                definition.channels,
                i,
                definition,
                state,
                actual,
                can_manage_roles,
            )->Ok_0;
            &&& lookup(after.changes, id) == lookup(plan.changes, id)
            &&& lookup(after.create_desired, id) == lookup(plan.create_desired, id)
        }),
    decreases definition.channels.len() - i,
{
    if i < definition.channels.len() {
        let (name, channel) = definition.channels[i];
        let step = channel_step(name, channel, definition, state, actual, can_manage_roles)->Ok_0;
        step_is_taken(plan, name, step, id);
        others_are_left(plan.after(name, step), i + 1, definition, state, actual, can_manage_roles, id);
    }
}

proof fn declared_is_handled(
    plan: PlanView,
    i: int,
    definition: DefinitionView,
    state: StateView,
    actual: ActualChannelsView,
    can_manage_roles: bool,
    k: int,
)
    requires
        0 <= i <= k < definition.channels.len(),
        sorted::<ChannelLogicalId, ChannelDefinitionView>(definition.channels),
        with_declared(plan, definition.channels, i, definition, state, actual, can_manage_roles) is Ok,
        lookup(plan.changes, definition.channels[k].0) is None,
        lookup(plan.create_desired, definition.channels[k].0) is None,
    ensures
        ({
            let (id, channel) = definition.channels[k];
            let after = with_declared(
                plan,
                definition.channels,
                i,
                definition,
                state,
                actual,
                can_manage_roles,
            )->Ok_0;
            let step = channel_step(id, channel, definition, state, actual, can_manage_roles);
            &&& step is Ok
            &&& lookup(after.changes, id) == match step->Ok_0 {
                ChannelStepView::Nothing => None,
                ChannelStepView::Create(_) => Some(ChangeView::Create),
                ChannelStepView::Do(change) => Some(change),
            }
            &&& lookup(after.create_desired, id) == match step->Ok_0 {
                ChannelStepView::Create(desired) => Some(desired),
                _ => None,
            }
        }),
    decreases definition.channels.len() - i,
{
    let (name, channel) = definition.channels[i];
    let id = definition.channels[k].0;
    let step = channel_step(name, channel, definition, state, actual, can_manage_roles)->Ok_0;
    let next = plan.after(name, step);
    step_is_taken(plan, name, step, id);
    if i < k {
        sorted_entries::<ChannelLogicalId, ChannelDefinitionView>(definition.channels, i, k);
        ChannelLogicalId::order_is_total(name, id);
        declared_is_handled(next, i + 1, definition, state, actual, can_manage_roles, k);
    } else {
        assert forall|j: int| i + 1 <= j < definition.channels.len() implies (#[trigger] definition.channels[j]).0
            != id by {
            sorted_entries::<ChannelLogicalId, ChannelDefinitionView>(definition.channels, i, j);
            ChannelLogicalId::order_is_total(id, definition.channels[j].0);
        }
        others_are_left(next, i + 1, definition, state, actual, can_manage_roles, id);
    }
}

proof fn undeclared_are_released(
    plan: PlanView,
    bound: MappingsView,
    i: int,
    declared: Seq<(Seq<char>, ChannelDefinitionView)>,
    id: Seq<char>,
)
    requires
        0 <= i <= bound.len(),
        sorted::<ChannelLogicalId, u64>(bound),
    ensures
        ({
            let after = with_released(plan, bound, i, declared);
            &&& after.create_desired == plan.create_desired
            &&& lookup(after.changes, id) == if !has_key(declared, id) && has_key(bound.skip(i), id) {
                Some(ChangeView::Release { discord_id: lookup(bound.skip(i), id)->0 })
            } else {
                lookup(plan.changes, id)
            }
        }),
    decreases bound.len() - i,
{
    if i < bound.len() {
        let rest = bound.skip(i);
        assert(rest[0] == bound[i]);
        assert(rest.drop_first() =~= bound.skip(i + 1));
        if has_key(declared, bound[i].0) {
            undeclared_are_released(plan, bound, i + 1, declared, id);
        } else {
            let release = ChangeView::Release { discord_id: bound[i].1 };
            put_then_lookup::<ChannelLogicalId, ChangeView>(plan.changes, bound[i].0, release, id);
            undeclared_are_released(plan.with(bound[i].0, release), bound, i + 1, declared, id);
            if id == bound[i].0 && has_key(bound.skip(i + 1), id) {
                let k = lookup_has_entry(bound.skip(i + 1), id);
                assert(bound.skip(i + 1)[k] == bound[i + 1 + k]);
                sorted_entries::<ChannelLogicalId, u64>(bound, i, i + 1 + k);
                ChannelLogicalId::order_is_total(bound[i].0, bound[i + 1 + k].0);
            }
        }
    }
}

/// Whether a channel of the guild leaves a category: it is bound, and its declaration
/// deletes it, takes it out of all categories, or puts it into another one.
pub open spec fn leaves(child_id: u64, category: Seq<char>, definition: DefinitionView, state: StateView) -> bool {
    exists|name: Seq<char>|
        #[trigger] lookup(state.channels, name) == Some(child_id) && match lookup(definition.channels, name) {
            Some(ChannelDefinitionView::Absent) => true,
            Some(ChannelDefinitionView::Managed { attributes }) => match attributes.parent {
                Some(ChannelValue::Clear) => true,
                Some(ChannelValue::Value(parent)) => parent != category,
                _ => false,
            },
            _ => false,
        }
}

/// Whether all channels in a category leave it.
pub open spec fn all_leave(
    category_id: u64,
    category: Seq<char>,
    definition: DefinitionView,
    state: StateView,
    catalog: ChannelCatalogView,
) -> bool {
    forall|child_id: u64, child: ChannelSnapshotView| #[trigger]
        lists(catalog, child_id, child) && child.parent_id == Some(category_id) ==> leaves(
            child_id,
            category,
            definition,
            state,
        )
}

proof fn deleted_categories_are_left(
    category: Seq<char>,
    category_id: u64,
    definition: DefinitionView,
    state: StateView,
    catalog: ChannelCatalogView,
)
    requires
        sorted::<ChannelLogicalId, u64>(state.channels),
        category_fault(category, category_id, definition, state, by_id(catalog.channels)) is None,
    ensures
        all_leave(category_id, category, definition, state, catalog),
{
    let actual = by_id(catalog.channels);
    let check = |id: u64, channel: ChannelSnapshotView|
        inside_category_fault(category, category_id, channel, definition, state);
    first_in_none(actual, check);
    assert forall|child_id: u64, child: ChannelSnapshotView| #[trigger]
        lists(catalog, child_id, child) && child.parent_id == Some(category_id) implies leaves(
        child_id,
        category,
        definition,
        state,
    ) by {
        found_channels_are_listed(catalog, child_id);
        if lists_none(catalog, child_id) {
            let k = choose|k: int|
                0 <= k < catalog.channels.len() && (#[trigger] catalog.channels[k]) == child && child.id == child_id
                    && forall|j: int|
                    k < j < catalog.channels.len() ==> (#[trigger] catalog.channels[j]).id != child_id;
            assert(catalog.channels[k].id == child_id);
        }
        let found = lookup(actual, child_id)->0;
        listed_channels_are_one(catalog, child_id, found, child);
        let n = lookup_has_entry(actual, child_id);
        assert(check(actual[n].0, actual[n].1) is None);
        assert(holder(state.channels, child_id) is Some);
        let m = holder_has_entry(state.channels, child_id);
        lookup_in_sorted::<ChannelLogicalId, u64>(state.channels, m);
        assert(lookup(state.channels, state.channels[m].0) == Some(child_id));
    }
}

/// What a plan does with each channel.
///
/// One that is not declared is released where it is bound. One that shall be absent is
/// deleted where it is bound, and then a category is left by all channels in it. One that
/// is only referred to is left alone. One that is managed and not bound is created as it is
/// asked for. One that is managed and bound is there, can be managed, is of the declared
/// kind, and is changed just in what differs from what is asked for. Overwrites are only
/// touched where the bot may manage roles.
pub proof fn plans_do_what_is_declared(
    definition: DefinitionView,
    state: StateView,
    catalog: ChannelCatalogView,
    can_manage_roles: bool,
    id: Seq<char>,
)
    requires
        sorted::<ChannelLogicalId, ChannelDefinitionView>(definition.channels),
        sorted::<ChannelLogicalId, u64>(state.channels),
        overwrites_are_sorted(definition),
        no_target_twice(declared_overwrites(definition, id), state),
        channel_plan(definition, state, catalog, can_manage_roles) is Ok,
    ensures
        ({
            let plan = channel_plan(definition, state, catalog, can_manage_roles)->Ok_0;
            let change = lookup(plan.changes, id);
            let created = lookup(plan.create_desired, id);
            &&& created is Some <==> change == Some(ChangeView::Create)
            &&& match lookup(definition.channels, id) {
                None => match change {
                    None => !has_key(state.channels, id),
                    Some(change) => change is Release && lookup(state.channels, id) == Some(
                        change->Release_discord_id,
                    ),
                },
                Some(ChannelDefinitionView::Absent) => match change {
                    None => !has_key(state.channels, id),
                    Some(change) => change is Delete && lookup(state.channels, id) == Some(change->Delete_discord_id)
                        && forall|channel: ChannelSnapshotView| #[trigger]
                        lists(catalog, change->Delete_discord_id, channel) ==> channel.manageable && (channel.kind
                            == ChannelKind::Category ==> all_leave(
                            change->Delete_discord_id,
                            id,
                            definition,
                            state,
                            catalog,
                        )),
                },
                Some(ChannelDefinitionView::Reference) => change is None && match lookup(state.channels, id) {
                    None => false,
                    Some(discord_id) => !lists_none(catalog, discord_id),
                },
                Some(ChannelDefinitionView::Managed { attributes }) => match lookup(state.channels, id) {
                    None => created is Some && creation_is_asked(created->0, attributes, definition, state, catalog) && (
                    created->0.payload.overwrites.len() > 0 ==> can_manage_roles),
                    Some(discord_id) => created is None && (change is None || (change->0 is Update
                        && change->0->Update_discord_id == discord_id && changes_something(
                        change->0->Update_attributes,
                    ) && (touch_overwrites(change->0->Update_attributes) ==> can_manage_roles)))
                        && exists|actual: ChannelSnapshotView| #[trigger]
                        lists(catalog, discord_id, actual) && actual.manageable && attributes.kind == Some(actual.kind)
                            && changes_lead(
                            if change is None {
                                no_changes()
                            } else {
                                change->0->Update_attributes
                            },
                            actual,
                            attributes,
                            definition,
                            state,
                            catalog,
                        ),
                },
            }
        }),
{
    let none = PlanView::none();
    let actual = by_id(catalog.channels);
    let declared = with_declared(
        none,
        definition.channels,
        0,
        definition,
        state,
        actual,
        can_manage_roles,
    )->Ok_0;
    undeclared_are_released(declared, state.channels, 0, definition.channels, id);
    assert(state.channels.skip(0) =~= state.channels);
    match lookup(definition.channels, id) {
        None => {
            assert forall|k: int| 0 <= k < definition.channels.len() implies (#[trigger] definition.channels[k]).0
                != id by {
                lookup_in_sorted::<ChannelLogicalId, ChannelDefinitionView>(definition.channels, k);
            }
            others_are_left(none, 0, definition, state, actual, can_manage_roles, id);
        },
        Some(channel) => {
            let k = lookup_has_entry(definition.channels, id);
            declared_is_handled(none, 0, definition, state, actual, can_manage_roles, k);
            match channel {
                ChannelDefinitionView::Absent => {
                    if has_key(state.channels, id) {
                        deleted_channels_can_be(definition, state, catalog, id, can_manage_roles);
                    }
                },
                ChannelDefinitionView::Reference => {
                    let discord_id = lookup(state.channels, id)->0;
                    found_channels_are_listed(catalog, discord_id);
                    let found = lookup(actual, discord_id)->0;
                    let n = choose|n: int|
                        0 <= n < catalog.channels.len() && (#[trigger] catalog.channels[n]) == found && found.id
                            == discord_id && forall|j: int|
                            n < j < catalog.channels.len() ==> (#[trigger] catalog.channels[j]).id != discord_id;
                    assert(catalog.channels[n].id == discord_id);
                },
                ChannelDefinitionView::Managed { attributes } => {
                    assert(values_are_sorted(declared_overwrites(definition, id)));
                    if attributes.permissions_sync == Some(true) && attributes.parent is Some
                        && attributes.parent->0 is Value {
                        let parent = attributes.parent->0->Value_0;
                        if is_synchronised(definition, parent) {
                            let n = lookup_has_entry(definition.channels, parent);
                            declared_is_handled(none, 0, definition, state, actual, can_manage_roles, n);
                            assert(false);
                        }
                    }
                    match lookup(state.channels, id) {
                        None => {
                            new_channels_are_as_asked(id, attributes, definition, state, catalog);
                        },
                        Some(discord_id) => {
                            found_channels_are_listed(catalog, discord_id);
                            let current = lookup(actual, discord_id)->0;
                            attribute_changes_lead(
                                id,
                                current,
                                attributes,
                                definition,
                                state,
                                catalog,
                                can_manage_roles,
                            );
                            assert(lists(catalog, discord_id, current));
                        },
                    }
                },
            }
        },
    }
}

proof fn deleted_channels_can_be(
    definition: DefinitionView,
    state: StateView,
    catalog: ChannelCatalogView,
    id: Seq<char>,
    can_manage_roles: bool,
)
    requires
        sorted::<ChannelLogicalId, u64>(state.channels),
        lookup(state.channels, id) is Some,
        channel_step(
            id,
            ChannelDefinitionView::Absent,
            definition,
            state,
            by_id(catalog.channels),
            can_manage_roles,
        ) is Ok,
    ensures
        ({
            let discord_id = lookup(state.channels, id)->0;
            forall|channel: ChannelSnapshotView| #[trigger]
                lists(catalog, discord_id, channel) ==> channel.manageable && (channel.kind == ChannelKind::Category
                    ==> all_leave(discord_id, id, definition, state, catalog))
        }),
{
    let discord_id = lookup(state.channels, id)->0;
    let actual = by_id(catalog.channels);
    found_channels_are_listed(catalog, discord_id);
    assert forall|channel: ChannelSnapshotView| #[trigger] lists(catalog, discord_id, channel) implies channel.manageable
        && (channel.kind == ChannelKind::Category ==> all_leave(discord_id, id, definition, state, catalog)) by {
        if lists_none(catalog, discord_id) {
            let k = choose|k: int|
                0 <= k < catalog.channels.len() && (#[trigger] catalog.channels[k]) == channel && channel.id
                    == discord_id && forall|j: int|
                    k < j < catalog.channels.len() ==> (#[trigger] catalog.channels[j]).id != discord_id;
            assert(catalog.channels[k].id == discord_id);
        }
        let found = lookup(actual, discord_id)->0;
        listed_channels_are_one(catalog, discord_id, found, channel);
        if channel.kind == ChannelKind::Category {
            deleted_categories_are_left(id, discord_id, definition, state, catalog);
        }
    }
}

/// Whether a value is what is asked for, or is the one before where nothing is.
pub open spec fn is_asked<W>(after: W, before: W, asked: Option<W>) -> bool {
    match asked {
        Some(value) => after == value,
        None => after == before,
    }
}

/// Whether a channel has every attribute that is asked for, and keeps all others. A parent
/// is the channel that the later of two states binds its name to.
pub open spec fn is_as_asked(
    after: ChannelSnapshotView,
    before: ChannelSnapshotView,
    attributes: ChannelAttributesView,
    definition: DefinitionView,
    state: StateView,
    later: StateView,
    catalog: ChannelCatalogView,
) -> bool {
    &&& after.id == before.id && after.position == before.position && after.kind == before.kind && after.manageable
        == before.manageable
    &&& is_asked(after.name, before.name, asked(attributes.name, before.name, before.name))
    &&& match attributes.parent {
        Some(ChannelValue::Value(name)) => after.parent_id == match lookup(state.channels, name) {
            Some(parent_id) => Some(parent_id),
            None => lookup(later.channels, name),
        },
        Some(ChannelValue::Clear) => after.parent_id is None,
        _ => after.parent_id == before.parent_id,
    }
    &&& is_asked(after.topic, before.topic, asked_if_any(attributes.topic, None))
    &&& is_asked(after.nsfw, before.nsfw, asked(attributes.nsfw, false, false))
    &&& is_asked(after.slowmode_seconds, before.slowmode_seconds, asked(attributes.slowmode_seconds, 0, 0))
    &&& is_asked(
        after.default_auto_archive_minutes,
        before.default_auto_archive_minutes,
        asked_if_any(attributes.default_auto_archive_minutes, Some(1440)),
    )
    &&& is_asked(
        after.default_thread_slowmode_seconds,
        before.default_thread_slowmode_seconds,
        asked(attributes.default_thread_slowmode_seconds, 0, 0),
    )
    &&& if attributes.permissions_sync == Some(true) {
        are_of_parent(after.overwrites, attributes.parent->0->Value_0, definition, state, catalog)
    } else {
        are_as_declared(after.overwrites, attributes.overwrites, before.overwrites, state)
    }
}

/// The update that a planned change comes to makes the channel what is asked for.
///
/// The channel as the update changes it has every attribute that the definition asks for,
/// with each declared overwrite, and keeps all others.
pub proof fn planned_updates_give_what_is_asked(
    changes: AttributeChangesView,
    actual: ChannelSnapshotView,
    attributes: ChannelAttributesView,
    definition: DefinitionView,
    state: StateView,
    later: StateView,
    catalog: ChannelCatalogView,
)
    requires
        changes_lead(changes, actual, attributes, definition, state, catalog),
        no_target_twice(attributes.overwrites, state),
        changes_are_sorted(changes.overwrites),
        changes.update(actual, later) is Ok,
    ensures
        is_as_asked(
            changes.update(actual, later)->Ok_0.applied_to(actual),
            actual,
            attributes,
            definition,
            state,
            later,
            catalog,
        ),
{
    let after = changes.update(actual, later)->Ok_0.applied_to(actual);
    if attributes.permissions_sync != Some(true) {
        let wanted = attributes.overwrites;
        let made = with_changes(actual.overwrites, changes.overwrites, 0);
        if changes.overwrites.len() == 0 {
            assert(made == actual.overwrites);
        }
        assert(after.overwrites == made);
        assert(changes.overwrites.skip(0) =~= changes.overwrites);
        assert forall|target: ChannelOverwriteTargetView, permission: Seq<char>, k: int| #[trigger]
            names(wanted, k, target, permission, state) && (forall|j: int|
                k < j ==> !#[trigger] names(wanted, j, target, permission, state)) implies given(
            made,
            target,
            permission,
        ) == lookup(wanted[k].1, permission)->0 by {
            with_changes_has(actual.overwrites, changes.overwrites, 0, target, permission);
            given_is_value_in(actual.overwrites, target, permission);
            given_is_value_in(made, target, permission);
            assert(leads(
                change_of(changes.overwrites, target, permission),
                given(actual.overwrites, target, permission),
                lookup(wanted[k].1, permission),
            ));
        }
        assert forall|target: ChannelOverwriteTargetView, permission: Seq<char>|
            (forall|k: int| !#[trigger] names(wanted, k, target, permission, state)) implies #[trigger] given(
            made,
            target,
            permission,
        ) == given(actual.overwrites, target, permission) by {
            with_changes_has(actual.overwrites, changes.overwrites, 0, target, permission);
            given_is_value_in(actual.overwrites, target, permission);
            given_is_value_in(made, target, permission);
            assert(change_of(changes.overwrites, target, permission) is None);
        }
        assert forall|target: ChannelOverwriteTargetView| #[trigger] unknown_bits(made, target) == unknown_bits(
            actual.overwrites,
            target,
        ) by {
            changed_overwrites_keep_unknown(actual.overwrites, changes.overwrites, 0, target);
        }
    }
}

proof fn changed_overwrites_keep_unknown(
    overwrites: ChannelOverwritesView,
    changes: OverwriteChangesView,
    i: int,
    target: ChannelOverwriteTargetView,
)
    requires
        0 <= i <= changes.len(),
    ensures
        unknown_bits(with_changes(overwrites, changes, i), target) == unknown_bits(overwrites, target),
    decreases changes.len() - i,
{
    if i < changes.len() {
        let values = crate::resource::channel::overwrites::desired_values(changes[i].1);
        with_target_keeps_unknown(overwrites, changes[i].0, values, target);
        changed_overwrites_keep_unknown(with_target(overwrites, changes[i].0, values), changes, i + 1, target);
    }
}

} // verus!
