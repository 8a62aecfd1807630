//! For which channels a plan can be made.

use vstd::prelude::*;

use crate::configuration::channel::{
    ChannelAttributesView, ChannelDefinitionView, ChannelKind, ChannelValue, OverwriteTargetView, OverwriteValue,
    OverwritesView,
};
use crate::configuration::definition::DefinitionView;
use crate::configuration::reading::fit_their_kind;
use crate::configuration::state::{holder, holder_has_entry, is_injective, StateView};
use crate::export::laws::bound_is_held;
use crate::ids::{everyone, ChannelLogicalId};
use crate::ordered::{first_in_none, has_key, lookup, lookup_has_entry, lookup_in_sorted, put, sorted};
use crate::port::{ChannelCatalogView, ChannelOverwritesView, ChannelOverwriteTarget, ChannelSnapshotView};
use crate::resource::change::ValueChange;
use crate::resource::channel::effects::leaves;
use crate::resource::channel::order::channel_order_plan;
use crate::resource::channel::overwrites::{
    by_id, desired_overwrites, overwrite_changes, permissions_for, present_overwrites, resolved_target, value_changes, with_definition,
    with_target, ActualChannelsView, OverwriteChangesView,
};
use crate::resource::channel::plan::{
    category_child_fault, category_fault, channel_plan, channel_step, inside_category_fault, with_declared, PlanView,
};

verus! {

/// Whether it is known for whom an overwrite is: a role or a member that is bound.
pub open spec fn target_is_known(target: OverwriteTargetView, state: StateView) -> bool {
    match target {
        OverwriteTargetView::Everyone => true,
        OverwriteTargetView::Role(role) => role == everyone() || has_key(state.roles, role),
        OverwriteTargetView::Member(member) => has_key(state.members, member),
    }
}

/// Whether it is known for whom each overwrite is.
pub open spec fn targets_are_known(overwrites: OverwritesView, state: StateView) -> bool {
    forall|k: int| 0 <= k < overwrites.len() ==> target_is_known((#[trigger] overwrites[k]).0, state)
}

/// Whether a channel is bound to a category that is there.
pub open spec fn is_there_as_category(parent: Seq<char>, state: StateView, actual: ActualChannelsView) -> bool {
    match lookup(state.channels, parent) {
        None => false,
        Some(parent_id) => has_key(actual, parent_id) && lookup(actual, parent_id)->0.kind == ChannelKind::Category,
    }
}

/// Whether a channel can be under a parent: one that is declared as a category and not there
/// yet, or one that is bound to a category and stays.
pub open spec fn can_be_under(
    parent: Seq<char>,
    definition: DefinitionView,
    state: StateView,
    actual: ActualChannelsView,
) -> bool {
    match lookup(definition.channels, parent) {
        Some(ChannelDefinitionView::Reference) => is_there_as_category(parent, state, actual),
        Some(ChannelDefinitionView::Managed { attributes }) => if has_key(state.channels, parent) {
            attributes.kind is Some && attributes.kind != Some(ChannelKind::Text) && is_there_as_category(
                parent,
                state,
                actual,
            )
        } else {
            attributes.kind == Some(ChannelKind::Category)
        },
        _ => false,
    }
}

/// Whether what is asked of a channel can be: its attributes fit its kind, the parent can be
/// one, its name is not taken away and its mark for adults is not, either.
pub open spec fn can_be_asked(
    attributes: ChannelAttributesView,
    definition: DefinitionView,
    state: StateView,
    actual: ActualChannelsView,
) -> bool {
    &&& attributes.kind is Some
    &&& fit_their_kind(attributes)
    &&& attributes.parent is Some ==> match attributes.parent->0 {
        ChannelValue::Value(parent) => can_be_under(parent, definition, state, actual),
        ChannelValue::Clear => true,
        ChannelValue::Default => false,
    }
    &&& attributes.name is Some ==> attributes.name->0 is Value
    &&& attributes.nsfw is Some ==> !(attributes.nsfw->0 is Clear)
}

/// Whether a declared channel can be planned by a bot that may manage roles. One that shall be
/// absent can be deleted, if it is there, and is left by all channels in it. One that is only
/// referred to is bound and there. One that is managed can be what is asked for, and has a name
/// to be created with or is there, of its kind, and can be managed.
pub open spec fn can_be_planned(
    id: Seq<char>,
    channel: ChannelDefinitionView,
    definition: DefinitionView,
    state: StateView,
    actual: ActualChannelsView,
) -> bool {
    match (channel, lookup(state.channels, id)) {
        (ChannelDefinitionView::Absent, None) => true,
        (ChannelDefinitionView::Absent, Some(discord_id)) => has_key(actual, discord_id) ==> {
            let current = lookup(actual, discord_id)->0;
            &&& current.manageable
            &&& current.kind == ChannelKind::Category ==> forall|k: int|
                0 <= k < actual.len() && (#[trigger] actual[k]).1.parent_id == Some(discord_id) ==> leaves(
                    actual[k].1.id,
                    id,
                    definition,
                    state,
                )
        },
        (ChannelDefinitionView::Reference, None) => false,
        (ChannelDefinitionView::Reference, Some(discord_id)) => has_key(actual, discord_id),
        (ChannelDefinitionView::Managed { attributes }, None) => {
            &&& can_be_asked(attributes, definition, state, actual)
            &&& attributes.name is Some
            &&& if attributes.permissions_sync == Some(true) {
                desired_overwrites(id, definition, state, actual, Seq::empty()) is Ok
            } else {
                targets_are_known(attributes.overwrites, state)
            }
        },
        (ChannelDefinitionView::Managed { attributes }, Some(discord_id)) => {
            &&& can_be_asked(attributes, definition, state, actual)
            &&& has_key(actual, discord_id)
            &&& attributes.kind == Some(lookup(actual, discord_id)->0.kind)
            &&& lookup(actual, discord_id)->0.manageable
            &&& if attributes.permissions_sync == Some(true) {
                attributes.parent is Some && attributes.parent->0 is Value && desired_overwrites(
                    attributes.parent->0->Value_0,
                    definition,
                    state,
                    actual,
                    Seq::empty(),
                ) is Ok
            } else {
                targets_are_known(attributes.overwrites, state)
            }
        },
    }
}

proof fn known_targets_are_resolved(id: Seq<char>, target: OverwriteTargetView, state: StateView)
    ensures
        resolved_target(target, id, state) is Ok <==> target_is_known(target, state),
{
}

proof fn known_targets_are_taken(
    id: Seq<char>,
    wanted: OverwritesView,
    i: int,
    state: StateView,
    overwrites: ChannelOverwritesView,
)
    requires
        0 <= i <= wanted.len(),
    ensures
        with_definition(id, wanted, i, state, overwrites) is Ok <==> forall|k: int|
            i <= k < wanted.len() ==> target_is_known((#[trigger] wanted[k]).0, state),
    decreases wanted.len() - i,
{
    if i < wanted.len() {
        known_targets_are_resolved(id, wanted[i].0, state);
        if let Ok(target) = resolved_target(wanted[i].0, id, state) {
            known_targets_are_taken(id, wanted, i + 1, state, with_target(overwrites, target, wanted[i].1));
        }
    }
}

proof fn known_targets_are_compared(
    id: Seq<char>,
    wanted: OverwritesView,
    i: int,
    actual: ChannelOverwritesView,
    state: StateView,
    changes: OverwriteChangesView,
)
    requires
        0 <= i <= wanted.len(),
    ensures
        overwrite_changes(id, wanted, i, actual, state, changes) is Ok <==> forall|k: int|
            i <= k < wanted.len() ==> target_is_known((#[trigger] wanted[k]).0, state),
    decreases wanted.len() - i,
{
    if i < wanted.len() {
        known_targets_are_resolved(id, wanted[i].0, state);
        if let Ok(target) = resolved_target(wanted[i].0, id, state) {
            let of_target = value_changes(wanted[i].1, 0, permissions_for(actual, target).known, Seq::empty());
            let next = if of_target.len() == 0 {
                changes
            } else {
                put::<ChannelOverwriteTarget, Seq<(Seq<char>, ValueChange<OverwriteValue>)>>(changes, target, of_target)
            };
            known_targets_are_compared(id, wanted, i + 1, actual, state, next);
        }
    }
}

proof fn children_leave(
    category: Seq<char>,
    category_id: u64,
    definition: DefinitionView,
    state: StateView,
    actual: ActualChannelsView,
)
    requires
        sorted::<ChannelLogicalId, u64>(state.channels),
        is_injective(state.channels),
    ensures
        category_fault(category, category_id, definition, state, actual) is None <==> forall|k: int|
            0 <= k < actual.len() && (#[trigger] actual[k]).1.parent_id == Some(category_id) ==> leaves(
                actual[k].1.id,
                category,
                definition,
                state,
            ),
{
    let check = |id: u64, channel: ChannelSnapshotView|
        inside_category_fault(category, category_id, channel, definition, state);
    first_in_none(actual, check);
    assert forall|k: int| 0 <= k < actual.len() implies (check((#[trigger] actual[k]).0, actual[k].1) is None <==> (
    actual[k].1.parent_id == Some(category_id) ==> leaves(actual[k].1.id, category, definition, state))) by {
        let child_id = actual[k].1.id;
        if holder(state.channels, child_id) is Some {
            let m = holder_has_entry(state.channels, child_id);
            lookup_in_sorted::<ChannelLogicalId, u64>(state.channels, m);
            assert(lookup(state.channels, state.channels[m].0) == Some(child_id));
        }
        if leaves(child_id, category, definition, state) {
            let name = choose|name: Seq<char>|
                #[trigger] lookup(state.channels, name) == Some(child_id) && match lookup(definition.channels, name) {
                    Some(ChannelDefinitionView::Absent) => true,
                    Some(ChannelDefinitionView::Managed { attributes }) => match attributes.parent {
                        Some(ChannelValue::Clear) => true,
                        Some(ChannelValue::Value(parent)) => parent != category,
                        _ => false,
                    },
                    _ => false,
                };
            bound_is_held(state.channels, name, child_id);
        }
        assert(category_child_fault(category, child_id, definition, state) is None <==> leaves(
            child_id,
            category,
            definition,
            state,
        ));
    }
}

proof fn one_channel_can_be_planned(
    id: Seq<char>,
    channel: ChannelDefinitionView,
    definition: DefinitionView,
    state: StateView,
    actual: ActualChannelsView,
)
    requires
        sorted::<ChannelLogicalId, u64>(state.channels),
        is_injective(state.channels),
    ensures
        channel_step(id, channel, definition, state, actual, true) is Ok <==> can_be_planned(
            id,
            channel,
            definition,
            state,
            actual,
        ),
        channel_step(id, channel, definition, state, actual, false) is Ok ==> channel_step(
            id,
            channel,
            definition,
            state,
            actual,
            false,
        ) == channel_step(id, channel, definition, state, actual, true),
{
    match channel {
        ChannelDefinitionView::Absent => {
            if let Some(discord_id) = lookup(state.channels, id) {
                children_leave(id, discord_id, definition, state, actual);
            }
        },
        ChannelDefinitionView::Reference => {},
        ChannelDefinitionView::Managed { attributes } => {
            known_targets_are_taken(id, attributes.overwrites, 0, state, Seq::empty());
            match attributes.kind {
                Some(ChannelKind::Category) => {},
                Some(ChannelKind::Text) => {},
                _ => {},
            }
            match attributes.nsfw {
                Some(ChannelValue::Clear) => {},
                Some(ChannelValue::Default) => {},
                _ => {},
            }
            match attributes.name {
                Some(ChannelValue::Value(name)) => {},
                _ => {},
            }
            if let Some(discord_id) = lookup(state.channels, id) {
                if let Some(current) = lookup(actual, discord_id) {
                    known_targets_are_compared(
                        id,
                        attributes.overwrites,
                        0,
                        current.overwrites,
                        state,
                        Seq::empty(),
                    );
                }
            }
        },
    }
}

proof fn all_can_be_planned(
    plan: PlanView,
    channels: Seq<(Seq<char>, ChannelDefinitionView)>,
    i: int,
    definition: DefinitionView,
    state: StateView,
    actual: ActualChannelsView,
)
    requires
        0 <= i <= channels.len(),
        sorted::<ChannelLogicalId, u64>(state.channels),
        is_injective(state.channels),
    ensures
        with_declared(plan, channels, i, definition, state, actual, true) is Ok <==> forall|k: int|
            i <= k < channels.len() ==> can_be_planned(
                (#[trigger] channels[k]).0,
                channels[k].1,
                definition,
                state,
                actual,
            ),
        with_declared(plan, channels, i, definition, state, actual, false) is Ok ==> with_declared(
            plan,
            channels,
            i,
            definition,
            state,
            actual,
            false,
        ) == with_declared(plan, channels, i, definition, state, actual, true),
    decreases channels.len() - i,
{
    if i < channels.len() {
        one_channel_can_be_planned(channels[i].0, channels[i].1, definition, state, actual);
        let step = channel_step(channels[i].0, channels[i].1, definition, state, actual, true);
        if step is Ok {
            all_can_be_planned(plan.after(channels[i].0, step->Ok_0), channels, i + 1, definition, state, actual);
        }
    }
}

/// A bot that may manage roles makes a plan exactly where each declared channel can be planned,
/// and the order of channels, too. One that may not makes the same plan, or none.
pub proof fn channels_are_planned_where_they_can_be(
    definition: DefinitionView,
    state: StateView,
    catalog: ChannelCatalogView,
)
    requires
        sorted::<ChannelLogicalId, u64>(state.channels),
        is_injective(state.channels),
    ensures
        channel_plan(definition, state, catalog, true) is Ok <==> {
            &&& forall|k: int|
                0 <= k < definition.channels.len() ==> can_be_planned(
                    (#[trigger] definition.channels[k]).0,
                    definition.channels[k].1,
                    definition,
                    state,
                    by_id(catalog.channels),
                )
            &&& channel_order_plan(definition, state, catalog) is Ok
        },
        channel_plan(definition, state, catalog, false) is Ok ==> channel_plan(definition, state, catalog, false)
            == channel_plan(definition, state, catalog, true),
        definition.order is None ==> channel_order_plan(definition, state, catalog) is Ok,
{
    all_can_be_planned(PlanView::none(), definition.channels, 0, definition, state, by_id(catalog.channels));
}

/// The attributes that a channel is declared with, none where it is only referred to.
pub open spec fn asked_of(channel: ChannelDefinitionView) -> ChannelAttributesView {
    match channel {
        ChannelDefinitionView::Managed { attributes } => attributes,
        _ => ChannelAttributesView::none(),
    }
}

/// The overwrites that a channel shall have are known where it stays and it is known for whom
/// each of them is; for a channel that takes over those of its parent, where that holds of the
/// parent, which is another channel.
pub proof fn overwrites_are_known_where_targets_are(
    id: Seq<char>,
    definition: DefinitionView,
    state: StateView,
    actual: ActualChannelsView,
)
    ensures
        ({
            let result = desired_overwrites(id, definition, state, actual, Seq::empty());
            let channel = lookup(definition.channels, id);
            let asked = asked_of(channel->0);
            &&& result is Ok ==> channel is Some && !(channel->0 is Absent)
            &&& channel is Some && !(channel->0 is Absent) && asked.permissions_sync != Some(true) ==> (result is Ok
                <==> targets_are_known(asked.overwrites, state))
            &&& channel is Some && !(channel->0 is Absent) && asked.permissions_sync == Some(true) ==> {
                &&& result is Ok ==> asked.parent is Some && asked.parent->0 is Value
                &&& asked.parent is Some && asked.parent->0 is Value ==> {
                    let parent = asked.parent->0->Value_0;
                    let above = lookup(definition.channels, parent);
                    &&& result is Ok ==> parent != id && above is Some && !(above->0 is Absent)
                    &&& parent != id && above is Some && !(above->0 is Absent) && asked_of(above->0).permissions_sync
                        != Some(true) ==> (result is Ok <==> targets_are_known(asked_of(above->0).overwrites, state))
                }
            }
        }),
{
    let none = Seq::<Seq<char>>::empty();
    let channel = lookup(definition.channels, id);
    reveal_with_fuel(desired_overwrites, 3);
    assert(!none.contains(id));
    assert(none.push(id)[0] == id);
    assert(none.push(id).contains(id));
    if channel is Some {
        lookup_has_entry(definition.channels, id);
        let asked = asked_of(channel->0);
        known_targets_are_taken(id, asked.overwrites, 0, state, present_overwrites(id, state, actual));
        if asked.parent is Some && asked.parent->0 is Value {
            let parent = asked.parent->0->Value_0;
            let above = lookup(definition.channels, parent);
            if parent != id {
                assert(!none.push(id).contains(parent));
            }
            if above is Some {
                known_targets_are_taken(
                    parent,
                    asked_of(above->0).overwrites,
                    0,
                    state,
                    present_overwrites(parent, state, actual),
                );
            }
        }
    }
}

} // verus!
