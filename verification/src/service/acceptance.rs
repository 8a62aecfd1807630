//! Which definitions and states are taken for a guild, and which of them plans are made for.

use vstd::prelude::*;

use crate::configuration::acceptance::{all_is_there, definitions_are_accepted_where_all_is_there};
use crate::configuration::channel::{ChannelAttributesView, ChannelDefinitionView, OverwriteTargetView, OverwriteValue};
use crate::configuration::definition::{settings_set_channel, DefinitionView, RawDefinitionView};
use crate::configuration::reading::{all_are_known, known_entries_are_found};
use crate::configuration::role::{RoleAttributesView, RoleDefinitionView};
use crate::configuration::state::{
    entry_has_holder, holder, holder_has_entry, is_injective, sound_states_are_accepted, MappingsView, StateView,
};
use crate::domain::ErrorView;
use crate::ids::everyone;
use crate::ordered::{first_in, first_in_none, has_key, lookup};
use crate::port::RoleCatalogView;
use crate::resource::role::apply::RoleApplyOptions;
use crate::service::apply::started;
use crate::service::plan::{scope_fault, tracked_plan, unknown_fault, unsettled_fault, RolePlanView};
use crate::service::state::{
    deleted_fault, pending_creation_fault, pending_deletion_fault, removed_references_fault, removed_target_fault,
    removed_targets_fault, tracked_input, TrackedView,
};

verus! {

/// Whether bindings can be those of a guild: no object has two names, and the role that every
/// member has, which has the identifier of the guild, is not bound.
pub open spec fn bindings_fit(state: StateView, guild_id: u64) -> bool {
    &&& state.schema_version == 1
    &&& state.guild_id == guild_id
    &&& !has_key(state.roles, everyone())
    &&& forall|k: int| 0 <= k < state.roles.len() ==> (#[trigger] state.roles[k]).1 != guild_id
    &&& objects_differ(state.roles)
    &&& objects_differ(state.channels)
    &&& objects_differ(state.members)
}

/// Whether no object has two names.
pub open spec fn objects_differ(mappings: MappingsView) -> bool {
    forall|i: int, j: int|
        0 <= i < j < mappings.len() ==> (#[trigger] mappings[i]).1 != (#[trigger] mappings[j]).1
}

/// A state is accepted for a guild exactly where its bindings can be those of the guild, and
/// then unchanged.
pub proof fn states_are_accepted_where_they_fit(state: StateView, guild_id: u64)
    ensures
        state.parsed_for_guild(guild_id) is Ok <==> bindings_fit(state, guild_id),
        state.parsed_for_guild(guild_id) is Ok ==> state.parsed_for_guild(guild_id)->Ok_0 == state,
{
    sound_states_are_accepted(state);
    if holder(state.roles, guild_id) is Some {
        let k = holder_has_entry(state.roles, guild_id);
        assert(state.roles[k].1 == guild_id);
    } else {
        assert forall|k: int| 0 <= k < state.roles.len() implies (#[trigger] state.roles[k]).1 != guild_id by {
            entry_has_holder(state.roles, k);
        }
    }
    assert(objects_differ(state.roles) <==> is_injective(state.roles));
    assert(objects_differ(state.channels) <==> is_injective(state.channels));
    assert(objects_differ(state.members) <==> is_injective(state.members));
}

/// Whether what is said of deletions and creations fits the bindings: a role that was deleted
/// or is being deleted is bound, but is not both, and one that is being created is not bound
/// unless it was deleted.
pub open spec fn tracking_fits(state: TrackedView) -> bool {
    &&& forall|k: int|
        0 <= k < state.deleted_roles.len() ==> has_key(state.bindings.roles, (#[trigger] state.deleted_roles[k]).0)
            && !has_key(state.pending_deletions, state.deleted_roles[k].0)
    &&& forall|k: int|
        0 <= k < state.pending_deletions.len() ==> has_key(
            state.bindings.roles,
            (#[trigger] state.pending_deletions[k]).0,
        ) && !has_key(state.deleted_roles, state.pending_deletions[k].0)
    &&& forall|k: int|
        0 <= k < state.pending_creations.len() ==> !has_key(
            state.bindings.roles,
            (#[trigger] state.pending_creations[k]).0,
        ) || has_key(state.deleted_roles, state.pending_creations[k].0)
}

/// A state with what is under way is accepted for a guild exactly where its bindings can be
/// those of the guild and what is under way fits them, and then unchanged.
pub proof fn tracked_states_are_accepted_where_they_fit(state: TrackedView, guild_id: u64)
    ensures
        state.parsed_for_guild(guild_id) is Ok <==> bindings_fit(state.bindings, guild_id) && tracking_fits(state),
        state.parsed_for_guild(guild_id) is Ok ==> state.parsed_for_guild(guild_id)->Ok_0 == state,
{
    let deleted = |id: Seq<char>, _u: ()| deleted_fault(id, state);
    let deletion = |id: Seq<char>, _u: ()| pending_deletion_fault(id, state);
    let creation = |id: Seq<char>, _u: ()| pending_creation_fault(id, state);
    first_in_none(state.deleted_roles, deleted);
    first_in_none(state.pending_deletions, deletion);
    first_in_none(state.pending_creations, creation);
    states_are_accepted_where_they_fit(state.bindings, guild_id);
    sound_states_are_accepted(state.bindings);
    assert forall|k: int| 0 <= k < state.deleted_roles.len() implies (deleted(
        (#[trigger] state.deleted_roles[k]).0,
        state.deleted_roles[k].1,
    ) is None <==> has_key(state.bindings.roles, state.deleted_roles[k].0) && !has_key(
        state.pending_deletions,
        state.deleted_roles[k].0,
    )) by {}
    assert forall|k: int| 0 <= k < state.pending_deletions.len() implies (deletion(
        (#[trigger] state.pending_deletions[k]).0,
        state.pending_deletions[k].1,
    ) is None <==> has_key(state.bindings.roles, state.pending_deletions[k].0) && !has_key(
        state.deleted_roles,
        state.pending_deletions[k].0,
    )) by {}
    assert forall|k: int| 0 <= k < state.pending_creations.len() implies (creation(
        (#[trigger] state.pending_creations[k]).0,
        state.pending_creations[k].1,
    ) is None <==> !has_key(state.bindings.roles, state.pending_creations[k].0) || has_key(
        state.deleted_roles,
        state.pending_creations[k].0,
    )) by {}
}

/// Whether a role that an overwrite is for was deleted, or is being deleted.
pub open spec fn is_removed(target: OverwriteTargetView, state: TrackedView) -> bool {
    match target {
        OverwriteTargetView::Everyone => has_key(state.deleted_roles, everyone()) || has_key(
            state.pending_deletions,
            everyone(),
        ),
        OverwriteTargetView::Role(id) => has_key(state.deleted_roles, id) || has_key(state.pending_deletions, id),
        OverwriteTargetView::Member(_) => false,
    }
}

/// Whether no overwrite is for a role that was deleted, or is being deleted.
pub open spec fn overwrites_nothing_removed(attributes: ChannelAttributesView, state: TrackedView) -> bool {
    forall|k: int| 0 <= k < attributes.overwrites.len() ==> !is_removed((#[trigger] attributes.overwrites[k]).0, state)
}

proof fn kept_targets_are_accepted(channel: Seq<char>, attributes: ChannelAttributesView, state: TrackedView)
    ensures
        removed_targets_fault(channel, attributes, state) is None <==> overwrites_nothing_removed(attributes, state),
{
    let check = |target: OverwriteTargetView, _v: Seq<(Seq<char>, OverwriteValue)>|
        removed_target_fault(channel, target, state);
    first_in_none(attributes.overwrites, check);
    assert forall|k: int| 0 <= k < attributes.overwrites.len() implies (check(
        (#[trigger] attributes.overwrites[k]).0,
        attributes.overwrites[k].1,
    ) is None <==> !is_removed(attributes.overwrites[k].0, state)) by {}
}

proof fn kept_references_are_accepted(definition: DefinitionView, state: TrackedView)
    ensures
        removed_references_fault(definition, state) is None <==> {
            &&& forall|k: int|
                0 <= k < definition.channels.len() ==> match (#[trigger] definition.channels[k]).1 {
                    ChannelDefinitionView::Managed { attributes } => overwrites_nothing_removed(attributes, state),
                    _ => true,
                }
            &&& forall|k: int|
                0 <= k < definition.settings_sets.channel.len() ==> overwrites_nothing_removed(
                    (#[trigger] definition.settings_sets.channel[k]).1,
                    state,
                )
        },
{
    let in_channel = |id: Seq<char>, channel: ChannelDefinitionView|
        removed_targets_fault(id, channel.attributes(), state);
    let in_set = |name: Seq<char>, attributes: ChannelAttributesView|
        removed_targets_fault(settings_set_channel(name), attributes, state);
    first_in_none(definition.channels, in_channel);
    first_in_none(definition.settings_sets.channel, in_set);
    assert forall|k: int| 0 <= k < definition.channels.len() implies (in_channel(
        (#[trigger] definition.channels[k]).0,
        definition.channels[k].1,
    ) is None <==> match definition.channels[k].1 {
        ChannelDefinitionView::Managed { attributes } => overwrites_nothing_removed(attributes, state),
        _ => true,
    }) by {
        kept_targets_are_accepted(definition.channels[k].0, definition.channels[k].1.attributes(), state);
    }
    assert forall|k: int| 0 <= k < definition.settings_sets.channel.len() implies (in_set(
        (#[trigger] definition.settings_sets.channel[k]).0,
        definition.settings_sets.channel[k].1,
    ) is None <==> overwrites_nothing_removed(definition.settings_sets.channel[k].1, state)) by {
        kept_targets_are_accepted(
            settings_set_channel(definition.settings_sets.channel[k].0),
            definition.settings_sets.channel[k].1,
            state,
        );
    }
}

/// A definition and a state are taken for a guild exactly where the definition is read, the
/// state fits the guild, all that the definition refers to is there, and no channel or
/// settings set overwrites permissions of a role that was deleted or is being deleted.
pub proof fn input_is_taken_where_it_fits(
    raw: RawDefinitionView,
    state: TrackedView,
    guild_id: u64,
    known: Seq<(Seq<char>, ())>,
)
    ensures
        ({
            let result = tracked_input(raw, state, guild_id, known);
            let definition = raw.parsed(known);
            &&& result is Ok <==> {
                &&& definition is Ok
                &&& bindings_fit(state.bindings, guild_id) && tracking_fits(state)
                &&& all_is_there(definition->Ok_0, state.bindings)
                &&& forall|k: int|
                    0 <= k < definition->Ok_0.channels.len() ==> match (#[trigger] definition->Ok_0.channels[k]).1 {
                        ChannelDefinitionView::Managed { attributes } => overwrites_nothing_removed(attributes, state),
                        _ => true,
                    }
                &&& forall|k: int|
                    0 <= k < definition->Ok_0.settings_sets.channel.len() ==> overwrites_nothing_removed(
                        (#[trigger] definition->Ok_0.settings_sets.channel[k]).1,
                        state,
                    )
            }
            &&& result is Ok ==> result->Ok_0 == (definition->Ok_0, state)
        }),
{
    tracked_states_are_accepted_where_they_fit(state, guild_id);
    if raw.parsed(known) is Ok {
        definitions_are_accepted_where_all_is_there(raw.parsed(known)->Ok_0, state.bindings);
        kept_references_are_accepted(raw.parsed(known)->Ok_0, state);
    }
}

/// No plan is made while a creation is under way, or a deletion of a role that shall not be
/// absent any more, nor for permissions that the guild does not know.
pub proof fn plans_wait_for_what_is_under_way(
    definition: DefinitionView,
    state: TrackedView,
    catalog: RoleCatalogView,
)
    requires
        tracked_plan(definition, state, catalog) is Ok,
    ensures
        state.pending_creations.len() == 0,
        forall|k: int|
            0 <= k < state.pending_deletions.len() ==> lookup(
                definition.roles,
                (#[trigger] state.pending_deletions[k]).0,
            ) == Some(RoleDefinitionView::Absent),
        forall|k: int|
            0 <= k < definition.settings_sets.role.len() ==> all_are_known(
                (#[trigger] definition.settings_sets.role[k]).1.permissions,
                catalog.permission_names,
            ),
        forall|k: int|
            0 <= k < definition.roles.len() ==> match (#[trigger] definition.roles[k]).1 {
                RoleDefinitionView::Managed { attributes, .. } => all_are_known(
                    attributes.permissions,
                    catalog.permission_names,
                ),
                _ => true,
            },
{
    let known = catalog.permission_names;
    let in_set = |name: Seq<char>, attributes: RoleAttributesView|
        unknown_fault("Role 設定セット "@ + name, attributes, known);
    let in_role = |id: Seq<char>, role: RoleDefinitionView| unknown_fault("Role "@ + id, role.attributes(), known);
    let under_way = |id: Seq<char>, _u: ()| unsettled_fault(id, definition.roles);
    first_in_none(definition.settings_sets.role, in_set);
    first_in_none(definition.roles, in_role);
    first_in_none(state.pending_deletions, under_way);
    assert forall|k: int| 0 <= k < state.pending_deletions.len() implies lookup(
        definition.roles,
        (#[trigger] state.pending_deletions[k]).0,
    ) == Some(RoleDefinitionView::Absent) by {
        assert(under_way(state.pending_deletions[k].0, state.pending_deletions[k].1) is None);
    }
    assert forall|k: int| 0 <= k < definition.settings_sets.role.len() implies all_are_known(
        (#[trigger] definition.settings_sets.role[k]).1.permissions,
        known,
    ) by {
        assert(in_set(definition.settings_sets.role[k].0, definition.settings_sets.role[k].1) is None);
        known_entries_are_found(definition.settings_sets.role[k].1.permissions, known);
    }
    assert forall|k: int| 0 <= k < definition.roles.len() implies match (#[trigger] definition.roles[k]).1 {
        RoleDefinitionView::Managed { attributes, .. } => all_are_known(attributes.permissions, known),
        _ => true,
    } by {
        assert(in_role(definition.roles[k].0, definition.roles[k].1) is None);
        known_entries_are_found(definition.roles[k].1.attributes().permissions, known);
    }
}

/// A definition is in the scope of plans of roles exactly where it only refers to channels.
pub proof fn roles_are_planned_beside_references(definition: DefinitionView)
    ensures
        first_in(
            definition.channels,
            |id: Seq<char>, channel: ChannelDefinitionView| scope_fault(id, channel),
        ) is None <==> forall|k: int|
            0 <= k < definition.channels.len() ==> (#[trigger] definition.channels[k]).1 is Reference,
{
    let check = |id: Seq<char>, channel: ChannelDefinitionView| scope_fault(id, channel);
    first_in_none(definition.channels, check);
    assert forall|k: int| 0 <= k < definition.channels.len() implies (check(
        (#[trigger] definition.channels[k]).0,
        definition.channels[k].1,
    ) is None <==> definition.channels[k].1 is Reference) by {}
}

/// An application starts exactly where the guild was free, time is left and the definition was
/// read. It starts with all of the plan before it and nothing done, and one that does not
/// start leaves all of the plan, too.
pub proof fn applications_start_with_all_before_them(
    state: TrackedView,
    definition: Result<DefinitionView, ErrorView>,
    plan: RolePlanView,
    lifecycle: Option<RoleApplyOptions>,
    acquired: bool,
    now: u64,
    deadline: u64,
)
    ensures
        ({
            let start = started(state, definition, plan, lifecycle, acquired, now, deadline);
            &&& start is Ok && start->Ok_0 is Started <==> acquired && now < deadline && definition is Ok
            &&& start is Err <==> acquired && now < deadline && definition is Err
            &&& start is Err ==> start->Err_0 == definition->Err_0
            &&& start is Ok && start->Ok_0 is Started ==> {
                let session = start->Ok_0->Started_0;
                &&& session.pending == plan
                &&& session.applied.changes.len() == 0 && session.applied.lifecycle.len() == 0
                &&& session.definition == definition->Ok_0
                &&& session.state == state
                &&& session.lifecycle == lifecycle
                &&& session.deadline == deadline
                &&& session.done == 0
            }
            &&& start is Ok && start->Ok_0 is Finished ==> {
                let result = start->Ok_0->Finished_0;
                &&& result.pending == plan
                &&& result.applied.changes.len() == 0 && result.applied.lifecycle.len() == 0
                &&& result.status is GuildBusy <==> !acquired
                &&& result.status is DeadlineExceeded <==> acquired
            }
        }),
{
}

} // verus!
