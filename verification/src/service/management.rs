//! Exporting, planning and applying roles, given what their source said.

use vstd::prelude::*;

use crate::configuration::definition::{
    DefinitionFile, RawDefinitionFile, RawDefinitionView, RawOrderDefinition, RawSettingsSets,
};
use crate::configuration::role::{RawRoleDefinition, RawRoleDefinitionView};
use crate::configuration::state::{serialize_state, MappingsView, StateFile, StateView};
use crate::domain::{ErrorView, ManagementError, SCHEMA_VERSION};
use crate::export::role::{
    describe_role, described_role, export_files, name_role, role_definition, role_name, DescribedRoles,
    DescribedRolesView, ExportFiles,
};
use crate::ids::{everyone, everyone_logical_id, GuildId, RoleId, RoleLogicalId};
use crate::ordered::{lookup, put, OrderedMap};
use crate::port::{RoleCatalog, RoleCatalogView, RoleSnapshot, RoleSnapshotView};
use crate::resource::role::apply::RoleApplyOptions;
use crate::service::apply::{prepare_apply, started, RoleApplyStart};
use crate::service::plan::{build_plan, tracked_plan, RolePlan};
use crate::service::state::{TrackedInput, TrackedState, TrackedView};
use crate::text::{decimal, text7};
use crate::value::{seen, Plain};

verus! {

/// Written roles with one more that describes a role of the guild. Roles that the
/// bot cannot manage are left out.
pub open spec fn with_managed_role(
    described: DescribedRolesView,
    role: RoleSnapshotView,
    guild_id: u64,
    previous: MappingsView,
) -> Result<DescribedRolesView, ErrorView> {
    if !role.manageable {
        Ok(described)
    } else if role.id == guild_id {
        Ok(
            DescribedRolesView {
                definitions: put::<RoleLogicalId, RawRoleDefinitionView>(
                    described.definitions,
                    everyone(),
                    described_role(role, true),
                ),
                mappings: described.mappings,
            },
        )
    } else {
        match role_name(role.id, previous) {
            Err(error) => Err(error),
            Ok(name) => match lookup(described.mappings, name) {
                Some(bound) => Err(
                    ErrorView::InvalidState(
                        "論理 ID "@ + name + " が Role "@ + decimal(bound as nat) + " と "@ + decimal(
                            role.id as nat,
                        ) + " で衝突しています"@,
                    ),
                ),
                None => Ok(
                    DescribedRolesView {
                        definitions: put::<RoleLogicalId, RawRoleDefinitionView>(
                            described.definitions,
                            name,
                            described_role(role, false),
                        ),
                        mappings: put::<RoleLogicalId, u64>(described.mappings, name, role.id),
                    },
                ),
            },
        }
    }
}

/// Written roles with those that describe the roles of a guild from a place on.
pub open spec fn with_managed_roles(
    described: DescribedRolesView,
    roles: Seq<RoleSnapshotView>,
    i: int,
    guild_id: u64,
    previous: MappingsView,
) -> Result<DescribedRolesView, ErrorView>
    decreases roles.len() - i,
{
    if i < 0 || i >= roles.len() {
        Ok(described)
    } else {
        match with_managed_role(described, roles[i], guild_id, previous) {
            Err(error) => Err(error),
            Ok(described) => with_managed_roles(described, roles, i + 1, guild_id, previous),
        }
    }
}

/// The bindings of roles in an earlier state.
pub open spec fn earlier_roles(previous: Option<TrackedView>) -> MappingsView {
    match previous {
        Some(state) => state.bindings.roles,
        None => Seq::empty(),
    }
}

/// The definition and the state that describe the roles of a guild that the bot can
/// manage, or why there are none.
pub open spec fn exported_managed_roles(
    catalog: RoleCatalogView,
    guild_id: u64,
    previous: Option<TrackedView>,
) -> Result<(RawDefinitionView, StateView), ErrorView> {
    let none = DescribedRolesView { definitions: Seq::empty(), mappings: Seq::empty() };
    match with_managed_roles(none, catalog.roles, 0, guild_id, earlier_roles(previous)) {
        Err(error) => Err(error),
        Ok(described) => Ok(
            (
                role_definition(described.definitions, Seq::empty()),
                StateView {
                    schema_version: SCHEMA_VERSION,
                    guild_id,
                    roles: described.mappings,
                    channels: Seq::empty(),
                    members: Seq::empty(),
                },
            ),
        ),
    }
}

fn add_managed_role(
    described: DescribedRoles,
    role: &RoleSnapshot,
    guild_id: GuildId,
    previous: &OrderedMap<RoleLogicalId, RoleId>,
) -> (result: Result<DescribedRoles, ManagementError>)
    ensures
        seen(result) == with_managed_role(
            described.deep_view(),
            role.deep_view(),
            guild_id.deep_view(),
            previous.deep_view(),
        ),
{
    if !role.manageable {
        return Ok(described);
    }
    let mut definitions: OrderedMap<RoleLogicalId, RawRoleDefinition> = described.definitions;
    let mut mappings: OrderedMap<RoleLogicalId, RoleId> = described.mappings;
    if role.id.get() == guild_id.get() {
        definitions.insert(everyone_logical_id(), describe_role(role, true));
        return Ok(DescribedRoles { definitions, mappings });
    }
    let name: RoleLogicalId = name_role(role.id, previous)?;
    match mappings.get(&name) {
        None => {},
        Some(bound) => {
            return Err(
                ManagementError::InvalidState(
                    text7(
                        "論理 ID ",
                        name.as_str(),
                        " が Role ",
                        bound.to_text().as_str(),
                        " と ",
                        role.id.to_text().as_str(),
                        " で衝突しています",
                    ),
                ),
            );
        },
    }
    mappings.insert(name.copy(), role.id);
    definitions.insert(name, describe_role(role, false));
    Ok(DescribedRoles { definitions, mappings })
}

/// Manages the roles that a source knows of.
pub struct RoleManagementService<S> {
    pub source: S,
}

impl<S> RoleManagementService<S> {
    /// Manages the roles of a source.
    pub fn new(source: S) -> (service: Self)
        ensures
            service.source == source,
    {
        RoleManagementService { source }
    }

    /// The definition and the state that describe the roles of a guild, given what
    /// roles it has. Names of an earlier state are kept.
    #[verifier::loop_isolation(false)]
    pub fn export_roles(&self, guild_id: GuildId, previous_state: Option<&TrackedState>, catalog: &RoleCatalog) -> (result:
        Result<ExportFiles, ManagementError>)
        ensures
            seen(result) == export_files(
                exported_managed_roles(
                    catalog.deep_view(),
                    guild_id.deep_view(),
                    previous_state.deep_view(),
                ),
            ),
    {
        let previous: OrderedMap<RoleLogicalId, RoleId> = match previous_state {
            Some(state) => state.bindings.roles.copy(),
            None => OrderedMap::new(),
        };
        let ghost all = catalog.deep_view().roles;
        let ghost guild = guild_id.deep_view();
        let ghost none = DescribedRolesView { definitions: Seq::empty(), mappings: Seq::empty() };
        let mut described = DescribedRoles { definitions: OrderedMap::new(), mappings: OrderedMap::new() };
        let mut i: usize = 0;
        while i < catalog.roles.len()
            invariant
                i <= all.len(),
                with_managed_roles(none, all, 0, guild, previous.deep_view()) == with_managed_roles(
                    described.deep_view(),
                    all,
                    i as int,
                    guild,
                    previous.deep_view(),
                ),
            decreases all.len() - i,
        {
            assert(all[i as int] == catalog.roles@[i as int].deep_view());
            described = add_managed_role(described, &catalog.roles[i], guild_id, &previous)?;
            i += 1;
        }
        let order: Option<RawOrderDefinition> = None;
        let definition = RawDefinitionFile {
            schema_version: SCHEMA_VERSION,
            settings_sets: RawSettingsSets { role: OrderedMap::new(), channel: OrderedMap::new() },
            roles: described.definitions,
            channels: OrderedMap::new(),
            members: OrderedMap::new(),
            message_sets: OrderedMap::new(),
            threads: OrderedMap::new(),
            order,
        };
        let state = StateFile {
            schema_version: SCHEMA_VERSION,
            guild_id,
            roles: described.mappings,
            channels: OrderedMap::new(),
            members: OrderedMap::new(),
        };
        let state_json: String = serialize_state(&state)?;
        Ok(ExportFiles { definition, state, state_json })
    }

    /// The plan that a definition and a state ask for, given what roles there are.
    pub fn plan_roles(&self, input: &TrackedInput, catalog: &RoleCatalog) -> (result: Result<RolePlan, ManagementError>)
        ensures
            seen(result) == tracked_plan(input.deep_view().0, input.deep_view().1, catalog.deep_view()),
    {
        build_plan(&input.definition, &input.state, catalog)
    }

    /// Starts to apply a plan that only changes attributes. `acquired` says whether
    /// the guild was free.
    pub fn apply_role_updates(
        &self,
        state: TrackedState,
        definition: Result<DefinitionFile, ManagementError>,
        confirmed_plan: &RolePlan,
        acquired: bool,
        now: u64,
        deadline: u64,
    ) -> (result: Result<RoleApplyStart, ManagementError>)
        ensures
            seen(result) == started(
                state.deep_view(),
                seen(definition),
                confirmed_plan.deep_view(),
                None,
                acquired,
                now,
                deadline,
            ),
            result is Ok && result->Ok_0 is Started ==> result->Ok_0->Started_0.deep_view().is_consistent(),
    {
        prepare_apply(state, definition, confirmed_plan, None, acquired, now, deadline)
    }

    /// Starts to apply a plan. `acquired` says whether the guild was free.
    pub fn apply_roles_with_options(
        &self,
        state: TrackedState,
        definition: Result<DefinitionFile, ManagementError>,
        confirmed_plan: &RolePlan,
        options: RoleApplyOptions,
        acquired: bool,
        now: u64,
        deadline: u64,
    ) -> (result: Result<RoleApplyStart, ManagementError>)
        ensures
            seen(result) == started(
                state.deep_view(),
                seen(definition),
                confirmed_plan.deep_view(),
                if confirmed_plan.deep_view().lifecycle.len() == 0 {
                    None
                } else {
                    Some(options)
                },
                acquired,
                now,
                deadline,
            ),
            result is Ok && result->Ok_0 is Started ==> result->Ok_0->Started_0.deep_view().is_consistent(),
    {
        let lifecycle: Option<RoleApplyOptions> = if confirmed_plan.lifecycle.is_empty() {
            None
        } else {
            Some(options)
        };
        prepare_apply(state, definition, confirmed_plan, lifecycle, acquired, now, deadline)
    }

    /// Starts to apply a plan without deletions.
    pub fn apply_roles(
        &self,
        state: TrackedState,
        definition: Result<DefinitionFile, ManagementError>,
        confirmed_plan: &RolePlan,
        acquired: bool,
        now: u64,
        deadline: u64,
    ) -> (result: Result<RoleApplyStart, ManagementError>)
        ensures
            seen(result) == started(
                state.deep_view(),
                seen(definition),
                confirmed_plan.deep_view(),
                if confirmed_plan.deep_view().lifecycle.len() == 0 {
                    None
                } else {
                    Some((RoleApplyOptions { allow_deletions: false }))
                },
                acquired,
                now,
                deadline,
            ),
            result is Ok && result->Ok_0 is Started ==> result->Ok_0->Started_0.deep_view().is_consistent(),
    {
        self.apply_roles_with_options(
            state,
            definition,
            confirmed_plan,
            RoleApplyOptions { allow_deletions: false },
            acquired,
            now,
            deadline,
        )
    }
}

} // verus!
