//! The definition and the state that describe the roles of a guild.

use vstd::prelude::*;

use crate::configuration::definition::{
    OrderView, RawDefinitionFile, RawDefinitionView, RawOrderDefinition, RawSettingsSets, SettingsSetsView,
};
use crate::configuration::permission::{KnownPermission, PermissionName};
use crate::configuration::role::{
    ManagedValue, RawRoleAttributes, RawRoleDefinition, RawRoleDefinitionView, RoleAttributesView, RoleEnsure, RoleMode,
};
use crate::configuration::state::{find_holder, holder, serialize_state, state_text, MappingsView, StateFile, StateView};
use crate::domain::{ErrorView, ManagementError, SCHEMA_VERSION};
use crate::ids::{everyone, everyone_logical_id, DiscordId, GuildId, LogicalId, RoleId, RoleLogicalId};
use crate::ordered::{has_key, lookup, put, put_at_end, OrderedMap};
use crate::port::{RoleCatalog, RoleCatalogView, RoleSnapshot, RoleSnapshotView};
use crate::resource::role::order::{ordered_role_ids, role_order};
use crate::text::{decimal, text5, text7};
use crate::value::{seen, Plain};

verus! {

/// A definition and a state that describe a guild, and the text of the state.
pub struct ExportFiles {
    pub definition: RawDefinitionFile,
    pub state: StateFile,
    pub state_json: String,
}

/// What a definition and a state that describe a guild hold.
pub struct ExportView {
    pub definition: RawDefinitionView,
    pub state: StateView,
    pub state_json: Seq<char>,
}

impl DeepView for ExportFiles {
    type V = ExportView;

    open spec fn deep_view(&self) -> ExportView {
        ExportView {
            definition: self.definition.deep_view(),
            state: self.state.deep_view(),
            state_json: self.state_json@,
        }
    }
}

/// Entries all of which are managed with the value they have.
pub open spec fn managed_values(permissions: Seq<(Seq<char>, bool)>) -> Seq<(Seq<char>, ManagedValue<bool>)> {
    permissions.map_values(|entry: (Seq<char>, bool)| (entry.0, ManagedValue::Value(entry.1)))
}

/// The permissions that are granted.
pub open spec fn granted(permissions: Seq<(Seq<char>, bool)>) -> Seq<(Seq<char>, bool)>
    decreases permissions.len(),
{
    if permissions.len() == 0 {
        permissions
    } else if permissions.last().1 {
        granted(permissions.drop_last()).push(permissions.last())
    } else {
        granted(permissions.drop_last())
    }
}

/// The written role that describes a role. Of the role that every member has
/// only permissions are managed, those that are not granted too.
pub open spec fn described_role(role: RoleSnapshotView, is_everyone: bool) -> RawRoleDefinitionView {
    RawRoleDefinitionView {
        ensure: RoleEnsure::Present,
        mode: RoleMode::Managed,
        settings_sets: Seq::empty(),
        attributes: if is_everyone {
            RoleAttributesView { permissions: managed_values(role.permissions), ..RoleAttributesView::none() }
        } else {
            RoleAttributesView {
                name: Some(ManagedValue::Value(role.name)),
                color: Some(ManagedValue::Value(role.color)),
                hoist: Some(ManagedValue::Value(role.hoist)),
                mentionable: Some(ManagedValue::Value(role.mentionable)),
                permissions: managed_values(granted(role.permissions)),
            }
        },
    }
}

/// A written role that is only referred to.
pub open spec fn referenced_role() -> RawRoleDefinitionView {
    RawRoleDefinitionView {
        ensure: RoleEnsure::Present,
        mode: RoleMode::Reference,
        settings_sets: Seq::empty(),
        attributes: RoleAttributesView::none(),
    }
}

/// Written roles and the bindings they have.
pub struct DescribedRolesView {
    pub definitions: Seq<(Seq<char>, RawRoleDefinitionView)>,
    pub mappings: MappingsView,
}

/// The name that is made up for an object: a prefix and its identifier.
pub open spec fn generated_name(prefix: Seq<char>, id: u64) -> Seq<char> {
    prefix + decimal(id as nat)
}

/// Why a name cannot be made up: it is used already.
pub open spec fn name_is_used(name: Seq<char>, used_for: u64) -> ErrorView {
    ErrorView::InvalidState(
        "生成する論理 ID "@ + name + " は state で Snowflake "@ + decimal(used_for as nat)
            + " に使用されています"@,
    )
}

/// The name that a role has kept, or that is made up for it.
pub open spec fn role_name(id: u64, previous: MappingsView) -> Result<Seq<char>, ErrorView> {
    match holder(previous, id) {
        Some(name) => Ok(name),
        None => match lookup(previous, generated_name("role_"@, id)) {
            Some(used_for) => Err(name_is_used(generated_name("role_"@, id), used_for)),
            None => Ok(generated_name("role_"@, id)),
        },
    }
}

/// Written roles with one more that describes a role of the guild. Roles that the
/// bot cannot manage are only referred to, where they were bound before.
pub open spec fn with_role(
    described: DescribedRolesView,
    role: RoleSnapshotView,
    guild_id: u64,
    previous: MappingsView,
) -> Result<DescribedRolesView, ErrorView> {
    if !role.manageable {
        match holder(previous, role.id) {
            None => Ok(described),
            Some(name) => Ok(
                DescribedRolesView {
                    definitions: put::<RoleLogicalId, RawRoleDefinitionView>(
                        described.definitions,
                        name,
                        referenced_role(),
                    ),
                    mappings: described.mappings,
                },
            ),
        }
    } else if role.id == guild_id {
        Ok(
            DescribedRolesView {
                definitions: put::<RoleLogicalId, RawRoleDefinitionView>(
                    described.definitions,
                    everyone(),
                    described_role(role, true),
                ),
                mappings: described.mappings,
            },
        )
    } else {
        match role_name(role.id, previous) {
            Err(error) => Err(error),
            Ok(name) => {
                let bound = lookup(described.mappings, name);
                if bound is Some && bound != Some(role.id) {
                    Err(
                        ErrorView::InvalidState(
                            "論理 ID "@ + name + " が Role "@ + decimal(bound->0 as nat) + " と "@ + decimal(
                                role.id as nat,
                            ) + " で衝突しています"@,
                        ),
                    )
                } else {
                    Ok(
                        DescribedRolesView {
                            definitions: put::<RoleLogicalId, RawRoleDefinitionView>(
                                described.definitions,
                                name,
                                described_role(role, false),
                            ),
                            mappings: put::<RoleLogicalId, u64>(described.mappings, name, role.id),
                        },
                    )
                }
            },
        }
    }
}

/// Written roles that describe the roles of a guild.
pub open spec fn described_roles(
    roles: Seq<RoleSnapshotView>,
    guild_id: u64,
    previous: MappingsView,
) -> Result<DescribedRolesView, ErrorView>
    decreases roles.len(),
{
    if roles.len() == 0 {
        Ok(DescribedRolesView { definitions: Seq::empty(), mappings: previous })
    } else {
        match described_roles(roles.drop_last(), guild_id, previous) {
            Err(error) => Err(error),
            Ok(described) => with_role(described, roles.last(), guild_id, previous),
        }
    }
}

/// Whether a role is among those of a guild.
pub open spec fn has_role(roles: Seq<RoleSnapshotView>, id: u64) -> bool {
    exists|i: int| 0 <= i < roles.len() && (#[trigger] roles[i]).id == id
}

/// What is said of the first bound role, from a place on, that the guild does not have.
pub open spec fn lost_role(previous: MappingsView, i: int, roles: Seq<RoleSnapshotView>) -> Option<ErrorView>
    decreases previous.len() - i,
{
    if i < 0 || i >= previous.len() {
        None
    } else if has_role(roles, previous[i].1) {
        lost_role(previous, i + 1, roles)
    } else {
        Some(
            ErrorView::InvalidState(
                "論理 ID "@ + previous[i].0 + " に対応する Role の Snowflake "@ + decimal(
                    previous[i].1 as nat,
                ) + " が Guild から予期せず消失しています"@,
            ),
        )
    }
}

/// The name under which a role is described, if it is.
pub open spec fn described_name(id: u64, guild_id: u64, described: DescribedRolesView) -> Option<Seq<char>> {
    if id == guild_id {
        if has_key(described.definitions, everyone()) {
            Some(everyone())
        } else {
            None
        }
    } else {
        match holder(described.mappings, id) {
            Some(name) => if has_key(described.definitions, name) {
                Some(name)
            } else {
                None
            },
            None => None,
        }
    }
}

/// The names of described roles, in the given order.
pub open spec fn described_names(ids: Seq<u64>, guild_id: u64, described: DescribedRolesView) -> Seq<Seq<char>>
    decreases ids.len(),
{
    if ids.len() == 0 {
        Seq::empty()
    } else {
        match described_name(ids.last(), guild_id, described) {
            Some(name) => described_names(ids.drop_last(), guild_id, described).push(name),
            None => described_names(ids.drop_last(), guild_id, described),
        }
    }
}

/// A definition of roles alone, in the given order.
pub open spec fn role_definition(
    definitions: Seq<(Seq<char>, RawRoleDefinitionView)>,
    names: Seq<Seq<char>>,
) -> RawDefinitionView {
    RawDefinitionView {
        schema_version: SCHEMA_VERSION,
        settings_sets: SettingsSetsView { role: Seq::empty(), channel: Seq::empty() },
        roles: definitions,
        channels: Seq::empty(),
        members: Seq::empty(),
        message_sets: Seq::empty(),
        threads: Seq::empty(),
        order: if names.len() == 0 {
            None
        } else {
            Some(
                OrderView {
                    roles: names,
                    categories: Seq::empty(),
                    uncategorized: Seq::empty(),
                    children: Seq::empty(),
                },
            )
        },
    }
}

/// The bindings of an earlier state.
pub open spec fn earlier_state(guild_id: u64, previous: Option<StateView>) -> StateView {
    match previous {
        Some(state) => state,
        None => StateView {
            schema_version: SCHEMA_VERSION,
            guild_id,
            roles: Seq::empty(),
            channels: Seq::empty(),
            members: Seq::empty(),
        },
    }
}

/// The definition and the state that describe the roles of a guild, or why there are none.
pub open spec fn exported_roles(
    catalog: RoleCatalogView,
    guild_id: u64,
    previous: Option<StateView>,
) -> Result<(RawDefinitionView, StateView), ErrorView> {
    let earlier = earlier_state(guild_id, previous);
    match lost_role(earlier.roles, 0, catalog.roles) {
        Some(error) => Err(error),
        None => match described_roles(catalog.roles, guild_id, earlier.roles) {
            Err(error) => Err(error),
            Ok(described) => Ok(
                (
                    role_definition(
                        described.definitions,
                        described_names(role_order(catalog.roles, guild_id), guild_id, described),
                    ),
                    StateView {
                        schema_version: SCHEMA_VERSION,
                        guild_id,
                        roles: described.mappings,
                        channels: earlier.channels,
                        members: earlier.members,
                    },
                ),
            ),
        },
    }
}

/// The files that hold a definition and a state, given them or why there are none.
pub open spec fn export_files(
    exported: Result<(RawDefinitionView, StateView), ErrorView>,
) -> Result<ExportView, ErrorView> {
    match exported {
        Err(error) => Err(error),
        Ok((definition, state)) => Ok(ExportView { definition, state, state_json: state_text(state) }),
    }
}

fn take_values(permissions: &OrderedMap<KnownPermission, bool>, only_granted: bool) -> (values: OrderedMap<
    PermissionName,
    ManagedValue<bool>,
>)
    ensures
        values.deep_view() == managed_values(
            if only_granted {
                granted(permissions.deep_view())
            } else {
                permissions.deep_view()
            },
        ),
{
    let ghost all = permissions.deep_view();
    let mut values: OrderedMap<PermissionName, ManagedValue<bool>> = OrderedMap::new();
    let mut i: usize = 0;
    assert(all.take(0) =~= Seq::empty());
    assert(values.deep_view() =~= managed_values(all.take(0)));
    assert(values.deep_view() =~= managed_values(granted(all.take(0))));
    while i < permissions.len()
        invariant
            i <= all.len(),
            all == permissions.deep_view(),
            values.deep_view() == managed_values(
                if only_granted {
                    granted(all.take(i as int))
                } else {
                    all.take(i as int)
                },
            ),
            forall|k: int|
                0 <= k < values.deep_view().len() ==> exists|j: int|
                    0 <= j < i && (#[trigger] values.deep_view()[k]).0 == #[trigger] all[j].0,
        decreases all.len() - i,
    {
        let _n: usize = permissions.len();
        let value: bool = *permissions.value_at(i);
        let ghost before = values.deep_view();
        proof {
            assert(all.take(i + 1).drop_last() =~= all.take(i as int));
            assert(all.take(i + 1).last() == all[i as int]);
            assert(all.take(i + 1) =~= all.take(i as int).push(all[i as int]));
            assert forall|k: int| 0 <= k < before.len() implies crate::text::text_before(
                (#[trigger] before[k]).0,
                all[i as int].0,
            ) by {
                let j = choose|j: int| 0 <= j < i && before[k].0 == #[trigger] all[j].0;
                assert(crate::text::text_before(all[j].0, all[i as int].0));
            }
            put_at_end::<PermissionName, ManagedValue<bool>>(before, all[i as int].0, ManagedValue::Value(value));
        }
        if value || !only_granted {
            values.insert(permissions.key_at(i).to_name(), ManagedValue::Value(value));
            proof {
                let kept = if only_granted {
                    granted(all.take(i as int))
                } else {
                    all.take(i as int)
                };
                assert(values.deep_view() =~= managed_values(kept.push(all[i as int])));
                assert forall|k: int| 0 <= k < values.deep_view().len() implies exists|j: int|
                    0 <= j < i + 1 && (#[trigger] values.deep_view()[k]).0 == #[trigger] all[j].0 by {
                    if k < before.len() {
                        let j = choose|j: int| 0 <= j < i && before[k].0 == #[trigger] all[j].0;
                        assert(values.deep_view()[k].0 == all[j].0);
                    } else {
                        assert(values.deep_view()[k].0 == all[i as int].0);
                    }
                }
            }
        }
        i += 1;
    }
    assert(all.take(i as int) =~= all);
    values
}

pub(crate) fn describe_role(role: &RoleSnapshot, is_everyone: bool) -> (definition: RawRoleDefinition)
    ensures
        definition.deep_view() == described_role(role.deep_view(), is_everyone),
{
    let settings_sets: Vec<crate::ids::RoleSettingsSetId> = Vec::new();
    assert(settings_sets.deep_view() =~= Seq::empty());
    let attributes: RawRoleAttributes = if is_everyone {
        RawRoleAttributes {
            name: None,
            color: None,
            hoist: None,
            mentionable: None,
            permissions: take_values(&role.permissions, false),
        }
    } else {
        RawRoleAttributes {
            name: Some(ManagedValue::Value(role.name.copy())),
            color: Some(ManagedValue::Value(role.color)),
            hoist: Some(ManagedValue::Value(role.hoist)),
            mentionable: Some(ManagedValue::Value(role.mentionable)),
            permissions: take_values(&role.permissions, true),
        }
    };
    RawRoleDefinition { ensure: RoleEnsure::Present, mode: RoleMode::Managed, settings_sets, attributes }
}

/// A written role that is only referred to.
pub fn reference_role() -> (definition: RawRoleDefinition)
    ensures
        definition.deep_view() == referenced_role(),
{
    let settings_sets: Vec<crate::ids::RoleSettingsSetId> = Vec::new();
    assert(settings_sets.deep_view() =~= Seq::empty());
    RawRoleDefinition {
        ensure: RoleEnsure::Present,
        mode: RoleMode::Reference,
        settings_sets,
        attributes: RawRoleAttributes::none(),
    }
}

/// The name that is bound to an object, if there is one.
pub fn find_name<'a, L, D>(mappings: &'a OrderedMap<LogicalId<L>, DiscordId<D>>, id: u64) -> (name: Option<
    &'a LogicalId<L>,
>)
    ensures
        name.deep_view() == holder(mappings.deep_view(), id),
{
    proof {
        assert(mappings.deep_view().take(mappings.deep_view().len() as int) =~= mappings.deep_view());
    }
    find_holder(mappings, id, mappings.len())
}

/// Why a name cannot be made up: it is used already.
pub fn name_is_used_error(name: &str, used_for: &str) -> (error: ManagementError)
    ensures
        error.deep_view() == ErrorView::InvalidState(
            "生成する論理 ID "@ + name@ + " は state で Snowflake "@ + used_for@ + " に使用されています"@,
        ),
{
    ManagementError::InvalidState(
        text5("生成する論理 ID ", name, " は state で Snowflake ", used_for, " に使用されています"),
    )
}

pub(crate) fn name_role(id: RoleId, previous: &OrderedMap<RoleLogicalId, RoleId>) -> (result: Result<
    RoleLogicalId,
    ManagementError,
>)
    ensures
        seen(result) == role_name(id.deep_view(), previous.deep_view()),
{
    match find_name(previous, id.get()) {
        Some(name) => Ok(name.copy()),
        None => {
            proof {
                reveal_strlit("role_");
            }
            let name: RoleLogicalId = RoleLogicalId::generated("role_", id.get());
            match previous.get(&name) {
                Some(used_for) => Err(name_is_used_error(name.as_str(), used_for.to_text().as_str())),
                None => Ok(name),
            }
        },
    }
}

fn find_lost_role(previous: &OrderedMap<RoleLogicalId, RoleId>, roles: &Vec<RoleSnapshot>) -> (result: Result<
    (),
    ManagementError,
>)
    ensures
        seen(result) == crate::configuration::order::accepted(
            lost_role(previous.deep_view(), 0, roles.deep_view()),
        ),
{
    let mut i: usize = 0;
    while i < previous.len()
        invariant
            i <= previous.deep_view().len(),
            lost_role(previous.deep_view(), 0, roles.deep_view()) == lost_role(
                previous.deep_view(),
                i as int,
                roles.deep_view(),
            ),
        decreases previous.deep_view().len() - i,
    {
        let id: RoleId = *previous.value_at(i);
        let mut found: bool = false;
        let mut k: usize = 0;
        while k < roles.len() && !found
            invariant
                k <= roles@.len(),
                found ==> has_role(roles.deep_view(), id.deep_view()),
                !found ==> forall|j: int| 0 <= j < k ==> (#[trigger] roles.deep_view()[j]).id != id.deep_view(),
            decreases roles@.len() - k,
        {
            if roles[k].id.get() == id.get() {
                assert(roles.deep_view()[k as int].id == id.deep_view());
                found = true;
            }
            k += 1;
        }
        if !found {
            assert(!has_role(roles.deep_view(), id.deep_view()));
            return Err(
                ManagementError::InvalidState(
                    text5(
                        "論理 ID ",
                        previous.key_at(i).as_str(),
                        " に対応する Role の Snowflake ",
                        id.to_text().as_str(),
                        " が Guild から予期せず消失しています",
                    ),
                ),
            );
        }
        i += 1;
    }
    Ok(())
}

/// Written roles and the bindings they have.
pub struct DescribedRoles {
    pub definitions: OrderedMap<RoleLogicalId, RawRoleDefinition>,
    pub mappings: OrderedMap<RoleLogicalId, RoleId>,
}

impl DeepView for DescribedRoles {
    type V = DescribedRolesView;

    open spec fn deep_view(&self) -> DescribedRolesView {
        DescribedRolesView { definitions: self.definitions.deep_view(), mappings: self.mappings.deep_view() }
    }
}

fn add_role(
    described: DescribedRoles,
    role: &RoleSnapshot,
    guild_id: GuildId,
    previous: &OrderedMap<RoleLogicalId, RoleId>,
) -> (result: Result<DescribedRoles, ManagementError>)
    ensures
        seen(result) == with_role(
            described.deep_view(),
            role.deep_view(),
            guild_id.deep_view(),
            previous.deep_view(),
        ),
{
    let mut definitions: OrderedMap<RoleLogicalId, RawRoleDefinition> = described.definitions;
    let mut mappings: OrderedMap<RoleLogicalId, RoleId> = described.mappings;
    if !role.manageable {
        match find_name(previous, role.id.get()) {
            None => {},
            Some(name) => definitions.insert(name.copy(), reference_role()),
        }
        return Ok(DescribedRoles { definitions, mappings });
    }
    if role.id.get() == guild_id.get() {
        definitions.insert(everyone_logical_id(), describe_role(role, true));
        return Ok(DescribedRoles { definitions, mappings });
    }
    let name: RoleLogicalId = name_role(role.id, previous)?;
    match mappings.get(&name) {
        None => {},
        Some(bound) => {
            if bound.get() != role.id.get() {
                return Err(
                    ManagementError::InvalidState(
                        text7(
                            "論理 ID ",
                            name.as_str(),
                            " が Role ",
                            bound.to_text().as_str(),
                            " と ",
                            role.id.to_text().as_str(),
                            " で衝突しています",
                        ),
                    ),
                );
            }
        },
    }
    mappings.insert(name.copy(), role.id);
    definitions.insert(name, describe_role(role, false));
    Ok(DescribedRoles { definitions, mappings })
}

#[verifier::loop_isolation(false)]
fn describe_roles(
    roles: &Vec<RoleSnapshot>,
    guild_id: GuildId,
    previous: &OrderedMap<RoleLogicalId, RoleId>,
) -> (result: Result<DescribedRoles, ManagementError>)
    ensures
        seen(result) == described_roles(roles.deep_view(), guild_id.deep_view(), previous.deep_view()),
{
    let ghost all = roles.deep_view();
    let mut described = DescribedRoles { definitions: OrderedMap::new(), mappings: previous.copy() };
    let mut i: usize = 0;
    assert(all.take(0) =~= Seq::empty());
    while i < roles.len()
        invariant
            i <= roles@.len(),
            described_roles(all.take(i as int), guild_id.deep_view(), previous.deep_view()) == Ok::<
                DescribedRolesView,
                ErrorView,
            >(described.deep_view()),
        decreases roles@.len() - i,
    {
        proof {
            assert(all.take(i + 1).drop_last() =~= all.take(i as int));
            assert(all.take(i + 1).last() == roles@[i as int].deep_view());
            described_roles_prefix(all, i + 1, guild_id.deep_view(), previous.deep_view());
        }
        described = add_role(described, &roles[i], guild_id, previous)?;
        i += 1;
    }
    assert(all.take(i as int) =~= all);
    Ok(described)
}

/// Why the first roles cannot be described is why all cannot be.
proof fn described_roles_prefix(roles: Seq<RoleSnapshotView>, n: int, guild_id: u64, previous: MappingsView)
    requires
        0 <= n <= roles.len(),
    ensures
        described_roles(roles.take(n), guild_id, previous) is Err ==> described_roles(roles, guild_id, previous)
            == described_roles(roles.take(n), guild_id, previous),
    decreases roles.len() - n,
{
    if n == roles.len() {
        assert(roles.take(n) =~= roles);
    } else {
        assert(roles.take(n + 1).drop_last() =~= roles.take(n));
        described_roles_prefix(roles, n + 1, guild_id, previous);
    }
}

fn name_described(ids: &Vec<RoleId>, guild_id: GuildId, described: &DescribedRoles) -> (names: Vec<RoleLogicalId>)
    ensures
        names.deep_view() == described_names(ids.deep_view(), guild_id.deep_view(), described.deep_view()),
{
    let ghost all = ids.deep_view();
    let ghost guild = guild_id.deep_view();
    let mut names: Vec<RoleLogicalId> = Vec::new();
    let mut i: usize = 0;
    assert(all.take(0) =~= Seq::empty());
    assert(names.deep_view() =~= described_names(all.take(0), guild, described.deep_view()));
    while i < ids.len()
        invariant
            i <= ids@.len(),
            all == ids.deep_view(),
            guild == guild_id.deep_view(),
            names.deep_view() == described_names(all.take(i as int), guild, described.deep_view()),
        decreases ids@.len() - i,
    {
        let ghost before = names.deep_view();
        proof {
            assert(all.take(i + 1).drop_last() =~= all.take(i as int));
            assert(all.take(i + 1).last() == all[i as int]);
        }
        let name: Option<RoleLogicalId> = if ids[i].get() == guild_id.get() {
            Some(everyone_logical_id())
        } else {
            match find_name(&described.mappings, ids[i].get()) {
                Some(name) => Some(name.copy()),
                None => None,
            }
        };
        match name {
            None => {},
            Some(name) => {
                if described.definitions.contains_key(&name) {
                    names.push(name);
                    assert(names.deep_view() =~= before.push(name.deep_view()));
                }
            },
        }
        i += 1;
    }
    assert(all.take(i as int) =~= all);
    names
}

/// The bindings of an earlier state.
pub fn take_earlier(guild_id: GuildId, previous: Option<&StateFile>) -> (earlier: StateFile)
    ensures
        earlier.deep_view() == earlier_state(guild_id.deep_view(), previous.deep_view()),
{
    match previous {
        Some(state) => state.copy(),
        None => StateFile {
            schema_version: SCHEMA_VERSION,
            guild_id,
            roles: OrderedMap::new(),
            channels: OrderedMap::new(),
            members: OrderedMap::new(),
        },
    }
}

/// The definition and the state that describe the roles of a guild. Names of an
/// earlier state are kept.
pub fn export_roles(catalog: &RoleCatalog, guild_id: GuildId, previous: Option<&StateFile>) -> (result: Result<
    ExportFiles,
    ManagementError,
>)
    ensures
        seen(result) == export_files(
            exported_roles(catalog.deep_view(), guild_id.deep_view(), previous.deep_view()),
        ),
{
    let earlier: StateFile = take_earlier(guild_id, previous);
    find_lost_role(&earlier.roles, &catalog.roles)?;
    let described: DescribedRoles = describe_roles(&catalog.roles, guild_id, &earlier.roles)?;
    let ids: Vec<RoleId> = ordered_role_ids(catalog, RoleId::new(guild_id.get()));
    let names: Vec<RoleLogicalId> = name_described(&ids, guild_id, &described);
    let order: Option<RawOrderDefinition> = if names.is_empty() {
        None
    } else {
        let categories: Vec<crate::ids::ChannelLogicalId> = Vec::new();
        let uncategorized: Vec<crate::ids::ChannelLogicalId> = Vec::new();
        assert(categories.deep_view() =~= Seq::empty());
        assert(uncategorized.deep_view() =~= Seq::empty());
        Some(RawOrderDefinition { roles: names, categories, uncategorized, children: OrderedMap::new() })
    };
    let definition = RawDefinitionFile {
        schema_version: SCHEMA_VERSION,
        settings_sets: RawSettingsSets { role: OrderedMap::new(), channel: OrderedMap::new() },
        roles: described.definitions,
        channels: OrderedMap::new(),
        members: OrderedMap::new(),
        message_sets: OrderedMap::new(),
        threads: OrderedMap::new(),
        order,
    };
    let state = StateFile {
        schema_version: SCHEMA_VERSION,
        guild_id,
        roles: described.mappings,
        channels: earlier.channels,
        members: earlier.members,
    };
    let state_json: String = serialize_state(&state)?;
    Ok(ExportFiles { definition, state, state_json })
}

} // verus!
