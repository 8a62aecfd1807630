//! For which roles a plan by single attributes can be made.

use vstd::prelude::*;

use crate::configuration::definition::DefinitionView;
use crate::configuration::reading::{all_are_known, known_entries_are_found};
use crate::configuration::role::{ManagedValue, RoleAttributesView, RoleDefinitionView};
use crate::ids::everyone;
use crate::ordered::{first_in_none, has_key, lookup};
use crate::port::RoleCatalogView;
use crate::resource::role::attributes::{composed, wanted_permission};
use crate::resource::role::feasibility::{can_be_changed, can_be_given};
use crate::resource::role::order::role_with_id;
use crate::service::plan::{
    role_creation_fault, tracked_plan, ungrantable_fault, unknown_fault, unsettled_fault, with_attributes, with_change,
    with_permissions, AttributeChangeView, RolePlanView,
};
use crate::service::state::TrackedView;
use crate::text::bool_chars;

verus! {

/// Whether a new role can be what is asked for: it has a name that is not empty, and the
/// permissions that are asked for can be given.
pub open spec fn can_be_created(desired: RoleAttributesView, catalog: RoleCatalogView) -> bool {
    &&& desired.name is Some
    &&& desired.name matches Some(ManagedValue::Value(name)) ==> name.len() > 0
    &&& forall|k: int|
        0 <= k < desired.permissions.len() ==> can_be_given(
            (#[trigger] desired.permissions[k]).0,
            desired.permissions[k].1,
            false,
            catalog,
        )
}

/// Whether a role that is there can be what is asked for. Of the role of every member only
/// permissions are asked for.
pub open spec fn can_be_met(
    id: Seq<char>,
    discord_id: u64,
    role: RoleDefinitionView,
    desired: RoleAttributesView,
    catalog: RoleCatalogView,
) -> bool {
    let actual = role_with_id(catalog.roles, discord_id);
    &&& actual is Some
    &&& id == everyone() ==> desired.name is None && desired.color is None && desired.hoist is None
        && desired.mentionable is None
    &&& role is Managed ==> actual->0.manageable
    &&& can_be_changed(desired, actual->0.permissions, catalog)
}

/// Whether a declared role can be planned. One that shall be absent was deleted, or is there
/// and can be managed, or its deletion is under way. One that is only referred to is there. One
/// that is managed can be created where it is not bound or was deleted, or is there and can be
/// what is asked for, while its deletion is not under way.
pub open spec fn can_be_planned(
    id: Seq<char>,
    role: RoleDefinitionView,
    definition: DefinitionView,
    state: TrackedView,
    catalog: RoleCatalogView,
) -> bool {
    let desired = composed(role, definition.settings_sets.role);
    let bound = lookup(state.bindings.roles, id);
    if role is Absent {
        &&& id != everyone()
        &&& bound is Some && !has_key(state.deleted_roles, id) ==> {
            let actual = role_with_id(catalog.roles, bound->0);
            &&& actual is None ==> has_key(state.pending_deletions, id)
            &&& actual is Some ==> actual->0.manageable
        }
    } else if id == everyone() {
        can_be_met(id, state.bindings.guild_id, role, desired, catalog)
    } else if bound is None || has_key(state.deleted_roles, id) {
        role is Managed && can_be_created(desired, catalog)
    } else {
        !has_key(state.pending_deletions, id) && can_be_met(id, bound->0, role, desired, catalog)
    }
}

spec fn can_be_one(
    wanted: (Seq<char>, ManagedValue<bool>),
    actual: Seq<(Seq<char>, bool)>,
    catalog: RoleCatalogView,
) -> bool {
    has_key(actual, wanted.0) && can_be_given(wanted.0, wanted.1, lookup(actual, wanted.0)->0, catalog)
}

proof fn listed_where_all_can_be_given(
    changes: Seq<AttributeChangeView>,
    id: Seq<char>,
    discord_id: u64,
    wanted: Seq<(Seq<char>, ManagedValue<bool>)>,
    actual: Seq<(Seq<char>, bool)>,
    catalog: RoleCatalogView,
)
    ensures
        with_permissions(
            changes,
            id,
            discord_id,
            wanted,
            actual,
            catalog.default_permissions,
            catalog.grantable_permissions,
        ) is Ok <==> forall|k: int| 0 <= k < wanted.len() ==> can_be_one(#[trigger] wanted[k], actual, catalog),
    decreases wanted.len(),
{
    if wanted.len() > 0 {
        let rest = wanted.drop_first();
        let current = lookup(actual, wanted[0].0);
        if can_be_one(wanted[0], actual, catalog) {
            let desired = wanted_permission(
                id,
                wanted[0].0,
                wanted[0].1,
                current->0,
                catalog.default_permissions,
                catalog.grantable_permissions,
            )->Ok_0;
            let next = with_change(
                changes,
                id,
                discord_id,
                "permissions."@ + wanted[0].0,
                bool_chars(current->0),
                bool_chars(desired),
            );
            listed_where_all_can_be_given(next, id, discord_id, rest, actual, catalog);
            if forall|k: int| 0 <= k < rest.len() ==> can_be_one(#[trigger] rest[k], actual, catalog) {
                assert forall|k: int| 0 <= k < wanted.len() implies can_be_one(#[trigger] wanted[k], actual, catalog) by {
                    if k > 0 {
                        assert(rest[k - 1] == wanted[k]);
                    }
                }
            } else {
                let k = choose|k: int| 0 <= k < rest.len() && !can_be_one(#[trigger] rest[k], actual, catalog);
                assert(wanted[k + 1] == rest[k]);
            }
        }
    }
}

proof fn created_where_it_can_be(id: Seq<char>, desired: RoleAttributesView, catalog: RoleCatalogView)
    ensures
        role_creation_fault(id, desired, catalog) is None <==> can_be_created(desired, catalog),
{
    reveal_strlit("new role");
    let wanted = desired.permissions;
    let check = |permission: Seq<char>, value: ManagedValue<bool>|
        match wanted_permission(
            id,
            permission,
            value,
            false,
            catalog.default_permissions,
            catalog.grantable_permissions,
        ) {
            Err(error) => Some(error),
            Ok(_) => None,
        };
    first_in_none(wanted, check);
    assert forall|k: int| 0 <= k < wanted.len() implies (check((#[trigger] wanted[k]).0, wanted[k].1) is None
        <==> can_be_given(wanted[k].0, wanted[k].1, false, catalog)) by {}
    assert(ungrantable_fault(id, wanted, catalog) is None <==> forall|k: int|
        0 <= k < wanted.len() ==> can_be_given((#[trigger] wanted[k]).0, wanted[k].1, false, catalog));
}

proof fn met_where_it_can_be(
    plan: RolePlanView,
    id: Seq<char>,
    discord_id: u64,
    role: RoleDefinitionView,
    desired: RoleAttributesView,
    catalog: RoleCatalogView,
)
    ensures
        plan.after_bound(id, discord_id, role, desired, catalog) is Ok <==> can_be_met(
            id,
            discord_id,
            role,
            desired,
            catalog,
        ),
{
    if let Some(actual) = role_with_id(catalog.roles, discord_id) {
        assert(with_attributes(plan.changes, id, discord_id, actual, desired, catalog) is Ok <==> can_be_changed(
            desired,
            actual.permissions,
            catalog,
        )) by {
            assert forall|changes: Seq<AttributeChangeView>|
                (#[trigger] with_permissions(
                    changes,
                    id,
                    discord_id,
                    desired.permissions,
                    actual.permissions,
                    catalog.default_permissions,
                    catalog.grantable_permissions,
                ) is Ok) == can_be_changed(desired, actual.permissions, catalog) by {
                listed_where_all_can_be_given(
                    changes,
                    id,
                    discord_id,
                    desired.permissions,
                    actual.permissions,
                    catalog,
                );
                assert(can_be_changed(desired, actual.permissions, catalog) <==> forall|k: int|
                    0 <= k < desired.permissions.len() ==> can_be_one(
                        #[trigger] desired.permissions[k],
                        actual.permissions,
                        catalog,
                    ));
            }
        }
    }
}

proof fn all_can_be_planned(
    plan: RolePlanView,
    i: int,
    definition: DefinitionView,
    state: TrackedView,
    catalog: RoleCatalogView,
)
    requires
        0 <= i <= definition.roles.len(),
    ensures
        plan.after_roles(i, definition, state, catalog) is Ok <==> forall|k: int|
            i <= k < definition.roles.len() ==> can_be_planned(
                (#[trigger] definition.roles[k]).0,
                definition.roles[k].1,
                definition,
                state,
                catalog,
            ),
    decreases definition.roles.len() - i,
{
    if i < definition.roles.len() {
        let id = definition.roles[i].0;
        let role = definition.roles[i].1;
        let desired = composed(role, definition.settings_sets.role);
        created_where_it_can_be(id, desired, catalog);
        met_where_it_can_be(plan, id, state.bindings.guild_id, role, desired, catalog);
        if let Some(discord_id) = lookup(state.bindings.roles, id) {
            met_where_it_can_be(plan, id, discord_id, role, desired, catalog);
        }
        let next = plan.after_role(id, role, definition, state, catalog);
        assert(next is Ok <==> can_be_planned(id, role, definition, state, catalog));
        if next is Ok {
            all_can_be_planned(next->Ok_0, i + 1, definition, state, catalog);
        }
    }
}

/// Where no creation is under way, all roles whose deletion is under way shall be absent, and
/// all permissions are known, a plan is made exactly where each declared role can be planned.
pub proof fn roles_are_planned_where_they_can_be(
    definition: DefinitionView,
    state: TrackedView,
    catalog: RoleCatalogView,
)
    requires
        state.pending_creations.len() == 0,
        forall|k: int|
            0 <= k < state.pending_deletions.len() ==> lookup(
                definition.roles,
                (#[trigger] state.pending_deletions[k]).0,
            ) == Some(RoleDefinitionView::Absent),
        forall|k: int|
            0 <= k < definition.settings_sets.role.len() ==> all_are_known(
                (#[trigger] definition.settings_sets.role[k]).1.permissions,
                catalog.permission_names,
            ),
        forall|k: int|
            0 <= k < definition.roles.len() ==> match (#[trigger] definition.roles[k]).1 {
                RoleDefinitionView::Managed { attributes, .. } => all_are_known(
                    attributes.permissions,
                    catalog.permission_names,
                ),
                _ => true,
            },
    ensures
        tracked_plan(definition, state, catalog) is Ok <==> forall|k: int|
            0 <= k < definition.roles.len() ==> can_be_planned(
                (#[trigger] definition.roles[k]).0,
                definition.roles[k].1,
                definition,
                state,
                catalog,
            ),
{
    let known = catalog.permission_names;
    let in_set = |name: Seq<char>, attributes: RoleAttributesView|
        unknown_fault("Role 設定セット "@ + name, attributes, known);
    let in_role = |id: Seq<char>, role: RoleDefinitionView| unknown_fault("Role "@ + id, role.attributes(), known);
    let under_way = |id: Seq<char>, _u: ()| unsettled_fault(id, definition.roles);
    first_in_none(definition.settings_sets.role, in_set);
    first_in_none(definition.roles, in_role);
    first_in_none(state.pending_deletions, under_way);
    assert forall|k: int| 0 <= k < state.pending_deletions.len() implies under_way(
        (#[trigger] state.pending_deletions[k]).0,
        state.pending_deletions[k].1,
    ) is None by {}
    assert forall|k: int| 0 <= k < definition.settings_sets.role.len() implies in_set(
        (#[trigger] definition.settings_sets.role[k]).0,
        definition.settings_sets.role[k].1,
    ) is None by {
        known_entries_are_found(definition.settings_sets.role[k].1.permissions, known);
    }
    assert forall|k: int| 0 <= k < definition.roles.len() implies in_role(
        (#[trigger] definition.roles[k]).0,
        definition.roles[k].1,
    ) is None by {
        known_entries_are_found(definition.roles[k].1.attributes().permissions, known);
        assert(all_are_known(definition.roles[k].1.attributes().permissions, known));
    }
    all_can_be_planned(RolePlanView::none(), 0, definition, state, catalog);
}

} // verus!
