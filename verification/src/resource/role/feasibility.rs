//! For which roles a plan can be made.

use vstd::prelude::*;

use crate::configuration::definition::DefinitionView;
use crate::configuration::permission::KnownPermission;
use crate::configuration::role::{ManagedValue, RoleAttributesView, RoleDefinitionView};
use crate::configuration::state::StateView;
use crate::ids::everyone;
use crate::ordered::{has_key, lookup, put};
use crate::port::RoleCatalogView;
use crate::resource::change::{change_between, ValueChange};
use crate::resource::role::attributes::{
    composed, created_permissions, default_for_all, permission_changes, wanted_permission,
};
use crate::resource::role::order::{role_order_plan, role_with_id};
use crate::resource::role::plan::{role_plan, role_step, with_declared, PlanView};

verus! {

/// Whether a permission can be what is asked for: its default is known, and where it is asked
/// for and was not granted before, the bot can grant it.
pub open spec fn can_be_given(
    permission: Seq<char>,
    value: ManagedValue<bool>,
    granted: bool,
    catalog: RoleCatalogView,
) -> bool {
    &&& has_key(catalog.default_permissions, permission)
    &&& (match value {
        ManagedValue::Value(value) => value,
        ManagedValue::Default => lookup(catalog.default_permissions, permission) == Some(true),
    }) && !granted ==> has_key(catalog.grantable_permissions, permission)
}

/// Whether a new role can be what is asked for: it has a name, the default of every permission
/// is known, and those that are asked for can be given.
pub open spec fn can_be_created(desired: RoleAttributesView, catalog: RoleCatalogView) -> bool {
    &&& desired.name is Some
    &&& forall|k: int|
        0 <= k < catalog.permission_names.len() ==> has_key(
            catalog.default_permissions,
            (#[trigger] catalog.permission_names[k]).0,
        )
    &&& forall|k: int|
        0 <= k < desired.permissions.len() ==> can_be_given(
            (#[trigger] desired.permissions[k]).0,
            desired.permissions[k].1,
            false,
            catalog,
        )
}

/// Whether the permissions of a role can be what is asked for.
pub open spec fn can_be_changed(
    desired: RoleAttributesView,
    actual: Seq<(Seq<char>, bool)>,
    catalog: RoleCatalogView,
) -> bool {
    forall|k: int|
        0 <= k < desired.permissions.len() ==> has_key(actual, (#[trigger] desired.permissions[k]).0) && can_be_given(
            desired.permissions[k].0,
            desired.permissions[k].1,
            lookup(actual, desired.permissions[k].0)->0,
            catalog,
        )
}

/// Whether a declared role can be planned. One that shall be absent can be deleted, if it is
/// there, and is not the role of every member. One that is only referred to is bound and
/// there. One that is managed can be created, or is there, can be managed, and can be what is
/// asked for; of the role of every member only permissions are asked for.
pub open spec fn can_be_planned(
    id: Seq<char>,
    role: RoleDefinitionView,
    definition: DefinitionView,
    state: StateView,
    catalog: RoleCatalogView,
) -> bool {
    let desired = composed(role, definition.settings_sets.role);
    let bound = if id == everyone() {
        Some(state.guild_id)
    } else {
        lookup(state.roles, id)
    };
    if role is Absent {
        id != everyone() && (bound is Some && role_with_id(catalog.roles, bound->0) is Some ==> role_with_id(
            catalog.roles,
            bound->0,
        )->0.manageable)
    } else if bound is None {
        role is Managed && can_be_created(desired, catalog)
    } else {
        let actual = role_with_id(catalog.roles, bound->0);
        &&& actual is Some
        &&& id == everyone() ==> desired.name is None && desired.color is None && desired.hoist is None
            && desired.mentionable is None
        &&& role is Managed && id != everyone() ==> actual->0.manageable
        &&& can_be_changed(desired, actual->0.permissions, catalog)
    }
}

proof fn known_defaults_are_taken(
    names: Seq<(Seq<char>, ())>,
    defaults: Seq<(Seq<char>, bool)>,
    gathered: Seq<(Seq<char>, bool)>,
)
    ensures
        default_for_all(names, defaults, gathered) is Ok <==> forall|k: int|
            0 <= k < names.len() ==> has_key(defaults, (#[trigger] names[k]).0),
    decreases names.len(),
{
    if names.len() > 0 {
        let rest = names.drop_first();
        match lookup(defaults, names[0].0) {
            None => {
                assert(!has_key(defaults, names[0].0));
            },
            Some(default) => {
                known_defaults_are_taken(rest, defaults, put::<KnownPermission, bool>(gathered, names[0].0, default));
                if forall|k: int| 0 <= k < rest.len() ==> has_key(defaults, (#[trigger] rest[k]).0) {
                    assert forall|k: int| 0 <= k < names.len() implies has_key(defaults, (#[trigger] names[k]).0) by {
                        if k > 0 {
                            assert(rest[k - 1] == names[k]);
                        }
                    }
                } else {
                    let k = choose|k: int| 0 <= k < rest.len() && !has_key(defaults, (#[trigger] rest[k]).0);
                    assert(names[k + 1] == rest[k]);
                }
            },
        }
    }
}

proof fn created_where_all_can_be_given(
    id: Seq<char>,
    wanted: Seq<(Seq<char>, ManagedValue<bool>)>,
    catalog: RoleCatalogView,
    gathered: Seq<(Seq<char>, bool)>,
)
    ensures
        created_permissions(id, wanted, catalog.default_permissions, catalog.grantable_permissions, gathered) is Ok
            <==> forall|k: int|
            0 <= k < wanted.len() ==> can_be_given((#[trigger] wanted[k]).0, wanted[k].1, false, catalog),
    decreases wanted.len(),
{
    if wanted.len() > 0 {
        let rest = wanted.drop_first();
        let first = wanted_permission(
            id,
            wanted[0].0,
            wanted[0].1,
            false,
            catalog.default_permissions,
            catalog.grantable_permissions,
        );
        assert(first is Ok <==> can_be_given(wanted[0].0, wanted[0].1, false, catalog));
        if first is Ok {
            created_where_all_can_be_given(
                id,
                rest,
                catalog,
                put::<KnownPermission, bool>(gathered, wanted[0].0, first->Ok_0),
            );
            if forall|k: int| 0 <= k < rest.len() ==> can_be_given((#[trigger] rest[k]).0, rest[k].1, false, catalog) {
                assert forall|k: int| 0 <= k < wanted.len() implies can_be_given(
                    (#[trigger] wanted[k]).0,
                    wanted[k].1,
                    false,
                    catalog,
                ) by {
                    if k > 0 {
                        assert(rest[k - 1] == wanted[k]);
                    }
                }
            } else {
                let k = choose|k: int|
                    0 <= k < rest.len() && !can_be_given((#[trigger] rest[k]).0, rest[k].1, false, catalog);
                assert(wanted[k + 1] == rest[k]);
            }
        }
    }
}

spec fn can_be_one(
    wanted: (Seq<char>, ManagedValue<bool>),
    actual: Seq<(Seq<char>, bool)>,
    catalog: RoleCatalogView,
) -> bool {
    has_key(actual, wanted.0) && can_be_given(wanted.0, wanted.1, lookup(actual, wanted.0)->0, catalog)
}

proof fn changed_where_all_can_be_given(
    id: Seq<char>,
    wanted: Seq<(Seq<char>, ManagedValue<bool>)>,
    actual: Seq<(Seq<char>, bool)>,
    catalog: RoleCatalogView,
    changes: Seq<(Seq<char>, ValueChange<bool>)>,
)
    ensures
        permission_changes(
            id,
            wanted,
            actual,
            catalog.default_permissions,
            catalog.grantable_permissions,
            changes,
        ) is Ok <==> forall|k: int| 0 <= k < wanted.len() ==> can_be_one(#[trigger] wanted[k], actual, catalog),
    decreases wanted.len(),
{
    if wanted.len() > 0 {
        let rest = wanted.drop_first();
        let current = lookup(actual, wanted[0].0);
        if can_be_one(wanted[0], actual, catalog) {
            let desired = wanted_permission(
                id,
                wanted[0].0,
                wanted[0].1,
                current->0,
                catalog.default_permissions,
                catalog.grantable_permissions,
            )->Ok_0;
            let next = match change_between(current->0, desired) {
                Some(change) => put::<KnownPermission, ValueChange<bool>>(changes, wanted[0].0, change),
                None => changes,
            };
            changed_where_all_can_be_given(id, rest, actual, catalog, next);
            if forall|k: int| 0 <= k < rest.len() ==> can_be_one(#[trigger] rest[k], actual, catalog) {
                assert forall|k: int| 0 <= k < wanted.len() implies can_be_one(#[trigger] wanted[k], actual, catalog) by {
                    if k > 0 {
                        assert(rest[k - 1] == wanted[k]);
                    }
                }
            } else {
                let k = choose|k: int| 0 <= k < rest.len() && !can_be_one(#[trigger] rest[k], actual, catalog);
                assert(wanted[k + 1] == rest[k]);
            }
        }
    }
}

proof fn one_role_can_be_planned(
    id: Seq<char>,
    role: RoleDefinitionView,
    definition: DefinitionView,
    state: StateView,
    catalog: RoleCatalogView,
)
    ensures
        role_step(id, role, definition, state, catalog) is Ok <==> can_be_planned(id, role, definition, state, catalog),
{
    let desired = composed(role, definition.settings_sets.role);
    known_defaults_are_taken(catalog.permission_names, catalog.default_permissions, Seq::empty());
    if default_for_all(catalog.permission_names, catalog.default_permissions, Seq::empty()) is Ok {
        created_where_all_can_be_given(
            id,
            desired.permissions,
            catalog,
            default_for_all(catalog.permission_names, catalog.default_permissions, Seq::empty())->Ok_0,
        );
    }
    let bound = if id == everyone() {
        Some(state.guild_id)
    } else {
        lookup(state.roles, id)
    };
    if bound is Some && role_with_id(catalog.roles, bound->0) is Some {
        let actual = role_with_id(catalog.roles, bound->0)->0.permissions;
        changed_where_all_can_be_given(id, desired.permissions, actual, catalog, Seq::empty());
        assert(can_be_changed(desired, actual, catalog) <==> forall|k: int|
            0 <= k < desired.permissions.len() ==> can_be_one(#[trigger] desired.permissions[k], actual, catalog));
    }
}

proof fn all_can_be_planned(
    plan: PlanView,
    roles: Seq<(Seq<char>, RoleDefinitionView)>,
    i: int,
    definition: DefinitionView,
    state: StateView,
    catalog: RoleCatalogView,
)
    requires
        0 <= i <= roles.len(),
    ensures
        with_declared(plan, roles, i, definition, state, catalog) is Ok <==> forall|k: int|
            i <= k < roles.len() ==> can_be_planned(
                (#[trigger] roles[k]).0,
                roles[k].1,
                definition,
                state,
                catalog,
            ),
    decreases roles.len() - i,
{
    if i < roles.len() {
        one_role_can_be_planned(roles[i].0, roles[i].1, definition, state, catalog);
        let step = role_step(roles[i].0, roles[i].1, definition, state, catalog);
        if step is Ok {
            all_can_be_planned(plan.after(roles[i].0, step->Ok_0), roles, i + 1, definition, state, catalog);
        }
    }
}

/// A plan is made exactly where each declared role can be planned, and the order of roles, too.
pub proof fn roles_are_planned_where_they_can_be(
    definition: DefinitionView,
    state: StateView,
    catalog: RoleCatalogView,
)
    ensures
        role_plan(definition, state, catalog) is Ok <==> {
            &&& forall|k: int|
                0 <= k < definition.roles.len() ==> can_be_planned(
                    (#[trigger] definition.roles[k]).0,
                    definition.roles[k].1,
                    definition,
                    state,
                    catalog,
                )
            &&& role_order_plan(definition, state, catalog) is Ok
        },
        definition.order is None || definition.order->0.roles.len() == 0 ==> role_order_plan(
            definition,
            state,
            catalog,
        ) is Ok,
{
    all_can_be_planned(PlanView::none(), definition.roles, 0, definition, state, catalog);
}

} // verus!
