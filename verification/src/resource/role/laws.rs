//! What holds of plans of roles as a whole.

use vstd::prelude::*;

use crate::configuration::definition::DefinitionView;
use crate::configuration::permission::KnownPermission;
use crate::configuration::role::{later, managed, ManagedValue, RoleAttributesView, RoleDefinitionView};
use crate::configuration::state::{role_id_of, MappingsView, StateView};
use crate::domain::ErrorView;
use crate::ids::{everyone, RoleLogicalId};
use crate::ordered::{
    has_key, lookup, lookup_has_entry, lookup_in_sorted, put, put_all_then_lookup, put_keeps_sorted, put_then_lookup,
    sorted, OrderedKey,
};
use crate::port::{RoleCatalogView, RoleSnapshotView};
use crate::resource::change::ValueChange;
use crate::resource::role::attributes::{
    attribute_changes, changed_permissions, composed, created_permissions, created_role, default_for_all,
    permission_changes, with_sets,
};
use crate::resource::role::order::{
    immovable_roles, named_roles, referenced_roles, role_order, role_order_plan, role_with_id, unmanageable,
    NamedRolesView, OrderPlanView,
};
use crate::resource::role::plan::{role_step, with_declared, with_released, ChangeView, PlanView, RoleStepView};
use crate::resource::sorting::{new_order_keeps_the_rest, order_in_place_stays, relative_order};

verus! {

/// Whether a role has every permission that is wanted, as it is wanted.
pub open spec fn has_wanted(
    wanted: Seq<(Seq<char>, ManagedValue<bool>)>,
    actual: Seq<(Seq<char>, bool)>,
    defaults: Seq<(Seq<char>, bool)>,
) -> bool {
    forall|k: int|
        0 <= k < wanted.len() ==> {
            &&& lookup(defaults, (#[trigger] wanted[k]).0) is Some
            &&& lookup(actual, wanted[k].0) == Some(managed(wanted[k].1, lookup(defaults, wanted[k].0)->0))
        }
}

/// Where every permission is as it is wanted, none of them changes.
pub proof fn wanted_permissions_do_not_change(
    id: Seq<char>,
    wanted: Seq<(Seq<char>, ManagedValue<bool>)>,
    actual: Seq<(Seq<char>, bool)>,
    defaults: Seq<(Seq<char>, bool)>,
    grantable: Seq<(Seq<char>, ())>,
    changes: Seq<(Seq<char>, ValueChange<bool>)>,
)
    requires
        has_wanted(wanted, actual, defaults),
    ensures
        permission_changes(id, wanted, actual, defaults, grantable, changes) == Ok::<
            Seq<(Seq<char>, ValueChange<bool>)>,
            ErrorView,
        >(changes),
    decreases wanted.len(),
{
    if wanted.len() > 0 {
        let rest = wanted.drop_first();
        assert(lookup(actual, wanted[0].0) is Some);
        assert forall|k: int| 0 <= k < rest.len() implies {
            &&& lookup(defaults, (#[trigger] rest[k]).0) is Some
            &&& lookup(actual, rest[k].0) == Some(managed(rest[k].1, lookup(defaults, rest[k].0)->0))
        } by {
            assert(rest[k] == wanted[k + 1]);
        }
        wanted_permissions_do_not_change(id, rest, actual, defaults, grantable, changes);
    }
}

/// Whether a role has every attribute that is wanted, as it is wanted.
pub open spec fn is_as_wanted(
    actual: RoleSnapshotView,
    desired: RoleAttributesView,
    defaults: Seq<(Seq<char>, bool)>,
) -> bool {
    &&& desired.name is Some ==> actual.name == managed(desired.name->0, "new role"@)
    &&& desired.color is Some ==> actual.color == managed(desired.color->0, 0)
    &&& desired.hoist is Some ==> actual.hoist == managed(desired.hoist->0, false)
    &&& desired.mentionable is Some ==> actual.mentionable == managed(desired.mentionable->0, false)
    &&& has_wanted(desired.permissions, actual.permissions, defaults)
}

/// A role that is as it is wanted does not change, whatever the bot can grant.
pub proof fn roles_as_wanted_do_not_change(
    id: Seq<char>,
    actual: RoleSnapshotView,
    desired: RoleAttributesView,
    defaults: Seq<(Seq<char>, bool)>,
    grantable: Seq<(Seq<char>, ())>,
)
    requires
        is_as_wanted(actual, desired, defaults),
    ensures
        attribute_changes(id, actual, desired, defaults, grantable) == Ok::<
            Option<crate::resource::role::attributes::AttributeChangesView>,
            ErrorView,
        >(None),
{
    wanted_permissions_do_not_change(
        id,
        desired.permissions,
        actual.permissions,
        defaults,
        grantable,
        Seq::empty(),
    );
}

proof fn permission_changes_lead_to_wanted(
    id: Seq<char>,
    wanted: Seq<(Seq<char>, ManagedValue<bool>)>,
    actual: Seq<(Seq<char>, bool)>,
    defaults: Seq<(Seq<char>, bool)>,
    grantable: Seq<(Seq<char>, ())>,
    changes: Seq<(Seq<char>, ValueChange<bool>)>,
    name: Seq<char>,
)
    requires
        sorted::<KnownPermission, ManagedValue<bool>>(wanted),
        sorted::<KnownPermission, ValueChange<bool>>(changes),
        permission_changes(id, wanted, actual, defaults, grantable, changes) is Ok,
    ensures
        ({
            let all = permission_changes(id, wanted, actual, defaults, grantable, changes)->Ok_0;
            &&& sorted::<KnownPermission, ValueChange<bool>>(all)
            &&& !has_key(wanted, name) ==> lookup(all, name) == lookup(changes, name)
            &&& has_key(wanted, name) ==> {
                let desired = managed(lookup(wanted, name)->0, lookup(defaults, name)->0);
                &&& lookup(defaults, name) is Some
                &&& lookup(actual, name) is Some
                &&& lookup(actual, name) != Some(desired) ==> lookup(all, name) is Some && lookup(all, name)->0.desired
                    == desired
                &&& lookup(actual, name) == Some(desired) ==> lookup(all, name) == lookup(changes, name)
            }
        }),
    decreases wanted.len(),
{
    if wanted.len() > 0 {
        let rest = wanted.drop_first();
        let first = wanted[0].0;
        assert(sorted::<KnownPermission, ManagedValue<bool>>(rest)) by {
            assert forall|i: int, j: int| 0 <= i < j < rest.len() implies KnownPermission::before(
                #[trigger] rest[i].0,
                #[trigger] rest[j].0,
            ) by {
                assert(rest[i] == wanted[i + 1] && rest[j] == wanted[j + 1]);
            }
        }
        let current = lookup(actual, first)->0;
        let desired = managed(wanted[0].1, lookup(defaults, first)->0);
        let change = ValueChange { current, desired };
        let next = if current == desired {
            changes
        } else {
            put::<KnownPermission, ValueChange<bool>>(changes, first, change)
        };
        put_keeps_sorted::<KnownPermission, ValueChange<bool>>(changes, first, change);
        put_then_lookup::<KnownPermission, ValueChange<bool>>(changes, first, change, name);
        permission_changes_lead_to_wanted(id, rest, actual, defaults, grantable, next, name);
        if name == first {
            assert(!has_key(rest, name)) by {
                if has_key(rest, name) {
                    let k = lookup_has_entry(rest, name);
                    assert(rest[k] == wanted[k + 1]);
                    KnownPermission::order_is_total(wanted[0].0, wanted[k + 1].0);
                }
            }
        }
    }
}

pub(crate) proof fn changed_permissions_have(
    permissions: Seq<(Seq<char>, bool)>,
    changes: Seq<(Seq<char>, ValueChange<bool>)>,
    name: Seq<char>,
)
    requires
        sorted::<KnownPermission, ValueChange<bool>>(changes),
    ensures
        lookup(changed_permissions(permissions, changes), name) == match lookup(changes, name) {
            Some(change) => Some(change.desired),
            None => lookup(permissions, name),
        },
    decreases changes.len(),
{
    if changes.len() > 0 {
        let rest = changes.drop_first();
        assert(sorted::<KnownPermission, ValueChange<bool>>(rest)) by {
            assert forall|i: int, j: int| 0 <= i < j < rest.len() implies KnownPermission::before(
                #[trigger] rest[i].0,
                #[trigger] rest[j].0,
            ) by {
                assert(rest[i] == changes[i + 1] && rest[j] == changes[j + 1]);
            }
        }
        let next = put::<KnownPermission, bool>(permissions, changes[0].0, changes[0].1.desired);
        changed_permissions_have(next, rest, name);
        put_then_lookup::<KnownPermission, bool>(permissions, changes[0].0, changes[0].1.desired, name);
        if name == changes[0].0 && has_key(rest, name) {
            let k = lookup_has_entry(rest, name);
            assert(rest[k] == changes[k + 1]);
            KnownPermission::order_is_total(changes[0].0, changes[k + 1].0);
        }
    }
}

/// A role that was changed as planned is as it is wanted: the next plan does not
/// change it again.
pub proof fn planned_updates_settle_roles(
    id: Seq<char>,
    actual: RoleSnapshotView,
    desired: RoleAttributesView,
    defaults: Seq<(Seq<char>, bool)>,
    grantable: Seq<(Seq<char>, ())>,
    later_grantable: Seq<(Seq<char>, ())>,
)
    requires
        sorted::<KnownPermission, ManagedValue<bool>>(desired.permissions),
        attribute_changes(id, actual, desired, defaults, grantable) is Ok,
        attribute_changes(id, actual, desired, defaults, grantable)->Ok_0 is Some,
    ensures
        ({
            let changes = attribute_changes(id, actual, desired, defaults, grantable)->Ok_0->0;
            let updated = changes.update(actual.permissions).applied_to(actual);
            &&& is_as_wanted(updated, desired, defaults)
            &&& attribute_changes(id, updated, desired, defaults, later_grantable) == Ok::<
                Option<crate::resource::role::attributes::AttributeChangesView>,
                ErrorView,
            >(None)
        }),
{
    let changes = attribute_changes(id, actual, desired, defaults, grantable)->Ok_0->0;
    let updated = changes.update(actual.permissions).applied_to(actual);
    let wanted = desired.permissions;
    assert forall|k: int| 0 <= k < wanted.len() implies {
        &&& lookup(defaults, (#[trigger] wanted[k]).0) is Some
        &&& lookup(updated.permissions, wanted[k].0) == Some(
            managed(wanted[k].1, lookup(defaults, wanted[k].0)->0),
        )
    } by {
        let name = wanted[k].0;
        lookup_in_sorted::<KnownPermission, ManagedValue<bool>>(wanted, k);
        permission_changes_lead_to_wanted(
            id,
            wanted,
            actual.permissions,
            defaults,
            grantable,
            Seq::empty(),
            name,
        );
        changed_permissions_have(actual.permissions, changes.permissions, name);
    }
    roles_as_wanted_do_not_change(id, updated, desired, defaults, later_grantable);
}

proof fn created_permissions_have(
    id: Seq<char>,
    wanted: Seq<(Seq<char>, ManagedValue<bool>)>,
    defaults: Seq<(Seq<char>, bool)>,
    grantable: Seq<(Seq<char>, ())>,
    gathered: Seq<(Seq<char>, bool)>,
    name: Seq<char>,
)
    requires
        sorted::<KnownPermission, ManagedValue<bool>>(wanted),
        created_permissions(id, wanted, defaults, grantable, gathered) is Ok,
    ensures
        ({
            let all = created_permissions(id, wanted, defaults, grantable, gathered)->Ok_0;
            &&& !has_key(wanted, name) ==> lookup(all, name) == lookup(gathered, name)
            &&& has_key(wanted, name) ==> lookup(defaults, name) is Some && lookup(all, name) == Some(
                managed(lookup(wanted, name)->0, lookup(defaults, name)->0),
            )
        }),
    decreases wanted.len(),
{
    if wanted.len() > 0 {
        let rest = wanted.drop_first();
        let first = wanted[0].0;
        assert(sorted::<KnownPermission, ManagedValue<bool>>(rest)) by {
            assert forall|i: int, j: int| 0 <= i < j < rest.len() implies KnownPermission::before(
                #[trigger] rest[i].0,
                #[trigger] rest[j].0,
            ) by {
                assert(rest[i] == wanted[i + 1] && rest[j] == wanted[j + 1]);
            }
        }
        let desired = managed(wanted[0].1, lookup(defaults, first)->0);
        let next = put::<KnownPermission, bool>(gathered, first, desired);
        put_then_lookup::<KnownPermission, bool>(gathered, first, desired, name);
        created_permissions_have(id, rest, defaults, grantable, next, name);
        if name == first && has_key(rest, name) {
            let k = lookup_has_entry(rest, name);
            assert(rest[k] == wanted[k + 1]);
            KnownPermission::order_is_total(wanted[0].0, wanted[k + 1].0);
        }
    }
}

/// A role that was created as planned is as it is wanted: the next plan does not
/// change it.
pub proof fn planned_creations_settle_roles(
    id: Seq<char>,
    desired: RoleAttributesView,
    names: Seq<(Seq<char>, ())>,
    defaults: Seq<(Seq<char>, bool)>,
    grantable: Seq<(Seq<char>, ())>,
    role: RoleSnapshotView,
    later_grantable: Seq<(Seq<char>, ())>,
)
    requires
        sorted::<KnownPermission, ManagedValue<bool>>(desired.permissions),
        created_role(id, desired, names, defaults, grantable) is Ok,
        ({
            let created = created_role(id, desired, names, defaults, grantable)->Ok_0;
            &&& role.name == created.name
            &&& role.color == created.color
            &&& role.hoist == created.hoist
            &&& role.mentionable == created.mentionable
            &&& role.permissions == created.permissions
        }),
    ensures
        is_as_wanted(role, desired, defaults),
        attribute_changes(id, role, desired, defaults, later_grantable) == Ok::<
            Option<crate::resource::role::attributes::AttributeChangesView>,
            ErrorView,
        >(None),
{
    let wanted = desired.permissions;
    let gathered = default_for_all(names, defaults, Seq::empty())->Ok_0;
    assert forall|k: int| 0 <= k < wanted.len() implies {
        &&& lookup(defaults, (#[trigger] wanted[k]).0) is Some
        &&& lookup(role.permissions, wanted[k].0) == Some(managed(wanted[k].1, lookup(defaults, wanted[k].0)->0))
    } by {
        lookup_in_sorted::<KnownPermission, ManagedValue<bool>>(wanted, k);
        created_permissions_have(id, wanted, defaults, grantable, gathered, wanted[k].0);
    }
    roles_as_wanted_do_not_change(id, role, desired, defaults, later_grantable);
}

/// What stands later wins, and what is left out later is kept: of attributes and of
/// each single permission.
pub proof fn later_attributes_win(first: RoleAttributesView, second: RoleAttributesView, permission: Seq<char>)
    requires
        sorted::<KnownPermission, ManagedValue<bool>>(second.permissions),
    ensures
        first.merged(second).name == later(first.name, second.name),
        first.merged(second).color == later(first.color, second.color),
        first.merged(second).hoist == later(first.hoist, second.hoist),
        first.merged(second).mentionable == later(first.mentionable, second.mentionable),
        lookup(first.merged(second).permissions, permission) == later(
            lookup(first.permissions, permission),
            lookup(second.permissions, permission),
        ),
{
    put_all_then_lookup::<KnownPermission, ManagedValue<bool>>(first.permissions, second.permissions, permission);
}

/// What a role says itself wins over all of its settings sets.
pub proof fn direct_attributes_win(role: RoleDefinitionView, sets: Seq<(Seq<char>, RoleAttributesView)>, permission: Seq<char>)
    requires
        sorted::<KnownPermission, ManagedValue<bool>>(role.attributes().permissions),
    ensures
        role.attributes().name is Some ==> composed(role, sets).name == role.attributes().name,
        role.attributes().color is Some ==> composed(role, sets).color == role.attributes().color,
        role.attributes().hoist is Some ==> composed(role, sets).hoist == role.attributes().hoist,
        role.attributes().mentionable is Some ==> composed(role, sets).mentionable == role.attributes().mentionable,
        has_key(role.attributes().permissions, permission) ==> lookup(composed(role, sets).permissions, permission)
            == lookup(role.attributes().permissions, permission),
{
    let before = with_sets(RoleAttributesView::none(), role.settings_sets(), sets, 0);
    later_attributes_win(before, role.attributes(), permission);
}

/// A role that is only referred to is never changed, created or deleted.
pub proof fn references_are_never_changed(
    id: Seq<char>,
    definition: DefinitionView,
    state: StateView,
    catalog: RoleCatalogView,
)
    ensures
        role_step(id, RoleDefinitionView::Reference, definition, state, catalog) is Ok ==> role_step(
            id,
            RoleDefinitionView::Reference,
            definition,
            state,
            catalog,
        ) == Ok::<RoleStepView, ErrorView>(RoleStepView::Nothing),
{
    let none = RoleAttributesView::none();
    let desired = composed(RoleDefinitionView::Reference, definition.settings_sets.role);
    assert(with_sets(none, Seq::<Seq<char>>::empty(), definition.settings_sets.role, 0) == none);
    assert(desired.permissions =~= Seq::empty());
    if let Some(discord_id) = role_id_of(state, id) {
        if let Some(actual) = role_with_id(catalog.roles, discord_id) {
            roles_as_wanted_do_not_change(
                id,
                actual,
                desired,
                catalog.default_permissions,
                catalog.grantable_permissions,
            );
        }
    }
}

proof fn declared_changes(
    plan: PlanView,
    i: int,
    definition: DefinitionView,
    state: StateView,
    catalog: RoleCatalogView,
    id: Seq<char>,
)
    requires
        0 <= i <= definition.roles.len(),
        with_declared(plan, definition.roles, i, definition, state, catalog) is Ok,
    ensures
        ({
            let after = with_declared(plan, definition.roles, i, definition, state, catalog)->Ok_0;
            lookup(after.changes, id) is Some ==> lookup(after.changes, id) == lookup(plan.changes, id) || exists|k: int|
                i <= k < definition.roles.len() && (#[trigger] definition.roles[k]).0 == id && match role_step(
                    id,
                    definition.roles[k].1,
                    definition,
                    state,
                    catalog,
                ) {
                    Ok(RoleStepView::Create(_)) => lookup(after.changes, id) == Some(ChangeView::Create),
                    Ok(RoleStepView::Do(change)) => lookup(after.changes, id) == Some(change),
                    _ => false,
                }
        }),
    decreases definition.roles.len() - i,
{
    if i < definition.roles.len() {
        let (name, role) = definition.roles[i];
        let step = role_step(name, role, definition, state, catalog)->Ok_0;
        let next = plan.after(name, step);
        declared_changes(next, i + 1, definition, state, catalog, id);
        match step {
            RoleStepView::Nothing => {},
            RoleStepView::Create(_) => {
                put_then_lookup::<RoleLogicalId, ChangeView>(plan.changes, name, ChangeView::Create, id);
            },
            RoleStepView::Do(change) => {
                put_then_lookup::<RoleLogicalId, ChangeView>(plan.changes, name, change, id);
            },
        }
        let after = with_declared(plan, definition.roles, i, definition, state, catalog)->Ok_0;
        if lookup(after.changes, id) is Some && lookup(after.changes, id) == lookup(next.changes, id) && lookup(
            next.changes,
            id,
        ) != lookup(plan.changes, id) {
            assert(definition.roles[i].0 == id);
        }
    }
}

proof fn released_changes(
    plan: PlanView,
    bound: MappingsView,
    i: int,
    declared: Seq<(Seq<char>, RoleDefinitionView)>,
    id: Seq<char>,
)
    requires
        0 <= i <= bound.len(),
    ensures
        lookup(with_released(plan, bound, i, declared).changes, id) == lookup(plan.changes, id) || (lookup(
            with_released(plan, bound, i, declared).changes,
            id,
        ) is Some && lookup(with_released(plan, bound, i, declared).changes, id)->0 is Release && id != everyone()
            && !has_key(declared, id)),
    decreases bound.len() - i,
{
    if i < bound.len() {
        let change = ChangeView::Release { discord_id: bound[i].1 };
        if bound[i].0 == everyone() || has_key(declared, bound[i].0) {
            released_changes(plan, bound, i + 1, declared, id);
        } else {
            released_changes(plan.with(bound[i].0, change), bound, i + 1, declared, id);
            put_then_lookup::<RoleLogicalId, ChangeView>(plan.changes, bound[i].0, change, id);
        }
    }
}

/// A plan deletes only roles that are declared to be absent and bound, releases only
/// roles that are not declared, and never deletes or releases the role of every member.
pub proof fn plans_delete_only_what_is_declared_absent(
    definition: DefinitionView,
    state: StateView,
    catalog: RoleCatalogView,
    id: Seq<char>,
)
    requires
        sorted::<RoleLogicalId, RoleDefinitionView>(definition.roles),
        crate::resource::role::plan::role_plan(definition, state, catalog) is Ok,
    ensures
        ({
            let plan = crate::resource::role::plan::role_plan(definition, state, catalog)->Ok_0;
            let change = lookup(plan.changes, id);
            &&& change is Some && change->0 is Delete ==> id != everyone() && lookup(definition.roles, id) == Some(
                RoleDefinitionView::Absent,
            ) && lookup(state.roles, id) == Some(change->0->Delete_discord_id)
            &&& change is Some && change->0 is Release ==> id != everyone() && !has_key(definition.roles, id)
            &&& change is Some && lookup(definition.roles, id) == Some(RoleDefinitionView::Reference) ==> false
        }),
{
    let declared = with_declared(PlanView::none(), definition.roles, 0, definition, state, catalog)->Ok_0;
    declared_changes(PlanView::none(), 0, definition, state, catalog, id);
    released_changes(declared, state.roles, 0, definition.roles, id);
    references_are_never_changed(id, definition, state, catalog);
    if lookup(declared.changes, id) is Some {
        let k = choose|k: int|
            0 <= k < definition.roles.len() && (#[trigger] definition.roles[k]).0 == id && match role_step(
                id,
                definition.roles[k].1,
                definition,
                state,
                catalog,
            ) {
                Ok(RoleStepView::Create(_)) => lookup(declared.changes, id) == Some(ChangeView::Create),
                Ok(RoleStepView::Do(change)) => lookup(declared.changes, id) == Some(change),
                _ => false,
            };
        lookup_in_sorted::<RoleLogicalId, RoleDefinitionView>(definition.roles, k);
    }
}

/// Whether two lists of roles hold the same identifiers, of which the bot can manage the same.
pub open spec fn same_to_manage(a: Seq<RoleSnapshotView>, b: Seq<RoleSnapshotView>) -> bool {
    forall|id: u64|
        match #[trigger] role_with_id(a, id) {
            Some(role) => role_with_id(b, id) is Some && role_with_id(b, id)->0.manageable == role.manageable,
            None => role_with_id(b, id) is None,
        }
}

proof fn same_roles_are_named(
    names: Seq<Seq<char>>,
    i: int,
    definition: DefinitionView,
    state: StateView,
    a: Seq<RoleSnapshotView>,
    b: Seq<RoleSnapshotView>,
    gathered: NamedRolesView,
    fixed: Seq<u64>,
)
    requires
        0 <= i <= names.len(),
        same_to_manage(a, b),
        named_roles(names, i, definition, state, a, gathered) is Ok,
    ensures
        ({
            let before = named_roles(names, i, definition, state, a, gathered)->Ok_0;
            let after = named_roles(names, i, definition, state, b, NamedRolesView { fixed, ..gathered });
            &&& after is Ok
            &&& after->Ok_0.ids == before.ids
            &&& after->Ok_0.deferred == before.deferred
        }),
    decreases names.len() - i,
{
    if i < names.len() {
        let name = names[i];
        match role_id_of(state, name) {
            None => {
                same_roles_are_named(
                    names,
                    i + 1,
                    definition,
                    state,
                    a,
                    b,
                    NamedRolesView { deferred: true, ..gathered },
                    fixed,
                );
            },
            Some(id) => {
                let declared = lookup(definition.roles, name);
                let role = role_with_id(a, id)->0;
                let stays = declared is Some && declared->0 is Reference || name == everyone() || !role.manageable;
                assert(role_with_id(b, id) is Some && role_with_id(b, id)->0.manageable == role.manageable);
                same_roles_are_named(
                    names,
                    i + 1,
                    definition,
                    state,
                    a,
                    b,
                    NamedRolesView {
                        ids: gathered.ids.push(id),
                        fixed: if stays {
                            gathered.fixed.push(id)
                        } else {
                            gathered.fixed
                        },
                        deferred: gathered.deferred,
                    },
                    if stays {
                        fixed.push(id)
                    } else {
                        fixed
                    },
                );
            },
        }
    }
}

/// Once the roles of a guild stand in the order that was planned, no other order is planned.
pub proof fn planned_orders_settle(
    definition: DefinitionView,
    state: StateView,
    catalog: RoleCatalogView,
    after: RoleCatalogView,
)
    requires
        role_order_plan(definition, state, catalog) is Ok,
        role_order_plan(definition, state, catalog)->Ok_0 is Some,
        role_order_plan(definition, state, catalog)->Ok_0->0.expected_order.len() > 0,
        role_order(after.roles, state.guild_id) == role_order_plan(
            definition,
            state,
            catalog,
        )->Ok_0->0.expected_order,
        same_to_manage(catalog.roles, after.roles),
    ensures
        role_order_plan(definition, state, after) == Ok::<Option<OrderPlanView>, ErrorView>(None),
{
    let names = definition.order->0.roles;
    let current = role_order(catalog.roles, state.guild_id);
    let start = NamedRolesView {
        ids: Seq::empty(),
        fixed: immovable_roles(current, catalog.roles, state.guild_id),
        deferred: false,
    };
    let named = named_roles(names, 0, definition, state, catalog.roles, start)->Ok_0;
    let fixed = named.fixed + referenced_roles(definition.roles, state);
    let desired = role_order(after.roles, state.guild_id);
    let fixed_after = immovable_roles(desired, after.roles, state.guild_id);
    same_roles_are_named(names, 0, definition, state, catalog.roles, after.roles, start, fixed_after);
    let again = named_roles(
        names,
        0,
        definition,
        state,
        after.roles,
        NamedRolesView { fixed: fixed_after, ..start },
    )->Ok_0;
    new_order_keeps_the_rest(current, named.ids, fixed);
    order_in_place_stays(desired, named.ids, again.fixed + referenced_roles(definition.roles, state));
}

proof fn gathered_stay_fixed(
    names: Seq<Seq<char>>,
    i: int,
    definition: DefinitionView,
    state: StateView,
    roles: Seq<RoleSnapshotView>,
    gathered: NamedRolesView,
    id: u64,
)
    requires
        0 <= i <= names.len(),
        gathered.fixed.contains(id),
        named_roles(names, i, definition, state, roles, gathered) is Ok,
    ensures
        named_roles(names, i, definition, state, roles, gathered)->Ok_0.fixed.contains(id),
    decreases names.len() - i,
{
    if i < names.len() {
        let name = names[i];
        match role_id_of(state, name) {
            None => {
                let next = NamedRolesView { deferred: true, ..gathered };
                gathered_stay_fixed(names, i + 1, definition, state, roles, next, id);
            },
            Some(named) => {
                let declared = lookup(definition.roles, name);
                let stays = declared is Some && declared->0 is Reference || name == everyone() || !role_with_id(
                    roles,
                    named,
                )->0.manageable;
                let next = NamedRolesView {
                    ids: gathered.ids.push(named),
                    fixed: if stays {
                        gathered.fixed.push(named)
                    } else {
                        gathered.fixed
                    },
                    deferred: gathered.deferred,
                };
                let k = gathered.fixed.index_of(id);
                assert(next.fixed[k] == id);
                gathered_stay_fixed(names, i + 1, definition, state, roles, next, id);
            },
        }
    }
}

proof fn unmanageable_are_found(ids: Seq<u64>, roles: Seq<RoleSnapshotView>, id: u64)
    requires
        ids.contains(id),
        role_with_id(roles, id) is Some,
        !role_with_id(roles, id)->0.manageable,
    ensures
        unmanageable(ids, roles).contains(id),
    decreases ids.len(),
{
    let rest = unmanageable(ids.drop_last(), roles);
    let all = unmanageable(ids, roles);
    if ids.last() == id {
        assert(all[all.len() - 1] == id);
    } else {
        let i = ids.index_of(id);
        assert(ids.drop_last()[i] == id);
        unmanageable_are_found(ids.drop_last(), roles, id);
        let k = rest.index_of(id);
        assert(all[k] == id);
    }
}

/// A planned order holds the roles of the guild, each once, and leaves every role in
/// its place that the bot cannot manage, as well as the role that every member has.
pub proof fn planned_orders_move_no_fixed_role(definition: DefinitionView, state: StateView, catalog: RoleCatalogView, i: int)
    requires
        role_order_plan(definition, state, catalog) is Ok,
        role_order_plan(definition, state, catalog)->Ok_0 is Some,
        role_order_plan(definition, state, catalog)->Ok_0->0.expected_order.len() > 0,
        0 <= i < role_order(catalog.roles, state.guild_id).len(),
    ensures
        ({
            let current = role_order(catalog.roles, state.guild_id);
            let expected = role_order_plan(definition, state, catalog)->Ok_0->0.expected_order;
            let role = role_with_id(catalog.roles, current[i]);
            &&& expected.to_multiset() == current.to_multiset()
            &&& expected.no_duplicates()
            &&& role is Some && (!role->0.manageable || current[i] == state.guild_id) ==> expected[i] == current[i]
        }),
{
    let names = definition.order->0.roles;
    let current = role_order(catalog.roles, state.guild_id);
    let start = NamedRolesView {
        ids: Seq::empty(),
        fixed: immovable_roles(current, catalog.roles, state.guild_id),
        deferred: false,
    };
    let named = named_roles(names, 0, definition, state, catalog.roles, start)->Ok_0;
    let referenced = referenced_roles(definition.roles, state);
    let fixed = named.fixed + referenced;
    new_order_keeps_the_rest(current, named.ids, fixed);
    let role = role_with_id(catalog.roles, current[i]);
    if role is Some && (!role->0.manageable || current[i] == state.guild_id) {
        let hard = unmanageable(current, catalog.roles);
        if current[i] == state.guild_id {
            assert(start.fixed[start.fixed.len() - 1] == current[i]);
        } else {
            unmanageable_are_found(current, catalog.roles, current[i]);
            let k = hard.index_of(current[i]);
            assert(start.fixed[k] == current[i]);
        }
        gathered_stay_fixed(names, 0, definition, state, catalog.roles, start, current[i]);
        let k = named.fixed.index_of(current[i]);
        assert(fixed[k] == current[i]);
        assert(relative_order(current, named.ids, fixed)->0[i] == current[i]);
    }
}

} // verus!
