//! What a plan of roles comes to, told by what the definition, the state and the guild hold.

use vstd::prelude::*;

use crate::configuration::definition::DefinitionView;
use crate::configuration::permission::KnownPermission;
use crate::configuration::role::{ManagedValue, RoleAttributesView, RoleDefinitionView};
use crate::configuration::state::{MappingsView, StateView};
use crate::ids::{everyone, RoleLogicalId};
use crate::ordered::{
    has_key, lookup, lookup_has_entry, lookup_in_sorted, put, put_all_keeps_sorted, put_all_then_lookup,
    put_then_lookup, rest_is_sorted, sorted, sorted_entries, OrderedKey,
};
use crate::port::{RoleCatalogView, RoleCreateView, RoleSnapshotView};
use crate::resource::change::ValueChange;
use crate::resource::role::attributes::{
    attribute_changes, composed, created_permissions, created_role, default_for_all, permission_changes, with_sets,
    AttributeChangesView,
};
use crate::resource::role::order::{role_with_id, role_with_id_is_listed};
use crate::resource::role::plan::{
    role_plan, role_step, with_declared, with_released, ChangeView, PlanView, RoleStepView,
};

verus! {

/// The value that an attribute asks for: its own, or the default, or none where it is left out.
pub open spec fn asked<W>(value: Option<ManagedValue<W>>, default: W) -> Option<W> {
    match value {
        None => None,
        Some(ManagedValue::Value(value)) => Some(value),
        Some(ManagedValue::Default) => Some(default),
    }
}

/// Whether a change leads from a value to what is asked for, and is there only where these differ.
pub open spec fn leads<W>(change: Option<ValueChange<W>>, current: W, asked: Option<W>) -> bool {
    match change {
        None => asked is None || asked == Some(current),
        Some(change) => change.current == current && asked == Some(change.desired) && change.desired != current,
    }
}

/// Whether a value is what is asked for, or is the one before where nothing is.
pub open spec fn is_asked<W>(after: W, before: W, asked: Option<W>) -> bool {
    match asked {
        Some(value) => after == value,
        None => after == before,
    }
}

/// The value that is asked for a permission: none, where it is not named.
pub open spec fn asked_permission(
    desired: RoleAttributesView,
    permission: Seq<char>,
    defaults: Seq<(Seq<char>, bool)>,
) -> Option<bool> {
    match lookup(desired.permissions, permission) {
        None => None,
        Some(ManagedValue::Value(value)) => Some(value),
        Some(ManagedValue::Default) => lookup(defaults, permission),
    }
}

/// Whether a role has every attribute and every named permission that is asked for, and
/// all others as another role has them.
pub open spec fn is_as_asked(
    after: RoleSnapshotView,
    before: RoleSnapshotView,
    desired: RoleAttributesView,
    defaults: Seq<(Seq<char>, bool)>,
) -> bool {
    &&& after.id == before.id && after.position == before.position && after.manageable == before.manageable
    &&& is_asked(after.name, before.name, asked(desired.name, "new role"@))
    &&& is_asked(after.color, before.color, asked(desired.color, 0))
    &&& is_asked(after.hoist, before.hoist, asked(desired.hoist, false))
    &&& is_asked(after.mentionable, before.mentionable, asked(desired.mentionable, false))
    &&& forall|permission: Seq<char>| #[trigger]
        lookup(after.permissions, permission) == if has_key(desired.permissions, permission) {
            asked_permission(desired, permission, defaults)
        } else {
            lookup(before.permissions, permission)
        }
}

/// Whether an attribute is what is given last: what the role says itself, or else what
/// the last of its settings sets says that says anything.
pub open spec fn is_given_last<W>(
    value: Option<W>,
    own: Option<W>,
    sets: Seq<Seq<char>>,
    declared: Seq<(Seq<char>, RoleAttributesView)>,
    of: spec_fn(RoleAttributesView) -> Option<W>,
) -> bool {
    if own is Some {
        value == own
    } else {
        match value {
            Some(_) => exists|i: int|
                0 <= i < sets.len() && lookup(declared, #[trigger] sets[i]) is Some && of(
                    lookup(declared, sets[i])->0,
                ) == value && says_nothing_after(sets, declared, of, i),
            None => says_nothing_after(sets, declared, of, -1),
        }
    }
}

/// Whether no settings set behind a place says anything.
pub open spec fn says_nothing_after<W>(
    sets: Seq<Seq<char>>,
    declared: Seq<(Seq<char>, RoleAttributesView)>,
    of: spec_fn(RoleAttributesView) -> Option<W>,
    i: int,
) -> bool {
    forall|j: int|
        i < j < sets.len() && lookup(declared, #[trigger] sets[j]) is Some ==> of(lookup(declared, sets[j])->0) is None
}

/// Whether the permissions of all settings sets are in order.
pub open spec fn sets_are_sorted(declared: Seq<(Seq<char>, RoleAttributesView)>) -> bool {
    forall|name: Seq<char>|
        (#[trigger] lookup(declared, name)) is Some ==> sorted::<KnownPermission, ManagedValue<bool>>(
            lookup(declared, name)->0.permissions,
        )
}

/// Whether attributes that are merged give what the later ones give, or else the earlier ones.
spec fn merges<W>(of: spec_fn(RoleAttributesView) -> Option<W>) -> bool {
    &&& of(RoleAttributesView::none()) is None
    &&& forall|a: RoleAttributesView, b: RoleAttributesView|
        sorted::<KnownPermission, ManagedValue<bool>>(b.permissions) ==> #[trigger] of(a.merged(b)) == if of(b) is Some {
            of(b)
        } else {
            of(a)
        }
}

proof fn sets_give_the_last<W>(
    attributes: RoleAttributesView,
    sets: Seq<Seq<char>>,
    declared: Seq<(Seq<char>, RoleAttributesView)>,
    i: int,
    of: spec_fn(RoleAttributesView) -> Option<W>,
)
    requires
        0 <= i <= sets.len(),
        sets_are_sorted(declared),
        merges(of),
    ensures
        ({
            let after = of(with_sets(attributes, sets, declared, i));
            ||| after == of(attributes) && says_nothing_after(sets, declared, of, i - 1)
            ||| exists|k: int|
                i <= k < sets.len() && lookup(declared, #[trigger] sets[k]) is Some && of(lookup(declared, sets[k])->0)
                    == after && after is Some && says_nothing_after(sets, declared, of, k)
        }),
    decreases sets.len() - i,
{
    if i < sets.len() {
        let after = of(with_sets(attributes, sets, declared, i));
        match lookup(declared, sets[i]) {
            Some(settings) => {
                let next = attributes.merged(settings);
                sets_give_the_last(next, sets, declared, i + 1, of);
                assert(of(next) == if of(settings) is Some {
                    of(settings)
                } else {
                    of(attributes)
                });
                if after == of(next) && says_nothing_after(sets, declared, of, i) {
                    if of(settings) is Some {
                        assert(lookup(declared, sets[i]) is Some);
                    } else {
                        assert(says_nothing_after(sets, declared, of, i - 1));
                    }
                }
            },
            None => {
                sets_give_the_last(attributes, sets, declared, i + 1, of);
                if after == of(attributes) && says_nothing_after(sets, declared, of, i) {
                    assert(says_nothing_after(sets, declared, of, i - 1));
                }
            },
        }
    }
}

proof fn composed_gives_the_last<W>(
    sets: Seq<Seq<char>>,
    attributes: RoleAttributesView,
    declared: Seq<(Seq<char>, RoleAttributesView)>,
    of: spec_fn(RoleAttributesView) -> Option<W>,
)
    requires
        sets_are_sorted(declared),
        sorted::<KnownPermission, ManagedValue<bool>>(attributes.permissions),
        merges(of),
    ensures
        is_given_last(
            of(composed(RoleDefinitionView::Managed { settings_sets: sets, attributes }, declared)),
            of(attributes),
            sets,
            declared,
            of,
        ),
{
    let none = RoleAttributesView::none();
    sets_give_the_last(none, sets, declared, 0, of);
    let before = with_sets(none, sets, declared, 0);
    assert(of(before.merged(attributes)) == if of(attributes) is Some {
        of(attributes)
    } else {
        of(before)
    });
}

proof fn permissions_merge(permission: Seq<char>)
    ensures
        merges(|a: RoleAttributesView| lookup(a.permissions, permission)),
{
    let of = |a: RoleAttributesView| lookup(a.permissions, permission);
    assert forall|a: RoleAttributesView, b: RoleAttributesView|
        sorted::<KnownPermission, ManagedValue<bool>>(b.permissions) implies #[trigger] of(a.merged(b)) == (if of(b)
        is Some {
        of(b)
    } else {
        of(a)
    }) by {
        put_all_then_lookup::<KnownPermission, ManagedValue<bool>>(a.permissions, b.permissions, permission);
    }
}

/// Every attribute of a role, and every single permission, is what is given last: by the
/// role itself, or else by the last of its settings sets that gives it. What nobody gives
/// is left out.
pub proof fn attributes_are_those_given_last(
    sets: Seq<Seq<char>>,
    attributes: RoleAttributesView,
    declared: Seq<(Seq<char>, RoleAttributesView)>,
    permission: Seq<char>,
)
    requires
        sets_are_sorted(declared),
        sorted::<KnownPermission, ManagedValue<bool>>(attributes.permissions),
    ensures
        ({
            let role = RoleDefinitionView::Managed { settings_sets: sets, attributes };
            let all = composed(role, declared);
            &&& is_given_last(all.name, attributes.name, sets, declared, |a: RoleAttributesView| a.name)
            &&& is_given_last(all.color, attributes.color, sets, declared, |a: RoleAttributesView| a.color)
            &&& is_given_last(all.hoist, attributes.hoist, sets, declared, |a: RoleAttributesView| a.hoist)
            &&& is_given_last(
                all.mentionable,
                attributes.mentionable,
                sets,
                declared,
                |a: RoleAttributesView| a.mentionable,
            )
            &&& is_given_last(
                lookup(all.permissions, permission),
                lookup(attributes.permissions, permission),
                sets,
                declared,
                |a: RoleAttributesView| lookup(a.permissions, permission),
            )
        }),
{
    composed_gives_the_last(sets, attributes, declared, |a: RoleAttributesView| a.name);
    composed_gives_the_last(sets, attributes, declared, |a: RoleAttributesView| a.color);
    composed_gives_the_last(sets, attributes, declared, |a: RoleAttributesView| a.hoist);
    composed_gives_the_last(sets, attributes, declared, |a: RoleAttributesView| a.mentionable);
    permissions_merge(permission);
    composed_gives_the_last(sets, attributes, declared, |a: RoleAttributesView| lookup(a.permissions, permission));
}

proof fn sets_stay_sorted(
    attributes: RoleAttributesView,
    sets: Seq<Seq<char>>,
    declared: Seq<(Seq<char>, RoleAttributesView)>,
    i: int,
)
    requires
        sorted::<KnownPermission, ManagedValue<bool>>(attributes.permissions),
    ensures
        sorted::<KnownPermission, ManagedValue<bool>>(with_sets(attributes, sets, declared, i).permissions),
    decreases sets.len() - i,
{
    if 0 <= i < sets.len() {
        match lookup(declared, sets[i]) {
            Some(settings) => {
                put_all_keeps_sorted::<KnownPermission, ManagedValue<bool>>(
                    attributes.permissions,
                    settings.permissions,
                );
                sets_stay_sorted(attributes.merged(settings), sets, declared, i + 1);
            },
            None => {
                sets_stay_sorted(attributes, sets, declared, i + 1);
            },
        }
    }
}

/// The permissions of a role are in order, however it is composed.
pub proof fn composed_permissions_are_sorted(
    role: RoleDefinitionView,
    declared: Seq<(Seq<char>, RoleAttributesView)>,
)
    ensures
        sorted::<KnownPermission, ManagedValue<bool>>(composed(role, declared).permissions),
{
    let none = RoleAttributesView::none();
    sets_stay_sorted(none, role.settings_sets(), declared, 0);
    put_all_keeps_sorted::<KnownPermission, ManagedValue<bool>>(
        with_sets(none, role.settings_sets(), declared, 0).permissions,
        role.attributes().permissions,
    );
}

/// Whether the change of one permission is as it is asked for: it leads to the value that
/// is asked for, and a permission that the role has not got is one that the bot can grant.
pub open spec fn permission_leads(
    change: Option<ValueChange<bool>>,
    value: Option<ManagedValue<bool>>,
    current: Option<bool>,
    default: Option<bool>,
    grantable: bool,
) -> bool {
    match value {
        None => change is None,
        Some(_) => current is Some && default is Some && leads(change, current->0, asked(value, default->0)) && (asked(
            value,
            default->0,
        ) == Some(true) && current == Some(false) ==> grantable),
    }
}

/// Whether changes of a role lead from what it is to what is asked for, and change nothing else.
pub open spec fn changes_lead(
    changes: AttributeChangesView,
    actual: RoleSnapshotView,
    desired: RoleAttributesView,
    catalog: RoleCatalogView,
) -> bool {
    &&& leads(changes.name, actual.name, asked(desired.name, "new role"@))
    &&& leads(changes.color, actual.color, asked(desired.color, 0))
    &&& leads(changes.hoist, actual.hoist, asked(desired.hoist, false))
    &&& leads(changes.mentionable, actual.mentionable, asked(desired.mentionable, false))
    &&& forall|permission: Seq<char>|
        permission_leads(
            #[trigger] lookup(changes.permissions, permission),
            lookup(desired.permissions, permission),
            lookup(actual.permissions, permission),
            lookup(catalog.default_permissions, permission),
            has_key(catalog.grantable_permissions, permission),
        )
}

/// Whether a new role has what is asked for, and in everything else what Discord gives a
/// new role: no colour, and of each permission what every member has.
pub open spec fn creation_is_asked(
    create: RoleCreateView,
    desired: RoleAttributesView,
    catalog: RoleCatalogView,
) -> bool {
    &&& asked(desired.name, "new role"@) == Some(create.name)
    &&& create.color == match asked(desired.color, 0) {
        Some(color) => color,
        None => 0,
    }
    &&& create.hoist == (asked(desired.hoist, false) == Some(true))
    &&& create.mentionable == (asked(desired.mentionable, false) == Some(true))
    &&& forall|permission: Seq<char>|
        permission_is_asked(
            #[trigger] lookup(create.permissions, permission),
            lookup(desired.permissions, permission),
            lookup(catalog.default_permissions, permission),
            has_key(catalog.permission_names, permission),
            has_key(catalog.grantable_permissions, permission),
        )
}

/// Whether one permission of a new role is as it is asked for, or else as every member has
/// it. One that is asked for is one that the bot can grant.
pub open spec fn permission_is_asked(
    granted: Option<bool>,
    value: Option<ManagedValue<bool>>,
    default: Option<bool>,
    is_known: bool,
    grantable: bool,
) -> bool {
    match value {
        Some(_) => default is Some && granted == asked(value, default->0) && (granted == Some(true) ==> grantable),
        None => if is_known {
            granted is Some && granted == default
        } else {
            granted is None
        },
    }
}

proof fn changed_permissions_lead(
    id: Seq<char>,
    wanted: Seq<(Seq<char>, ManagedValue<bool>)>,
    actual: Seq<(Seq<char>, bool)>,
    defaults: Seq<(Seq<char>, bool)>,
    grantable: Seq<(Seq<char>, ())>,
    changes: Seq<(Seq<char>, ValueChange<bool>)>,
    name: Seq<char>,
)
    requires
        sorted::<KnownPermission, ManagedValue<bool>>(wanted),
        permission_changes(id, wanted, actual, defaults, grantable, changes) is Ok,
        has_key(wanted, name) ==> lookup(changes, name) is None,
    ensures
        ({
            let all = permission_changes(id, wanted, actual, defaults, grantable, changes)->Ok_0;
            &&& !has_key(wanted, name) ==> lookup(all, name) == lookup(changes, name)
            &&& has_key(wanted, name) ==> permission_leads(
                lookup(all, name),
                lookup(wanted, name),
                lookup(actual, name),
                lookup(defaults, name),
                has_key(grantable, name),
            )
        }),
    decreases wanted.len(),
{
    if wanted.len() > 0 {
        let rest = wanted.drop_first();
        let first = wanted[0].0;
        rest_is_sorted::<KnownPermission, ManagedValue<bool>>(wanted);
        let current = lookup(actual, first)->0;
        let desired = asked(Some(wanted[0].1), lookup(defaults, first)->0)->0;
        let change = ValueChange { current, desired };
        let next = if current == desired {
            changes
        } else {
            put::<KnownPermission, ValueChange<bool>>(changes, first, change)
        };
        put_then_lookup::<KnownPermission, ValueChange<bool>>(changes, first, change, name);
        changed_permissions_lead(id, rest, actual, defaults, grantable, next, name);
    }
}

proof fn attribute_changes_lead(
    id: Seq<char>,
    actual: RoleSnapshotView,
    desired: RoleAttributesView,
    catalog: RoleCatalogView,
)
    requires
        sorted::<KnownPermission, ManagedValue<bool>>(desired.permissions),
        attribute_changes(
            id,
            actual,
            desired,
            catalog.default_permissions,
            catalog.grantable_permissions,
        ) is Ok,
    ensures
        changes_lead(
            changes_or_none(
                attribute_changes(
                    id,
                    actual,
                    desired,
                    catalog.default_permissions,
                    catalog.grantable_permissions,
                )->Ok_0,
            ),
            actual,
            desired,
            catalog,
        ),
        attribute_changes(
            id,
            actual,
            desired,
            catalog.default_permissions,
            catalog.grantable_permissions,
        )->Ok_0 is Some ==> changes_something(
            attribute_changes(
                id,
                actual,
                desired,
                catalog.default_permissions,
                catalog.grantable_permissions,
            )->Ok_0->0,
        ),
{
    let defaults = catalog.default_permissions;
    let grantable = catalog.grantable_permissions;
    let changes = attribute_changes(id, actual, desired, defaults, grantable)->Ok_0;
    let all = permission_changes(id, desired.permissions, actual.permissions, defaults, grantable, Seq::empty())->Ok_0;
    if changes is None {
        assert(all =~= Seq::empty());
    }
    assert(changes_or_none(changes).permissions == all);
    assert forall|permission: Seq<char>| permission_leads(
        #[trigger] lookup(all, permission),
        lookup(desired.permissions, permission),
        lookup(actual.permissions, permission),
        lookup(defaults, permission),
        has_key(grantable, permission),
    ) by {
        changed_permissions_lead(
            id,
            desired.permissions,
            actual.permissions,
            defaults,
            grantable,
            Seq::empty(),
            permission,
        );
    }
}

/// Changes, or changes of nothing.
pub open spec fn changes_or_none(changes: Option<AttributeChangesView>) -> AttributeChangesView {
    match changes {
        Some(changes) => changes,
        None => AttributeChangesView {
            name: None,
            color: None,
            hoist: None,
            mentionable: None,
            permissions: Seq::empty(),
        },
    }
}

/// Whether changes change anything.
pub open spec fn changes_something(changes: AttributeChangesView) -> bool {
    changes.name is Some || changes.color is Some || changes.hoist is Some || changes.mentionable is Some
        || changes.permissions.len() > 0
}

proof fn all_defaults_are_taken(
    names: Seq<(Seq<char>, ())>,
    defaults: Seq<(Seq<char>, bool)>,
    gathered: Seq<(Seq<char>, bool)>,
    name: Seq<char>,
)
    requires
        default_for_all(names, defaults, gathered) is Ok,
    ensures
        ({
            let all = default_for_all(names, defaults, gathered)->Ok_0;
            &&& has_key(names, name) ==> lookup(all, name) is Some && lookup(all, name) == lookup(defaults, name)
            &&& !has_key(names, name) ==> lookup(all, name) == lookup(gathered, name)
        }),
    decreases names.len(),
{
    if names.len() > 0 {
        let default = lookup(defaults, names[0].0)->0;
        let next = put::<KnownPermission, bool>(gathered, names[0].0, default);
        put_then_lookup::<KnownPermission, bool>(gathered, names[0].0, default, name);
        all_defaults_are_taken(names.drop_first(), defaults, next, name);
    }
}

proof fn created_permissions_are_asked(
    id: Seq<char>,
    wanted: Seq<(Seq<char>, ManagedValue<bool>)>,
    defaults: Seq<(Seq<char>, bool)>,
    grantable: Seq<(Seq<char>, ())>,
    gathered: Seq<(Seq<char>, bool)>,
    name: Seq<char>,
)
    requires
        sorted::<KnownPermission, ManagedValue<bool>>(wanted),
        created_permissions(id, wanted, defaults, grantable, gathered) is Ok,
    ensures
        ({
            let all = created_permissions(id, wanted, defaults, grantable, gathered)->Ok_0;
            &&& !has_key(wanted, name) ==> lookup(all, name) == lookup(gathered, name)
            &&& has_key(wanted, name) ==> lookup(defaults, name) is Some && lookup(all, name) == asked(
                lookup(wanted, name),
                lookup(defaults, name)->0,
            ) && (lookup(all, name) == Some(true) ==> has_key(grantable, name))
        }),
    decreases wanted.len(),
{
    if wanted.len() > 0 {
        let first = wanted[0].0;
        rest_is_sorted::<KnownPermission, ManagedValue<bool>>(wanted);
        let desired = asked(Some(wanted[0].1), lookup(defaults, first)->0)->0;
        let next = put::<KnownPermission, bool>(gathered, first, desired);
        put_then_lookup::<KnownPermission, bool>(gathered, first, desired, name);
        created_permissions_are_asked(id, wanted.drop_first(), defaults, grantable, next, name);
    }
}

/// A new role has what its definition asks for, and of every permission that the definition
/// does not name just what every member has: nothing is granted that neither grants.
pub proof fn new_roles_are_as_asked(id: Seq<char>, desired: RoleAttributesView, catalog: RoleCatalogView)
    requires
        sorted::<KnownPermission, ManagedValue<bool>>(desired.permissions),
        created_role(
            id,
            desired,
            catalog.permission_names,
            catalog.default_permissions,
            catalog.grantable_permissions,
        ) is Ok,
    ensures
        creation_is_asked(
            created_role(
                id,
                desired,
                catalog.permission_names,
                catalog.default_permissions,
                catalog.grantable_permissions,
            )->Ok_0,
            desired,
            catalog,
        ),
{
    let names = catalog.permission_names;
    let defaults = catalog.default_permissions;
    let grantable = catalog.grantable_permissions;
    let create = created_role(id, desired, names, defaults, grantable)->Ok_0;
    let gathered = default_for_all(names, defaults, Seq::empty())->Ok_0;
    assert forall|permission: Seq<char>| permission_is_asked(
        #[trigger] lookup(create.permissions, permission),
        lookup(desired.permissions, permission),
        lookup(defaults, permission),
        has_key(names, permission),
        has_key(grantable, permission),
    ) by {
        all_defaults_are_taken(names, defaults, Seq::empty(), permission);
        created_permissions_are_asked(id, desired.permissions, defaults, grantable, gathered, permission);
    }
}

proof fn others_are_left(
    plan: PlanView,
    i: int,
    definition: DefinitionView,
    state: StateView,
    catalog: RoleCatalogView,
    id: Seq<char>,
)
    requires
        0 <= i <= definition.roles.len(),
        with_declared(plan, definition.roles, i, definition, state, catalog) is Ok,
        forall|k: int| i <= k < definition.roles.len() ==> (#[trigger] definition.roles[k]).0 != id,
    ensures
        ({
            let after = with_declared(plan, definition.roles, i, definition, state, catalog)->Ok_0;
            &&& lookup(after.changes, id) == lookup(plan.changes, id)
            &&& lookup(after.create_desired, id) == lookup(plan.create_desired, id)
        }),
    decreases definition.roles.len() - i,
{
    if i < definition.roles.len() {
        let (name, role) = definition.roles[i];
        let step = role_step(name, role, definition, state, catalog)->Ok_0;
        step_is_taken(plan, name, step, id);
        others_are_left(plan.after(name, step), i + 1, definition, state, catalog, id);
    }
}

proof fn step_is_taken(plan: PlanView, name: Seq<char>, step: RoleStepView, id: Seq<char>)
    ensures
        lookup(plan.after(name, step).changes, id) == if id == name {
            match step {
                RoleStepView::Nothing => lookup(plan.changes, id),
                RoleStepView::Create(_) => Some(ChangeView::Create),
                RoleStepView::Do(change) => Some(change),
            }
        } else {
            lookup(plan.changes, id)
        },
        lookup(plan.after(name, step).create_desired, id) == if id == name && step is Create {
            Some(step->Create_0)
        } else {
            lookup(plan.create_desired, id)
        },
{
    match step {
        RoleStepView::Nothing => {},
        RoleStepView::Create(desired) => {
            put_then_lookup::<RoleLogicalId, ChangeView>(plan.changes, name, ChangeView::Create, id);
            put_then_lookup::<RoleLogicalId, RoleCreateView>(plan.create_desired, name, desired, id);
        },
        RoleStepView::Do(change) => {
            put_then_lookup::<RoleLogicalId, ChangeView>(plan.changes, name, change, id);
        },
    }
}

proof fn declared_is_handled(
    plan: PlanView,
    i: int,
    definition: DefinitionView,
    state: StateView,
    catalog: RoleCatalogView,
    k: int,
)
    requires
        0 <= i <= k < definition.roles.len(),
        sorted::<RoleLogicalId, RoleDefinitionView>(definition.roles),
        with_declared(plan, definition.roles, i, definition, state, catalog) is Ok,
        lookup(plan.changes, definition.roles[k].0) is None,
        lookup(plan.create_desired, definition.roles[k].0) is None,
    ensures
        ({
            let (id, role) = definition.roles[k];
            let after = with_declared(plan, definition.roles, i, definition, state, catalog)->Ok_0;
            let step = role_step(id, role, definition, state, catalog);
            &&& step is Ok
            &&& lookup(after.changes, id) == match step->Ok_0 {
                RoleStepView::Nothing => None,
                RoleStepView::Create(_) => Some(ChangeView::Create),
                RoleStepView::Do(change) => Some(change),
            }
            &&& lookup(after.create_desired, id) == match step->Ok_0 {
                RoleStepView::Create(desired) => Some(desired),
                _ => None,
            }
        }),
    decreases definition.roles.len() - i,
{
    let (name, role) = definition.roles[i];
    let id = definition.roles[k].0;
    let step = role_step(name, role, definition, state, catalog)->Ok_0;
    let next = plan.after(name, step);
    step_is_taken(plan, name, step, id);
    if i < k {
        sorted_entries::<RoleLogicalId, RoleDefinitionView>(definition.roles, i, k);
        RoleLogicalId::order_is_total(name, id);
        declared_is_handled(next, i + 1, definition, state, catalog, k);
    } else {
        assert forall|j: int| i + 1 <= j < definition.roles.len() implies (#[trigger] definition.roles[j]).0 != id by {
            sorted_entries::<RoleLogicalId, RoleDefinitionView>(definition.roles, i, j);
            RoleLogicalId::order_is_total(id, definition.roles[j].0);
        }
        others_are_left(next, i + 1, definition, state, catalog, id);
    }
}

proof fn undeclared_are_released(
    plan: PlanView,
    bound: MappingsView,
    i: int,
    declared: Seq<(Seq<char>, RoleDefinitionView)>,
    id: Seq<char>,
)
    requires
        0 <= i <= bound.len(),
        sorted::<RoleLogicalId, u64>(bound),
    ensures
        ({
            let after = with_released(plan, bound, i, declared);
            &&& after.create_desired == plan.create_desired
            &&& lookup(after.changes, id) == if id != everyone() && !has_key(declared, id) && has_key(
                bound.skip(i),
                id,
            ) {
                Some(ChangeView::Release { discord_id: lookup(bound.skip(i), id)->0 })
            } else {
                lookup(plan.changes, id)
            }
        }),
    decreases bound.len() - i,
{
    if i < bound.len() {
        let rest = bound.skip(i);
        assert(rest[0] == bound[i]);
        assert(rest.drop_first() =~= bound.skip(i + 1));
        if bound[i].0 == everyone() || has_key(declared, bound[i].0) {
            undeclared_are_released(plan, bound, i + 1, declared, id);
        } else {
            let release = ChangeView::Release { discord_id: bound[i].1 };
            put_then_lookup::<RoleLogicalId, ChangeView>(plan.changes, bound[i].0, release, id);
            undeclared_are_released(plan.with(bound[i].0, release), bound, i + 1, declared, id);
            if id == bound[i].0 && has_key(bound.skip(i + 1), id) {
                let k = lookup_has_entry(bound.skip(i + 1), id);
                assert(bound.skip(i + 1)[k] == bound[i + 1 + k]);
                sorted_entries::<RoleLogicalId, u64>(bound, i, i + 1 + k);
                RoleLogicalId::order_is_total(bound[i].0, bound[i + 1 + k].0);
            }
        }
    }
}

/// What a role is bound to: the role of every member to the guild, every other as the state says.
pub open spec fn bound_to(state: StateView, id: Seq<char>) -> Option<u64> {
    if id == everyone() {
        Some(state.guild_id)
    } else {
        lookup(state.roles, id)
    }
}

/// Whether a catalog lists a role under an identifier, as the last of those that have it.
pub open spec fn lists(catalog: RoleCatalogView, id: u64, role: RoleSnapshotView) -> bool {
    exists|k: int|
        0 <= k < catalog.roles.len() && (#[trigger] catalog.roles[k]) == role && role.id == id && forall|j: int|
            k < j < catalog.roles.len() ==> (#[trigger] catalog.roles[j]).id != id
}

pub(crate) proof fn found_roles_are_listed(roles: Seq<RoleSnapshotView>, id: u64) -> (k: int)
    requires
        role_with_id(roles, id) is Some,
    ensures
        0 <= k < roles.len(),
        roles[k] == role_with_id(roles, id)->0,
        roles[k].id == id,
        forall|j: int| k < j < roles.len() ==> (#[trigger] roles[j]).id != id,
    decreases roles.len(),
{
    if roles.last().id == id {
        roles.len() - 1
    } else {
        let k = found_roles_are_listed(roles.drop_last(), id);
        assert forall|j: int| k < j < roles.len() implies (#[trigger] roles[j]).id != id by {
            if j < roles.len() - 1 {
                assert(roles.drop_last()[j].id != id);
            }
        }
        k
    }
}

/// What a plan does with each role.
///
/// One that is not declared is released where it is bound, but never the role of every
/// member. One that shall be absent is deleted where it is bound. One that is only referred
/// to is left alone. One that is managed and not bound is created as it is asked for. One
/// that is managed and bound is there, can be managed, and is changed just in what differs
/// from what is asked for.
pub proof fn plans_do_what_is_declared(
    definition: DefinitionView,
    state: StateView,
    catalog: RoleCatalogView,
    id: Seq<char>,
)
    requires
        sorted::<RoleLogicalId, RoleDefinitionView>(definition.roles),
        sorted::<RoleLogicalId, u64>(state.roles),
        role_plan(definition, state, catalog) is Ok,
    ensures
        ({
            let plan = role_plan(definition, state, catalog)->Ok_0;
            let change = lookup(plan.changes, id);
            let created = lookup(plan.create_desired, id);
            &&& created is Some <==> change == Some(ChangeView::Create)
            &&& match lookup(definition.roles, id) {
                None => match change {
                    None => id == everyone() || !has_key(state.roles, id),
                    Some(change) => id != everyone() && change is Release && lookup(state.roles, id) == Some(
                        change->Release_discord_id,
                    ),
                },
                Some(RoleDefinitionView::Absent) => id != everyone() && match change {
                    None => !has_key(state.roles, id),
                    Some(change) => change is Delete && lookup(state.roles, id) == Some(change->Delete_discord_id)
                        && forall|role: RoleSnapshotView|
                        #[trigger] lists(catalog, change->Delete_discord_id, role) ==> role.manageable,
                },
                Some(RoleDefinitionView::Reference) => change is None && bound_to(state, id) is Some,
                Some(role) => {
                    let desired = composed(role, definition.settings_sets.role);
                    match bound_to(state, id) {
                        None => created is Some && creation_is_asked(created->0, desired, catalog),
                        Some(discord_id) => created is None && (change is None || (change->0 is Update
                            && change->0->Update_discord_id == discord_id && changes_something(
                            change->0->Update_attributes,
                        ))) && exists|actual: RoleSnapshotView|
                            #[trigger] lists(catalog, discord_id, actual) && (id != everyone() ==> actual.manageable)
                                && changes_lead(
                                changes_or_none(
                                    if change is None {
                                        None
                                    } else {
                                        Some(change->0->Update_attributes)
                                    },
                                ),
                                actual,
                                desired,
                                catalog,
                            ),
                    }
                },
            }
        }),
{
    let none = PlanView::none();
    let declared = with_declared(none, definition.roles, 0, definition, state, catalog)->Ok_0;
    undeclared_are_released(declared, state.roles, 0, definition.roles, id);
    assert(state.roles.skip(0) =~= state.roles);
    match lookup(definition.roles, id) {
        None => {
            assert forall|k: int| 0 <= k < definition.roles.len() implies (#[trigger] definition.roles[k]).0 != id by {
                lookup_in_sorted::<RoleLogicalId, RoleDefinitionView>(definition.roles, k);
            }
            others_are_left(none, 0, definition, state, catalog, id);
        },
        Some(role) => {
            let k = lookup_has_entry(definition.roles, id);
            declared_is_handled(none, 0, definition, state, catalog, k);
            composed_permissions_are_sorted(role, definition.settings_sets.role);
            let desired = composed(role, definition.settings_sets.role);
            if role is Reference {
                crate::resource::role::laws::references_are_never_changed(id, definition, state, catalog);
            }
            match bound_to(state, id) {
                None => {
                    if role is Managed {
                        new_roles_are_as_asked(id, desired, catalog);
                    }
                },
                Some(discord_id) => {
                    role_with_id_is_listed(catalog.roles, discord_id);
                    if role_with_id(catalog.roles, discord_id) is Some {
                        let actual = role_with_id(catalog.roles, discord_id)->0;
                        let n = found_roles_are_listed(catalog.roles, discord_id);
                        assert(catalog.roles[n] == actual);
                        assert(lists(catalog, discord_id, actual));
                        if role is Managed {
                            attribute_changes_lead(id, actual, desired, catalog);
                        }
                        assert forall|other: RoleSnapshotView| #[trigger] lists(catalog, discord_id, other) implies other
                            == actual by {
                            let m = choose|m: int|
                                0 <= m < catalog.roles.len() && (#[trigger] catalog.roles[m]) == other && other.id
                                    == discord_id && forall|j: int|
                                    m < j < catalog.roles.len() ==> (#[trigger] catalog.roles[j]).id != discord_id;
                            if m < n {
                                assert(catalog.roles[n].id != discord_id);
                            } else if n < m {
                                assert(catalog.roles[m].id != discord_id);
                            }
                        }
                    } else {
                        assert forall|other: RoleSnapshotView| !(#[trigger] lists(catalog, discord_id, other)) by {
                            if lists(catalog, discord_id, other) {
                                let m = choose|m: int|
                                    0 <= m < catalog.roles.len() && (#[trigger] catalog.roles[m]) == other && other.id
                                        == discord_id && forall|j: int|
                                        m < j < catalog.roles.len() ==> (#[trigger] catalog.roles[j]).id != discord_id;
                                assert(catalog.roles[m].id == discord_id);
                            }
                        }
                    }
                },
            }
        },
    }
}

} // verus!
