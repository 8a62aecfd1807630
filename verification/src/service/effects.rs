//! What plans of roles and their application come to, told by what the definition, the state
//! and the guild hold.

use vstd::prelude::*;
use vstd::string::*;

use crate::configuration::permission::KnownPermission;
use crate::configuration::role::{ManagedValue, RoleAttributesView};
use crate::domain::ErrorView;
use crate::ordered::{entry_is_found, has_key, lookup, lookup_has_entry, put, put_then_lookup, rest_is_sorted, sorted};
use crate::port::{RoleCatalogView, RoleCreateView, RoleSnapshotView};
use crate::resource::role::effects::{asked, asked_permission, is_as_asked, is_asked};
use crate::service::apply::{new_role, nothing_granted, role_update, with_changed, with_granted};
use crate::service::plan::{with_attributes, with_permissions, AttributeChangeView};
use crate::text::{bool_chars, decimal, decimal_round_trip};

verus! {

proof fn changed_permissions_are_asked(
    permissions: Seq<(Seq<char>, bool)>,
    id: Seq<char>,
    wanted: Seq<(Seq<char>, ManagedValue<bool>)>,
    actual: Seq<(Seq<char>, bool)>,
    defaults: Seq<(Seq<char>, bool)>,
    name: Seq<char>,
)
    requires
        sorted::<KnownPermission, ManagedValue<bool>>(wanted),
        with_changed(permissions, id, wanted, actual, defaults) is Ok,
        has_key(wanted, name) ==> lookup(permissions, name) == lookup(actual, name),
    ensures
        lookup(with_changed(permissions, id, wanted, actual, defaults)->Ok_0, name) == match lookup(wanted, name) {
            None => lookup(permissions, name),
            Some(ManagedValue::Value(value)) => Some(value),
            Some(ManagedValue::Default) => lookup(defaults, name),
        },
        has_key(wanted, name) ==> has_key(actual, name) && has_key(defaults, name),
    decreases wanted.len(),
{
    if wanted.len() > 0 {
        let default = lookup(defaults, wanted[0].0)->0;
        let value = match wanted[0].1 {
            ManagedValue::Value(value) => value,
            ManagedValue::Default => default,
        };
        let current = lookup(actual, wanted[0].0)->0;
        let next = if value == current {
            permissions
        } else {
            put::<KnownPermission, bool>(permissions, wanted[0].0, value)
        };
        put_then_lookup::<KnownPermission, bool>(permissions, wanted[0].0, value, name);
        rest_is_sorted::<KnownPermission, ManagedValue<bool>>(wanted);
        changed_permissions_are_asked(next, id, wanted.drop_first(), actual, defaults, name);
    }
}

proof fn unchanged_permissions_stay(
    permissions: Seq<(Seq<char>, bool)>,
    id: Seq<char>,
    wanted: Seq<(Seq<char>, ManagedValue<bool>)>,
    actual: Seq<(Seq<char>, bool)>,
    defaults: Seq<(Seq<char>, bool)>,
)
    requires
        sorted::<KnownPermission, ManagedValue<bool>>(wanted),
        with_changed(permissions, id, wanted, actual, defaults) is Ok,
        forall|name: Seq<char>| #[trigger]
            has_key(wanted, name) ==> lookup(actual, name) == match lookup(wanted, name)->0 {
                ManagedValue::Value(value) => Some(value),
                ManagedValue::Default => lookup(defaults, name),
            },
    ensures
        with_changed(permissions, id, wanted, actual, defaults)->Ok_0 == permissions,
    decreases wanted.len(),
{
    if wanted.len() > 0 {
        assert(has_key(wanted, wanted[0].0));
        rest_is_sorted::<KnownPermission, ManagedValue<bool>>(wanted);
        let rest = wanted.drop_first();
        assert forall|name: Seq<char>| #[trigger] has_key(rest, name) implies lookup(actual, name) == match lookup(
            rest,
            name,
        )->0 {
            ManagedValue::Value(value) => Some(value),
            ManagedValue::Default => lookup(defaults, name),
        } by {
            assert(name != wanted[0].0);
            assert(has_key(wanted, name));
        }
        unchanged_permissions_stay(permissions, id, rest, actual, defaults);
    }
}

/// The update of a role makes it what is asked for.
///
/// The role as the update changes it has the name, the color, the marks and each named
/// permission that are asked for, and keeps all others. The update is empty exactly where
/// the role is what is asked for already.
pub proof fn updates_give_what_is_asked(
    id: Seq<char>,
    actual: RoleSnapshotView,
    desired: RoleAttributesView,
    defaults: Seq<(Seq<char>, bool)>,
)
    requires
        sorted::<KnownPermission, ManagedValue<bool>>(desired.permissions),
        role_update(id, actual, desired, defaults) is Ok,
    ensures
        ({
            let update = role_update(id, actual, desired, defaults)->Ok_0;
            &&& is_as_asked(update.applied_to(actual), actual, desired, defaults)
            &&& is_as_asked(update.applied_to(actual), update.applied_to(actual), desired, defaults)
            &&& update.is_empty() <==> is_as_asked(actual, actual, desired, defaults)
            &&& forall|permission: Seq<char>| #[trigger]
                has_key(desired.permissions, permission) ==> has_key(actual.permissions, permission) && has_key(
                    defaults,
                    permission,
                )
        }),
{
    let update = role_update(id, actual, desired, defaults)->Ok_0;
    let after = update.applied_to(actual);
    let wanted = desired.permissions;
    let permissions = with_changed(actual.permissions, id, wanted, actual.permissions, defaults)->Ok_0;
    assert(after.permissions == permissions);
    assert forall|permission: Seq<char>| #[trigger] lookup(after.permissions, permission) == if has_key(
        wanted,
        permission,
    ) {
        asked_permission(desired, permission, defaults)
    } else {
        lookup(actual.permissions, permission)
    } by {
        changed_permissions_are_asked(actual.permissions, id, wanted, actual.permissions, defaults, permission);
    }
    assert forall|permission: Seq<char>| #[trigger] has_key(wanted, permission) implies has_key(
        actual.permissions,
        permission,
    ) && has_key(defaults, permission) by {
        changed_permissions_are_asked(actual.permissions, id, wanted, actual.permissions, defaults, permission);
    }
    if is_as_asked(actual, actual, desired, defaults) {
        assert forall|name: Seq<char>| #[trigger] has_key(wanted, name) implies lookup(actual.permissions, name)
            == match lookup(wanted, name)->0 {
            ManagedValue::Value(value) => Some(value),
            ManagedValue::Default => lookup(defaults, name),
        } by {}
        unchanged_permissions_stay(actual.permissions, id, wanted, actual.permissions, defaults);
    }
    if update.is_empty() {
        assert(after == actual);
    }
}

/// Whether a role that shall be created is what is asked for: what is not named has the
/// value of a new role, and no permission is granted that is not named.
pub open spec fn creation_is_asked(
    create: RoleCreateView,
    desired: RoleAttributesView,
    catalog: RoleCatalogView,
) -> bool {
    &&& Some(create.name) == asked(desired.name, "new role"@)
    &&& is_asked(create.color, 0, asked(desired.color, 0))
    &&& is_asked(create.hoist, false, asked(desired.hoist, false))
    &&& is_asked(create.mentionable, false, asked(desired.mentionable, false))
    &&& forall|permission: Seq<char>| #[trigger]
        lookup(create.permissions, permission) == if has_key(desired.permissions, permission) {
            asked_permission(desired, permission, catalog.default_permissions)
        } else if has_key(catalog.permission_names, permission) {
            Some(false)
        } else {
            None
        }
}

proof fn nothing_is_granted(names: Seq<(Seq<char>, ())>, name: Seq<char>)
    ensures
        lookup(nothing_granted(names), name) == if exists|k: int| 0 <= k < names.len() && (#[trigger] names[k]).0 == name {
            Some(false)
        } else {
            None
        },
    decreases names.len(),
{
    if names.len() > 0 {
        let front = names.drop_last();
        nothing_is_granted(front, name);
        put_then_lookup::<KnownPermission, bool>(nothing_granted(front), names.last().0, false, name);
        if exists|k: int| 0 <= k < front.len() && (#[trigger] front[k]).0 == name {
            let k = choose|k: int| 0 <= k < front.len() && (#[trigger] front[k]).0 == name;
            assert(names[k].0 == name);
        }
        if names.last().0 == name {
            assert(names[names.len() - 1].0 == name);
        }
        if exists|k: int| 0 <= k < names.len() && (#[trigger] names[k]).0 == name {
            let k = choose|k: int| 0 <= k < names.len() && (#[trigger] names[k]).0 == name;
            if k < front.len() {
                assert(front[k].0 == name);
            }
        }
    }
}

proof fn granted_permissions_are_asked(
    permissions: Seq<(Seq<char>, bool)>,
    wanted: Seq<(Seq<char>, ManagedValue<bool>)>,
    defaults: Seq<(Seq<char>, bool)>,
    name: Seq<char>,
)
    requires
        sorted::<KnownPermission, ManagedValue<bool>>(wanted),
        with_granted(permissions, wanted, defaults) is Ok,
    ensures
        lookup(with_granted(permissions, wanted, defaults)->Ok_0, name) == match lookup(wanted, name) {
            None => lookup(permissions, name),
            Some(ManagedValue::Value(value)) => Some(value),
            Some(ManagedValue::Default) => lookup(defaults, name),
        },
    decreases wanted.len(),
{
    if wanted.len() > 0 {
        let default = lookup(defaults, wanted[0].0)->0;
        let value = match wanted[0].1 {
            ManagedValue::Value(value) => value,
            ManagedValue::Default => default,
        };
        let next = put::<KnownPermission, bool>(permissions, wanted[0].0, value);
        put_then_lookup::<KnownPermission, bool>(permissions, wanted[0].0, value, name);
        rest_is_sorted::<KnownPermission, ManagedValue<bool>>(wanted);
        granted_permissions_are_asked(next, wanted.drop_first(), defaults, name);
    }
}

/// A role that is created is what is asked for: with the name, the color, the marks and
/// each named permission of its definition, and no other permission granted.
pub proof fn creations_are_what_is_asked(id: Seq<char>, desired: RoleAttributesView, catalog: RoleCatalogView)
    requires
        sorted::<KnownPermission, ManagedValue<bool>>(desired.permissions),
        new_role(id, desired, catalog) is Ok,
    ensures
        creation_is_asked(new_role(id, desired, catalog)->Ok_0, desired, catalog),
{
    let create = new_role(id, desired, catalog)->Ok_0;
    let names = catalog.permission_names;
    assert forall|permission: Seq<char>| #[trigger] lookup(create.permissions, permission) == if has_key(
        desired.permissions,
        permission,
    ) {
        asked_permission(desired, permission, catalog.default_permissions)
    } else if has_key(names, permission) {
        Some(false)
    } else {
        None
    } by {
        granted_permissions_are_asked(
            nothing_granted(names),
            desired.permissions,
            catalog.default_permissions,
            permission,
        );
        nothing_is_granted(names, permission);
        if has_key(names, permission) {
            let k = lookup_has_entry(names, permission);
            assert(names[k].0 == permission);
        }
        if exists|k: int| 0 <= k < names.len() && (#[trigger] names[k]).0 == permission {
            let k = choose|k: int| 0 <= k < names.len() && (#[trigger] names[k]).0 == permission;
            entry_is_found(names, k);
        }
    }
}

/// Whether a change is listed at a place or behind it.
pub open spec fn is_listed_from(changes: Seq<AttributeChangeView>, from: int, change: AttributeChangeView) -> bool {
    exists|n: int| from <= n < changes.len() && #[trigger] changes[n] == change
}

/// Whether a change leads an attribute of a role from what it is to something else that is asked for.
pub open spec fn is_difference(
    change: AttributeChangeView,
    actual: RoleSnapshotView,
    desired: RoleAttributesView,
    defaults: Seq<(Seq<char>, bool)>,
) -> bool {
    ||| {
        &&& change.attribute == "name"@
        &&& change.current == actual.name
        &&& asked(desired.name, "new role"@) == Some(change.desired)
        &&& change.desired != actual.name
    }
    ||| {
        let color = asked(desired.color, 0);
        &&& change.attribute == "color"@
        &&& change.current == decimal(actual.color as nat)
        &&& color is Some && color->0 != actual.color && change.desired == decimal(color->0 as nat)
    }
    ||| {
        &&& change.attribute == "hoist"@
        &&& change.current == bool_chars(actual.hoist)
        &&& change.desired == bool_chars(!actual.hoist)
        &&& asked(desired.hoist, false) == Some(!actual.hoist)
    }
    ||| {
        &&& change.attribute == "mentionable"@
        &&& change.current == bool_chars(actual.mentionable)
        &&& change.desired == bool_chars(!actual.mentionable)
        &&& asked(desired.mentionable, false) == Some(!actual.mentionable)
    }
    ||| exists|permission: Seq<char>| #[trigger]
        permission_differs(permission, actual, desired, defaults) && change.attribute == "permissions."@ + permission
            && change.current == bool_chars(lookup(actual.permissions, permission)->0) && change.desired == bool_chars(
            !lookup(actual.permissions, permission)->0,
        )
}

/// Whether a permission that is named is not what is asked for.
pub open spec fn permission_differs(
    permission: Seq<char>,
    actual: RoleSnapshotView,
    desired: RoleAttributesView,
    defaults: Seq<(Seq<char>, bool)>,
) -> bool {
    &&& has_key(desired.permissions, permission)
    &&& lookup(actual.permissions, permission) is Some
    &&& asked_permission(desired, permission, defaults) == Some(!lookup(actual.permissions, permission)->0)
}

/// Whether changes list just what differs of a role, behind those that were there before.
pub open spec fn lists_what_differs(
    all: Seq<AttributeChangeView>,
    before: Seq<AttributeChangeView>,
    id: Seq<char>,
    discord_id: u64,
    actual: RoleSnapshotView,
    desired: RoleAttributesView,
    defaults: Seq<(Seq<char>, bool)>,
) -> bool {
    let from = before.len() as int;
    &&& before.is_prefix_of(all)
    &&& forall|n: int|
        from <= n < all.len() ==> (#[trigger] all[n]).logical_id == id && all[n].discord_id == discord_id
            && is_difference(all[n], actual, desired, defaults)
    &&& forall|change: AttributeChangeView| #[trigger]
        is_difference(change, actual, desired, defaults) && change.logical_id == id && change.discord_id == discord_id
            ==> is_listed_from(all, from, change)
}

proof fn shown_values_differ(a: bool, b: bool)
    ensures
        bool_chars(a) == bool_chars(b) <==> a == b,
{
    reveal_strlit("true");
    reveal_strlit("false");
    assert("true"@.len() != "false"@.len());
}

proof fn shown_numbers_differ(a: u32, b: u32)
    ensures
        decimal(a as nat) == decimal(b as nat) <==> a == b,
{
    decimal_round_trip(a as nat);
    decimal_round_trip(b as nat);
}

proof fn listed_permissions_differ(
    changes: Seq<AttributeChangeView>,
    id: Seq<char>,
    discord_id: u64,
    wanted: Seq<(Seq<char>, ManagedValue<bool>)>,
    actual: Seq<(Seq<char>, bool)>,
    defaults: Seq<(Seq<char>, bool)>,
    grantable: Seq<(Seq<char>, ())>,
    name: Seq<char>,
)
    requires
        sorted::<KnownPermission, ManagedValue<bool>>(wanted),
        with_permissions(changes, id, discord_id, wanted, actual, defaults, grantable) is Ok,
    ensures
        ({
            let all = with_permissions(changes, id, discord_id, wanted, actual, defaults, grantable)->Ok_0;
            let value = |permission: Seq<char>|
                match lookup(wanted, permission)->0 {
                    ManagedValue::Value(value) => Some(value),
                    ManagedValue::Default => lookup(defaults, permission),
                };
            let change = |permission: Seq<char>|
                AttributeChangeView {
                    logical_id: id,
                    discord_id,
                    attribute: "permissions."@ + permission,
                    current: bool_chars(lookup(actual, permission)->0),
                    desired: bool_chars(!lookup(actual, permission)->0),
                };
            &&& changes.is_prefix_of(all)
            &&& has_key(wanted, name) ==> lookup(actual, name) is Some && value(name) is Some
            &&& has_key(wanted, name) && value(name) == Some(!lookup(actual, name)->0) ==> is_listed_from(
                all,
                changes.len() as int,
                change(name),
            )
            &&& has_key(wanted, name) && value(name) == Some(true) && lookup(actual, name) == Some(false) ==> has_key(
                grantable,
                name,
            )
            &&& forall|n: int|
                changes.len() <= n < all.len() ==> exists|permission: Seq<char>| #[trigger]
                    has_key(wanted, permission) && value(permission) == Some(!lookup(actual, permission)->0)
                        && lookup(actual, permission) is Some && #[trigger] all[n] == change(permission)
        }),
    decreases wanted.len(),
{
    if wanted.len() > 0 {
        let permission = wanted[0].0;
        let current = lookup(actual, permission)->0;
        let desired = match wanted[0].1 {
            ManagedValue::Value(value) => value,
            ManagedValue::Default => lookup(defaults, permission)->0,
        };
        let rest = wanted.drop_first();
        shown_values_differ(current, desired);
        let added = AttributeChangeView {
            logical_id: id,
            discord_id,
            attribute: "permissions."@ + permission,
            current: bool_chars(current),
            desired: bool_chars(desired),
        };
        let next = if current == desired {
            changes
        } else {
            changes.push(added)
        };
        rest_is_sorted::<KnownPermission, ManagedValue<bool>>(wanted);
        listed_permissions_differ(next, id, discord_id, rest, actual, defaults, grantable, name);
        let all = with_permissions(changes, id, discord_id, wanted, actual, defaults, grantable)->Ok_0;
        assert(all == with_permissions(next, id, discord_id, rest, actual, defaults, grantable)->Ok_0);
        let value = |permission: Seq<char>|
            match lookup(wanted, permission)->0 {
                ManagedValue::Value(value) => Some(value),
                ManagedValue::Default => lookup(defaults, permission),
            };
        let change = |permission: Seq<char>|
            AttributeChangeView {
                logical_id: id,
                discord_id,
                attribute: "permissions."@ + permission,
                current: bool_chars(lookup(actual, permission)->0),
                desired: bool_chars(!lookup(actual, permission)->0),
            };
        assert(changes.is_prefix_of(next));
        assert(next.is_prefix_of(all));
        assert(changes =~= all.take(changes.len() as int)) by {
            assert(next == all.take(next.len() as int));
        }
        if has_key(wanted, name) && value(name) == Some(!lookup(actual, name)->0) {
            if name == permission {
                assert(next[changes.len() as int] == added);
                assert(all.take(next.len() as int)[changes.len() as int] == added);
                assert(all[changes.len() as int] == change(name));
            } else {
                assert(has_key(rest, name));
                assert(is_listed_from(all, next.len() as int, change(name)));
                let n = choose|n: int| next.len() <= n < all.len() && #[trigger] all[n] == change(name);
                assert(all[n] == change(name));
            }
        }
        assert forall|n: int| changes.len() <= n < all.len() implies exists|permission: Seq<char>| #[trigger]
            has_key(wanted, permission) && value(permission) == Some(!lookup(actual, permission)->0) && lookup(
                actual,
                permission,
            ) is Some && #[trigger] all[n] == change(permission) by {
            if n < next.len() {
                assert(next[n] == added);
                assert(all.take(next.len() as int)[n] == added);
                assert(has_key(wanted, permission));
                assert(all[n] == change(permission));
            } else {
                let other = choose|other: Seq<char>| #[trigger]
                    has_key(rest, other) && (match lookup(rest, other)->0 {
                        ManagedValue::Value(value) => Some(value),
                        ManagedValue::Default => lookup(defaults, other),
                    }) == Some(!lookup(actual, other)->0) && lookup(actual, other) is Some && #[trigger] all[n]
                        == change(other);
                assert(other != permission);
                assert(has_key(wanted, other));
            }
        }
    }
}

proof fn wanted_is_listed(
    changes: Seq<AttributeChangeView>,
    next: Seq<AttributeChangeView>,
    all: Seq<AttributeChangeView>,
    change: AttributeChangeView,
)
    requires
        next == changes.push(change),
        next.is_prefix_of(all),
    ensures
        is_listed_from(all, changes.len() as int, change),
        changes.is_prefix_of(all),
{
    assert(next == all.take(next.len() as int));
    assert(all.take(next.len() as int)[changes.len() as int] == change);
    assert(all[changes.len() as int] == change);
    assert(changes =~= all.take(changes.len() as int)) by {
        assert forall|k: int| 0 <= k < changes.len() implies changes[k] == all.take(changes.len() as int)[k] by {
            assert(next[k] == changes[k]);
            assert(all.take(next.len() as int)[k] == next[k]);
        }
    }
}

/// Changes that list attributes of a role list just what differs from what is asked for,
/// each with the value it has and the value it shall have, behind those listed before.
pub proof fn attributes_are_listed_where_they_differ(
    changes: Seq<AttributeChangeView>,
    id: Seq<char>,
    discord_id: u64,
    actual: RoleSnapshotView,
    desired: RoleAttributesView,
    catalog: RoleCatalogView,
)
    requires
        sorted::<KnownPermission, ManagedValue<bool>>(desired.permissions),
        with_attributes(changes, id, discord_id, actual, desired, catalog) is Ok,
    ensures
        lists_what_differs(
            with_attributes(changes, id, discord_id, actual, desired, catalog)->Ok_0,
            changes,
            id,
            discord_id,
            actual,
            desired,
            catalog.default_permissions,
        ),
{
    let defaults = catalog.default_permissions;
    let all = with_attributes(changes, id, discord_id, actual, desired, catalog)->Ok_0;
    let of = |attribute: Seq<char>, current: Seq<char>, wanted: Seq<char>|
        AttributeChangeView { logical_id: id, discord_id, attribute, current, desired: wanted };
    let name = asked(desired.name, "new role"@);
    let color = asked(desired.color, 0);
    let hoist = asked(desired.hoist, false);
    let mentionable = asked(desired.mentionable, false);
    if color is Some {
        shown_numbers_differ(actual.color, color->0);
    }
    shown_values_differ(actual.hoist, !actual.hoist);
    shown_values_differ(actual.mentionable, !actual.mentionable);
    let named_change = of("name"@, actual.name, name->0);
    let named = if name is Some && name->0 != actual.name {
        changes.push(named_change)
    } else {
        changes
    };
    let colored_change = of("color"@, decimal(actual.color as nat), decimal(color->0 as nat));
    let colored = if color is Some && color->0 != actual.color {
        named.push(colored_change)
    } else {
        named
    };
    let hoisted_change = of("hoist"@, bool_chars(actual.hoist), bool_chars(!actual.hoist));
    let hoisted = if hoist == Some(!actual.hoist) {
        colored.push(hoisted_change)
    } else {
        colored
    };
    let mentioned_change = of("mentionable"@, bool_chars(actual.mentionable), bool_chars(!actual.mentionable));
    let mentioned = if mentionable == Some(!actual.mentionable) {
        hoisted.push(mentioned_change)
    } else {
        hoisted
    };
    let wanted = desired.permissions;
    let grantable = catalog.grantable_permissions;
    assert(all == with_permissions(
        mentioned,
        id,
        discord_id,
        wanted,
        actual.permissions,
        defaults,
        grantable,
    )->Ok_0);
    listed_permissions_differ(
        mentioned,
        id,
        discord_id,
        wanted,
        actual.permissions,
        defaults,
        grantable,
        Seq::empty(),
    );
    assert(mentioned.is_prefix_of(all));
    if mentioned != hoisted {
        wanted_is_listed(hoisted, mentioned, all, mentioned_change);
    }
    if hoisted != colored {
        wanted_is_listed(colored, hoisted, all, hoisted_change);
    }
    if colored != named {
        wanted_is_listed(named, colored, all, colored_change);
    }
    if named != changes {
        wanted_is_listed(changes, named, all, named_change);
    }
    assert(changes.is_prefix_of(all));
    assert forall|n: int| changes.len() <= n < all.len() implies (#[trigger] all[n]).logical_id == id
        && all[n].discord_id == discord_id && is_difference(all[n], actual, desired, defaults) by {
        if n < mentioned.len() {
            assert(all.take(mentioned.len() as int)[n] == mentioned[n]);
            assert(all[n] == mentioned[n]);
        } else {
            let permission = choose|permission: Seq<char>| #[trigger]
                has_key(wanted, permission) && (match lookup(wanted, permission)->0 {
                    ManagedValue::Value(value) => Some(value),
                    ManagedValue::Default => lookup(defaults, permission),
                }) == Some(!lookup(actual.permissions, permission)->0) && lookup(actual.permissions, permission) is Some
                    && #[trigger] all[n] == of(
                    "permissions."@ + permission,
                    bool_chars(lookup(actual.permissions, permission)->0),
                    bool_chars(!lookup(actual.permissions, permission)->0),
                );
            assert(permission_differs(permission, actual, desired, defaults));
        }
    }
    assert forall|change: AttributeChangeView| #[trigger]
        is_difference(change, actual, desired, defaults) && change.logical_id == id && change.discord_id
            == discord_id implies is_listed_from(all, changes.len() as int, change) by {
        let from = changes.len() as int;
        if is_listed_from(all, named.len() as int, change) {
            let n = choose|n: int| named.len() <= n < all.len() && #[trigger] all[n] == change;
            assert(all[n] == change);
            assert(is_listed_from(all, from, change));
        } else if is_listed_from(all, colored.len() as int, change) {
            let n = choose|n: int| colored.len() <= n < all.len() && #[trigger] all[n] == change;
            assert(all[n] == change);
        } else if is_listed_from(all, hoisted.len() as int, change) {
            let n = choose|n: int| hoisted.len() <= n < all.len() && #[trigger] all[n] == change;
            assert(all[n] == change);
        } else if is_listed_from(all, mentioned.len() as int, change) {
            let n = choose|n: int| mentioned.len() <= n < all.len() && #[trigger] all[n] == change;
            assert(all[n] == change);
        } else if exists|permission: Seq<char>| #[trigger]
            permission_differs(permission, actual, desired, defaults) && change.attribute == "permissions."@
                + permission && change.current == bool_chars(lookup(actual.permissions, permission)->0)
                && change.desired == bool_chars(!lookup(actual.permissions, permission)->0) {
            let permission = choose|permission: Seq<char>| #[trigger]
                permission_differs(permission, actual, desired, defaults) && change.attribute == "permissions."@
                    + permission && change.current == bool_chars(lookup(actual.permissions, permission)->0)
                    && change.desired == bool_chars(!lookup(actual.permissions, permission)->0);
            listed_permissions_differ(
                mentioned,
                id,
                discord_id,
                wanted,
                actual.permissions,
                defaults,
                grantable,
                permission,
            );
            assert(is_listed_from(all, mentioned.len() as int, change));
        } else {
            assert(is_listed_from(all, from, change));
        }
    }
}

/// A role that is what is asked for is not listed again.
pub proof fn roles_as_asked_are_not_listed(
    changes: Seq<AttributeChangeView>,
    id: Seq<char>,
    discord_id: u64,
    actual: RoleSnapshotView,
    desired: RoleAttributesView,
    catalog: RoleCatalogView,
)
    requires
        sorted::<KnownPermission, ManagedValue<bool>>(desired.permissions),
        is_as_asked(actual, actual, desired, catalog.default_permissions),
        forall|permission: Seq<char>| #[trigger]
            has_key(desired.permissions, permission) ==> has_key(actual.permissions, permission) && has_key(
                catalog.default_permissions,
                permission,
            ),
    ensures
        with_attributes(changes, id, discord_id, actual, desired, catalog) == Ok::<
            Seq<AttributeChangeView>,
            ErrorView,
        >(changes),
{
    asked_permissions_are_not_listed(changes, id, discord_id, desired.permissions, actual, desired, catalog);
}

proof fn asked_permissions_are_not_listed(
    changes: Seq<AttributeChangeView>,
    id: Seq<char>,
    discord_id: u64,
    wanted: Seq<(Seq<char>, ManagedValue<bool>)>,
    actual: RoleSnapshotView,
    desired: RoleAttributesView,
    catalog: RoleCatalogView,
)
    requires
        sorted::<KnownPermission, ManagedValue<bool>>(wanted),
        is_as_asked(actual, actual, desired, catalog.default_permissions),
        forall|permission: Seq<char>| #[trigger]
            has_key(wanted, permission) ==> lookup(wanted, permission) == lookup(desired.permissions, permission)
                && has_key(actual.permissions, permission) && has_key(catalog.default_permissions, permission),
    ensures
        with_permissions(
            changes,
            id,
            discord_id,
            wanted,
            actual.permissions,
            catalog.default_permissions,
            catalog.grantable_permissions,
        ) == Ok::<Seq<AttributeChangeView>, ErrorView>(changes),
    decreases wanted.len(),
{
    if wanted.len() > 0 {
        let permission = wanted[0].0;
        assert(has_key(wanted, permission));
        assert(lookup(actual.permissions, permission) == asked_permission(
            desired,
            permission,
            catalog.default_permissions,
        ));
        rest_is_sorted::<KnownPermission, ManagedValue<bool>>(wanted);
        let rest = wanted.drop_first();
        assert forall|name: Seq<char>| #[trigger] has_key(rest, name) implies lookup(rest, name) == lookup(
            desired.permissions,
            name,
        ) && has_key(actual.permissions, name) && has_key(catalog.default_permissions, name) by {
            assert(name != permission);
            assert(has_key(wanted, name));
        }
        asked_permissions_are_not_listed(changes, id, discord_id, rest, actual, desired, catalog);
    }
}

/// A role that is changed as its update says is settled: the next plan changes no attribute of it.
pub proof fn updated_roles_are_not_listed(
    changes: Seq<AttributeChangeView>,
    id: Seq<char>,
    discord_id: u64,
    actual: RoleSnapshotView,
    desired: RoleAttributesView,
    catalog: RoleCatalogView,
)
    requires
        sorted::<KnownPermission, ManagedValue<bool>>(desired.permissions),
        role_update(id, actual, desired, catalog.default_permissions) is Ok,
    ensures
        ({
            let after = role_update(id, actual, desired, catalog.default_permissions)->Ok_0.applied_to(actual);
            with_attributes(changes, id, discord_id, after, desired, catalog) == Ok::<
                Seq<AttributeChangeView>,
                ErrorView,
            >(changes)
        }),
{
    let defaults = catalog.default_permissions;
    let after = role_update(id, actual, desired, defaults)->Ok_0.applied_to(actual);
    updates_give_what_is_asked(id, actual, desired, defaults);
    assert forall|permission: Seq<char>| #[trigger] has_key(desired.permissions, permission) implies has_key(
        after.permissions,
        permission,
    ) && has_key(defaults, permission) by {
        assert(has_key(actual.permissions, permission));
        assert(lookup(after.permissions, permission) == asked_permission(desired, permission, defaults));
    }
    roles_as_asked_are_not_listed(changes, id, discord_id, after, desired, catalog);
}

} // verus!
