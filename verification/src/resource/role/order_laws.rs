//! What the order of roles that is planned comes to, told by where the roles stand.

use vstd::prelude::*;

use crate::configuration::definition::DefinitionView;
use crate::configuration::role::RoleDefinitionView;
use crate::configuration::state::StateView;
use crate::domain::ErrorView;
use crate::ids::everyone;
use crate::ordered::{lookup, lookup_has_entry};
use crate::port::{RoleCatalogView, RolePositionUpdateView, RoleSnapshotView};
use crate::resource::role::effects::bound_to;
use crate::resource::role::order::{
    immovable_roles, named_roles, place_of, position_updates, referenced_roles, role_order, role_order_plan, role_places,
    role_with_id, role_with_id_is_listed, unmanageable, NamedRolesView, OrderPlanView,
};
use crate::resource::sorting::{keeps_fixed, relative_order, reordered};
use crate::resource::standing::{comes_before, new_orders_stand_as_asked, places_tell_the_order, stand_as_asked};

verus! {

/// Whether a role stands above another: the role of every member stands below all others,
/// and of two others the one with the greater position stands above, or the one with the
/// smaller identifier where the positions are equal.
pub open spec fn stands_above(a: RoleSnapshotView, b: RoleSnapshotView, guild_id: u64) -> bool {
    if a.id == guild_id {
        false
    } else if b.id == guild_id {
        true
    } else {
        a.position > b.position || a.position == b.position && a.id < b.id
    }
}

/// Whether all roles that an order names are bound.
pub open spec fn all_bound(names: Seq<Seq<char>>, state: StateView) -> bool {
    forall|i: int| 0 <= i < names.len() ==> bound_to(state, #[trigger] names[i]) is Some
}

/// Whether one of two roles that are named one below the other stands above the other.
pub open spec fn is_out_of_place(names: Seq<Seq<char>>, state: StateView, roles: Seq<RoleSnapshotView>) -> bool {
    exists|i: int, j: int, a: int, b: int|
        0 <= i < j < names.len() && 0 <= a < roles.len() && 0 <= b < roles.len() && bound_to(
            state,
            #[trigger] names[i],
        ) == Some((#[trigger] roles[a]).id) && bound_to(state, #[trigger] names[j]) == Some((#[trigger] roles[b]).id)
            && stands_above(roles[b], roles[a], state.guild_id)
}

/// Where two roles stand is told by their positions and identifiers.
pub(crate) proof fn roles_stand_by_position(roles: Seq<RoleSnapshotView>, guild_id: u64)
    ensures
        ({
            let order = role_order(roles, guild_id);
            &&& order.len() == roles.len()
            &&& forall|id: u64|
                #[trigger] order.contains(id) <==> exists|k: int| 0 <= k < roles.len() && (#[trigger] roles[k]).id == id
            &&& order.no_duplicates() <==> forall|a: int, b: int|
                0 <= a < b < roles.len() ==> (#[trigger] roles[a]).id != (#[trigger] roles[b]).id
            &&& order.no_duplicates() ==> forall|a: int, b: int|
                0 <= a < roles.len() && 0 <= b < roles.len() ==> (order.index_of((#[trigger] roles[a]).id)
                    < order.index_of((#[trigger] roles[b]).id) <==> stands_above(roles[a], roles[b], guild_id))
        }),
{
    let places = role_places(roles, guild_id);
    let order = role_order(roles, guild_id);
    places_tell_the_order(places);
    assert forall|id: u64| #[trigger] order.contains(id) <==> exists|k: int|
        0 <= k < roles.len() && (#[trigger] roles[k]).id == id by {
        if order.contains(id) {
            let k = choose|k: int| 0 <= k < places.len() && (#[trigger] places[k]).1 == id;
            assert(roles[k].id == id);
        }
        if exists|k: int| 0 <= k < roles.len() && (#[trigger] roles[k]).id == id {
            let k = choose|k: int| 0 <= k < roles.len() && (#[trigger] roles[k]).id == id;
            assert(places[k].1 == id);
        }
    }
    if order.no_duplicates() {
        assert forall|a: int, b: int| 0 <= a < b < roles.len() implies (#[trigger] roles[a]).id != (
        #[trigger] roles[b]).id by {
            assert(places[a].1 != places[b].1);
        }
        assert forall|a: int, b: int| 0 <= a < roles.len() && 0 <= b < roles.len() implies (order.index_of(
            (#[trigger] roles[a]).id,
        ) < order.index_of((#[trigger] roles[b]).id) <==> stands_above(roles[a], roles[b], guild_id)) by {
            assert(order.index_of(places[a].1) < order.index_of(places[b].1) <==> comes_before(places[a], places[b]));
            if a < b {
                assert(places[a].1 != places[b].1);
            } else if b < a {
                assert(places[b].1 != places[a].1);
            }
        }
    } else if forall|a: int, b: int| 0 <= a < b < roles.len() ==> (#[trigger] roles[a]).id != (#[trigger] roles[b]).id {
        assert forall|a: int, b: int| 0 <= a < b < places.len() implies (#[trigger] places[a]).1 != (
        #[trigger] places[b]).1 by {
            assert(roles[a].id != roles[b].id);
        }
    }
}

/// What the names of an order come to: the identifiers of those that are bound, in order.
proof fn names_come_to_their_roles(
    names: Seq<Seq<char>>,
    i: int,
    definition: DefinitionView,
    state: StateView,
    roles: Seq<RoleSnapshotView>,
    gathered: NamedRolesView,
)
    requires
        0 <= i <= names.len(),
        gathered.deferred <==> !(forall|k: int| 0 <= k < i ==> bound_to(state, #[trigger] names[k]) is Some),
        !gathered.deferred ==> gathered.ids.len() == i && forall|k: int|
            0 <= k < i ==> Some(gathered.ids[k]) == bound_to(state, #[trigger] names[k]),
        named_roles(names, i, definition, state, roles, gathered) is Ok,
    ensures
        ({
            let named = named_roles(names, i, definition, state, roles, gathered)->Ok_0;
            &&& named.deferred <==> !all_bound(names, state)
            &&& all_bound(names, state) ==> named.ids.len() == names.len() && forall|k: int|
                0 <= k < names.len() ==> Some(named.ids[k]) == bound_to(state, #[trigger] names[k])
            &&& forall|k: int|
                i <= k < names.len() && bound_to(state, #[trigger] names[k]) is Some ==> role_with_id(
                    roles,
                    bound_to(state, names[k])->0,
                ) is Some && (names[k] != everyone() && lookup(definition.roles, names[k]) is Some && lookup(
                    definition.roles,
                    names[k],
                )->0 is Managed ==> role_with_id(roles, bound_to(state, names[k])->0)->0.manageable)
            &&& forall|n: int| 0 <= n < gathered.fixed.len() ==> named.fixed.contains(#[trigger] gathered.fixed[n])
        }),
    decreases names.len() - i,
{
    let named = named_roles(names, i, definition, state, roles, gathered)->Ok_0;
    if i < names.len() {
        let name = names[i];
        let declared = lookup(definition.roles, name);
        match bound_to(state, name) {
            None => {
                assert(bound_to(state, names[i]) is None);
                names_come_to_their_roles(
                    names,
                    i + 1,
                    definition,
                    state,
                    roles,
                    NamedRolesView { deferred: true, ..gathered },
                );
            },
            Some(id) => {
                let stays = declared is Some && declared->0 is Reference || name == everyone() || !role_with_id(
                    roles,
                    id,
                )->0.manageable;
                let after = NamedRolesView {
                    ids: gathered.ids.push(id),
                    fixed: if stays {
                        gathered.fixed.push(id)
                    } else {
                        gathered.fixed
                    },
                    deferred: gathered.deferred,
                };
                assert(bound_to(state, names[i]) is Some);
                if gathered.deferred {
                    let k = choose|k: int| 0 <= k < i && bound_to(state, #[trigger] names[k]) is None;
                    assert(bound_to(state, names[k]) is None);
                }
                names_come_to_their_roles(names, i + 1, definition, state, roles, after);
                assert forall|n: int| 0 <= n < gathered.fixed.len() implies named.fixed.contains(
                    #[trigger] gathered.fixed[n],
                ) by {
                    assert(after.fixed[n] == gathered.fixed[n]);
                }
            },
        }
    } else {
        assert forall|n: int| 0 <= n < gathered.fixed.len() implies named.fixed.contains(#[trigger] gathered.fixed[n]) by {}
    }
}

proof fn named_stand_unless_out_of_place(
    names: Seq<Seq<char>>,
    ids: Seq<u64>,
    state: StateView,
    roles: Seq<RoleSnapshotView>,
)
    requires
        ids.len() == names.len(),
        ids.no_duplicates(),
        forall|k: int| 0 <= k < names.len() ==> Some(ids[k]) == bound_to(state, #[trigger] names[k]),
        role_order(roles, state.guild_id).no_duplicates(),
        forall|k: int| 0 <= k < ids.len() ==> role_order(roles, state.guild_id).contains(#[trigger] ids[k]),
    ensures
        stand_as_asked(role_order(roles, state.guild_id), ids) <==> !is_out_of_place(names, state, roles),
{
    let order = role_order(roles, state.guild_id);
    roles_stand_by_position(roles, state.guild_id);
    if stand_as_asked(order, ids) && is_out_of_place(names, state, roles) {
        let (i, j, a, b) = choose|i: int, j: int, a: int, b: int|
            0 <= i < j < names.len() && 0 <= a < roles.len() && 0 <= b < roles.len() && bound_to(
                state,
                #[trigger] names[i],
            ) == Some((#[trigger] roles[a]).id) && bound_to(state, #[trigger] names[j]) == Some(
                (#[trigger] roles[b]).id,
            ) && stands_above(roles[b], roles[a], state.guild_id);
        assert(ids[i] == roles[a].id && ids[j] == roles[b].id);
        assert(order.index_of(ids[i]) < order.index_of(ids[j]));
        assert(order.index_of(roles[b].id) < order.index_of(roles[a].id));
    }
    if !is_out_of_place(names, state, roles) {
        assert forall|i: int, j: int| 0 <= i < j < ids.len() implies order.index_of(#[trigger] ids[i]) < order.index_of(
            #[trigger] ids[j],
        ) by {
            assert(order.contains(ids[i]) && order.contains(ids[j]));
            let a = choose|k: int| 0 <= k < roles.len() && (#[trigger] roles[k]).id == ids[i];
            let b = choose|k: int| 0 <= k < roles.len() && (#[trigger] roles[k]).id == ids[j];
            assert(bound_to(state, names[i]) == Some(roles[a].id));
            assert(bound_to(state, names[j]) == Some(roles[b].id));
            assert(ids[i] != ids[j]);
            assert(!stands_above(roles[b], roles[a], state.guild_id));
            assert(stands_above(roles[a], roles[b], state.guild_id));
        }
    }
}

/// Whether a role must not be moved: it cannot be managed, it is the role of every member,
/// or it is only referred to.
pub open spec fn is_fixed(role: RoleSnapshotView, definition: DefinitionView, state: StateView) -> bool {
    ||| !role.manageable
    ||| role.id == state.guild_id
    ||| exists|name: Seq<char>|
        #[trigger] lookup(definition.roles, name) == Some(RoleDefinitionView::Reference) && bound_to(state, name) == Some(
            role.id,
        )
}

/// Whether a planned order lists every role once, the named ones as they are named, and
/// passes no role that must not be moved; whether it gives new positions to named roles
/// only, counted from the lowest; and whether it gives one to each of them whose place changes.
pub open spec fn is_order_of(
    plan: OrderPlanView,
    names: Seq<Seq<char>>,
    definition: DefinitionView,
    state: StateView,
    roles: Seq<RoleSnapshotView>,
) -> bool {
    let order = plan.expected_order;
    &&& plan.requested == names
    &&& order.no_duplicates()
    &&& order.len() == roles.len()
    &&& forall|id: u64|
        #[trigger] order.contains(id) <==> exists|k: int| 0 <= k < roles.len() && (#[trigger] roles[k]).id == id
    &&& forall|i: int, j: int|
        0 <= i < j < names.len() ==> order.index_of(bound_to(state, #[trigger] names[i])->0) < order.index_of(
            bound_to(state, #[trigger] names[j])->0,
        )
    &&& forall|a: int, b: int|
        0 <= a < roles.len() && 0 <= b < roles.len() && is_fixed(roles[b], definition, state) && order.index_of(
            (#[trigger] roles[a]).id,
        ) < order.index_of((#[trigger] roles[b]).id) ==> stands_above(roles[a], roles[b], state.guild_id)
    &&& forall|u: int|
        0 <= u < plan.updates.len() ==> {
            let update = #[trigger] plan.updates[u];
            &&& order.contains(update.role_id)
            &&& update.position == order.len() - 1 - order.index_of(update.role_id)
            &&& exists|k: int| 0 <= k < names.len() && bound_to(state, #[trigger] names[k]) == Some(update.role_id)
        }
    &&& forall|k: int|
        0 <= k < names.len() && role_order(roles, state.guild_id).index_of(bound_to(state, #[trigger] names[k])->0)
            != order.index_of(bound_to(state, names[k])->0) ==> exists|u: int|
            0 <= u < plan.updates.len() && bound_to(state, names[k]) == Some((#[trigger] plan.updates[u]).role_id)
}

proof fn places_are_found(list: Seq<u64>, id: u64, i: int)
    requires
        0 <= i <= list.len(),
        list.no_duplicates(),
        list.contains(id),
        forall|k: int| 0 <= k < i ==> #[trigger] list[k] != id,
    ensures
        place_of(list, id, i) == list.index_of(id),
    decreases list.len() - i,
{
    let n = list.index_of(id);
    if i < list.len() && list[i] != id {
        places_are_found(list, id, i + 1);
    } else if i < list.len() {
        assert(list[n] == list[i]);
    }
}

proof fn updates_lead_to_the_order(
    current: Seq<u64>,
    desired: Seq<u64>,
    named: Seq<u64>,
    fixed: Seq<u64>,
    i: int,
    updates: Seq<RolePositionUpdateView>,
)
    requires
        0 <= i <= current.len(),
        desired.no_duplicates(),
        desired.len() == current.len(),
        forall|k: int| 0 <= k < current.len() ==> desired.contains(#[trigger] current[k]),
        position_updates(current, desired, named, fixed, i, updates) is Ok,
    ensures
        ({
            let all = position_updates(current, desired, named, fixed, i, updates)->Ok_0;
            &&& forall|u: int| 0 <= u < updates.len() ==> all.contains(#[trigger] updates[u])
            &&& forall|u: int|
                0 <= u < all.len() ==> updates.contains(#[trigger] all[u]) || (desired.contains(all[u].role_id)
                    && all[u].position == desired.len() - 1 - desired.index_of(all[u].role_id) && named.contains(
                    all[u].role_id,
                ))
            &&& forall|k: int|
                i <= k < current.len() && named.contains(#[trigger] current[k]) && !fixed.contains(current[k])
                    && desired[k] != current[k] ==> exists|u: int|
                    0 <= u < all.len() && (#[trigger] all[u]).role_id == current[k]
        }),
    decreases current.len() - i,
{
    let all = position_updates(current, desired, named, fixed, i, updates)->Ok_0;
    if i < current.len() {
        if fixed.contains(current[i]) || !named.contains(current[i]) || desired[i] == current[i] {
            updates_lead_to_the_order(current, desired, named, fixed, i + 1, updates);
        } else {
            assert(desired.contains(current[i]));
            places_are_found(desired, current[i], 0);
            let position = desired.len() - 1 - place_of(desired, current[i], 0);
            let update = RolePositionUpdateView { role_id: current[i], position: position as i16 };
            let next = updates.push(update);
            updates_lead_to_the_order(current, desired, named, fixed, i + 1, next);
            assert forall|u: int| 0 <= u < updates.len() implies all.contains(#[trigger] updates[u]) by {
                assert(next[u] == updates[u]);
            }
            assert(next[updates.len() as int] == update);
            assert(all.contains(update));
            assert forall|u: int| 0 <= u < all.len() implies updates.contains(#[trigger] all[u]) || (desired.contains(
                all[u].role_id,
            ) && all[u].position == desired.len() - 1 - desired.index_of(all[u].role_id) && named.contains(
                all[u].role_id,
            )) by {
                if next.contains(all[u]) && !updates.contains(all[u]) {
                    let n = next.index_of(all[u]);
                    if n < updates.len() {
                        assert(updates[n] == all[u]);
                    }
                }
            }
            let m = all.index_of(update);
            assert(all[m].role_id == current[i]);
        }
    } else {
        assert forall|u: int| 0 <= u < updates.len() implies all.contains(#[trigger] updates[u]) by {}
        assert forall|u: int| 0 <= u < all.len() implies updates.contains(#[trigger] all[u]) by {}
    }
}

proof fn references_are_fixed(roles: Seq<(Seq<char>, RoleDefinitionView)>, state: StateView, k: int)
    requires
        0 <= k < roles.len(),
        roles[k].1 is Reference,
        bound_to(state, roles[k].0) is Some,
    ensures
        referenced_roles(roles, state).contains(bound_to(state, roles[k].0)->0),
    decreases roles.len(),
{
    let front = roles.drop_last();
    let rest = referenced_roles(front, state);
    let all = referenced_roles(roles, state);
    let id = bound_to(state, roles[k].0)->0;
    if k < roles.len() - 1 {
        references_are_fixed(front, state, k);
        let n = rest.index_of(id);
        assert(all[n] == id);
    } else {
        assert(all[all.len() - 1] == id);
    }
}

proof fn unmanageable_are_found(ids: Seq<u64>, roles: Seq<RoleSnapshotView>, id: u64)
    requires
        ids.contains(id),
        role_with_id(roles, id) is Some,
        !role_with_id(roles, id)->0.manageable,
    ensures
        unmanageable(ids, roles).contains(id),
    decreases ids.len(),
{
    let rest = unmanageable(ids.drop_last(), roles);
    let all = unmanageable(ids, roles);
    if ids.last() == id {
        assert(all[all.len() - 1] == id);
    } else {
        let i = ids.index_of(id);
        assert(ids.drop_last()[i] == id);
        unmanageable_are_found(ids.drop_last(), roles, id);
        let k = rest.index_of(id);
        assert(all[k] == id);
    }
}

proof fn fixed_roles_are_fixed(
    definition: DefinitionView,
    state: StateView,
    roles: Seq<RoleSnapshotView>,
    named: NamedRolesView,
    b: int,
)
    requires
        0 <= b < roles.len(),
        role_order(roles, state.guild_id).no_duplicates(),
        ({
            let start = immovable_roles(role_order(roles, state.guild_id), roles, state.guild_id);
            forall|n: int| 0 <= n < start.len() ==> named.fixed.contains(#[trigger] start[n])
        }),
        is_fixed(roles[b], definition, state),
    ensures
        (named.fixed + referenced_roles(definition.roles, state)).contains(roles[b].id),
{
    let current = role_order(roles, state.guild_id);
    let start = immovable_roles(current, roles, state.guild_id);
    let referenced = referenced_roles(definition.roles, state);
    let id = roles[b].id;
    roles_stand_by_position(roles, state.guild_id);
    role_with_id_is_listed(roles, id);
    assert(current.contains(id));
    assert(role_with_id(roles, id) is Some);
    let found = role_with_id(roles, id)->0;
    let n = roles.index_of(found);
    if n < b {
        assert(roles[n].id != roles[b].id);
    } else if b < n {
        assert(roles[b].id != roles[n].id);
    }
    assert(found == roles[b]);
    if !roles[b].manageable || id == state.guild_id {
        if id == state.guild_id {
            assert(start[start.len() - 1] == id);
        } else {
            unmanageable_are_found(current, roles, id);
            let k = unmanageable(current, roles).index_of(id);
            assert(start[k] == id);
        }
        assert(named.fixed.contains(id));
        let k = named.fixed.index_of(id);
        assert((named.fixed + referenced)[k] == id);
    } else {
        let name = choose|name: Seq<char>|
            #[trigger] lookup(definition.roles, name) == Some(RoleDefinitionView::Reference) && bound_to(state, name)
                == Some(id);
        let k = lookup_has_entry(definition.roles, name);
        references_are_fixed(definition.roles, state, k);
        let m = referenced.index_of(id);
        assert((named.fixed + referenced)[named.fixed.len() + m] == id);
    }
}

/// When a new order of roles is planned, and what it is.
///
/// Where some of the named roles are still to be created, the order is planned and left
/// open. Else a new order is planned exactly where two of the named roles stand the other
/// way round than they are named. Every named role that is bound is there, and can be
/// managed where it is managed.
pub proof fn orders_are_planned_where_they_differ(
    definition: DefinitionView,
    state: StateView,
    catalog: RoleCatalogView,
)
    requires
        role_order_plan(definition, state, catalog) is Ok,
    ensures
        ({
            let plan = role_order_plan(definition, state, catalog)->Ok_0;
            &&& definition.order is None ==> plan is None
            &&& definition.order is Some ==> {
                let names = definition.order->0.roles;
                &&& forall|k: int|
                    0 <= k < names.len() && bound_to(state, #[trigger] names[k]) is Some ==> exists|c: int|
                        0 <= c < catalog.roles.len() && (#[trigger] catalog.roles[c]).id == bound_to(state, names[k])->0
                            && (names[k] != everyone() && lookup(definition.roles, names[k]) is Some && lookup(
                            definition.roles,
                            names[k],
                        )->0 is Managed ==> catalog.roles[c].manageable)
                &&& !all_bound(names, state) ==> plan is Some && plan->0.requested == names && plan->0.updates.len()
                    == 0 && plan->0.expected_order.len() == 0
                &&& all_bound(names, state) ==> (plan is Some <==> is_out_of_place(names, state, catalog.roles))
                &&& all_bound(names, state) && plan is Some ==> is_order_of(
                    plan->0,
                    names,
                    definition,
                    state,
                    catalog.roles,
                )
            }
        }),
{
    if definition.order is Some && definition.order->0.roles.len() > 0 {
        let names = definition.order->0.roles;
        let roles = catalog.roles;
        let current = role_order(roles, state.guild_id);
        let start = NamedRolesView {
            ids: Seq::empty(),
            fixed: immovable_roles(current, roles, state.guild_id),
            deferred: false,
        };
        let named = named_roles(names, 0, definition, state, roles, start)->Ok_0;
        let referenced = referenced_roles(definition.roles, state);
        let fixed = named.fixed + referenced;
        names_come_to_their_roles(names, 0, definition, state, roles, start);
        roles_stand_by_position(roles, state.guild_id);
        assert forall|k: int| 0 <= k < names.len() && bound_to(state, #[trigger] names[k]) is Some implies exists|c: int|
            0 <= c < roles.len() && (#[trigger] roles[c]).id == bound_to(state, names[k])->0 && (names[k] != everyone()
                && lookup(definition.roles, names[k]) is Some && lookup(definition.roles, names[k])->0 is Managed
                ==> roles[c].manageable) by {
            let id = bound_to(state, names[k])->0;
            role_with_id_is_listed(roles, id);
            let found = role_with_id(roles, id)->0;
            let c = roles.index_of(found);
            assert(roles[c].id == id);
        }
        if all_bound(names, state) {
            let order = relative_order(current, named.ids, fixed)->0;
            new_orders_stand_as_asked(current, named.ids, fixed);
            named_stand_unless_out_of_place(names, named.ids, state, roles);
            if order != current {
                let plan = role_order_plan(definition, state, catalog)->Ok_0->0;
                planned_order_is_right(definition, state, roles, names, named, plan);
            }
        }
    } else if definition.order is Some {
        let names = definition.order->0.roles;
        assert(all_bound(names, state));
    }
}

proof fn planned_order_is_right(
    definition: DefinitionView,
    state: StateView,
    roles: Seq<RoleSnapshotView>,
    names: Seq<Seq<char>>,
    named: NamedRolesView,
    plan: OrderPlanView,
)
    requires
        all_bound(names, state),
        named.ids.len() == names.len(),
        forall|k: int| 0 <= k < names.len() ==> Some(named.ids[k]) == bound_to(state, #[trigger] names[k]),
        ({
            let current = role_order(roles, state.guild_id);
            let start = immovable_roles(current, roles, state.guild_id);
            let fixed = named.fixed + referenced_roles(definition.roles, state);
            &&& forall|n: int| 0 <= n < start.len() ==> named.fixed.contains(#[trigger] start[n])
            &&& relative_order(current, named.ids, fixed) == Some(plan.expected_order)
            &&& position_updates(current, plan.expected_order, named.ids, fixed, 0, Seq::empty()) == Ok::<
                Seq<RolePositionUpdateView>,
                ErrorView,
            >(plan.updates)
        }),
        plan.requested == names,
    ensures
        is_order_of(plan, names, definition, state, roles),
{
    broadcast use vstd::seq_lib::group_to_multiset_ensures;

    let current = role_order(roles, state.guild_id);
    let fixed = named.fixed + referenced_roles(definition.roles, state);
    let order = plan.expected_order;
    roles_stand_by_position(roles, state.guild_id);
    new_orders_stand_as_asked(current, named.ids, fixed);
    assert forall|id: u64| #[trigger] order.contains(id) <==> current.contains(id) by {
        assert(order.contains(id) <==> order.to_multiset().count(id) > 0);
        assert(current.contains(id) <==> current.to_multiset().count(id) > 0);
    }
    assert forall|id: u64| #[trigger] order.contains(id) <==> exists|k: int|
        0 <= k < roles.len() && (#[trigger] roles[k]).id == id by {
        assert(order.contains(id) <==> current.contains(id));
    }
    assert forall|i: int, j: int| 0 <= i < j < names.len() implies order.index_of(bound_to(state, #[trigger] names[i])->0)
        < order.index_of(bound_to(state, #[trigger] names[j])->0) by {
        assert(Some(named.ids[i]) == bound_to(state, names[i]));
        assert(Some(named.ids[j]) == bound_to(state, names[j]));
        assert(order.index_of(named.ids[i]) < order.index_of(named.ids[j]));
    }
    assert forall|a: int, b: int|
        0 <= a < roles.len() && 0 <= b < roles.len() && is_fixed(roles[b], definition, state) && order.index_of(
            (#[trigger] roles[a]).id,
        ) < order.index_of((#[trigger] roles[b]).id) implies stands_above(roles[a], roles[b], state.guild_id) by {
        fixed_roles_are_fixed(definition, state, roles, named, b);
        assert(current.contains(roles[a].id) && current.contains(roles[b].id));
        let i = current.index_of(roles[b].id);
        assert(keeps_fixed(current, reordered(current, named.ids, 0), fixed));
        assert(fixed.contains(current[i]));
        assert(order[i] == current[i]);
        let place = order.index_of(roles[b].id);
        assert(order[place] == order[i]);
        assert(order.contains(roles[a].id));
        let h = order.index_of(roles[a].id);
        assert(order[h] == roles[a].id);
        assert(current.take(i).contains(order[h]));
        let g = current.take(i).index_of(order[h]);
        assert(current[g] == roles[a].id);
        let c = current.index_of(roles[a].id);
        assert(current[c] == current[g]);
        assert(current.index_of(roles[a].id) < current.index_of(roles[b].id));
    }
    assert forall|k: int| 0 <= k < current.len() implies order.contains(#[trigger] current[k]) by {
        assert(current.contains(current[k]));
        assert(order.contains(current[k]) <==> current.contains(current[k]));
    }
    updates_lead_to_the_order(current, order, named.ids, fixed, 0, Seq::empty());
    assert forall|u: int| 0 <= u < plan.updates.len() implies {
        let update = #[trigger] plan.updates[u];
        &&& order.contains(update.role_id)
        &&& update.position == order.len() - 1 - order.index_of(update.role_id)
        &&& exists|k: int| 0 <= k < names.len() && bound_to(state, #[trigger] names[k]) == Some(update.role_id)
    } by {
        let update = plan.updates[u];
        assert(!Seq::<RolePositionUpdateView>::empty().contains(update));
        assert(named.ids.contains(update.role_id));
        let k = named.ids.index_of(update.role_id);
        assert(bound_to(state, names[k]) == Some(update.role_id));
    }
    assert forall|k: int| 0 <= k < names.len() && current.index_of(bound_to(state, #[trigger] names[k])->0)
        != order.index_of(bound_to(state, names[k])->0) implies exists|u: int|
        0 <= u < plan.updates.len() && bound_to(state, names[k]) == Some((#[trigger] plan.updates[u]).role_id) by {
        let id = named.ids[k];
        assert(bound_to(state, names[k]) == Some(id));
        assert(current.contains(named.ids[k]));
        let i = current.index_of(id);
        assert(named.ids.contains(current[i]));
        if order[i] == id {
            let n = order.index_of(id);
            assert(order[n] == order[i]);
        }
        assert(order[i] != current[i]);
        assert(!fixed.contains(current[i]));
        let u = choose|u: int| 0 <= u < plan.updates.len() && (#[trigger] plan.updates[u]).role_id == current[i];
        assert(bound_to(state, names[k]) == Some(plan.updates[u].role_id));
    }
}

} // verus!
