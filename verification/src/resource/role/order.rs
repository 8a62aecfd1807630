//! The order of roles.

use vstd::prelude::*;

use crate::configuration::definition::{DefinitionFile, DefinitionView, RawOrderDefinition};
use crate::configuration::role::{RoleDefinition, RoleDefinitionView};
use crate::configuration::state::{StateFile, StateView};
use crate::domain::{ErrorView, ManagementError};
use crate::ids::{everyone, RoleId, RoleLogicalId};
use crate::ordered::{lookup, OrderedMap};
use crate::port::{
    RoleCatalog, RoleCatalogView, RolePositionUpdate, RolePositionUpdateView, RoleSnapshot, RoleSnapshotView,
};
use crate::resource::sorting::{
    has_id, ids_in_places, in_places, new_order_keeps_the_rest, relative_order, sort_by_place, stable_relative_order,
};
use crate::text::{decimal, text3, text5};
use crate::value::{seen, Plain};

verus! {

/// The role with an identifier: the last one that a catalog lists.
pub open spec fn role_with_id(roles: Seq<RoleSnapshotView>, id: u64) -> Option<RoleSnapshotView>
    decreases roles.len(),
{
    if roles.len() == 0 {
        None
    } else if roles.last().id == id {
        Some(roles.last())
    } else {
        role_with_id(roles.drop_last(), id)
    }
}

/// A role with an identifier that is found has it, and is listed.
pub proof fn role_with_id_is_listed(roles: Seq<RoleSnapshotView>, id: u64)
    ensures
        role_with_id(roles, id) is Some ==> role_with_id(roles, id)->0.id == id && roles.contains(
            role_with_id(roles, id)->0,
        ),
        role_with_id(roles, id) is None ==> forall|k: int| 0 <= k < roles.len() ==> (#[trigger] roles[k]).id != id,
    decreases roles.len(),
{
    if roles.len() > 0 {
        role_with_id_is_listed(roles.drop_last(), id);
        let rest = roles.drop_last();
        if roles.last().id == id {
            assert(roles[roles.len() - 1] == roles.last());
        } else if role_with_id(rest, id) is Some {
            let i = rest.index_of(role_with_id(rest, id)->0);
            assert(roles[i] == rest[i]);
        } else {
            assert forall|k: int| 0 <= k < roles.len() implies (#[trigger] roles[k]).id != id by {
                if k < rest.len() {
                    assert(rest[k] == roles[k]);
                }
            }
        }
    }
}

/// The role with an identifier: the last one that a catalog lists.
pub fn find_role<'a>(roles: &'a Vec<RoleSnapshot>, id: u64) -> (found: Option<&'a RoleSnapshot>)
    ensures
        found.deep_view() == role_with_id(roles.deep_view(), id),
{
    let ghost all = roles.deep_view();
    let mut n: usize = roles.len();
    assert(all.take(n as int) =~= all);
    while n > 0
        invariant
            n <= roles@.len(),
            all == roles.deep_view(),
            role_with_id(all, id) == role_with_id(all.take(n as int), id),
        decreases n,
    {
        proof {
            assert(all.take(n as int).last() == roles@[n - 1].deep_view());
            assert(all.take(n as int).drop_last() =~= all.take(n - 1));
        }
        if roles[n - 1].id.get() == id {
            return Some(&roles[n - 1]);
        }
        n -= 1;
    }
    None
}

/// The role with an identifier: the first one that a catalog lists.
pub open spec fn first_role_with_id(roles: Seq<RoleSnapshotView>, id: u64) -> Option<RoleSnapshotView>
    decreases roles.len(),
{
    if roles.len() == 0 {
        None
    } else if roles[0].id == id {
        Some(roles[0])
    } else {
        first_role_with_id(roles.drop_first(), id)
    }
}

/// The role with an identifier: the first one that a catalog lists.
pub fn find_first_role<'a>(roles: &'a Vec<RoleSnapshot>, id: u64) -> (found: Option<&'a RoleSnapshot>)
    ensures
        found.deep_view() == first_role_with_id(roles.deep_view(), id),
{
    let ghost all = roles.deep_view();
    let mut i: usize = 0;
    assert(all.skip(0) =~= all);
    while i < roles.len()
        invariant
            i <= roles@.len(),
            all == roles.deep_view(),
            first_role_with_id(all, id) == first_role_with_id(all.skip(i as int), id),
        decreases roles@.len() - i,
    {
        proof {
            assert(all.skip(i as int)[0] == roles@[i as int].deep_view());
            assert(all.skip(i as int).drop_first() =~= all.skip(i + 1));
        }
        if roles[i].id.get() == id {
            return Some(&roles[i]);
        }
        i += 1;
    }
    None
}

/// The rank of a role: higher roles come first, the role of every member last.
pub open spec fn role_rank(role: RoleSnapshotView, everyone_id: u64) -> i64 {
    if role.id == everyone_id {
        i64::MAX
    } else {
        (-(role.position as int)) as i64
    }
}

/// The places of roles.
pub open spec fn role_places(roles: Seq<RoleSnapshotView>, everyone_id: u64) -> Seq<(i64, u64)> {
    roles.map_values(|role: RoleSnapshotView| (role_rank(role, everyone_id), role.id))
}

/// The identifiers of roles from the highest to the lowest.
pub open spec fn role_order(roles: Seq<RoleSnapshotView>, everyone_id: u64) -> Seq<u64> {
    ids_in_places(role_places(roles, everyone_id))
}

/// The identifiers of roles from the highest to the lowest.
pub fn ordered_role_ids(catalog: &RoleCatalog, everyone_id: RoleId) -> (ids: Vec<RoleId>)
    ensures
        ids.deep_view() == role_order(catalog.deep_view().roles, everyone_id.deep_view()),
{
    let ghost roles = catalog.deep_view().roles;
    let everyone_id: u64 = everyone_id.get();
    let mut places: Vec<(i64, u64)> = Vec::new();
    let mut i: usize = 0;
    while i < catalog.roles.len()
        invariant
            i <= catalog.roles@.len(),
            roles == catalog.deep_view().roles,
            places@ == role_places(roles, everyone_id).take(i as int),
            forall|k: int| 0 <= k < i ==> (#[trigger] places@[k]).1 != u64::MAX,
        decreases catalog.roles@.len() - i,
    {
        let role: &RoleSnapshot = &catalog.roles[i];
        let rank: i64 = if role.id.get() == everyone_id {
            i64::MAX
        } else {
            -(role.position as i64)
        };
        places.push((rank, role.id.get()));
        proof {
            assert(roles[i as int] == role.deep_view());
            assert(role_places(roles, everyone_id).take(i + 1) =~= role_places(roles, everyone_id).take(i as int).push(
                (rank, role.id.deep_view()),
            ));
        }
        i += 1;
    }
    assert(role_places(roles, everyone_id).take(i as int) =~= role_places(roles, everyone_id));
    let sorted: Vec<(i64, u64)> = sort_by_place(&places);
    let mut ids: Vec<RoleId> = Vec::new();
    let mut k: usize = 0;
    proof {
        crate::resource::sorting::sorting_holds_the_same(places@);
    }
    while k < sorted.len()
        invariant
            k <= sorted@.len(),
            sorted@ == in_places(places@),
            sorted@.to_multiset() == places@.to_multiset(),
            forall|j: int| 0 <= j < places@.len() ==> (#[trigger] places@[j]).1 != u64::MAX,
            ids@.len() == k,
            forall|j: int| 0 <= j < k ==> (#[trigger] ids@[j]).deep_view() == sorted@[j].1,
        decreases sorted@.len() - k,
    {
        proof {
            broadcast use vstd::seq_lib::group_to_multiset_ensures;

            assert(sorted@.contains(sorted@[k as int]));
            assert(sorted@.to_multiset().count(sorted@[k as int]) > 0);
            assert(places@.contains(sorted@[k as int]));
            let j = places@.index_of(sorted@[k as int]);
            assert(places@[j].1 != u64::MAX);
        }
        ids.push(RoleId::new(sorted[k].1));
        k += 1;
    }
    assert(ids.deep_view() =~= role_order(roles, everyone_id));
    ids
}

/// A new order of roles.
pub struct OrderPlan {
    pub requested: Vec<RoleLogicalId>,
    pub updates: Vec<RolePositionUpdate>,
    pub expected_order: Vec<RoleId>,
}

/// What a new order of roles holds.
pub struct OrderPlanView {
    pub requested: Seq<Seq<char>>,
    pub updates: Seq<RolePositionUpdateView>,
    pub expected_order: Seq<u64>,
}

impl DeepView for OrderPlan {
    type V = OrderPlanView;

    open spec fn deep_view(&self) -> OrderPlanView {
        OrderPlanView {
            requested: self.requested.deep_view(),
            updates: self.updates.deep_view(),
            expected_order: self.expected_order.deep_view(),
        }
    }
}

impl Plain for OrderPlan {
    fn copy(&self) -> (copied: Self) {
        OrderPlan {
            requested: self.requested.copy(),
            updates: self.updates.copy(),
            expected_order: self.expected_order.copy(),
        }
    }

    fn same(&self, other: &Self) -> (equal: bool) {
        self.requested.same(&other.requested) && self.updates.same(&other.updates) && self.expected_order.same(
            &other.expected_order,
        )
    }
}

/// Those of a list that the bot cannot manage.
pub open spec fn unmanageable(ids: Seq<u64>, roles: Seq<RoleSnapshotView>) -> Seq<u64>
    decreases ids.len(),
{
    if ids.len() == 0 {
        ids
    } else {
        let rest = unmanageable(ids.drop_last(), roles);
        match role_with_id(roles, ids.last()) {
            Some(role) => if role.manageable {
                rest
            } else {
                rest.push(ids.last())
            },
            None => rest,
        }
    }
}

/// What the roles that an order names come to: their identifiers, those of
/// them that are fixed, and whether some are still to be created.
pub struct NamedRolesView {
    pub ids: Seq<u64>,
    pub fixed: Seq<u64>,
    pub deferred: bool,
}

/// What the roles that an order names come to, from a place on.
pub open spec fn named_roles(
    names: Seq<Seq<char>>,
    i: int,
    definition: DefinitionView,
    state: StateView,
    roles: Seq<RoleSnapshotView>,
    gathered: NamedRolesView,
) -> Result<NamedRolesView, ErrorView>
    decreases names.len() - i,
{
    if i < 0 || i >= names.len() {
        Ok(gathered)
    } else {
        let name = names[i];
        let declared = lookup(definition.roles, name);
        let is_reference = declared is Some && declared->0 is Reference;
        let is_managed = declared is Some && declared->0 is Managed;
        match crate::configuration::state::role_id_of(state, name) {
            None => if is_reference {
                Err(
                    ErrorView::InvalidState(
                        "order.roles の参照専用 Role "@ + name + " の対応がありません"@,
                    ),
                )
            } else {
                named_roles(
                    names,
                    i + 1,
                    definition,
                    state,
                    roles,
                    NamedRolesView { deferred: true, ..gathered },
                )
            },
            Some(id) => match role_with_id(roles, id) {
                None => Err(
                    ErrorView::InvalidState(
                        "order.roles の Role "@ + name + " の Snowflake "@ + decimal(id as nat)
                            + " が Guild から予期せず消失しています"@,
                    ),
                ),
                Some(role) => if is_managed && name != everyone() && !role.manageable {
                    Err(
                        ErrorView::InvalidState(
                            "order.roles の Role "@ + name
                                + " は Bot の階層より上位または管理対象外のため移動できません"@,
                        ),
                    )
                } else {
                    named_roles(
                        names,
                        i + 1,
                        definition,
                        state,
                        roles,
                        NamedRolesView {
                            ids: gathered.ids.push(id),
                            fixed: if is_reference || name == everyone() || !role.manageable {
                                gathered.fixed.push(id)
                            } else {
                                gathered.fixed
                            },
                            deferred: gathered.deferred,
                        },
                    )
                },
            },
        }
    }
}

/// The roles that a definition only refers to, as far as they are bound.
pub open spec fn referenced_roles(
    roles: Seq<(Seq<char>, RoleDefinitionView)>,
    state: StateView,
) -> Seq<u64>
    decreases roles.len(),
{
    if roles.len() == 0 {
        Seq::empty()
    } else {
        let rest = referenced_roles(roles.drop_last(), state);
        match crate::configuration::state::role_id_of(state, roles.last().0) {
            Some(id) => if roles.last().1 is Reference {
                rest.push(id)
            } else {
                rest
            },
            None => rest,
        }
    }
}

/// The roles that cannot be moved whatever an order names: those the bot cannot
/// manage, and the role that every member has.
pub open spec fn immovable_roles(current: Seq<u64>, roles: Seq<RoleSnapshotView>, everyone_id: u64) -> Seq<u64> {
    if role_with_id(roles, everyone_id) is Some {
        unmanageable(current, roles).push(everyone_id)
    } else {
        unmanageable(current, roles)
    }
}

/// Where something stands in a list, from a place on.
pub open spec fn place_of(list: Seq<u64>, id: u64, i: int) -> int
    decreases list.len() - i,
{
    if i < 0 || i >= list.len() || list[i] == id {
        i
    } else {
        place_of(list, id, i + 1)
    }
}

/// The position updates that lead from one order to another, from a place on:
/// one for each role that is named, is not fixed and has moved.
pub open spec fn position_updates(
    current: Seq<u64>,
    desired: Seq<u64>,
    named: Seq<u64>,
    fixed: Seq<u64>,
    i: int,
    updates: Seq<RolePositionUpdateView>,
) -> Result<Seq<RolePositionUpdateView>, ErrorView>
    decreases current.len() - i,
{
    if i < 0 || i >= current.len() {
        Ok(updates)
    } else if fixed.contains(current[i]) || !named.contains(current[i]) || desired[i] == current[i] {
        position_updates(current, desired, named, fixed, i + 1, updates)
    } else {
        let position = desired.len() - 1 - place_of(desired, current[i], 0);
        if position > i16::MAX {
            Err(
                ErrorView::InvalidDefinition("Role の数が Discord の position 範囲を超えています"@),
            )
        } else {
            position_updates(
                current,
                desired,
                named,
                fixed,
                i + 1,
                updates.push(RolePositionUpdateView { role_id: current[i], position: position as i16 }),
            )
        }
    }
}

/// The new order that a definition wants for roles, given what its names come to.
pub open spec fn order_of_named(
    requested: Seq<Seq<char>>,
    current: Seq<u64>,
    named: NamedRolesView,
    referenced: Seq<u64>,
) -> Result<Option<OrderPlanView>, ErrorView> {
    let fixed = named.fixed + referenced;
    match relative_order(current, named.ids, fixed) {
        None => Err(
            ErrorView::InvalidDefinition(
                "order.roles は参照専用 Role、@everyone、Role 階層の固定位置と両立しません"@,
            ),
        ),
        Some(desired) => if named.deferred {
            Ok(
                Some(
                    OrderPlanView { requested, updates: Seq::empty(), expected_order: Seq::empty() },
                ),
            )
        } else if desired == current {
            Ok(None)
        } else {
            match position_updates(current, desired, named.ids, fixed, 0, Seq::empty()) {
                Err(error) => Err(error),
                Ok(updates) => Ok(Some(OrderPlanView { requested, updates, expected_order: desired })),
            }
        },
    }
}

/// The new order that a definition wants for roles, if it differs from the order they have.
pub open spec fn role_order_plan(
    definition: DefinitionView,
    state: StateView,
    catalog: RoleCatalogView,
) -> Result<Option<OrderPlanView>, ErrorView> {
    match definition.order {
        None => Ok(None),
        Some(order) => if order.roles.len() == 0 {
            Ok(None)
        } else {
            let current = role_order(catalog.roles, state.guild_id);
            let start = NamedRolesView {
                ids: Seq::empty(),
                fixed: immovable_roles(current, catalog.roles, state.guild_id),
                deferred: false,
            };
            match named_roles(order.roles, 0, definition, state, catalog.roles, start) {
                Err(error) => Err(error),
                Ok(named) => order_of_named(
                    order.roles,
                    current,
                    named,
                    referenced_roles(definition.roles, state),
                ),
            }
        },
    }
}

/// What the roles that an order names come to.
struct NamedRoles {
    ids: Vec<RoleId>,
    fixed: Vec<RoleId>,
    deferred: bool,
}

impl DeepView for NamedRoles {
    type V = NamedRolesView;

    closed spec fn deep_view(&self) -> NamedRolesView {
        NamedRolesView { ids: self.ids.deep_view(), fixed: self.fixed.deep_view(), deferred: self.deferred }
    }
}

fn find_immovable(current: &Vec<RoleId>, roles: &Vec<RoleSnapshot>, everyone_id: RoleId) -> (fixed: Vec<RoleId>)
    ensures
        fixed.deep_view() == immovable_roles(current.deep_view(), roles.deep_view(), everyone_id.deep_view()),
{
    let ghost ids = current.deep_view();
    let mut fixed: Vec<RoleId> = Vec::new();
    let mut i: usize = 0;
    assert(ids.take(0) =~= Seq::empty());
    assert(fixed.deep_view() =~= unmanageable(ids.take(0), roles.deep_view()));
    while i < current.len()
        invariant
            i <= current@.len(),
            ids == current.deep_view(),
            fixed.deep_view() == unmanageable(ids.take(i as int), roles.deep_view()),
        decreases current@.len() - i,
    {
        let ghost before = fixed.deep_view();
        proof {
            assert(ids.take(i + 1).drop_last() =~= ids.take(i as int));
            assert(ids.take(i + 1).last() == ids[i as int]);
        }
        match find_role(roles, current[i].get()) {
            Some(role) => {
                if !role.manageable {
                    fixed.push(current[i]);
                    assert(fixed.deep_view() =~= before.push(ids[i as int]));
                }
            },
            None => {},
        }
        i += 1;
    }
    assert(ids.take(i as int) =~= ids);
    let ghost before = fixed.deep_view();
    if find_role(roles, everyone_id.get()).is_some() {
        fixed.push(everyone_id);
        assert(fixed.deep_view() =~= before.push(everyone_id.deep_view()));
    }
    fixed
}

/// The Discord identifier of a declared role, if it is known.
pub fn find_role_id(name: &RoleLogicalId, state: &StateFile) -> (id: Option<RoleId>)
    ensures
        id.deep_view() == crate::configuration::state::role_id_of(state.deep_view(), name.deep_view()),
{
    if name.is_everyone() {
        return Some(RoleId::new(state.guild_id.get()));
    }
    match state.roles.get(name) {
        Some(id) => Some(*id),
        None => None,
    }
}

#[verifier::loop_isolation(false)]
fn resolve_named(
    names: &Vec<RoleLogicalId>,
    definition: &DefinitionFile,
    state: &StateFile,
    roles: &Vec<RoleSnapshot>,
    fixed: Vec<RoleId>,
) -> (result: Result<NamedRoles, ManagementError>)
    ensures
        seen(result) == named_roles(
            names.deep_view(),
            0,
            definition.deep_view(),
            state.deep_view(),
            roles.deep_view(),
            NamedRolesView { ids: Seq::empty(), fixed: fixed.deep_view(), deferred: false },
        ),
{
    let ghost start = NamedRolesView { ids: Seq::empty(), fixed: fixed.deep_view(), deferred: false };
    let mut ids: Vec<RoleId> = Vec::new();
    let mut fixed: Vec<RoleId> = fixed;
    let mut deferred: bool = false;
    let mut i: usize = 0;
    assert(ids.deep_view() =~= Seq::empty());
    while i < names.len()
        invariant
            i <= names@.len(),
            named_roles(
                names.deep_view(),
                0,
                definition.deep_view(),
                state.deep_view(),
                roles.deep_view(),
                start,
            ) == named_roles(
                names.deep_view(),
                i as int,
                definition.deep_view(),
                state.deep_view(),
                roles.deep_view(),
                NamedRolesView { ids: ids.deep_view(), fixed: fixed.deep_view(), deferred },
            ),
        decreases names@.len() - i,
    {
        let name: &RoleLogicalId = &names[i];
        let declared: Option<&RoleDefinition> = definition.roles.get(name);
        let is_reference: bool = match declared {
            Some(role) => role.is_reference(),
            None => false,
        };
        let is_managed: bool = match declared {
            Some(role) => role.is_managed(),
            None => false,
        };
        match find_role_id(name, state) {
            None => {
                if is_reference {
                    return Err(
                        ManagementError::InvalidState(
                            text3("order.roles の参照専用 Role ", name.as_str(), " の対応がありません"),
                        ),
                    );
                }
                deferred = true;
            },
            Some(id) => match find_role(roles, id.get()) {
                None => {
                    return Err(
                        ManagementError::InvalidState(
                            text5(
                                "order.roles の Role ",
                                name.as_str(),
                                " の Snowflake ",
                                id.to_text().as_str(),
                                " が Guild から予期せず消失しています",
                            ),
                        ),
                    );
                },
                Some(role) => {
                    let is_everyone: bool = name.is_everyone();
                    if is_managed && !is_everyone && !role.manageable {
                        return Err(
                            ManagementError::InvalidState(
                                text3(
                                    "order.roles の Role ",
                                    name.as_str(),
                                    " は Bot の階層より上位または管理対象外のため移動できません",
                                ),
                            ),
                        );
                    }
                    let ghost ids_before = ids.deep_view();
                    let ghost fixed_before = fixed.deep_view();
                    if is_reference || is_everyone || !role.manageable {
                        fixed.push(id);
                        assert(fixed.deep_view() =~= fixed_before.push(id.deep_view()));
                    }
                    ids.push(id);
                    assert(ids.deep_view() =~= ids_before.push(id.deep_view()));
                },
            },
        }
        i += 1;
    }
    Ok(NamedRoles { ids, fixed, deferred })
}

fn find_referenced(roles: &OrderedMap<RoleLogicalId, RoleDefinition>, state: &StateFile) -> (ids: Vec<RoleId>)
    ensures
        ids.deep_view() == referenced_roles(roles.deep_view(), state.deep_view()),
{
    let ghost all = roles.deep_view();
    let mut ids: Vec<RoleId> = Vec::new();
    let mut i: usize = 0;
    assert(all.take(0) =~= Seq::empty());
    assert(ids.deep_view() =~= referenced_roles(all.take(0), state.deep_view()));
    while i < roles.len()
        invariant
            i <= all.len(),
            all == roles.deep_view(),
            ids.deep_view() == referenced_roles(all.take(i as int), state.deep_view()),
        decreases all.len() - i,
    {
        let ghost before = ids.deep_view();
        proof {
            assert(all.take(i + 1).drop_last() =~= all.take(i as int));
            assert(all.take(i + 1).last() == all[i as int]);
        }
        match find_role_id(roles.key_at(i), state) {
            Some(id) => {
                if roles.value_at(i).is_reference() {
                    ids.push(id);
                    assert(ids.deep_view() =~= before.push(id.deep_view()));
                }
            },
            None => {},
        }
        i += 1;
    }
    assert(all.take(i as int) =~= all);
    ids
}

fn find_place(list: &Vec<RoleId>, id: u64) -> (place: usize)
    requires
        list.deep_view().contains(id),
    ensures
        place == place_of(list.deep_view(), id, 0),
        place < list@.len(),
{
    let mut i: usize = 0;
    while i < list.len() && list[i].get() != id
        invariant
            i <= list@.len(),
            place_of(list.deep_view(), id, 0) == place_of(list.deep_view(), id, i as int),
            forall|k: int| 0 <= k < i ==> #[trigger] list.deep_view()[k] != id,
        decreases list@.len() - i,
    {
        i += 1;
    }
    i
}

#[verifier::loop_isolation(false)]
fn update_positions(
    current: &Vec<RoleId>,
    desired: &Vec<RoleId>,
    named: &Vec<RoleId>,
    fixed: &Vec<RoleId>,
) -> (result: Result<Vec<RolePositionUpdate>, ManagementError>)
    requires
        current.deep_view().len() == desired.deep_view().len(),
        current.deep_view().to_multiset() == desired.deep_view().to_multiset(),
    ensures
        seen(result) == position_updates(
            current.deep_view(),
            desired.deep_view(),
            named.deep_view(),
            fixed.deep_view(),
            0,
            Seq::empty(),
        ),
{
    let ghost ids = current.deep_view();
    let ghost after = desired.deep_view();
    let mut updates: Vec<RolePositionUpdate> = Vec::new();
    let mut i: usize = 0;
    assert(updates.deep_view() =~= Seq::empty());
    while i < current.len()
        invariant
            i <= current@.len(),
            position_updates(ids, after, named.deep_view(), fixed.deep_view(), 0, Seq::empty()) == position_updates(
                ids,
                after,
                named.deep_view(),
                fixed.deep_view(),
                i as int,
                updates.deep_view(),
            ),
        decreases current@.len() - i,
    {
        let id: u64 = current[i].get();
        if !(has_id(fixed, id) || !has_id(named, id) || desired[i].get() == id) {
            proof {
                broadcast use vstd::seq_lib::group_to_multiset_ensures;

                assert(ids.contains(ids[i as int]));
                assert(ids.to_multiset().count(id) > 0);
                assert(after.contains(id));
            }
            let position: usize = desired.len() - 1 - find_place(desired, id);
            if position > 32767 {
                return Err(
                    ManagementError::InvalidDefinition(
                        "Role の数が Discord の position 範囲を超えています".to_owned(),
                    ),
                );
            }
            let ghost before = updates.deep_view();
            updates.push(RolePositionUpdate { role_id: current[i], position: position as i16 });
            assert(updates.deep_view() =~= before.push(
                RolePositionUpdateView { role_id: id, position: position as i16 },
            ));
        }
        i += 1;
    }
    Ok(updates)
}

/// The new order that a definition wants for roles, if it differs from the order they have.
pub fn build_order_plan(
    definition: &DefinitionFile,
    state: &StateFile,
    catalog: &RoleCatalog,
) -> (result: Result<Option<OrderPlan>, ManagementError>)
    ensures
        seen(result) == role_order_plan(definition.deep_view(), state.deep_view(), catalog.deep_view()),
{
    let order: &RawOrderDefinition = match &definition.order {
        None => {
            return Ok(None);
        },
        Some(order) => order,
    };
    if order.roles.is_empty() {
        return Ok(None);
    }
    let everyone_id: RoleId = RoleId::new(state.guild_id.get());
    let current: Vec<RoleId> = ordered_role_ids(catalog, everyone_id);
    let immovable: Vec<RoleId> = find_immovable(&current, &catalog.roles, everyone_id);
    let named: NamedRoles = resolve_named(&order.roles, definition, state, &catalog.roles, immovable)?;
    let mut fixed: Vec<RoleId> = named.fixed;
    let mut referenced: Vec<RoleId> = find_referenced(&definition.roles, state);
    let ghost fixed_view = fixed.deep_view() + referenced.deep_view();
    fixed.append(&mut referenced);
    assert(fixed.deep_view() =~= fixed_view);
    let desired: Vec<RoleId> = match stable_relative_order(&current, &named.ids, &fixed) {
        Err(()) => {
            return Err(
                ManagementError::InvalidDefinition(
                    "order.roles は参照専用 Role、@everyone、Role 階層の固定位置と両立しません".to_owned(),
                ),
            );
        },
        Ok(desired) => desired,
    };
    if named.deferred {
        let updates: Vec<RolePositionUpdate> = Vec::new();
        let expected_order: Vec<RoleId> = Vec::new();
        assert(updates.deep_view() =~= Seq::empty());
        assert(expected_order.deep_view() =~= Seq::empty());
        return Ok(Some(OrderPlan { requested: order.roles.copy(), updates, expected_order }));
    }
    if desired.same(&current) {
        return Ok(None);
    }
    proof {
        new_order_keeps_the_rest(current.deep_view(), named.ids.deep_view(), fixed.deep_view());
    }
    let updates: Vec<RolePositionUpdate> = update_positions(&current, &desired, &named.ids, &fixed)?;
    Ok(Some(OrderPlan { requested: order.roles.copy(), updates, expected_order: desired }))
}

} // verus!
