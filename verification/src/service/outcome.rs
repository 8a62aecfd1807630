//! What plans of roles name, role by role, and what an application of them asks for and leaves.

use vstd::prelude::*;

use crate::apply::ReplyView;
use crate::configuration::definition::DefinitionView;
use crate::configuration::permission::KnownPermission;
use crate::configuration::role::{ManagedValue, RoleAttributesView, RoleDefinitionView};
use crate::configuration::state::MappingsView;
use crate::ids::{everyone, RoleLogicalId};
use crate::ordered::{
    entry_is_found, has_key, lookup, lookup_has_entry, lookup_in_sorted, sorted, sorted_entries, OrderedKey,
};
use crate::port::{RoleCatalogView, RoleSnapshotView};
use crate::resource::role::apply::{RoleActionView, RoleApplyOptions};
use crate::resource::role::attributes::composed;
use crate::resource::role::effects::{
    bound_to, composed_permissions_are_sorted, found_roles_are_listed, is_as_asked, lists,
};
use crate::resource::role::order::{first_role_with_id, role_with_id, role_with_id_is_listed};
use crate::service::application::{applications_account_for_the_plan, RepliesView};
use crate::service::apply::{
    changes_besides, changes_of, lifecycle_of, new_session, taken_up_is_pending, RoleEventView, RolePhaseView,
    RoleSessionView, RoleStatusView,
};
use crate::service::effects::{
    attributes_are_listed_where_they_differ, creation_is_asked, creations_are_what_is_asked,
    is_difference, is_listed_from, lists_what_differs, updates_give_what_is_asked,
};
use crate::service::plan::{tracked_plan, AttributeChangeView, LifecycleView, RolePlanView};
use crate::service::state::TrackedView;

verus! {

/// Whether a plan changes no attribute of a role.
pub open spec fn changes_no_attribute(plan: RolePlanView, id: Seq<char>) -> bool {
    forall|n: int| 0 <= n < plan.changes.len() ==> (#[trigger] plan.changes[n]).logical_id != id
}

/// Whether a plan changes just those attributes of a role that differ from what is asked for.
pub open spec fn changes_what_differs(
    plan: RolePlanView,
    id: Seq<char>,
    discord_id: u64,
    actual: RoleSnapshotView,
    desired: RoleAttributesView,
    defaults: Seq<(Seq<char>, bool)>,
) -> bool {
    &&& forall|n: int|
        0 <= n < plan.changes.len() && (#[trigger] plan.changes[n]).logical_id == id ==> plan.changes[n].discord_id
            == discord_id && is_difference(plan.changes[n], actual, desired, defaults)
    &&& forall|change: AttributeChangeView| #[trigger]
        is_difference(change, actual, desired, defaults) && change.logical_id == id && change.discord_id == discord_id
            ==> plan.changes.contains(change)
}

/// Whether a plan creates, releases or deletes a role just as is said, if anything is.
pub open spec fn does_just(plan: RolePlanView, id: Seq<char>, said: Option<LifecycleView>) -> bool {
    &&& forall|n: int|
        0 <= n < plan.lifecycle.len() && (#[trigger] plan.lifecycle[n]).logical_id() == id ==> said == Some(
            plan.lifecycle[n],
        )
    &&& said is Some ==> plan.lifecycle.contains(said->0)
}

/// Whether a plan does with a declared role what its declaration says.
pub open spec fn does_what_is_declared(
    plan: RolePlanView,
    id: Seq<char>,
    role: RoleDefinitionView,
    definition: DefinitionView,
    state: TrackedView,
    catalog: RoleCatalogView,
) -> bool {
    let deleted = has_key(state.deleted_roles, id);
    if role is Absent {
        &&& id != everyone()
        &&& changes_no_attribute(plan, id)
        &&& match lookup(state.bindings.roles, id) {
            Some(discord_id) => if deleted {
                does_just(plan, id, None)
            } else {
                &&& does_just(plan, id, Some(LifecycleView::Delete { logical_id: id, discord_id }))
                &&& forall|actual: RoleSnapshotView| #[trigger] lists(catalog, discord_id, actual) ==> actual.manageable
            },
            None => does_just(plan, id, None),
        }
    } else if id != everyone() && (deleted || !has_key(state.bindings.roles, id)) {
        &&& role is Managed
        &&& changes_no_attribute(plan, id)
        &&& does_just(plan, id, Some(LifecycleView::Create { logical_id: id, recreated: deleted }))
    } else {
        let discord_id = bound_to(state.bindings, id)->0;
        &&& does_just(plan, id, None)
        &&& exists|actual: RoleSnapshotView| #[trigger]
            lists(catalog, discord_id, actual) && (role is Managed ==> actual.manageable) && changes_what_differs(
                plan,
                id,
                discord_id,
                actual,
                composed(role, definition.settings_sets.role),
                catalog.default_permissions,
            )
    }
}

proof fn listed_once(catalog: RoleCatalogView, id: u64, one: RoleSnapshotView, other: RoleSnapshotView)
    requires
        lists(catalog, id, one),
        lists(catalog, id, other),
    ensures
        one == other,
{
    let roles = catalog.roles;
    let a = choose|k: int|
        0 <= k < roles.len() && (#[trigger] roles[k]) == one && one.id == id && forall|j: int|
            k < j < roles.len() ==> (#[trigger] roles[j]).id != id;
    let b = choose|k: int|
        0 <= k < roles.len() && (#[trigger] roles[k]) == other && other.id == id && forall|j: int|
            k < j < roles.len() ==> (#[trigger] roles[j]).id != id;
    if a < b {
        assert(roles[b].id != id);
    } else if b < a {
        assert(roles[a].id != id);
    }
}

proof fn role_adds_its_own(
    plan: RolePlanView,
    id: Seq<char>,
    role: RoleDefinitionView,
    definition: DefinitionView,
    state: TrackedView,
    catalog: RoleCatalogView,
)
    requires
        plan.after_role(id, role, definition, state, catalog) is Ok,
        changes_no_attribute(plan, id),
        does_just(plan, id, None),
    ensures
        ({
            let after = plan.after_role(id, role, definition, state, catalog)->Ok_0;
            &&& plan.changes.is_prefix_of(after.changes)
            &&& plan.lifecycle.is_prefix_of(after.lifecycle)
            &&& forall|n: int| plan.changes.len() <= n < after.changes.len() ==> (#[trigger] after.changes[n]).logical_id
                == id
            &&& forall|n: int| plan.lifecycle.len() <= n < after.lifecycle.len() ==> (
            #[trigger] after.lifecycle[n]).logical_id() == id
            &&& does_what_is_declared(after, id, role, definition, state, catalog)
        }),
{
    let after = plan.after_role(id, role, definition, state, catalog)->Ok_0;
    let desired = composed(role, definition.settings_sets.role);
    if after.lifecycle != plan.lifecycle {
        let added = after.lifecycle.last();
        assert(after.lifecycle == plan.lifecycle.push(added));
        assert(plan.lifecycle =~= after.lifecycle.take(plan.lifecycle.len() as int));
        assert(after.lifecycle[plan.lifecycle.len() as int] == added);
        assert forall|n: int| 0 <= n < after.lifecycle.len() && (#[trigger] after.lifecycle[n]).logical_id() == id implies
            after.lifecycle[n] == added by {
            if n < plan.lifecycle.len() {
                assert(after.lifecycle[n] == plan.lifecycle[n]);
            }
        }
        if role is Absent {
            let discord_id = lookup(state.bindings.roles, id)->0;
            assert forall|actual: RoleSnapshotView| #[trigger] lists(catalog, discord_id, actual) implies actual.manageable by {
                role_with_id_is_listed(catalog.roles, discord_id);
                if role_with_id(catalog.roles, discord_id) is Some {
                    let n = found_roles_are_listed(catalog.roles, discord_id);
                    assert(catalog.roles[n] == role_with_id(catalog.roles, discord_id)->0);
                    assert(lists(catalog, discord_id, catalog.roles[n]));
                    listed_once(catalog, discord_id, actual, catalog.roles[n]);
                } else {
                    let m = choose|m: int|
                        0 <= m < catalog.roles.len() && (#[trigger] catalog.roles[m]) == actual && actual.id == discord_id
                            && forall|j: int|
                            m < j < catalog.roles.len() ==> (#[trigger] catalog.roles[j]).id != discord_id;
                    assert(catalog.roles[m].id != discord_id);
                }
            }
        }
    } else {
        assert(plan.lifecycle =~= after.lifecycle.take(plan.lifecycle.len() as int));
        if !(role is Absent) {
            let discord_id = bound_to(state.bindings, id)->0;
            let actual = role_with_id(catalog.roles, discord_id)->0;
            let n = found_roles_are_listed(catalog.roles, discord_id);
            assert(catalog.roles[n] == actual);
            assert(lists(catalog, discord_id, actual));
            composed_permissions_are_sorted(role, definition.settings_sets.role);
            attributes_are_listed_where_they_differ(plan.changes, id, discord_id, actual, desired, catalog);
            assert(lists_what_differs(
                after.changes,
                plan.changes,
                id,
                discord_id,
                actual,
                desired,
                catalog.default_permissions,
            ));
            assert forall|n: int| 0 <= n < after.changes.len() && (#[trigger] after.changes[n]).logical_id
                == id implies after.changes[n].discord_id == discord_id && is_difference(
                after.changes[n],
                actual,
                desired,
                catalog.default_permissions,
            ) by {
                if n < plan.changes.len() {
                    assert(after.changes.take(plan.changes.len() as int)[n] == plan.changes[n]);
                }
            }
            assert forall|change: AttributeChangeView| #[trigger]
                is_difference(change, actual, desired, catalog.default_permissions) && change.logical_id == id
                    && change.discord_id == discord_id implies after.changes.contains(change) by {
                assert(is_listed_from(after.changes, plan.changes.len() as int, change));
            }
        }
    }
    if after.changes == plan.changes {
        assert(plan.changes =~= after.changes.take(plan.changes.len() as int));
    }
}

proof fn others_are_kept(
    plan: RolePlanView,
    after: RolePlanView,
    id: Seq<char>,
    role: RoleDefinitionView,
    definition: DefinitionView,
    state: TrackedView,
    catalog: RoleCatalogView,
)
    requires
        plan.changes.is_prefix_of(after.changes),
        plan.lifecycle.is_prefix_of(after.lifecycle),
        forall|n: int| plan.changes.len() <= n < after.changes.len() ==> (#[trigger] after.changes[n]).logical_id != id,
        forall|n: int|
            plan.lifecycle.len() <= n < after.lifecycle.len() ==> (#[trigger] after.lifecycle[n]).logical_id() != id,
    ensures
        changes_no_attribute(plan, id) ==> changes_no_attribute(after, id),
        forall|said: Option<LifecycleView>| #[trigger] does_just(plan, id, said) ==> does_just(after, id, said),
        does_what_is_declared(plan, id, role, definition, state, catalog) ==> does_what_is_declared(
            after,
            id,
            role,
            definition,
            state,
            catalog,
        ),
{
    assert forall|n: int| 0 <= n < plan.changes.len() implies #[trigger] after.changes[n] == plan.changes[n] by {
        assert(after.changes.take(plan.changes.len() as int)[n] == plan.changes[n]);
    }
    assert forall|n: int| 0 <= n < plan.lifecycle.len() implies #[trigger] after.lifecycle[n] == plan.lifecycle[n] by {
        assert(after.lifecycle.take(plan.lifecycle.len() as int)[n] == plan.lifecycle[n]);
    }
    assert forall|said: Option<LifecycleView>| #[trigger] does_just(plan, id, said) implies does_just(
        after,
        id,
        said,
    ) by {
        if said is Some {
            let n = plan.lifecycle.index_of(said->0);
            assert(after.lifecycle[n] == said->0);
        }
    }
    if does_what_is_declared(plan, id, role, definition, state, catalog) {
        let deleted = has_key(state.deleted_roles, id);
        if role is Absent {
            match lookup(state.bindings.roles, id) {
                Some(discord_id) => {
                    assert(does_just(plan, id, if deleted {
                        None
                    } else {
                        Some(LifecycleView::Delete { logical_id: id, discord_id })
                    }));
                },
                None => {
                    assert(does_just(plan, id, None));
                },
            }
        } else if id != everyone() && (deleted || !has_key(state.bindings.roles, id)) {
            assert(does_just(plan, id, Some(LifecycleView::Create { logical_id: id, recreated: deleted })));
        } else {
            let discord_id = bound_to(state.bindings, id)->0;
            let desired = composed(role, definition.settings_sets.role);
            let defaults = catalog.default_permissions;
            assert(does_just(plan, id, None));
            let actual = choose|actual: RoleSnapshotView| #[trigger]
                lists(catalog, discord_id, actual) && (role is Managed ==> actual.manageable) && changes_what_differs(
                    plan,
                    id,
                    discord_id,
                    actual,
                    desired,
                    defaults,
                );
            assert forall|change: AttributeChangeView| #[trigger]
                is_difference(change, actual, desired, defaults) && change.logical_id == id && change.discord_id
                    == discord_id implies after.changes.contains(change) by {
                let n = plan.changes.index_of(change);
                assert(plan.changes.contains(change));
                assert(after.changes[n] == change);
            }
            assert(changes_what_differs(after, id, discord_id, actual, desired, defaults));
        }
    }
}

/// Whether a plan names no role from a place on.
spec fn names_none_from(plan: RolePlanView, definition: DefinitionView, i: int) -> bool {
    forall|k: int|
        i <= k < definition.roles.len() ==> changes_no_attribute(plan, (#[trigger] definition.roles[k]).0) && does_just(
            plan,
            definition.roles[k].0,
            None,
        )
}

/// Whether a plan names only declared roles.
spec fn names_only_declared(plan: RolePlanView, definition: DefinitionView) -> bool {
    &&& forall|n: int|
        0 <= n < plan.changes.len() ==> has_key(definition.roles, (#[trigger] plan.changes[n]).logical_id)
    &&& forall|n: int|
        0 <= n < plan.lifecycle.len() ==> has_key(definition.roles, (#[trigger] plan.lifecycle[n]).logical_id())
}

proof fn declared_are_done(
    plan: RolePlanView,
    i: int,
    definition: DefinitionView,
    state: TrackedView,
    catalog: RoleCatalogView,
)
    requires
        0 <= i <= definition.roles.len(),
        sorted::<RoleLogicalId, RoleDefinitionView>(definition.roles),
        names_none_from(plan, definition, i),
        names_only_declared(plan, definition),
        forall|k: int|
            0 <= k < i ==> does_what_is_declared(
                plan,
                (#[trigger] definition.roles[k]).0,
                definition.roles[k].1,
                definition,
                state,
                catalog,
            ),
        plan.after_roles(i, definition, state, catalog) is Ok,
    ensures
        ({
            let after = plan.after_roles(i, definition, state, catalog)->Ok_0;
            &&& names_only_declared(after, definition)
            &&& forall|k: int|
                0 <= k < definition.roles.len() ==> does_what_is_declared(
                    after,
                    (#[trigger] definition.roles[k]).0,
                    definition.roles[k].1,
                    definition,
                    state,
                    catalog,
                )
        }),
    decreases definition.roles.len() - i,
{
    if i < definition.roles.len() {
        let (id, role) = definition.roles[i];
        assert(changes_no_attribute(plan, definition.roles[i].0));
        let next = plan.after_role(id, role, definition, state, catalog)->Ok_0;
        role_adds_its_own(plan, id, role, definition, state, catalog);
        entry_is_found(definition.roles, i);
        assert(names_only_declared(next, definition)) by {
            assert forall|n: int| 0 <= n < next.changes.len() implies has_key(
                definition.roles,
                (#[trigger] next.changes[n]).logical_id,
            ) by {
                if n < plan.changes.len() {
                    assert(next.changes.take(plan.changes.len() as int)[n] == plan.changes[n]);
                    assert(has_key(definition.roles, plan.changes[n].logical_id));
                }
            }
            assert forall|n: int| 0 <= n < next.lifecycle.len() implies has_key(
                definition.roles,
                (#[trigger] next.lifecycle[n]).logical_id(),
            ) by {
                if n < plan.lifecycle.len() {
                    assert(next.lifecycle.take(plan.lifecycle.len() as int)[n] == plan.lifecycle[n]);
                    assert(has_key(definition.roles, plan.lifecycle[n].logical_id()));
                }
            }
        }
        assert forall|k: int| i + 1 <= k < definition.roles.len() implies changes_no_attribute(
            next,
            (#[trigger] definition.roles[k]).0,
        ) && does_just(next, definition.roles[k].0, None) by {
            let other = definition.roles[k].0;
            sorted_entries::<RoleLogicalId, RoleDefinitionView>(definition.roles, i, k);
            RoleLogicalId::order_is_total(id, other);
            assert(changes_no_attribute(plan, definition.roles[k].0) && does_just(plan, definition.roles[k].0, None));
            others_are_kept(plan, next, other, role, definition, state, catalog);
        }
        assert forall|k: int| 0 <= k < i + 1 implies does_what_is_declared(
            next,
            (#[trigger] definition.roles[k]).0,
            definition.roles[k].1,
            definition,
            state,
            catalog,
        ) by {
            if k < i {
                let other = definition.roles[k].0;
                sorted_entries::<RoleLogicalId, RoleDefinitionView>(definition.roles, k, i);
                RoleLogicalId::order_is_total(other, id);
                others_are_kept(plan, next, other, definition.roles[k].1, definition, state, catalog);
            }
        }
        declared_are_done(next, i + 1, definition, state, catalog);
    }
}

proof fn the_rest_is_released(
    plan: RolePlanView,
    bound: MappingsView,
    i: int,
    declared: Seq<(Seq<char>, RoleDefinitionView)>,
)
    requires
        0 <= i <= bound.len(),
    ensures
        ({
            let after = plan.with_released(bound, i, declared);
            &&& after.changes == plan.changes
            &&& plan.lifecycle.is_prefix_of(after.lifecycle)
            &&& forall|n: int|
                plan.lifecycle.len() <= n < after.lifecycle.len() ==> exists|k: int|
                    i <= k < bound.len() && (#[trigger] bound[k]).0 != everyone() && !has_key(declared, bound[k].0)
                        && #[trigger] after.lifecycle[n] == (LifecycleView::Release {
                        logical_id: bound[k].0,
                        discord_id: bound[k].1,
                    })
            &&& forall|k: int|
                i <= k < bound.len() && (#[trigger] bound[k]).0 != everyone() && !has_key(declared, bound[k].0)
                    ==> after.lifecycle.contains(
                    LifecycleView::Release { logical_id: bound[k].0, discord_id: bound[k].1 },
                )
        }),
    decreases bound.len() - i,
{
    let after = plan.with_released(bound, i, declared);
    if i < bound.len() {
        if bound[i].0 == everyone() || has_key(declared, bound[i].0) {
            the_rest_is_released(plan, bound, i + 1, declared);
        } else {
            let release = LifecycleView::Release { logical_id: bound[i].0, discord_id: bound[i].1 };
            let next = plan.with(release);
            the_rest_is_released(next, bound, i + 1, declared);
            assert(next.lifecycle == after.lifecycle.take(next.lifecycle.len() as int));
            assert forall|n: int| 0 <= n < next.lifecycle.len() implies #[trigger] after.lifecycle[n]
                == next.lifecycle[n] by {
                assert(after.lifecycle.take(next.lifecycle.len() as int)[n] == next.lifecycle[n]);
            }
            assert(plan.lifecycle =~= after.lifecycle.take(plan.lifecycle.len() as int));
            assert(after.lifecycle[plan.lifecycle.len() as int] == release);
            assert forall|n: int| plan.lifecycle.len() <= n < after.lifecycle.len() implies exists|k: int|
                i <= k < bound.len() && (#[trigger] bound[k]).0 != everyone() && !has_key(declared, bound[k].0)
                    && #[trigger] after.lifecycle[n] == (LifecycleView::Release {
                    logical_id: bound[k].0,
                    discord_id: bound[k].1,
                }) by {
                if n == plan.lifecycle.len() {
                    assert(bound[i].0 != everyone());
                } else {
                    let k = choose|k: int|
                        i + 1 <= k < bound.len() && (#[trigger] bound[k]).0 != everyone() && !has_key(
                            declared,
                            bound[k].0,
                        ) && #[trigger] after.lifecycle[n] == (LifecycleView::Release {
                            logical_id: bound[k].0,
                            discord_id: bound[k].1,
                        });
                    assert(bound[k].0 != everyone());
                }
            }
        }
    } else {
        assert(plan.lifecycle =~= after.lifecycle.take(plan.lifecycle.len() as int));
    }
}

/// What a plan does with each role.
///
/// One that is not declared is released where it is bound, but never the role of every
/// member. One that shall be absent is deleted where it is bound and was not deleted. One
/// that is not bound, or was deleted, is created. One that is there can be managed where it
/// is managed, and each of its attributes is changed that differs from what is asked for.
pub proof fn plans_do_what_is_declared(
    definition: DefinitionView,
    state: TrackedView,
    catalog: RoleCatalogView,
    id: Seq<char>,
)
    requires
        sorted::<RoleLogicalId, RoleDefinitionView>(definition.roles),
        sorted::<RoleLogicalId, u64>(state.bindings.roles),
        tracked_plan(definition, state, catalog) is Ok,
    ensures
        ({
            let plan = tracked_plan(definition, state, catalog)->Ok_0;
            match lookup(definition.roles, id) {
                Some(role) => does_what_is_declared(plan, id, role, definition, state, catalog),
                None => changes_no_attribute(plan, id) && does_just(
                    plan,
                    id,
                    match lookup(state.bindings.roles, id) {
                        Some(discord_id) => if id == everyone() {
                            None
                        } else {
                            Some(LifecycleView::Release { logical_id: id, discord_id })
                        },
                        None => None,
                    },
                ),
            }
        }),
{
    let none = RolePlanView::none();
    let plan = tracked_plan(definition, state, catalog)->Ok_0;
    let bound = state.bindings.roles;
    let declared = none.after_roles(0, definition, state, catalog)->Ok_0;
    declared_are_done(none, 0, definition, state, catalog);
    the_rest_is_released(declared, bound, 0, definition.roles);
    assert(declared.changes =~= plan.changes.take(declared.changes.len() as int));
    match lookup(definition.roles, id) {
        Some(role) => {
            let k = lookup_has_entry(definition.roles, id);
            assert(does_what_is_declared(
                declared,
                definition.roles[k].0,
                definition.roles[k].1,
                definition,
                state,
                catalog,
            ));
            others_are_kept(declared, plan, id, role, definition, state, catalog);
        },
        None => {
            assert forall|n: int| 0 <= n < plan.lifecycle.len() && (#[trigger] plan.lifecycle[n]).logical_id() == id implies
                id != everyone() && lookup(bound, id) is Some && plan.lifecycle[n] == (LifecycleView::Release {
                logical_id: id,
                discord_id: lookup(bound, id)->0,
            }) by {
                if n < declared.lifecycle.len() {
                    assert(plan.lifecycle.take(declared.lifecycle.len() as int)[n] == declared.lifecycle[n]);
                    assert(has_key(definition.roles, declared.lifecycle[n].logical_id()));
                } else {
                    let k = choose|k: int|
                        0 <= k < bound.len() && (#[trigger] bound[k]).0 != everyone() && !has_key(
                            definition.roles,
                            bound[k].0,
                        ) && #[trigger] plan.lifecycle[n] == (LifecycleView::Release {
                            logical_id: bound[k].0,
                            discord_id: bound[k].1,
                        });
                    lookup_in_sorted::<RoleLogicalId, u64>(bound, k);
                }
            }
            if lookup(bound, id) is Some {
                let k = lookup_has_entry(bound, id);
                assert(bound[k].0 == id);
            }
        },
    }
}

/// Whether a session shows a role as it is asked for: the role is declared and bound, and
/// the roles that were read last hold it with all that is asked for.
pub open spec fn shows_as_asked(session: RoleSessionView, id: Seq<char>) -> bool {
    exists|k: int, n: int|
        0 <= k < session.desired.len() && 0 <= n < session.catalog.roles.len() && (#[trigger] session.desired[k]).0
            == id && bound_to(session.state.bindings, id) == Some((#[trigger] session.catalog.roles[n]).id) && is_as_asked(
            session.catalog.roles[n],
            session.catalog.roles[n],
            session.desired[k].1,
            session.catalog.default_permissions,
        )
}

/// Whether a role was shown as it is asked for at some time of an application.
pub open spec fn was_shown_as_asked(start: RoleSessionView, replies: RepliesView, id: Seq<char>) -> bool {
    exists|k: int| 0 <= k <= replies.len() && shows_as_asked(start.after_all(#[trigger] replies.take(k)), id)
}

/// Whether a role is still to be taken up, or is being worked on.
spec fn is_to_come(session: RoleSessionView, id: Seq<char>) -> bool {
    exists|k: int| session.done <= k < session.desired.len() && (#[trigger] session.desired[k]).0 == id
}

/// Whether nothing is left behind: every change that is still to be made is to come, or is
/// of a role that was shown as it is asked for.
spec fn leaves_nothing_behind(session: RoleSessionView, start: RoleSessionView, replies: RepliesView) -> bool {
    &&& session.is_consistent()
    &&& forall|k: int|
        0 <= k < session.desired.len() ==> sorted::<KnownPermission, ManagedValue<bool>>(
            (#[trigger] session.desired[k]).1.permissions,
        )
    &&& forall|n: int|
        0 <= n < session.pending.changes.len() ==> {
            let id = (#[trigger] session.pending.changes[n]).logical_id;
            ||| was_shown_as_asked(start, replies, id)
            ||| is_to_come(session, id) && !(session.phase is CheckingUpdate && session.phase->acknowledged && id
                == session.current())
        }
    &&& forall|n: int, m: int|
        0 <= n < session.pending.changes.len() && 0 <= m < session.pending.lifecycle.len() && !((
        #[trigger] session.pending.lifecycle[m]) is Release) ==> session.pending.lifecycle[m].logical_id() != (
        #[trigger] session.pending.changes[n]).logical_id
}

/// What holds of an application after replies.
spec fn goes_on_well(session: RoleSessionView, start: RoleSessionView, replies: RepliesView) -> bool {
    match session.phase {
        RolePhaseView::Opening => session.definition == start.definition && sorted::<RoleLogicalId, RoleDefinitionView>(
            session.definition.roles,
        ) && session.state == start.state && sorted::<RoleLogicalId, u64>(session.state.bindings.roles),
        RolePhaseView::Broken(_) => true,
        RolePhaseView::Finished(status) => status is Complete ==> forall|n: int|
            0 <= n < session.pending.changes.len() ==> was_shown_as_asked(
                start,
                replies,
                (#[trigger] session.pending.changes[n]).logical_id,
            ),
        _ => leaves_nothing_behind(session, start, replies),
    }
}

proof fn shown_before_is_shown(start: RoleSessionView, replies: RepliesView, id: Seq<char>)
    requires
        replies.len() > 0,
        was_shown_as_asked(start, replies.drop_last(), id) || shows_as_asked(
            start.after_all(replies.drop_last()),
            id,
        ),
    ensures
        was_shown_as_asked(start, replies, id),
{
    let before = replies.drop_last();
    if was_shown_as_asked(start, before, id) {
        let k = choose|k: int|
            0 <= k <= before.len() && shows_as_asked(start.after_all(#[trigger] before.take(k)), id);
        assert(before.take(k) =~= replies.take(k));
    } else {
        assert(before =~= replies.take(before.len() as int));
    }
}

proof fn besides_are_kept(changes: Seq<AttributeChangeView>, id: Seq<char>, n: int)
    requires
        0 <= n < changes_besides(changes, id).len(),
    ensures
        changes.contains(changes_besides(changes, id)[n]),
        changes_besides(changes, id)[n].logical_id != id,
    decreases changes.len(),
{
    reveal(Seq::filter);
    let besides = changes_besides(changes, id);
    let front = changes.drop_last();
    let rest = changes_besides(front, id);
    if changes.len() > 0 {
        if n < rest.len() {
            assert(besides[n] == rest[n]);
            besides_are_kept(front, id, n);
            let m = front.index_of(rest[n]);
            assert(changes[m] == rest[n]);
        } else {
            assert(besides[n] == changes.last());
            assert(changes[changes.len() - 1] == changes.last());
        }
    }
}

proof fn none_of_role(changes: Seq<AttributeChangeView>, id: Seq<char>, n: int)
    requires
        changes_of(changes, id).len() == 0,
        0 <= n < changes.len(),
    ensures
        changes[n].logical_id != id,
    decreases changes.len(),
{
    reveal(Seq::filter);
    let front = changes.drop_last();
    if n < front.len() {
        none_of_role(front, id, n);
        assert(front[n] == changes[n]);
    }
}

proof fn found_first_is_listed(roles: Seq<RoleSnapshotView>, id: u64) -> (n: int)
    requires
        first_role_with_id(roles, id) is Some,
    ensures
        0 <= n < roles.len(),
        roles[n] == first_role_with_id(roles, id)->0,
        roles[n].id == id,
        forall|k: int| 0 <= k < n ==> (#[trigger] roles[k]).id != id,
    decreases roles.len(),
{
    if roles[0].id == id {
        0
    } else {
        let rest = roles.drop_first();
        let n = found_first_is_listed(rest, id);
        assert(roles[n + 1] == rest[n]);
        assert forall|k: int| 0 <= k < n + 1 implies (#[trigger] roles[k]).id != id by {
            if k > 0 {
                assert(rest[k - 1] == roles[k]);
            }
        }
        n + 1
    }
}

proof fn same_leaves_nothing_behind(
    session: RoleSessionView,
    after: RoleSessionView,
    start: RoleSessionView,
    replies: RepliesView,
)
    requires
        replies.len() > 0,
        leaves_nothing_behind(session, start, replies.drop_last()),
        after.is_consistent(),
        after.desired == session.desired,
        session.done <= after.done,
        forall|n: int|
            0 <= n < after.pending.changes.len() ==> session.pending.changes.contains(#[trigger] after.pending.changes[n]),
        forall|n: int|
            0 <= n < after.pending.lifecycle.len() ==> session.pending.lifecycle.contains(
                #[trigger] after.pending.lifecycle[n],
            ),
        forall|n: int|
            0 <= n < after.pending.changes.len() && (#[trigger] after.pending.changes[n]).logical_id
                == session.current() && session.done < session.desired.len() ==> was_shown_as_asked(
                start,
                replies,
                after.pending.changes[n].logical_id,
            ) || (after.done == session.done && !(after.phase is CheckingUpdate && after.phase->acknowledged)),
        after.done <= session.done + 1,
        after.done > session.done ==> !(after.phase is CheckingUpdate),
    ensures
        leaves_nothing_behind(after, start, replies),
{
    assert forall|n: int| 0 <= n < after.pending.changes.len() implies {
        let id = (#[trigger] after.pending.changes[n]).logical_id;
        ||| was_shown_as_asked(start, replies, id)
        ||| is_to_come(after, id) && !(after.phase is CheckingUpdate && after.phase->acknowledged && id
            == after.current())
    } by {
        let id = after.pending.changes[n].logical_id;
        let m = session.pending.changes.index_of(after.pending.changes[n]);
        assert(session.pending.changes.contains(after.pending.changes[n]));
        assert(session.pending.changes[m].logical_id == id);
        if was_shown_as_asked(start, replies.drop_last(), id) {
            shown_before_is_shown(start, replies, id);
        } else {
            let k = choose|k: int| session.done <= k < session.desired.len() && (#[trigger] session.desired[k]).0 == id;
            assert(after.desired[k].0 == id);
            if k >= after.done {
                assert(is_to_come(after, id));
            }
        }
    }
    assert forall|n: int, m: int|
        0 <= n < after.pending.changes.len() && 0 <= m < after.pending.lifecycle.len() && !((
        #[trigger] after.pending.lifecycle[m]) is Release) implies after.pending.lifecycle[m].logical_id() != (
    #[trigger] after.pending.changes[n]).logical_id by {
        assert(session.pending.changes.contains(after.pending.changes[n]));
        assert(session.pending.lifecycle.contains(after.pending.lifecycle[m]));
        let a = session.pending.changes.index_of(after.pending.changes[n]);
        let b = session.pending.lifecycle.index_of(after.pending.lifecycle[m]);
        assert(session.pending.lifecycle[b].logical_id() != session.pending.changes[a].logical_id);
    }
}

proof fn attributes_go_on_well(session: RoleSessionView, now: u64, start: RoleSessionView, replies: RepliesView)
    requires
        replies.len() > 0,
        session == start.after_all(replies.drop_last()),
        session.done < session.desired.len(),
        session.phase is Ready || session.phase is Attributes,
        leaves_nothing_behind(session, start, replies.drop_last()),
    ensures
        goes_on_well(session.taken_attributes(now), start, replies),
{
    let after = session.taken_attributes(now);
    let (id, desired) = session.desired[session.done];
    if after.phase is Ready || after.phase is Updating {
        let changes = session.pending.changes;
        assert forall|n: int| 0 <= n < changes.len() && (#[trigger] changes[n]).logical_id == id implies
            was_shown_as_asked(start, replies, id) || after.done == session.done by {
            if changes_of(changes, id).len() == 0 {
                none_of_role(changes, id, n);
            } else if after.done != session.done {
                let role_id = bound_to(session.state.bindings, id)->0;
                let k = found_first_is_listed(session.catalog.roles, role_id);
                let actual = session.catalog.roles[k];
                assert(sorted::<KnownPermission, ManagedValue<bool>>(session.desired[session.done].1.permissions));
                updates_give_what_is_asked(id, actual, desired, session.catalog.default_permissions);
                assert(session.desired[session.done].0 == id);
                assert(shows_as_asked(session, id));
                shown_before_is_shown(start, replies, id);
            }
        }
        same_leaves_nothing_behind(session, after, start, replies);
    }
}

proof fn releases_keep_changes(session: RoleSessionView, lifecycle: Seq<LifecycleView>, i: int)
    ensures
        session.released(lifecycle, i).pending.changes == session.pending.changes,
        session.released(lifecycle, i).applied.changes == session.applied.changes,
    decreases lifecycle.len() - i,
{
    if 0 <= i < lifecycle.len() {
        if lifecycle[i] is Release {
            let next = RoleSessionView {
                state: crate::service::apply::state_released(session.state, lifecycle[i].logical_id()),
                ..session
            }.settled(lifecycle[i]);
            releases_keep_changes(next, lifecycle, i + 1);
        } else {
            releases_keep_changes(session, lifecycle, i + 1);
        }
    }
}

proof fn besides_one(lifecycle: Seq<LifecycleView>, done: LifecycleView, n: int)
    requires
        0 <= n < crate::service::apply::lifecycle_besides(lifecycle, done).len(),
    ensures
        lifecycle.contains(crate::service::apply::lifecycle_besides(lifecycle, done)[n]),
    decreases lifecycle.len(),
{
    reveal(Seq::filter);
    let besides = crate::service::apply::lifecycle_besides(lifecycle, done);
    let front = lifecycle.drop_last();
    let rest = crate::service::apply::lifecycle_besides(front, done);
    if lifecycle.len() > 0 {
        if n < rest.len() {
            assert(besides[n] == rest[n]);
            besides_one(front, done, n);
            let m = front.index_of(rest[n]);
            assert(lifecycle[m] == rest[n]);
        } else {
            assert(lifecycle[lifecycle.len() - 1] == lifecycle.last());
        }
    }
}

proof fn proceeding_goes_on_well(session: RoleSessionView, now: u64, start: RoleSessionView, replies: RepliesView)
    requires
        replies.len() > 0,
        session == start.after_all(replies.drop_last()),
        session.phase is Ready,
        leaves_nothing_behind(session, start, replies.drop_last()),
    ensures
        goes_on_well(session.proceeded(now), start, replies),
{
    let after = session.proceeded(now);
    if session.done < session.desired.len() {
        let id = session.current();
        let change = lifecycle_of(session.pending.lifecycle, id);
        if session.lifecycle is Some && change is Some && !(change->0 is Release) {
            taken_up_is_pending(session.pending.lifecycle, id);
            let done = change->0;
            found_is_of_role(session.pending.lifecycle, id);
            let m = session.pending.lifecycle.index_of(done);
            assert(session.pending.lifecycle[m] == done);
            assert forall|n: int| 0 <= n < session.pending.changes.len() implies (
            #[trigger] session.pending.changes[n]).logical_id != id by {
                assert(session.pending.lifecycle[m].logical_id() != session.pending.changes[n].logical_id);
            }
            if after.phase is Ready {
                assert forall|n: int| 0 <= n < after.pending.lifecycle.len() implies session.pending.lifecycle.contains(
                    #[trigger] after.pending.lifecycle[n],
                ) by {
                    besides_one(session.pending.lifecycle, done, n);
                }
            }
            if !(after.phase is Finished || after.phase is Broken) {
                same_leaves_nothing_behind(session, after, start, replies);
            }
        } else {
            attributes_go_on_well(session, now, start, replies);
        }
    } else {
        releases_keep_changes(session, session.pending.lifecycle, 0);
        assert forall|n: int| 0 <= n < after.pending.changes.len() implies was_shown_as_asked(
            start,
            replies,
            (#[trigger] after.pending.changes[n]).logical_id,
        ) by {
            assert(session.pending.changes[n] == after.pending.changes[n]);
            shown_before_is_shown(start, replies, session.pending.changes[n].logical_id);
        }
    }
}

proof fn found_is_of_role(lifecycle: Seq<LifecycleView>, id: Seq<char>)
    ensures
        lifecycle_of(lifecycle, id) is Some ==> lifecycle_of(lifecycle, id)->0.logical_id() == id,
    decreases lifecycle.len(),
{
    if lifecycle.len() > 0 && lifecycle[0].logical_id() != id {
        found_is_of_role(lifecycle.drop_first(), id);
    }
}

proof fn opening_goes_on_well(
    session: RoleSessionView,
    reply: ReplyView<RoleCatalogView>,
    start: RoleSessionView,
    replies: RepliesView,
)
    requires
        session.phase is Opening,
        goes_on_well(session, start, replies.drop_last()),
    ensures
        goes_on_well(session.opened(reply), start, replies),
{
    let after = session.opened(reply);
    if after.phase is Ready {
        let catalog = reply->Answered_0;
        let definition = session.definition;
        let plan = after.pending;
        assert forall|k: int| 0 <= k < after.desired.len() implies sorted::<KnownPermission, ManagedValue<bool>>(
            (#[trigger] after.desired[k]).1.permissions,
        ) by {
            composed_permissions_are_sorted(definition.roles[k].1, definition.settings_sets.role);
        }
        assert forall|n: int| 0 <= n < plan.changes.len() implies is_to_come(
            after,
            (#[trigger] plan.changes[n]).logical_id,
        ) by {
            let id = plan.changes[n].logical_id;
            plans_do_what_is_declared(definition, session.state, catalog, id);
            assert(lookup(definition.roles, id) is Some);
            let k = lookup_has_entry(definition.roles, id);
            assert(after.desired[k].0 == id);
        }
        assert forall|n: int, m: int|
            0 <= n < plan.changes.len() && 0 <= m < plan.lifecycle.len() && !((#[trigger] plan.lifecycle[m]) is Release) implies
            plan.lifecycle[m].logical_id() != (#[trigger] plan.changes[n]).logical_id by {
            let id = plan.changes[n].logical_id;
            plans_do_what_is_declared(definition, session.state, catalog, id);
            if plan.lifecycle[m].logical_id() == id {
                assert(does_just(plan, id, None));
            }
        }
    }
}

proof fn steps_go_on_well(session: RoleSessionView, start: RoleSessionView, replies: RepliesView)
    requires
        replies.len() > 0,
        session == start.after_all(replies.drop_last()),
        goes_on_well(session, start, replies.drop_last()),
    ensures
        goes_on_well(session.after(replies.last().0, replies.last().1), start, replies),
{
    let (event, now) = replies.last();
    let after = session.after(event, now);
    match (session.phase, event) {
        (RolePhaseView::Opening, RoleEventView::Catalog(reply)) => {
            opening_goes_on_well(session, reply, start, replies);
        },
        (RolePhaseView::Opening, _) => {},
        (RolePhaseView::Broken(_), _) => {},
        (RolePhaseView::Finished(status), _) => {
            if status is Complete {
                assert forall|n: int| 0 <= n < after.pending.changes.len() implies was_shown_as_asked(
                    start,
                    replies,
                    (#[trigger] after.pending.changes[n]).logical_id,
                ) by {
                    shown_before_is_shown(start, replies, session.pending.changes[n].logical_id);
                }
            }
        },
        (RolePhaseView::Ready, RoleEventView::Proceed) => {
            proceeding_goes_on_well(session, now, start, replies);
        },
        (RolePhaseView::Attributes, RoleEventView::Proceed) => {
            attributes_go_on_well(session, now, start, replies);
        },
        _ => {
            if !(after.phase is Finished || after.phase is Broken) {
                let id = session.current();
                assert forall|n: int| 0 <= n < after.pending.changes.len() implies session.pending.changes.contains(
                    #[trigger] after.pending.changes[n],
                ) && (after.pending.changes != session.pending.changes ==> after.pending.changes[n].logical_id != id) by {
                    if after.pending.changes == session.pending.changes {
                        assert(session.pending.changes[n] == after.pending.changes[n]);
                    } else {
                        besides_are_kept(session.pending.changes, id, n);
                    }
                }
                assert forall|n: int| 0 <= n < after.pending.lifecycle.len() implies session.pending.lifecycle.contains(
                    #[trigger] after.pending.lifecycle[n],
                ) by {
                    if after.pending.lifecycle == session.pending.lifecycle {
                        assert(session.pending.lifecycle[n] == after.pending.lifecycle[n]);
                    } else {
                        let done = match session.phase {
                            RolePhaseView::Creating { change, .. } => change,
                            RolePhaseView::Deleting { change, .. } => change,
                            RolePhaseView::CheckingDeletion { change, .. } => change,
                            _ => arbitrary(),
                        };
                        besides_one(session.pending.lifecycle, done, n);
                    }
                }
                assert forall|n: int| 0 <= n < after.pending.changes.len() && (
                #[trigger] after.pending.changes[n]).logical_id == session.current() && session.done
                    < session.desired.len() implies was_shown_as_asked(
                    start,
                    replies,
                    after.pending.changes[n].logical_id,
                ) || (after.done == session.done && !(after.phase is CheckingUpdate && after.phase->acknowledged)) by {
                    worked_on_is_accounted_for(session, start, replies, n);
                }
                same_leaves_nothing_behind(session, after, start, replies);
            }
        },
    }
}

proof fn worked_on_is_accounted_for(session: RoleSessionView, start: RoleSessionView, replies: RepliesView, n: int)
    requires
        replies.len() > 0,
        leaves_nothing_behind(session, start, replies.drop_last()),
        !(session.phase is Ready && replies.last().0 is Proceed),
        !(session.phase is Attributes && replies.last().0 is Proceed),
        !(session.phase is Opening),
        ({
            let after = session.after(replies.last().0, replies.last().1);
            &&& !(after.phase is Finished || after.phase is Broken)
            &&& 0 <= n < after.pending.changes.len()
            &&& after.pending.changes[n].logical_id == session.current()
            &&& after.pending.changes != session.pending.changes ==> after.pending.changes[n].logical_id
                != session.current()
        }),
    ensures
        ({
            let after = session.after(replies.last().0, replies.last().1);
            was_shown_as_asked(start, replies, after.pending.changes[n].logical_id) || (after.done == session.done && !(
            after.phase is CheckingUpdate && after.phase->acknowledged))
        }),
{
    let after = session.after(replies.last().0, replies.last().1);
    let id = session.current();
    assert(after.pending.changes == session.pending.changes);
    assert(session.pending.changes[n].logical_id == id);
    if was_shown_as_asked(start, replies.drop_last(), id) {
        shown_before_is_shown(start, replies, id);
    } else if session.phase is CheckingUpdate && after.done != session.done {
        if !session.phase->acknowledged {
            assert(after.pending.changes == changes_besides(session.pending.changes, id));
            besides_are_kept(session.pending.changes, id, n);
        }
    } else if session.phase is Updating && after.phase is CheckingUpdate && after.phase->acknowledged {
        assert(after.pending.changes == changes_besides(session.pending.changes, id));
        besides_are_kept(session.pending.changes, id, n);
    }
}

proof fn applications_go_on_well(start: RoleSessionView, replies: RepliesView)
    requires
        start.phase is Opening,
        sorted::<RoleLogicalId, RoleDefinitionView>(start.definition.roles),
        sorted::<RoleLogicalId, u64>(start.state.bindings.roles),
    ensures
        goes_on_well(start.after_all(replies), start, replies),
    decreases replies.len(),
{
    if replies.len() > 0 {
        applications_go_on_well(start, replies.drop_last());
        steps_go_on_well(start.after_all(replies.drop_last()), start, replies);
    }
}

/// An application that is complete has made every change of attributes of the plan, but for
/// those of roles that the guild was seen to have as they are asked for already: what was
/// made and what is still to be made add up to the plan, and each change that is still to
/// be made is of such a role. Where no role was seen so, all changes were made.
pub proof fn complete_applications_leave_no_attribute(
    definition: DefinitionView,
    state: TrackedView,
    plan: RolePlanView,
    lifecycle: Option<RoleApplyOptions>,
    deadline: u64,
    replies: RepliesView,
)
    requires
        sorted::<RoleLogicalId, RoleDefinitionView>(definition.roles),
        sorted::<RoleLogicalId, u64>(state.bindings.roles),
        new_session(definition, state, plan, lifecycle, deadline).after_all(replies).phase == RolePhaseView::Finished(
            RoleStatusView::Complete,
        ),
    ensures
        ({
            let start = new_session(definition, state, plan, lifecycle, deadline);
            let end = start.after_all(replies);
            &&& end.applied.changes.to_multiset().add(end.pending.changes.to_multiset()) == plan.changes.to_multiset()
            &&& forall|n: int|
                0 <= n < end.pending.changes.len() ==> was_shown_as_asked(
                    start,
                    replies,
                    (#[trigger] end.pending.changes[n]).logical_id,
                )
            &&& (forall|id: Seq<char>| !#[trigger] was_shown_as_asked(start, replies, id)) ==> {
                &&& end.pending.changes.len() == 0
                &&& end.applied.changes.to_multiset() == plan.changes.to_multiset()
            }
        }),
{
    broadcast use vstd::seq_lib::group_to_multiset_ensures;

    let start = new_session(definition, state, plan, lifecycle, deadline);
    let end = start.after_all(replies);
    applications_go_on_well(start, replies);
    applications_account_for_the_plan(definition, state, plan, lifecycle, deadline, replies);
    if forall|id: Seq<char>| !#[trigger] was_shown_as_asked(start, replies, id) {
        if end.pending.changes.len() > 0 {
            assert(was_shown_as_asked(start, replies, end.pending.changes[0].logical_id));
        }
        assert(end.pending.changes.to_multiset() =~= vstd::multiset::Multiset::empty());
        assert(end.applied.changes.to_multiset() =~= end.all_changes());
    }
}

/// What a session newly asks for is what is declared for the role that it takes up, and is
/// only asked for before the deadline.
///
/// An update is for the role that the name is bound to, and makes it what is asked for. A
/// creation is of a role that the plan creates, as it is asked for. A deletion is of a role
/// that the plan deletes, where deletions are allowed.
pub proof fn requests_are_what_is_declared(session: RoleSessionView, event: RoleEventView, now: u64)
    requires
        session.is_consistent(),
        session.phase is Ready || session.phase is Attributes,
        session.done < session.desired.len(),
        sorted::<KnownPermission, ManagedValue<bool>>(session.desired[session.done].1.permissions),
    ensures
        ({
            let (id, desired) = session.desired[session.done];
            match session.after(event, now).action() {
                RoleActionView::Update { role_id, update, until } => {
                    &&& now < until && until == session.deadline
                    &&& bound_to(session.state.bindings, id) == Some(role_id)
                    &&& exists|n: int|
                        0 <= n < session.catalog.roles.len() && (#[trigger] session.catalog.roles[n]).id == role_id
                            && is_as_asked(
                            update.applied_to(session.catalog.roles[n]),
                            session.catalog.roles[n],
                            desired,
                            session.catalog.default_permissions,
                        ) && !is_as_asked(
                            session.catalog.roles[n],
                            session.catalog.roles[n],
                            desired,
                            session.catalog.default_permissions,
                        )
                    &&& exists|n: int|
                        0 <= n < session.pending.changes.len() && (#[trigger] session.pending.changes[n]).logical_id
                            == id
                },
                RoleActionView::Create { create, until } => {
                    &&& now < until && until == session.deadline
                    &&& session.lifecycle is Some
                    &&& creation_is_asked(create, desired, session.catalog)
                    &&& exists|n: int|
                        0 <= n < session.pending.lifecycle.len() && (#[trigger] session.pending.lifecycle[n]) is Create
                            && session.pending.lifecycle[n].logical_id() == id
                    &&& has_key(session.after(event, now).state.pending_creations, id)
                },
                RoleActionView::Delete { role_id, until } => {
                    &&& now < until && until == session.deadline
                    &&& session.may_delete()
                    &&& session.pending.lifecycle.contains(LifecycleView::Delete { logical_id: id, discord_id: role_id })
                    &&& has_key(session.after(event, now).state.pending_deletions, id)
                },
                RoleActionView::Move { .. } => false,
                RoleActionView::ReadCatalog { .. } => false,
                _ => true,
            }
        }),
{
    let (id, desired) = session.desired[session.done];
    let after = session.after(event, now);
    taken_up_is_pending(session.pending.lifecycle, id);
    found_is_of_role(session.pending.lifecycle, id);
    match after.phase {
        RolePhaseView::Updating { role_id, update } => {
            let n = found_first_is_listed(session.catalog.roles, role_id);
            updates_give_what_is_asked(id, session.catalog.roles[n], desired, session.catalog.default_permissions);
            assert(session.catalog.roles[n].id == role_id);
            let changes = session.pending.changes;
            some_of_role(changes, id);
        },
        RolePhaseView::Creating { create, change } => {
            creations_are_what_is_asked(id, desired, session.catalog);
            let n = session.pending.lifecycle.index_of(change);
            assert(session.pending.lifecycle[n] == change);
            crate::ordered::put_then_lookup::<RoleLogicalId, ()>(session.state.pending_creations, id, (), id);
        },
        RolePhaseView::Deleting { role_id, change } => {
            assert(session.pending.lifecycle.contains(change));
            crate::ordered::put_then_lookup::<RoleLogicalId, ()>(session.state.pending_deletions, id, (), id);
        },
        _ => {},
    }
}

proof fn some_of_role(changes: Seq<AttributeChangeView>, id: Seq<char>)
    requires
        changes_of(changes, id).len() > 0,
    ensures
        exists|n: int| 0 <= n < changes.len() && (#[trigger] changes[n]).logical_id == id,
    decreases changes.len(),
{
    reveal(Seq::filter);
    if changes.len() > 0 {
        let front = changes.drop_last();
        if changes.last().logical_id == id {
            assert(changes[changes.len() - 1].logical_id == id);
        } else {
            some_of_role(front, id);
            let n = choose|n: int| 0 <= n < front.len() && (#[trigger] front[n]).logical_id == id;
            assert(changes[n].logical_id == id);
        }
    }
}

} // verus!
