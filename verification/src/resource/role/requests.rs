//! What an application of a plan of roles asks for, and what it makes of the replies.

use vstd::prelude::*;

use crate::apply::{ApplyStatusView, ReplyView};
use crate::configuration::permission::KnownPermission;
use crate::configuration::role::RoleAttributesView;
use crate::configuration::state::StateView;
use crate::ids::RoleLogicalId;
use crate::ordered::{has_key, lookup, put_then_lookup, sorted, without_then_lookup};
use crate::port::{RoleCatalogView, RoleCreateOutcomeView, RoleDeleteOutcome, RoleSnapshotView, RoleUpdateOutcome};
use crate::resource::change::ValueChange;
use crate::resource::role::apply::{
    RoleActionView, RoleEventView, RolePhaseView, RoleSessionView,
};
use crate::resource::role::attributes::AttributeChangesView;
use crate::resource::role::effects::{asked, asked_permission, changes_lead, is_as_asked};
use crate::resource::role::laws::changed_permissions_have;
use crate::resource::role::order::{first_role_with_id, role_order_plan};
use crate::resource::role::plan::ChangeView;

verus! {

/// The update that a planned change comes to makes the role what is asked for.
///
/// The role as the update changes it has the name, the color, the marks and each named
/// permission that are asked for, and keeps all others.
pub proof fn planned_updates_give_what_is_asked(
    changes: AttributeChangesView,
    actual: RoleSnapshotView,
    desired: RoleAttributesView,
    catalog: RoleCatalogView,
)
    requires
        changes_lead(changes, actual, desired, catalog),
        sorted::<KnownPermission, ValueChange<bool>>(changes.permissions),
    ensures
        is_as_asked(
            changes.update(actual.permissions).applied_to(actual),
            actual,
            desired,
            catalog.default_permissions,
        ),
{
    let after = changes.update(actual.permissions).applied_to(actual);
    assert forall|permission: Seq<char>| #[trigger] lookup(after.permissions, permission) == if has_key(
        desired.permissions,
        permission,
    ) {
        asked_permission(desired, permission, catalog.default_permissions)
    } else {
        lookup(actual.permissions, permission)
    } by {
        let change = lookup(changes.permissions, permission);
        if changes.permissions.len() > 0 {
            changed_permissions_have(actual.permissions, changes.permissions, permission);
        }
        assert(asked(lookup(desired.permissions, permission), lookup(catalog.default_permissions, permission)->0)
            is Some <==> has_key(desired.permissions, permission));
    }
}

/// Whether a value is changed as a change says, or left where there is none.
pub open spec fn is_changed<W>(after: W, before: W, change: Option<ValueChange<W>>) -> bool {
    match change {
        Some(change) => after == change.desired,
        None => after == before,
    }
}

/// Whether a role is changed as changes of attributes say, and in nothing else.
pub open spec fn is_changed_as_said(
    after: RoleSnapshotView,
    before: RoleSnapshotView,
    changes: AttributeChangesView,
) -> bool {
    &&& after.id == before.id && after.position == before.position && after.manageable == before.manageable
    &&& is_changed(after.name, before.name, changes.name)
    &&& is_changed(after.color, before.color, changes.color)
    &&& is_changed(after.hoist, before.hoist, changes.hoist)
    &&& is_changed(after.mentionable, before.mentionable, changes.mentionable)
    &&& forall|permission: Seq<char>| #[trigger]
        lookup(after.permissions, permission) == match lookup(changes.permissions, permission) {
            Some(change) => Some(change.desired),
            None => lookup(before.permissions, permission),
        }
}

proof fn updates_change_as_said(changes: AttributeChangesView, actual: RoleSnapshotView)
    requires
        sorted::<KnownPermission, ValueChange<bool>>(changes.permissions),
    ensures
        is_changed_as_said(changes.update(actual.permissions).applied_to(actual), actual, changes),
{
    let after = changes.update(actual.permissions).applied_to(actual);
    assert forall|permission: Seq<char>| #[trigger] lookup(after.permissions, permission) == match lookup(
        changes.permissions,
        permission,
    ) {
        Some(change) => Some(change.desired),
        None => lookup(actual.permissions, permission),
    } by {
        if changes.permissions.len() > 0 {
            changed_permissions_have(actual.permissions, changes.permissions, permission);
        }
    }
}

proof fn found_first_is_listed(roles: Seq<RoleSnapshotView>, id: u64) -> (n: int)
    requires
        first_role_with_id(roles, id) is Some,
    ensures
        0 <= n < roles.len(),
        roles[n] == first_role_with_id(roles, id)->0,
        roles[n].id == id,
        forall|k: int| 0 <= k < n ==> (#[trigger] roles[k]).id != id,
    decreases roles.len(),
{
    if roles[0].id == id {
        0
    } else {
        let rest = roles.drop_first();
        let n = found_first_is_listed(rest, id);
        assert(roles[n + 1] == rest[n]);
        assert forall|k: int| 0 <= k < n + 1 implies (#[trigger] roles[k]).id != id by {
            if k > 0 {
                assert(rest[k - 1] == roles[k]);
            }
        }
        n + 1
    }
}

/// Whether a role is the first that is listed under an identifier.
pub open spec fn is_first(roles: Seq<RoleSnapshotView>, n: int, id: u64) -> bool {
    &&& 0 <= n < roles.len()
    &&& roles[n].id == id
    &&& forall|k: int| 0 <= k < n ==> (#[trigger] roles[k]).id != id
}

/// What a session asks for when it takes up a change is what the change says, and is only
/// asked for before the deadline.
///
/// An update changes the role of the change as the change says. A creation is that of the
/// plan, and a deletion is of the role of the change, where deletions are allowed. A release
/// unbinds the name. What only changes attributes asks for nothing else.
pub proof fn requests_follow_the_plan(session: RoleSessionView, now: u64)
    requires
        session.phase is Ready,
        0 <= session.taken < session.changes.len(),
        session.changes[session.taken].1 is Update ==> sorted::<KnownPermission, ValueChange<bool>>(
            session.changes[session.taken].1->Update_attributes.permissions,
        ),
    ensures
        ({
            let (id, change) = session.changes[session.taken];
            let after = session.after(RoleEventView::Proceed, now);
            &&& after.taken == session.taken + 1
            &&& match after.action() {
                RoleActionView::Update { role_id, update, until } => {
                    &&& now < until && until == session.deadline
                    &&& change is Update && change->Update_discord_id == role_id
                    &&& exists|n: int| #[trigger]
                        is_first(session.catalog.roles, n, role_id) && is_changed_as_said(
                            update.applied_to(session.catalog.roles[n]),
                            session.catalog.roles[n],
                            change->Update_attributes,
                        )
                },
                RoleActionView::Create { create, until } => {
                    &&& now < until && until == session.deadline
                    &&& session.lifecycle is Some
                    &&& change is Create && lookup(session.pending.create_desired, id) == Some(create)
                },
                RoleActionView::Delete { role_id, until } => {
                    &&& now < until && until == session.deadline
                    &&& session.lifecycle is Some && session.lifecycle->0.allow_deletions
                    &&& change is Delete && change->Delete_discord_id == role_id
                },
                RoleActionView::Move { .. } | RoleActionView::ReadCatalog { .. } => false,
                RoleActionView::Proceed => {
                    ||| session.lifecycle is None && !(change is Update)
                    ||| change is Release && !has_key(after.state.roles, id) && !has_key(after.pending.changes, id)
                    ||| change is Update && !(lookup(session.pending.changes, id) is Some && lookup(
                        session.pending.changes,
                        id,
                    )->0 is Update)
                    ||| change is Delete && !has_key(after.state.roles, id) && forall|k: int|
                        0 <= k < session.catalog.roles.len() ==> (#[trigger] session.catalog.roles[k]).id
                            != change->Delete_discord_id
                },
                RoleActionView::Finish => true,
            }
        }),
{
    let (id, change) = session.changes[session.taken];
    let after = session.after(RoleEventView::Proceed, now);
    without_then_lookup(session.state.roles, id, id);
    without_then_lookup(session.pending.changes, id, id);
    match change {
        ChangeView::Update { discord_id, attributes } => {
            if after.phase is Updating {
                let n = found_first_is_listed(session.catalog.roles, discord_id);
                assert(is_first(session.catalog.roles, n, discord_id));
                updates_change_as_said(attributes, session.catalog.roles[n]);
                assert(after.action() == (RoleActionView::Update {
                    role_id: discord_id,
                    update: attributes.update(session.catalog.roles[n].permissions),
                    until: session.deadline,
                }));
            }
        },
        ChangeView::Delete { discord_id } => {
            if first_role_with_id(session.catalog.roles, discord_id) is None {
                none_is_listed(session.catalog.roles, discord_id);
            }
        },
        _ => {},
    }
}

proof fn none_is_listed(roles: Seq<RoleSnapshotView>, id: u64)
    requires
        first_role_with_id(roles, id) is None,
    ensures
        forall|k: int| 0 <= k < roles.len() ==> (#[trigger] roles[k]).id != id,
    decreases roles.len(),
{
    if roles.len() > 0 {
        none_is_listed(roles.drop_first(), id);
        assert forall|k: int| 0 <= k < roles.len() implies (#[trigger] roles[k]).id != id by {
            if k > 0 {
                assert(roles.drop_first()[k - 1] == roles[k]);
            }
        }
    }
}

/// Once all changes are taken up, the order is made that the guild needs then, if the plan
/// has one. Without one the application is complete.
pub proof fn orders_are_made_last(session: RoleSessionView, now: u64)
    requires
        session.phase is Ready,
        session.taken >= session.changes.len(),
    ensures
        ({
            let after = session.after(RoleEventView::Proceed, now);
            let order = role_order_plan(session.definition, session.state, session.catalog);
            if session.lifecycle is None || session.pending.order is None {
                after.phase == RolePhaseView::Finished(ApplyStatusView::Complete) && after.pending == session.pending
                    && after.applied == session.applied
            } else {
                match after.action() {
                    RoleActionView::Move { updates, until } => now < until && until == session.deadline && order is Ok
                        && order->Ok_0 is Some && updates == order->Ok_0->0.updates && updates.len() > 0,
                    RoleActionView::Finish => {
                        &&& after.phase == RolePhaseView::Finished(ApplyStatusView::Complete) ==> order is Ok && (
                        order->Ok_0 is Some ==> order->Ok_0->0.updates.len() == 0 && order->Ok_0->0.expected_order.len()
                            > 0) && after.pending.order is None && after.applied.order == session.pending.order
                        &&& order is Ok && order->Ok_0 is None ==> after.phase == RolePhaseView::Finished(
                            ApplyStatusView::Complete,
                        )
                    },
                    _ => false,
                }
            }
        }),
{
}

/// A reply that does not say that something was made leaves everything as it is, and ends
/// the application without completing it.
pub proof fn nothing_is_made_without_an_answer(session: RoleSessionView, event: RoleEventView, now: u64)
    requires
        match session.phase {
            RolePhaseView::Updating { .. } => event is Updated && event->Updated_0 != ReplyView::Answered(
                RoleUpdateOutcome::Applied,
            ),
            RolePhaseView::Creating { .. } => event is Created && !(event->Created_0 matches ReplyView::Answered(
                RoleCreateOutcomeView::Created(_),
            )),
            RolePhaseView::Deleting { .. } => event is Deleted && event->Deleted_0 != ReplyView::Answered(
                RoleDeleteOutcome::Deleted,
            ),
            _ => false,
        },
    ensures
        ({
            let after = session.after(event, now);
            &&& after.applied == session.applied
            &&& after.pending == session.pending
            &&& after.state == session.state
            &&& after.phase is Finished && after.phase != RolePhaseView::Finished(ApplyStatusView::Complete)
        }),
{
}

/// A reply that says that something was made moves just this change from what is still to
/// be made to what was made. What was created is bound, what was deleted is bound no more,
/// and the roles are read again.
pub proof fn answers_are_recorded(session: RoleSessionView, event: RoleEventView, now: u64, other: Seq<char>)
    requires
        match session.phase {
            RolePhaseView::Updating { .. } => event == RoleEventView::Updated(
                ReplyView::Answered(RoleUpdateOutcome::Applied),
            ),
            RolePhaseView::Creating { .. } => event matches RoleEventView::Created(
                ReplyView::Answered(RoleCreateOutcomeView::Created(_)),
            ) && !(session.after(event, now).phase is Finished),
            RolePhaseView::Deleting { .. } => event == RoleEventView::Deleted(
                ReplyView::Answered(RoleDeleteOutcome::Deleted),
            ),
            _ => false,
        },
    ensures
        ({
            let after = session.after(event, now);
            let id = match session.phase {
                RolePhaseView::Updating { logical_id, .. } => logical_id,
                RolePhaseView::Creating { logical_id, .. } => logical_id,
                RolePhaseView::Deleting { logical_id, .. } => logical_id,
                _ => arbitrary(),
            };
            &&& after.action() is ReadCatalog
            &&& lookup(session.pending.changes, id) is Some ==> lookup(after.applied.changes, id) == lookup(
                session.pending.changes,
                id,
            )
            &&& !has_key(after.pending.changes, id)
            &&& other != id ==> lookup(after.applied.changes, other) == lookup(session.applied.changes, other) && lookup(
                after.pending.changes,
                other,
            ) == lookup(session.pending.changes, other) && lookup(after.state.roles, other) == lookup(
                session.state.roles,
                other,
            )
            &&& after.state == (StateView { roles: after.state.roles, ..session.state })
            &&& match session.phase {
                RolePhaseView::Creating { .. } => lookup(after.state.roles, id) == Some(
                    event->Created_0->Answered_0->Created_0,
                ),
                RolePhaseView::Deleting { .. } => !has_key(after.state.roles, id),
                _ => after.state == session.state,
            }
        }),
{
    let id = match session.phase {
        RolePhaseView::Updating { logical_id, .. } => logical_id,
        RolePhaseView::Creating { logical_id, .. } => logical_id,
        RolePhaseView::Deleting { logical_id, .. } => logical_id,
        _ => arbitrary(),
    };
    let change = lookup(session.pending.changes, id);
    without_then_lookup(session.pending.changes, id, other);
    without_then_lookup(session.pending.changes, id, id);
    without_then_lookup(session.state.roles, id, other);
    without_then_lookup(session.state.roles, id, id);
    if change is Some {
        put_then_lookup::<RoleLogicalId, ChangeView>(session.applied.changes, id, change->0, id);
        put_then_lookup::<RoleLogicalId, ChangeView>(session.applied.changes, id, change->0, other);
    }
    if session.phase is Creating {
        let role_id = event->Created_0->Answered_0->Created_0;
        put_then_lookup::<RoleLogicalId, u64>(session.state.roles, id, role_id, id);
        put_then_lookup::<RoleLogicalId, u64>(session.state.roles, id, role_id, other);
    }
}

/// After an update the application goes on just where the guild has the role with every
/// value that was asked for: one that the update would not change any more.
pub proof fn updates_are_checked(session: RoleSessionView, catalog: RoleCatalogView, now: u64)
    requires
        session.phase is CheckingUpdate,
    ensures
        ({
            let role_id = session.phase->CheckingUpdate_role_id;
            let update = session.phase->CheckingUpdate_update;
            let after = session.after(RoleEventView::Catalog(ReplyView::Answered(catalog)), now);
            &&& after.catalog == catalog
            &&& after.phase is Ready || after.phase is Finished && after.phase->Finished_0 is Failed
            &&& after.phase is Ready <==> exists|n: int| #[trigger]
                is_first(catalog.roles, n, role_id) && update.applied_to(catalog.roles[n]) == catalog.roles[n]
        }),
{
    let role_id = session.phase->CheckingUpdate_role_id;
    let update = session.phase->CheckingUpdate_update;
    let after = session.after(RoleEventView::Catalog(ReplyView::Answered(catalog)), now);
    if first_role_with_id(catalog.roles, role_id) is Some {
        let n = found_first_is_listed(catalog.roles, role_id);
        assert(is_first(catalog.roles, n, role_id));
        if after.phase is Ready {
            assert(update.applied_to(catalog.roles[n]) == catalog.roles[n]);
        }
        if exists|n: int| #[trigger]
            is_first(catalog.roles, n, role_id) && update.applied_to(catalog.roles[n]) == catalog.roles[n] {
            let m = choose|n: int| #[trigger]
                is_first(catalog.roles, n, role_id) && update.applied_to(catalog.roles[n]) == catalog.roles[n];
            if m < n {
                assert(catalog.roles[m].id != role_id);
            } else if n < m {
                assert(catalog.roles[n].id != role_id);
            }
        }
    } else {
        none_is_listed(catalog.roles, role_id);
    }
}

} // verus!
