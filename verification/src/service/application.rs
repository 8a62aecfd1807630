//! What holds of the application of a plan, step by step and as a whole, of the state that
//! it leaves: what is bound, and what is recorded as deleted or under way.

use vstd::prelude::*;

use crate::apply::ReplyView;
use crate::configuration::definition::DefinitionView;
use crate::configuration::role::RoleDefinitionView;
use crate::configuration::state::{bound_role_keeps_sound, holder, unbound_role_keeps_sound, MappingsView, StateView};
use crate::domain::ErrorView;
use crate::ids::{everyone, RoleLogicalId};
use crate::ordered::{
    entry_is_found, first_in_none, has_key, lookup, lookup_has_entry, lookup_in_sorted, put, put_keeps_sorted,
    put_then_lookup, sorted, without, without_keeps_sorted, without_then_lookup,
};
use crate::port::{RoleCatalogView, RoleCreateOutcomeView};
use crate::resource::role::apply::RoleApplyOptions;
use crate::service::apply::{
    accepted_plans_hold_each_lifecycle_change_once, lifecycle_besides, lifecycle_of, new_session, releases_keep_place,
    state_created, state_deleted, state_released, steps_account_for_the_plan, steps_hold_each_lifecycle_change_once,
    taken_up_is_pending, RoleEventView, RolePhaseView, RoleSessionView, RoleStatusView,
};
use crate::service::plan::{
    names_role, one_more_role, plans_name_each_role_once, roles_differ, tracked_plan, LifecycleView, RolePlanView,
};
use crate::service::state::{
    deleted_fault, pending_creation_fault, pending_deletion_fault, sound_tracked_states_are_accepted, TrackedView,
};

verus! {

/// Whether what is recorded of deletions and creations goes with what is bound.
spec fn records_fit(state: TrackedView) -> bool {
    &&& forall|id: Seq<char>| #[trigger]
        has_key(state.deleted_roles, id) ==> has_key(state.bindings.roles, id) && !has_key(state.pending_deletions, id)
    &&& forall|id: Seq<char>| #[trigger]
        has_key(state.pending_deletions, id) ==> has_key(state.bindings.roles, id) && !has_key(state.deleted_roles, id)
    &&& forall|id: Seq<char>| #[trigger]
        has_key(state.pending_creations, id) && has_key(state.bindings.roles, id) ==> has_key(state.deleted_roles, id)
}

proof fn sound_records_fit(state: TrackedView)
    ensures
        state.tracking_fault() is None <==> records_fit(state),
{
    let deleted = |id: Seq<char>, _u: ()| deleted_fault(id, state);
    let deletion = |id: Seq<char>, _u: ()| pending_deletion_fault(id, state);
    let creation = |id: Seq<char>, _u: ()| pending_creation_fault(id, state);
    first_in_none(state.deleted_roles, deleted);
    first_in_none(state.pending_deletions, deletion);
    first_in_none(state.pending_creations, creation);
    if state.tracking_fault() is None {
        assert forall|id: Seq<char>| #[trigger] has_key(state.deleted_roles, id) implies has_key(
            state.bindings.roles,
            id,
        ) && !has_key(state.pending_deletions, id) by {
            let i = lookup_has_entry(state.deleted_roles, id);
            assert(deleted(state.deleted_roles[i].0, state.deleted_roles[i].1) is None);
        }
        assert forall|id: Seq<char>| #[trigger] has_key(state.pending_deletions, id) implies has_key(
            state.bindings.roles,
            id,
        ) && !has_key(state.deleted_roles, id) by {
            let i = lookup_has_entry(state.pending_deletions, id);
            assert(deletion(state.pending_deletions[i].0, state.pending_deletions[i].1) is None);
        }
        assert forall|id: Seq<char>| #[trigger]
            has_key(state.pending_creations, id) && has_key(state.bindings.roles, id) implies has_key(
            state.deleted_roles,
            id,
        ) by {
            let i = lookup_has_entry(state.pending_creations, id);
            assert(creation(state.pending_creations[i].0, state.pending_creations[i].1) is None);
        }
    }
    if records_fit(state) {
        assert forall|i: int| 0 <= i < state.deleted_roles.len() implies deleted(
            (#[trigger] state.deleted_roles[i]).0,
            state.deleted_roles[i].1,
        ) is None by {
            entry_is_found(state.deleted_roles, i);
            assert(has_key(state.deleted_roles, state.deleted_roles[i].0));
        }
        assert forall|i: int| 0 <= i < state.pending_deletions.len() implies deletion(
            (#[trigger] state.pending_deletions[i]).0,
            state.pending_deletions[i].1,
        ) is None by {
            entry_is_found(state.pending_deletions, i);
            assert(has_key(state.pending_deletions, state.pending_deletions[i].0));
        }
        assert forall|i: int| 0 <= i < state.pending_creations.len() implies creation(
            (#[trigger] state.pending_creations[i]).0,
            state.pending_creations[i].1,
        ) is None by {
            entry_is_found(state.pending_creations, i);
            assert(has_key(state.pending_creations, state.pending_creations[i].0));
        }
    }
}

/// Whether a creation, release or deletion goes with a state: only a role is created that
/// is not there, and only one is released or deleted that is bound.
pub open spec fn fits(change: LifecycleView, state: TrackedView) -> bool {
    match change {
        LifecycleView::Create { logical_id, .. } => logical_id != everyone() && (has_key(
            state.bindings.roles,
            logical_id,
        ) ==> has_key(state.deleted_roles, logical_id)),
        LifecycleView::Delete { logical_id, discord_id } => lookup(state.bindings.roles, logical_id) == Some(discord_id)
            && !has_key(state.deleted_roles, logical_id),
        LifecycleView::Release { logical_id, discord_id } => lookup(state.bindings.roles, logical_id) == Some(
            discord_id,
        ),
    }
}

/// Whether creations, releases and deletions go with a state.
pub open spec fn all_fit(lifecycle: Seq<LifecycleView>, state: TrackedView) -> bool {
    forall|i: int| 0 <= i < lifecycle.len() ==> fits(#[trigger] lifecycle[i], state)
}

impl RoleSessionView {
    /// Whether what is still to be made goes with the state, and no role is named twice:
    /// neither in it, nor in it and in what was made. A session is so from the moment the
    /// roles of the guild are known.
    pub open spec fn is_in_step(self) -> bool {
        &&& roles_differ(self.pending.lifecycle)
        &&& all_fit(self.pending.lifecycle, self.state)
        &&& forall|id: Seq<char>| #[trigger]
            lifecycle_of(self.applied.lifecycle, id) is Some ==> lifecycle_of(self.pending.lifecycle, id) is None
        &&& match self.phase {
            RolePhaseView::Creating { change, .. } => self.pending.lifecycle.contains(change) && change is Create
                && change.logical_id() == self.current(),
            RolePhaseView::Deleting { change, .. } | RolePhaseView::CheckingDeletion { change, .. } =>
                self.pending.lifecycle.contains(change) && change is Delete && change.logical_id() == self.current(),
            _ => true,
        }
    }

    /// The session after it was told all of this, from the first to the last.
    pub open spec fn after_all(self, replies: RepliesView) -> RoleSessionView
        decreases replies.len(),
    {
        if replies.len() == 0 {
            self
        } else {
            self.after_all(replies.drop_last()).after(replies.last().0, replies.last().1)
        }
    }

    /// Whether the plan was out of date: a new one stands in its place, and nothing was made.
    pub open spec fn was_replanned(self) -> bool {
        self.phase == RolePhaseView::Finished(RoleStatusView::ReplanRequired) && self.applied == RolePlanView::none()
    }
}

/// What a session was told, each with the time.
pub type RepliesView = Seq<(RoleEventView, u64)>;

/// Whether a reply said that a role was created with an identifier.
pub open spec fn was_told(replies: RepliesView, id: u64) -> bool {
    exists|k: int|
        0 <= k < replies.len() && (#[trigger] replies[k]).0 == RoleEventView::Created(
            ReplyView::Answered(RoleCreateOutcomeView::Created(id)),
        )
}

/// Whether a name is bound and recorded as deleted as the change that was made says: as
/// before where none was made, to what was created, not at all once it was released, and
/// as before but recorded as deleted once it was deleted.
pub open spec fn record_follows(
    made: Option<LifecycleView>,
    id: Seq<char>,
    before: TrackedView,
    after: TrackedView,
    replies: RepliesView,
) -> bool {
    let bound = lookup(after.bindings.roles, id);
    match made {
        None => bound == lookup(before.bindings.roles, id) && has_key(after.deleted_roles, id) == has_key(
            before.deleted_roles,
            id,
        ),
        Some(LifecycleView::Create { .. }) => bound is Some && was_told(replies, bound->0) && !has_key(
            after.deleted_roles,
            id,
        ),
        Some(LifecycleView::Release { .. }) => bound is None && !has_key(after.deleted_roles, id),
        Some(LifecycleView::Delete { discord_id, .. }) => bound == Some(discord_id) && bound == lookup(
            before.bindings.roles,
            id,
        ) && has_key(after.deleted_roles, id),
    }
}

proof fn told_before(replies: RepliesView, id: u64)
    requires
        replies.len() > 0,
        was_told(replies.drop_last(), id),
    ensures
        was_told(replies, id),
{
    let before = replies.drop_last();
    let k = choose|k: int|
        0 <= k < before.len() && (#[trigger] before[k]).0 == RoleEventView::Created(
            ReplyView::Answered(RoleCreateOutcomeView::Created(id)),
        );
    assert(replies[k] == before[k]);
}

proof fn found_is_named(lifecycle: Seq<LifecycleView>, id: Seq<char>)
    ensures
        lifecycle_of(lifecycle, id) is Some <==> names_role(lifecycle, id),
        lifecycle_of(lifecycle, id) is Some ==> lifecycle.contains(lifecycle_of(lifecycle, id)->0) && lifecycle_of(
            lifecycle,
            id,
        )->0.logical_id() == id,
    decreases lifecycle.len(),
{
    taken_up_is_pending(lifecycle, id);
    if lifecycle.len() > 0 {
        let rest = lifecycle.drop_first();
        found_is_named(rest, id);
        if lifecycle[0].logical_id() == id {
            assert(names_role(lifecycle, id));
        } else {
            if names_role(rest, id) {
                let i = choose|i: int| 0 <= i < rest.len() && (#[trigger] rest[i]).logical_id() == id;
                assert(lifecycle[i + 1].logical_id() == id);
            }
            if names_role(lifecycle, id) {
                let i = choose|i: int| 0 <= i < lifecycle.len() && (#[trigger] lifecycle[i]).logical_id() == id;
                assert(rest[i - 1].logical_id() == id);
            }
        }
    }
}

proof fn the_only_one_is_found(lifecycle: Seq<LifecycleView>, change: LifecycleView)
    requires
        roles_differ(lifecycle),
        lifecycle.contains(change),
    ensures
        lifecycle_of(lifecycle, change.logical_id()) == Some(change),
{
    let i = lifecycle.index_of(change);
    found_is_named(lifecycle, change.logical_id());
    assert(lifecycle[i].logical_id() == change.logical_id());
    let found = lifecycle_of(lifecycle, change.logical_id())->0;
    let j = lifecycle.index_of(found);
    if i < j {
        assert(lifecycle[i].logical_id() != lifecycle[j].logical_id());
    } else if j < i {
        assert(lifecycle[j].logical_id() != lifecycle[i].logical_id());
    }
}

proof fn besides_hold(lifecycle: Seq<LifecycleView>, done: LifecycleView)
    requires
        roles_differ(lifecycle),
    ensures
        roles_differ(lifecycle_besides(lifecycle, done)),
        forall|change: LifecycleView| #[trigger]
            lifecycle_besides(lifecycle, done).contains(change) <==> lifecycle.contains(change) && change != done,
    decreases lifecycle.len(),
{
    reveal(Seq::filter);
    let all = lifecycle_besides(lifecycle, done);
    if lifecycle.len() > 0 {
        let front = lifecycle.drop_last();
        let last = lifecycle.last();
        let rest = lifecycle_besides(front, done);
        assert forall|i: int, j: int| 0 <= i < j < front.len() implies (#[trigger] front[i]).logical_id() != (
        #[trigger] front[j]).logical_id() by {
            assert(lifecycle[i].logical_id() != lifecycle[j].logical_id());
        }
        besides_hold(front, done);
        if last != done {
            if names_role(rest, last.logical_id()) {
                let i = choose|i: int| 0 <= i < rest.len() && (#[trigger] rest[i]).logical_id() == last.logical_id();
                assert(rest.contains(rest[i]));
                let j = front.index_of(rest[i]);
                assert(lifecycle[j].logical_id() != lifecycle[lifecycle.len() - 1].logical_id());
            }
            one_more_role(rest, last);
        }
        assert forall|change: LifecycleView| #[trigger] all.contains(change) <==> lifecycle.contains(change) && change
            != done by {
            if all.contains(change) {
                let i = all.index_of(change);
                if i < rest.len() {
                    assert(rest.contains(rest[i]));
                    let j = front.index_of(change);
                    assert(lifecycle[j] == change);
                } else {
                    assert(lifecycle[lifecycle.len() - 1] == change);
                }
            }
            if lifecycle.contains(change) && change != done {
                let j = lifecycle.index_of(change);
                if j < front.len() {
                    assert(front[j] == change);
                    assert(rest.contains(change));
                    let i = rest.index_of(change);
                    assert(all[i] == change);
                } else {
                    assert(all[all.len() - 1] == change);
                }
            }
        }
    } else {
        assert(all =~= Seq::empty());
    }
}

proof fn found_besides(lifecycle: Seq<LifecycleView>, done: LifecycleView, id: Seq<char>)
    requires
        roles_differ(lifecycle),
        lifecycle.contains(done),
    ensures
        lifecycle_of(lifecycle_besides(lifecycle, done), id) == if id == done.logical_id() {
            None
        } else {
            lifecycle_of(lifecycle, id)
        },
{
    let rest = lifecycle_besides(lifecycle, done);
    besides_hold(lifecycle, done);
    found_is_named(lifecycle, id);
    found_is_named(rest, id);
    the_only_one_is_found(lifecycle, done);
    if let Some(change) = lifecycle_of(rest, id) {
        assert(lifecycle.contains(change) && change != done);
        the_only_one_is_found(lifecycle, change);
    } else if let Some(change) = lifecycle_of(lifecycle, id) {
        if change != done {
            assert(rest.contains(change));
            the_only_one_is_found(rest, change);
        }
    }
}

proof fn found_with_last(lifecycle: Seq<LifecycleView>, last: LifecycleView, id: Seq<char>)
    ensures
        lifecycle_of(lifecycle.push(last), id) == match lifecycle_of(lifecycle, id) {
            Some(change) => Some(change),
            None => if last.logical_id() == id {
                Some(last)
            } else {
                None
            },
        },
    decreases lifecycle.len(),
{
    let all = lifecycle.push(last);
    if lifecycle.len() > 0 {
        assert(all.drop_first() =~= lifecycle.drop_first().push(last));
        found_with_last(lifecycle.drop_first(), last, id);
    } else {
        assert(all.drop_first() =~= Seq::empty());
        assert(lifecycle_of(all.drop_first(), id) is None);
    }
}

/// Whether two states say the same of a name: what it is bound to, whether it was deleted,
/// and whether it is being created or deleted.
pub open spec fn say_the_same(a: TrackedView, b: TrackedView, id: Seq<char>) -> bool {
    &&& lookup(a.bindings.roles, id) == lookup(b.bindings.roles, id)
    &&& has_key(a.deleted_roles, id) == has_key(b.deleted_roles, id)
    &&& has_key(a.pending_creations, id) == has_key(b.pending_creations, id)
    &&& has_key(a.pending_deletions, id) == has_key(b.pending_deletions, id)
}

/// Whether what is recorded of a name goes with what it is bound to.
spec fn name_fits(state: TrackedView, id: Seq<char>) -> bool {
    let bound = has_key(state.bindings.roles, id);
    let deleted = has_key(state.deleted_roles, id);
    &&& deleted ==> bound && !has_key(state.pending_deletions, id)
    &&& has_key(state.pending_deletions, id) ==> bound && !deleted
    &&& has_key(state.pending_creations, id) && bound ==> deleted
}

proof fn others_fit(state: TrackedView, after: TrackedView, id: Seq<char>)
    requires
        records_fit(state),
        name_fits(after, id),
        forall|other: Seq<char>| other != id ==> #[trigger] say_the_same(state, after, other),
    ensures
        records_fit(after),
{
    assert forall|other: Seq<char>| name_fits(after, other) by {
        if other != id {
            assert(say_the_same(state, after, other));
            assert(name_fits(state, other));
        }
    }
    assert forall|other: Seq<char>| #[trigger] has_key(after.deleted_roles, other) implies has_key(
        after.bindings.roles,
        other,
    ) && !has_key(after.pending_deletions, other) by {
        assert(name_fits(after, other));
    }
    assert forall|other: Seq<char>| #[trigger] has_key(after.pending_deletions, other) implies has_key(
        after.bindings.roles,
        other,
    ) && !has_key(after.deleted_roles, other) by {
        assert(name_fits(after, other));
    }
    assert forall|other: Seq<char>| #[trigger]
        has_key(after.pending_creations, other) && has_key(after.bindings.roles, other) implies has_key(
        after.deleted_roles,
        other,
    ) by {
        assert(name_fits(after, other));
    }
}

proof fn fitting_stays(lifecycle: Seq<LifecycleView>, state: TrackedView, after: TrackedView, id: Seq<char>)
    requires
        all_fit(lifecycle, state),
        forall|i: int| 0 <= i < lifecycle.len() ==> (#[trigger] lifecycle[i]).logical_id() != id,
        forall|other: Seq<char>| other != id ==> #[trigger] say_the_same(state, after, other),
    ensures
        all_fit(lifecycle, after),
{
    assert forall|i: int| 0 <= i < lifecycle.len() implies fits(#[trigger] lifecycle[i], after) by {
        assert(fits(lifecycle[i], state));
        assert(say_the_same(state, after, lifecycle[i].logical_id()));
    }
}

/// A change that was made leaves the others as they were.
proof fn settling_stays_in_step(session: RoleSessionView, done: LifecycleView, state: TrackedView)
    requires
        session.is_in_step(),
        session.pending.lifecycle.contains(done),
        forall|other: Seq<char>| other != done.logical_id() ==> #[trigger] say_the_same(session.state, state, other),
    ensures
        ({
            let after = RoleSessionView { state, ..session }.settled(done);
            &&& after.to(RolePhaseView::Ready).is_in_step()
            &&& forall|id: Seq<char>| #[trigger]
                lifecycle_of(after.applied.lifecycle, id) == if id == done.logical_id() {
                    Some(done)
                } else {
                    lifecycle_of(session.applied.lifecycle, id)
                }
        }),
{
    let after = RoleSessionView { state, ..session }.settled(done);
    let pending = session.pending.lifecycle;
    let rest = after.pending.lifecycle;
    besides_hold(pending, done);
    the_only_one_is_found(pending, done);
    assert(all_fit(rest, session.state)) by {
        assert forall|i: int| 0 <= i < rest.len() implies fits(#[trigger] rest[i], session.state) by {
            assert(rest.contains(rest[i]));
            let j = pending.index_of(rest[i]);
            assert(fits(pending[j], session.state));
        }
    }
    assert forall|i: int| 0 <= i < rest.len() implies (#[trigger] rest[i]).logical_id() != done.logical_id() by {
        assert(rest.contains(rest[i]));
        the_only_one_is_found(pending, rest[i]);
    }
    fitting_stays(rest, session.state, state, done.logical_id());
    assert(lifecycle_of(session.applied.lifecycle, done.logical_id()) is None);
    assert forall|id: Seq<char>| #[trigger] lifecycle_of(after.applied.lifecycle, id) == (if id == done.logical_id() {
        Some(done)
    } else {
        lifecycle_of(session.applied.lifecycle, id)
    }) by {
        found_with_last(session.applied.lifecycle, done, id);
    }
    assert forall|id: Seq<char>| #[trigger] lifecycle_of(after.applied.lifecycle, id) is Some implies lifecycle_of(
        after.pending.lifecycle,
        id,
    ) is None by {
        found_besides(pending, done, id);
    }
}

/// What becomes of the records of each name when one is put, and another is taken out.
proof fn put_is_recorded(names: Seq<(Seq<char>, ())>, name: Seq<char>, id: Seq<char>)
    ensures
        has_key(put::<RoleLogicalId, ()>(names, name, ()), id) == (id == name || has_key(names, id)),
        has_key(without(names, name), id) == (id != name && has_key(names, id)),
{
    put_then_lookup::<RoleLogicalId, ()>(names, name, (), id);
    without_then_lookup(names, name, id);
}

proof fn created_is_recorded(state: TrackedView, id: Seq<char>, role_id: u64)
    ensures
        lookup(state_created(state, id, role_id).bindings.roles, id) == Some(role_id),
        !has_key(state_created(state, id, role_id).deleted_roles, id),
        forall|other: Seq<char>| other != id ==> #[trigger] say_the_same(state, state_created(state, id, role_id), other),
{
    let after = state_created(state, id, role_id);
    put_then_lookup::<RoleLogicalId, u64>(state.bindings.roles, id, role_id, id);
    put_is_recorded(state.deleted_roles, id, id);
    assert forall|other: Seq<char>| other != id implies #[trigger] say_the_same(state, after, other) by {
        put_then_lookup::<RoleLogicalId, u64>(state.bindings.roles, id, role_id, other);
        put_is_recorded(state.deleted_roles, id, other);
        put_is_recorded(state.pending_creations, id, other);
    }
}

proof fn deleted_is_recorded(state: TrackedView, id: Seq<char>)
    ensures
        has_key(state_deleted(state, id).deleted_roles, id),
        forall|other: Seq<char>| other != id ==> #[trigger] say_the_same(state, state_deleted(state, id), other),
{
    let after = state_deleted(state, id);
    put_is_recorded(state.deleted_roles, id, id);
    assert forall|other: Seq<char>| other != id implies #[trigger] say_the_same(state, after, other) by {
        put_is_recorded(state.deleted_roles, id, other);
        put_is_recorded(state.pending_deletions, id, other);
    }
}

proof fn released_is_recorded(state: TrackedView, id: Seq<char>)
    ensures
        !has_key(state_released(state, id).bindings.roles, id),
        !has_key(state_released(state, id).deleted_roles, id),
        forall|other: Seq<char>| other != id ==> #[trigger] say_the_same(state, state_released(state, id), other),
{
    let after = state_released(state, id);
    without_then_lookup(state.bindings.roles, id, id);
    put_is_recorded(state.deleted_roles, id, id);
    assert forall|other: Seq<char>| other != id implies #[trigger] say_the_same(state, after, other) by {
        without_then_lookup(state.bindings.roles, id, other);
        put_is_recorded(state.deleted_roles, id, other);
        put_is_recorded(state.pending_creations, id, other);
        put_is_recorded(state.pending_deletions, id, other);
    }
}

proof fn created_stays_sound(state: TrackedView, id: Seq<char>, role_id: u64)
    requires
        state.is_sound(),
        sorted::<RoleLogicalId, u64>(state.bindings.roles),
        id != everyone(),
        role_id != state.bindings.guild_id,
        holder(state.bindings.roles, role_id) is None,
    ensures
        state_created(state, id, role_id).is_sound(),
        sorted::<RoleLogicalId, u64>(state_created(state, id, role_id).bindings.roles),
{
    let after = state_created(state, id, role_id);
    bound_role_keeps_sound(state.bindings, id, role_id);
    put_keeps_sorted::<RoleLogicalId, u64>(state.bindings.roles, id, role_id);
    sound_records_fit(state);
    created_is_recorded(state, id, role_id);
    put_is_recorded(state.pending_creations, id, id);
    others_fit(state, after, id);
    sound_records_fit(after);
}

/// The state while a role is being created.
spec fn state_creating(state: TrackedView, id: Seq<char>) -> TrackedView {
    TrackedView { pending_creations: put::<RoleLogicalId, ()>(state.pending_creations, id, ()), ..state }
}

/// The state once a creation was refused.
spec fn state_refused(state: TrackedView, id: Seq<char>) -> TrackedView {
    TrackedView { pending_creations: without(state.pending_creations, id), ..state }
}

/// The state while a role is being deleted.
spec fn state_deleting(state: TrackedView, id: Seq<char>) -> TrackedView {
    TrackedView { pending_deletions: put::<RoleLogicalId, ()>(state.pending_deletions, id, ()), ..state }
}

proof fn asking_is_recorded(state: TrackedView, id: Seq<char>, other: Seq<char>)
    requires
        other != id,
    ensures
        say_the_same(state, state_creating(state, id), other),
        say_the_same(state, state_refused(state, id), other),
        say_the_same(state, state_deleting(state, id), other),
{
    put_is_recorded(state.pending_creations, id, other);
    put_is_recorded(state.pending_deletions, id, other);
}

proof fn asking_stays_sound(state: TrackedView, id: Seq<char>)
    requires
        state.is_sound(),
    ensures
        (has_key(state.bindings.roles, id) ==> has_key(state.deleted_roles, id)) ==> state_creating(
            state,
            id,
        ).is_sound(),
        state_refused(state, id).is_sound(),
        has_key(state.bindings.roles, id) && !has_key(state.deleted_roles, id) ==> state_deleting(state, id).is_sound(),
{
    let creating = state_creating(state, id);
    let refused = state_refused(state, id);
    let deleting = state_deleting(state, id);
    sound_records_fit(state);
    put_is_recorded(state.pending_creations, id, id);
    put_is_recorded(state.pending_deletions, id, id);
    assert forall|other: Seq<char>| other != id implies #[trigger] say_the_same(state, creating, other) by {
        asking_is_recorded(state, id, other);
    }
    assert forall|other: Seq<char>| other != id implies #[trigger] say_the_same(state, refused, other) by {
        asking_is_recorded(state, id, other);
    }
    assert forall|other: Seq<char>| other != id implies #[trigger] say_the_same(state, deleting, other) by {
        asking_is_recorded(state, id, other);
    }
    assert(name_fits(state, id));
    others_fit(state, refused, id);
    sound_records_fit(refused);
    if has_key(state.bindings.roles, id) ==> has_key(state.deleted_roles, id) {
        others_fit(state, creating, id);
        sound_records_fit(creating);
    }
    if has_key(state.bindings.roles, id) && !has_key(state.deleted_roles, id) {
        others_fit(state, deleting, id);
        sound_records_fit(deleting);
    }
}

proof fn deleted_stays_sound(state: TrackedView, id: Seq<char>)
    requires
        state.is_sound(),
        has_key(state.bindings.roles, id),
    ensures
        state_deleted(state, id).is_sound(),
{
    let after = state_deleted(state, id);
    sound_records_fit(state);
    deleted_is_recorded(state, id);
    put_is_recorded(state.pending_deletions, id, id);
    others_fit(state, after, id);
    sound_records_fit(after);
}

proof fn released_stays_sound(state: TrackedView, id: Seq<char>)
    requires
        state.is_sound(),
        sorted::<RoleLogicalId, u64>(state.bindings.roles),
    ensures
        state_released(state, id).is_sound(),
        sorted::<RoleLogicalId, u64>(state_released(state, id).bindings.roles),
{
    let after = state_released(state, id);
    unbound_role_keeps_sound(state.bindings, id);
    without_keeps_sorted::<RoleLogicalId, u64>(state.bindings.roles, id);
    sound_records_fit(state);
    released_is_recorded(state, id);
    put_is_recorded(state.pending_creations, id, id);
    put_is_recorded(state.pending_deletions, id, id);
    others_fit(state, after, id);
    sound_records_fit(after);
}

proof fn declared_fit(
    plan: RolePlanView,
    i: int,
    definition: DefinitionView,
    state: TrackedView,
    catalog: RoleCatalogView,
)
    requires
        0 <= i <= definition.roles.len(),
        all_fit(plan.lifecycle, state),
        plan.after_roles(i, definition, state, catalog) is Ok,
    ensures
        all_fit(plan.after_roles(i, definition, state, catalog)->Ok_0.lifecycle, state),
    decreases definition.roles.len() - i,
{
    if i < definition.roles.len() {
        let (id, role) = definition.roles[i];
        let next = plan.after_role(id, role, definition, state, catalog)->Ok_0;
        if next.lifecycle != plan.lifecycle {
            let change = next.lifecycle.last();
            assert(next.lifecycle == plan.lifecycle.push(change));
            assert(fits(change, state));
            assert forall|k: int| 0 <= k < next.lifecycle.len() implies fits(#[trigger] next.lifecycle[k], state) by {
                if k < plan.lifecycle.len() {
                    assert(fits(plan.lifecycle[k], state));
                }
            }
        }
        declared_fit(next, i + 1, definition, state, catalog);
    }
}

proof fn released_fit(
    plan: RolePlanView,
    state: TrackedView,
    i: int,
    declared: Seq<(Seq<char>, RoleDefinitionView)>,
)
    requires
        0 <= i <= state.bindings.roles.len(),
        sorted::<RoleLogicalId, u64>(state.bindings.roles),
        all_fit(plan.lifecycle, state),
    ensures
        all_fit(plan.with_released(state.bindings.roles, i, declared).lifecycle, state),
    decreases state.bindings.roles.len() - i,
{
    let bound = state.bindings.roles;
    if i < bound.len() {
        if bound[i].0 == everyone() || has_key(declared, bound[i].0) {
            released_fit(plan, state, i + 1, declared);
        } else {
            let change = LifecycleView::Release { logical_id: bound[i].0, discord_id: bound[i].1 };
            let next = plan.with(change);
            lookup_in_sorted::<RoleLogicalId, u64>(bound, i);
            assert forall|k: int| 0 <= k < next.lifecycle.len() implies fits(#[trigger] next.lifecycle[k], state) by {
                if k < plan.lifecycle.len() {
                    assert(fits(plan.lifecycle[k], state));
                }
            }
            released_fit(next, state, i + 1, declared);
        }
    }
}

/// A plan goes with the state it was made for: it creates only roles that are not there,
/// and releases and deletes only roles that are bound, by what they are bound to.
pub proof fn plans_fit_the_state(definition: DefinitionView, state: TrackedView, catalog: RoleCatalogView)
    requires
        sorted::<RoleLogicalId, u64>(state.bindings.roles),
        tracked_plan(definition, state, catalog) is Ok,
    ensures
        all_fit(tracked_plan(definition, state, catalog)->Ok_0.lifecycle, state),
{
    let none = RolePlanView::none();
    declared_fit(none, 0, definition, state, catalog);
    let plan = none.after_roles(0, definition, state, catalog)->Ok_0;
    released_fit(plan, state, 0, definition.roles);
}

impl RoleSessionView {
    /// What holds of a session all along, and makes its steps safe: the state is sound, and
    /// what is still to be made goes with it.
    pub open spec fn is_sound(self) -> bool {
        &&& self.state.is_sound()
        &&& sorted::<RoleLogicalId, u64>(self.state.bindings.roles)
        &&& self.is_under_way()
    }

    /// Whether the session has ended, or what is still to be made goes with the state, once
    /// the roles of the guild are known.
    pub open spec fn is_under_way(self) -> bool {
        match self.phase {
            RolePhaseView::Opening => self.applied.lifecycle.len() == 0 && sorted::<RoleLogicalId, RoleDefinitionView>(
                self.definition.roles,
            ) && sorted::<RoleLogicalId, u64>(self.state.bindings.roles),
            RolePhaseView::Finished(_) | RolePhaseView::Broken(_) => true,
            _ => self.is_in_step(),
        }
    }
}

/// Whether every name is bound and recorded as deleted as the changes that were made say,
/// and nothing else of the bindings changed.
pub open spec fn records_follow(
    applied: Seq<LifecycleView>,
    before: TrackedView,
    after: TrackedView,
    replies: RepliesView,
) -> bool {
    &&& after.bindings == (StateView { roles: after.bindings.roles, ..before.bindings })
    &&& forall|id: Seq<char>| record_follows(#[trigger] lifecycle_of(applied, id), id, before, after, replies)
}

proof fn replies_are_remembered(
    applied: Seq<LifecycleView>,
    before: TrackedView,
    after: TrackedView,
    replies: RepliesView,
)
    requires
        replies.len() > 0,
        records_follow(applied, before, after, replies.drop_last()),
    ensures
        records_follow(applied, before, after, replies),
{
    assert forall|id: Seq<char>| record_follows(#[trigger] lifecycle_of(applied, id), id, before, after, replies) by {
        let made = lifecycle_of(applied, id);
        assert(record_follows(made, id, before, after, replies.drop_last()));
        if made is Some && made->0 is Create {
            told_before(replies, lookup(after.bindings.roles, id)->0);
        }
    }
}

proof fn asking_follows(
    applied: Seq<LifecycleView>,
    before: TrackedView,
    state: TrackedView,
    after: TrackedView,
    replies: RepliesView,
)
    requires
        records_follow(applied, before, state, replies),
        after.bindings == state.bindings,
        after.deleted_roles == state.deleted_roles,
    ensures
        records_follow(applied, before, after, replies),
{
    assert forall|id: Seq<char>| record_follows(#[trigger] lifecycle_of(applied, id), id, before, after, replies) by {
        assert(record_follows(lifecycle_of(applied, id), id, before, state, replies));
    }
}

proof fn settling_follows(
    session: RoleSessionView,
    done: LifecycleView,
    state: TrackedView,
    before: TrackedView,
    replies: RepliesView,
)
    requires
        session.is_in_step(),
        session.pending.lifecycle.contains(done),
        records_follow(session.applied.lifecycle, before, session.state, replies),
        forall|other: Seq<char>| other != done.logical_id() ==> #[trigger] say_the_same(session.state, state, other),
        state.bindings == (StateView { roles: state.bindings.roles, ..session.state.bindings }),
        record_follows(Some(done), done.logical_id(), session.state, state, replies),
    ensures
        records_follow(session.applied.lifecycle.push(done), before, state, replies),
{
    let applied = session.applied.lifecycle;
    the_only_one_is_found(session.pending.lifecycle, done);
    assert(lifecycle_of(applied, done.logical_id()) is None);
    assert(record_follows(lifecycle_of(applied, done.logical_id()), done.logical_id(), before, session.state, replies));
    assert forall|id: Seq<char>| record_follows(
        #[trigger] lifecycle_of(applied.push(done), id),
        id,
        before,
        state,
        replies,
    ) by {
        found_with_last(applied, done, id);
        if id != done.logical_id() {
            assert(say_the_same(session.state, state, id));
            assert(record_follows(lifecycle_of(applied, id), id, before, session.state, replies));
        }
    }
}

/// The session after one release.
spec fn released_one(session: RoleSessionView, change: LifecycleView) -> RoleSessionView {
    RoleSessionView { state: state_released(session.state, change.logical_id()), ..session }.settled(change)
}

proof fn releasing_stays_in_step(
    session: RoleSessionView,
    lifecycle: Seq<LifecycleView>,
    i: int,
    before: TrackedView,
    replies: RepliesView,
)
    requires
        0 <= i <= lifecycle.len(),
        roles_differ(lifecycle),
        session.phase is Ready,
        session.is_in_step(),
        forall|k: int| i <= k < lifecycle.len() ==> session.pending.lifecycle.contains(#[trigger] lifecycle[k]),
    ensures
        session.released(lifecycle, i).is_in_step(),
        session.state.is_sound() && sorted::<RoleLogicalId, u64>(session.state.bindings.roles) ==> session.released(
            lifecycle,
            i,
        ).state.is_sound() && sorted::<RoleLogicalId, u64>(session.released(lifecycle, i).state.bindings.roles),
        records_follow(session.applied.lifecycle, before, session.state, replies) ==> records_follow(
            session.released(lifecycle, i).applied.lifecycle,
            before,
            session.released(lifecycle, i).state,
            replies,
        ),
    decreases lifecycle.len() - i,
{
    if i < lifecycle.len() {
        if lifecycle[i] is Release {
            let done = lifecycle[i];
            let next = released_one(session, done);
            assert(session.pending.lifecycle.contains(done));
            released_is_recorded(session.state, done.logical_id());
            settling_stays_in_step(session, done, next.state);
            besides_hold(session.pending.lifecycle, done);
            if session.state.is_sound() && sorted::<RoleLogicalId, u64>(session.state.bindings.roles) {
                released_stays_sound(session.state, done.logical_id());
            }
            if records_follow(session.applied.lifecycle, before, session.state, replies) {
                settling_follows(session, done, next.state, before, replies);
            }
            assert(next.to(RolePhaseView::Ready) == next);
            assert forall|k: int| i + 1 <= k < lifecycle.len() implies next.pending.lifecycle.contains(
                #[trigger] lifecycle[k],
            ) by {
                assert(session.pending.lifecycle.contains(lifecycle[k]));
                assert(lifecycle[i].logical_id() != lifecycle[k].logical_id());
            }
            releasing_stays_in_step(next, lifecycle, i + 1, before, replies);
        } else {
            releasing_stays_in_step(session, lifecycle, i + 1, before, replies);
        }
    }
}

/// What a step leads to: the session is under way as before, a sound state is sound, and
/// the records follow what was made.
spec fn stays_in_step(
    session: RoleSessionView,
    after: RoleSessionView,
    before: TrackedView,
    replies: RepliesView,
) -> bool {
    &&& after.is_under_way()
    &&& session.is_sound() && !was_told(replies, session.state.bindings.guild_id) ==> after.is_sound()
    &&& records_follow(session.applied.lifecycle, before, session.state, replies) ==> records_follow(
        after.applied.lifecycle,
        before,
        after.state,
        replies,
    )
}

proof fn opening_stays_in_step(
    session: RoleSessionView,
    reply: ReplyView<RoleCatalogView>,
    before: TrackedView,
    replies: RepliesView,
)
    requires
        session.phase is Opening,
        session.is_under_way(),
    ensures
        stays_in_step(session, session.opened(reply), before, replies),
{
    let after = session.opened(reply);
    if after.phase is Ready {
        plans_name_each_role_once(session.definition, session.state, reply->Answered_0);
        plans_fit_the_state(session.definition, session.state, reply->Answered_0);
        assert forall|id: Seq<char>| #[trigger] lifecycle_of(after.applied.lifecycle, id) is Some implies lifecycle_of(
            after.pending.lifecycle,
            id,
        ) is None by {}
    }
}

proof fn deleting_stays_in_step(
    session: RoleSessionView,
    change: LifecycleView,
    before: TrackedView,
    replies: RepliesView,
)
    requires
        session.is_in_step(),
        session.pending.lifecycle.contains(change),
        change is Delete,
        change.logical_id() == session.current(),
    ensures
        session.deleted_role(change).to(RolePhaseView::Ready).is_in_step(),
        session.state.is_sound() ==> session.deleted_role(change).state.is_sound(),
        session.deleted_role(change).state.bindings == session.state.bindings,
        records_follow(session.applied.lifecycle, before, session.state, replies) ==> records_follow(
            session.deleted_role(change).applied.lifecycle,
            before,
            session.deleted_role(change).state,
            replies,
        ),
{
    let id = session.current();
    let state = state_deleted(session.state, id);
    let i = session.pending.lifecycle.index_of(change);
    assert(fits(session.pending.lifecycle[i], session.state));
    deleted_is_recorded(session.state, id);
    settling_stays_in_step(session, change, state);
    if session.state.is_sound() {
        deleted_stays_sound(session.state, id);
    }
    if records_follow(session.applied.lifecycle, before, session.state, replies) {
        settling_follows(session, change, state, before, replies);
    }
}

proof fn same_state_is_in_step(session: RoleSessionView, state: TrackedView)
    requires
        session.is_in_step(),
        state.bindings == session.state.bindings,
        state.deleted_roles == session.state.deleted_roles,
    ensures
        (RoleSessionView { state, ..session }).is_in_step(),
{
    let pending = session.pending.lifecycle;
    assert forall|i: int| 0 <= i < pending.len() implies fits(#[trigger] pending[i], state) by {
        assert(fits(pending[i], session.state));
    }
}

proof fn proceeding_stays_in_step(session: RoleSessionView, now: u64, before: TrackedView, replies: RepliesView)
    requires
        session.phase is Ready,
        session.is_in_step(),
    ensures
        stays_in_step(session, session.proceeded(now), before, replies),
{
    let id = session.current();
    let pending = session.pending.lifecycle;
    let after = session.proceeded(now);
    let follow = records_follow(session.applied.lifecycle, before, session.state, replies);
    if session.done < session.desired.len() {
        found_is_named(pending, id);
        let change = lifecycle_of(pending, id);
        if session.lifecycle is Some && change is Some && !(change->0 is Release) {
            let change = change->0;
            let i = pending.index_of(change);
            assert(fits(pending[i], session.state));
            let creating = state_creating(session.state, id);
            let deleting = state_deleting(session.state, id);
            same_state_is_in_step(session, creating);
            same_state_is_in_step(session, deleting);
            if session.state.is_sound() {
                asking_stays_sound(session.state, id);
            }
            if follow {
                asking_follows(session.applied.lifecycle, before, session.state, creating, replies);
                asking_follows(session.applied.lifecycle, before, session.state, deleting, replies);
            }
            if change is Delete {
                deleting_stays_in_step(RoleSessionView { state: deleting, ..session }, change, before, replies);
            }
        }
    } else if session.lifecycle is Some {
        assert forall|k: int| 0 <= k < pending.len() implies pending.contains(#[trigger] pending[k]) by {}
        releasing_stays_in_step(session, pending, 0, before, replies);
    }
}

proof fn creating_stays_in_step(
    session: RoleSessionView,
    change: LifecycleView,
    reply: ReplyView<RoleCreateOutcomeView>,
    before: TrackedView,
    replies: RepliesView,
)
    requires
        session.is_in_step(),
        session.phase is Creating,
        session.phase->Creating_change == change,
        reply matches ReplyView::Answered(RoleCreateOutcomeView::Created(role_id)) ==> was_told(replies, role_id),
    ensures
        stays_in_step(session, session.created(change, reply), before, replies),
{
    let id = session.current();
    let i = session.pending.lifecycle.index_of(change);
    assert(fits(session.pending.lifecycle[i], session.state));
    let follow = records_follow(session.applied.lifecycle, before, session.state, replies);
    match reply {
        ReplyView::Refused(_) => {
            if session.state.is_sound() {
                asking_stays_sound(session.state, id);
            }
            if follow {
                asking_follows(
                    session.applied.lifecycle,
                    before,
                    session.state,
                    state_refused(session.state, id),
                    replies,
                );
            }
        },
        ReplyView::Answered(RoleCreateOutcomeView::Created(role_id)) => {
            if holder(session.state.bindings.roles, role_id) is None {
                let state = state_created(session.state, id, role_id);
                created_is_recorded(session.state, id, role_id);
                settling_stays_in_step(session, change, state);
                if session.is_sound() && !was_told(replies, session.state.bindings.guild_id) {
                    created_stays_sound(session.state, id, role_id);
                }
                if follow {
                    settling_follows(session, change, state, before, replies);
                }
            }
        },
        _ => {},
    }
}

/// Every step stays in step.
proof fn steps_stay_in_step(session: RoleSessionView, before: TrackedView, replies: RepliesView)
    requires
        session.is_under_way(),
        replies.len() > 0,
    ensures
        stays_in_step(session, session.after(replies.last().0, replies.last().1), before, replies),
{
    let (event, now) = replies.last();
    assert(replies[replies.len() - 1] == (event, now));
    match (session.phase, event) {
        (RolePhaseView::Opening, RoleEventView::Catalog(reply)) => {
            opening_stays_in_step(session, reply, before, replies);
        },
        (RolePhaseView::Ready, RoleEventView::Proceed) => {
            proceeding_stays_in_step(session, now, before, replies);
        },
        (RolePhaseView::Creating { change, .. }, RoleEventView::Created(reply)) => {
            creating_stays_in_step(session, change, reply, before, replies);
        },
        (RolePhaseView::Deleting { change, .. }, RoleEventView::Deleted(_)) => {
            deleting_stays_in_step(session, change, before, replies);
        },
        (
            RolePhaseView::CheckingDeletion { change, .. },
            RoleEventView::Catalog(ReplyView::Answered(catalog)),
        ) => {
            deleting_stays_in_step(RoleSessionView { catalog, ..session }, change, before, replies);
        },
        _ => {},
    }
}

/// A step leaves a sound state sound, and what is still to be made in step with it, so that
/// the next step and the next plan accept it. Discord gives no role that it creates the
/// identifier of the guild.
pub proof fn steps_keep_the_state_sound(session: RoleSessionView, event: RoleEventView, now: u64)
    requires
        session.is_sound(),
        event != RoleEventView::Created(
            ReplyView::Answered(RoleCreateOutcomeView::Created(session.state.bindings.guild_id)),
        ),
    ensures
        session.after(event, now).is_sound(),
{
    let replies = seq![(event, now)];
    steps_stay_in_step(session, session.state, replies);
    assert(!was_told(replies, session.state.bindings.guild_id));
}

proof fn releasing_keeps_others(session: RoleSessionView, lifecycle: Seq<LifecycleView>, i: int, id: Seq<char>)
    requires
        0 <= i <= lifecycle.len(),
        forall|k: int|
            i <= k < lifecycle.len() && (#[trigger] lifecycle[k]) is Release ==> lifecycle[k].logical_id() != id,
    ensures
        say_the_same(session.state, session.released(lifecycle, i).state, id),
        session.released(lifecycle, i).state.bindings == (StateView {
            roles: session.released(lifecycle, i).state.bindings.roles,
            ..session.state.bindings
        }),
    decreases lifecycle.len() - i,
{
    if i < lifecycle.len() {
        if lifecycle[i] is Release {
            released_is_recorded(session.state, lifecycle[i].logical_id());
            assert(say_the_same(session.state, state_released(session.state, lifecycle[i].logical_id()), id));
            releasing_keeps_others(released_one(session, lifecycle[i]), lifecycle, i + 1, id);
        } else {
            releasing_keeps_others(session, lifecycle, i + 1, id);
        }
    }
}

/// A step changes what is bound and recorded only of the role that was taken up, and at
/// the end of the roles that are released. Nothing else of the bindings changes at all.
pub proof fn steps_keep_other_bindings(session: RoleSessionView, event: RoleEventView, now: u64, id: Seq<char>)
    requires
        session.phase is Creating || session.phase is Deleting || session.phase is CheckingDeletion ==> id
            != session.current(),
        session.phase is Ready && session.done < session.desired.len() ==> id != session.current(),
        session.phase is Ready && session.done >= session.desired.len() ==> forall|k: int|
            0 <= k < session.pending.lifecycle.len() && (#[trigger] session.pending.lifecycle[k]) is Release
                ==> session.pending.lifecycle[k].logical_id() != id,
    ensures
        say_the_same(session.state, session.after(event, now).state, id),
        session.after(event, now).state.bindings.schema_version == session.state.bindings.schema_version,
        session.after(event, now).state.bindings.guild_id == session.state.bindings.guild_id,
        session.after(event, now).state.bindings.channels == session.state.bindings.channels,
        session.after(event, now).state.bindings.members == session.state.bindings.members,
{
    let current = session.current();
    let deleting = state_deleting(session.state, current);
    deleted_is_recorded(session.state, current);
    deleted_is_recorded(deleting, current);
    if session.phase is Ready && session.done >= session.desired.len() {
        releasing_keeps_others(session, session.pending.lifecycle, 0, id);
    }
    if id != current {
        asking_is_recorded(session.state, current, id);
        assert(say_the_same(session.state, state_deleted(session.state, current), id));
        assert(say_the_same(deleting, state_deleted(deleting, current), id));
    }
    match (session.phase, event) {
        (
            RolePhaseView::Creating { .. },
            RoleEventView::Created(ReplyView::Answered(RoleCreateOutcomeView::Created(role_id))),
        ) => {
            created_is_recorded(session.state, current, role_id);
            assert(say_the_same(session.state, state_created(session.state, current, role_id), id));
        },
        _ => {},
    }
}

/// What holds of a session after replies.
spec fn accounts_for_all(session: RoleSessionView, plan: RolePlanView) -> bool {
    session.was_replanned() || {
        &&& session.all_changes() == plan.changes.to_multiset()
        &&& session.all_lifecycle() == plan.lifecycle.to_multiset()
        &&& match session.phase {
            RolePhaseView::Opening => session.applied == RolePlanView::none() && session.pending == plan,
            RolePhaseView::Finished(_) | RolePhaseView::Broken(_) => true,
            _ => session.holds_each_once() && session.takes_up_pending(),
        }
    }
}

/// What holds of an application after replies.
proof fn applications_stay_in_step(
    definition: DefinitionView,
    state: TrackedView,
    plan: RolePlanView,
    lifecycle: Option<RoleApplyOptions>,
    deadline: u64,
    replies: RepliesView,
)
    requires
        sorted::<RoleLogicalId, RoleDefinitionView>(definition.roles),
        sorted::<RoleLogicalId, u64>(state.bindings.roles),
    ensures
        ({
            let end = new_session(definition, state, plan, lifecycle, deadline).after_all(replies);
            &&& end.is_under_way()
            &&& end.state.bindings.guild_id == state.bindings.guild_id
            &&& state.is_sound() && !was_told(replies, state.bindings.guild_id) ==> end.is_sound()
            &&& records_follow(end.applied.lifecycle, state, end.state, replies)
            &&& accounts_for_all(end, plan)
        }),
    decreases replies.len(),
{
    let start = new_session(definition, state, plan, lifecycle, deadline);
    if replies.len() > 0 {
        let (event, now) = replies.last();
        let before = replies.drop_last();
        let session = start.after_all(before);
        let end = session.after(event, now);
        applications_stay_in_step(definition, state, plan, lifecycle, deadline, before);
        if was_told(before, state.bindings.guild_id) {
            told_before(replies, state.bindings.guild_id);
        }
        replies_are_remembered(session.applied.lifecycle, state, session.state, replies);
        steps_stay_in_step(session, state, replies);
        step_accounts_for_all(session, event, now, plan);
    } else {
        broadcast use vstd::seq_lib::group_to_multiset_ensures;

        assert forall|id: Seq<char>| record_follows(
            #[trigger] lifecycle_of(start.applied.lifecycle, id),
            id,
            state,
            start.state,
            replies,
        ) by {}
        assert(start.all_changes() =~= plan.changes.to_multiset());
        assert(start.all_lifecycle() =~= plan.lifecycle.to_multiset());
    }
}

proof fn step_accounts_for_all(session: RoleSessionView, event: RoleEventView, now: u64, plan: RolePlanView)
    requires
        session.is_under_way(),
        accounts_for_all(session, plan),
    ensures
        accounts_for_all(session.after(event, now), plan),
{
    let after = session.after(event, now);
    if session.was_replanned() || after.was_replanned() {
    } else {
        let any = LifecycleView::Create { logical_id: everyone(), recreated: false };
        steps_account_for_the_plan(session, event, now, any);
        match session.phase {
            RolePhaseView::Opening => {
                if let RoleEventView::Catalog(reply) = event {
                    if after.phase is Ready {
                        accepted_plans_hold_each_lifecycle_change_once(session, reply, now);
                    }
                }
            },
            RolePhaseView::Finished(_) | RolePhaseView::Broken(_) => {},
            _ => {
                steps_hold_each_lifecycle_change_once(session, event, now);
            },
        }
    }
}

/// However an application goes, what was made and what is still to be made add up to the
/// plan: each change of attributes, and each creation, release and deletion. Only where
/// the plan was out of date, a new one takes its place and nothing was made.
pub proof fn applications_account_for_the_plan(
    definition: DefinitionView,
    state: TrackedView,
    plan: RolePlanView,
    lifecycle: Option<RoleApplyOptions>,
    deadline: u64,
    replies: RepliesView,
)
    requires
        sorted::<RoleLogicalId, RoleDefinitionView>(definition.roles),
        sorted::<RoleLogicalId, u64>(state.bindings.roles),
    ensures
        ({
            let end = new_session(definition, state, plan, lifecycle, deadline).after_all(replies);
            end.was_replanned() || (end.all_changes() == plan.changes.to_multiset() && end.all_lifecycle()
                == plan.lifecycle.to_multiset())
        }),
{
    applications_stay_in_step(definition, state, plan, lifecycle, deadline, replies);
}

/// However an application goes, what is bound and what is recorded as deleted changes only
/// as the creations, releases and deletions say that were made, and nothing else of the
/// bindings changes.
pub proof fn applications_bind_as_they_say(
    definition: DefinitionView,
    state: TrackedView,
    plan: RolePlanView,
    lifecycle: Option<RoleApplyOptions>,
    deadline: u64,
    replies: RepliesView,
    id: Seq<char>,
)
    requires
        sorted::<RoleLogicalId, RoleDefinitionView>(definition.roles),
        sorted::<RoleLogicalId, u64>(state.bindings.roles),
    ensures
        ({
            let end = new_session(definition, state, plan, lifecycle, deadline).after_all(replies);
            &&& record_follows(lifecycle_of(end.applied.lifecycle, id), id, state, end.state, replies)
            &&& end.state.bindings.schema_version == state.bindings.schema_version
            &&& end.state.bindings.guild_id == state.bindings.guild_id
            &&& end.state.bindings.channels == state.bindings.channels
            &&& end.state.bindings.members == state.bindings.members
        }),
{
    applications_stay_in_step(definition, state, plan, lifecycle, deadline, replies);
}

/// However an application goes, a sound state stays sound, so that it is accepted when it
/// is read again. Discord gives no role that it creates the identifier of the guild.
pub proof fn applications_keep_the_state_sound(
    definition: DefinitionView,
    state: TrackedView,
    plan: RolePlanView,
    lifecycle: Option<RoleApplyOptions>,
    deadline: u64,
    replies: RepliesView,
)
    requires
        sorted::<RoleLogicalId, RoleDefinitionView>(definition.roles),
        sorted::<RoleLogicalId, u64>(state.bindings.roles),
        state.is_sound(),
        !was_told(replies, state.bindings.guild_id),
    ensures
        ({
            let end = new_session(definition, state, plan, lifecycle, deadline).after_all(replies);
            &&& end.state.is_sound()
            &&& sorted::<RoleLogicalId, u64>(end.state.bindings.roles)
            &&& end.state.parsed_for_guild(state.bindings.guild_id) == Ok::<TrackedView, ErrorView>(end.state)
        }),
{
    applications_stay_in_step(definition, state, plan, lifecycle, deadline, replies);
    let end = new_session(definition, state, plan, lifecycle, deadline).after_all(replies);
    sound_tracked_states_are_accepted(end.state);
}

impl RoleSessionView {
    /// The place of the first role whose creation or deletion may still be to be made.
    pub open spec fn place(self) -> int {
        match self.phase {
            RolePhaseView::Attributes | RolePhaseView::Refreshing | RolePhaseView::Updating { .. }
            | RolePhaseView::CheckingUpdate { .. } => self.done + 1,
            _ => self.done,
        }
    }

    /// Whether a role is still to be taken up.
    pub open spec fn is_ahead(self, id: Seq<char>) -> bool {
        exists|k: int| self.place() <= k < self.desired.len() && (#[trigger] self.desired[k]).0 == id
    }

    /// Whether all roles are still to be taken up whose creation or deletion is still to be made.
    pub open spec fn has_the_rest_ahead(self) -> bool {
        &&& self.lifecycle is None ==> self.pending.lifecycle.len() == 0
        &&& forall|i: int|
            0 <= i < self.pending.lifecycle.len() && !((#[trigger] self.pending.lifecycle[i]) is Release)
                ==> self.is_ahead(self.pending.lifecycle[i].logical_id())
    }
}

proof fn declared_are_declared(
    plan: RolePlanView,
    i: int,
    definition: DefinitionView,
    state: TrackedView,
    catalog: RoleCatalogView,
)
    requires
        0 <= i <= definition.roles.len(),
        forall|k: int|
            0 <= k < plan.lifecycle.len() ==> has_key(definition.roles, (#[trigger] plan.lifecycle[k]).logical_id()),
        plan.after_roles(i, definition, state, catalog) is Ok,
    ensures
        ({
            let after = plan.after_roles(i, definition, state, catalog)->Ok_0.lifecycle;
            forall|k: int| 0 <= k < after.len() ==> has_key(definition.roles, (#[trigger] after[k]).logical_id())
        }),
    decreases definition.roles.len() - i,
{
    if i < definition.roles.len() {
        let (id, role) = definition.roles[i];
        let next = plan.after_role(id, role, definition, state, catalog)->Ok_0;
        entry_is_found(definition.roles, i);
        if next.lifecycle != plan.lifecycle {
            let change = next.lifecycle.last();
            assert(next.lifecycle == plan.lifecycle.push(change));
            assert(change.logical_id() == id);
            assert forall|k: int| 0 <= k < next.lifecycle.len() implies has_key(
                definition.roles,
                (#[trigger] next.lifecycle[k]).logical_id(),
            ) by {
                if k < plan.lifecycle.len() {
                    assert(has_key(definition.roles, plan.lifecycle[k].logical_id()));
                }
            }
        }
        declared_are_declared(next, i + 1, definition, state, catalog);
    }
}

proof fn the_rest_is_released(
    plan: RolePlanView,
    bound: MappingsView,
    i: int,
    declared: Seq<(Seq<char>, RoleDefinitionView)>,
)
    requires
        0 <= i <= bound.len(),
        forall|k: int|
            0 <= k < plan.lifecycle.len() && !((#[trigger] plan.lifecycle[k]) is Release) ==> has_key(
                declared,
                plan.lifecycle[k].logical_id(),
            ),
    ensures
        ({
            let after = plan.with_released(bound, i, declared).lifecycle;
            forall|k: int|
                0 <= k < after.len() && !((#[trigger] after[k]) is Release) ==> has_key(
                    declared,
                    after[k].logical_id(),
                )
        }),
    decreases bound.len() - i,
{
    if i < bound.len() {
        if bound[i].0 == everyone() || has_key(declared, bound[i].0) {
            the_rest_is_released(plan, bound, i + 1, declared);
        } else {
            let next = plan.with(LifecycleView::Release { logical_id: bound[i].0, discord_id: bound[i].1 });
            assert forall|k: int| 0 <= k < next.lifecycle.len() && !((#[trigger] next.lifecycle[k]) is Release) implies
                has_key(declared, next.lifecycle[k].logical_id()) by {
                assert(next.lifecycle[k] == plan.lifecycle[k]);
            }
            the_rest_is_released(next, bound, i + 1, declared);
        }
    }
}

proof fn opening_has_the_rest_ahead(session: RoleSessionView, reply: ReplyView<RoleCatalogView>)
    requires
        session.phase is Opening,
        session.opened(reply).phase is Ready,
    ensures
        session.opened(reply).has_the_rest_ahead(),
{
    let after = session.opened(reply);
    let definition = session.definition;
    let none = RolePlanView::none();
    let catalog = reply->Answered_0;
    declared_are_declared(none, 0, definition, session.state, catalog);
    let plan = none.after_roles(0, definition, session.state, catalog)->Ok_0;
    the_rest_is_released(plan, session.state.bindings.roles, 0, definition.roles);
    let pending = after.pending.lifecycle;
    assert forall|i: int| 0 <= i < pending.len() && !((#[trigger] pending[i]) is Release) implies after.is_ahead(
        pending[i].logical_id(),
    ) by {
        let k = lookup_has_entry(definition.roles, pending[i].logical_id());
        assert(after.desired[k].0 == pending[i].logical_id());
    }
}

/// The rest stays ahead when the role at the place is done.
proof fn next_has_the_rest_ahead(session: RoleSessionView, after: RoleSessionView)
    requires
        session.has_the_rest_ahead(),
        after.desired == session.desired,
        after.lifecycle == session.lifecycle,
        after.place() == session.place() + 1,
        forall|i: int|
            0 <= i < after.pending.lifecycle.len() ==> session.pending.lifecycle.contains(
                #[trigger] after.pending.lifecycle[i],
            ) && (after.pending.lifecycle[i] is Release || after.pending.lifecycle[i].logical_id()
                != session.desired[session.place()].0),
    ensures
        after.has_the_rest_ahead(),
{
    let pending = after.pending.lifecycle;
    if session.lifecycle is None && pending.len() > 0 {
        assert(session.pending.lifecycle.contains(pending[0]));
    }
    assert forall|i: int| 0 <= i < pending.len() && !((#[trigger] pending[i]) is Release) implies after.is_ahead(
        pending[i].logical_id(),
    ) by {
        let j = session.pending.lifecycle.index_of(pending[i]);
        assert(session.is_ahead(session.pending.lifecycle[j].logical_id()));
        let k = choose|k: int|
            session.place() <= k < session.desired.len() && (#[trigger] session.desired[k]).0
                == pending[i].logical_id();
        assert(after.desired[k].0 == pending[i].logical_id());
    }
}

proof fn settled_has_the_rest_ahead(session: RoleSessionView, done: LifecycleView, after: RoleSessionView)
    requires
        session.is_in_step(),
        session.has_the_rest_ahead(),
        session.pending.lifecycle.contains(done),
        done.logical_id() == session.desired[session.place()].0,
        after.desired == session.desired,
        after.lifecycle == session.lifecycle,
        after.place() == session.place() + 1,
        after.pending.lifecycle == lifecycle_besides(session.pending.lifecycle, done),
    ensures
        after.has_the_rest_ahead(),
{
    let pending = session.pending.lifecycle;
    besides_hold(pending, done);
    assert forall|i: int| 0 <= i < after.pending.lifecycle.len() implies pending.contains(
        #[trigger] after.pending.lifecycle[i],
    ) && (after.pending.lifecycle[i] is Release || after.pending.lifecycle[i].logical_id()
        != session.desired[session.place()].0) by {
        let change = after.pending.lifecycle[i];
        assert(after.pending.lifecycle.contains(change));
        the_only_one_is_found(pending, change);
        the_only_one_is_found(pending, done);
    }
    next_has_the_rest_ahead(session, after);
}

proof fn same_has_the_rest_ahead(session: RoleSessionView, after: RoleSessionView)
    requires
        session.has_the_rest_ahead(),
        after.desired == session.desired,
        after.lifecycle == session.lifecycle,
        after.pending.lifecycle == session.pending.lifecycle,
        after.place() == session.place(),
    ensures
        after.has_the_rest_ahead(),
{
    let pending = after.pending.lifecycle;
    assert forall|i: int| 0 <= i < pending.len() && !((#[trigger] pending[i]) is Release) implies after.is_ahead(
        pending[i].logical_id(),
    ) by {
        assert(session.is_ahead(session.pending.lifecycle[i].logical_id()));
        let k = choose|k: int|
            session.place() <= k < session.desired.len() && (#[trigger] session.desired[k]).0
                == pending[i].logical_id();
        assert(after.desired[k].0 == pending[i].logical_id());
    }
}

/// What is still to be made after releases was still to be made before, and is no release.
proof fn releases_are_made(session: RoleSessionView, lifecycle: Seq<LifecycleView>, i: int, change: LifecycleView)
    requires
        0 <= i <= lifecycle.len(),
        roles_differ(session.pending.lifecycle),
        session.released(lifecycle, i).pending.lifecycle.contains(change),
    ensures
        session.pending.lifecycle.contains(change),
        forall|k: int| i <= k < lifecycle.len() && (#[trigger] lifecycle[k]) is Release ==> lifecycle[k] != change,
    decreases lifecycle.len() - i,
{
    if i < lifecycle.len() {
        if lifecycle[i] is Release {
            besides_hold(session.pending.lifecycle, lifecycle[i]);
            releases_are_made(released_one(session, lifecycle[i]), lifecycle, i + 1, change);
        } else {
            releases_are_made(session, lifecycle, i + 1, change);
        }
    }
}

/// Whether the rest is ahead once the roles of the guild are known, and nothing is left
/// once the application is complete.
spec fn goes_on(session: RoleSessionView) -> bool {
    match session.phase {
        RolePhaseView::Opening => true,
        RolePhaseView::Broken(_) => true,
        RolePhaseView::Finished(status) => status is Complete ==> session.pending.lifecycle.len() == 0,
        _ => session.has_the_rest_ahead() && session.is_consistent(),
    }
}

proof fn proceeding_goes_on(session: RoleSessionView, now: u64)
    requires
        session.phase is Ready,
        session.is_in_step(),
        session.is_consistent(),
        session.has_the_rest_ahead(),
    ensures
        goes_on(session.proceeded(now)),
{
    let pending = session.pending.lifecycle;
    let after = session.proceeded(now);
    if session.done < session.desired.len() {
        let id = session.current();
        found_is_named(pending, id);
        let change = lifecycle_of(pending, id);
        if session.lifecycle is Some && change is Some && !(change->0 is Release) {
            let change = change->0;
            if after.phase is Creating || after.phase is Deleting {
                same_has_the_rest_ahead(session, after);
            } else if after.phase is Ready {
                settled_has_the_rest_ahead(session, change, after);
            }
        } else {
            assert forall|i: int| 0 <= i < pending.len() implies pending.contains(#[trigger] pending[i]) && (pending[i]
                is Release || pending[i].logical_id() != session.desired[session.place()].0) by {
                if pending[i].logical_id() == id {
                    the_only_one_is_found(pending, pending[i]);
                }
            }
            if after.phase is Ready || after.phase is Updating {
                next_has_the_rest_ahead(session, after);
            }
        }
    } else {
        releases_keep_place(session, pending, 0);
        if after.pending.lifecycle.len() > 0 {
            let left = after.pending.lifecycle[0];
            assert(after.pending.lifecycle.contains(left));
            if session.lifecycle is Some {
                releases_are_made(session, pending, 0, left);
            }
            let j = pending.index_of(left);
            assert(!(pending[j] is Release));
            assert(session.is_ahead(pending[j].logical_id()));
        }
    }
}

proof fn steps_go_on(session: RoleSessionView, event: RoleEventView, now: u64)
    requires
        session.is_under_way(),
        goes_on(session),
    ensures
        goes_on(session.after(event, now)),
{
    let after = session.after(event, now);
    match (session.phase, event) {
        (RolePhaseView::Opening, RoleEventView::Catalog(reply)) => {
            if after.phase is Ready {
                opening_has_the_rest_ahead(session, reply);
            }
        },
        (RolePhaseView::Ready, RoleEventView::Proceed) => {
            proceeding_goes_on(session, now);
        },
        (RolePhaseView::Creating { change, .. }, RoleEventView::Created(_)) => {
            if after.phase is Refreshing {
                settled_has_the_rest_ahead(session, change, after);
            }
        },
        (RolePhaseView::Deleting { change, .. }, RoleEventView::Deleted(_)) => {
            if after.phase is Refreshing {
                settled_has_the_rest_ahead(session, change, after);
            } else if after.phase is CheckingDeletion {
                same_has_the_rest_ahead(session, after);
            }
        },
        (RolePhaseView::CheckingDeletion { change, .. }, RoleEventView::Catalog(_)) => {
            if after.phase is Attributes {
                settled_has_the_rest_ahead(session, change, after);
            }
        },
        (RolePhaseView::Opening, _) => {},
        (RolePhaseView::Finished(_), _) => {},
        (RolePhaseView::Broken(_), _) => {},
        _ => {
            if !(after.phase is Finished || after.phase is Broken) {
                same_has_the_rest_ahead(session, after);
            }
        },
    }
}

proof fn applications_go_on(session: RoleSessionView, replies: RepliesView)
    requires
        session.phase is Opening,
        session.is_under_way(),
    ensures
        session.after_all(replies).is_under_way(),
        goes_on(session.after_all(replies)),
    decreases replies.len(),
{
    if replies.len() > 0 {
        let before = session.after_all(replies.drop_last());
        applications_go_on(session, replies.drop_last());
        steps_stay_in_step(before, before.state, replies);
        steps_go_on(before, replies.last().0, replies.last().1);
    }
}

/// An application that is complete has made every creation, release and deletion of the plan.
pub proof fn complete_applications_leave_nothing(
    definition: DefinitionView,
    state: TrackedView,
    plan: RolePlanView,
    lifecycle: Option<RoleApplyOptions>,
    deadline: u64,
    replies: RepliesView,
)
    requires
        sorted::<RoleLogicalId, RoleDefinitionView>(definition.roles),
        sorted::<RoleLogicalId, u64>(state.bindings.roles),
        new_session(definition, state, plan, lifecycle, deadline).after_all(replies).phase == RolePhaseView::Finished(
            RoleStatusView::Complete,
        ),
    ensures
        ({
            let end = new_session(definition, state, plan, lifecycle, deadline).after_all(replies);
            &&& end.pending.lifecycle.len() == 0
            &&& end.applied.lifecycle.to_multiset() == plan.lifecycle.to_multiset()
        }),
{
    broadcast use vstd::seq_lib::group_to_multiset_ensures;

    let start = new_session(definition, state, plan, lifecycle, deadline);
    let end = start.after_all(replies);
    applications_go_on(start, replies);
    applications_stay_in_step(definition, state, plan, lifecycle, deadline, replies);
    assert(end.pending.lifecycle.to_multiset() =~= vstd::multiset::Multiset::empty());
    assert(end.applied.lifecycle.to_multiset() =~= end.all_lifecycle());
}

} // verus!
