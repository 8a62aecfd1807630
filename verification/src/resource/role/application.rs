//! What holds of the application of a plan of roles as a whole, whatever was replied.

use vstd::prelude::*;

use crate::apply::{ApplyStatusView, ReplyView};
use crate::configuration::definition::DefinitionView;
use crate::configuration::state::StateView;
use crate::ids::{everyone, RoleLogicalId};
use crate::ordered::{
    lookup, lookup_has_entry, lookup_in_sorted, put_then_lookup, sorted, sorted_entries, without_then_lookup,
    OrderedKey,
};
use crate::port::RoleCreateOutcomeView;
use crate::resource::role::apply::{
    new_session, steps_account_for_the_plan, steps_keep_the_state_sound, RoleApplyOptions, RoleEventView, RolePhaseView,
    RoleSessionView,
};
use crate::resource::role::plan::{only_updates, ChangeView, PlanView};

verus! {

/// What a session was told, each with the time.
pub type RepliesView = Seq<(RoleEventView, u64)>;

impl RoleSessionView {
    /// The session after it was told all of this, from the first to the last.
    pub open spec fn after_all(self, replies: RepliesView) -> RoleSessionView
        decreases replies.len(),
    {
        if replies.len() == 0 {
            self
        } else {
            self.after_all(replies.drop_last()).after(replies.last().0, replies.last().1)
        }
    }

    /// Whether the plan was out of date: a new one stands in its place, and nothing was made.
    pub open spec fn was_replanned(self) -> bool {
        self.phase == RolePhaseView::Finished(ApplyStatusView::ReplanRequired) && self.applied == PlanView::none()
    }

    /// The name of the role whose change was asked for.
    spec fn asked_name(self) -> Option<Seq<char>> {
        match self.phase {
            RolePhaseView::Updating { logical_id, .. } => Some(logical_id),
            RolePhaseView::Creating { logical_id, .. } => Some(logical_id),
            RolePhaseView::Deleting { logical_id, .. } => Some(logical_id),
            _ => None,
        }
    }

    /// Whether the change that was asked for is still to be made.
    spec fn asks_for_pending(self) -> bool {
        match self.phase {
            RolePhaseView::Updating { logical_id, .. } => lookup(self.pending.changes, logical_id) is Some && lookup(
                self.pending.changes,
                logical_id,
            )->0 is Update,
            RolePhaseView::Creating { logical_id, .. } => lookup(self.pending.changes, logical_id) == Some(
                ChangeView::Create,
            ),
            RolePhaseView::Deleting { logical_id, .. } => lookup(self.pending.changes, logical_id) is Some && lookup(
                self.pending.changes,
                logical_id,
            )->0 is Delete,
            _ => true,
        }
    }

    /// Whether the changes that are still to be made are those that were not taken up yet,
    /// and the one that was asked for.
    spec fn is_in_step(self) -> bool {
        &&& 0 <= self.taken <= self.changes.len()
        &&& forall|i: int, j: int|
            0 <= i < j < self.changes.len() ==> (#[trigger] self.changes[i]).0 != (#[trigger] self.changes[j]).0
        &&& forall|k: int|
            self.taken <= k < self.changes.len() ==> lookup(self.pending.changes, (#[trigger] self.changes[k]).0)
                == Some(self.changes[k].1) && self.asked_name() != Some(self.changes[k].0)
        &&& forall|id: Seq<char>|
            (#[trigger] lookup(self.pending.changes, id)) is Some && self.asked_name() != Some(id)
                ==> exists|k: int| self.taken <= k < self.changes.len() && (#[trigger] self.changes[k]).0 == id
        &&& self.lifecycle is None ==> only_updates(self.changes) && self.pending.order is None
        &&& self.asks_for_pending()
        &&& self.phase is Moving || self.phase is CheckingOrder ==> self.taken == self.changes.len()
    }

    /// Whether no change is left to be made.
    pub open spec fn has_nothing_left(self) -> bool {
        forall|id: Seq<char>| (#[trigger] lookup(self.pending.changes, id)) is None
    }
}

/// Whether a reply said that something was created with an identifier.
pub open spec fn was_told(replies: RepliesView, id: u64) -> bool {
    exists|k: int|
        0 <= k < replies.len() && (#[trigger] replies[k]).0 == RoleEventView::Created(
            ReplyView::Answered(RoleCreateOutcomeView::Created(id)),
        )
}

/// Whether a name is bound as the change that was made says: as before where none was made
/// or only attributes changed, to what was created, or not at all once it was deleted or
/// released.
pub open spec fn binding_follows(
    made: Option<ChangeView>,
    before: Option<u64>,
    after: Option<u64>,
    replies: RepliesView,
) -> bool {
    match made {
        None => after == before,
        Some(ChangeView::Update { .. }) => after == before,
        Some(ChangeView::Create) => after is Some && was_told(replies, after->0),
        Some(_) => after is None,
    }
}

/// What holds of a session after replies.
spec fn follows(session: RoleSessionView, state: StateView, plan: PlanView, replies: RepliesView) -> bool {
    &&& session.state == StateView { roles: session.state.roles, ..state }
    &&& forall|id: Seq<char>|
        binding_follows(
            #[trigger] lookup(session.applied.changes, id),
            lookup(state.roles, id),
            lookup(session.state.roles, id),
            replies,
        )
    &&& session.was_replanned() || forall|id: Seq<char>| #[trigger] accounted(session, plan, id)
    &&& match session.phase {
        RolePhaseView::Opening => session.applied == PlanView::none() && session.pending == plan,
        RolePhaseView::Finished(status) => status == ApplyStatusView::Complete ==> session.has_nothing_left()
            && session.pending.order is None,
        RolePhaseView::Broken(_) => true,
        _ => session.is_in_step(),
    }
}

/// Whether the change of a name in a plan was made or is still to be made, and not both.
pub open spec fn accounted(session: RoleSessionView, plan: PlanView, id: Seq<char>) -> bool {
    session.accounts_for(id, lookup(plan.changes, id))
}

proof fn told_before(replies: RepliesView, id: u64)
    requires
        replies.len() > 0,
        was_told(replies.drop_last(), id),
    ensures
        was_told(replies, id),
{
    let before = replies.drop_last();
    let k = choose|k: int|
        0 <= k < before.len() && (#[trigger] before[k]).0 == RoleEventView::Created(
            ReplyView::Answered(RoleCreateOutcomeView::Created(id)),
        );
    assert(replies[k] == before[k]);
}

proof fn bindings_stay(
    session: RoleSessionView,
    after: RoleSessionView,
    state: StateView,
    plan: PlanView,
    replies: RepliesView,
)
    requires
        replies.len() > 0,
        follows(session, state, plan, replies.drop_last()),
        after.state == session.state,
        forall|id: Seq<char>|
            #[trigger] lookup(after.applied.changes, id) == lookup(session.applied.changes, id) || (lookup(
                session.applied.changes,
                id,
            ) is None && lookup(after.applied.changes, id) is Some && lookup(after.applied.changes, id)->0 is Update),
    ensures
        forall|id: Seq<char>|
            binding_follows(
                #[trigger] lookup(after.applied.changes, id),
                lookup(state.roles, id),
                lookup(after.state.roles, id),
                replies,
            ),
{
    assert forall|id: Seq<char>| binding_follows(
        #[trigger] lookup(after.applied.changes, id),
        lookup(state.roles, id),
        lookup(after.state.roles, id),
        replies,
    ) by {
        let made = lookup(session.applied.changes, id);
        assert(binding_follows(made, lookup(state.roles, id), lookup(session.state.roles, id), replies.drop_last()));
        if made == Some(ChangeView::Create) {
            told_before(replies, lookup(session.state.roles, id)->0);
        }
    }
}

/// After a change was made, the others are left, and the bindings follow.
proof fn marking_follows(
    session: RoleSessionView,
    ready: RoleSessionView,
    name: Seq<char>,
    state: StateView,
    plan: PlanView,
    replies: RepliesView,
)
    requires
        replies.len() > 0,
        follows(session, state, plan, replies.drop_last()),
        session.is_in_step(),
        !(session.phase is Finished),
        session.asked_name() is None || session.asked_name() == Some(name),
        lookup(session.pending.changes, name) is Some,
        forall|k: int| ready.taken <= k < session.changes.len() ==> (#[trigger] session.changes[k]).0 != name,
        session.asked_name() is None ==> session.taken < session.changes.len() && session.changes[session.taken].0
            == name && ready.taken == session.taken + 1,
        session.asked_name() is Some ==> ready.taken == session.taken,
        ready.changes == session.changes,
        ready.lifecycle == session.lifecycle,
        ready.applied == session.applied,
        ready.pending == session.pending,
        ready.state == (StateView { roles: ready.state.roles, ..session.state }),
        forall|id: Seq<char>| id != name ==> #[trigger] lookup(ready.state.roles, id) == lookup(session.state.roles, id),
        binding_follows(
            lookup(session.pending.changes, name),
            lookup(session.state.roles, name),
            lookup(ready.state.roles, name),
            replies,
        ),
    ensures
        ({
            let after = ready.marked(name);
            &&& after.state == (StateView { roles: after.state.roles, ..state })
            &&& forall|id: Seq<char>|
                binding_follows(
                    #[trigger] lookup(after.applied.changes, id),
                    lookup(state.roles, id),
                    lookup(after.state.roles, id),
                    replies,
                )
            &&& after.to(RolePhaseView::Ready).is_in_step()
        }),
{
    let after = ready.marked(name);
    let moved = lookup(session.pending.changes, name)->0;
    assert(accounted(session, plan, name));
    assert(lookup(session.applied.changes, name) is None);
    assert forall|id: Seq<char>| binding_follows(
        #[trigger] lookup(after.applied.changes, id),
        lookup(state.roles, id),
        lookup(after.state.roles, id),
        replies,
    ) by {
        put_then_lookup::<RoleLogicalId, ChangeView>(session.applied.changes, name, moved, id);
        let made = lookup(session.applied.changes, id);
        assert(binding_follows(made, lookup(state.roles, id), lookup(session.state.roles, id), replies.drop_last()));
        if id != name {
            assert(lookup(ready.state.roles, id) == lookup(session.state.roles, id));
            if made == Some(ChangeView::Create) {
                told_before(replies, lookup(session.state.roles, id)->0);
            }
        }
    }
    let stepped = after.to(RolePhaseView::Ready);
    assert forall|k: int| stepped.taken <= k < stepped.changes.len() implies lookup(
        stepped.pending.changes,
        (#[trigger] stepped.changes[k]).0,
    ) == Some(stepped.changes[k].1) && stepped.asked_name() != Some(stepped.changes[k].0) by {
        without_then_lookup(session.pending.changes, name, stepped.changes[k].0);
        assert(lookup(session.pending.changes, session.changes[k].0) == Some(session.changes[k].1));
    }
    assert forall|id: Seq<char>|
        (#[trigger] lookup(stepped.pending.changes, id)) is Some && stepped.asked_name() != Some(id) implies exists|k: int|
        stepped.taken <= k < stepped.changes.len() && (#[trigger] stepped.changes[k]).0 == id by {
        without_then_lookup(session.pending.changes, name, id);
        assert(lookup(session.pending.changes, id) is Some);
        let k = choose|k: int| session.taken <= k < session.changes.len() && (#[trigger] session.changes[k]).0 == id;
        assert(stepped.changes[k].0 == id);
    }
}

proof fn opening_is_in_step(session: RoleSessionView, plan: PlanView)
    requires
        sorted::<RoleLogicalId, ChangeView>(plan.changes),
        session.applied == PlanView::none(),
        session.pending == plan,
        session.taken == 0,
        session.changes == plan.changes,
        session.phase is Ready,
        session.lifecycle is None ==> only_updates(plan.changes) && session.pending.order is None,
    ensures
        session.is_in_step(),
{
    let changes = session.changes;
    assert forall|i: int, j: int| 0 <= i < j < changes.len() implies (#[trigger] changes[i]).0 != (
    #[trigger] changes[j]).0 by {
        sorted_entries::<RoleLogicalId, ChangeView>(changes, i, j);
        RoleLogicalId::order_is_total(changes[i].0, changes[j].0);
    }
    assert forall|k: int| 0 <= k < changes.len() implies lookup(plan.changes, (#[trigger] changes[k]).0) == Some(
        changes[k].1,
    ) by {
        lookup_in_sorted::<RoleLogicalId, ChangeView>(plan.changes, k);
    }
    assert forall|id: Seq<char>| (#[trigger] lookup(plan.changes, id)) is Some implies exists|k: int|
        0 <= k < changes.len() && (#[trigger] changes[k]).0 == id by {
        let k = lookup_has_entry(plan.changes, id);
        assert(changes[k].0 == id);
    }
}

proof fn proceeding_follows(session: RoleSessionView, state: StateView, plan: PlanView, replies: RepliesView)
    requires
        replies.len() > 0,
        follows(session, state, plan, replies.drop_last()),
        session.phase is Ready,
        replies.last().0 is Proceed,
    ensures
        ({
            let after = session.after(replies.last().0, replies.last().1);
            &&& after.state == (StateView { roles: after.state.roles, ..state })
            &&& forall|id: Seq<char>|
                binding_follows(
                    #[trigger] lookup(after.applied.changes, id),
                    lookup(state.roles, id),
                    lookup(after.state.roles, id),
                    replies,
                )
            &&& after.is_in_step() || after.phase is Finished || after.phase is Broken
            &&& after.phase == RolePhaseView::Finished(ApplyStatusView::Complete) ==> after.has_nothing_left()
                && after.pending.order is None
        }),
{
    bindings_stay(session, session, state, plan, replies);
    if session.taken < session.changes.len() {
        let (name, change) = session.changes[session.taken];
        let taken = RoleSessionView { taken: session.taken + 1, ..session };
        let unbound = RoleSessionView {
            state: StateView { roles: crate::ordered::without(taken.state.roles, name), ..taken.state },
            ..taken
        };
        assert(lookup(session.pending.changes, name) == Some(change));
        assert forall|k: int| taken.taken <= k < session.changes.len() implies (#[trigger] session.changes[k]).0
            != name by {
            assert(session.changes[session.taken].0 != session.changes[k].0);
        }
        if change is Delete || change is Release {
            assert forall|id: Seq<char>| #[trigger] lookup(unbound.state.roles, id) == (if id == name {
                None
            } else {
                lookup(session.state.roles, id)
            }) by {
                without_then_lookup(session.state.roles, name, id);
            }
            marking_follows(session, unbound, name, state, plan, replies);
        }
        assert forall|id: Seq<char>|
            (#[trigger] lookup(session.pending.changes, id)) is Some && id != name implies exists|k: int|
            taken.taken <= k < session.changes.len() && (#[trigger] session.changes[k]).0 == id by {
            let k = choose|k: int|
                session.taken <= k < session.changes.len() && (#[trigger] session.changes[k]).0 == id;
            assert(session.changes[k].0 == id);
        }
        if session.lifecycle is None {
            assert(session.changes[session.taken].1 is Update);
        }
    } else {
        assert forall|id: Seq<char>| (#[trigger] lookup(session.pending.changes, id)) is None by {}
    }
}

proof fn steps_follow(
    session: RoleSessionView,
    state: StateView,
    plan: PlanView,
    replies: RepliesView,
)
    requires
        replies.len() > 0,
        sorted::<RoleLogicalId, ChangeView>(plan.changes),
        follows(session, state, plan, replies.drop_last()),
    ensures
        follows(session.after(replies.last().0, replies.last().1), state, plan, replies),
{
    let (event, now) = replies.last();
    let after = session.after(event, now);
    bindings_stay(session, session, state, plan, replies);
    if !session.was_replanned() {
        assert forall|id: Seq<char>| !after.was_replanned() implies #[trigger] accounted(after, plan, id) by {
            assert(accounted(session, plan, id));
            steps_account_for_the_plan(session, event, now, id, lookup(plan.changes, id));
        }
    }
    match (session.phase, event) {
        (RolePhaseView::Opening, RoleEventView::Catalog(_)) => {
            if after.phase is Ready {
                opening_is_in_step(after, plan);
            }
        },
        (RolePhaseView::Ready, RoleEventView::Proceed) => {
            proceeding_follows(session, state, plan, replies);
        },
        (RolePhaseView::Updating { logical_id, .. }, RoleEventView::Updated(_)) => {
            assert(lookup(session.pending.changes, logical_id) is Some);
            marking_follows(session, session, logical_id, state, plan, replies);
        },
        (
            RolePhaseView::Creating { logical_id, .. },
            RoleEventView::Created(ReplyView::Answered(RoleCreateOutcomeView::Created(created))),
        ) => {
            let bound = RoleSessionView {
                state: StateView {
                    roles: crate::ordered::put::<RoleLogicalId, u64>(session.state.roles, logical_id, created),
                    ..session.state
                },
                ..session
            };
            assert forall|id: Seq<char>| #[trigger] lookup(bound.state.roles, id) == (if id == logical_id {
                Some(created)
            } else {
                lookup(session.state.roles, id)
            }) by {
                put_then_lookup::<RoleLogicalId, u64>(session.state.roles, logical_id, created, id);
            }
            assert(replies[replies.len() - 1].0 == event);
            assert(was_told(replies, created));
            marking_follows(session, bound, logical_id, state, plan, replies);
        },
        (RolePhaseView::Deleting { logical_id, .. }, RoleEventView::Deleted(_)) => {
            let unbound = RoleSessionView {
                state: StateView { roles: crate::ordered::without(session.state.roles, logical_id), ..session.state },
                ..session
            };
            assert forall|id: Seq<char>| #[trigger] lookup(unbound.state.roles, id) == (if id == logical_id {
                None
            } else {
                lookup(session.state.roles, id)
            }) by {
                without_then_lookup(session.state.roles, logical_id, id);
            }
            marking_follows(session, unbound, logical_id, state, plan, replies);
        },
        _ => {},
    }
}

proof fn applications_follow(
    input: (DefinitionView, StateView),
    plan: PlanView,
    lifecycle: Option<RoleApplyOptions>,
    acquired: bool,
    now: u64,
    deadline: u64,
    replies: RepliesView,
)
    requires
        sorted::<RoleLogicalId, ChangeView>(plan.changes),
    ensures
        follows(
            new_session(input, plan, lifecycle, acquired, now, deadline).after_all(replies),
            input.1,
            plan,
            replies,
        ),
    decreases replies.len(),
{
    let start = new_session(input, plan, lifecycle, acquired, now, deadline);
    if replies.len() > 0 {
        let before = replies.drop_last();
        applications_follow(input, plan, lifecycle, acquired, now, deadline, before);
        steps_follow(start.after_all(before), input.1, plan, replies);
    }
}

/// However an application goes, what was made and what is still to be made add up to the
/// plan, each change once; only where the plan is out of date, nothing is made and a new
/// plan stands in its place. An application that is complete leaves no change.
pub proof fn applications_account_for_the_plan(
    input: (DefinitionView, StateView),
    plan: PlanView,
    lifecycle: Option<RoleApplyOptions>,
    acquired: bool,
    now: u64,
    deadline: u64,
    replies: RepliesView,
    id: Seq<char>,
)
    requires
        sorted::<RoleLogicalId, ChangeView>(plan.changes),
    ensures
        ({
            let end = new_session(input, plan, lifecycle, acquired, now, deadline).after_all(replies);
            &&& end.was_replanned() || end.accounts_for(id, lookup(plan.changes, id))
            &&& end.phase == RolePhaseView::Finished(ApplyStatusView::Complete) ==> end.has_nothing_left()
                && end.pending.order is None
                && lookup(end.applied.changes, id) == lookup(plan.changes, id)
        }),
{
    let end = new_session(input, plan, lifecycle, acquired, now, deadline).after_all(replies);
    applications_follow(input, plan, lifecycle, acquired, now, deadline, replies);
    assert(end.was_replanned() || accounted(end, plan, id));
    if end.phase == RolePhaseView::Finished(ApplyStatusView::Complete) {
        assert(lookup(end.pending.changes, id) is None);
        assert(accounted(end, plan, id));
    }
}

/// However an application goes, the bindings of the state change only as the changes say
/// that were made, and nothing else of the state changes.
pub proof fn applications_bind_as_they_say(
    input: (DefinitionView, StateView),
    plan: PlanView,
    lifecycle: Option<RoleApplyOptions>,
    acquired: bool,
    now: u64,
    deadline: u64,
    replies: RepliesView,
    id: Seq<char>,
)
    requires
        sorted::<RoleLogicalId, ChangeView>(plan.changes),
    ensures
        ({
            let end = new_session(input, plan, lifecycle, acquired, now, deadline).after_all(replies);
            &&& binding_follows(
                lookup(end.applied.changes, id),
                lookup(input.1.roles, id),
                lookup(end.state.roles, id),
                replies,
            )
            &&& end.state.schema_version == input.1.schema_version
            &&& end.state.guild_id == input.1.guild_id
            &&& end.state.channels == input.1.channels
            &&& end.state.members == input.1.members
        }),
{
    let end = new_session(input, plan, lifecycle, acquired, now, deadline).after_all(replies);
    applications_follow(input, plan, lifecycle, acquired, now, deadline, replies);
    assert(binding_follows(
        lookup(end.applied.changes, id),
        lookup(input.1.roles, id),
        lookup(end.state.roles, id),
        replies,
    ));
}

/// However an application goes, a sound state stays sound. Discord gives no role that it
/// creates the identifier of the guild, and no plan creates the role that every member has.
pub proof fn applications_keep_the_state_sound(
    input: (DefinitionView, StateView),
    plan: PlanView,
    lifecycle: Option<RoleApplyOptions>,
    acquired: bool,
    now: u64,
    deadline: u64,
    replies: RepliesView,
)
    requires
        sorted::<RoleLogicalId, ChangeView>(plan.changes),
        input.1.is_sound(),
        sorted::<RoleLogicalId, u64>(input.1.roles),
        lookup(plan.changes, everyone()) != Some(ChangeView::Create),
        !was_told(replies, input.1.guild_id),
    ensures
        ({
            let end = new_session(input, plan, lifecycle, acquired, now, deadline).after_all(replies);
            &&& end.state.is_sound()
            &&& sorted::<RoleLogicalId, u64>(end.state.roles)
        }),
    decreases replies.len(),
{
    let start = new_session(input, plan, lifecycle, acquired, now, deadline);
    if replies.len() > 0 {
        let before = replies.drop_last();
        let session = start.after_all(before);
        if was_told(before, input.1.guild_id) {
            told_before(replies, input.1.guild_id);
        }
        applications_keep_the_state_sound(input, plan, lifecycle, acquired, now, deadline, before);
        applications_follow(input, plan, lifecycle, acquired, now, deadline, before);
        assert(replies[replies.len() - 1].0 == replies.last().0);
        if session.phase is Creating {
            assert(accounted(session, plan, everyone()));
        }
        steps_keep_the_state_sound(session, replies.last().0, replies.last().1);
    }
}

} // verus!
