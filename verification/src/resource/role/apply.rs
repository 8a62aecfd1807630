//! Applying a plan of changes of roles, one change at a time.
//!
//! A session decides what to ask of Discord next, and what a reply means. Whoever
//! runs it does what [`RoleApplySession::action`] says and hands the reply to
//! [`RoleApplySession::step`], until the action is to finish.

use vstd::prelude::*;

use crate::apply::{refresh_deadline, refresh_until, ApplyStatusView, Reply, ReplyView};
use crate::configuration::definition::{DefinitionFile, DefinitionView};
use crate::configuration::input::PlanInput;
use crate::configuration::state::{
    bound_role_keeps_sound, holder, serialize_state, state_text, unbound_role_keeps_sound, StateFile, StateView,
};
use crate::domain::{ErrorView, ManagementError};
use crate::export::role::find_name;
use crate::ids::{everyone, RoleId, RoleLogicalId};
use crate::ordered::{
    lookup, put, put_keeps_sorted, put_then_lookup, sorted, without, without_keeps_sorted, without_then_lookup,
};
use crate::port::{
    RoleCatalog, RoleCatalogView, RoleCreate, RoleCreateOutcome, RoleCreateOutcomeView, RoleCreateView,
    RoleDeleteOutcome, RolePositionUpdate, RolePositionUpdateOutcome, RolePositionUpdateView, RoleSnapshot,
    RoleSnapshotView, RoleUpdate, RoleUpdateOutcome, RoleUpdateView,
};
use crate::resource::role::order::{
    build_order_plan, find_first_role, first_role_with_id, ordered_role_ids, role_order, role_order_plan, OrderPlan,
    OrderPlanView,
};
use crate::resource::role::plan::{
    build_plan, has_deletion, only_updates, role_plan, Change, ChangeView, Plan, PlanView,
};
use crate::text::{decimal, text3, text5};
use crate::value::{seen, Plain};

verus! {

/// What an application of a plan may do.
#[derive(Clone, Copy, Debug, PartialEq, Eq, Structural)]
pub struct RoleApplyOptions {
    pub allow_deletions: bool,
}

impl Default for RoleApplyOptions {
    fn default() -> (options: Self)
        ensures
            !options.allow_deletions,
    {
        RoleApplyOptions { allow_deletions: false }
    }
}

/// How an application of a plan ended.
#[derive(Clone, Debug)]
pub enum RoleApplyStatus {
    Complete,
    GuildBusy,
    ReplanRequired,
    DeadlineExceeded,
    DeletionPermissionRequired,
    DeletionPermissionDenied(String),
    CreationResponseUnknown,
    DeletionResponseUnknown,
    Failed(String),
    ResponseUnknown,
}

impl DeepView for RoleApplyStatus {
    type V = ApplyStatusView;

    open spec fn deep_view(&self) -> ApplyStatusView {
        match self {
            RoleApplyStatus::Complete => ApplyStatusView::Complete,
            RoleApplyStatus::GuildBusy => ApplyStatusView::GuildBusy,
            RoleApplyStatus::ReplanRequired => ApplyStatusView::ReplanRequired,
            RoleApplyStatus::DeadlineExceeded => ApplyStatusView::DeadlineExceeded,
            RoleApplyStatus::DeletionPermissionRequired => ApplyStatusView::DeletionPermissionRequired,
            RoleApplyStatus::DeletionPermissionDenied(text) => ApplyStatusView::DeletionPermissionDenied(text@),
            RoleApplyStatus::CreationResponseUnknown => ApplyStatusView::CreationResponseUnknown,
            RoleApplyStatus::DeletionResponseUnknown => ApplyStatusView::DeletionResponseUnknown,
            RoleApplyStatus::Failed(text) => ApplyStatusView::Failed(text@),
            RoleApplyStatus::ResponseUnknown => ApplyStatusView::ResponseUnknown,
        }
    }
}

/// What came of applying a plan.
pub struct RoleApplyResult {
    pub status: RoleApplyStatus,
    pub applied: Plan,
    pub pending: Plan,
    pub state_json: String,
}

/// What the result of applying a plan holds.
pub struct RoleApplyResultView {
    pub status: ApplyStatusView,
    pub applied: PlanView,
    pub pending: PlanView,
    pub state_json: Seq<char>,
}

impl DeepView for RoleApplyResult {
    type V = RoleApplyResultView;

    open spec fn deep_view(&self) -> RoleApplyResultView {
        RoleApplyResultView {
            status: self.status.deep_view(),
            applied: self.applied.deep_view(),
            pending: self.pending.deep_view(),
            state_json: self.state_json@,
        }
    }
}

/// What a session waits for.
pub enum RolePhase {
    /// For the roles of the guild, before anything is changed.
    Opening,
    /// To go on with the next change.
    Ready,
    /// For the reply to an update.
    Updating { logical_id: RoleLogicalId, role_id: RoleId, update: RoleUpdate },
    /// For the roles after an update.
    CheckingUpdate { logical_id: RoleLogicalId, role_id: RoleId, update: RoleUpdate },
    /// For the reply to a creation.
    Creating { logical_id: RoleLogicalId, create: RoleCreate },
    /// For the reply to a deletion.
    Deleting { logical_id: RoleLogicalId, role_id: RoleId },
    /// For the roles after a creation or a deletion.
    Refreshing,
    /// For the reply to a new order.
    Moving { order: OrderPlan },
    /// For the roles after a new order.
    CheckingOrder { order: OrderPlan, error: Option<String> },
    /// For nothing: the application has ended.
    Finished(RoleApplyStatus),
    /// For nothing: the application has failed without a result.
    Broken(ManagementError),
}

/// What a session waits for.
pub enum RolePhaseView {
    Opening,
    Ready,
    Updating { logical_id: Seq<char>, role_id: u64, update: RoleUpdateView },
    CheckingUpdate { logical_id: Seq<char>, role_id: u64, update: RoleUpdateView },
    Creating { logical_id: Seq<char>, create: RoleCreateView },
    Deleting { logical_id: Seq<char>, role_id: u64 },
    Refreshing,
    Moving { order: OrderPlanView },
    CheckingOrder { order: OrderPlanView, error: Option<Seq<char>> },
    Finished(ApplyStatusView),
    Broken(ErrorView),
}

impl DeepView for RolePhase {
    type V = RolePhaseView;

    open spec fn deep_view(&self) -> RolePhaseView {
        match self {
            RolePhase::Opening => RolePhaseView::Opening,
            RolePhase::Ready => RolePhaseView::Ready,
            RolePhase::Updating { logical_id, role_id, update } => RolePhaseView::Updating {
                logical_id: logical_id.deep_view(),
                role_id: role_id.deep_view(),
                update: update.deep_view(),
            },
            RolePhase::CheckingUpdate { logical_id, role_id, update } => RolePhaseView::CheckingUpdate {
                logical_id: logical_id.deep_view(),
                role_id: role_id.deep_view(),
                update: update.deep_view(),
            },
            RolePhase::Creating { logical_id, create } => RolePhaseView::Creating {
                logical_id: logical_id.deep_view(),
                create: create.deep_view(),
            },
            RolePhase::Deleting { logical_id, role_id } => RolePhaseView::Deleting {
                logical_id: logical_id.deep_view(),
                role_id: role_id.deep_view(),
            },
            RolePhase::Refreshing => RolePhaseView::Refreshing,
            RolePhase::Moving { order } => RolePhaseView::Moving { order: order.deep_view() },
            RolePhase::CheckingOrder { order, error } => RolePhaseView::CheckingOrder {
                order: order.deep_view(),
                error: error.deep_view(),
            },
            RolePhase::Finished(status) => RolePhaseView::Finished(status.deep_view()),
            RolePhase::Broken(error) => RolePhaseView::Broken(error.deep_view()),
        }
    }
}

/// What a session is told.
pub enum RoleEvent {
    Proceed,
    Updated(Reply<RoleUpdateOutcome>),
    Created(Reply<RoleCreateOutcome>),
    Deleted(Reply<RoleDeleteOutcome>),
    Moved(Reply<RolePositionUpdateOutcome>),
    Catalog(Reply<RoleCatalog>),
}

/// What a session is told.
pub enum RoleEventView {
    Proceed,
    Updated(ReplyView<RoleUpdateOutcome>),
    Created(ReplyView<RoleCreateOutcomeView>),
    Deleted(ReplyView<RoleDeleteOutcome>),
    Moved(ReplyView<RolePositionUpdateOutcome>),
    Catalog(ReplyView<RoleCatalogView>),
}

impl DeepView for RoleEvent {
    type V = RoleEventView;

    open spec fn deep_view(&self) -> RoleEventView {
        match self {
            RoleEvent::Proceed => RoleEventView::Proceed,
            RoleEvent::Updated(reply) => RoleEventView::Updated(reply.deep_view()),
            RoleEvent::Created(reply) => RoleEventView::Created(reply.deep_view()),
            RoleEvent::Deleted(reply) => RoleEventView::Deleted(reply.deep_view()),
            RoleEvent::Moved(reply) => RoleEventView::Moved(reply.deep_view()),
            RoleEvent::Catalog(reply) => RoleEventView::Catalog(reply.deep_view()),
        }
    }
}

/// What a session asks for, and until when a reply counts.
pub enum RoleAction {
    Proceed,
    Update { role_id: RoleId, update: RoleUpdate, until: u64 },
    Create { create: RoleCreate, until: u64 },
    Delete { role_id: RoleId, until: u64 },
    Move { updates: Vec<RolePositionUpdate>, until: u64 },
    ReadCatalog { until: u64 },
    Finish,
}

/// What a session asks for.
pub enum RoleActionView {
    Proceed,
    Update { role_id: u64, update: RoleUpdateView, until: u64 },
    Create { create: RoleCreateView, until: u64 },
    Delete { role_id: u64, until: u64 },
    Move { updates: Seq<RolePositionUpdateView>, until: u64 },
    ReadCatalog { until: u64 },
    Finish,
}

impl DeepView for RoleAction {
    type V = RoleActionView;

    open spec fn deep_view(&self) -> RoleActionView {
        match self {
            RoleAction::Proceed => RoleActionView::Proceed,
            RoleAction::Update { role_id, update, until } => RoleActionView::Update {
                role_id: role_id.deep_view(),
                update: update.deep_view(),
                until: *until,
            },
            RoleAction::Create { create, until } => RoleActionView::Create {
                create: create.deep_view(),
                until: *until,
            },
            RoleAction::Delete { role_id, until } => RoleActionView::Delete {
                role_id: role_id.deep_view(),
                until: *until,
            },
            RoleAction::Move { updates, until } => RoleActionView::Move {
                updates: updates.deep_view(),
                until: *until,
            },
            RoleAction::ReadCatalog { until } => RoleActionView::ReadCatalog { until: *until },
            RoleAction::Finish => RoleActionView::Finish,
        }
    }
}

/// An application of a plan that is under way.
pub struct RoleApplySession {
    pub definition: DefinitionFile,
    pub state: StateFile,
    pub catalog: RoleCatalog,
    pub applied: Plan,
    pub pending: Plan,
    /// The changes of the plan, in the order in which they are made.
    pub changes: Vec<(RoleLogicalId, Change)>,
    /// How many changes were taken up.
    pub taken: usize,
    /// What is allowed, or `None` where only attributes may change.
    pub lifecycle: Option<RoleApplyOptions>,
    pub deadline: u64,
    pub phase: RolePhase,
}

/// What a session holds.
pub struct RoleSessionView {
    pub definition: DefinitionView,
    pub state: StateView,
    pub catalog: RoleCatalogView,
    pub applied: PlanView,
    pub pending: PlanView,
    pub changes: Seq<(Seq<char>, ChangeView)>,
    pub taken: int,
    pub lifecycle: Option<RoleApplyOptions>,
    pub deadline: u64,
    pub phase: RolePhaseView,
}

impl DeepView for RoleApplySession {
    type V = RoleSessionView;

    open spec fn deep_view(&self) -> RoleSessionView {
        RoleSessionView {
            definition: self.definition.deep_view(),
            state: self.state.deep_view(),
            catalog: self.catalog.deep_view(),
            applied: self.applied.deep_view(),
            pending: self.pending.deep_view(),
            changes: self.changes.deep_view(),
            taken: self.taken as int,
            lifecycle: self.lifecycle,
            deadline: self.deadline,
            phase: self.phase.deep_view(),
        }
    }
}

/// Whether a role has the values that an update asks for.
pub open spec fn has_values(role: RoleSnapshotView, update: RoleUpdateView) -> bool {
    &&& update.name is Some ==> role.name == update.name->0
    &&& update.color is Some ==> role.color == update.color->0
    &&& update.hoist is Some ==> role.hoist == update.hoist->0
    &&& update.mentionable is Some ==> role.mentionable == update.mentionable->0
    &&& update.permissions is Some ==> role.permissions == update.permissions->0
}

/// Whether a role has the values that an update asks for.
pub fn role_matches_update(role: &RoleSnapshot, update: &RoleUpdate) -> (answer: bool)
    ensures
        answer == has_values(role.deep_view(), update.deep_view()),
{
    let name: bool = match &update.name {
        Some(name) => role.name.same(name),
        None => true,
    };
    let color: bool = match &update.color {
        Some(color) => role.color.same(color),
        None => true,
    };
    let hoist: bool = match update.hoist {
        Some(hoist) => role.hoist == hoist,
        None => true,
    };
    let mentionable: bool = match update.mentionable {
        Some(mentionable) => role.mentionable == mentionable,
        None => true,
    };
    let permissions: bool = match &update.permissions {
        Some(permissions) => role.permissions.same(permissions),
        None => true,
    };
    name && color && hoist && mentionable && permissions
}

impl RoleSessionView {
    /// The session in another phase.
    pub open spec fn to(self, phase: RolePhaseView) -> RoleSessionView {
        RoleSessionView { phase, ..self }
    }

    /// The session, ended.
    pub open spec fn finished(self, status: ApplyStatusView) -> RoleSessionView {
        self.to(RolePhaseView::Finished(status))
    }

    /// The session after an error: with a result that says so, or without one
    /// where only attributes may change.
    pub open spec fn failed(self, error: ErrorView) -> RoleSessionView {
        if self.lifecycle is Some {
            self.finished(ApplyStatusView::Failed(error.chars()))
        } else {
            self.to(RolePhaseView::Broken(error))
        }
    }

    /// The session after a change was made.
    pub open spec fn marked(self, id: Seq<char>) -> RoleSessionView {
        match lookup(self.pending.changes, id) {
            None => self,
            Some(change) => RoleSessionView {
                applied: PlanView {
                    changes: put::<RoleLogicalId, ChangeView>(self.applied.changes, id, change),
                    create_desired: match lookup(self.pending.create_desired, id) {
                        Some(desired) => put::<RoleLogicalId, RoleCreateView>(
                            self.applied.create_desired,
                            id,
                            desired,
                        ),
                        None => self.applied.create_desired,
                    },
                    order: self.applied.order,
                },
                pending: self.pending.without(id),
                ..self
            },
        }
    }

    /// The session after a name was unbound and its change was made.
    pub open spec fn unbound(self, id: Seq<char>) -> RoleSessionView {
        RoleSessionView { state: StateView { roles: without(self.state.roles, id), ..self.state }, ..self }.marked(id)
    }

    /// The session after a name was bound and its change was made.
    pub open spec fn bound(self, id: Seq<char>, role_id: u64) -> RoleSessionView {
        RoleSessionView {
            state: StateView { roles: put::<RoleLogicalId, u64>(self.state.roles, id, role_id), ..self.state },
            ..self
        }.marked(id)
    }

    /// The session after the order was made.
    pub open spec fn ordered(self) -> RoleSessionView {
        RoleSessionView {
            applied: PlanView { order: self.pending.order, ..self.applied },
            pending: PlanView { order: None, ..self.pending },
            ..self
        }.finished(ApplyStatusView::Complete)
    }

    /// The session with another order that is still to be made.
    pub open spec fn with_order(self, order: Option<OrderPlanView>) -> RoleSessionView {
        RoleSessionView { pending: PlanView { order, ..self.pending }, ..self }
    }

    /// The session once it is known what roles there are.
    pub open spec fn opened(self, reply: ReplyView<RoleCatalogView>) -> RoleSessionView {
        match reply {
            ReplyView::Refused(error) => self.finished(ApplyStatusView::Failed(error.chars())),
            ReplyView::TimedOut => self.finished(ApplyStatusView::DeadlineExceeded),
            ReplyView::Answered(catalog) => match role_plan(self.definition, self.state, catalog) {
                Err(error) => self.to(RolePhaseView::Broken(error)),
                Ok(plan) => if plan != self.pending {
                    RoleSessionView { pending: plan, ..self }.finished(ApplyStatusView::ReplanRequired)
                } else {
                    let opened = RoleSessionView { catalog, changes: plan.changes, taken: 0, ..self };
                    match self.lifecycle {
                        None => if plan.order is Some {
                            opened.to(RolePhaseView::Broken(order_not_allowed()))
                        } else if !only_updates(plan.changes) {
                            opened.to(RolePhaseView::Broken(lifecycle_not_allowed()))
                        } else {
                            opened.to(RolePhaseView::Ready)
                        },
                        Some(options) => if !options.allow_deletions && has_deletion(plan.changes) {
                            opened.finished(ApplyStatusView::DeletionPermissionRequired)
                        } else {
                            opened.to(RolePhaseView::Ready)
                        },
                    }
                },
            },
        }
    }

    /// The session after it took up a change of attributes.
    pub open spec fn taken_update(
        self,
        id: Seq<char>,
        role_id: u64,
        attributes: crate::resource::role::attributes::AttributeChangesView,
        now: u64,
    ) -> RoleSessionView {
        let pending = lookup(self.pending.changes, id);
        if pending is None || !(pending->0 is Update) {
            self
        } else if now >= self.deadline {
            self.finished(ApplyStatusView::DeadlineExceeded)
        } else {
            match first_role_with_id(self.catalog.roles, role_id) {
                None => self.failed(
                    ErrorView::InvalidState(
                        "Role "@ + id + " の Snowflake "@ + decimal(role_id as nat)
                            + " が Guild に存在しません"@,
                    ),
                ),
                Some(actual) => self.to(
                    RolePhaseView::Updating {
                        logical_id: id,
                        role_id,
                        update: attributes.update(actual.permissions),
                    },
                ),
            }
        }
    }

    /// The session after it took up a creation.
    pub open spec fn taken_create(self, id: Seq<char>, now: u64) -> RoleSessionView {
        if now >= self.deadline {
            self.finished(ApplyStatusView::DeadlineExceeded)
        } else {
            match lookup(self.pending.create_desired, id) {
                None => self.finished(
                    ApplyStatusView::Failed(
                        ErrorView::InvalidState(
                            "作成対象 Role "@ + id + " の payload が plan にありません"@,
                        ).chars(),
                    ),
                ),
                Some(create) => self.to(RolePhaseView::Creating { logical_id: id, create }),
            }
        }
    }

    /// The session after it took up a deletion.
    pub open spec fn taken_delete(self, id: Seq<char>, role_id: u64, now: u64) -> RoleSessionView {
        if !self.lifecycle->0.allow_deletions {
            self.finished(ApplyStatusView::DeletionPermissionRequired)
        } else if now >= self.deadline {
            self.finished(ApplyStatusView::DeadlineExceeded)
        } else if first_role_with_id(self.catalog.roles, role_id) is None {
            self.unbound(id)
        } else {
            self.to(RolePhaseView::Deleting { logical_id: id, role_id })
        }
    }

    /// The session after it took up the order.
    pub open spec fn taken_order(self, now: u64) -> RoleSessionView {
        match role_order_plan(self.definition, self.state, self.catalog) {
            Err(error) => self.to(RolePhaseView::Broken(error)),
            Ok(None) => self.ordered(),
            Ok(Some(order)) => if order.updates.len() == 0 {
                if order.expected_order.len() == 0 {
                    self.with_order(Some(order)).finished(ApplyStatusView::ReplanRequired)
                } else {
                    self.ordered()
                }
            } else if now >= self.deadline {
                self.finished(ApplyStatusView::DeadlineExceeded)
            } else {
                self.to(RolePhaseView::Moving { order })
            },
        }
    }

    /// The session after it went on.
    pub open spec fn proceeded(self, now: u64) -> RoleSessionView {
        if self.taken < self.changes.len() {
            let (id, change) = self.changes[self.taken];
            let session = RoleSessionView { taken: self.taken + 1, ..self };
            if self.lifecycle is None && !(change is Update) {
                session
            } else {
                match change {
                    ChangeView::Update { discord_id, attributes } => session.taken_update(
                        id,
                        discord_id,
                        attributes,
                        now,
                    ),
                    ChangeView::Create => session.taken_create(id, now),
                    ChangeView::Delete { discord_id } => session.taken_delete(id, discord_id, now),
                    ChangeView::Release { .. } => session.unbound(id),
                }
            }
        } else if self.lifecycle is Some && self.pending.order is Some {
            self.taken_order(now)
        } else {
            self.finished(ApplyStatusView::Complete)
        }
    }

    /// The session after the reply to an update.
    pub open spec fn updated(
        self,
        id: Seq<char>,
        role_id: u64,
        update: RoleUpdateView,
        reply: ReplyView<RoleUpdateOutcome>,
    ) -> RoleSessionView {
        match reply {
            ReplyView::Refused(error) => self.finished(ApplyStatusView::Failed(error.chars())),
            ReplyView::Answered(RoleUpdateOutcome::Applied) => self.marked(id).to(
                RolePhaseView::CheckingUpdate { logical_id: id, role_id, update },
            ),
            _ => self.finished(ApplyStatusView::ResponseUnknown),
        }
    }

    /// The session after the reply to a creation.
    pub open spec fn created(self, id: Seq<char>, reply: ReplyView<RoleCreateOutcomeView>) -> RoleSessionView {
        match reply {
            ReplyView::Refused(error) => self.finished(ApplyStatusView::Failed(error.chars())),
            ReplyView::Answered(RoleCreateOutcomeView::Created(role_id)) => if holder(self.state.roles, role_id)
                is Some {
                self.finished(
                    ApplyStatusView::Failed(
                        "新しく作成した Role "@ + decimal(role_id as nat) + " は既存の対応と衝突しています"@,
                    ),
                )
            } else {
                self.bound(id, role_id).to(RolePhaseView::Refreshing)
            },
            _ => self.finished(ApplyStatusView::CreationResponseUnknown),
        }
    }

    /// The session after the reply to a deletion.
    pub open spec fn deleted(self, id: Seq<char>, reply: ReplyView<RoleDeleteOutcome>) -> RoleSessionView {
        match reply {
            ReplyView::Refused(ErrorView::RolePermissionDenied(message)) => self.finished(
                ApplyStatusView::DeletionPermissionDenied(message),
            ),
            ReplyView::Refused(error) => self.finished(ApplyStatusView::Failed(error.chars())),
            ReplyView::Answered(RoleDeleteOutcome::Deleted) => self.unbound(id).to(RolePhaseView::Refreshing),
            _ => self.finished(ApplyStatusView::DeletionResponseUnknown),
        }
    }

    /// The session after the reply to a new order. A refused order may have been
    /// made in part, so the roles are read in any case.
    pub open spec fn moved(self, order: OrderPlanView, reply: ReplyView<RolePositionUpdateOutcome>) -> RoleSessionView {
        self.to(
            RolePhaseView::CheckingOrder {
                order,
                error: match reply {
                    ReplyView::Refused(error) => Some(error.chars()),
                    _ => None,
                },
            },
        )
    }

    /// The session after the roles were read once more.
    pub open spec fn refreshed(self, reply: ReplyView<RoleCatalogView>) -> RoleSessionView {
        match reply {
            ReplyView::Refused(error) => self.finished(ApplyStatusView::Failed(error.chars())),
            ReplyView::TimedOut => self.finished(ApplyStatusView::DeadlineExceeded),
            ReplyView::Answered(catalog) => RoleSessionView { catalog, ..self }.to(RolePhaseView::Ready),
        }
    }

    /// The session after the roles were read after an update.
    pub open spec fn checked_update(
        self,
        id: Seq<char>,
        role_id: u64,
        update: RoleUpdateView,
        reply: ReplyView<RoleCatalogView>,
    ) -> RoleSessionView {
        let refreshed = self.refreshed(reply);
        if refreshed.phase is Ready {
            let role = first_role_with_id(refreshed.catalog.roles, role_id);
            if role is Some && has_values(role->0, update) {
                refreshed
            } else {
                refreshed.finished(
                    ApplyStatusView::Failed("Role "@ + id + " の更新後の値が希望値と一致しません"@),
                )
            }
        } else {
            refreshed
        }
    }

    /// The session after the roles were read after a new order.
    pub open spec fn checked_order(
        self,
        order: OrderPlanView,
        error: Option<Seq<char>>,
        reply: ReplyView<RoleCatalogView>,
    ) -> RoleSessionView {
        let refreshed = self.refreshed(reply);
        if refreshed.phase is Ready {
            if role_order(refreshed.catalog.roles, self.state.guild_id) != order.expected_order {
                match role_order_plan(self.definition, self.state, refreshed.catalog) {
                    Err(fault) => refreshed.to(RolePhaseView::Broken(fault)),
                    Ok(order) => refreshed.with_order(order).finished(
                        match error {
                            Some(error) => ApplyStatusView::Failed(error),
                            None => ApplyStatusView::ReplanRequired,
                        },
                    ),
                }
            } else {
                match error {
                    Some(error) => refreshed.finished(ApplyStatusView::Failed(error)),
                    None => refreshed.ordered(),
                }
            }
        } else {
            refreshed
        }
    }

    /// The session after it was told something. What it does not wait for leaves it as it is.
    pub open spec fn after(self, event: RoleEventView, now: u64) -> RoleSessionView {
        match (self.phase, event) {
            (RolePhaseView::Opening, RoleEventView::Catalog(reply)) => self.opened(reply),
            (RolePhaseView::Ready, RoleEventView::Proceed) => self.proceeded(now),
            (RolePhaseView::Updating { logical_id, role_id, update }, RoleEventView::Updated(reply)) => self.updated(
                logical_id,
                role_id,
                update,
                reply,
            ),
            (RolePhaseView::CheckingUpdate { logical_id, role_id, update }, RoleEventView::Catalog(reply)) =>
                self.checked_update(logical_id, role_id, update, reply),
            (RolePhaseView::Creating { logical_id, .. }, RoleEventView::Created(reply)) => self.created(
                logical_id,
                reply,
            ),
            (RolePhaseView::Deleting { logical_id, .. }, RoleEventView::Deleted(reply)) => self.deleted(
                logical_id,
                reply,
            ),
            (RolePhaseView::Refreshing, RoleEventView::Catalog(reply)) => self.refreshed(reply),
            (RolePhaseView::Moving { order }, RoleEventView::Moved(reply)) => self.moved(order, reply),
            (RolePhaseView::CheckingOrder { order, error }, RoleEventView::Catalog(reply)) => self.checked_order(
                order,
                error,
                reply,
            ),
            _ => self,
        }
    }

    /// What the session asks for.
    pub open spec fn action(self) -> RoleActionView {
        match self.phase {
            RolePhaseView::Opening => RoleActionView::ReadCatalog { until: self.deadline },
            RolePhaseView::Ready => RoleActionView::Proceed,
            RolePhaseView::Updating { role_id, update, .. } => RoleActionView::Update {
                role_id,
                update,
                until: self.deadline,
            },
            RolePhaseView::Creating { create, .. } => RoleActionView::Create { create, until: self.deadline },
            RolePhaseView::Deleting { role_id, .. } => RoleActionView::Delete { role_id, until: self.deadline },
            RolePhaseView::Moving { order } => RoleActionView::Move {
                updates: order.updates,
                until: self.deadline,
            },
            RolePhaseView::CheckingUpdate { .. } | RolePhaseView::Refreshing | RolePhaseView::CheckingOrder { .. } =>
                RoleActionView::ReadCatalog { until: refresh_until(self.deadline) },
            RolePhaseView::Finished(_) | RolePhaseView::Broken(_) => RoleActionView::Finish,
        }
    }

    /// The result of the session, once it has ended.
    pub open spec fn result(self) -> Result<RoleApplyResultView, ErrorView> {
        match self.phase {
            RolePhaseView::Finished(status) => Ok(
                RoleApplyResultView {
                    status,
                    applied: self.applied,
                    pending: self.pending,
                    state_json: state_text(self.state),
                },
            ),
            RolePhaseView::Broken(error) => Err(error),
            _ => arbitrary(),
        }
    }
}

/// Why an application that only changes attributes has no result: an order is in the plan.
pub open spec fn order_not_allowed() -> ErrorView {
    ErrorView::InvalidState(
        "属性更新専用の apply_role_updates には Role の相対順序変更を含められません"@,
    )
}

/// Why an application that only changes attributes has no result: another change is in the plan.
pub open spec fn lifecycle_not_allowed() -> ErrorView {
    ErrorView::InvalidState(
        "属性更新専用の apply_role_updates には Role の lifecycle 変更を含められません"@,
    )
}

/// A session at its start.
pub open spec fn new_session(
    input: (DefinitionView, StateView),
    plan: PlanView,
    lifecycle: Option<RoleApplyOptions>,
    acquired: bool,
    now: u64,
    deadline: u64,
) -> RoleSessionView {
    RoleSessionView {
        definition: input.0,
        state: input.1,
        catalog: RoleCatalogView::none(),
        applied: PlanView::none(),
        pending: plan,
        changes: Seq::empty(),
        taken: 0,
        lifecycle,
        deadline,
        phase: if !acquired {
            RolePhaseView::Finished(ApplyStatusView::GuildBusy)
        } else if now >= deadline {
            RolePhaseView::Finished(ApplyStatusView::DeadlineExceeded)
        } else {
            RolePhaseView::Opening
        },
    }
}

fn failure(error: &ManagementError) -> (status: RoleApplyStatus)
    ensures
        status.deep_view() == ApplyStatusView::Failed(error.deep_view().chars()),
{
    RoleApplyStatus::Failed(error.to_text())
}

impl RoleApplySession {
    fn new(
        input: PlanInput,
        confirmed_plan: &Plan,
        lifecycle: Option<RoleApplyOptions>,
        acquired: bool,
        now: u64,
        deadline: u64,
    ) -> (session: Self)
        ensures
            session.deep_view() == new_session(
                input.deep_view(),
                confirmed_plan.deep_view(),
                lifecycle,
                acquired,
                now,
                deadline,
            ),
    {
        let changes: Vec<(RoleLogicalId, Change)> = Vec::new();
        assert(changes.deep_view() =~= Seq::empty());
        RoleApplySession {
            definition: input.definition,
            state: input.state,
            catalog: RoleCatalog::none(),
            applied: Plan::none(),
            pending: confirmed_plan.copy(),
            changes,
            taken: 0,
            lifecycle,
            deadline,
            phase: if !acquired {
                RolePhase::Finished(RoleApplyStatus::GuildBusy)
            } else if now >= deadline {
                RolePhase::Finished(RoleApplyStatus::DeadlineExceeded)
            } else {
                RolePhase::Opening
            },
        }
    }

    /// Starts to apply a plan that only changes attributes. `acquired` says whether
    /// the guild was free.
    pub fn apply_role_updates(
        input: PlanInput,
        confirmed_plan: &Plan,
        acquired: bool,
        now: u64,
        deadline: u64,
    ) -> (session: Self)
        ensures
            session.deep_view() == new_session(
                input.deep_view(),
                confirmed_plan.deep_view(),
                None,
                acquired,
                now,
                deadline,
            ),
    {
        RoleApplySession::new(input, confirmed_plan, None, acquired, now, deadline)
    }

    /// Starts to apply a plan. `acquired` says whether the guild was free.
    pub fn apply_roles_with_options(
        input: PlanInput,
        confirmed_plan: &Plan,
        options: RoleApplyOptions,
        acquired: bool,
        now: u64,
        deadline: u64,
    ) -> (session: Self)
        ensures
            session.deep_view() == new_session(
                input.deep_view(),
                confirmed_plan.deep_view(),
                if confirmed_plan.deep_view().order is None && only_updates(
                    confirmed_plan.deep_view().changes,
                ) {
                    None
                } else {
                    Some(options)
                },
                acquired,
                now,
                deadline,
            ),
    {
        let lifecycle: Option<RoleApplyOptions> = if !confirmed_plan.has_order() && confirmed_plan.only_updates() {
            None
        } else {
            Some(options)
        };
        RoleApplySession::new(input, confirmed_plan, lifecycle, acquired, now, deadline)
    }

    /// Starts to apply a plan without deletions.
    pub fn apply_roles(
        input: PlanInput,
        confirmed_plan: &Plan,
        acquired: bool,
        now: u64,
        deadline: u64,
    ) -> (session: Self)
        ensures
            session.deep_view() == new_session(
                input.deep_view(),
                confirmed_plan.deep_view(),
                if confirmed_plan.deep_view().order is None && only_updates(
                    confirmed_plan.deep_view().changes,
                ) {
                    None
                } else {
                    Some(RoleApplyOptions { allow_deletions: false })
                },
                acquired,
                now,
                deadline,
            ),
    {
        RoleApplySession::apply_roles_with_options(
            input,
            confirmed_plan,
            RoleApplyOptions { allow_deletions: false },
            acquired,
            now,
            deadline,
        )
    }

    fn finish(&mut self, status: RoleApplyStatus)
        ensures
            final(self).deep_view() == old(self).deep_view().finished(status.deep_view()),
    {
        self.phase = RolePhase::Finished(status);
    }

    fn fail(&mut self, error: ManagementError)
        ensures
            final(self).deep_view() == old(self).deep_view().failed(error.deep_view()),
    {
        self.phase = if self.lifecycle.is_some() {
            RolePhase::Finished(failure(&error))
        } else {
            RolePhase::Broken(error)
        };
    }

    fn mark_applied(&mut self, logical_id: &RoleLogicalId)
        ensures
            final(self).deep_view() == old(self).deep_view().marked(logical_id.deep_view()),
    {
        let change: Change = match self.pending.changes.get(logical_id) {
            None => {
                return;
            },
            Some(change) => change.copy(),
        };
        let desired: Option<RoleCreate> = match self.pending.create_desired.get(logical_id) {
            None => None,
            Some(desired) => Some(desired.copy()),
        };
        self.pending.remove(logical_id);
        self.applied.insert(logical_id.copy(), change);
        match desired {
            None => {},
            Some(desired) => self.applied.create_desired.insert(logical_id.copy(), desired),
        }
    }

    fn unbind(&mut self, logical_id: &RoleLogicalId)
        ensures
            final(self).deep_view() == old(self).deep_view().unbound(logical_id.deep_view()),
    {
        self.state.roles.remove(logical_id);
        self.mark_applied(logical_id);
    }

    fn finish_order(&mut self)
        ensures
            final(self).deep_view() == old(self).deep_view().ordered(),
    {
        let order: Option<OrderPlan> = self.pending.order.copy();
        self.applied.order = order;
        self.pending.order = None;
        self.finish(RoleApplyStatus::Complete);
    }

    fn open(&mut self, reply: Reply<RoleCatalog>)
        ensures
            final(self).deep_view() == old(self).deep_view().opened(reply.deep_view()),
    {
        let catalog: RoleCatalog = match reply {
            Reply::Refused(error) => {
                self.finish(failure(&error));
                return;
            },
            Reply::TimedOut => {
                self.finish(RoleApplyStatus::DeadlineExceeded);
                return;
            },
            Reply::Answered(catalog) => catalog,
        };
        let plan: Plan = match build_plan(&self.definition, &self.state, &catalog) {
            Err(error) => {
                self.phase = RolePhase::Broken(error);
                return;
            },
            Ok(plan) => plan,
        };
        if !plan.same(&self.pending) {
            self.pending = plan;
            self.finish(RoleApplyStatus::ReplanRequired);
            return;
        }
        let has_order: bool = plan.has_order();
        let only_updates: bool = plan.only_updates();
        let deletes: bool = plan.contains_deletions();
        self.catalog = catalog;
        self.changes = plan.changes.into_entries();
        self.taken = 0;
        match self.lifecycle {
            None => if has_order {
                self.phase = RolePhase::Broken(
                    ManagementError::InvalidState(
                        "属性更新専用の apply_role_updates には Role の相対順序変更を含められません".to_owned(),
                    ),
                );
            } else if !only_updates {
                self.phase = RolePhase::Broken(
                    ManagementError::InvalidState(
                        "属性更新専用の apply_role_updates には Role の lifecycle 変更を含められません".to_owned(),
                    ),
                );
            } else {
                self.phase = RolePhase::Ready;
            },
            Some(options) => if !options.allow_deletions && deletes {
                self.finish(RoleApplyStatus::DeletionPermissionRequired);
            } else {
                self.phase = RolePhase::Ready;
            },
        }
    }

    fn take_update(
        &mut self,
        logical_id: RoleLogicalId,
        role_id: RoleId,
        attributes: &crate::resource::role::attributes::AttributeChanges,
        now: u64,
    )
        ensures
            final(self).deep_view() == old(self).deep_view().taken_update(
                logical_id.deep_view(),
                role_id.deep_view(),
                attributes.deep_view(),
                now,
            ),
    {
        match self.pending.changes.get(&logical_id) {
            None => {
                return;
            },
            Some(change) => {
                if !change.is_update() {
                    return;
                }
            },
        }
        if now >= self.deadline {
            self.finish(RoleApplyStatus::DeadlineExceeded);
            return;
        }
        let update: RoleUpdate = match find_first_role(&self.catalog.roles, role_id.get()) {
            None => {
                let error = ManagementError::InvalidState(
                    text5(
                        "Role ",
                        logical_id.as_str(),
                        " の Snowflake ",
                        role_id.to_text().as_str(),
                        " が Guild に存在しません",
                    ),
                );
                self.fail(error);
                return;
            },
            Some(actual) => attributes.to_update(&actual.permissions),
        };
        self.phase = RolePhase::Updating { logical_id, role_id, update };
    }

    fn take_create(&mut self, logical_id: RoleLogicalId, now: u64)
        ensures
            final(self).deep_view() == old(self).deep_view().taken_create(logical_id.deep_view(), now),
    {
        if now >= self.deadline {
            self.finish(RoleApplyStatus::DeadlineExceeded);
            return;
        }
        let create: RoleCreate = match self.pending.create_desired.get(&logical_id) {
            None => {
                let error = ManagementError::InvalidState(
                    text3("作成対象 Role ", logical_id.as_str(), " の payload が plan にありません"),
                );
                self.finish(failure(&error));
                return;
            },
            Some(create) => create.copy(),
        };
        self.phase = RolePhase::Creating { logical_id, create };
    }

    fn take_delete(&mut self, logical_id: RoleLogicalId, role_id: RoleId, allow_deletions: bool, now: u64)
        requires
            old(self).lifecycle is Some,
            old(self).lifecycle->0.allow_deletions == allow_deletions,
        ensures
            final(self).deep_view() == old(self).deep_view().taken_delete(
                logical_id.deep_view(),
                role_id.deep_view(),
                now,
            ),
    {
        if !allow_deletions {
            self.finish(RoleApplyStatus::DeletionPermissionRequired);
        } else if now >= self.deadline {
            self.finish(RoleApplyStatus::DeadlineExceeded);
        } else if find_first_role(&self.catalog.roles, role_id.get()).is_none() {
            self.unbind(&logical_id);
        } else {
            self.phase = RolePhase::Deleting { logical_id, role_id };
        }
    }

    fn take_order(&mut self, now: u64)
        ensures
            final(self).deep_view() == old(self).deep_view().taken_order(now),
    {
        match build_order_plan(&self.definition, &self.state, &self.catalog) {
            Err(error) => {
                self.phase = RolePhase::Broken(error);
            },
            Ok(None) => self.finish_order(),
            Ok(Some(order)) => if order.updates.is_empty() {
                if order.expected_order.is_empty() {
                    self.pending.order = Some(order);
                    self.finish(RoleApplyStatus::ReplanRequired);
                } else {
                    self.finish_order();
                }
            } else if now >= self.deadline {
                self.finish(RoleApplyStatus::DeadlineExceeded);
            } else {
                self.phase = RolePhase::Moving { order };
            },
        }
    }

    fn proceed(&mut self, now: u64)
        ensures
            final(self).deep_view() == old(self).deep_view().proceeded(now),
    {
        if self.taken < self.changes.len() {
            let logical_id: RoleLogicalId = self.changes[self.taken].0.copy();
            let change: Change = self.changes[self.taken].1.copy();
            assert(self.deep_view().changes[self.taken as int] == (logical_id.deep_view(), change.deep_view()));
            self.taken += 1;
            match change {
                Change::Update { discord_id, attributes } => self.take_update(logical_id, discord_id, &attributes, now),
                Change::Create => match self.lifecycle {
                    None => {},
                    Some(_) => self.take_create(logical_id, now),
                },
                Change::Delete { discord_id } => match self.lifecycle {
                    None => {},
                    Some(options) => self.take_delete(logical_id, discord_id, options.allow_deletions, now),
                },
                Change::Release { .. } => match self.lifecycle {
                    None => {},
                    Some(_) => self.unbind(&logical_id),
                },
            }
        } else if self.lifecycle.is_some() && self.pending.has_order() {
            self.take_order(now);
        } else {
            self.finish(RoleApplyStatus::Complete);
        }
    }

    fn receive_update(
        &mut self,
        logical_id: RoleLogicalId,
        role_id: RoleId,
        update: RoleUpdate,
        reply: Reply<RoleUpdateOutcome>,
    )
        ensures
            final(self).deep_view() == old(self).deep_view().updated(
                logical_id.deep_view(),
                role_id.deep_view(),
                update.deep_view(),
                reply.deep_view(),
            ),
    {
        match reply {
            Reply::Refused(error) => self.finish(failure(&error)),
            Reply::Answered(RoleUpdateOutcome::Applied) => {
                self.mark_applied(&logical_id);
                self.phase = RolePhase::CheckingUpdate { logical_id, role_id, update };
            },
            Reply::Answered(RoleUpdateOutcome::ResponseUnknown) => self.finish(RoleApplyStatus::ResponseUnknown),
            Reply::TimedOut => self.finish(RoleApplyStatus::ResponseUnknown),
        }
    }

    fn receive_creation(&mut self, logical_id: RoleLogicalId, reply: Reply<RoleCreateOutcome>)
        ensures
            final(self).deep_view() == old(self).deep_view().created(logical_id.deep_view(), reply.deep_view()),
    {
        match reply {
            Reply::Refused(error) => self.finish(failure(&error)),
            Reply::Answered(RoleCreateOutcome::Created(role_id)) => {
                if find_name(&self.state.roles, role_id.get()).is_some() {
                    self.finish(
                        RoleApplyStatus::Failed(
                            text3(
                                "新しく作成した Role ",
                                role_id.to_text().as_str(),
                                " は既存の対応と衝突しています",
                            ),
                        ),
                    );
                } else {
                    self.state.roles.insert(logical_id.copy(), role_id);
                    self.mark_applied(&logical_id);
                    self.phase = RolePhase::Refreshing;
                }
            },
            Reply::Answered(RoleCreateOutcome::ResponseUnknown) => self.finish(
                RoleApplyStatus::CreationResponseUnknown,
            ),
            Reply::TimedOut => self.finish(RoleApplyStatus::CreationResponseUnknown),
        }
    }

    fn receive_deletion(&mut self, logical_id: RoleLogicalId, reply: Reply<RoleDeleteOutcome>)
        ensures
            final(self).deep_view() == old(self).deep_view().deleted(logical_id.deep_view(), reply.deep_view()),
    {
        match reply {
            Reply::Refused(error) => match error {
                ManagementError::RolePermissionDenied(message) => self.finish(
                    RoleApplyStatus::DeletionPermissionDenied(message),
                ),
                error => self.finish(failure(&error)),
            },
            Reply::Answered(RoleDeleteOutcome::Deleted) => {
                self.unbind(&logical_id);
                self.phase = RolePhase::Refreshing;
            },
            Reply::Answered(RoleDeleteOutcome::ResponseUnknown) => self.finish(
                RoleApplyStatus::DeletionResponseUnknown,
            ),
            Reply::TimedOut => self.finish(RoleApplyStatus::DeletionResponseUnknown),
        }
    }

    fn receive_catalog(&mut self, reply: Reply<RoleCatalog>) -> (ready: bool)
        ensures
            final(self).deep_view() == old(self).deep_view().refreshed(reply.deep_view()),
            ready == (final(self).deep_view().phase is Ready),
    {
        match reply {
            Reply::Refused(error) => {
                self.finish(failure(&error));
                false
            },
            Reply::TimedOut => {
                self.finish(RoleApplyStatus::DeadlineExceeded);
                false
            },
            Reply::Answered(catalog) => {
                self.catalog = catalog;
                self.phase = RolePhase::Ready;
                true
            },
        }
    }

    fn check_update(
        &mut self,
        logical_id: RoleLogicalId,
        role_id: RoleId,
        update: RoleUpdate,
        reply: Reply<RoleCatalog>,
    )
        ensures
            final(self).deep_view() == old(self).deep_view().checked_update(
                logical_id.deep_view(),
                role_id.deep_view(),
                update.deep_view(),
                reply.deep_view(),
            ),
    {
        if self.receive_catalog(reply) {
            let matches: bool = match find_first_role(&self.catalog.roles, role_id.get()) {
                Some(role) => role_matches_update(role, &update),
                None => false,
            };
            if !matches {
                self.finish(
                    RoleApplyStatus::Failed(
                        text3("Role ", logical_id.as_str(), " の更新後の値が希望値と一致しません"),
                    ),
                );
            }
        }
    }

    fn check_order(&mut self, order: OrderPlan, error: Option<String>, reply: Reply<RoleCatalog>)
        ensures
            final(self).deep_view() == old(self).deep_view().checked_order(
                order.deep_view(),
                error.deep_view(),
                reply.deep_view(),
            ),
    {
        if self.receive_catalog(reply) {
            let actual: Vec<RoleId> = ordered_role_ids(&self.catalog, RoleId::new(self.state.guild_id.get()));
            if !actual.same(&order.expected_order) {
                match build_order_plan(&self.definition, &self.state, &self.catalog) {
                    Err(fault) => {
                        self.phase = RolePhase::Broken(fault);
                    },
                    Ok(order) => {
                        self.pending.order = order;
                        match error {
                            Some(error) => self.finish(RoleApplyStatus::Failed(error)),
                            None => self.finish(RoleApplyStatus::ReplanRequired),
                        }
                    },
                }
            } else {
                match error {
                    Some(error) => self.finish(RoleApplyStatus::Failed(error)),
                    None => self.finish_order(),
                }
            }
        }
    }

    /// Tells the session something.
    pub fn step(&mut self, event: RoleEvent, now: u64)
        ensures
            final(self).deep_view() == old(self).deep_view().after(event.deep_view(), now),
    {
        match event {
            RoleEvent::Proceed => {
                if matches!(self.phase, RolePhase::Ready) {
                    self.proceed(now);
                }
            },
            RoleEvent::Updated(reply) => {
                let (logical_id, role_id, update): (RoleLogicalId, RoleId, RoleUpdate) = match &self.phase {
                    RolePhase::Updating { logical_id, role_id, update } => (logical_id.copy(), *role_id, update.copy()),
                    _ => {
                        return;
                    },
                };
                self.receive_update(logical_id, role_id, update, reply);
            },
            RoleEvent::Created(reply) => {
                let logical_id: RoleLogicalId = match &self.phase {
                    RolePhase::Creating { logical_id, .. } => logical_id.copy(),
                    _ => {
                        return;
                    },
                };
                self.receive_creation(logical_id, reply);
            },
            RoleEvent::Deleted(reply) => {
                let logical_id: RoleLogicalId = match &self.phase {
                    RolePhase::Deleting { logical_id, .. } => logical_id.copy(),
                    _ => {
                        return;
                    },
                };
                self.receive_deletion(logical_id, reply);
            },
            RoleEvent::Moved(reply) => {
                let order: OrderPlan = match &self.phase {
                    RolePhase::Moving { order } => order.copy(),
                    _ => {
                        return;
                    },
                };
                let error: Option<String> = match reply {
                    Reply::Refused(error) => Some(error.to_text()),
                    _ => None,
                };
                self.phase = RolePhase::CheckingOrder { order, error };
            },
            RoleEvent::Catalog(reply) => self.step_with_catalog(reply),
        }
    }

    fn step_with_catalog(&mut self, reply: Reply<RoleCatalog>)
        ensures
            forall|now: u64|
                final(self).deep_view() == #[trigger] old(self).deep_view().after(
                    RoleEventView::Catalog(reply.deep_view()),
                    now,
                ),
    {
        if matches!(self.phase, RolePhase::Opening) {
            self.open(reply);
            return;
        }
        if matches!(self.phase, RolePhase::Refreshing) {
            let _ = self.receive_catalog(reply);
            return;
        }
        let update: Option<(RoleLogicalId, RoleId, RoleUpdate)> = match &self.phase {
            RolePhase::CheckingUpdate { logical_id, role_id, update } => Some(
                (logical_id.copy(), *role_id, update.copy()),
            ),
            _ => None,
        };
        match update {
            Some((logical_id, role_id, update)) => {
                self.check_update(logical_id, role_id, update, reply);
                return;
            },
            None => {},
        }
        let (order, error): (OrderPlan, Option<String>) = match &self.phase {
            RolePhase::CheckingOrder { order, error } => (order.copy(), error.copy()),
            _ => {
                return;
            },
        };
        self.check_order(order, error, reply);
    }

    /// What the session asks for.
    pub fn action(&self) -> (action: RoleAction)
        ensures
            action.deep_view() == self.deep_view().action(),
    {
        let until: u64 = self.deadline;
        match &self.phase {
            RolePhase::Opening => RoleAction::ReadCatalog { until },
            RolePhase::Ready => RoleAction::Proceed,
            RolePhase::Updating { role_id, update, .. } => RoleAction::Update {
                role_id: *role_id,
                update: update.copy(),
                until,
            },
            RolePhase::Creating { create, .. } => RoleAction::Create { create: create.copy(), until },
            RolePhase::Deleting { role_id, .. } => RoleAction::Delete { role_id: *role_id, until },
            RolePhase::Moving { order } => RoleAction::Move { updates: order.updates.copy(), until },
            RolePhase::CheckingUpdate { .. } => RoleAction::ReadCatalog { until: refresh_deadline(until) },
            RolePhase::Refreshing => RoleAction::ReadCatalog { until: refresh_deadline(until) },
            RolePhase::CheckingOrder { .. } => RoleAction::ReadCatalog { until: refresh_deadline(until) },
            RolePhase::Finished(_) => RoleAction::Finish,
            RolePhase::Broken(_) => RoleAction::Finish,
        }
    }

    /// The result of the session.
    pub fn into_result(self) -> (result: Result<RoleApplyResult, ManagementError>)
        requires
            self.deep_view().action() is Finish,
        ensures
            seen(result) == self.deep_view().result(),
    {
        match self.phase {
            RolePhase::Finished(status) => {
                let state_json: String = serialize_state(&self.state)?;
                Ok(RoleApplyResult { status, applied: self.applied, pending: self.pending, state_json })
            },
            RolePhase::Broken(error) => Err(error),
            _ => {
                assert(false);
                Err(ManagementError::InvalidState(String::new()))
            },
        }
    }
}

impl RoleSessionView {
    /// Whether a change of a name is either still to be made or was made, and not both.
    pub open spec fn accounts_for(self, id: Seq<char>, change: Option<ChangeView>) -> bool {
        ||| lookup(self.applied.changes, id) == change && lookup(self.pending.changes, id) is None
        ||| lookup(self.pending.changes, id) == change && lookup(self.applied.changes, id) is None
    }

    /// Whether the session has ended.
    pub open spec fn is_over(self) -> bool {
        self.phase is Finished || self.phase is Broken
    }

    /// Whether deletions are allowed.
    pub open spec fn may_delete(self) -> bool {
        self.lifecycle is Some && self.lifecycle->0.allow_deletions
    }

    /// How many replies may still be needed once the roles were read.
    pub open spec fn steps_left(self) -> int {
        let changes = 3 * (self.changes.len() - self.taken);
        match self.phase {
            RolePhaseView::Opening => 0,
            RolePhaseView::Ready => changes + 3,
            RolePhaseView::Updating { .. } | RolePhaseView::Creating { .. } | RolePhaseView::Deleting { .. } => changes
                + 5,
            RolePhaseView::CheckingUpdate { .. } | RolePhaseView::Refreshing => changes + 4,
            RolePhaseView::Moving { .. } => 2,
            RolePhaseView::CheckingOrder { .. } => 1,
            RolePhaseView::Finished(_) | RolePhaseView::Broken(_) => 0,
        }
    }
}

/// Whether an event is a reply to what was asked for.
pub open spec fn answers(event: RoleEventView, action: RoleActionView) -> bool {
    match action {
        RoleActionView::Proceed => event is Proceed,
        RoleActionView::Update { .. } => event is Updated,
        RoleActionView::Create { .. } => event is Created,
        RoleActionView::Delete { .. } => event is Deleted,
        RoleActionView::Move { .. } => event is Moved,
        RoleActionView::ReadCatalog { .. } => event is Catalog,
        RoleActionView::Finish => false,
    }
}

proof fn marked_accounts_for(session: RoleSessionView, marked: Seq<char>, id: Seq<char>, change: Option<ChangeView>)
    requires
        session.accounts_for(id, change),
    ensures
        session.marked(marked).accounts_for(id, change),
{
    if lookup(session.pending.changes, marked) is Some {
        let moved = lookup(session.pending.changes, marked)->0;
        put_then_lookup::<RoleLogicalId, ChangeView>(session.applied.changes, marked, moved, id);
        without_then_lookup(session.pending.changes, marked, id);
    }
}

/// At the start every change of the plan is still to be made.
pub proof fn a_new_session_accounts_for_the_plan(
    input: (DefinitionView, StateView),
    plan: PlanView,
    lifecycle: Option<RoleApplyOptions>,
    acquired: bool,
    now: u64,
    deadline: u64,
    id: Seq<char>,
)
    ensures
        new_session(input, plan, lifecycle, acquired, now, deadline).accounts_for(id, lookup(plan.changes, id)),
{
}

/// No step loses a change or makes one twice: what is made and what is still to be
/// made add up to the plan. Only where the plan is out of date, the new plan takes its place.
pub proof fn steps_account_for_the_plan(
    session: RoleSessionView,
    event: RoleEventView,
    now: u64,
    id: Seq<char>,
    change: Option<ChangeView>,
)
    requires
        session.accounts_for(id, change),
        session.phase is Opening ==> session.after(event, now).phase != RolePhaseView::Finished(
            ApplyStatusView::ReplanRequired,
        ),
    ensures
        session.after(event, now).accounts_for(id, change),
{
    let (taken_id, _) = session.changes[session.taken];
    let taken = RoleSessionView { taken: session.taken + 1, ..session };
    let unbound = RoleSessionView {
        state: StateView { roles: without(taken.state.roles, taken_id), ..taken.state },
        ..taken
    };
    marked_accounts_for(unbound, taken_id, id, change);
    match (session.phase, event) {
        (RolePhaseView::Updating { logical_id, .. }, RoleEventView::Updated(_)) => {
            marked_accounts_for(session, logical_id, id, change);
        },
        (
            RolePhaseView::Creating { logical_id, .. },
            RoleEventView::Created(ReplyView::Answered(RoleCreateOutcomeView::Created(role_id))),
        ) => {
            let bound = RoleSessionView {
                state: StateView {
                    roles: put::<RoleLogicalId, u64>(session.state.roles, logical_id, role_id),
                    ..session.state
                },
                ..session
            };
            marked_accounts_for(bound, logical_id, id, change);
        },
        (RolePhaseView::Deleting { logical_id, .. }, RoleEventView::Deleted(_)) => {
            let unbound = RoleSessionView {
                state: StateView { roles: without(session.state.roles, logical_id), ..session.state },
                ..session
            };
            marked_accounts_for(unbound, logical_id, id, change);
        },
        _ => {},
    }
}

/// Nothing is deleted unless deletions are allowed: no deletion is asked for, and
/// with a plan that deletes something not a single change is made.
pub proof fn deletions_need_permission(session: RoleSessionView, event: RoleEventView, now: u64)
    requires
        !session.may_delete(),
        !(session.phase is Deleting),
    ensures
        !(session.after(event, now).phase is Deleting),
        session.after(event, now).lifecycle == session.lifecycle,
        session.phase is Opening && has_deletion(session.pending.changes) ==> session.after(event, now).is_over()
            || session.after(event, now) == session,
{
    if session.phase is Opening && has_deletion(session.pending.changes) && session.lifecycle is None {
        let changes = session.pending.changes;
        let i = choose|i: int| 0 <= i < changes.len() && (#[trigger] changes[i]).1 is Delete;
        assert(!(changes[i].1 is Update));
        assert(!only_updates(changes));
    }
}

/// A step changes no binding but that of the name whose change is being made.
pub proof fn steps_keep_other_bindings(session: RoleSessionView, event: RoleEventView, now: u64, id: Seq<char>)
    requires
        session.phase is Ready && session.taken < session.changes.len() ==> session.changes[session.taken].0 != id,
        session.phase is Creating ==> session.phase->Creating_logical_id != id,
        session.phase is Deleting ==> session.phase->Deleting_logical_id != id,
    ensures
        lookup(session.after(event, now).state.roles, id) == lookup(session.state.roles, id),
        session.after(event, now).state.guild_id == session.state.guild_id,
        session.after(event, now).state.channels == session.state.channels,
        session.after(event, now).state.members == session.state.members,
{
    without_then_lookup(session.state.roles, session.changes[session.taken].0, id);
    match (session.phase, event) {
        (
            RolePhaseView::Creating { logical_id, .. },
            RoleEventView::Created(ReplyView::Answered(RoleCreateOutcomeView::Created(role_id))),
        ) => {
            put_then_lookup::<RoleLogicalId, u64>(session.state.roles, logical_id, role_id, id);
        },
        (RolePhaseView::Deleting { logical_id, .. }, RoleEventView::Deleted(_)) => {
            without_then_lookup(session.state.roles, logical_id, id);
        },
        _ => {},
    }
}

/// Every reply brings a session nearer to its end, and a session that has ended stays as it is.
pub proof fn replies_lead_to_the_end(session: RoleSessionView, event: RoleEventView, now: u64)
    requires
        0 <= session.taken <= session.changes.len(),
    ensures
        session.is_over() ==> session.after(event, now) == session,
        session.is_over() <==> session.action() is Finish,
        0 <= session.after(event, now).taken <= session.after(event, now).changes.len(),
        answers(event, session.action()) && !(session.phase is Opening) ==> 0 <= session.after(
            event,
            now,
        ).steps_left() < session.steps_left(),
        answers(event, session.action()) && session.phase is Opening ==> !(session.after(event, now).phase is Opening),
{
}

/// A sound state stays sound whatever is created, deleted or released, so that the
/// next plan accepts it.
pub proof fn steps_keep_the_state_sound(session: RoleSessionView, event: RoleEventView, now: u64)
    requires
        session.state.is_sound(),
        sorted::<RoleLogicalId, u64>(session.state.roles),
        session.phase is Creating ==> session.phase->Creating_logical_id != everyone(),
        event != RoleEventView::Created(
            ReplyView::Answered(RoleCreateOutcomeView::Created(session.state.guild_id)),
        ),
    ensures
        session.after(event, now).state.is_sound(),
        sorted::<RoleLogicalId, u64>(session.after(event, now).state.roles),
{
    let taken = session.changes[session.taken].0;
    unbound_role_keeps_sound(session.state, taken);
    without_keeps_sorted::<RoleLogicalId, u64>(session.state.roles, taken);
    match (session.phase, event) {
        (
            RolePhaseView::Creating { logical_id, .. },
            RoleEventView::Created(ReplyView::Answered(RoleCreateOutcomeView::Created(role_id))),
        ) => {
            if holder(session.state.roles, role_id) is None {
                bound_role_keeps_sound(session.state, logical_id, role_id);
                put_keeps_sorted::<RoleLogicalId, u64>(session.state.roles, logical_id, role_id);
            }
        },
        (RolePhaseView::Deleting { logical_id, .. }, RoleEventView::Deleted(_)) => {
            unbound_role_keeps_sound(session.state, logical_id);
            without_keeps_sorted::<RoleLogicalId, u64>(session.state.roles, logical_id);
        },
        _ => {},
    }
}

/// A role that was changed as an update asks has the values that the update asks for.
pub proof fn applied_updates_are_seen(role: RoleSnapshotView, update: RoleUpdateView)
    ensures
        has_values(update.applied_to(role), update),
{
}

} // verus!
