//! Applying a plan of changes of channels, one change at a time.
//!
//! A session decides what to ask of Discord next, and what a reply means. Whoever
//! runs it does what [`ChannelApplySession::action`] says and hands the reply to
//! [`ChannelApplySession::step`], until the action is to finish.

use vstd::prelude::*;

use crate::apply::{refresh_deadline, refresh_until, ApplyStatusView, Reply, ReplyView};
use crate::configuration::channel::{ChannelAttributes, ChannelAttributesView, ChannelKind};
use crate::configuration::definition::{DefinitionFile, DefinitionView};
use crate::configuration::input::PlanInput;
use crate::configuration::state::{
    holder, put_keeps_injective, serialize_state, state_text, without_keeps_injective, StateFile, StateView,
};
use crate::domain::{ErrorView, ManagementError};
use crate::export::role::find_name;
use crate::ids::{ChannelId, ChannelLogicalId};
use crate::ordered::{
    lookup, put, put_keeps_sorted, put_then_lookup, sorted, without, without_keeps_sorted, without_then_lookup,
};
use crate::port::{
    ChannelCatalog, ChannelCatalogView, ChannelCreate, ChannelCreateOutcome, ChannelCreateOutcomeView,
    ChannelCreateView, ChannelDeleteOutcome, ChannelSnapshot, ChannelSnapshotView, ChannelUpdate, ChannelUpdateOutcome,
    ChannelUpdateValue, ChannelUpdateView,
};
use crate::resource::channel::attributes::{AttributeChanges, AttributeChangesView};
use crate::resource::channel::create::{
    created_channel, desired_channel_create_with_catalog, CreateDesired, CreateDesiredView,
};
use crate::resource::channel::order::{find_first_channel, first_channel_with_id};
use crate::resource::channel::overwrites::{by_id, channels_by_id, ActualChannels};
use crate::resource::channel::plan::{
    build_channel_plan_with_capabilities, channel_plan, has_deletion, only_updates, Change, ChangeView, Plan, PlanView,
};
use crate::text::{decimal, text3, text5};
use crate::value::{seen, Plain};

verus! {

/// What an application of a plan may do.
#[derive(Clone, Copy, Debug, PartialEq, Eq, Structural)]
pub struct ChannelApplyOptions {
    pub allow_deletions: bool,
}

impl Default for ChannelApplyOptions {
    fn default() -> (options: Self)
        ensures
            !options.allow_deletions,
    {
        ChannelApplyOptions { allow_deletions: false }
    }
}

/// How an application of a plan ended.
#[derive(Clone, Debug)]
pub enum ChannelApplyStatus {
    Complete,
    GuildBusy,
    ReplanRequired,
    DeadlineExceeded,
    DeletionPermissionRequired,
    DeletionPermissionDenied(String),
    CreationResponseUnknown,
    DeletionResponseUnknown,
    Failed(String),
    ResponseUnknown,
}

impl DeepView for ChannelApplyStatus {
    type V = ApplyStatusView;

    open spec fn deep_view(&self) -> ApplyStatusView {
        match self {
            ChannelApplyStatus::Complete => ApplyStatusView::Complete,
            ChannelApplyStatus::GuildBusy => ApplyStatusView::GuildBusy,
            ChannelApplyStatus::ReplanRequired => ApplyStatusView::ReplanRequired,
            ChannelApplyStatus::DeadlineExceeded => ApplyStatusView::DeadlineExceeded,
            ChannelApplyStatus::DeletionPermissionRequired => ApplyStatusView::DeletionPermissionRequired,
            ChannelApplyStatus::DeletionPermissionDenied(text) => ApplyStatusView::DeletionPermissionDenied(text@),
            ChannelApplyStatus::CreationResponseUnknown => ApplyStatusView::CreationResponseUnknown,
            ChannelApplyStatus::DeletionResponseUnknown => ApplyStatusView::DeletionResponseUnknown,
            ChannelApplyStatus::Failed(text) => ApplyStatusView::Failed(text@),
            ChannelApplyStatus::ResponseUnknown => ApplyStatusView::ResponseUnknown,
        }
    }
}

/// What came of applying a plan.
pub struct ChannelApplyResult {
    pub status: ChannelApplyStatus,
    pub applied: Plan,
    pub pending: Plan,
    pub state_json: String,
}

/// What the result of applying a plan holds.
pub struct ChannelApplyResultView {
    pub status: ApplyStatusView,
    pub applied: PlanView,
    pub pending: PlanView,
    pub state_json: Seq<char>,
}

impl DeepView for ChannelApplyResult {
    type V = ChannelApplyResultView;

    open spec fn deep_view(&self) -> ChannelApplyResultView {
        ChannelApplyResultView {
            status: self.status.deep_view(),
            applied: self.applied.deep_view(),
            pending: self.pending.deep_view(),
            state_json: self.state_json@,
        }
    }
}

/// What a session waits for.
pub enum ChannelPhase {
    /// For the channels of the guild, before anything is changed.
    Opening,
    /// For whether overwrites can be changed.
    Asking,
    /// To go on with the next change.
    Ready,
    /// For the reply to an update.
    Updating { logical_id: ChannelLogicalId, channel_id: ChannelId, update: ChannelUpdate },
    /// For the channels after an update.
    CheckingUpdate { logical_id: ChannelLogicalId, channel_id: ChannelId, update: ChannelUpdate },
    /// For the reply to a creation.
    Creating { logical_id: ChannelLogicalId, create: ChannelCreate },
    /// For the reply to a deletion.
    Deleting { logical_id: ChannelLogicalId, channel_id: ChannelId },
    /// For the channels after a creation or a deletion.
    Refreshing,
    /// For nothing: the application has ended.
    Finished(ChannelApplyStatus),
    /// For nothing: the application has failed without a result.
    Broken(ManagementError),
}

/// What a session waits for.
pub enum ChannelPhaseView {
    Opening,
    Asking,
    Ready,
    Updating { logical_id: Seq<char>, channel_id: u64, update: ChannelUpdateView },
    CheckingUpdate { logical_id: Seq<char>, channel_id: u64, update: ChannelUpdateView },
    Creating { logical_id: Seq<char>, create: ChannelCreateView },
    Deleting { logical_id: Seq<char>, channel_id: u64 },
    Refreshing,
    Finished(ApplyStatusView),
    Broken(ErrorView),
}

impl DeepView for ChannelPhase {
    type V = ChannelPhaseView;

    open spec fn deep_view(&self) -> ChannelPhaseView {
        match self {
            ChannelPhase::Opening => ChannelPhaseView::Opening,
            ChannelPhase::Asking => ChannelPhaseView::Asking,
            ChannelPhase::Ready => ChannelPhaseView::Ready,
            ChannelPhase::Updating { logical_id, channel_id, update } => ChannelPhaseView::Updating {
                logical_id: logical_id.deep_view(),
                channel_id: channel_id.deep_view(),
                update: update.deep_view(),
            },
            ChannelPhase::CheckingUpdate { logical_id, channel_id, update } => ChannelPhaseView::CheckingUpdate {
                logical_id: logical_id.deep_view(),
                channel_id: channel_id.deep_view(),
                update: update.deep_view(),
            },
            ChannelPhase::Creating { logical_id, create } => ChannelPhaseView::Creating {
                logical_id: logical_id.deep_view(),
                create: create.deep_view(),
            },
            ChannelPhase::Deleting { logical_id, channel_id } => ChannelPhaseView::Deleting {
                logical_id: logical_id.deep_view(),
                channel_id: channel_id.deep_view(),
            },
            ChannelPhase::Refreshing => ChannelPhaseView::Refreshing,
            ChannelPhase::Finished(status) => ChannelPhaseView::Finished(status.deep_view()),
            ChannelPhase::Broken(error) => ChannelPhaseView::Broken(error.deep_view()),
        }
    }
}

/// What a session is told.
pub enum ChannelEvent {
    Proceed,
    Updated(Reply<ChannelUpdateOutcome>),
    Created(Reply<ChannelCreateOutcome>),
    Deleted(Reply<ChannelDeleteOutcome>),
    Permitted(Reply<bool>),
    Catalog(Reply<ChannelCatalog>),
}

/// What a session is told.
pub enum ChannelEventView {
    Proceed,
    Updated(ReplyView<ChannelUpdateOutcome>),
    Created(ReplyView<ChannelCreateOutcomeView>),
    Deleted(ReplyView<ChannelDeleteOutcome>),
    Permitted(ReplyView<bool>),
    Catalog(ReplyView<ChannelCatalogView>),
}

impl DeepView for ChannelEvent {
    type V = ChannelEventView;

    open spec fn deep_view(&self) -> ChannelEventView {
        match self {
            ChannelEvent::Proceed => ChannelEventView::Proceed,
            ChannelEvent::Updated(reply) => ChannelEventView::Updated(reply.deep_view()),
            ChannelEvent::Created(reply) => ChannelEventView::Created(reply.deep_view()),
            ChannelEvent::Deleted(reply) => ChannelEventView::Deleted(reply.deep_view()),
            ChannelEvent::Permitted(reply) => ChannelEventView::Permitted(reply.deep_view()),
            ChannelEvent::Catalog(reply) => ChannelEventView::Catalog(reply.deep_view()),
        }
    }
}

/// What a session asks for, and until when a reply counts.
pub enum ChannelAction {
    Proceed,
    Update { channel_id: ChannelId, update: ChannelUpdate, until: u64 },
    Create { create: ChannelCreate, until: u64 },
    Delete { channel_id: ChannelId, until: u64 },
    ReadPermission { until: u64 },
    ReadCatalog { until: u64 },
    Finish,
}

/// What a session asks for.
pub enum ChannelActionView {
    Proceed,
    Update { channel_id: u64, update: ChannelUpdateView, until: u64 },
    Create { create: ChannelCreateView, until: u64 },
    Delete { channel_id: u64, until: u64 },
    ReadPermission { until: u64 },
    ReadCatalog { until: u64 },
    Finish,
}

impl DeepView for ChannelAction {
    type V = ChannelActionView;

    open spec fn deep_view(&self) -> ChannelActionView {
        match self {
            ChannelAction::Proceed => ChannelActionView::Proceed,
            ChannelAction::Update { channel_id, update, until } => ChannelActionView::Update {
                channel_id: channel_id.deep_view(),
                update: update.deep_view(),
                until: *until,
            },
            ChannelAction::Create { create, until } => ChannelActionView::Create {
                create: create.deep_view(),
                until: *until,
            },
            ChannelAction::Delete { channel_id, until } => ChannelActionView::Delete {
                channel_id: channel_id.deep_view(),
                until: *until,
            },
            ChannelAction::ReadPermission { until } => ChannelActionView::ReadPermission { until: *until },
            ChannelAction::ReadCatalog { until } => ChannelActionView::ReadCatalog { until: *until },
            ChannelAction::Finish => ChannelActionView::Finish,
        }
    }
}

/// An application of a plan that is under way.
pub struct ChannelApplySession {
    pub definition: DefinitionFile,
    pub state: StateFile,
    pub catalog: ChannelCatalog,
    pub applied: Plan,
    pub pending: Plan,
    /// The changes of the plan, in the order in which they are made.
    pub changes: Vec<(ChannelLogicalId, Change)>,
    /// How many changes were taken up.
    pub taken: usize,
    /// What is allowed, or `None` where only attributes may change.
    pub lifecycle: Option<ChannelApplyOptions>,
    pub deadline: u64,
    pub phase: ChannelPhase,
}

/// What a session holds.
pub struct ChannelSessionView {
    pub definition: DefinitionView,
    pub state: StateView,
    pub catalog: ChannelCatalogView,
    pub applied: PlanView,
    pub pending: PlanView,
    pub changes: Seq<(Seq<char>, ChangeView)>,
    pub taken: int,
    pub lifecycle: Option<ChannelApplyOptions>,
    pub deadline: u64,
    pub phase: ChannelPhaseView,
}

impl DeepView for ChannelApplySession {
    type V = ChannelSessionView;

    open spec fn deep_view(&self) -> ChannelSessionView {
        ChannelSessionView {
            definition: self.definition.deep_view(),
            state: self.state.deep_view(),
            catalog: self.catalog.deep_view(),
            applied: self.applied.deep_view(),
            pending: self.pending.deep_view(),
            changes: self.changes.deep_view(),
            taken: self.taken as int,
            lifecycle: self.lifecycle,
            deadline: self.deadline,
            phase: self.phase.deep_view(),
        }
    }
}

/// Whether an attribute that may be absent has the value that an update asks for.
pub open spec fn has_optional<W>(actual: Option<W>, update: ChannelUpdateValue<W>) -> bool {
    match update {
        ChannelUpdateValue::Keep => true,
        ChannelUpdateValue::Replace(desired) => actual == Some(desired),
        ChannelUpdateValue::Clear => actual is None,
    }
}

/// Whether an attribute that may be absent has the value that an update asks for.
pub fn optional_matches<T: Plain>(actual: &Option<T>, update: &ChannelUpdateValue<T>) -> (answer: bool)
    ensures
        answer == has_optional(actual.deep_view(), update.deep_view()),
{
    match update {
        ChannelUpdateValue::Keep => true,
        ChannelUpdateValue::Replace(desired) => match actual {
            Some(actual) => actual.same(desired),
            None => false,
        },
        ChannelUpdateValue::Clear => actual.is_none(),
    }
}

/// Whether a channel has the values that an update asks for.
pub open spec fn has_values(channel: ChannelSnapshotView, update: ChannelUpdateView) -> bool {
    &&& update.name is Some ==> channel.name == update.name->0
    &&& has_optional(channel.parent_id, update.parent_id)
    &&& has_optional(channel.topic, update.topic)
    &&& update.nsfw is Some ==> channel.nsfw == update.nsfw->0
    &&& update.slowmode_seconds is Some ==> channel.slowmode_seconds == update.slowmode_seconds->0
    &&& has_optional(channel.default_auto_archive_minutes, update.default_auto_archive_minutes)
    &&& update.default_thread_slowmode_seconds is Some ==> channel.default_thread_slowmode_seconds
        == update.default_thread_slowmode_seconds->0
    &&& update.overwrites is Some ==> channel.overwrites == update.overwrites->0
}

/// Whether a channel has the values that an update asks for.
pub fn channel_matches_update(channel: &ChannelSnapshot, update: &ChannelUpdate) -> (answer: bool)
    ensures
        answer == has_values(channel.deep_view(), update.deep_view()),
{
    let name: bool = match &update.name {
        Some(name) => channel.name.same(name),
        None => true,
    };
    let nsfw: bool = match update.nsfw {
        Some(nsfw) => channel.nsfw == nsfw,
        None => true,
    };
    let slowmode: bool = match update.slowmode_seconds {
        Some(seconds) => channel.slowmode_seconds == seconds,
        None => true,
    };
    let thread_slowmode: bool = match update.default_thread_slowmode_seconds {
        Some(seconds) => channel.default_thread_slowmode_seconds == seconds,
        None => true,
    };
    let overwrites: bool = match &update.overwrites {
        Some(overwrites) => channel.overwrites.same(overwrites),
        None => true,
    };
    name && optional_matches(&channel.parent_id, &update.parent_id) && optional_matches(&channel.topic, &update.topic)
        && nsfw && slowmode && optional_matches(
        &channel.default_auto_archive_minutes,
        &update.default_auto_archive_minutes,
    ) && thread_slowmode && overwrites
}

/// When a change is made, among all changes: categories are created first, then other
/// channels are created and changed, then channels are deleted, and releases come last.
/// A deletion of what is declared as a category comes after all other deletions.
pub open spec fn change_rank(id: Seq<char>, change: ChangeView, definition: DefinitionView) -> int {
    let in_category = declared_attributes(definition, id).kind == Some(ChannelKind::Category);
    match change {
        ChangeView::Create => if in_category {
            0
        } else {
            1
        },
        ChangeView::Update { .. } => 1,
        ChangeView::Delete { .. } => if in_category {
            3
        } else {
            2
        },
        ChangeView::Release { .. } => 4,
    }
}

/// The attributes that a definition gives to a name.
pub open spec fn declared_attributes(definition: DefinitionView, id: Seq<char>) -> ChannelAttributesView {
    match lookup(definition.channels, id) {
        Some(channel) => channel.attributes(),
        None => ChannelAttributesView::none(),
    }
}

fn find_attributes(definition: &DefinitionFile, id: &ChannelLogicalId) -> (attributes: ChannelAttributes)
    ensures
        attributes.deep_view() == declared_attributes(definition.deep_view(), id.deep_view()),
{
    match definition.channels.get(id) {
        Some(channel) => channel.attributes(),
        None => ChannelAttributes::none(),
    }
}

fn rank_change(id: &ChannelLogicalId, change: &Change, definition: &DefinitionFile) -> (rank: u8)
    ensures
        rank == change_rank(id.deep_view(), change.deep_view(), definition.deep_view()),
{
    let in_category: bool = matches!(find_attributes(definition, id).kind, Some(ChannelKind::Category));
    match change {
        Change::Create => if in_category {
            0
        } else {
            1
        },
        Change::Update { .. } => 1,
        Change::Delete { .. } => if in_category {
            3
        } else {
            2
        },
        Change::Release { .. } => 4,
    }
}

/// The changes of one rank, in the order in which they stand.
pub open spec fn of_rank(
    changes: Seq<(Seq<char>, ChangeView)>,
    definition: DefinitionView,
    rank: int,
) -> Seq<(Seq<char>, ChangeView)>
    decreases changes.len(),
{
    if changes.len() == 0 {
        changes
    } else if change_rank(changes.last().0, changes.last().1, definition) == rank {
        of_rank(changes.drop_last(), definition, rank).push(changes.last())
    } else {
        of_rank(changes.drop_last(), definition, rank)
    }
}

/// The changes of the first ranks, rank after rank.
pub open spec fn up_to_rank(
    changes: Seq<(Seq<char>, ChangeView)>,
    definition: DefinitionView,
    ranks: int,
) -> Seq<(Seq<char>, ChangeView)>
    decreases ranks,
{
    if ranks <= 0 {
        Seq::empty()
    } else {
        up_to_rank(changes, definition, ranks - 1) + of_rank(changes, definition, ranks - 1)
    }
}

/// The changes in the order in which they are made.
pub open spec fn in_order(changes: Seq<(Seq<char>, ChangeView)>, definition: DefinitionView) -> Seq<
    (Seq<char>, ChangeView),
> {
    up_to_rank(changes, definition, 5)
}

/// The changes of a plan in the order in which they are made.
pub fn ordered_changes(plan: &Plan, definition: &DefinitionFile) -> (changes: Vec<(ChannelLogicalId, Change)>)
    ensures
        changes.deep_view() == in_order(plan.deep_view().changes, definition.deep_view()),
{
    let ghost all = plan.deep_view().changes;
    let ghost def = definition.deep_view();
    let mut changes: Vec<(ChannelLogicalId, Change)> = Vec::new();
    assert(changes.deep_view() =~= Seq::empty());
    let mut rank: u8 = 0;
    while rank < 5
        invariant
            rank <= 5,
            all == plan.deep_view().changes,
            def == definition.deep_view(),
            changes.deep_view() == up_to_rank(all, def, rank as int),
        decreases 5 - rank,
    {
        let ghost before = changes.deep_view();
        let mut i: usize = 0;
        assert(all.take(0) =~= Seq::empty());
        assert(before + Seq::<(Seq<char>, ChangeView)>::empty() =~= before);
        while i < plan.changes.len()
            invariant
                i <= all.len(),
                all == plan.deep_view().changes,
                def == definition.deep_view(),
                changes.deep_view() == before + of_rank(all.take(i as int), def, rank as int),
            decreases all.len() - i,
        {
            let ghost last = changes.deep_view();
            let id: &ChannelLogicalId = plan.changes.key_at(i);
            let change: &Change = plan.changes.value_at(i);
            proof {
                assert(all.take(i + 1).drop_last() =~= all.take(i as int));
                assert(all.take(i + 1).last() == all[i as int]);
            }
            if rank_change(id, change, definition) == rank {
                changes.push((id.copy(), change.copy()));
                assert(changes.deep_view() =~= last.push(all[i as int]));
                assert(changes.deep_view() =~= before + of_rank(all.take(i as int), def, rank as int).push(
                    all[i as int],
                ));
            }
            i += 1;
        }
        assert(all.take(i as int) =~= all);
        rank += 1;
    }
    changes
}

impl ChannelSessionView {
    /// The session in another phase.
    pub open spec fn to(self, phase: ChannelPhaseView) -> ChannelSessionView {
        ChannelSessionView { phase, ..self }
    }

    /// The session, ended.
    pub open spec fn finished(self, status: ApplyStatusView) -> ChannelSessionView {
        self.to(ChannelPhaseView::Finished(status))
    }

    /// The session after an error: with a result that says so, or without one
    /// where only attributes may change.
    pub open spec fn failed(self, error: ErrorView) -> ChannelSessionView {
        if self.lifecycle is Some {
            self.finished(ApplyStatusView::Failed(error.chars()))
        } else {
            self.to(ChannelPhaseView::Broken(error))
        }
    }

    /// The session after a change was made.
    pub open spec fn marked(self, id: Seq<char>) -> ChannelSessionView {
        match lookup(self.pending.changes, id) {
            None => self,
            Some(change) => ChannelSessionView {
                applied: PlanView {
                    changes: put::<ChannelLogicalId, ChangeView>(self.applied.changes, id, change),
                    create_desired: match lookup(self.pending.create_desired, id) {
                        Some(desired) => put::<ChannelLogicalId, CreateDesiredView>(
                            self.applied.create_desired,
                            id,
                            desired,
                        ),
                        None => self.applied.create_desired,
                    },
                    order: self.applied.order,
                },
                pending: self.pending.without(id),
                ..self
            },
        }
    }

    /// The session after a name was unbound and its change was made.
    pub open spec fn unbound(self, id: Seq<char>) -> ChannelSessionView {
        ChannelSessionView { state: StateView { channels: without(self.state.channels, id), ..self.state }, ..self }.marked(id)
    }

    /// The session after a name was bound and its change was made.
    pub open spec fn bound(self, id: Seq<char>, channel_id: u64) -> ChannelSessionView {
        ChannelSessionView {
            state: StateView { channels: put::<ChannelLogicalId, u64>(self.state.channels, id, channel_id), ..self.state },
            ..self
        }.marked(id)
    }

    /// The session once it is known what channels there are.
    pub open spec fn opened(self, reply: ReplyView<ChannelCatalogView>) -> ChannelSessionView {
        match reply {
            ReplyView::Refused(error) => self.finished(ApplyStatusView::Failed(error.chars())),
            ReplyView::TimedOut => self.finished(ApplyStatusView::DeadlineExceeded),
            ReplyView::Answered(catalog) => ChannelSessionView { catalog, ..self }.to(ChannelPhaseView::Asking),
        }
    }

    /// The session once it is known whether overwrites can be changed.
    pub open spec fn permitted(self, reply: ReplyView<bool>) -> ChannelSessionView {
        match reply {
            ReplyView::Refused(error) => self.finished(ApplyStatusView::Failed(error.chars())),
            ReplyView::TimedOut => self.finished(ApplyStatusView::DeadlineExceeded),
            ReplyView::Answered(can_manage_roles) => match channel_plan(
                self.definition,
                self.state,
                self.catalog,
                can_manage_roles,
            ) {
                Err(error) => self.to(ChannelPhaseView::Broken(error)),
                Ok(plan) => if plan != self.pending {
                    ChannelSessionView { pending: plan, ..self }.finished(ApplyStatusView::ReplanRequired)
                } else {
                    let opened = ChannelSessionView {
                        changes: in_order(plan.changes, self.definition),
                        taken: 0,
                        ..self
                    };
                    match self.lifecycle {
                        None => if !only_updates(plan.changes) {
                            opened.to(ChannelPhaseView::Broken(lifecycle_not_allowed()))
                        } else {
                            opened.to(ChannelPhaseView::Ready)
                        },
                        Some(options) => if !options.allow_deletions && has_deletion(plan.changes) {
                            opened.finished(ApplyStatusView::DeletionPermissionRequired)
                        } else {
                            opened.to(ChannelPhaseView::Ready)
                        },
                    }
                },
            },
        }
    }

    /// The session after it took up a change of attributes.
    pub open spec fn taken_update(
        self,
        id: Seq<char>,
        channel_id: u64,
        attributes: AttributeChangesView,
        now: u64,
    ) -> ChannelSessionView {
        let pending = lookup(self.pending.changes, id);
        if pending is None || !(pending->0 is Update) {
            self
        } else if now >= self.deadline {
            self.finished(ApplyStatusView::DeadlineExceeded)
        } else {
            match first_channel_with_id(self.catalog.channels, channel_id) {
                None => self.failed(
                    ErrorView::InvalidState(
                        "Channel "@ + id + " の Snowflake "@ + decimal(channel_id as nat)
                            + " が Guild に存在しません"@,
                    ),
                ),
                Some(actual) => match attributes.update(actual, self.state) {
                    Err(error) => self.failed(error),
                    Ok(update) => self.to(ChannelPhaseView::Updating { logical_id: id, channel_id, update }),
                },
            }
        }
    }

    /// The session after it took up a creation.
    pub open spec fn taken_create(self, id: Seq<char>, now: u64) -> ChannelSessionView {
        if now >= self.deadline {
            self.finished(ApplyStatusView::DeadlineExceeded)
        } else {
            match created_channel(
                id,
                declared_attributes(self.definition, id),
                self.definition,
                self.state,
                by_id(self.catalog.channels),
            ) {
                Err(error) => self.finished(ApplyStatusView::Failed(error.chars())),
                Ok(create) => self.to(ChannelPhaseView::Creating { logical_id: id, create }),
            }
        }
    }

    /// The session after it took up a deletion.
    pub open spec fn taken_delete(self, id: Seq<char>, channel_id: u64, now: u64) -> ChannelSessionView {
        if now >= self.deadline {
            self.finished(ApplyStatusView::DeadlineExceeded)
        } else if first_channel_with_id(self.catalog.channels, channel_id) is None {
            self.unbound(id)
        } else {
            self.to(ChannelPhaseView::Deleting { logical_id: id, channel_id })
        }
    }

    /// The session after it went on.
    pub open spec fn proceeded(self, now: u64) -> ChannelSessionView {
        if self.taken < self.changes.len() {
            let (id, change) = self.changes[self.taken];
            let session = ChannelSessionView { taken: self.taken + 1, ..self };
            if self.lifecycle is None && !(change is Update) {
                session
            } else {
                match change {
                    ChangeView::Update { discord_id, attributes } => session.taken_update(
                        id,
                        discord_id,
                        attributes,
                        now,
                    ),
                    ChangeView::Create => session.taken_create(id, now),
                    ChangeView::Delete { discord_id } => session.taken_delete(id, discord_id, now),
                    ChangeView::Release { .. } => session.unbound(id),
                }
            }
        } else {
            self.finished(ApplyStatusView::Complete)
        }
    }

    /// The session after the reply to an update.
    pub open spec fn updated(
        self,
        id: Seq<char>,
        channel_id: u64,
        update: ChannelUpdateView,
        reply: ReplyView<ChannelUpdateOutcome>,
    ) -> ChannelSessionView {
        match reply {
            ReplyView::Refused(error) => self.finished(ApplyStatusView::Failed(error.chars())),
            ReplyView::Answered(ChannelUpdateOutcome::Applied) => self.marked(id).to(
                ChannelPhaseView::CheckingUpdate { logical_id: id, channel_id, update },
            ),
            _ => self.finished(ApplyStatusView::ResponseUnknown),
        }
    }

    /// The session after the reply to a creation.
    pub open spec fn created(self, id: Seq<char>, reply: ReplyView<ChannelCreateOutcomeView>) -> ChannelSessionView {
        match reply {
            ReplyView::Refused(error) => self.finished(ApplyStatusView::Failed(error.chars())),
            ReplyView::Answered(ChannelCreateOutcomeView::Created(channel_id)) => if holder(self.state.channels, channel_id)
                is Some {
                self.finished(
                    ApplyStatusView::Failed(
                        "新しく作成した Channel "@ + decimal(channel_id as nat) + " は既存の対応と衝突しています"@,
                    ),
                )
            } else {
                self.bound(id, channel_id).to(ChannelPhaseView::Refreshing)
            },
            _ => self.finished(ApplyStatusView::CreationResponseUnknown),
        }
    }

    /// The session after the reply to a deletion.
    pub open spec fn deleted(self, id: Seq<char>, reply: ReplyView<ChannelDeleteOutcome>) -> ChannelSessionView {
        match reply {
            ReplyView::Refused(ErrorView::ChannelPermissionDenied(message)) => self.finished(
                ApplyStatusView::DeletionPermissionDenied(message),
            ),
            ReplyView::Refused(error) => self.finished(ApplyStatusView::Failed(error.chars())),
            ReplyView::Answered(ChannelDeleteOutcome::Deleted) => self.unbound(id).to(ChannelPhaseView::Refreshing),
            _ => self.finished(ApplyStatusView::DeletionResponseUnknown),
        }
    }

    /// The session after the channels were read once more.
    pub open spec fn refreshed(self, reply: ReplyView<ChannelCatalogView>) -> ChannelSessionView {
        match reply {
            ReplyView::Refused(error) => self.finished(ApplyStatusView::Failed(error.chars())),
            ReplyView::TimedOut => self.finished(ApplyStatusView::DeadlineExceeded),
            ReplyView::Answered(catalog) => ChannelSessionView { catalog, ..self }.to(ChannelPhaseView::Ready),
        }
    }

    /// The session after the channels were read after an update.
    pub open spec fn checked_update(
        self,
        id: Seq<char>,
        channel_id: u64,
        update: ChannelUpdateView,
        reply: ReplyView<ChannelCatalogView>,
    ) -> ChannelSessionView {
        let refreshed = self.refreshed(reply);
        if refreshed.phase is Ready {
            let channel = first_channel_with_id(refreshed.catalog.channels, channel_id);
            if channel is Some && has_values(channel->0, update) {
                refreshed
            } else {
                refreshed.finished(
                    ApplyStatusView::Failed("Channel "@ + id + " の更新後の値が希望値と一致しません"@),
                )
            }
        } else {
            refreshed
        }
    }

    /// The session after it was told something. What it does not wait for leaves it as it is.
    pub open spec fn after(self, event: ChannelEventView, now: u64) -> ChannelSessionView {
        match (self.phase, event) {
            (ChannelPhaseView::Opening, ChannelEventView::Catalog(reply)) => self.opened(reply),
            (ChannelPhaseView::Asking, ChannelEventView::Permitted(reply)) => self.permitted(reply),
            (ChannelPhaseView::Ready, ChannelEventView::Proceed) => self.proceeded(now),
            (ChannelPhaseView::Updating { logical_id, channel_id, update }, ChannelEventView::Updated(reply)) => self.updated(
                logical_id,
                channel_id,
                update,
                reply,
            ),
            (ChannelPhaseView::CheckingUpdate { logical_id, channel_id, update }, ChannelEventView::Catalog(reply)) =>
                self.checked_update(logical_id, channel_id, update, reply),
            (ChannelPhaseView::Creating { logical_id, .. }, ChannelEventView::Created(reply)) => self.created(
                logical_id,
                reply,
            ),
            (ChannelPhaseView::Deleting { logical_id, .. }, ChannelEventView::Deleted(reply)) => self.deleted(
                logical_id,
                reply,
            ),
            (ChannelPhaseView::Refreshing, ChannelEventView::Catalog(reply)) => self.refreshed(reply),
            _ => self,
        }
    }

    /// What the session asks for.
    pub open spec fn action(self) -> ChannelActionView {
        match self.phase {
            ChannelPhaseView::Opening => ChannelActionView::ReadCatalog { until: self.deadline },
            ChannelPhaseView::Asking => ChannelActionView::ReadPermission { until: self.deadline },
            ChannelPhaseView::Ready => ChannelActionView::Proceed,
            ChannelPhaseView::Updating { channel_id, update, .. } => ChannelActionView::Update {
                channel_id,
                update,
                until: self.deadline,
            },
            ChannelPhaseView::Creating { create, .. } => ChannelActionView::Create { create, until: self.deadline },
            ChannelPhaseView::Deleting { channel_id, .. } => ChannelActionView::Delete { channel_id, until: self.deadline },
            ChannelPhaseView::CheckingUpdate { .. } | ChannelPhaseView::Refreshing =>
                ChannelActionView::ReadCatalog { until: refresh_until(self.deadline) },
            ChannelPhaseView::Finished(_) | ChannelPhaseView::Broken(_) => ChannelActionView::Finish,
        }
    }

    /// The result of the session, once it has ended.
    pub open spec fn result(self) -> Result<ChannelApplyResultView, ErrorView> {
        match self.phase {
            ChannelPhaseView::Finished(status) => Ok(
                ChannelApplyResultView {
                    status,
                    applied: self.applied,
                    pending: self.pending,
                    state_json: state_text(self.state),
                },
            ),
            ChannelPhaseView::Broken(error) => Err(error),
            _ => arbitrary(),
        }
    }
}

/// Why an application that only changes attributes has no result: another change is in the plan.
pub open spec fn lifecycle_not_allowed() -> ErrorView {
    ErrorView::InvalidState(
        "属性更新専用の apply_channel_updates には Channel の lifecycle 変更を含められません"@,
    )
}

/// A session at its start.
pub open spec fn new_session(
    input: (DefinitionView, StateView),
    plan: PlanView,
    lifecycle: Option<ChannelApplyOptions>,
    acquired: bool,
    now: u64,
    deadline: u64,
) -> ChannelSessionView {
    ChannelSessionView {
        definition: input.0,
        state: input.1,
        catalog: ChannelCatalogView::none(),
        applied: PlanView::none(),
        pending: plan,
        changes: Seq::empty(),
        taken: 0,
        lifecycle,
        deadline,
        phase: if !acquired {
            ChannelPhaseView::Finished(ApplyStatusView::GuildBusy)
        } else if now >= deadline {
            ChannelPhaseView::Finished(ApplyStatusView::DeadlineExceeded)
        } else {
            ChannelPhaseView::Opening
        },
    }
}

fn failure(error: &ManagementError) -> (status: ChannelApplyStatus)
    ensures
        status.deep_view() == ApplyStatusView::Failed(error.deep_view().chars()),
{
    ChannelApplyStatus::Failed(error.to_text())
}

impl ChannelApplySession {
    fn new(
        input: PlanInput,
        confirmed_plan: &Plan,
        lifecycle: Option<ChannelApplyOptions>,
        acquired: bool,
        now: u64,
        deadline: u64,
    ) -> (session: Self)
        ensures
            session.deep_view() == new_session(
                input.deep_view(),
                confirmed_plan.deep_view(),
                lifecycle,
                acquired,
                now,
                deadline,
            ),
    {
        let changes: Vec<(ChannelLogicalId, Change)> = Vec::new();
        assert(changes.deep_view() =~= Seq::empty());
        ChannelApplySession {
            definition: input.definition,
            state: input.state,
            catalog: ChannelCatalog::none(),
            applied: Plan::none(),
            pending: confirmed_plan.copy(),
            changes,
            taken: 0,
            lifecycle,
            deadline,
            phase: if !acquired {
                ChannelPhase::Finished(ChannelApplyStatus::GuildBusy)
            } else if now >= deadline {
                ChannelPhase::Finished(ChannelApplyStatus::DeadlineExceeded)
            } else {
                ChannelPhase::Opening
            },
        }
    }

    /// Starts to apply a plan that only changes attributes. `acquired` says whether
    /// the guild was free.
    pub fn apply_channel_updates(
        input: PlanInput,
        confirmed_plan: &Plan,
        acquired: bool,
        now: u64,
        deadline: u64,
    ) -> (session: Self)
        ensures
            session.deep_view() == new_session(
                input.deep_view(),
                confirmed_plan.deep_view(),
                None,
                acquired,
                now,
                deadline,
            ),
    {
        ChannelApplySession::new(input, confirmed_plan, None, acquired, now, deadline)
    }

    /// Starts to apply a plan. `acquired` says whether the guild was free.
    pub fn apply_channels_with_options(
        input: PlanInput,
        confirmed_plan: &Plan,
        options: ChannelApplyOptions,
        acquired: bool,
        now: u64,
        deadline: u64,
    ) -> (session: Self)
        ensures
            session.deep_view() == new_session(
                input.deep_view(),
                confirmed_plan.deep_view(),
                if only_updates(confirmed_plan.deep_view().changes) {
                    None
                } else {
                    Some(options)
                },
                acquired,
                now,
                deadline,
            ),
    {
        let lifecycle: Option<ChannelApplyOptions> = if confirmed_plan.only_updates() {
            None
        } else {
            Some(options)
        };
        ChannelApplySession::new(input, confirmed_plan, lifecycle, acquired, now, deadline)
    }

    /// Starts to apply a plan without deletions.
    pub fn apply_channels(
        input: PlanInput,
        confirmed_plan: &Plan,
        acquired: bool,
        now: u64,
        deadline: u64,
    ) -> (session: Self)
        ensures
            session.deep_view() == new_session(
                input.deep_view(),
                confirmed_plan.deep_view(),
                if only_updates(confirmed_plan.deep_view().changes) {
                    None
                } else {
                    Some(ChannelApplyOptions { allow_deletions: false })
                },
                acquired,
                now,
                deadline,
            ),
    {
        ChannelApplySession::apply_channels_with_options(
            input,
            confirmed_plan,
            ChannelApplyOptions { allow_deletions: false },
            acquired,
            now,
            deadline,
        )
    }

    fn finish(&mut self, status: ChannelApplyStatus)
        ensures
            final(self).deep_view() == old(self).deep_view().finished(status.deep_view()),
    {
        self.phase = ChannelPhase::Finished(status);
    }

    fn fail(&mut self, error: ManagementError)
        ensures
            final(self).deep_view() == old(self).deep_view().failed(error.deep_view()),
    {
        self.phase = if self.lifecycle.is_some() {
            ChannelPhase::Finished(failure(&error))
        } else {
            ChannelPhase::Broken(error)
        };
    }

    fn mark_applied(&mut self, logical_id: &ChannelLogicalId)
        ensures
            final(self).deep_view() == old(self).deep_view().marked(logical_id.deep_view()),
    {
        let change: Change = match self.pending.changes.get(logical_id) {
            None => {
                return;
            },
            Some(change) => change.copy(),
        };
        let desired: Option<CreateDesired> = match self.pending.create_desired.get(logical_id) {
            None => None,
            Some(desired) => Some(desired.copy()),
        };
        self.pending.remove(logical_id);
        self.applied.insert(logical_id.copy(), change);
        match desired {
            None => {},
            Some(desired) => self.applied.create_desired.insert(logical_id.copy(), desired),
        }
    }

    fn unbind(&mut self, logical_id: &ChannelLogicalId)
        ensures
            final(self).deep_view() == old(self).deep_view().unbound(logical_id.deep_view()),
    {
        self.state.channels.remove(logical_id);
        self.mark_applied(logical_id);
    }

    fn open(&mut self, reply: Reply<ChannelCatalog>)
        ensures
            final(self).deep_view() == old(self).deep_view().opened(reply.deep_view()),
    {
        match reply {
            Reply::Refused(error) => self.finish(failure(&error)),
            Reply::TimedOut => self.finish(ChannelApplyStatus::DeadlineExceeded),
            Reply::Answered(catalog) => {
                self.catalog = catalog;
                self.phase = ChannelPhase::Asking;
            },
        }
    }

    fn receive_permission(&mut self, reply: Reply<bool>)
        ensures
            final(self).deep_view() == old(self).deep_view().permitted(reply.deep_view()),
    {
        let can_manage_roles: bool = match reply {
            Reply::Refused(error) => {
                self.finish(failure(&error));
                return;
            },
            Reply::TimedOut => {
                self.finish(ChannelApplyStatus::DeadlineExceeded);
                return;
            },
            Reply::Answered(can_manage_roles) => can_manage_roles,
        };
        let plan: Plan = match build_channel_plan_with_capabilities(
            &self.definition,
            &self.state,
            &self.catalog,
            can_manage_roles,
        ) {
            Err(error) => {
                self.phase = ChannelPhase::Broken(error);
                return;
            },
            Ok(plan) => plan,
        };
        if !plan.same(&self.pending) {
            self.pending = plan;
            self.finish(ChannelApplyStatus::ReplanRequired);
            return;
        }
        self.changes = ordered_changes(&plan, &self.definition);
        self.taken = 0;
        match self.lifecycle {
            None => if !plan.only_updates() {
                self.phase = ChannelPhase::Broken(
                    ManagementError::InvalidState(
                        "属性更新専用の apply_channel_updates には Channel の lifecycle 変更を含められません".to_owned(),
                    ),
                );
            } else {
                self.phase = ChannelPhase::Ready;
            },
            Some(options) => if !options.allow_deletions && plan.contains_deletions() {
                self.finish(ChannelApplyStatus::DeletionPermissionRequired);
            } else {
                self.phase = ChannelPhase::Ready;
            },
        }
    }

    fn take_update(
        &mut self,
        logical_id: ChannelLogicalId,
        channel_id: ChannelId,
        attributes: &AttributeChanges,
        now: u64,
    )
        ensures
            final(self).deep_view() == old(self).deep_view().taken_update(
                logical_id.deep_view(),
                channel_id.deep_view(),
                attributes.deep_view(),
                now,
            ),
    {
        match self.pending.changes.get(&logical_id) {
            None => {
                return;
            },
            Some(change) => {
                if !change.is_update() {
                    return;
                }
            },
        }
        if now >= self.deadline {
            self.finish(ChannelApplyStatus::DeadlineExceeded);
            return;
        }
        let update: ChannelUpdate = match find_first_channel(&self.catalog.channels, channel_id.get()) {
            None => {
                let error = ManagementError::InvalidState(
                    text5(
                        "Channel ",
                        logical_id.as_str(),
                        " の Snowflake ",
                        channel_id.to_text().as_str(),
                        " が Guild に存在しません",
                    ),
                );
                self.fail(error);
                return;
            },
            Some(actual) => match attributes.to_update(actual, &self.state) {
                Err(error) => {
                    self.fail(error);
                    return;
                },
                Ok(update) => update,
            },
        };
        self.phase = ChannelPhase::Updating { logical_id, channel_id, update };
    }

    fn take_create(&mut self, logical_id: ChannelLogicalId, now: u64)
        ensures
            final(self).deep_view() == old(self).deep_view().taken_create(logical_id.deep_view(), now),
    {
        if now >= self.deadline {
            self.finish(ChannelApplyStatus::DeadlineExceeded);
            return;
        }
        let attributes: ChannelAttributes = find_attributes(&self.definition, &logical_id);
        let actual: ActualChannels = channels_by_id(&self.catalog);
        let create: ChannelCreate = match desired_channel_create_with_catalog(
            &attributes,
            &logical_id,
            &self.state,
            &self.definition,
            &actual,
        ) {
            Err(error) => {
                self.finish(failure(&error));
                return;
            },
            Ok(create) => create,
        };
        self.phase = ChannelPhase::Creating { logical_id, create };
    }

    fn take_delete(&mut self, logical_id: ChannelLogicalId, channel_id: ChannelId, now: u64)
        ensures
            final(self).deep_view() == old(self).deep_view().taken_delete(
                logical_id.deep_view(),
                channel_id.deep_view(),
                now,
            ),
    {
        if now >= self.deadline {
            self.finish(ChannelApplyStatus::DeadlineExceeded);
        } else if find_first_channel(&self.catalog.channels, channel_id.get()).is_none() {
            self.unbind(&logical_id);
        } else {
            self.phase = ChannelPhase::Deleting { logical_id, channel_id };
        }
    }

    fn proceed(&mut self, now: u64)
        ensures
            final(self).deep_view() == old(self).deep_view().proceeded(now),
    {
        if self.taken < self.changes.len() {
            let logical_id: ChannelLogicalId = self.changes[self.taken].0.copy();
            let change: Change = self.changes[self.taken].1.copy();
            assert(self.deep_view().changes[self.taken as int] == (logical_id.deep_view(), change.deep_view()));
            self.taken += 1;
            match change {
                Change::Update { discord_id, attributes } => self.take_update(logical_id, discord_id, &attributes, now),
                Change::Create => match self.lifecycle {
                    None => {},
                    Some(_) => self.take_create(logical_id, now),
                },
                Change::Delete { discord_id } => match self.lifecycle {
                    None => {},
                    Some(_) => self.take_delete(logical_id, discord_id, now),
                },
                Change::Release { .. } => match self.lifecycle {
                    None => {},
                    Some(_) => self.unbind(&logical_id),
                },
            }
        } else {
            self.finish(ChannelApplyStatus::Complete);
        }
    }

    fn receive_update(
        &mut self,
        logical_id: ChannelLogicalId,
        channel_id: ChannelId,
        update: ChannelUpdate,
        reply: Reply<ChannelUpdateOutcome>,
    )
        ensures
            final(self).deep_view() == old(self).deep_view().updated(
                logical_id.deep_view(),
                channel_id.deep_view(),
                update.deep_view(),
                reply.deep_view(),
            ),
    {
        match reply {
            Reply::Refused(error) => self.finish(failure(&error)),
            Reply::Answered(ChannelUpdateOutcome::Applied) => {
                self.mark_applied(&logical_id);
                self.phase = ChannelPhase::CheckingUpdate { logical_id, channel_id, update };
            },
            Reply::Answered(ChannelUpdateOutcome::ResponseUnknown) => self.finish(ChannelApplyStatus::ResponseUnknown),
            Reply::TimedOut => self.finish(ChannelApplyStatus::ResponseUnknown),
        }
    }

    fn receive_creation(&mut self, logical_id: ChannelLogicalId, reply: Reply<ChannelCreateOutcome>)
        ensures
            final(self).deep_view() == old(self).deep_view().created(logical_id.deep_view(), reply.deep_view()),
    {
        match reply {
            Reply::Refused(error) => self.finish(failure(&error)),
            Reply::Answered(ChannelCreateOutcome::Created(channel_id)) => {
                if find_name(&self.state.channels, channel_id.get()).is_some() {
                    self.finish(
                        ChannelApplyStatus::Failed(
                            text3(
                                "新しく作成した Channel ",
                                channel_id.to_text().as_str(),
                                " は既存の対応と衝突しています",
                            ),
                        ),
                    );
                } else {
                    self.state.channels.insert(logical_id.copy(), channel_id);
                    self.mark_applied(&logical_id);
                    self.phase = ChannelPhase::Refreshing;
                }
            },
            Reply::Answered(ChannelCreateOutcome::ResponseUnknown) => self.finish(
                ChannelApplyStatus::CreationResponseUnknown,
            ),
            Reply::TimedOut => self.finish(ChannelApplyStatus::CreationResponseUnknown),
        }
    }

    fn receive_deletion(&mut self, logical_id: ChannelLogicalId, reply: Reply<ChannelDeleteOutcome>)
        ensures
            final(self).deep_view() == old(self).deep_view().deleted(logical_id.deep_view(), reply.deep_view()),
    {
        match reply {
            Reply::Refused(error) => match error {
                ManagementError::ChannelPermissionDenied(message) => self.finish(
                    ChannelApplyStatus::DeletionPermissionDenied(message),
                ),
                error => self.finish(failure(&error)),
            },
            Reply::Answered(ChannelDeleteOutcome::Deleted) => {
                self.unbind(&logical_id);
                self.phase = ChannelPhase::Refreshing;
            },
            Reply::Answered(ChannelDeleteOutcome::ResponseUnknown) => self.finish(
                ChannelApplyStatus::DeletionResponseUnknown,
            ),
            Reply::TimedOut => self.finish(ChannelApplyStatus::DeletionResponseUnknown),
        }
    }

    fn receive_catalog(&mut self, reply: Reply<ChannelCatalog>) -> (ready: bool)
        ensures
            final(self).deep_view() == old(self).deep_view().refreshed(reply.deep_view()),
            ready == (final(self).deep_view().phase is Ready),
    {
        match reply {
            Reply::Refused(error) => {
                self.finish(failure(&error));
                false
            },
            Reply::TimedOut => {
                self.finish(ChannelApplyStatus::DeadlineExceeded);
                false
            },
            Reply::Answered(catalog) => {
                self.catalog = catalog;
                self.phase = ChannelPhase::Ready;
                true
            },
        }
    }

    fn check_update(
        &mut self,
        logical_id: ChannelLogicalId,
        channel_id: ChannelId,
        update: ChannelUpdate,
        reply: Reply<ChannelCatalog>,
    )
        ensures
            final(self).deep_view() == old(self).deep_view().checked_update(
                logical_id.deep_view(),
                channel_id.deep_view(),
                update.deep_view(),
                reply.deep_view(),
            ),
    {
        if self.receive_catalog(reply) {
            let matches: bool = match find_first_channel(&self.catalog.channels, channel_id.get()) {
                Some(channel) => channel_matches_update(channel, &update),
                None => false,
            };
            if !matches {
                self.finish(
                    ChannelApplyStatus::Failed(
                        text3("Channel ", logical_id.as_str(), " の更新後の値が希望値と一致しません"),
                    ),
                );
            }
        }
    }

    /// Tells the session something.
    pub fn step(&mut self, event: ChannelEvent, now: u64)
        ensures
            final(self).deep_view() == old(self).deep_view().after(event.deep_view(), now),
    {
        match event {
            ChannelEvent::Proceed => {
                if matches!(self.phase, ChannelPhase::Ready) {
                    self.proceed(now);
                }
            },
            ChannelEvent::Updated(reply) => {
                let (logical_id, channel_id, update): (ChannelLogicalId, ChannelId, ChannelUpdate) = match &self.phase {
                    ChannelPhase::Updating { logical_id, channel_id, update } => (logical_id.copy(), *channel_id, update.copy()),
                    _ => {
                        return;
                    },
                };
                self.receive_update(logical_id, channel_id, update, reply);
            },
            ChannelEvent::Created(reply) => {
                let logical_id: ChannelLogicalId = match &self.phase {
                    ChannelPhase::Creating { logical_id, .. } => logical_id.copy(),
                    _ => {
                        return;
                    },
                };
                self.receive_creation(logical_id, reply);
            },
            ChannelEvent::Deleted(reply) => {
                let logical_id: ChannelLogicalId = match &self.phase {
                    ChannelPhase::Deleting { logical_id, .. } => logical_id.copy(),
                    _ => {
                        return;
                    },
                };
                self.receive_deletion(logical_id, reply);
            },
            ChannelEvent::Permitted(reply) => {
                if matches!(self.phase, ChannelPhase::Asking) {
                    self.receive_permission(reply);
                }
            },
            ChannelEvent::Catalog(reply) => self.step_with_catalog(reply),
        }
    }

    fn step_with_catalog(&mut self, reply: Reply<ChannelCatalog>)
        ensures
            forall|now: u64|
                final(self).deep_view() == #[trigger] old(self).deep_view().after(
                    ChannelEventView::Catalog(reply.deep_view()),
                    now,
                ),
    {
        if matches!(self.phase, ChannelPhase::Opening) {
            self.open(reply);
            return;
        }
        if matches!(self.phase, ChannelPhase::Refreshing) {
            let _ = self.receive_catalog(reply);
            return;
        }
        let (logical_id, channel_id, update): (ChannelLogicalId, ChannelId, ChannelUpdate) = match &self.phase {
            ChannelPhase::CheckingUpdate { logical_id, channel_id, update } => (
                logical_id.copy(),
                *channel_id,
                update.copy(),
            ),
            _ => {
                return;
            },
        };
        self.check_update(logical_id, channel_id, update, reply);
    }

    /// What the session asks for.
    pub fn action(&self) -> (action: ChannelAction)
        ensures
            action.deep_view() == self.deep_view().action(),
    {
        let until: u64 = self.deadline;
        match &self.phase {
            ChannelPhase::Opening => ChannelAction::ReadCatalog { until },
            ChannelPhase::Asking => ChannelAction::ReadPermission { until },
            ChannelPhase::Ready => ChannelAction::Proceed,
            ChannelPhase::Updating { channel_id, update, .. } => ChannelAction::Update {
                channel_id: *channel_id,
                update: update.copy(),
                until,
            },
            ChannelPhase::Creating { create, .. } => ChannelAction::Create { create: create.copy(), until },
            ChannelPhase::Deleting { channel_id, .. } => ChannelAction::Delete { channel_id: *channel_id, until },
            ChannelPhase::CheckingUpdate { .. } => ChannelAction::ReadCatalog { until: refresh_deadline(until) },
            ChannelPhase::Refreshing => ChannelAction::ReadCatalog { until: refresh_deadline(until) },
            ChannelPhase::Finished(_) => ChannelAction::Finish,
            ChannelPhase::Broken(_) => ChannelAction::Finish,
        }
    }

    /// The result of the session.
    pub fn into_result(self) -> (result: Result<ChannelApplyResult, ManagementError>)
        requires
            self.deep_view().action() is Finish,
        ensures
            seen(result) == self.deep_view().result(),
    {
        match self.phase {
            ChannelPhase::Finished(status) => {
                let state_json: String = serialize_state(&self.state)?;
                Ok(ChannelApplyResult { status, applied: self.applied, pending: self.pending, state_json })
            },
            ChannelPhase::Broken(error) => Err(error),
            _ => {
                assert(false);
                Err(ManagementError::InvalidState(String::new()))
            },
        }
    }
}

impl ChannelSessionView {
    /// Whether a change of a name is either still to be made or was made, and not both.
    pub open spec fn accounts_for(self, id: Seq<char>, change: Option<ChangeView>) -> bool {
        ||| lookup(self.applied.changes, id) == change && lookup(self.pending.changes, id) is None
        ||| lookup(self.pending.changes, id) == change && lookup(self.applied.changes, id) is None
    }

    /// Whether the session has ended.
    pub open spec fn is_over(self) -> bool {
        self.phase is Finished || self.phase is Broken
    }

    /// Whether deletions are allowed.
    pub open spec fn may_delete(self) -> bool {
        self.lifecycle is Some && self.lifecycle->0.allow_deletions
    }

    /// How many replies may still be needed once the channels were read.
    pub open spec fn steps_left(self) -> int {
        let changes = 3 * (self.changes.len() - self.taken);
        match self.phase {
            ChannelPhaseView::Opening => 1,
            ChannelPhaseView::Asking => 0,
            ChannelPhaseView::Ready => changes + 3,
            ChannelPhaseView::Updating { .. } | ChannelPhaseView::Creating { .. } | ChannelPhaseView::Deleting { .. } => changes
                + 5,
            ChannelPhaseView::CheckingUpdate { .. } | ChannelPhaseView::Refreshing => changes + 4,
            ChannelPhaseView::Finished(_) | ChannelPhaseView::Broken(_) => 0,
        }
    }
}

/// Whether an event is a reply to what was asked for.
pub open spec fn answers(event: ChannelEventView, action: ChannelActionView) -> bool {
    match action {
        ChannelActionView::Proceed => event is Proceed,
        ChannelActionView::Update { .. } => event is Updated,
        ChannelActionView::Create { .. } => event is Created,
        ChannelActionView::Delete { .. } => event is Deleted,
        ChannelActionView::ReadPermission { .. } => event is Permitted,
        ChannelActionView::ReadCatalog { .. } => event is Catalog,
        ChannelActionView::Finish => false,
    }
}

proof fn marked_accounts_for(session: ChannelSessionView, marked: Seq<char>, id: Seq<char>, change: Option<ChangeView>)
    requires
        session.accounts_for(id, change),
    ensures
        session.marked(marked).accounts_for(id, change),
{
    if lookup(session.pending.changes, marked) is Some {
        let moved = lookup(session.pending.changes, marked)->0;
        put_then_lookup::<ChannelLogicalId, ChangeView>(session.applied.changes, marked, moved, id);
        without_then_lookup(session.pending.changes, marked, id);
    }
}

/// At the start every change of the plan is still to be made.
pub proof fn a_new_session_accounts_for_the_plan(
    input: (DefinitionView, StateView),
    plan: PlanView,
    lifecycle: Option<ChannelApplyOptions>,
    acquired: bool,
    now: u64,
    deadline: u64,
    id: Seq<char>,
)
    ensures
        new_session(input, plan, lifecycle, acquired, now, deadline).accounts_for(id, lookup(plan.changes, id)),
{
}

/// No step loses a change or makes one twice: what is made and what is still to be
/// made add up to the plan. Only where the plan is out of date, the new plan takes its place.
pub proof fn steps_account_for_the_plan(
    session: ChannelSessionView,
    event: ChannelEventView,
    now: u64,
    id: Seq<char>,
    change: Option<ChangeView>,
)
    requires
        session.accounts_for(id, change),
        session.phase is Asking ==> session.after(event, now).phase != ChannelPhaseView::Finished(
            ApplyStatusView::ReplanRequired,
        ),
    ensures
        session.after(event, now).accounts_for(id, change),
{
    let (taken_id, _) = session.changes[session.taken];
    let taken = ChannelSessionView { taken: session.taken + 1, ..session };
    let unbound = ChannelSessionView {
        state: StateView { channels: without(taken.state.channels, taken_id), ..taken.state },
        ..taken
    };
    marked_accounts_for(unbound, taken_id, id, change);
    match (session.phase, event) {
        (ChannelPhaseView::Updating { logical_id, .. }, ChannelEventView::Updated(_)) => {
            marked_accounts_for(session, logical_id, id, change);
        },
        (
            ChannelPhaseView::Creating { logical_id, .. },
            ChannelEventView::Created(ReplyView::Answered(ChannelCreateOutcomeView::Created(channel_id))),
        ) => {
            let bound = ChannelSessionView {
                state: StateView {
                    channels: put::<ChannelLogicalId, u64>(session.state.channels, logical_id, channel_id),
                    ..session.state
                },
                ..session
            };
            marked_accounts_for(bound, logical_id, id, change);
        },
        (ChannelPhaseView::Deleting { logical_id, .. }, ChannelEventView::Deleted(_)) => {
            let unbound = ChannelSessionView {
                state: StateView { channels: without(session.state.channels, logical_id), ..session.state },
                ..session
            };
            marked_accounts_for(unbound, logical_id, id, change);
        },
        _ => {},
    }
}

impl ChannelSessionView {
    /// Whether deletions are under way only where they are allowed.
    pub open spec fn deletes_with_permission(self) -> bool {
        &&& self.phase is Deleting ==> self.may_delete()
        &&& self.phase is Opening || self.phase is Asking || self.is_over() || (has_deletion(self.changes)
            ==> self.may_delete())
    }
}

proof fn of_rank_members(changes: Seq<(Seq<char>, ChangeView)>, definition: DefinitionView, rank: int, i: int)
    requires
        0 <= i < of_rank(changes, definition, rank).len(),
    ensures
        changes.contains(of_rank(changes, definition, rank)[i]),
        change_rank(
            of_rank(changes, definition, rank)[i].0,
            of_rank(changes, definition, rank)[i].1,
            definition,
        ) == rank,
    decreases changes.len(),
{
    let ranked = of_rank(changes, definition, rank);
    let rest = of_rank(changes.drop_last(), definition, rank);
    if i < rest.len() {
        of_rank_members(changes.drop_last(), definition, rank, i);
        assert(ranked[i] == rest[i]);
        let j = changes.drop_last().index_of(rest[i]);
        assert(changes[j] == ranked[i]);
    } else {
        assert(ranked[i] == changes.last());
    }
}

proof fn up_to_rank_members(changes: Seq<(Seq<char>, ChangeView)>, definition: DefinitionView, ranks: int, i: int)
    requires
        0 <= i < up_to_rank(changes, definition, ranks).len(),
    ensures
        changes.contains(up_to_rank(changes, definition, ranks)[i]),
        change_rank(
            up_to_rank(changes, definition, ranks)[i].0,
            up_to_rank(changes, definition, ranks)[i].1,
            definition,
        ) < ranks,
    decreases ranks,
{
    let before = up_to_rank(changes, definition, ranks - 1);
    if i < before.len() {
        up_to_rank_members(changes, definition, ranks - 1, i);
    } else {
        of_rank_members(changes, definition, ranks - 1, i - before.len());
    }
}

proof fn up_to_rank_is_sorted(
    changes: Seq<(Seq<char>, ChangeView)>,
    definition: DefinitionView,
    ranks: int,
    i: int,
    j: int,
)
    requires
        0 <= i < j < up_to_rank(changes, definition, ranks).len(),
    ensures
        change_rank(
            up_to_rank(changes, definition, ranks)[i].0,
            up_to_rank(changes, definition, ranks)[i].1,
            definition,
        ) <= change_rank(
            up_to_rank(changes, definition, ranks)[j].0,
            up_to_rank(changes, definition, ranks)[j].1,
            definition,
        ),
    decreases ranks,
{
    let before = up_to_rank(changes, definition, ranks - 1);
    if j < before.len() {
        up_to_rank_is_sorted(changes, definition, ranks - 1, i, j);
    } else {
        of_rank_members(changes, definition, ranks - 1, j - before.len());
        if i < before.len() {
            up_to_rank_members(changes, definition, ranks - 1, i);
        } else {
            of_rank_members(changes, definition, ranks - 1, i - before.len());
        }
    }
}

proof fn up_to_rank_with_last(
    changes: Seq<(Seq<char>, ChangeView)>,
    last: (Seq<char>, ChangeView),
    definition: DefinitionView,
    ranks: int,
)
    requires
        0 <= ranks,
    ensures
        up_to_rank(changes.push(last), definition, ranks).to_multiset() == if change_rank(
            last.0,
            last.1,
            definition,
        ) < ranks {
            up_to_rank(changes, definition, ranks).to_multiset().insert(last)
        } else {
            up_to_rank(changes, definition, ranks).to_multiset()
        },
    decreases ranks,
{
    broadcast use vstd::seq_lib::group_to_multiset_ensures;

    let all = changes.push(last);
    assert(all.drop_last() =~= changes);
    if ranks > 0 {
        up_to_rank_with_last(changes, last, definition, ranks - 1);
        let before = up_to_rank(changes, definition, ranks - 1);
        let ranked = of_rank(changes, definition, ranks - 1);
        vstd::seq_lib::lemma_multiset_commutative(before, ranked);
        vstd::seq_lib::lemma_multiset_commutative(
            up_to_rank(all, definition, ranks - 1),
            of_rank(all, definition, ranks - 1),
        );
        assert(up_to_rank(all, definition, ranks).to_multiset() =~= if change_rank(last.0, last.1, definition)
            < ranks {
            up_to_rank(changes, definition, ranks).to_multiset().insert(last)
        } else {
            up_to_rank(changes, definition, ranks).to_multiset()
        });
    }
}

/// The order in which changes are made holds each of them as often as the plan, and
/// keeps to their ranks.
pub proof fn the_order_holds_all_changes(changes: Seq<(Seq<char>, ChangeView)>, definition: DefinitionView)
    ensures
        in_order(changes, definition).to_multiset() == changes.to_multiset(),
        forall|i: int, j: int|
            0 <= i < j < in_order(changes, definition).len() ==> change_rank(
                (#[trigger] in_order(changes, definition)[i]).0,
                in_order(changes, definition)[i].1,
                definition,
            ) <= change_rank(
                (#[trigger] in_order(changes, definition)[j]).0,
                in_order(changes, definition)[j].1,
                definition,
            ),
    decreases changes.len(),
{
    broadcast use vstd::seq_lib::group_to_multiset_ensures;

    let ordered = in_order(changes, definition);
    if changes.len() > 0 {
        the_order_holds_all_changes(changes.drop_last(), definition);
        up_to_rank_with_last(changes.drop_last(), changes.last(), definition, 5);
        assert(changes.drop_last().push(changes.last()) =~= changes);
    } else {
        assert(of_rank(changes, definition, 0) =~= Seq::empty());
        assert(of_rank(changes, definition, 1) =~= Seq::empty());
        assert(of_rank(changes, definition, 2) =~= Seq::empty());
        assert(of_rank(changes, definition, 3) =~= Seq::empty());
        assert(of_rank(changes, definition, 4) =~= Seq::empty());
        reveal_with_fuel(up_to_rank, 6);
        assert(ordered =~= changes);
    }
    assert forall|i: int, j: int| 0 <= i < j < ordered.len() implies change_rank(
        (#[trigger] ordered[i]).0,
        ordered[i].1,
        definition,
    ) <= change_rank((#[trigger] ordered[j]).0, ordered[j].1, definition) by {
        up_to_rank_is_sorted(changes, definition, 5, i, j);
    }
}

/// Nothing is deleted unless deletions are allowed: no deletion is asked for, and
/// with a plan that deletes something not a single change is made.
pub proof fn deletions_need_permission(session: ChannelSessionView, event: ChannelEventView, now: u64)
    requires
        session.deletes_with_permission(),
        0 <= session.taken,
    ensures
        session.after(event, now).deletes_with_permission(),
        session.after(event, now).lifecycle == session.lifecycle,
        session.phase is Asking && !session.may_delete() && has_deletion(session.pending.changes)
            ==> session.after(event, now).is_over() || session.after(event, now) == session,
{
    if session.phase is Asking {
        let changes = session.pending.changes;
        let ordered = in_order(changes, session.definition);
        if has_deletion(ordered) {
            let i = choose|i: int| 0 <= i < ordered.len() && (#[trigger] ordered[i]).1 is Delete;
            up_to_rank_members(changes, session.definition, 5, i);
            let j = changes.index_of(ordered[i]);
            assert(changes[j].1 is Delete);
        }
        if has_deletion(changes) {
            let i = choose|i: int| 0 <= i < changes.len() && (#[trigger] changes[i]).1 is Delete;
            assert(!(changes[i].1 is Update));
            assert(!only_updates(changes));
        }
    }
    if session.phase is Ready && session.taken < session.changes.len() {
        assert(session.changes[session.taken].1 is Delete ==> has_deletion(session.changes));
    }
}

/// A step changes no binding but that of the name whose change is being made.
pub proof fn steps_keep_other_bindings(session: ChannelSessionView, event: ChannelEventView, now: u64, id: Seq<char>)
    requires
        session.phase is Ready && session.taken < session.changes.len() ==> session.changes[session.taken].0 != id,
        session.phase is Creating ==> session.phase->Creating_logical_id != id,
        session.phase is Deleting ==> session.phase->Deleting_logical_id != id,
    ensures
        lookup(session.after(event, now).state.channels, id) == lookup(session.state.channels, id),
        session.after(event, now).state.guild_id == session.state.guild_id,
        session.after(event, now).state.roles == session.state.roles,
        session.after(event, now).state.members == session.state.members,
{
    without_then_lookup(session.state.channels, session.changes[session.taken].0, id);
    match (session.phase, event) {
        (
            ChannelPhaseView::Creating { logical_id, .. },
            ChannelEventView::Created(ReplyView::Answered(ChannelCreateOutcomeView::Created(channel_id))),
        ) => {
            put_then_lookup::<ChannelLogicalId, u64>(session.state.channels, logical_id, channel_id, id);
        },
        (ChannelPhaseView::Deleting { logical_id, .. }, ChannelEventView::Deleted(_)) => {
            without_then_lookup(session.state.channels, logical_id, id);
        },
        _ => {},
    }
}

/// Every reply brings a session nearer to its end, and a session that has ended stays as it is.
pub proof fn replies_lead_to_the_end(session: ChannelSessionView, event: ChannelEventView, now: u64)
    requires
        0 <= session.taken <= session.changes.len(),
    ensures
        session.is_over() ==> session.after(event, now) == session,
        session.is_over() <==> session.action() is Finish,
        0 <= session.after(event, now).taken <= session.after(event, now).changes.len(),
        answers(event, session.action()) && !(session.phase is Asking) ==> 0 <= session.after(
            event,
            now,
        ).steps_left() < session.steps_left(),
        answers(event, session.action()) && session.phase is Asking ==> !(session.after(event, now).phase is Opening)
            && !(session.after(event, now).phase is Asking),
{
}

/// A sound state stays sound whatever is created, deleted or released, so that the
/// next plan accepts it.
pub proof fn steps_keep_the_state_sound(session: ChannelSessionView, event: ChannelEventView, now: u64)
    requires
        session.state.is_sound(),
        sorted::<ChannelLogicalId, u64>(session.state.channels),
    ensures
        session.after(event, now).state.is_sound(),
        sorted::<ChannelLogicalId, u64>(session.after(event, now).state.channels),
{
    let taken = session.changes[session.taken].0;
    without_keeps_injective::<ChannelLogicalId>(session.state.channels, taken);
    without_keeps_sorted::<ChannelLogicalId, u64>(session.state.channels, taken);
    match (session.phase, event) {
        (
            ChannelPhaseView::Creating { logical_id, .. },
            ChannelEventView::Created(ReplyView::Answered(ChannelCreateOutcomeView::Created(channel_id))),
        ) => {
            if holder(session.state.channels, channel_id) is None {
                put_keeps_injective::<ChannelLogicalId>(session.state.channels, logical_id, channel_id);
                put_keeps_sorted::<ChannelLogicalId, u64>(session.state.channels, logical_id, channel_id);
            }
        },
        (ChannelPhaseView::Deleting { logical_id, .. }, ChannelEventView::Deleted(_)) => {
            without_keeps_injective::<ChannelLogicalId>(session.state.channels, logical_id);
            without_keeps_sorted::<ChannelLogicalId, u64>(session.state.channels, logical_id);
        },
        _ => {},
    }
}

/// A channel that was changed as an update asks has the values that the update asks for.
pub proof fn applied_updates_are_seen(channel: ChannelSnapshotView, update: ChannelUpdateView)
    ensures
        has_values(update.applied_to(channel), update),
{
}

} // verus!
