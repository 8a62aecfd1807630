//! What an application of a plan of channels asks for, and what it makes of the replies.

use vstd::prelude::*;

use crate::apply::{ApplyStatusView, ReplyView};
use crate::configuration::channel::{ChannelDefinitionView, ChannelKind};
use crate::configuration::definition::DefinitionView;
use crate::configuration::state::StateView;
use crate::ids::ChannelLogicalId;
use crate::ordered::{has_key, lookup, put_then_lookup, without_then_lookup};
use crate::port::{
    ChannelCatalogView, ChannelCreateOutcomeView, ChannelDeleteOutcome, ChannelOverwriteTargetView,
    ChannelSnapshotView, ChannelUpdateOutcome,
};
use crate::resource::change::{NullableValueChange, ValueChange};
use crate::resource::channel::apply::{
    change_rank, in_order, the_order_holds_all_changes, ChannelActionView, ChannelEventView, ChannelPhaseView,
    ChannelSessionView,
};
use crate::resource::channel::attributes::AttributeChangesView;
use crate::resource::channel::create::CreateDesiredView;
use crate::resource::channel::effects::{
    change_of, creation_is_asked, given, given_is_value_in, is_synchronised, new_channels_are_as_asked,
    overwrites_are_sorted,
};
use crate::resource::channel::laws::{changes_are_sorted, with_changes_has};
use crate::resource::channel::order::first_channel_with_id;
use crate::resource::channel::overwrites::with_changes;
use crate::resource::channel::plan::ChangeView;

verus! {

/// Whether a value is changed as a change says, or left where there is none.
pub open spec fn is_changed<W>(after: W, before: W, change: Option<ValueChange<W>>) -> bool {
    match change {
        Some(change) => after == change.desired,
        None => after == before,
    }
}

/// Whether a value that may be absent is changed as a change says, or left where there is none.
pub open spec fn is_changed_if_any<W>(
    after: Option<W>,
    before: Option<W>,
    change: Option<NullableValueChange<W>>,
) -> bool {
    match change {
        Some(NullableValueChange::Replace { desired, .. }) => after == Some(desired),
        Some(NullableValueChange::Clear { .. }) => after is None,
        None => after == before,
    }
}

/// Whether a channel is changed as changes of attributes say, and in nothing else. A parent
/// that was still to be created is the channel that its name is bound to.
pub open spec fn is_changed_as_said(
    after: ChannelSnapshotView,
    before: ChannelSnapshotView,
    changes: AttributeChangesView,
    state: StateView,
) -> bool {
    &&& after.id == before.id && after.position == before.position && after.kind == before.kind && after.manageable
        == before.manageable
    &&& is_changed(after.name, before.name, changes.name)
    &&& match changes.planned_parent {
        Some(planned) => after.parent_id is Some && after.parent_id == lookup(state.channels, planned.logical_id),
        None => is_changed_if_any(after.parent_id, before.parent_id, changes.parent),
    }
    &&& is_changed_if_any(after.topic, before.topic, changes.topic)
    &&& is_changed(after.nsfw, before.nsfw, changes.nsfw)
    &&& is_changed(after.slowmode_seconds, before.slowmode_seconds, changes.slowmode_seconds)
    &&& is_changed_if_any(
        after.default_auto_archive_minutes,
        before.default_auto_archive_minutes,
        changes.default_auto_archive_minutes,
    )
    &&& is_changed(
        after.default_thread_slowmode_seconds,
        before.default_thread_slowmode_seconds,
        changes.default_thread_slowmode_seconds,
    )
    &&& match changes.synced_overwrites {
        Some(overwrites) => after.overwrites == overwrites,
        None => forall|target: ChannelOverwriteTargetView, permission: Seq<char>| #[trigger]
            given(after.overwrites, target, permission) == match change_of(changes.overwrites, target, permission) {
                Some(change) => change.desired,
                None => given(before.overwrites, target, permission),
            },
    }
}

proof fn updates_change_as_said(changes: AttributeChangesView, actual: ChannelSnapshotView, state: StateView)
    requires
        changes_are_sorted(changes.overwrites),
        changes.update(actual, state) is Ok,
    ensures
        is_changed_as_said(changes.update(actual, state)->Ok_0.applied_to(actual), actual, changes, state),
{
    let after = changes.update(actual, state)->Ok_0.applied_to(actual);
    if changes.synced_overwrites is None {
        let made = with_changes(actual.overwrites, changes.overwrites, 0);
        assert(changes.overwrites.skip(0) =~= changes.overwrites);
        assert(after.overwrites == made);
        assert forall|target: ChannelOverwriteTargetView, permission: Seq<char>| #[trigger]
            given(after.overwrites, target, permission) == match change_of(changes.overwrites, target, permission) {
                Some(change) => change.desired,
                None => given(actual.overwrites, target, permission),
            } by {
            with_changes_has(actual.overwrites, changes.overwrites, 0, target, permission);
            given_is_value_in(actual.overwrites, target, permission);
            given_is_value_in(made, target, permission);
        }
    }
}

proof fn found_first_is_listed(channels: Seq<ChannelSnapshotView>, id: u64) -> (n: int)
    requires
        first_channel_with_id(channels, id) is Some,
    ensures
        0 <= n < channels.len(),
        channels[n] == first_channel_with_id(channels, id)->0,
        channels[n].id == id,
        forall|k: int| 0 <= k < n ==> (#[trigger] channels[k]).id != id,
    decreases channels.len(),
{
    if channels[0].id == id {
        0
    } else {
        let rest = channels.drop_first();
        let n = found_first_is_listed(rest, id);
        assert(channels[n + 1] == rest[n]);
        assert forall|k: int| 0 <= k < n + 1 implies (#[trigger] channels[k]).id != id by {
            if k > 0 {
                assert(rest[k - 1] == channels[k]);
            }
        }
        n + 1
    }
}

/// Whether a channel is the first that is listed under an identifier.
pub open spec fn is_first(channels: Seq<ChannelSnapshotView>, n: int, id: u64) -> bool {
    &&& 0 <= n < channels.len()
    &&& channels[n].id == id
    &&& forall|k: int| 0 <= k < n ==> (#[trigger] channels[k]).id != id
}

/// What a session asks for when it takes up a change is what the change says, and is only
/// asked for before the deadline.
///
/// An update changes the channel of the change as the change says. A creation is what is
/// declared for the channel, with the parent that is bound by then, and a deletion is of the
/// channel of the change. A release
/// unbinds the name. What only changes attributes asks for nothing else.
pub proof fn requests_follow_the_plan(session: ChannelSessionView, now: u64)
    requires
        session.phase is Ready,
        0 <= session.taken < session.changes.len(),
        session.changes[session.taken].1 is Update ==> changes_are_sorted(
            session.changes[session.taken].1->Update_attributes.overwrites,
        ),
        overwrites_are_sorted(session.definition),
    ensures
        ({
            let (id, change) = session.changes[session.taken];
            let after = session.after(ChannelEventView::Proceed, now);
            &&& after.taken == session.taken + 1
            &&& match after.action() {
                ChannelActionView::Update { channel_id, update, until } => {
                    &&& now < until && until == session.deadline
                    &&& change is Update && change->Update_discord_id == channel_id
                    &&& exists|n: int| #[trigger]
                        is_first(session.catalog.channels, n, channel_id) && is_changed_as_said(
                            update.applied_to(session.catalog.channels[n]),
                            session.catalog.channels[n],
                            change->Update_attributes,
                            session.state,
                        )
                },
                ChannelActionView::Create { create, until } => {
                    &&& now < until && until == session.deadline
                    &&& session.lifecycle is Some
                    &&& change is Create
                    &&& match lookup(session.definition.channels, id) {
                        Some(ChannelDefinitionView::Managed { attributes }) => {
                            let parent = if attributes.parent is Some && attributes.parent->0 is Value {
                                Some(attributes.parent->0->Value_0)
                            } else {
                                None
                            };
                            (parent is Some ==> !is_synchronised(session.definition, parent->0)) ==> creation_is_asked(
                                CreateDesiredView { payload: create, parent_logical_id: parent },
                                attributes,
                                session.definition,
                                session.state,
                                session.catalog,
                            )
                        },
                        _ => true,
                    }
                },
                ChannelActionView::Delete { channel_id, until } => {
                    &&& now < until && until == session.deadline
                    &&& session.lifecycle is Some
                    &&& change is Delete && change->Delete_discord_id == channel_id
                },
                ChannelActionView::ReadPermission { .. } | ChannelActionView::ReadCatalog { .. } => false,
                ChannelActionView::Proceed => {
                    ||| session.lifecycle is None && !(change is Update)
                    ||| change is Release && !has_key(after.state.channels, id) && !has_key(after.pending.changes, id)
                    ||| change is Update && !(lookup(session.pending.changes, id) is Some && lookup(
                        session.pending.changes,
                        id,
                    )->0 is Update)
                    ||| change is Delete && !has_key(after.state.channels, id) && forall|k: int|
                        0 <= k < session.catalog.channels.len() ==> (#[trigger] session.catalog.channels[k]).id
                            != change->Delete_discord_id
                },
                ChannelActionView::Finish => true,
            }
        }),
{
    let (id, change) = session.changes[session.taken];
    let after = session.after(ChannelEventView::Proceed, now);
    without_then_lookup(session.state.channels, id, id);
    without_then_lookup(session.pending.changes, id, id);
    match change {
        ChangeView::Update { discord_id, attributes } => {
            if after.phase is Updating {
                let n = found_first_is_listed(session.catalog.channels, discord_id);
                assert(is_first(session.catalog.channels, n, discord_id));
                updates_change_as_said(attributes, session.catalog.channels[n], session.state);
            }
        },
        ChangeView::Delete { discord_id } => {
            if first_channel_with_id(session.catalog.channels, discord_id) is None {
                none_is_listed(session.catalog.channels, discord_id);
            }
        },
        ChangeView::Create => {
            if after.phase is Creating {
                match lookup(session.definition.channels, id) {
                    Some(ChannelDefinitionView::Managed { attributes }) => {
                        if !(attributes.permissions_sync == Some(true) && attributes.parent is Some
                            && attributes.parent->0 is Value && is_synchronised(
                            session.definition,
                            attributes.parent->0->Value_0,
                        )) {
                            new_channels_are_as_asked(
                                id,
                                attributes,
                                session.definition,
                                session.state,
                                session.catalog,
                            );
                        }
                    },
                    _ => {},
                }
            }
        },
        _ => {},
    }
}

proof fn none_is_listed(channels: Seq<ChannelSnapshotView>, id: u64)
    requires
        first_channel_with_id(channels, id) is None,
    ensures
        forall|k: int| 0 <= k < channels.len() ==> (#[trigger] channels[k]).id != id,
    decreases channels.len(),
{
    if channels.len() > 0 {
        none_is_listed(channels.drop_first(), id);
        assert forall|k: int| 0 <= k < channels.len() implies (#[trigger] channels[k]).id != id by {
            if k > 0 {
                assert(channels.drop_first()[k - 1] == channels[k]);
            }
        }
    }
}

/// Once all changes are taken up, the application is complete.
pub proof fn applications_end_complete(session: ChannelSessionView, now: u64)
    requires
        session.phase is Ready,
        session.taken >= session.changes.len(),
    ensures
        ({
            let after = session.after(ChannelEventView::Proceed, now);
            after.phase == ChannelPhaseView::Finished(ApplyStatusView::Complete) && after.pending == session.pending
                && after.applied == session.applied && after.state == session.state
        }),
{
}

/// A reply that does not say that something was made leaves everything as it is, and ends
/// the application without completing it.
pub proof fn nothing_is_made_without_an_answer(session: ChannelSessionView, event: ChannelEventView, now: u64)
    requires
        match session.phase {
            ChannelPhaseView::Updating { .. } => event is Updated && event->Updated_0 != ReplyView::Answered(
                ChannelUpdateOutcome::Applied,
            ),
            ChannelPhaseView::Creating { .. } => event is Created && !(event->Created_0 matches ReplyView::Answered(
                ChannelCreateOutcomeView::Created(_),
            )),
            ChannelPhaseView::Deleting { .. } => event is Deleted && event->Deleted_0 != ReplyView::Answered(
                ChannelDeleteOutcome::Deleted,
            ),
            _ => false,
        },
    ensures
        ({
            let after = session.after(event, now);
            &&& after.applied == session.applied
            &&& after.pending == session.pending
            &&& after.state == session.state
            &&& after.phase is Finished && after.phase != ChannelPhaseView::Finished(ApplyStatusView::Complete)
        }),
{
}

/// A reply that says that something was made moves just this change from what is still to
/// be made to what was made. What was created is bound, what was deleted is bound no more,
/// and the channels are read again.
pub proof fn answers_are_recorded(session: ChannelSessionView, event: ChannelEventView, now: u64, other: Seq<char>)
    requires
        match session.phase {
            ChannelPhaseView::Updating { .. } => event == ChannelEventView::Updated(
                ReplyView::Answered(ChannelUpdateOutcome::Applied),
            ),
            ChannelPhaseView::Creating { .. } => event matches ChannelEventView::Created(
                ReplyView::Answered(ChannelCreateOutcomeView::Created(_)),
            ) && !(session.after(event, now).phase is Finished),
            ChannelPhaseView::Deleting { .. } => event == ChannelEventView::Deleted(
                ReplyView::Answered(ChannelDeleteOutcome::Deleted),
            ),
            _ => false,
        },
    ensures
        ({
            let after = session.after(event, now);
            let id = match session.phase {
                ChannelPhaseView::Updating { logical_id, .. } => logical_id,
                ChannelPhaseView::Creating { logical_id, .. } => logical_id,
                ChannelPhaseView::Deleting { logical_id, .. } => logical_id,
                _ => arbitrary(),
            };
            &&& after.action() is ReadCatalog
            &&& lookup(session.pending.changes, id) is Some ==> lookup(after.applied.changes, id) == lookup(
                session.pending.changes,
                id,
            )
            &&& !has_key(after.pending.changes, id)
            &&& other != id ==> lookup(after.applied.changes, other) == lookup(session.applied.changes, other) && lookup(
                after.pending.changes,
                other,
            ) == lookup(session.pending.changes, other) && lookup(after.state.channels, other) == lookup(
                session.state.channels,
                other,
            )
            &&& after.state == (StateView { channels: after.state.channels, ..session.state })
            &&& match session.phase {
                ChannelPhaseView::Creating { .. } => lookup(after.state.channels, id) == Some(
                    event->Created_0->Answered_0->Created_0,
                ),
                ChannelPhaseView::Deleting { .. } => !has_key(after.state.channels, id),
                _ => after.state == session.state,
            }
        }),
{
    let id = match session.phase {
        ChannelPhaseView::Updating { logical_id, .. } => logical_id,
        ChannelPhaseView::Creating { logical_id, .. } => logical_id,
        ChannelPhaseView::Deleting { logical_id, .. } => logical_id,
        _ => arbitrary(),
    };
    let change = lookup(session.pending.changes, id);
    without_then_lookup(session.pending.changes, id, other);
    without_then_lookup(session.pending.changes, id, id);
    without_then_lookup(session.state.channels, id, other);
    without_then_lookup(session.state.channels, id, id);
    if change is Some {
        put_then_lookup::<ChannelLogicalId, ChangeView>(session.applied.changes, id, change->0, id);
        put_then_lookup::<ChannelLogicalId, ChangeView>(session.applied.changes, id, change->0, other);
    }
    if session.phase is Creating {
        let channel_id = event->Created_0->Answered_0->Created_0;
        put_then_lookup::<ChannelLogicalId, u64>(session.state.channels, id, channel_id, id);
        put_then_lookup::<ChannelLogicalId, u64>(session.state.channels, id, channel_id, other);
    }
}

/// After an update the application goes on just where the guild has the channel with every
/// value that was asked for: one that the update would not change any more.
pub proof fn updates_are_checked(session: ChannelSessionView, catalog: ChannelCatalogView, now: u64)
    requires
        session.phase is CheckingUpdate,
    ensures
        ({
            let channel_id = session.phase->CheckingUpdate_channel_id;
            let update = session.phase->CheckingUpdate_update;
            let after = session.after(ChannelEventView::Catalog(ReplyView::Answered(catalog)), now);
            &&& after.catalog == catalog
            &&& after.phase is Ready || after.phase is Finished && after.phase->Finished_0 is Failed
            &&& after.phase is Ready <==> exists|n: int| #[trigger]
                is_first(catalog.channels, n, channel_id) && update.applied_to(catalog.channels[n]) == catalog.channels[n]
        }),
{
    let channel_id = session.phase->CheckingUpdate_channel_id;
    let update = session.phase->CheckingUpdate_update;
    let after = session.after(ChannelEventView::Catalog(ReplyView::Answered(catalog)), now);
    if first_channel_with_id(catalog.channels, channel_id) is Some {
        let n = found_first_is_listed(catalog.channels, channel_id);
        assert(is_first(catalog.channels, n, channel_id));
        if after.phase is Ready {
            assert(update.applied_to(catalog.channels[n]) == catalog.channels[n]);
        }
        if exists|n: int| #[trigger]
            is_first(catalog.channels, n, channel_id) && update.applied_to(catalog.channels[n]) == catalog.channels[n] {
            let m = choose|n: int| #[trigger]
                is_first(catalog.channels, n, channel_id) && update.applied_to(catalog.channels[n]) == catalog.channels[n];
            if m < n {
                assert(catalog.channels[m].id != channel_id);
            } else if n < m {
                assert(catalog.channels[n].id != channel_id);
            }
        }
    } else {
        none_is_listed(catalog.channels, channel_id);
    }
}

/// Whether a change may be made before another: categories are created before anything else
/// is done, nothing but deletions and releases follows a deletion, deletions of categories
/// follow those of other channels, and nothing but releases follows a release.
pub open spec fn may_precede(
    first: (Seq<char>, ChangeView),
    second: (Seq<char>, ChangeView),
    definition: DefinitionView,
) -> bool {
    &&& second.1 is Create && is_for_category(definition, second.0) ==> first.1 is Create && is_for_category(
        definition,
        first.0,
    )
    &&& first.1 is Delete ==> second.1 is Delete || second.1 is Release
    &&& first.1 is Delete && second.1 is Delete && is_for_category(definition, first.0) ==> is_for_category(
        definition,
        second.0,
    )
    &&& first.1 is Release ==> second.1 is Release
}

/// Whether a name is declared as a category.
pub open spec fn is_for_category(definition: DefinitionView, id: Seq<char>) -> bool {
    lookup(definition.channels, id) matches Some(ChannelDefinitionView::Managed { attributes }) && attributes.kind
        == Some(ChannelKind::Category)
}

/// Changes are put in an order in which each may precede those after it, with none lost and
/// none added.
pub proof fn changes_are_made_in_order(changes: Seq<(Seq<char>, ChangeView)>, definition: DefinitionView)
    ensures
        in_order(changes, definition).to_multiset() == changes.to_multiset(),
        forall|i: int, j: int|
            0 <= i < j < in_order(changes, definition).len() ==> may_precede(
                #[trigger] in_order(changes, definition)[i],
                #[trigger] in_order(changes, definition)[j],
                definition,
            ),
{
    the_order_holds_all_changes(changes, definition);
    let ordered = in_order(changes, definition);
    assert forall|i: int, j: int| 0 <= i < j < ordered.len() implies may_precede(
        #[trigger] ordered[i],
        #[trigger] ordered[j],
        definition,
    ) by {
        assert(change_rank(ordered[i].0, ordered[i].1, definition) <= change_rank(
            ordered[j].0,
            ordered[j].1,
            definition,
        ));
    }
}

} // verus!
