//! Permission overwrites of channels.

use vstd::prelude::*;

use crate::configuration::channel::{
    given_value, ChannelAttributes, ChannelAttributesView, ChannelDefinition, ChannelDefinitionView, ChannelValue,
    OverwritesView, OverwriteTarget, OverwriteTargetView, OverwriteValue,
};
use crate::configuration::definition::{DefinitionFile, DefinitionView};
use crate::configuration::permission::KnownPermission;
use crate::configuration::state::{role_id_of, StateFile, StateView};
use crate::domain::{ErrorView, ManagementError};
use crate::ids::{ChannelId, ChannelLogicalId};
use crate::ordered::{lookup, put, without, OrderedMap};
use crate::port::{
    ChannelCatalog, ChannelOverwritePermissions, ChannelOverwritePermissionsView, ChannelOverwrites,
    ChannelOverwritesView, ChannelOverwriteTarget, ChannelOverwriteTargetView, ChannelSnapshot, ChannelSnapshotView,
};
use crate::resource::change::{change_between, ValueChange};
use crate::resource::role::order::find_role_id;
use crate::text::{text3, text5};
use crate::value::{seen, Plain};

verus! {

/// The channels of a guild by identifier.
pub type ActualChannels = OrderedMap<ChannelId, ChannelSnapshot>;

/// What the channels of a guild by identifier hold.
pub type ActualChannelsView = Seq<(u64, ChannelSnapshotView)>;

/// Channels by identifier: of several with one identifier, the last.
pub open spec fn by_id(channels: Seq<ChannelSnapshotView>) -> ActualChannelsView
    decreases channels.len(),
{
    if channels.len() == 0 {
        Seq::empty()
    } else {
        put::<ChannelId, ChannelSnapshotView>(by_id(channels.drop_last()), channels.last().id, channels.last())
    }
}

/// The channels of a guild by identifier.
pub fn channels_by_id(catalog: &ChannelCatalog) -> (channels: ActualChannels)
    ensures
        channels.deep_view() == by_id(catalog.deep_view().channels),
{
    let ghost all = catalog.deep_view().channels;
    let mut channels: ActualChannels = OrderedMap::new();
    let mut i: usize = 0;
    assert(all.take(0) =~= Seq::empty());
    while i < catalog.channels.len()
        invariant
            i <= catalog.channels@.len(),
            all == catalog.deep_view().channels,
            channels.deep_view() == by_id(all.take(i as int)),
        decreases catalog.channels@.len() - i,
    {
        channels.insert(catalog.channels[i].id, catalog.channels[i].copy());
        proof {
            assert(all.take(i + 1).drop_last() =~= all.take(i as int));
            assert(all.take(i + 1).last() == catalog.channels@[i as int].deep_view());
        }
        i += 1;
    }
    assert(all.take(i as int) =~= all);
    channels
}

/// For whom an overwrite of a definition is in a guild, or why it is not known.
pub open spec fn resolved_target(
    subject: OverwriteTargetView,
    id: Seq<char>,
    state: StateView,
) -> Result<ChannelOverwriteTargetView, ErrorView> {
    match subject {
        OverwriteTargetView::Everyone => Ok(ChannelOverwriteTargetView::Everyone),
        OverwriteTargetView::Role(role) => match role_id_of(state, role) {
            Some(discord_id) => Ok(ChannelOverwriteTargetView::Role(discord_id)),
            None => Err(
                ErrorView::InvalidState(
                    "Channel "@ + id + " の権限対象 Role "@ + role + " の対応がありません"@,
                ),
            ),
        },
        OverwriteTargetView::Member(member) => match lookup(state.members, member) {
            Some(discord_id) => Ok(ChannelOverwriteTargetView::Member(discord_id)),
            None => Err(
                ErrorView::InvalidState(
                    "Channel "@ + id + " の権限対象 Member "@ + member + " の対応がありません"@,
                ),
            ),
        },
    }
}

/// For whom an overwrite of a definition is in a guild.
pub fn resolve_overwrite_target(subject: &OverwriteTarget, logical_id: &ChannelLogicalId, state: &StateFile) -> (result: Result<
    ChannelOverwriteTarget,
    ManagementError,
>)
    ensures
        seen(result) == resolved_target(subject.deep_view(), logical_id.deep_view(), state.deep_view()),
{
    match subject {
        OverwriteTarget::Everyone => Ok(ChannelOverwriteTarget::Everyone),
        OverwriteTarget::Role(role) => match find_role_id(role, state) {
            Some(discord_id) => Ok(ChannelOverwriteTarget::Role(discord_id)),
            None => Err(
                ManagementError::InvalidState(
                    text5(
                        "Channel ",
                        logical_id.as_str(),
                        " の権限対象 Role ",
                        role.as_str(),
                        " の対応がありません",
                    ),
                ),
            ),
        },
        OverwriteTarget::Member(member) => match state.members.get(member) {
            Some(discord_id) => Ok(ChannelOverwriteTarget::Member(*discord_id)),
            None => Err(
                ManagementError::InvalidState(
                    text5(
                        "Channel ",
                        logical_id.as_str(),
                        " の権限対象 Member ",
                        member.as_str(),
                        " の対応がありません",
                    ),
                ),
            ),
        },
    }
}

/// Known permissions with one more set, or taken out.
pub open spec fn with_value(
    known: Seq<(Seq<char>, OverwriteValue)>,
    permission: Seq<char>,
    value: OverwriteValue,
) -> Seq<(Seq<char>, OverwriteValue)> {
    if value == OverwriteValue::Clear {
        without(known, permission)
    } else {
        put::<KnownPermission, OverwriteValue>(known, permission, value)
    }
}

/// Known permissions with the given ones set, or taken out.
pub open spec fn with_values(
    known: Seq<(Seq<char>, OverwriteValue)>,
    values: Seq<(Seq<char>, OverwriteValue)>,
) -> Seq<(Seq<char>, OverwriteValue)>
    decreases values.len(),
{
    if values.len() == 0 {
        known
    } else {
        with_values(with_value(known, values[0].0, values[0].1), values.drop_first())
    }
}

/// What overwrites do for a target: nothing, where it has none.
pub open spec fn permissions_for(
    overwrites: ChannelOverwritesView,
    target: ChannelOverwriteTargetView,
) -> ChannelOverwritePermissionsView {
    match lookup(overwrites, target) {
        Some(permissions) => permissions,
        None => ChannelOverwritePermissionsView::none(),
    }
}

/// Overwrites with those for a target changed. One that does nothing is taken out.
pub open spec fn with_target(
    overwrites: ChannelOverwritesView,
    target: ChannelOverwriteTargetView,
    values: Seq<(Seq<char>, OverwriteValue)>,
) -> ChannelOverwritesView {
    let before = permissions_for(overwrites, target);
    let after = ChannelOverwritePermissionsView { known: with_values(before.known, values), ..before };
    if after.is_empty() {
        without(overwrites, target)
    } else {
        put::<ChannelOverwriteTarget, ChannelOverwritePermissionsView>(overwrites, target, after)
    }
}

fn set_values(
    known: &mut OrderedMap<KnownPermission, OverwriteValue>,
    values: &OrderedMap<KnownPermission, OverwriteValue>,
)
    ensures
        final(known).deep_view() == with_values(old(known).deep_view(), values.deep_view()),
{
    let ghost all = values.deep_view();
    let ghost wanted = with_values(known.deep_view(), all);
    let mut i: usize = 0;
    assert(all.skip(0) =~= all);
    while i < values.len()
        invariant
            i <= all.len(),
            all == values.deep_view(),
            wanted == with_values(known.deep_view(), all.skip(i as int)),
        decreases all.len() - i,
    {
        assert(all.skip(i as int)[0] == all[i as int]);
        assert(all.skip(i as int).drop_first() =~= all.skip(i + 1));
        let value: OverwriteValue = *values.value_at(i);
        if value == OverwriteValue::Clear {
            known.remove(values.key_at(i));
        } else {
            known.insert(values.key_at(i).copy(), value);
        }
        i += 1;
    }
    assert(all.skip(i as int) =~= Seq::empty());
}

/// Changes the overwrites for a target.
pub fn set_target(
    overwrites: &mut ChannelOverwrites,
    target: ChannelOverwriteTarget,
    values: &OrderedMap<KnownPermission, OverwriteValue>,
)
    ensures
        final(overwrites).deep_view() == with_target(
            old(overwrites).deep_view(),
            target.deep_view(),
            values.deep_view(),
        ),
{
    let mut permissions: ChannelOverwritePermissions = match overwrites.get(&target) {
        Some(permissions) => permissions.copy(),
        None => {
            let none: ChannelOverwritePermissions = ChannelOverwritePermissions::from_known(OrderedMap::new());
            assert(none.deep_view() == ChannelOverwritePermissionsView::none());
            none
        },
    };
    set_values(&mut permissions.known, values);
    if permissions.is_empty() {
        overwrites.remove(&target);
    } else {
        overwrites.insert(target, permissions);
    }
}

/// Overwrites with those that a definition gives, from a place on, or why there are none.
pub open spec fn with_definition(
    id: Seq<char>,
    wanted: OverwritesView,
    i: int,
    state: StateView,
    overwrites: ChannelOverwritesView,
) -> Result<ChannelOverwritesView, ErrorView>
    decreases wanted.len() - i,
{
    if i < 0 || i >= wanted.len() {
        Ok(overwrites)
    } else {
        match resolved_target(wanted[i].0, id, state) {
            Err(error) => Err(error),
            Ok(target) => with_definition(id, wanted, i + 1, state, with_target(overwrites, target, wanted[i].1)),
        }
    }
}

/// Overwrites with those that a definition gives.
#[verifier::loop_isolation(false)]
pub fn apply_overwrite_values(
    logical_id: &ChannelLogicalId,
    attributes: &ChannelAttributes,
    state: &StateFile,
    overwrites: ChannelOverwrites,
) -> (result: Result<ChannelOverwrites, ManagementError>)
    ensures
        seen(result) == with_definition(
            logical_id.deep_view(),
            attributes.deep_view().overwrites,
            0,
            state.deep_view(),
            overwrites.deep_view(),
        ),
{
    let ghost id = logical_id.deep_view();
    let ghost all = attributes.overwrites.deep_view();
    let ghost st = state.deep_view();
    let ghost wanted = with_definition(id, all, 0, st, overwrites.deep_view());
    let mut overwrites: ChannelOverwrites = overwrites;
    let mut i: usize = 0;
    while i < attributes.overwrites.len()
        invariant
            i <= all.len(),
            wanted == with_definition(id, all, i as int, st, overwrites.deep_view()),
        decreases all.len() - i,
    {
        let target: ChannelOverwriteTarget = resolve_overwrite_target(
            attributes.overwrites.key_at(i),
            logical_id,
            state,
        )?;
        set_target(&mut overwrites, target, attributes.overwrites.value_at(i));
        i += 1;
    }
    Ok(overwrites)
}

/// The overwrites that a channel shall have, where those of a synchronised
/// channel are those of its parent, or why they are not known. The channels
/// that lead to this one are `visited`.
pub open spec fn desired_overwrites(
    id: Seq<char>,
    definition: DefinitionView,
    state: StateView,
    actual: ActualChannelsView,
    visited: Seq<Seq<char>>,
) -> Result<ChannelOverwritesView, ErrorView>
    decreases definition.channels.len() + 1 - visited.len(),
{
    if visited.contains(id) || visited.len() > definition.channels.len() {
        Err(
            ErrorView::InvalidDefinition(
                "Channel "@ + id + " の permissions_sync に循環する親があります"@,
            ),
        )
    } else {
        match lookup(definition.channels, id) {
            None => Err(
                ErrorView::InvalidDefinition("Channel "@ + id + " の同期先 Category の宣言がありません"@),
            ),
            Some(ChannelDefinitionView::Absent) => Err(
                ErrorView::InvalidDefinition("Channel "@ + id + " の同期先 Category は削除宣言です"@),
            ),
            Some(channel) => {
                let attributes = channel.attributes();
                if attributes.permissions_sync == Some(true) {
                    match given_value(attributes.parent) {
                        None => Err(
                            ErrorView::InvalidDefinition(
                                "Channel "@ + id
                                    + " の permissions_sync には Category の parent が必要です"@,
                            ),
                        ),
                        Some(parent) => desired_overwrites(
                            parent,
                            definition,
                            state,
                            actual,
                            visited.push(id),
                        ),
                    }
                } else {
                    with_definition(
                        id,
                        attributes.overwrites,
                        0,
                        state,
                        present_overwrites(id, state, actual),
                    )
                }
            },
        }
    }
}

/// The overwrites that a bound channel has.
pub open spec fn present_overwrites(
    id: Seq<char>,
    state: StateView,
    actual: ActualChannelsView,
) -> ChannelOverwritesView {
    match lookup(state.channels, id) {
        Some(discord_id) => match lookup(actual, discord_id) {
            Some(channel) => channel.overwrites,
            None => Seq::empty(),
        },
        None => Seq::empty(),
    }
}

fn find_present_overwrites(logical_id: &ChannelLogicalId, state: &StateFile, actual: &ActualChannels) -> (overwrites:
    ChannelOverwrites)
    ensures
        overwrites.deep_view() == present_overwrites(
            logical_id.deep_view(),
            state.deep_view(),
            actual.deep_view(),
        ),
{
    match state.channels.get(logical_id) {
        Some(discord_id) => match actual.get(discord_id) {
            Some(channel) => channel.overwrites.copy(),
            None => OrderedMap::new(),
        },
        None => OrderedMap::new(),
    }
}

/// Whether a channel is among those that lead to it.
fn was_visited(visited: &Vec<ChannelLogicalId>, id: &ChannelLogicalId) -> (answer: bool)
    ensures
        answer == visited.deep_view().contains(id.deep_view()),
{
    let mut i: usize = 0;
    while i < visited.len()
        invariant
            i <= visited@.len(),
            forall|k: int| 0 <= k < i ==> #[trigger] visited.deep_view()[k] != id.deep_view(),
        decreases visited@.len() - i,
    {
        if visited[i].same(id) {
            assert(visited.deep_view()[i as int] == id.deep_view());
            return true;
        }
        i += 1;
    }
    false
}

/// The overwrites that a channel shall have, where those of a synchronised
/// channel are those of its parent.
pub fn desired_overwrites_for_channel(
    logical_id: &ChannelLogicalId,
    definition: &DefinitionFile,
    state: &StateFile,
    actual: &ActualChannels,
    visited: Vec<ChannelLogicalId>,
) -> (result: Result<ChannelOverwrites, ManagementError>)
    ensures
        seen(result) == desired_overwrites(
            logical_id.deep_view(),
            definition.deep_view(),
            state.deep_view(),
            actual.deep_view(),
            visited.deep_view(),
        ),
    decreases definition.deep_view().channels.len() + 1 - visited.deep_view().len(),
{
    let id: &str = logical_id.as_str();
    if was_visited(&visited, logical_id) || visited.len() > definition.channels.len() {
        return Err(
            ManagementError::InvalidDefinition(
                text3("Channel ", id, " の permissions_sync に循環する親があります"),
            ),
        );
    }
    let channel: &ChannelDefinition = match definition.channels.get(logical_id) {
        None => {
            return Err(
                ManagementError::InvalidDefinition(
                    text3("Channel ", id, " の同期先 Category の宣言がありません"),
                ),
            );
        },
        Some(channel) => channel,
    };
    if channel.is_absent() {
        return Err(
            ManagementError::InvalidDefinition(
                text3("Channel ", id, " の同期先 Category は削除宣言です"),
            ),
        );
    }
    let attributes: ChannelAttributes = channel.attributes();
    if matches!(attributes.permissions_sync, Some(true)) {
        match &attributes.parent {
            Some(ChannelValue::Value(parent)) => {
                let ghost before = visited.deep_view();
                let mut visited: Vec<ChannelLogicalId> = visited;
                visited.push(logical_id.copy());
                assert(visited.deep_view() =~= before.push(logical_id.deep_view()));
                return desired_overwrites_for_channel(parent, definition, state, actual, visited);
            },
            _ => {
                return Err(
                    ManagementError::InvalidDefinition(
                        text3(
                            "Channel ",
                            id,
                            " の permissions_sync には Category の parent が必要です",
                        ),
                    ),
                );
            },
        }
    }
    let present: ChannelOverwrites = find_present_overwrites(logical_id, state, actual);
    apply_overwrite_values(logical_id, &attributes, state, present)
}

/// The overwrites that a synchronised channel shall have, none where a channel
/// is not synchronised, or why they are not known.
pub open spec fn synced_overwrites(
    id: Seq<char>,
    attributes: ChannelAttributesView,
    definition: DefinitionView,
    state: StateView,
    actual: ActualChannelsView,
) -> Result<Option<ChannelOverwritesView>, ErrorView> {
    if attributes.permissions_sync != Some(true) {
        Ok(None)
    } else {
        match given_value(attributes.parent) {
            None => Err(
                ErrorView::InvalidDefinition(
                    "Channel "@ + id + " の permissions_sync には Category の parent が必要です"@,
                ),
            ),
            Some(parent) => match desired_overwrites(parent, definition, state, actual, Seq::empty()) {
                Err(error) => Err(error),
                Ok(overwrites) => Ok(Some(overwrites)),
            },
        }
    }
}

/// The overwrites that a synchronised channel shall have.
pub fn desired_synced_overwrites(
    logical_id: &ChannelLogicalId,
    attributes: &ChannelAttributes,
    definition: &DefinitionFile,
    state: &StateFile,
    actual: &ActualChannels,
) -> (result: Result<Option<ChannelOverwrites>, ManagementError>)
    ensures
        seen(result) == synced_overwrites(
            logical_id.deep_view(),
            attributes.deep_view(),
            definition.deep_view(),
            state.deep_view(),
            actual.deep_view(),
        ),
{
    if !matches!(attributes.permissions_sync, Some(true)) {
        return Ok(None);
    }
    match &attributes.parent {
        Some(ChannelValue::Value(parent)) => {
            let visited: Vec<ChannelLogicalId> = Vec::new();
            assert(visited.deep_view() =~= Seq::empty());
            let overwrites: ChannelOverwrites = desired_overwrites_for_channel(
                parent,
                definition,
                state,
                actual,
                visited,
            )?;
            Ok(Some(overwrites))
        },
        _ => Err(
            ManagementError::InvalidDefinition(
                text3(
                    "Channel ",
                    logical_id.as_str(),
                    " の permissions_sync には Category の parent が必要です",
                ),
            ),
        ),
    }
}

/// Changes of overwrites.
pub type OverwriteChanges = OrderedMap<
    ChannelOverwriteTarget,
    OrderedMap<KnownPermission, ValueChange<OverwriteValue>>,
>;

/// What changes of overwrites hold.
pub type OverwriteChangesView = Seq<(ChannelOverwriteTargetView, Seq<(Seq<char>, ValueChange<OverwriteValue>)>)>;

/// The value that an overwrite gives to a permission.
pub open spec fn value_in(known: Seq<(Seq<char>, OverwriteValue)>, permission: Seq<char>) -> OverwriteValue {
    match lookup(known, permission) {
        Some(value) => value,
        None => OverwriteValue::Clear,
    }
}

/// How permissions of an overwrite differ from what is wanted, from a place on.
pub open spec fn value_changes(
    wanted: Seq<(Seq<char>, OverwriteValue)>,
    i: int,
    known: Seq<(Seq<char>, OverwriteValue)>,
    changes: Seq<(Seq<char>, ValueChange<OverwriteValue>)>,
) -> Seq<(Seq<char>, ValueChange<OverwriteValue>)>
    decreases wanted.len() - i,
{
    if i < 0 || i >= wanted.len() {
        changes
    } else {
        value_changes(
            wanted,
            i + 1,
            known,
            match change_between(value_in(known, wanted[i].0), wanted[i].1) {
                Some(change) => put::<KnownPermission, ValueChange<OverwriteValue>>(
                    changes,
                    wanted[i].0,
                    change,
                ),
                None => changes,
            },
        )
    }
}

/// How overwrites differ from what a definition wants, from a place on, or why it is not known.
pub open spec fn overwrite_changes(
    id: Seq<char>,
    wanted: OverwritesView,
    i: int,
    actual: ChannelOverwritesView,
    state: StateView,
    changes: OverwriteChangesView,
) -> Result<OverwriteChangesView, ErrorView>
    decreases wanted.len() - i,
{
    if i < 0 || i >= wanted.len() {
        Ok(changes)
    } else {
        match resolved_target(wanted[i].0, id, state) {
            Err(error) => Err(error),
            Ok(target) => {
                let of_target = value_changes(
                    wanted[i].1,
                    0,
                    permissions_for(actual, target).known,
                    Seq::empty(),
                );
                overwrite_changes(
                    id,
                    wanted,
                    i + 1,
                    actual,
                    state,
                    if of_target.len() == 0 {
                        changes
                    } else {
                        put::<ChannelOverwriteTarget, Seq<(Seq<char>, ValueChange<OverwriteValue>)>>(
                            changes,
                            target,
                            of_target,
                        )
                    },
                )
            },
        }
    }
}

fn change_values(
    wanted: &OrderedMap<KnownPermission, OverwriteValue>,
    present: Option<&ChannelOverwritePermissions>,
) -> (changes: OrderedMap<KnownPermission, ValueChange<OverwriteValue>>)
    ensures
        changes.deep_view() == value_changes(
            wanted.deep_view(),
            0,
            match present.deep_view() {
                Some(permissions) => permissions.known,
                None => Seq::empty(),
            },
            Seq::empty(),
        ),
{
    let ghost all = wanted.deep_view();
    let ghost known = match present.deep_view() {
        Some(permissions) => permissions.known,
        None => Seq::empty(),
    };
    let mut changes: OrderedMap<KnownPermission, ValueChange<OverwriteValue>> = OrderedMap::new();
    let mut i: usize = 0;
    while i < wanted.len()
        invariant
            i <= all.len(),
            all == wanted.deep_view(),
            known == match present.deep_view() {
                Some(permissions) => permissions.known,
                None => Seq::empty(),
            },
            value_changes(all, 0, known, Seq::empty()) == value_changes(all, i as int, known, changes.deep_view()),
        decreases all.len() - i,
    {
        let permission: &KnownPermission = wanted.key_at(i);
        let current: OverwriteValue = match present {
            Some(permissions) => match permissions.known.get(permission) {
                Some(value) => *value,
                None => OverwriteValue::Clear,
            },
            None => OverwriteValue::Clear,
        };
        match ValueChange::between(current, *wanted.value_at(i)) {
            Some(change) => changes.insert(permission.copy(), change),
            None => {},
        }
        i += 1;
    }
    changes
}

/// How overwrites differ from what a definition wants.
#[verifier::loop_isolation(false)]
pub fn build_overwrite_changes(
    logical_id: &ChannelLogicalId,
    desired: &ChannelAttributes,
    actual: &ChannelSnapshot,
    state: &StateFile,
) -> (result: Result<OverwriteChanges, ManagementError>)
    ensures
        seen(result) == overwrite_changes(
            logical_id.deep_view(),
            desired.deep_view().overwrites,
            0,
            actual.deep_view().overwrites,
            state.deep_view(),
            Seq::empty(),
        ),
{
    let ghost id = logical_id.deep_view();
    let ghost all = desired.overwrites.deep_view();
    let ghost present = actual.overwrites.deep_view();
    let ghost st = state.deep_view();
    let mut changes: OverwriteChanges = OrderedMap::new();
    let mut i: usize = 0;
    while i < desired.overwrites.len()
        invariant
            i <= all.len(),
            overwrite_changes(id, all, 0, present, st, Seq::empty()) == overwrite_changes(
                id,
                all,
                i as int,
                present,
                st,
                changes.deep_view(),
            ),
        decreases all.len() - i,
    {
        let target: ChannelOverwriteTarget = resolve_overwrite_target(
            desired.overwrites.key_at(i),
            logical_id,
            state,
        )?;
        let of_target: OrderedMap<KnownPermission, ValueChange<OverwriteValue>> = change_values(
            desired.overwrites.value_at(i),
            actual.overwrites.get(&target),
        );
        if !of_target.is_empty() {
            changes.insert(target, of_target);
        }
        i += 1;
    }
    Ok(changes)
}

/// The values that changes lead to.
pub open spec fn desired_values(
    changes: Seq<(Seq<char>, ValueChange<OverwriteValue>)>,
) -> Seq<(Seq<char>, OverwriteValue)> {
    changes.map_values(|change: (Seq<char>, ValueChange<OverwriteValue>)| (change.0, change.1.desired))
}

/// Overwrites with changes made, from a place on.
pub open spec fn with_changes(
    overwrites: ChannelOverwritesView,
    changes: OverwriteChangesView,
    i: int,
) -> ChannelOverwritesView
    decreases changes.len() - i,
{
    if i < 0 || i >= changes.len() {
        overwrites
    } else {
        with_changes(
            with_target(overwrites, changes[i].0, desired_values(changes[i].1)),
            changes,
            i + 1,
        )
    }
}

fn take_desired(changes: &OrderedMap<KnownPermission, ValueChange<OverwriteValue>>) -> (values: OrderedMap<
    KnownPermission,
    OverwriteValue,
>)
    ensures
        values.deep_view() == desired_values(changes.deep_view()),
{
    let ghost all = desired_values(changes.deep_view());
    let mut values: OrderedMap<KnownPermission, OverwriteValue> = OrderedMap::new();
    let mut i: usize = 0;
    assert(all.take(0) =~= Seq::empty());
    while i < changes.len()
        invariant
            i <= all.len(),
            all == desired_values(changes.deep_view()),
            values.deep_view() == all.take(i as int),
        decreases all.len() - i,
    {
        let _n: usize = changes.len();
        proof {
            assert forall|k: int| 0 <= k < i implies crate::text::text_before(
                (#[trigger] all.take(i as int)[k]).0,
                all[i as int].0,
            ) by {
                assert(changes.deep_view()[k].0 == all[k].0);
            }
            crate::ordered::put_at_end::<KnownPermission, OverwriteValue>(
                all.take(i as int),
                all[i as int].0,
                all[i as int].1,
            );
            assert(all.take(i + 1) =~= all.take(i as int).push(all[i as int]));
        }
        values.insert(changes.key_at(i).copy(), changes.value_at(i).desired);
        i += 1;
    }
    assert(all.take(i as int) =~= all);
    values
}

/// Overwrites with changes made.
pub fn apply_overwrite_changes(overwrites: &ChannelOverwrites, changes: &OverwriteChanges) -> (changed:
    ChannelOverwrites)
    ensures
        changed.deep_view() == with_changes(overwrites.deep_view(), changes.deep_view(), 0),
{
    let ghost all = changes.deep_view();
    let ghost start = overwrites.deep_view();
    let mut changed: ChannelOverwrites = overwrites.copy();
    let mut i: usize = 0;
    while i < changes.len()
        invariant
            i <= all.len(),
            all == changes.deep_view(),
            with_changes(start, all, 0) == with_changes(changed.deep_view(), all, i as int),
        decreases all.len() - i,
    {
        let values: OrderedMap<KnownPermission, OverwriteValue> = take_desired(changes.value_at(i));
        set_target(&mut changed, *changes.key_at(i), &values);
        i += 1;
    }
    changed
}

} // verus!
