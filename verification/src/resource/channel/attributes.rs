//! The attributes of channels: what they stand for, and how they differ.

use vstd::prelude::*;
use vstd::string::*;

use crate::configuration::channel::{
    valued, valued_if_any, ChannelAttributes, ChannelAttributesView, ChannelDefinition, ChannelDefinitionView,
    ChannelKind, ChannelValue, OverwriteValue,
};
use crate::configuration::definition::{DefinitionFile, DefinitionView};
use crate::configuration::permission::KnownPermission;
use crate::configuration::state::{StateFile, StateView};
use crate::domain::{ErrorView, ManagementError};
use crate::ids::{ChannelId, ChannelLogicalId};
use crate::ordered::{has_key, lookup, OrderedMap};
use crate::port::{
    ChannelOverwrites, ChannelOverwritesView, ChannelOverwriteTarget, ChannelOverwriteTargetView, ChannelSnapshot,
    ChannelSnapshotView, ChannelUpdate, ChannelUpdateValue, ChannelUpdateView,
};
use crate::resource::change::{
    change_if_wanted, change_line, desired_of, desired_value, display_nullable, display_nullable_string,
    display_quoted_string, json_quoted, nullable_change_between, nullable_chars, nullable_current, nullable_desired,
    nullable_text_chars, render_change_line, NullableValueChange, ValueChange,
};
use crate::resource::channel::overwrites::{
    apply_overwrite_changes, build_overwrite_changes, overwrite_changes, with_changes, OverwriteChanges,
    OverwriteChangesView,
};
use crate::text::{bool_chars, bool_text, decimal, decimal_text, text2, text3, text4, text5};
use crate::value::{seen, Plain};

verus! {

/// Whether a declared category is still to be created.
pub open spec fn is_planned_creation(definition: DefinitionView, state: StateView, id: Seq<char>) -> bool {
    &&& !has_key(state.channels, id)
    &&& match lookup(definition.channels, id) {
        Some(ChannelDefinitionView::Managed { attributes }) => attributes.kind == Some(ChannelKind::Category),
        _ => false,
    }
}

/// Whether a declared category is still to be created.
pub fn is_planned_channel_creation(
    definition: &DefinitionFile,
    state: &StateFile,
    id: &ChannelLogicalId,
) -> (answer: bool)
    ensures
        answer == is_planned_creation(definition.deep_view(), state.deep_view(), id.deep_view()),
{
    if state.channels.contains_key(id) {
        return false;
    }
    match definition.channels.get(id) {
        Some(ChannelDefinition::Managed { attributes }) => matches!(attributes.kind, Some(ChannelKind::Category)),
        _ => false,
    }
}

/// The parent that a channel shall have: a channel of the guild or none, or a
/// category that is still to be created.
pub enum ParentTarget {
    Resolved(Option<ChannelId>),
    Planned(ChannelLogicalId),
}

/// What the parent that a channel shall have holds.
pub enum ParentTargetView {
    Resolved(Option<u64>),
    Planned(Seq<char>),
}

impl DeepView for ParentTarget {
    type V = ParentTargetView;

    open spec fn deep_view(&self) -> ParentTargetView {
        match self {
            ParentTarget::Resolved(id) => ParentTargetView::Resolved(id.deep_view()),
            ParentTarget::Planned(id) => ParentTargetView::Planned(id.deep_view()),
        }
    }
}

/// The parent that a channel shall have, or why it is not known.
pub open spec fn parent_target(
    value: ChannelValue<Seq<char>>,
    id: Seq<char>,
    definition: DefinitionView,
    state: StateView,
) -> Result<ParentTargetView, ErrorView> {
    match value {
        ChannelValue::Value(parent) => if is_planned_creation(definition, state, parent) {
            Ok(ParentTargetView::Planned(parent))
        } else {
            match lookup(state.channels, parent) {
                Some(parent_id) => Ok(ParentTargetView::Resolved(Some(parent_id))),
                None => Err(
                    ErrorView::InvalidState(
                        "Channel "@ + id + " の親 "@ + parent + " の対応がありません"@,
                    ),
                ),
            }
        },
        ChannelValue::Clear => Ok(ParentTargetView::Resolved(None)),
        ChannelValue::Default => Err(
            ErrorView::InvalidDefinition("Channel "@ + id + " の parent に default は指定できません"@),
        ),
    }
}

/// The parent that a channel shall have.
pub fn resolve_parent_target(
    value: &ChannelValue<ChannelLogicalId>,
    logical_id: &ChannelLogicalId,
    definition: &DefinitionFile,
    state: &StateFile,
) -> (result: Result<ParentTarget, ManagementError>)
    ensures
        seen(result) == parent_target(
            value.deep_view(),
            logical_id.deep_view(),
            definition.deep_view(),
            state.deep_view(),
        ),
{
    match value {
        ChannelValue::Value(parent) => {
            if is_planned_channel_creation(definition, state, parent) {
                return Ok(ParentTarget::Planned(parent.copy()));
            }
            match state.channels.get(parent) {
                Some(parent_id) => Ok(ParentTarget::Resolved(Some(*parent_id))),
                None => Err(
                    ManagementError::InvalidState(
                        text5(
                            "Channel ",
                            logical_id.as_str(),
                            " の親 ",
                            parent.as_str(),
                            " の対応がありません",
                        ),
                    ),
                ),
            }
        },
        ChannelValue::Clear => Ok(ParentTarget::Resolved(None)),
        ChannelValue::Default => Err(
            ManagementError::InvalidDefinition(
                text3("Channel ", logical_id.as_str(), " の parent に default は指定できません"),
            ),
        ),
    }
}

/// The name that a channel shall have, if one is wanted, or why it is not known.
pub open spec fn wanted_name(
    value: Option<ChannelValue<Seq<char>>>,
    id: Seq<char>,
) -> Result<Option<Seq<char>>, ErrorView> {
    match value {
        None => Ok(None),
        Some(ChannelValue::Value(name)) => Ok(Some(name)),
        Some(_) => Err(ErrorView::InvalidDefinition("Channel "@ + id + " の name は空にできません"@)),
    }
}

/// The name that a channel shall have, if one is wanted.
pub fn resolve_name(value: &Option<ChannelValue<String>>, logical_id: &ChannelLogicalId) -> (result: Result<
    Option<String>,
    ManagementError,
>)
    ensures
        seen(result) == wanted_name(value.deep_view(), logical_id.deep_view()),
{
    match value {
        None => Ok(None),
        Some(ChannelValue::Value(name)) => Ok(Some(name.copy())),
        Some(_) => Err(
            ManagementError::InvalidDefinition(
                text3("Channel ", logical_id.as_str(), " の name は空にできません"),
            ),
        ),
    }
}

/// Whether a channel shall be marked as not safe for work, if that is wanted.
pub open spec fn wanted_nsfw(value: Option<ChannelValue<bool>>) -> Result<Option<bool>, ErrorView> {
    match value {
        None => Ok(None),
        Some(ChannelValue::Clear) => Err(ErrorView::InvalidDefinition("この属性は解除できません"@)),
        Some(value) => Ok(Some(valued(value, false, false))),
    }
}

/// Whether a channel shall be marked as not safe for work, if that is wanted.
pub fn resolve_bool(value: &Option<ChannelValue<bool>>) -> (result: Result<Option<bool>, ManagementError>)
    ensures
        seen(result) == wanted_nsfw(value.deep_view()),
{
    match value {
        None => Ok(None),
        Some(ChannelValue::Clear) => Err(
            ManagementError::InvalidDefinition("この属性は解除できません".to_owned()),
        ),
        Some(value) => Ok(Some(value.resolve(false, false))),
    }
}

/// The seconds that a channel shall have, if they are wanted. Default and none are zero.
pub open spec fn wanted_seconds(value: Option<ChannelValue<u16>>) -> Option<u16> {
    match value {
        None => None,
        Some(value) => Some(valued(value, 0, 0)),
    }
}

/// The seconds that a channel shall have, if they are wanted.
pub fn resolve_u16(value: &Option<ChannelValue<u16>>) -> (seconds: Option<u16>)
    ensures
        seconds.deep_view() == wanted_seconds(value.deep_view()),
{
    match value {
        None => None,
        Some(value) => Some(value.resolve(0, 0)),
    }
}

/// The change of an attribute that may be absent, if one is wanted.
pub open spec fn nullable_change<W>(
    current: Option<W>,
    wanted: Option<ChannelValue<W>>,
    default: Option<W>,
) -> Option<NullableValueChange<W>> {
    match wanted {
        None => None,
        Some(value) => nullable_change_between(current, valued_if_any(value, default)),
    }
}

fn change_nullable<T: Plain>(
    current: &Option<T>,
    wanted: &Option<ChannelValue<T>>,
    default: Option<T>,
) -> (change: Option<NullableValueChange<T>>)
    ensures
        change.deep_view() == nullable_change(current.deep_view(), wanted.deep_view(), default.deep_view()),
{
    match wanted {
        None => None,
        Some(value) => NullableValueChange::between(current.copy(), value.resolve_optional(default)),
    }
}

/// A parent that is still to be created.
pub struct PlannedParentChange {
    pub current: Option<ChannelId>,
    pub logical_id: ChannelLogicalId,
}

/// What a parent that is still to be created holds.
pub struct PlannedParentChangeView {
    pub current: Option<u64>,
    pub logical_id: Seq<char>,
}

impl DeepView for PlannedParentChange {
    type V = PlannedParentChangeView;

    open spec fn deep_view(&self) -> PlannedParentChangeView {
        PlannedParentChangeView { current: self.current.deep_view(), logical_id: self.logical_id.deep_view() }
    }
}

impl Plain for PlannedParentChange {
    fn copy(&self) -> (copied: Self) {
        PlannedParentChange { current: self.current.copy(), logical_id: self.logical_id.copy() }
    }

    fn same(&self, other: &Self) -> (equal: bool) {
        self.current.same(&other.current) && self.logical_id.same(&other.logical_id)
    }
}

/// How the attributes of a channel differ from what they should be.
pub struct AttributeChanges {
    pub name: Option<ValueChange<String>>,
    pub parent: Option<NullableValueChange<ChannelId>>,
    pub planned_parent: Option<PlannedParentChange>,
    pub topic: Option<NullableValueChange<String>>,
    pub nsfw: Option<ValueChange<bool>>,
    pub slowmode_seconds: Option<ValueChange<u16>>,
    pub default_auto_archive_minutes: Option<NullableValueChange<u16>>,
    pub default_thread_slowmode_seconds: Option<ValueChange<u16>>,
    pub overwrites: OverwriteChanges,
    pub synced_overwrites: Option<ChannelOverwrites>,
}

/// What changes of the attributes of a channel hold.
pub struct AttributeChangesView {
    pub name: Option<ValueChange<Seq<char>>>,
    pub parent: Option<NullableValueChange<u64>>,
    pub planned_parent: Option<PlannedParentChangeView>,
    pub topic: Option<NullableValueChange<Seq<char>>>,
    pub nsfw: Option<ValueChange<bool>>,
    pub slowmode_seconds: Option<ValueChange<u16>>,
    pub default_auto_archive_minutes: Option<NullableValueChange<u16>>,
    pub default_thread_slowmode_seconds: Option<ValueChange<u16>>,
    pub overwrites: OverwriteChangesView,
    pub synced_overwrites: Option<ChannelOverwritesView>,
}

impl DeepView for AttributeChanges {
    type V = AttributeChangesView;

    open spec fn deep_view(&self) -> AttributeChangesView {
        AttributeChangesView {
            name: self.name.deep_view(),
            parent: self.parent.deep_view(),
            planned_parent: self.planned_parent.deep_view(),
            topic: self.topic.deep_view(),
            nsfw: self.nsfw.deep_view(),
            slowmode_seconds: self.slowmode_seconds.deep_view(),
            default_auto_archive_minutes: self.default_auto_archive_minutes.deep_view(),
            default_thread_slowmode_seconds: self.default_thread_slowmode_seconds.deep_view(),
            overwrites: self.overwrites.deep_view(),
            synced_overwrites: self.synced_overwrites.deep_view(),
        }
    }
}

impl Plain for AttributeChanges {
    fn copy(&self) -> (copied: Self) {
        AttributeChanges {
            name: self.name.copy(),
            parent: self.parent.copy(),
            planned_parent: self.planned_parent.copy(),
            topic: self.topic.copy(),
            nsfw: self.nsfw.copy(),
            slowmode_seconds: self.slowmode_seconds.copy(),
            default_auto_archive_minutes: self.default_auto_archive_minutes.copy(),
            default_thread_slowmode_seconds: self.default_thread_slowmode_seconds.copy(),
            overwrites: self.overwrites.copy(),
            synced_overwrites: self.synced_overwrites.copy(),
        }
    }

    fn same(&self, other: &Self) -> (equal: bool) {
        self.name.same(&other.name) && self.parent.same(&other.parent) && self.planned_parent.same(
            &other.planned_parent,
        ) && self.topic.same(&other.topic) && self.nsfw.same(&other.nsfw) && self.slowmode_seconds.same(
            &other.slowmode_seconds,
        ) && self.default_auto_archive_minutes.same(&other.default_auto_archive_minutes)
            && self.default_thread_slowmode_seconds.same(&other.default_thread_slowmode_seconds)
            && self.overwrites.same(&other.overwrites) && self.synced_overwrites.same(&other.synced_overwrites)
    }
}

/// The parent that an attribute asks for, if there is one, or why it is not known.
pub open spec fn wanted_parent(
    value: Option<ChannelValue<Seq<char>>>,
    id: Seq<char>,
    definition: DefinitionView,
    state: StateView,
) -> Result<Option<ParentTargetView>, ErrorView> {
    match value {
        None => Ok(None),
        Some(value) => match parent_target(value, id, definition, state) {
            Err(error) => Err(error),
            Ok(target) => Ok(Some(target)),
        },
    }
}

/// How the overwrites of a channel differ from what they should be, where those
/// of a synchronised channel are given in full.
pub open spec fn wanted_overwrites(
    id: Seq<char>,
    actual: ChannelSnapshotView,
    desired: ChannelAttributesView,
    state: StateView,
    synced: Option<ChannelOverwritesView>,
) -> Result<OverwriteChangesView, ErrorView> {
    if synced is Some {
        Ok(Seq::empty())
    } else {
        overwrite_changes(id, desired.overwrites, 0, actual.overwrites, state, Seq::empty())
    }
}

/// How the attributes of a channel differ from what a definition wants, if they
/// do, or why it is not known or cannot be done.
pub open spec fn attribute_changes(
    id: Seq<char>,
    actual: ChannelSnapshotView,
    desired: ChannelAttributesView,
    definition: DefinitionView,
    state: StateView,
    can_manage_roles: bool,
    synced: Option<ChannelOverwritesView>,
) -> Result<Option<AttributeChangesView>, ErrorView> {
    match wanted_parent(desired.parent, id, definition, state) {
        Err(error) => Err(error),
        Ok(parent) => match wanted_name(desired.name, id) {
            Err(error) => Err(error),
            Ok(name) => match wanted_nsfw(desired.nsfw) {
                Err(error) => Err(error),
                Ok(nsfw) => match wanted_overwrites(id, actual, desired, state, synced) {
                    Err(error) => Err(error),
                    Ok(overwrites) => {
                        let replaced = match synced {
                            Some(wanted) => if wanted == actual.overwrites {
                                None
                            } else {
                                Some(wanted)
                            },
                            None => None,
                        };
                        let changes = AttributeChangesView {
                            name: change_if_wanted(actual.name, name),
                            parent: match parent {
                                Some(ParentTargetView::Resolved(wanted)) => nullable_change_between(
                                    actual.parent_id,
                                    wanted,
                                ),
                                _ => None,
                            },
                            planned_parent: match parent {
                                Some(ParentTargetView::Planned(logical_id)) => Some(
                                    PlannedParentChangeView { current: actual.parent_id, logical_id },
                                ),
                                _ => None,
                            },
                            topic: nullable_change(actual.topic, desired.topic, None),
                            nsfw: change_if_wanted(actual.nsfw, nsfw),
                            slowmode_seconds: change_if_wanted(
                                actual.slowmode_seconds,
                                wanted_seconds(desired.slowmode_seconds),
                            ),
                            default_auto_archive_minutes: nullable_change(
                                actual.default_auto_archive_minutes,
                                desired.default_auto_archive_minutes,
                                Some(1440),
                            ),
                            default_thread_slowmode_seconds: change_if_wanted(
                                actual.default_thread_slowmode_seconds,
                                wanted_seconds(desired.default_thread_slowmode_seconds),
                            ),
                            overwrites,
                            synced_overwrites: replaced,
                        };
                        if !can_manage_roles && (overwrites.len() > 0 || replaced is Some) {
                            Err(
                                ErrorView::ChannelPermissionDenied(
                                    "Channel の permission overwrite 更新には MANAGE_ROLES 権限が必要です"@,
                                ),
                            )
                        } else if changes.is_empty() {
                            Ok(None)
                        } else {
                            Ok(Some(changes))
                        }
                    },
                },
            },
        },
    }
}

/// The update of an attribute that may be absent.
pub open spec fn nullable_update_of<W>(change: Option<NullableValueChange<W>>) -> ChannelUpdateValue<W> {
    match change {
        None => ChannelUpdateValue::Keep,
        Some(NullableValueChange::Replace { desired, .. }) => ChannelUpdateValue::Replace(desired),
        Some(NullableValueChange::Clear { .. }) => ChannelUpdateValue::Clear,
    }
}

/// The update of an attribute that may be absent.
pub fn nullable_update<T: Plain>(change: &Option<NullableValueChange<T>>) -> (update: ChannelUpdateValue<T>)
    ensures
        update.deep_view() == nullable_update_of(change.deep_view()),
{
    match change {
        None => ChannelUpdateValue::Keep,
        Some(NullableValueChange::Replace { desired, .. }) => ChannelUpdateValue::Replace(desired.copy()),
        Some(NullableValueChange::Clear { .. }) => ChannelUpdateValue::Clear,
    }
}

/// How the value of an overwrite is shown.
pub open spec fn overwrite_value_chars(value: OverwriteValue) -> Seq<char> {
    match value {
        OverwriteValue::Allow => "allow"@,
        OverwriteValue::Deny => "deny"@,
        OverwriteValue::Clear => "clear"@,
    }
}

/// How the value of an overwrite is shown.
pub fn display_overwrite_value(value: OverwriteValue) -> (text: &'static str)
    ensures
        text@ == overwrite_value_chars(value),
{
    match value {
        OverwriteValue::Allow => "allow",
        OverwriteValue::Deny => "deny",
        OverwriteValue::Clear => "clear",
    }
}

/// How a number that may be absent is shown.
pub open spec fn nullable_number_chars(value: Option<u64>) -> Seq<char> {
    nullable_chars(
        match value {
            Some(number) => Some(decimal(number as nat)),
            None => None,
        },
    )
}

fn display_nullable_number(value: Option<u64>) -> (text: String)
    ensures
        text@ == nullable_number_chars(value),
{
    match value {
        Some(number) => display_nullable(Some(decimal_text(number))),
        None => display_nullable(None),
    }
}

/// The line that shows a change of a text that may be absent, if there is one.
pub open spec fn nullable_text_line(
    logical_id: Seq<char>,
    discord_id: Seq<char>,
    attribute: Seq<char>,
    change: Option<NullableValueChange<Seq<char>>>,
) -> Seq<char> {
    match change {
        None => Seq::empty(),
        Some(change) => change_line(
            logical_id,
            discord_id,
            attribute,
            nullable_text_chars(nullable_current(change)),
            nullable_text_chars(nullable_desired(change)),
        ),
    }
}

/// A number of 16 bits as one of 64 bits, if there is one.
pub open spec fn widened(value: Option<u16>) -> Option<u64> {
    match value {
        Some(value) => Some(value as u64),
        None => None,
    }
}

/// The line that shows a change of a number, if there is one.
pub open spec fn number_line(
    logical_id: Seq<char>,
    discord_id: Seq<char>,
    attribute: Seq<char>,
    change: Option<ValueChange<u16>>,
) -> Seq<char> {
    match change {
        None => Seq::empty(),
        Some(change) => change_line(
            logical_id,
            discord_id,
            attribute,
            decimal(change.current as nat),
            decimal(change.desired as nat),
        ),
    }
}

/// The lines that show changes of the permissions of an overwrite.
pub open spec fn overwrite_lines(
    logical_id: Seq<char>,
    discord_id: Seq<char>,
    target: ChannelOverwriteTargetView,
    changes: Seq<(Seq<char>, ValueChange<OverwriteValue>)>,
) -> Seq<char>
    decreases changes.len(),
{
    if changes.len() == 0 {
        Seq::empty()
    } else {
        overwrite_lines(logical_id, discord_id, target, changes.drop_last()) + change_line(
            logical_id,
            discord_id,
            "overwrites."@ + target.chars() + "."@ + changes.last().0,
            overwrite_value_chars(changes.last().1.current),
            overwrite_value_chars(changes.last().1.desired),
        )
    }
}

/// The lines that show changes of overwrites.
pub open spec fn overwrites_lines(
    logical_id: Seq<char>,
    discord_id: Seq<char>,
    changes: OverwriteChangesView,
) -> Seq<char>
    decreases changes.len(),
{
    if changes.len() == 0 {
        Seq::empty()
    } else {
        overwrites_lines(logical_id, discord_id, changes.drop_last()) + overwrite_lines(
            logical_id,
            discord_id,
            changes.last().0,
            changes.last().1,
        )
    }
}

impl AttributeChangesView {
    /// Whether nothing differs.
    pub open spec fn is_empty(self) -> bool {
        &&& self.name is None
        &&& self.parent is None
        &&& self.planned_parent is None
        &&& self.topic is None
        &&& self.nsfw is None
        &&& self.slowmode_seconds is None
        &&& self.default_auto_archive_minutes is None
        &&& self.default_thread_slowmode_seconds is None
        &&& self.overwrites.len() == 0
        &&& self.synced_overwrites is None
    }

    /// The update that makes the changes, or why the parent is not known. Overwrites
    /// are always given in full.
    pub open spec fn update(
        self,
        actual: ChannelSnapshotView,
        state: StateView,
    ) -> Result<ChannelUpdateView, ErrorView> {
        let overwrites = match self.synced_overwrites {
            Some(overwrites) => Some(overwrites),
            None => if self.overwrites.len() > 0 {
                Some(with_changes(actual.overwrites, self.overwrites, 0))
            } else {
                None
            },
        };
        let parent = match self.planned_parent {
            Some(change) => match lookup(state.channels, change.logical_id) {
                Some(parent_id) => Ok(ChannelUpdateValue::Replace(parent_id)),
                None => Err(
                    ErrorView::InvalidState(
                        "Channel の親 "@ + change.logical_id + " の作成結果が state にありません"@,
                    ),
                ),
            },
            None => Ok(nullable_update_of(self.parent)),
        };
        match parent {
            Err(error) => Err(error),
            Ok(parent_id) => Ok(
                ChannelUpdateView {
                    name: desired_of(self.name),
                    parent_id,
                    topic: nullable_update_of(self.topic),
                    nsfw: desired_of(self.nsfw),
                    slowmode_seconds: desired_of(self.slowmode_seconds),
                    default_auto_archive_minutes: nullable_update_of(self.default_auto_archive_minutes),
                    default_thread_slowmode_seconds: desired_of(self.default_thread_slowmode_seconds),
                    overwrites,
                },
            ),
        }
    }

    /// The lines that show changes of the name and the parent.
    pub open spec fn head_lines(self, logical_id: Seq<char>, discord_id: Seq<char>) -> Seq<char> {
        let name = match self.name {
            None => Seq::empty(),
            Some(change) => change_line(
                logical_id,
                discord_id,
                "name"@,
                json_quoted(change.current),
                json_quoted(change.desired),
            ),
        };
        let parent = match self.parent {
            None => Seq::empty(),
            Some(change) => change_line(
                logical_id,
                discord_id,
                "parent"@,
                nullable_number_chars(nullable_current(change)),
                nullable_number_chars(nullable_desired(change)),
            ),
        };
        let planned = match self.planned_parent {
            None => Seq::empty(),
            Some(change) => change_line(
                logical_id,
                discord_id,
                "parent"@,
                nullable_number_chars(change.current),
                "planned:"@ + change.logical_id,
            ),
        };
        name + parent + planned
    }

    /// The lines that show changes of attributes that only text channels have.
    pub open spec fn text_lines(self, logical_id: Seq<char>, discord_id: Seq<char>) -> Seq<char> {
        let nsfw = match self.nsfw {
            None => Seq::empty(),
            Some(change) => change_line(
                logical_id,
                discord_id,
                "nsfw"@,
                bool_chars(change.current),
                bool_chars(change.desired),
            ),
        };
        let archive = match self.default_auto_archive_minutes {
            None => Seq::empty(),
            Some(change) => change_line(
                logical_id,
                discord_id,
                "default_auto_archive_minutes"@,
                nullable_number_chars(widened(nullable_current(change))),
                nullable_number_chars(widened(nullable_desired(change))),
            ),
        };
        nullable_text_line(logical_id, discord_id, "topic"@, self.topic) + nsfw + number_line(
            logical_id,
            discord_id,
            "slowmode_seconds"@,
            self.slowmode_seconds,
        ) + archive + number_line(
            logical_id,
            discord_id,
            "default_thread_slowmode_seconds"@,
            self.default_thread_slowmode_seconds,
        )
    }

    /// The lines that show the changes.
    pub open spec fn lines(self, logical_id: Seq<char>, discord_id: Seq<char>) -> Seq<char> {
        let synced = match self.synced_overwrites {
            None => Seq::empty(),
            Some(_) => change_line(logical_id, discord_id, "permissions_sync"@, "false"@, "true"@),
        };
        self.head_lines(logical_id, discord_id) + self.text_lines(logical_id, discord_id) + overwrites_lines(
            logical_id,
            discord_id,
            self.overwrites,
        ) + synced
    }
}

fn render_number(
    output: &mut String,
    logical_id: &str,
    discord_id: &str,
    attribute: &str,
    change: &Option<ValueChange<u16>>,
)
    ensures
        final(output)@ == old(output)@ + number_line(logical_id@, discord_id@, attribute@, change.deep_view()),
{
    match change {
        None => {
            assert(output@ + Seq::<char>::empty() =~= output@);
        },
        Some(change) => render_change_line(
            output,
            logical_id,
            discord_id,
            attribute,
            decimal_text(change.current as u64).as_str(),
            decimal_text(change.desired as u64).as_str(),
        ),
    }
}

fn widen(value: Option<&u16>) -> (wide: Option<u64>)
    ensures
        wide == widened(value.deep_view()),
{
    match value {
        Some(value) => Some(*value as u64),
        None => None,
    }
}

fn id_number(value: Option<&ChannelId>) -> (number: Option<u64>)
    ensures
        number == value.deep_view(),
{
    match value {
        Some(id) => Some(id.get()),
        None => None,
    }
}

fn render_overwrite(
    output: &mut String,
    logical_id: &str,
    discord_id: &str,
    target: &ChannelOverwriteTarget,
    changes: &OrderedMap<KnownPermission, ValueChange<OverwriteValue>>,
)
    ensures
        final(output)@ == old(output)@ + overwrite_lines(
            logical_id@,
            discord_id@,
            target.deep_view(),
            changes.deep_view(),
        ),
{
    let ghost all = changes.deep_view();
    let ghost start = output@;
    let mut i: usize = 0;
    assert(all.take(0) =~= Seq::empty());
    assert(start + Seq::<char>::empty() =~= start);
    while i < changes.len()
        invariant
            i <= all.len(),
            all == changes.deep_view(),
            output@ == start + overwrite_lines(logical_id@, discord_id@, target.deep_view(), all.take(i as int)),
        decreases all.len() - i,
    {
        let change: &ValueChange<OverwriteValue> = changes.value_at(i);
        render_change_line(
            output,
            logical_id,
            discord_id,
            text4("overwrites.", target.to_text().as_str(), ".", changes.key_at(i).as_str()).as_str(),
            display_overwrite_value(change.current),
            display_overwrite_value(change.desired),
        );
        proof {
            let next = all.take(i + 1);
            assert(next.drop_last() =~= all.take(i as int));
            assert(next.last() == all[i as int]);
            assert(output@ =~= start + overwrite_lines(logical_id@, discord_id@, target.deep_view(), next));
        }
        i += 1;
    }
    assert(all.take(i as int) =~= all);
}

fn render_overwrites(output: &mut String, logical_id: &str, discord_id: &str, changes: &OverwriteChanges)
    ensures
        final(output)@ == old(output)@ + overwrites_lines(logical_id@, discord_id@, changes.deep_view()),
{
    let ghost all = changes.deep_view();
    let ghost start = output@;
    let mut i: usize = 0;
    assert(all.take(0) =~= Seq::empty());
    assert(start + Seq::<char>::empty() =~= start);
    while i < changes.len()
        invariant
            i <= all.len(),
            all == changes.deep_view(),
            output@ == start + overwrites_lines(logical_id@, discord_id@, all.take(i as int)),
        decreases all.len() - i,
    {
        render_overwrite(output, logical_id, discord_id, changes.key_at(i), changes.value_at(i));
        proof {
            let next = all.take(i + 1);
            assert(next.drop_last() =~= all.take(i as int));
            assert(next.last() == all[i as int]);
            assert(output@ =~= start + overwrites_lines(logical_id@, discord_id@, next));
        }
        i += 1;
    }
    assert(all.take(i as int) =~= all);
}

impl AttributeChanges {
    /// How the attributes of a channel differ from what a definition wants, if they do.
    pub fn between(
        logical_id: &ChannelLogicalId,
        actual: &ChannelSnapshot,
        desired: &ChannelAttributes,
        definition: &DefinitionFile,
        state: &StateFile,
        can_manage_roles: bool,
        synced_overwrites: Option<ChannelOverwrites>,
    ) -> (result: Result<Option<Self>, ManagementError>)
        ensures
            seen(result) == attribute_changes(
                logical_id.deep_view(),
                actual.deep_view(),
                desired.deep_view(),
                definition.deep_view(),
                state.deep_view(),
                can_manage_roles,
                synced_overwrites.deep_view(),
            ),
    {
        let target: Option<ParentTarget> = match &desired.parent {
            None => None,
            Some(value) => Some(resolve_parent_target(value, logical_id, definition, state)?),
        };
        let name: Option<String> = resolve_name(&desired.name, logical_id)?;
        let nsfw: Option<bool> = resolve_bool(&desired.nsfw)?;
        let overwrites: OverwriteChanges = if synced_overwrites.is_some() {
            OrderedMap::new()
        } else {
            build_overwrite_changes(logical_id, desired, actual, state)?
        };
        let replaced: Option<ChannelOverwrites> = match synced_overwrites {
            Some(wanted) => if wanted.same(&actual.overwrites) {
                None
            } else {
                Some(wanted)
            },
            None => None,
        };
        if !can_manage_roles && (!overwrites.is_empty() || replaced.is_some()) {
            return Err(
                ManagementError::ChannelPermissionDenied(
                    "Channel の permission overwrite 更新には MANAGE_ROLES 権限が必要です".to_owned(),
                ),
            );
        }
        let (parent, planned_parent) = match target {
            None => (None, None),
            Some(ParentTarget::Resolved(wanted)) => (
                NullableValueChange::between(actual.parent_id.copy(), wanted),
                None,
            ),
            Some(ParentTarget::Planned(parent)) => (
                None,
                Some(PlannedParentChange { current: actual.parent_id.copy(), logical_id: parent }),
            ),
        };
        let changes = AttributeChanges {
            name: ValueChange::if_wanted(&actual.name, name),
            parent,
            planned_parent,
            topic: change_nullable(&actual.topic, &desired.topic, None),
            nsfw: ValueChange::if_wanted(&actual.nsfw, nsfw),
            slowmode_seconds: ValueChange::if_wanted(
                &actual.slowmode_seconds,
                resolve_u16(&desired.slowmode_seconds),
            ),
            default_auto_archive_minutes: change_nullable(
                &actual.default_auto_archive_minutes,
                &desired.default_auto_archive_minutes,
                Some(1440),
            ),
            default_thread_slowmode_seconds: ValueChange::if_wanted(
                &actual.default_thread_slowmode_seconds,
                resolve_u16(&desired.default_thread_slowmode_seconds),
            ),
            overwrites,
            synced_overwrites: replaced,
        };
        if changes.is_empty() {
            Ok(None)
        } else {
            Ok(Some(changes))
        }
    }

    /// Whether nothing differs.
    pub fn is_empty(&self) -> (empty: bool)
        ensures
            empty == self.deep_view().is_empty(),
    {
        self.name.is_none() && self.parent.is_none() && self.planned_parent.is_none() && self.topic.is_none()
            && self.nsfw.is_none() && self.slowmode_seconds.is_none() && self.default_auto_archive_minutes.is_none()
            && self.default_thread_slowmode_seconds.is_none() && self.overwrites.is_empty()
            && self.synced_overwrites.is_none()
    }

    /// The update that makes the changes, given the channel as it is.
    pub fn to_update(&self, actual: &ChannelSnapshot, state: &StateFile) -> (result: Result<
        ChannelUpdate,
        ManagementError,
    >)
        ensures
            seen(result) == self.deep_view().update(actual.deep_view(), state.deep_view()),
    {
        let overwrites: Option<ChannelOverwrites> = match &self.synced_overwrites {
            Some(overwrites) => Some(overwrites.copy()),
            None => if self.overwrites.is_empty() {
                None
            } else {
                Some(apply_overwrite_changes(&actual.overwrites, &self.overwrites))
            },
        };
        let parent_id: ChannelUpdateValue<ChannelId> = match &self.planned_parent {
            Some(change) => match state.channels.get(&change.logical_id) {
                Some(parent_id) => ChannelUpdateValue::Replace(*parent_id),
                None => {
                    return Err(
                        ManagementError::InvalidState(
                            text3(
                                "Channel の親 ",
                                change.logical_id.as_str(),
                                " の作成結果が state にありません",
                            ),
                        ),
                    );
                },
            },
            None => nullable_update(&self.parent),
        };
        Ok(
            ChannelUpdate {
                name: desired_value(&self.name),
                parent_id,
                topic: nullable_update(&self.topic),
                nsfw: desired_value(&self.nsfw),
                slowmode_seconds: desired_value(&self.slowmode_seconds),
                default_auto_archive_minutes: nullable_update(&self.default_auto_archive_minutes),
                default_thread_slowmode_seconds: desired_value(&self.default_thread_slowmode_seconds),
                overwrites,
            },
        )
    }

    fn render_head(&self, logical_id: &str, discord_id: &str) -> (lines: String)
        ensures
            lines@ == self.deep_view().head_lines(logical_id@, discord_id@),
    {
        let mut lines: String = String::new();
        match &self.name {
            None => {},
            Some(change) => render_change_line(
                &mut lines,
                logical_id,
                discord_id,
                "name",
                display_quoted_string(change.current.as_str()).as_str(),
                display_quoted_string(change.desired.as_str()).as_str(),
            ),
        }
        match &self.parent {
            None => {},
            Some(change) => render_change_line(
                &mut lines,
                logical_id,
                discord_id,
                "parent",
                display_nullable_number(id_number(change.current().as_ref())).as_str(),
                display_nullable_number(id_number(change.desired())).as_str(),
            ),
        }
        match &self.planned_parent {
            None => {},
            Some(change) => render_change_line(
                &mut lines,
                logical_id,
                discord_id,
                "parent",
                display_nullable_number(id_number(change.current.as_ref())).as_str(),
                text2("planned:", change.logical_id.as_str()).as_str(),
            ),
        }
        assert(lines@ =~= self.deep_view().head_lines(logical_id@, discord_id@));
        lines
    }

    fn render_text(&self, logical_id: &str, discord_id: &str) -> (lines: String)
        ensures
            lines@ == self.deep_view().text_lines(logical_id@, discord_id@),
    {
        let mut lines: String = String::new();
        match &self.topic {
            None => {},
            Some(change) => render_change_line(
                &mut lines,
                logical_id,
                discord_id,
                "topic",
                display_nullable_string(change.current().as_ref()).as_str(),
                display_nullable_string(change.desired()).as_str(),
            ),
        }
        match &self.nsfw {
            None => {},
            Some(change) => render_change_line(
                &mut lines,
                logical_id,
                discord_id,
                "nsfw",
                bool_text(change.current),
                bool_text(change.desired),
            ),
        }
        render_number(&mut lines, logical_id, discord_id, "slowmode_seconds", &self.slowmode_seconds);
        match &self.default_auto_archive_minutes {
            None => {},
            Some(change) => render_change_line(
                &mut lines,
                logical_id,
                discord_id,
                "default_auto_archive_minutes",
                display_nullable_number(widen(change.current().as_ref())).as_str(),
                display_nullable_number(widen(change.desired())).as_str(),
            ),
        }
        render_number(
            &mut lines,
            logical_id,
            discord_id,
            "default_thread_slowmode_seconds",
            &self.default_thread_slowmode_seconds,
        );
        assert(lines@ =~= self.deep_view().text_lines(logical_id@, discord_id@));
        lines
    }

    /// Adds the lines that show the changes.
    pub fn render(&self, logical_id: &str, discord_id: &str, output: &mut String)
        ensures
            final(output)@ == old(output)@ + self.deep_view().lines(logical_id@, discord_id@),
    {
        let ghost start = output@;
        let head: String = self.render_head(logical_id, discord_id);
        let text: String = self.render_text(logical_id, discord_id);
        let mut tail: String = String::new();
        render_overwrites(&mut tail, logical_id, discord_id, &self.overwrites);
        let ghost overwrites = tail@;
        let mut synced: String = String::new();
        if self.synced_overwrites.is_some() {
            render_change_line(&mut synced, logical_id, discord_id, "permissions_sync", "false", "true");
        }
        output.append(head.as_str());
        output.append(text.as_str());
        output.append(tail.as_str());
        output.append(synced.as_str());
        proof {
            from_empty(overwrites_lines(logical_id@, discord_id@, self.deep_view().overwrites));
            from_empty(change_line(logical_id@, discord_id@, "permissions_sync"@, "false"@, "true"@));
            appended(start, head@, text@, overwrites, synced@);
        }
    }
}

proof fn from_empty(text: Seq<char>)
    ensures
        Seq::<char>::empty() + text == text,
{
    assert(Seq::<char>::empty() + text =~= text);
}

proof fn appended(start: Seq<char>, a: Seq<char>, b: Seq<char>, c: Seq<char>, d: Seq<char>)
    ensures
        start + a + b + c + d == start + (a + b + c + d),
{
    assert(start + a + b + c + d =~= start + (a + b + c + d));
}

} // verus!
