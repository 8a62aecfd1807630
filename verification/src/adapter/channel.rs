//! The channels of a guild, from what Discord says of them, and what Discord is told
//! to change them.

use vstd::prelude::*;

use crate::adapter::permission::{
    bits_of, has_manage_channels, has_manage_roles, holds, holds_known, holds_permission, known_bits, manages_channels,
    manages_roles, permission_bits,
};
use crate::configuration::channel::{ChannelKind, OverwriteValue};
use crate::configuration::permission::{KnownPermission, PermissionVocabulary};
use crate::domain::{ErrorView, ManagementError};
use crate::ids::{ChannelId, GuildId, MemberId, RoleId};
use crate::ordered::{lookup, lookup_has_entry, put, put_entry, put_then_lookup, OrderedMap};
use crate::port::{
    ChannelCatalog, ChannelCatalogView, ChannelCreate, ChannelCreateView, ChannelOverwritePermissions,
    ChannelOverwritePermissionsView, ChannelOverwrites, ChannelOverwritesView, ChannelOverwriteTarget,
    ChannelOverwriteTargetView, ChannelSnapshot, ChannelSnapshotView, ChannelUpdate, ChannelUpdateValue,
    ChannelUpdateView, PermissionBits,
};
use crate::value::{seen, Plain};

verus! {

/// Whom an overwrite is for, as Discord says it.
#[derive(Clone, Copy, Debug)]
pub enum DiscordOverwriteKind {
    Role(RoleId),
    Member(MemberId),
    Other,
}

/// Whom an overwrite is for, as Discord says it.
pub enum OverwriteKindView {
    Role(u64),
    Member(u64),
    Other,
}

impl DeepView for DiscordOverwriteKind {
    type V = OverwriteKindView;

    open spec fn deep_view(&self) -> OverwriteKindView {
        match self {
            DiscordOverwriteKind::Role(id) => OverwriteKindView::Role(id.deep_view()),
            DiscordOverwriteKind::Member(id) => OverwriteKindView::Member(id.deep_view()),
            DiscordOverwriteKind::Other => OverwriteKindView::Other,
        }
    }
}

/// An overwrite as Discord describes it.
#[derive(Clone, Copy, Debug)]
pub struct DiscordOverwrite {
    pub kind: DiscordOverwriteKind,
    pub allow: u64,
    pub deny: u64,
}

/// What an overwrite as Discord describes it holds.
pub struct OverwriteView {
    pub kind: OverwriteKindView,
    pub allow: u64,
    pub deny: u64,
}

impl DeepView for DiscordOverwrite {
    type V = OverwriteView;

    open spec fn deep_view(&self) -> OverwriteView {
        OverwriteView { kind: self.kind.deep_view(), allow: self.allow, deny: self.deny }
    }
}

/// A channel as Discord describes it.
pub struct DiscordChannel {
    pub id: ChannelId,
    pub position: u16,
    pub kind: ChannelKind,
    pub name: String,
    pub parent_id: Option<ChannelId>,
    pub topic: Option<String>,
    pub nsfw: bool,
    pub rate_limit_per_user: Option<u16>,
    /// After how many minutes threads are archived, as a number that may have no meaning.
    pub default_auto_archive_duration: Option<u16>,
    pub default_thread_rate_limit_per_user: Option<u16>,
    pub permission_overwrites: Vec<DiscordOverwrite>,
}

/// What a channel as Discord describes it holds.
pub struct DiscordChannelView {
    pub id: u64,
    pub position: u16,
    pub kind: ChannelKind,
    pub name: Seq<char>,
    pub parent_id: Option<u64>,
    pub topic: Option<Seq<char>>,
    pub nsfw: bool,
    pub rate_limit_per_user: Option<u16>,
    pub default_auto_archive_duration: Option<u16>,
    pub default_thread_rate_limit_per_user: Option<u16>,
    pub permission_overwrites: Seq<OverwriteView>,
}

impl DeepView for DiscordChannel {
    type V = DiscordChannelView;

    open spec fn deep_view(&self) -> DiscordChannelView {
        DiscordChannelView {
            id: self.id.deep_view(),
            position: self.position,
            kind: self.kind,
            name: self.name@,
            parent_id: self.parent_id.deep_view(),
            topic: self.topic.deep_view(),
            nsfw: self.nsfw,
            rate_limit_per_user: self.rate_limit_per_user,
            default_auto_archive_duration: self.default_auto_archive_duration,
            default_thread_rate_limit_per_user: self.default_thread_rate_limit_per_user,
            permission_overwrites: self.permission_overwrites.deep_view(),
        }
    }
}

/// After how many minutes threads are archived, if it is one of the times there are.
pub open spec fn archive_minutes(minutes: u16) -> Option<u16> {
    if minutes == 60 || minutes == 1440 || minutes == 4320 || minutes == 10080 {
        Some(minutes)
    } else {
        None
    }
}

/// After how many minutes threads are archived, if it is one of the times there are.
pub fn auto_archive_minutes(minutes: u16) -> (known: Option<u16>)
    ensures
        known == archive_minutes(minutes),
{
    if minutes == 60 || minutes == 1440 || minutes == 4320 || minutes == 10080 {
        Some(minutes)
    } else {
        None
    }
}

/// The bits of the given permissions, from a place on, with others.
pub open spec fn mask_of(known: Seq<Seq<char>>, i: int, mask: u64) -> u64
    decreases known.len() - i,
{
    if i < 0 || i >= known.len() {
        mask
    } else {
        mask_of(known, i + 1, mask | known_bits(permission_bits(known[i])))
    }
}

/// The bits of all known permissions.
pub fn known_permission_mask(known_permissions: &Vec<KnownPermission>) -> (mask: u64)
    ensures
        mask == mask_of(known_permissions.deep_view(), 0, 0),
{
    let ghost all = known_permissions.deep_view();
    let mut mask: u64 = 0;
    let mut i: usize = 0;
    while i < known_permissions.len()
        invariant
            i <= known_permissions@.len(),
            all == known_permissions.deep_view(),
            mask_of(all, 0, 0) == mask_of(all, i as int, mask),
        decreases known_permissions@.len() - i,
    {
        assert(all[i as int] == known_permissions@[i as int].deep_view());
        mask = mask | bits_of(&known_permissions[i]);
        i += 1;
    }
    mask
}

/// What an overwrite does to each known permission, from a place on.
pub open spec fn known_values(
    known: Seq<Seq<char>>,
    i: int,
    allow: u64,
    deny: u64,
    values: Seq<(Seq<char>, OverwriteValue)>,
) -> Seq<(Seq<char>, OverwriteValue)>
    decreases known.len() - i,
{
    if i < 0 || i >= known.len() {
        values
    } else if holds_known(allow, permission_bits(known[i])) {
        known_values(
            known,
            i + 1,
            allow,
            deny,
            put::<KnownPermission, OverwriteValue>(values, known[i], OverwriteValue::Allow),
        )
    } else if holds_known(deny, permission_bits(known[i])) {
        known_values(
            known,
            i + 1,
            allow,
            deny,
            put::<KnownPermission, OverwriteValue>(values, known[i], OverwriteValue::Deny),
        )
    } else {
        known_values(known, i + 1, allow, deny, values)
    }
}

/// Whom an overwrite is for, if it is known.
pub open spec fn seen_target(kind: OverwriteKindView, guild_id: u64) -> Option<ChannelOverwriteTargetView> {
    match kind {
        OverwriteKindView::Role(id) => if id == guild_id {
            Some(ChannelOverwriteTargetView::Everyone)
        } else {
            Some(ChannelOverwriteTargetView::Role(id))
        },
        OverwriteKindView::Member(id) => Some(ChannelOverwriteTargetView::Member(id)),
        OverwriteKindView::Other => None,
    }
}

/// What an overwrite does: to known permissions by name, and to all others by their bits.
pub open spec fn seen_permissions(
    overwrite: OverwriteView,
    known: Seq<Seq<char>>,
    mask: u64,
) -> ChannelOverwritePermissionsView {
    ChannelOverwritePermissionsView {
        known: known_values(known, 0, overwrite.allow, overwrite.deny, Seq::empty()),
        allow_unknown: overwrite.allow & !mask,
        deny_unknown: overwrite.deny & !mask,
    }
}

/// An overwrite as it is managed, if it is known whom it is for.
pub open spec fn seen_overwrite(
    overwrite: OverwriteView,
    guild_id: u64,
    known: Seq<Seq<char>>,
    mask: u64,
) -> Option<(ChannelOverwriteTargetView, ChannelOverwritePermissionsView)> {
    match seen_target(overwrite.kind, guild_id) {
        None => None,
        Some(target) => Some((target, seen_permissions(overwrite, known, mask))),
    }
}

/// An overwrite as it is managed, if it is known whom it is for.
pub fn overwrite_snapshot(
    overwrite: &DiscordOverwrite,
    guild_id: GuildId,
    known_permissions: &Vec<KnownPermission>,
    known_permission_mask: u64,
) -> (snapshot: Option<(ChannelOverwriteTarget, ChannelOverwritePermissions)>)
    ensures
        snapshot.deep_view() == seen_overwrite(
            overwrite.deep_view(),
            guild_id.deep_view(),
            known_permissions.deep_view(),
            known_permission_mask,
        ),
{
    let target: ChannelOverwriteTarget = match overwrite.kind {
        DiscordOverwriteKind::Role(id) => if id.get() == guild_id.get() {
            ChannelOverwriteTarget::Everyone
        } else {
            ChannelOverwriteTarget::Role(id)
        },
        DiscordOverwriteKind::Member(id) => ChannelOverwriteTarget::Member(id),
        DiscordOverwriteKind::Other => {
            return None;
        },
    };
    let ghost all = known_permissions.deep_view();
    let mut known: OrderedMap<KnownPermission, OverwriteValue> = OrderedMap::new();
    let mut i: usize = 0;
    while i < known_permissions.len()
        invariant
            i <= known_permissions@.len(),
            all == known_permissions.deep_view(),
            known_values(all, 0, overwrite.allow, overwrite.deny, Seq::empty()) == known_values(
                all,
                i as int,
                overwrite.allow,
                overwrite.deny,
                known.deep_view(),
            ),
        decreases known_permissions@.len() - i,
    {
        assert(all[i as int] == known_permissions@[i as int].deep_view());
        let permission: &KnownPermission = &known_permissions[i];
        if holds_permission(overwrite.allow, permission) {
            known.insert(permission.copy(), OverwriteValue::Allow);
        } else if holds_permission(overwrite.deny, permission) {
            known.insert(permission.copy(), OverwriteValue::Deny);
        }
        i += 1;
    }
    Some(
        (
            target,
            ChannelOverwritePermissions {
                known,
                allow_unknown: PermissionBits::new(overwrite.allow & !known_permission_mask),
                deny_unknown: PermissionBits::new(overwrite.deny & !known_permission_mask),
            },
        ),
    )
}

/// Overwrites as they are managed, from a place on.
pub open spec fn seen_overwrites(
    overwrites: Seq<OverwriteView>,
    i: int,
    guild_id: u64,
    known: Seq<Seq<char>>,
    gathered: ChannelOverwritesView,
) -> ChannelOverwritesView
    decreases overwrites.len() - i,
{
    if i < 0 || i >= overwrites.len() {
        gathered
    } else {
        match seen_overwrite(overwrites[i], guild_id, known, mask_of(known, 0, 0)) {
            None => seen_overwrites(overwrites, i + 1, guild_id, known, gathered),
            Some((target, permissions)) => seen_overwrites(
                overwrites,
                i + 1,
                guild_id,
                known,
                put::<ChannelOverwriteTarget, ChannelOverwritePermissionsView>(gathered, target, permissions),
            ),
        }
    }
}

/// A channel as it is managed.
pub open spec fn seen_channel(
    channel: DiscordChannelView,
    guild_id: u64,
    known: Seq<Seq<char>>,
    manageable: bool,
) -> ChannelSnapshotView {
    ChannelSnapshotView {
        id: channel.id,
        position: channel.position,
        kind: channel.kind,
        manageable,
        name: channel.name,
        parent_id: channel.parent_id,
        topic: channel.topic,
        nsfw: channel.nsfw,
        slowmode_seconds: crate::port::replaced(0, channel.rate_limit_per_user),
        default_auto_archive_minutes: match channel.default_auto_archive_duration {
            Some(minutes) => archive_minutes(minutes),
            None => None,
        },
        default_thread_slowmode_seconds: crate::port::replaced(0, channel.default_thread_rate_limit_per_user),
        overwrites: seen_overwrites(channel.permission_overwrites, 0, guild_id, known, Seq::empty()),
    }
}

/// A channel as it is managed.
pub fn channel_snapshot(
    channel: &DiscordChannel,
    guild_id: GuildId,
    known_permissions: &Vec<KnownPermission>,
    manageable: bool,
) -> (snapshot: ChannelSnapshot)
    ensures
        snapshot.deep_view() == seen_channel(
            channel.deep_view(),
            guild_id.deep_view(),
            known_permissions.deep_view(),
            manageable,
        ),
{
    let ghost all = channel.deep_view().permission_overwrites;
    let ghost known = known_permissions.deep_view();
    let ghost guild = guild_id.deep_view();
    let mask: u64 = known_permission_mask(known_permissions);
    let mut overwrites: ChannelOverwrites = OrderedMap::new();
    let mut i: usize = 0;
    while i < channel.permission_overwrites.len()
        invariant
            i <= all.len(),
            all == channel.deep_view().permission_overwrites,
            known == known_permissions.deep_view(),
            guild == guild_id.deep_view(),
            mask == mask_of(known, 0, 0),
            seen_overwrites(all, 0, guild, known, Seq::empty()) == seen_overwrites(
                all,
                i as int,
                guild,
                known,
                overwrites.deep_view(),
            ),
        decreases all.len() - i,
    {
        assert(all[i as int] == channel.permission_overwrites@[i as int].deep_view());
        match overwrite_snapshot(&channel.permission_overwrites[i], guild_id, known_permissions, mask) {
            None => {},
            Some((target, permissions)) => overwrites.insert(target, permissions),
        }
        i += 1;
    }
    ChannelSnapshot {
        id: channel.id,
        position: channel.position,
        kind: channel.kind,
        manageable,
        name: channel.name.copy(),
        parent_id: channel.parent_id.copy(),
        topic: channel.topic.copy(),
        nsfw: channel.nsfw,
        slowmode_seconds: match channel.rate_limit_per_user {
            Some(seconds) => seconds,
            None => 0,
        },
        default_auto_archive_minutes: match channel.default_auto_archive_duration {
            Some(minutes) => auto_archive_minutes(minutes),
            None => None,
        },
        default_thread_slowmode_seconds: match channel.default_thread_rate_limit_per_user {
            Some(seconds) => seconds,
            None => 0,
        },
        overwrites,
    }
}

/// The channels of a guild as they are managed, or why they cannot be.
pub open spec fn seen_catalog(
    channels: Seq<DiscordChannelView>,
    guild_id: u64,
    bot_permissions: u64,
    known: Seq<Seq<char>>,
) -> Result<ChannelCatalogView, ErrorView> {
    if !manages_channels(bot_permissions) {
        Err(ErrorView::ChannelCatalogPermissionDenied("Bot に MANAGE_CHANNELS 権限がありません"@))
    } else {
        Ok(
            ChannelCatalogView {
                channels: channels.map_values(
                    |channel: DiscordChannelView| seen_channel(channel, guild_id, known, true),
                ),
            },
        )
    }
}

/// The channels of a guild as they are managed, given the permissions that the bot has.
pub fn channel_catalog(
    channels: &Vec<DiscordChannel>,
    guild_id: GuildId,
    bot_permissions: u64,
    vocabulary: &PermissionVocabulary,
) -> (result: Result<ChannelCatalog, ManagementError>)
    ensures
        seen(result) == seen_catalog(
            channels.deep_view(),
            guild_id.deep_view(),
            bot_permissions,
            vocabulary.deep_view().map_values(|entry: (Seq<char>, ())| entry.0),
        ),
{
    if !has_manage_channels(bot_permissions) {
        return Err(
            ManagementError::ChannelCatalogPermissionDenied("Bot に MANAGE_CHANNELS 権限がありません".to_owned()),
        );
    }
    let known: Vec<KnownPermission> = vocabulary.known_permissions();
    let ghost all = channels.deep_view().map_values(
        |channel: DiscordChannelView| seen_channel(channel, guild_id.deep_view(), known.deep_view(), true),
    );
    let mut snapshots: Vec<ChannelSnapshot> = Vec::new();
    let mut i: usize = 0;
    while i < channels.len()
        invariant
            i <= channels@.len(),
            all == channels.deep_view().map_values(
                |channel: DiscordChannelView| seen_channel(channel, guild_id.deep_view(), known.deep_view(), true),
            ),
            snapshots@.len() == i,
            forall|k: int| 0 <= k < i ==> (#[trigger] snapshots@[k]).deep_view() == all[k],
        decreases channels@.len() - i,
    {
        assert(channels.deep_view()[i as int] == channels@[i as int].deep_view());
        snapshots.push(channel_snapshot(&channels[i], guild_id, &known, true));
        i += 1;
    }
    assert(snapshots.deep_view() =~= all);
    Ok(ChannelCatalog { channels: snapshots })
}

/// Whether a change of a channel has to be sent.
pub open spec fn edit_is_required(update: ChannelUpdateView) -> bool {
    ||| update.name is Some
    ||| !(update.parent_id is Keep)
    ||| !(update.topic is Keep)
    ||| update.nsfw is Some
    ||| update.slowmode_seconds is Some
    ||| !(update.default_auto_archive_minutes is Keep)
    ||| update.default_thread_slowmode_seconds is Some
    ||| update.overwrites is Some
}

/// Whether a change of a channel has to be sent.
pub fn channel_edit_is_required(update: &ChannelUpdate) -> (required: bool)
    ensures
        required == edit_is_required(update.deep_view()),
{
    update.name.is_some() || !update.parent_id.is_keep() || !update.topic.is_keep() || update.nsfw.is_some()
        || update.slowmode_seconds.is_some() || !update.default_auto_archive_minutes.is_keep()
        || update.default_thread_slowmode_seconds.is_some() || update.overwrites.is_some()
}

/// Whether a change of a channel needs the permission to manage roles.
pub fn channel_update_requires_manage_roles(update: &ChannelUpdate) -> (required: bool)
    ensures
        required == (update.deep_view().overwrites is Some),
{
    update.overwrites.is_some()
}

/// What is wrong with a change of a channel, given the permissions that the bot has.
pub fn check_channel_update(update: &ChannelUpdate, bot_permissions: u64) -> (result: Result<(), ManagementError>)
    ensures
        seen(result) == if update.deep_view().overwrites is Some && !manages_roles(
            bot_permissions,
        ) {
            Err(
                ErrorView::ChannelPermissionDenied(
                    "Channel の permission overwrite 更新には MANAGE_ROLES 権限が必要です"@,
                ),
            )
        } else {
            Ok(())
        },
{
    if channel_update_requires_manage_roles(update) && !has_manage_roles(
        bot_permissions,
    ) {
        return Err(
            ManagementError::ChannelPermissionDenied(
                "Channel の permission overwrite 更新には MANAGE_ROLES 権限が必要です".to_owned(),
            ),
        );
    }
    Ok(())
}

/// Whom an overwrite that is sent is for.
#[derive(Clone, Copy, Debug, PartialEq, Eq, Structural)]
pub enum DiscordPermissionOverwriteType {
    Role,
    Member,
}

impl DiscordPermissionOverwriteType {
    /// The number that Discord knows it by.
    pub fn code(self) -> (code: u8)
        ensures
            code == match self {
                DiscordPermissionOverwriteType::Role => 0u8,
                DiscordPermissionOverwriteType::Member => 1u8,
            },
    {
        match self {
            DiscordPermissionOverwriteType::Role => 0,
            DiscordPermissionOverwriteType::Member => 1,
        }
    }
}

/// The kind of a channel that is sent.
#[derive(Clone, Copy, Debug, PartialEq, Eq, Structural)]
pub enum DiscordChannelType {
    Text,
    Category,
}

impl DiscordChannelType {
    /// The number that Discord knows it by.
    pub fn code(self) -> (code: u8)
        ensures
            code == match self {
                DiscordChannelType::Text => 0u8,
                DiscordChannelType::Category => 4u8,
            },
    {
        match self {
            DiscordChannelType::Text => 0,
            DiscordChannelType::Category => 4,
        }
    }
}

/// An overwrite that is sent.
#[derive(Clone, Copy, Debug, PartialEq, Eq, Structural)]
pub struct DiscordPermissionOverwrite {
    pub id: u64,
    pub kind: DiscordPermissionOverwriteType,
    pub allow: u64,
    pub deny: u64,
}

/// A field of a change that may be left out, or sent as nothing.
#[derive(Debug)]
pub enum NullablePatchField<T> {
    Keep,
    Replace(T),
    Clear,
}

impl<T: DeepView> DeepView for NullablePatchField<T> {
    type V = NullablePatchField<T::V>;

    open spec fn deep_view(&self) -> NullablePatchField<T::V> {
        match self {
            NullablePatchField::Keep => NullablePatchField::Keep,
            NullablePatchField::Replace(value) => NullablePatchField::Replace(value.deep_view()),
            NullablePatchField::Clear => NullablePatchField::Clear,
        }
    }
}

impl<T: DeepView> NullablePatchField<T> {
    /// Whether the field is left out.
    pub fn is_keep(&self) -> (answer: bool)
        ensures
            answer == (self.deep_view() is Keep),
    {
        matches!(self, NullablePatchField::Keep)
    }
}

/// The field that sends a change of an attribute.
pub open spec fn patch_field<W>(value: ChannelUpdateValue<W>) -> NullablePatchField<W> {
    match value {
        ChannelUpdateValue::Keep => NullablePatchField::Keep,
        ChannelUpdateValue::Replace(value) => NullablePatchField::Replace(value),
        ChannelUpdateValue::Clear => NullablePatchField::Clear,
    }
}

/// The field that sends a change of an attribute.
pub fn nullable_patch_field<T: Plain>(value: &ChannelUpdateValue<T>) -> (field: NullablePatchField<T>)
    ensures
        field.deep_view() == patch_field(value.deep_view()),
{
    match value {
        ChannelUpdateValue::Keep => NullablePatchField::Keep,
        ChannelUpdateValue::Replace(value) => NullablePatchField::Replace(value.copy()),
        ChannelUpdateValue::Clear => NullablePatchField::Clear,
    }
}

/// A new text channel that is sent.
pub struct CreateTextChannelRequest {
    pub name: String,
    pub channel_type: DiscordChannelType,
    pub parent_id: Option<ChannelId>,
    pub topic: Option<String>,
    pub nsfw: bool,
    pub rate_limit_per_user: Option<u16>,
    pub default_auto_archive_duration: Option<u16>,
    pub default_thread_rate_limit_per_user: Option<u16>,
    pub permission_overwrites: Option<Vec<DiscordPermissionOverwrite>>,
}

/// A new category that is sent.
pub struct CreateCategoryChannelRequest {
    pub name: String,
    pub channel_type: DiscordChannelType,
    pub permission_overwrites: Option<Vec<DiscordPermissionOverwrite>>,
}

/// A new channel that is sent.
pub enum CreateChannelRequest {
    Text(CreateTextChannelRequest),
    Category(CreateCategoryChannelRequest),
}

/// What a new channel that is sent holds.
pub enum CreateRequestView {
    Text {
        name: Seq<char>,
        channel_type: DiscordChannelType,
        parent_id: Option<u64>,
        topic: Option<Seq<char>>,
        nsfw: bool,
        rate_limit_per_user: Option<u16>,
        default_auto_archive_duration: Option<u16>,
        default_thread_rate_limit_per_user: Option<u16>,
        permission_overwrites: Option<Seq<DiscordPermissionOverwrite>>,
    },
    Category {
        name: Seq<char>,
        channel_type: DiscordChannelType,
        permission_overwrites: Option<Seq<DiscordPermissionOverwrite>>,
    },
}

/// The overwrites in a request, if there are any.
pub open spec fn overwrites_in(overwrites: Option<Vec<DiscordPermissionOverwrite>>) -> Option<
    Seq<DiscordPermissionOverwrite>,
> {
    match overwrites {
        Some(overwrites) => Some(overwrites@),
        None => None,
    }
}

impl DeepView for CreateChannelRequest {
    type V = CreateRequestView;

    open spec fn deep_view(&self) -> CreateRequestView {
        match self {
            CreateChannelRequest::Text(request) => CreateRequestView::Text {
                name: request.name@,
                channel_type: request.channel_type,
                parent_id: request.parent_id.deep_view(),
                topic: request.topic.deep_view(),
                nsfw: request.nsfw,
                rate_limit_per_user: request.rate_limit_per_user,
                default_auto_archive_duration: request.default_auto_archive_duration,
                default_thread_rate_limit_per_user: request.default_thread_rate_limit_per_user,
                permission_overwrites: overwrites_in(request.permission_overwrites),
            },
            CreateChannelRequest::Category(request) => CreateRequestView::Category {
                name: request.name@,
                channel_type: request.channel_type,
                permission_overwrites: overwrites_in(request.permission_overwrites),
            },
        }
    }
}

/// A change of a channel that is sent.
pub struct ModifyChannelRequest {
    pub name: Option<String>,
    pub parent_id: NullablePatchField<ChannelId>,
    pub topic: NullablePatchField<String>,
    pub nsfw: Option<bool>,
    pub rate_limit_per_user: Option<u16>,
    pub default_auto_archive_duration: NullablePatchField<u16>,
    pub default_thread_rate_limit_per_user: Option<u16>,
    pub permission_overwrites: Option<Vec<DiscordPermissionOverwrite>>,
}

/// What a change of a channel that is sent holds.
pub struct ModifyRequestView {
    pub name: Option<Seq<char>>,
    pub parent_id: NullablePatchField<u64>,
    pub topic: NullablePatchField<Seq<char>>,
    pub nsfw: Option<bool>,
    pub rate_limit_per_user: Option<u16>,
    pub default_auto_archive_duration: NullablePatchField<u16>,
    pub default_thread_rate_limit_per_user: Option<u16>,
    pub permission_overwrites: Option<Seq<DiscordPermissionOverwrite>>,
}

impl DeepView for ModifyChannelRequest {
    type V = ModifyRequestView;

    open spec fn deep_view(&self) -> ModifyRequestView {
        ModifyRequestView {
            name: self.name.deep_view(),
            parent_id: self.parent_id.deep_view(),
            topic: self.topic.deep_view(),
            nsfw: self.nsfw,
            rate_limit_per_user: self.rate_limit_per_user,
            default_auto_archive_duration: self.default_auto_archive_duration.deep_view(),
            default_thread_rate_limit_per_user: self.default_thread_rate_limit_per_user,
            permission_overwrites: overwrites_in(self.permission_overwrites),
        }
    }
}

/// Bits with those of the permissions that have a value, from a place on.
pub open spec fn with_bits(
    bits: u64,
    known: Seq<(Seq<char>, OverwriteValue)>,
    i: int,
    value: OverwriteValue,
) -> u64
    decreases known.len() - i,
{
    if i < 0 || i >= known.len() {
        bits
    } else if known[i].1 == value {
        with_bits(bits | known_bits(permission_bits(known[i].0)), known, i + 1, value)
    } else {
        with_bits(bits, known, i + 1, value)
    }
}

/// The overwrite that is sent for one target, if it does anything.
pub open spec fn sent_overwrite(
    guild_id: u64,
    target: ChannelOverwriteTargetView,
    permissions: ChannelOverwritePermissionsView,
) -> Option<DiscordPermissionOverwrite> {
    let allow = with_bits(permissions.allow_unknown, permissions.known, 0, OverwriteValue::Allow);
    let deny = with_bits(permissions.deny_unknown, permissions.known, 0, OverwriteValue::Deny);
    if allow == 0 && deny == 0 {
        None
    } else {
        Some(
            DiscordPermissionOverwrite {
                id: match target {
                    ChannelOverwriteTargetView::Everyone => guild_id,
                    ChannelOverwriteTargetView::Role(id) => id,
                    ChannelOverwriteTargetView::Member(id) => id,
                },
                kind: match target {
                    ChannelOverwriteTargetView::Member(_) => DiscordPermissionOverwriteType::Member,
                    _ => DiscordPermissionOverwriteType::Role,
                },
                allow,
                deny,
            },
        )
    }
}

/// The overwrites that are sent.
pub open spec fn sent_overwrites(guild_id: u64, overwrites: ChannelOverwritesView) -> Seq<DiscordPermissionOverwrite>
    decreases overwrites.len(),
{
    if overwrites.len() == 0 {
        Seq::empty()
    } else {
        let rest = sent_overwrites(guild_id, overwrites.drop_last());
        match sent_overwrite(guild_id, overwrites.last().0, overwrites.last().1) {
            Some(overwrite) => rest.push(overwrite),
            None => rest,
        }
    }
}

fn add_bits(bits: u64, known: &OrderedMap<KnownPermission, OverwriteValue>, value: OverwriteValue) -> (sum: u64)
    ensures
        sum == with_bits(bits, known.deep_view(), 0, value),
{
    let ghost all = known.deep_view();
    let mut sum: u64 = bits;
    let mut i: usize = 0;
    while i < known.len()
        invariant
            i <= all.len(),
            all == known.deep_view(),
            with_bits(bits, all, 0, value) == with_bits(sum, all, i as int, value),
        decreases all.len() - i,
    {
        if *known.value_at(i) == value {
            sum = sum | bits_of(known.key_at(i));
        }
        i += 1;
    }
    sum
}

fn send_overwrite(
    guild_id: GuildId,
    target: &ChannelOverwriteTarget,
    permissions: &ChannelOverwritePermissions,
) -> (overwrite: Option<DiscordPermissionOverwrite>)
    ensures
        overwrite == sent_overwrite(guild_id.deep_view(), target.deep_view(), permissions.deep_view()),
{
    let allow: u64 = add_bits(permissions.allow_unknown.bits(), &permissions.known, OverwriteValue::Allow);
    let deny: u64 = add_bits(permissions.deny_unknown.bits(), &permissions.known, OverwriteValue::Deny);
    if allow == 0 && deny == 0 {
        return None;
    }
    let id: u64 = match target {
        ChannelOverwriteTarget::Everyone => guild_id.get(),
        ChannelOverwriteTarget::Role(id) => id.get(),
        ChannelOverwriteTarget::Member(id) => id.get(),
    };
    let kind: DiscordPermissionOverwriteType = match target {
        ChannelOverwriteTarget::Member(_) => DiscordPermissionOverwriteType::Member,
        _ => DiscordPermissionOverwriteType::Role,
    };
    Some(DiscordPermissionOverwrite { id, kind, allow, deny })
}

/// The overwrites that are sent. Those that do nothing are left out.
pub fn overwrite_payloads(guild_id: GuildId, overwrites: &ChannelOverwrites) -> (payloads: Vec<
    DiscordPermissionOverwrite,
>)
    ensures
        payloads@ == sent_overwrites(guild_id.deep_view(), overwrites.deep_view()),
{
    let ghost all = overwrites.deep_view();
    let mut payloads: Vec<DiscordPermissionOverwrite> = Vec::new();
    let mut i: usize = 0;
    assert(all.take(0) =~= Seq::empty());
    while i < overwrites.len()
        invariant
            i <= all.len(),
            all == overwrites.deep_view(),
            payloads@ == sent_overwrites(guild_id.deep_view(), all.take(i as int)),
        decreases all.len() - i,
    {
        proof {
            assert(all.take(i + 1).drop_last() =~= all.take(i as int));
            assert(all.take(i + 1).last() == all[i as int]);
        }
        match send_overwrite(guild_id, overwrites.key_at(i), overwrites.value_at(i)) {
            Some(overwrite) => payloads.push(overwrite),
            None => {},
        }
        i += 1;
    }
    assert(all.take(i as int) =~= all);
    payloads
}

/// The new channel that is sent. Overwrites are left out where none does anything,
/// and so is a thread slowmode of zero.
pub open spec fn create_request(guild_id: u64, create: ChannelCreateView) -> CreateRequestView {
    let sent = sent_overwrites(guild_id, create.overwrites);
    let permission_overwrites = if sent.len() == 0 {
        None
    } else {
        Some(sent)
    };
    match create.kind {
        ChannelKind::Category => CreateRequestView::Category {
            name: create.name,
            channel_type: DiscordChannelType::Category,
            permission_overwrites,
        },
        _ => CreateRequestView::Text {
            name: create.name,
            channel_type: DiscordChannelType::Text,
            parent_id: create.parent_id,
            topic: create.topic,
            nsfw: create.nsfw,
            rate_limit_per_user: Some(create.slowmode_seconds),
            default_auto_archive_duration: create.default_auto_archive_minutes,
            default_thread_rate_limit_per_user: if create.default_thread_slowmode_seconds == 0 {
                None
            } else {
                Some(create.default_thread_slowmode_seconds)
            },
            permission_overwrites,
        },
    }
}

/// The new channel that is sent.
pub fn create_channel_payload(guild_id: GuildId, create: ChannelCreate) -> (request: CreateChannelRequest)
    requires
        create.kind != ChannelKind::Unsupported,
    ensures
        request.deep_view() == create_request(guild_id.deep_view(), create.deep_view()),
{
    let payloads: Vec<DiscordPermissionOverwrite> = overwrite_payloads(guild_id, &create.overwrites);
    let permission_overwrites: Option<Vec<DiscordPermissionOverwrite>> = if payloads.is_empty() {
        None
    } else {
        Some(payloads)
    };
    match create.kind {
        ChannelKind::Category => CreateChannelRequest::Category(
            CreateCategoryChannelRequest {
                name: create.name,
                channel_type: DiscordChannelType::Category,
                permission_overwrites,
            },
        ),
        _ => CreateChannelRequest::Text(
            CreateTextChannelRequest {
                name: create.name,
                channel_type: DiscordChannelType::Text,
                parent_id: create.parent_id,
                topic: create.topic,
                nsfw: create.nsfw,
                rate_limit_per_user: Some(create.slowmode_seconds),
                default_auto_archive_duration: create.default_auto_archive_minutes,
                default_thread_rate_limit_per_user: if create.default_thread_slowmode_seconds == 0 {
                    None
                } else {
                    Some(create.default_thread_slowmode_seconds)
                },
                permission_overwrites,
            },
        ),
    }
}

/// The change of a channel that is sent. Overwrites are always sent in full.
pub open spec fn modify_request(guild_id: u64, update: ChannelUpdateView) -> ModifyRequestView {
    ModifyRequestView {
        name: update.name,
        parent_id: patch_field(update.parent_id),
        topic: patch_field(update.topic),
        nsfw: update.nsfw,
        rate_limit_per_user: update.slowmode_seconds,
        default_auto_archive_duration: patch_field(update.default_auto_archive_minutes),
        default_thread_rate_limit_per_user: update.default_thread_slowmode_seconds,
        permission_overwrites: match update.overwrites {
            Some(overwrites) => Some(sent_overwrites(guild_id, overwrites)),
            None => None,
        },
    }
}

/// The change of a channel that is sent.
pub fn edit_channel_payload(guild_id: GuildId, update: &ChannelUpdate) -> (request: ModifyChannelRequest)
    ensures
        request.deep_view() == modify_request(guild_id.deep_view(), update.deep_view()),
{
    ModifyChannelRequest {
        name: update.name.copy(),
        parent_id: nullable_patch_field(&update.parent_id),
        topic: nullable_patch_field(&update.topic),
        nsfw: update.nsfw,
        rate_limit_per_user: update.slowmode_seconds,
        default_auto_archive_duration: nullable_patch_field(&update.default_auto_archive_minutes),
        default_thread_rate_limit_per_user: update.default_thread_slowmode_seconds,
        permission_overwrites: match &update.overwrites {
            Some(overwrites) => Some(overwrite_payloads(guild_id, overwrites)),
            None => None,
        },
    }
}

/// Whether each permission that is said to be allowed or denied is one of the known
/// ones, and is allowed or denied by the bits.
spec fn says_what_bits_hold(
    values: Seq<(Seq<char>, OverwriteValue)>,
    known: Seq<Seq<char>>,
    allow: u64,
    deny: u64,
) -> bool {
    forall|k: int|
        0 <= k < values.len() ==> {
            let (name, value) = #[trigger] values[k];
            &&& known.contains(name)
            &&& (value == OverwriteValue::Allow && holds_known(allow, permission_bits(name))) || (value
                == OverwriteValue::Deny && holds_known(deny, permission_bits(name)))
        }
}

proof fn known_values_say_what_bits_hold(
    known: Seq<Seq<char>>,
    i: int,
    allow: u64,
    deny: u64,
    values: Seq<(Seq<char>, OverwriteValue)>,
)
    requires
        0 <= i <= known.len(),
        says_what_bits_hold(values, known, allow, deny),
    ensures
        says_what_bits_hold(known_values(known, i, allow, deny, values), known, allow, deny),
    decreases known.len() - i,
{
    if i < known.len() {
        let bits = permission_bits(known[i]);
        if holds_known(allow, bits) || holds_known(deny, bits) {
            let value = if holds_known(allow, bits) {
                OverwriteValue::Allow
            } else {
                OverwriteValue::Deny
            };
            let next = put::<KnownPermission, OverwriteValue>(values, known[i], value);
            assert forall|k: int| 0 <= k < next.len() implies {
                let (name, value) = #[trigger] next[k];
                &&& known.contains(name)
                &&& (value == OverwriteValue::Allow && holds_known(allow, permission_bits(name))) || (value
                    == OverwriteValue::Deny && holds_known(deny, permission_bits(name)))
            } by {
                put_entry::<KnownPermission, OverwriteValue>(values, known[i], value, k);
                if next[k] != (known[i], value) {
                    let j = values.index_of(next[k]);
                    assert(values[j] == next[k]);
                }
            }
            known_values_say_what_bits_hold(known, i + 1, allow, deny, next);
        } else {
            known_values_say_what_bits_hold(known, i + 1, allow, deny, values);
        }
    }
}

proof fn known_values_keep(
    known: Seq<Seq<char>>,
    i: int,
    allow: u64,
    deny: u64,
    values: Seq<(Seq<char>, OverwriteValue)>,
    name: Seq<char>,
)
    requires
        0 <= i <= known.len(),
    ensures
        ({
            let all = known_values(known, i, allow, deny, values);
            let asked = (exists|k: int| i <= k < known.len() && #[trigger] known[k] == name);
            &&& asked && holds_known(allow, permission_bits(name)) ==> lookup(all, name) == Some(
                OverwriteValue::Allow,
            )
            &&& asked && !holds_known(allow, permission_bits(name)) && holds_known(deny, permission_bits(name))
                ==> lookup(all, name) == Some(OverwriteValue::Deny)
            &&& !asked ==> lookup(all, name) == lookup(values, name)
        }),
    decreases known.len() - i,
{
    if i < known.len() {
        let bits = permission_bits(known[i]);
        let next = if holds_known(allow, bits) {
            put::<KnownPermission, OverwriteValue>(values, known[i], OverwriteValue::Allow)
        } else if holds_known(deny, bits) {
            put::<KnownPermission, OverwriteValue>(values, known[i], OverwriteValue::Deny)
        } else {
            values
        };
        known_values_keep(known, i + 1, allow, deny, next, name);
        put_then_lookup::<KnownPermission, OverwriteValue>(values, known[i], OverwriteValue::Allow, name);
        put_then_lookup::<KnownPermission, OverwriteValue>(values, known[i], OverwriteValue::Deny, name);
        if exists|k: int| i <= k < known.len() && #[trigger] known[k] == name {
            let k = choose|k: int| i <= k < known.len() && #[trigger] known[k] == name;
            if k > i {
                assert(known[k] == name);
            }
        }
    }
}

pub(crate) proof fn mask_holds(known: Seq<Seq<char>>, i: int, mask: u64, j: int)
    requires
        0 <= i <= known.len(),
    ensures
        mask & !mask_of(known, i, mask) == 0,
        i <= j < known.len() ==> known_bits(permission_bits(known[j])) & !mask_of(known, i, mask) == 0,
    decreases known.len() - i,
{
    if i < known.len() {
        let bits = known_bits(permission_bits(known[i]));
        let whole = mask_of(known, i, mask);
        mask_holds(known, i + 1, mask | bits, j);
        assert((mask | bits) & !whole == 0 ==> mask & !whole == 0 && bits & !whole == 0) by (bit_vector);
    } else {
        assert(mask & !mask == 0) by (bit_vector);
    }
}

/// Bits that are all within others change nothing outside of these.
pub(crate) proof fn with_bits_within(
    bits: u64,
    known: Seq<(Seq<char>, OverwriteValue)>,
    i: int,
    value: OverwriteValue,
    within: u64,
)
    requires
        0 <= i <= known.len(),
        forall|k: int|
            i <= k < known.len() && (#[trigger] known[k]).1 == value ==> known_bits(permission_bits(known[k].0))
                & !within == 0,
    ensures
        with_bits(bits, known, i, value) & !within == bits & !within,
    decreases known.len() - i,
{
    if i < known.len() {
        if known[i].1 == value {
            let more = known_bits(permission_bits(known[i].0));
            with_bits_within(bits | more, known, i + 1, value, within);
            assert(more & !within == 0 ==> (bits | more) & !within == bits & !within) by (bit_vector);
        } else {
            with_bits_within(bits, known, i + 1, value, within);
        }
    }
}

pub(crate) proof fn with_bits_holds(bits: u64, known: Seq<(Seq<char>, OverwriteValue)>, i: int, value: OverwriteValue, j: int)
    requires
        0 <= i <= known.len(),
    ensures
        bits & !with_bits(bits, known, i, value) == 0,
        i <= j < known.len() && known[j].1 == value ==> holds(
            with_bits(bits, known, i, value),
            known_bits(permission_bits(known[j].0)),
        ),
    decreases known.len() - i,
{
    if i < known.len() {
        let whole = with_bits(bits, known, i, value);
        if known[i].1 == value {
            let more = known_bits(permission_bits(known[i].0));
            with_bits_holds(bits | more, known, i + 1, value, j);
            assert((bits | more) & !whole == 0 ==> bits & !whole == 0 && whole & more == more) by (bit_vector);
        } else {
            with_bits_holds(bits, known, i + 1, value, j);
        }
    } else {
        assert(bits & !bits == 0) by (bit_vector);
    }
}

/// What was read of an overwrite and is sent back allows and denies nothing new, keeps
/// all bits that no known permission has, and keeps each known permission that was
/// allowed, or denied and not allowed.
pub proof fn overwrites_are_sent_back(overwrite: OverwriteView, known: Seq<Seq<char>>, name: Seq<char>)
    ensures
        ({
            let mask = mask_of(known, 0, 0);
            let permissions = seen_permissions(overwrite, known, mask);
            let allow = with_bits(permissions.allow_unknown, permissions.known, 0, OverwriteValue::Allow);
            let deny = with_bits(permissions.deny_unknown, permissions.known, 0, OverwriteValue::Deny);
            let bits = permission_bits(name);
            &&& allow & !mask == overwrite.allow & !mask
            &&& deny & !mask == overwrite.deny & !mask
            &&& allow & !overwrite.allow == 0
            &&& deny & !overwrite.deny == 0
            &&& known.contains(name) && holds_known(overwrite.allow, bits) ==> holds_known(allow, bits)
            &&& known.contains(name) && holds_known(overwrite.deny, bits) && !holds_known(overwrite.allow, bits)
                ==> holds_known(deny, bits)
        }),
{
    let mask = mask_of(known, 0, 0);
    let permissions = seen_permissions(overwrite, known, mask);
    let values = permissions.known;
    let allow = overwrite.allow;
    let deny = overwrite.deny;
    known_values_say_what_bits_hold(known, 0, allow, deny, Seq::empty());
    assert forall|k: int| 0 <= k < values.len() implies known_bits(permission_bits((#[trigger] values[k]).0)) & !mask
        == 0 by {
        let j = known.index_of(values[k].0);
        mask_holds(known, 0, 0, j);
    }
    assert forall|k: int| 0 <= k < values.len() && (#[trigger] values[k]).1 == OverwriteValue::Allow implies known_bits(
        permission_bits(values[k].0),
    ) & !allow == 0 by {
        let bits = known_bits(permission_bits(values[k].0));
        assert(allow & bits == bits ==> bits & !allow == 0) by (bit_vector);
    }
    assert forall|k: int| 0 <= k < values.len() && (#[trigger] values[k]).1 == OverwriteValue::Deny implies known_bits(
        permission_bits(values[k].0),
    ) & !deny == 0 by {
        let bits = known_bits(permission_bits(values[k].0));
        assert(deny & bits == bits ==> bits & !deny == 0) by (bit_vector);
    }
    with_bits_within(allow & !mask, values, 0, OverwriteValue::Allow, mask);
    with_bits_within(deny & !mask, values, 0, OverwriteValue::Deny, mask);
    with_bits_within(allow & !mask, values, 0, OverwriteValue::Allow, allow);
    with_bits_within(deny & !mask, values, 0, OverwriteValue::Deny, deny);
    assert((allow & !mask) & !mask == allow & !mask) by (bit_vector);
    assert((deny & !mask) & !mask == deny & !mask) by (bit_vector);
    assert((allow & !mask) & !allow == 0) by (bit_vector);
    assert((deny & !mask) & !deny == 0) by (bit_vector);
    if known.contains(name) {
        let place = known.index_of(name);
        assert(known[place] == name);
        known_values_keep(known, 0, allow, deny, Seq::empty(), name);
        if lookup(values, name) is Some {
            let k = lookup_has_entry(values, name);
            with_bits_holds(allow & !mask, values, 0, OverwriteValue::Allow, k);
            with_bits_holds(deny & !mask, values, 0, OverwriteValue::Deny, k);
        }
    }
}

} // verus!
