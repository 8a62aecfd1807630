//! What is read from a guild, and what is asked of it.

use vstd::prelude::*;

use crate::configuration::channel::{ChannelKind, OverwriteValue};
use crate::configuration::permission::KnownPermission;
use crate::configuration::role::Color;
use crate::domain::ResourceType;
use crate::ids::{ChannelId, GuildId, MemberId, RoleId};
use crate::ordered::{OrderedKey, OrderedMap};
use crate::text::{decimal, text2};
use crate::value::Plain;

verus! {

/// A role of a guild.
pub struct RoleSnapshot {
    pub id: RoleId,
    pub position: i16,
    pub manageable: bool,
    pub name: String,
    pub color: Color,
    pub hoist: bool,
    pub mentionable: bool,
    pub permissions: OrderedMap<KnownPermission, bool>,
}

/// What a role of a guild holds.
pub struct RoleSnapshotView {
    pub id: u64,
    pub position: i16,
    pub manageable: bool,
    pub name: Seq<char>,
    pub color: u32,
    pub hoist: bool,
    pub mentionable: bool,
    pub permissions: Seq<(Seq<char>, bool)>,
}

impl DeepView for RoleSnapshot {
    type V = RoleSnapshotView;

    open spec fn deep_view(&self) -> RoleSnapshotView {
        RoleSnapshotView {
            id: self.id.deep_view(),
            position: self.position,
            manageable: self.manageable,
            name: self.name.deep_view(),
            color: self.color.deep_view(),
            hoist: self.hoist,
            mentionable: self.mentionable,
            permissions: self.permissions.deep_view(),
        }
    }
}

impl Plain for RoleSnapshot {
    fn copy(&self) -> (copied: Self) {
        RoleSnapshot {
            id: self.id.copy(),
            position: self.position,
            manageable: self.manageable,
            name: self.name.copy(),
            color: self.color.copy(),
            hoist: self.hoist,
            mentionable: self.mentionable,
            permissions: self.permissions.copy(),
        }
    }

    fn same(&self, other: &Self) -> (equal: bool) {
        self.id.same(&other.id)
            && self.position == other.position
            && self.manageable == other.manageable
            && self.name.same(&other.name)
            && self.color.same(&other.color)
            && self.hoist == other.hoist
            && self.mentionable == other.mentionable
            && self.permissions.same(&other.permissions)
    }
}

/// All roles of a guild, with the permissions there are, those that can be granted, and those that every member has.
pub struct RoleCatalog {
    pub roles: Vec<RoleSnapshot>,
    pub permission_names: OrderedMap<KnownPermission, ()>,
    pub grantable_permissions: OrderedMap<KnownPermission, ()>,
    pub default_permissions: OrderedMap<KnownPermission, bool>,
}

/// What a catalog of roles holds.
pub struct RoleCatalogView {
    pub roles: Seq<RoleSnapshotView>,
    pub permission_names: Seq<(Seq<char>, ())>,
    pub grantable_permissions: Seq<(Seq<char>, ())>,
    pub default_permissions: Seq<(Seq<char>, bool)>,
}

impl DeepView for RoleCatalog {
    type V = RoleCatalogView;

    open spec fn deep_view(&self) -> RoleCatalogView {
        RoleCatalogView {
            roles: self.roles.deep_view(),
            permission_names: self.permission_names.deep_view(),
            grantable_permissions: self.grantable_permissions.deep_view(),
            default_permissions: self.default_permissions.deep_view(),
        }
    }
}

impl Plain for RoleCatalog {
    fn copy(&self) -> (copied: Self) {
        RoleCatalog {
            roles: self.roles.copy(),
            permission_names: self.permission_names.copy(),
            grantable_permissions: self.grantable_permissions.copy(),
            default_permissions: self.default_permissions.copy(),
        }
    }

    fn same(&self, other: &Self) -> (equal: bool) {
        self.roles.same(&other.roles)
            && self.permission_names.same(&other.permission_names)
            && self.grantable_permissions.same(&other.grantable_permissions)
            && self.default_permissions.same(&other.default_permissions)
    }
}

/// A role that shall be created.
pub struct RoleCreate {
    pub name: String,
    pub color: Color,
    pub hoist: bool,
    pub mentionable: bool,
    pub permissions: OrderedMap<KnownPermission, bool>,
}

/// What a role that shall be created holds.
pub struct RoleCreateView {
    pub name: Seq<char>,
    pub color: u32,
    pub hoist: bool,
    pub mentionable: bool,
    pub permissions: Seq<(Seq<char>, bool)>,
}

impl DeepView for RoleCreate {
    type V = RoleCreateView;

    open spec fn deep_view(&self) -> RoleCreateView {
        RoleCreateView {
            name: self.name.deep_view(),
            color: self.color.deep_view(),
            hoist: self.hoist,
            mentionable: self.mentionable,
            permissions: self.permissions.deep_view(),
        }
    }
}

impl Plain for RoleCreate {
    fn copy(&self) -> (copied: Self) {
        RoleCreate {
            name: self.name.copy(),
            color: self.color.copy(),
            hoist: self.hoist,
            mentionable: self.mentionable,
            permissions: self.permissions.copy(),
        }
    }

    fn same(&self, other: &Self) -> (equal: bool) {
        self.name.same(&other.name)
            && self.color.same(&other.color)
            && self.hoist == other.hoist
            && self.mentionable == other.mentionable
            && self.permissions.same(&other.permissions)
    }
}

impl RoleCatalogView {
    /// No roles at all.
    pub open spec fn none() -> RoleCatalogView {
        RoleCatalogView {
            roles: Seq::empty(),
            permission_names: Seq::empty(),
            grantable_permissions: Seq::empty(),
            default_permissions: Seq::empty(),
        }
    }
}

impl RoleCatalog {
    /// No roles at all.
    pub fn none() -> (catalog: Self)
        ensures
            catalog.deep_view() == RoleCatalogView::none(),
    {
        let roles: Vec<RoleSnapshot> = Vec::new();
        assert(roles.deep_view() =~= Seq::empty());
        RoleCatalog {
            roles,
            permission_names: OrderedMap::new(),
            grantable_permissions: OrderedMap::new(),
            default_permissions: OrderedMap::new(),
        }
    }
}

/// What came of creating a role.
#[derive(Clone, Copy, Debug)]
pub enum RoleCreateOutcome {
    Created(RoleId),
    ResponseUnknown,
}

/// What creating a role came to.
pub enum RoleCreateOutcomeView {
    Created(u64),
    ResponseUnknown,
}

impl DeepView for RoleCreateOutcome {
    type V = RoleCreateOutcomeView;

    open spec fn deep_view(&self) -> RoleCreateOutcomeView {
        match self {
            RoleCreateOutcome::Created(id) => RoleCreateOutcomeView::Created(id.deep_view()),
            RoleCreateOutcome::ResponseUnknown => RoleCreateOutcomeView::ResponseUnknown,
        }
    }
}

/// What came of deleting a role.
#[derive(Clone, Copy, Debug, PartialEq, Eq, Structural)]
pub enum RoleDeleteOutcome {
    Deleted,
    ResponseUnknown,
}

impl DeepView for RoleDeleteOutcome {
    type V = RoleDeleteOutcome;

    open spec fn deep_view(&self) -> RoleDeleteOutcome {
        *self
    }
}

/// What came of updating a role.
#[derive(Clone, Copy, Debug, PartialEq, Eq, Structural)]
pub enum RoleUpdateOutcome {
    Applied,
    ResponseUnknown,
}

impl DeepView for RoleUpdateOutcome {
    type V = RoleUpdateOutcome;

    open spec fn deep_view(&self) -> RoleUpdateOutcome {
        *self
    }
}

/// What came of giving roles new places.
#[derive(Clone, Copy, Debug, PartialEq, Eq, Structural)]
pub enum RolePositionUpdateOutcome {
    Applied,
    ResponseUnknown,
}

impl DeepView for RolePositionUpdateOutcome {
    type V = RolePositionUpdateOutcome;

    open spec fn deep_view(&self) -> RolePositionUpdateOutcome {
        *self
    }
}

/// A change of the attributes of a role.
pub struct RoleUpdate {
    pub name: Option<String>,
    pub color: Option<Color>,
    pub hoist: Option<bool>,
    pub mentionable: Option<bool>,
    pub permissions: Option<OrderedMap<KnownPermission, bool>>,
}

/// What a change of the attributes of a role holds.
pub struct RoleUpdateView {
    pub name: Option<Seq<char>>,
    pub color: Option<u32>,
    pub hoist: Option<bool>,
    pub mentionable: Option<bool>,
    pub permissions: Option<Seq<(Seq<char>, bool)>>,
}

impl DeepView for RoleUpdate {
    type V = RoleUpdateView;

    open spec fn deep_view(&self) -> RoleUpdateView {
        RoleUpdateView {
            name: self.name.deep_view(),
            color: self.color.deep_view(),
            hoist: self.hoist.deep_view(),
            mentionable: self.mentionable.deep_view(),
            permissions: self.permissions.deep_view(),
        }
    }
}

impl Plain for RoleUpdate {
    fn copy(&self) -> (copied: Self) {
        RoleUpdate {
            name: self.name.copy(),
            color: self.color.copy(),
            hoist: self.hoist.copy(),
            mentionable: self.mentionable.copy(),
            permissions: self.permissions.copy(),
        }
    }

    fn same(&self, other: &Self) -> (equal: bool) {
        self.name.same(&other.name)
            && self.color.same(&other.color)
            && self.hoist.same(&other.hoist)
            && self.mentionable.same(&other.mentionable)
            && self.permissions.same(&other.permissions)
    }
}

/// A value, unless a new one is given.
pub open spec fn replaced<W>(value: W, new: Option<W>) -> W {
    match new {
        Some(new) => new,
        None => value,
    }
}

impl RoleUpdateView {
    /// Whether nothing changes.
    pub open spec fn is_empty(self) -> bool {
        &&& self.name is None
        &&& self.color is None
        &&& self.hoist is None
        &&& self.mentionable is None
        &&& self.permissions is None
    }

    /// A role after the change.
    pub open spec fn applied_to(self, role: RoleSnapshotView) -> RoleSnapshotView {
        RoleSnapshotView {
            name: replaced(role.name, self.name),
            color: replaced(role.color, self.color),
            hoist: replaced(role.hoist, self.hoist),
            mentionable: replaced(role.mentionable, self.mentionable),
            permissions: replaced(role.permissions, self.permissions),
            ..role
        }
    }
}

impl RoleUpdate {
    /// Whether nothing changes.
    pub fn is_empty(&self) -> (empty: bool)
        ensures
            empty == self.deep_view().is_empty(),
    {
        self.name.is_none() && self.color.is_none() && self.hoist.is_none() && self.mentionable.is_none()
            && self.permissions.is_none()
    }

    /// Changes a role as the update says.
    pub fn apply_to(&self, role: &mut RoleSnapshot)
        ensures
            final(role).deep_view() == self.deep_view().applied_to(old(role).deep_view()),
    {
        match &self.name {
            Some(name) => role.name = name.copy(),
            None => {},
        }
        match self.color {
            Some(color) => role.color = color,
            None => {},
        }
        match self.hoist {
            Some(hoist) => role.hoist = hoist,
            None => {},
        }
        match self.mentionable {
            Some(mentionable) => role.mentionable = mentionable,
            None => {},
        }
        match &self.permissions {
            Some(permissions) => role.permissions = permissions.copy(),
            None => {},
        }
    }
}

/// A new place of a role, counted from the lowest.
pub struct RolePositionUpdate {
    pub role_id: RoleId,
    pub position: i16,
}

/// What a new place of a role, counted from the lowest, holds.
pub struct RolePositionUpdateView {
    pub role_id: u64,
    pub position: i16,
}

impl DeepView for RolePositionUpdate {
    type V = RolePositionUpdateView;

    open spec fn deep_view(&self) -> RolePositionUpdateView {
        RolePositionUpdateView {
            role_id: self.role_id.deep_view(),
            position: self.position,
        }
    }
}

impl Plain for RolePositionUpdate {
    fn copy(&self) -> (copied: Self) {
        RolePositionUpdate {
            role_id: self.role_id.copy(),
            position: self.position,
        }
    }

    fn same(&self, other: &Self) -> (equal: bool) {
        self.role_id.same(&other.role_id)
            && self.position == other.position
    }
}

/// What is known of a Discord object that shall be bound.
#[derive(Clone, Copy, Debug)]
pub struct ResourceLookup {
    pub resource_type: ResourceType,
    pub guild_id: GuildId,
}

/// Permission bits without a name. They are sent back as they were read.
#[derive(Clone, Copy, Debug, PartialEq, Eq, Structural)]
pub struct PermissionBits {
    bits: u64,
}

impl DeepView for PermissionBits {
    type V = u64;

    closed spec fn deep_view(&self) -> u64 {
        self.bits
    }
}

impl PermissionBits {
    /// The given bits.
    pub fn new(bits: u64) -> (permissions: Self)
        ensures
            permissions.deep_view() == bits,
    {
        PermissionBits { bits }
    }

    /// The bits.
    pub fn bits(self) -> (bits: u64)
        ensures
            bits == self.deep_view(),
    {
        self.bits
    }

    /// Whether no bit is set.
    pub fn is_empty(self) -> (empty: bool)
        ensures
            empty == (self.deep_view() == 0),
    {
        self.bits == 0
    }
}

impl Default for PermissionBits {
    fn default() -> (permissions: Self)
        ensures
            permissions.deep_view() == 0,
    {
        PermissionBits { bits: 0 }
    }
}

impl Plain for PermissionBits {
    fn copy(&self) -> (copied: Self) {
        *self
    }

    fn same(&self, other: &Self) -> (equal: bool) {
        self.bits == other.bits
    }
}

/// What an overwrite does to permissions.
pub struct ChannelOverwritePermissions {
    pub known: OrderedMap<KnownPermission, OverwriteValue>,
    pub allow_unknown: PermissionBits,
    pub deny_unknown: PermissionBits,
}

/// What an overwrite of permissions holds.
pub struct ChannelOverwritePermissionsView {
    pub known: Seq<(Seq<char>, OverwriteValue)>,
    pub allow_unknown: u64,
    pub deny_unknown: u64,
}

impl DeepView for ChannelOverwritePermissions {
    type V = ChannelOverwritePermissionsView;

    open spec fn deep_view(&self) -> ChannelOverwritePermissionsView {
        ChannelOverwritePermissionsView {
            known: self.known.deep_view(),
            allow_unknown: self.allow_unknown.deep_view(),
            deny_unknown: self.deny_unknown.deep_view(),
        }
    }
}

impl Plain for ChannelOverwritePermissions {
    fn copy(&self) -> (copied: Self) {
        ChannelOverwritePermissions {
            known: self.known.copy(),
            allow_unknown: self.allow_unknown.copy(),
            deny_unknown: self.deny_unknown.copy(),
        }
    }

    fn same(&self, other: &Self) -> (equal: bool) {
        self.known.same(&other.known)
            && self.allow_unknown.same(&other.allow_unknown)
            && self.deny_unknown.same(&other.deny_unknown)
    }
}

impl ChannelOverwritePermissionsView {
    /// An overwrite that does nothing.
    pub open spec fn none() -> ChannelOverwritePermissionsView {
        ChannelOverwritePermissionsView { known: Seq::empty(), allow_unknown: 0, deny_unknown: 0 }
    }

    /// Whether the overwrite does nothing.
    pub open spec fn is_empty(self) -> bool {
        self.known.len() == 0 && self.allow_unknown == 0 && self.deny_unknown == 0
    }
}

impl ChannelOverwritePermissions {
    /// An overwrite of known permissions alone.
    pub fn from_known(known: OrderedMap<KnownPermission, OverwriteValue>) -> (permissions: Self)
        ensures
            permissions.deep_view() == (ChannelOverwritePermissionsView {
                known: known.deep_view(),
                allow_unknown: 0,
                deny_unknown: 0,
            }),
    {
        ChannelOverwritePermissions {
            known,
            allow_unknown: PermissionBits::new(0),
            deny_unknown: PermissionBits::new(0),
        }
    }

    /// Whether the overwrite does nothing.
    pub fn is_empty(&self) -> (empty: bool)
        ensures
            empty == self.deep_view().is_empty(),
    {
        self.known.is_empty() && self.allow_unknown.is_empty() && self.deny_unknown.is_empty()
    }
}

/// For whom a channel overwrites permissions.
#[derive(Clone, Copy, Debug)]
pub enum ChannelOverwriteTarget {
    Everyone,
    Role(RoleId),
    Member(MemberId),
}

/// For whom a channel overwrites permissions.
pub enum ChannelOverwriteTargetView {
    Everyone,
    Role(u64),
    Member(u64),
}

impl DeepView for ChannelOverwriteTarget {
    type V = ChannelOverwriteTargetView;

    open spec fn deep_view(&self) -> ChannelOverwriteTargetView {
        match self {
            ChannelOverwriteTarget::Everyone => ChannelOverwriteTargetView::Everyone,
            ChannelOverwriteTarget::Role(id) => ChannelOverwriteTargetView::Role(id.deep_view()),
            ChannelOverwriteTarget::Member(id) => ChannelOverwriteTargetView::Member(id.deep_view()),
        }
    }
}

impl Plain for ChannelOverwriteTarget {
    fn copy(&self) -> (copied: Self) {
        match self {
            ChannelOverwriteTarget::Everyone => ChannelOverwriteTarget::Everyone,
            ChannelOverwriteTarget::Role(id) => ChannelOverwriteTarget::Role(*id),
            ChannelOverwriteTarget::Member(id) => ChannelOverwriteTarget::Member(*id),
        }
    }

    fn same(&self, other: &Self) -> (equal: bool) {
        match (self, other) {
            (ChannelOverwriteTarget::Everyone, ChannelOverwriteTarget::Everyone) => true,
            (ChannelOverwriteTarget::Role(left), ChannelOverwriteTarget::Role(right)) => left.get() == right.get(),
            (ChannelOverwriteTarget::Member(left), ChannelOverwriteTarget::Member(right)) => left.get()
                == right.get(),
            _ => false,
        }
    }
}

impl OrderedKey for ChannelOverwriteTarget {
    open spec fn before(a: ChannelOverwriteTargetView, b: ChannelOverwriteTargetView) -> bool {
        match (a, b) {
            (ChannelOverwriteTargetView::Everyone, ChannelOverwriteTargetView::Everyone) => false,
            (ChannelOverwriteTargetView::Everyone, _) => true,
            (_, ChannelOverwriteTargetView::Everyone) => false,
            (ChannelOverwriteTargetView::Role(x), ChannelOverwriteTargetView::Role(y)) => x < y,
            (ChannelOverwriteTargetView::Role(_), ChannelOverwriteTargetView::Member(_)) => true,
            (ChannelOverwriteTargetView::Member(_), ChannelOverwriteTargetView::Role(_)) => false,
            (ChannelOverwriteTargetView::Member(x), ChannelOverwriteTargetView::Member(y)) => x < y,
        }
    }

    fn is_before(&self, other: &Self) -> (answer: bool) {
        match (self, other) {
            (ChannelOverwriteTarget::Everyone, ChannelOverwriteTarget::Everyone) => false,
            (ChannelOverwriteTarget::Everyone, _) => true,
            (_, ChannelOverwriteTarget::Everyone) => false,
            (ChannelOverwriteTarget::Role(x), ChannelOverwriteTarget::Role(y)) => x.get() < y.get(),
            (ChannelOverwriteTarget::Role(_), ChannelOverwriteTarget::Member(_)) => true,
            (ChannelOverwriteTarget::Member(_), ChannelOverwriteTarget::Role(_)) => false,
            (ChannelOverwriteTarget::Member(x), ChannelOverwriteTarget::Member(y)) => x.get() < y.get(),
        }
    }

    proof fn order_is_total(a: ChannelOverwriteTargetView, b: ChannelOverwriteTargetView) {
    }

    proof fn order_is_transitive(
        a: ChannelOverwriteTargetView,
        b: ChannelOverwriteTargetView,
        c: ChannelOverwriteTargetView,
    ) {
    }
}

impl ChannelOverwriteTargetView {
    /// How the target is named in a plan.
    pub open spec fn chars(self) -> Seq<char> {
        match self {
            ChannelOverwriteTargetView::Everyone => "everyone"@,
            ChannelOverwriteTargetView::Role(id) => "role:"@ + decimal(id as nat),
            ChannelOverwriteTargetView::Member(id) => "member:"@ + decimal(id as nat),
        }
    }
}

impl ChannelOverwriteTarget {
    /// How the target is named in a plan.
    pub fn to_text(&self) -> (text: String)
        ensures
            text@ == self.deep_view().chars(),
    {
        match self {
            ChannelOverwriteTarget::Everyone => "everyone".to_owned(),
            ChannelOverwriteTarget::Role(id) => text2("role:", id.to_text().as_str()),
            ChannelOverwriteTarget::Member(id) => text2("member:", id.to_text().as_str()),
        }
    }
}

/// The overwrites of a channel.
pub type ChannelOverwrites = OrderedMap<ChannelOverwriteTarget, ChannelOverwritePermissions>;

/// What the overwrites of a channel hold.
pub type ChannelOverwritesView = Seq<(ChannelOverwriteTargetView, ChannelOverwritePermissionsView)>;

/// A channel of a guild.
pub struct ChannelSnapshot {
    pub id: ChannelId,
    pub position: u16,
    pub kind: ChannelKind,
    pub manageable: bool,
    pub name: String,
    pub parent_id: Option<ChannelId>,
    pub topic: Option<String>,
    pub nsfw: bool,
    pub slowmode_seconds: u16,
    pub default_auto_archive_minutes: Option<u16>,
    pub default_thread_slowmode_seconds: u16,
    pub overwrites: ChannelOverwrites,
}

/// What a channel of a guild holds.
pub struct ChannelSnapshotView {
    pub id: u64,
    pub position: u16,
    pub kind: ChannelKind,
    pub manageable: bool,
    pub name: Seq<char>,
    pub parent_id: Option<u64>,
    pub topic: Option<Seq<char>>,
    pub nsfw: bool,
    pub slowmode_seconds: u16,
    pub default_auto_archive_minutes: Option<u16>,
    pub default_thread_slowmode_seconds: u16,
    pub overwrites: ChannelOverwritesView,
}

impl DeepView for ChannelSnapshot {
    type V = ChannelSnapshotView;

    open spec fn deep_view(&self) -> ChannelSnapshotView {
        ChannelSnapshotView {
            id: self.id.deep_view(),
            position: self.position,
            kind: self.kind,
            manageable: self.manageable,
            name: self.name.deep_view(),
            parent_id: self.parent_id.deep_view(),
            topic: self.topic.deep_view(),
            nsfw: self.nsfw,
            slowmode_seconds: self.slowmode_seconds,
            default_auto_archive_minutes: self.default_auto_archive_minutes.deep_view(),
            default_thread_slowmode_seconds: self.default_thread_slowmode_seconds,
            overwrites: self.overwrites.deep_view(),
        }
    }
}

impl Plain for ChannelSnapshot {
    fn copy(&self) -> (copied: Self) {
        ChannelSnapshot {
            id: self.id.copy(),
            position: self.position,
            kind: self.kind,
            manageable: self.manageable,
            name: self.name.copy(),
            parent_id: self.parent_id.copy(),
            topic: self.topic.copy(),
            nsfw: self.nsfw,
            slowmode_seconds: self.slowmode_seconds,
            default_auto_archive_minutes: self.default_auto_archive_minutes.copy(),
            default_thread_slowmode_seconds: self.default_thread_slowmode_seconds,
            overwrites: self.overwrites.copy(),
        }
    }

    fn same(&self, other: &Self) -> (equal: bool) {
        self.id.same(&other.id)
            && self.position == other.position
            && self.kind == other.kind
            && self.manageable == other.manageable
            && self.name.same(&other.name)
            && self.parent_id.same(&other.parent_id)
            && self.topic.same(&other.topic)
            && self.nsfw == other.nsfw
            && self.slowmode_seconds == other.slowmode_seconds
            && self.default_auto_archive_minutes.same(&other.default_auto_archive_minutes)
            && self.default_thread_slowmode_seconds == other.default_thread_slowmode_seconds
            && self.overwrites.same(&other.overwrites)
    }
}

/// All channels of a guild.
pub struct ChannelCatalog {
    pub channels: Vec<ChannelSnapshot>,
}

/// What a catalog of channels holds.
pub struct ChannelCatalogView {
    pub channels: Seq<ChannelSnapshotView>,
}

impl ChannelCatalogView {
    /// No channels at all.
    pub open spec fn none() -> ChannelCatalogView {
        ChannelCatalogView { channels: Seq::empty() }
    }
}

impl ChannelCatalog {
    /// No channels at all.
    pub fn none() -> (catalog: Self)
        ensures
            catalog.deep_view() == ChannelCatalogView::none(),
    {
        let channels: Vec<ChannelSnapshot> = Vec::new();
        assert(channels.deep_view() =~= Seq::empty());
        ChannelCatalog { channels }
    }
}

impl DeepView for ChannelCatalog {
    type V = ChannelCatalogView;

    open spec fn deep_view(&self) -> ChannelCatalogView {
        ChannelCatalogView {
            channels: self.channels.deep_view(),
        }
    }
}

impl Plain for ChannelCatalog {
    fn copy(&self) -> (copied: Self) {
        ChannelCatalog {
            channels: self.channels.copy(),
        }
    }

    fn same(&self, other: &Self) -> (equal: bool) {
        self.channels.same(&other.channels)
    }
}

/// A channel that shall be created.
pub struct ChannelCreate {
    pub kind: ChannelKind,
    pub name: String,
    pub parent_id: Option<ChannelId>,
    pub topic: Option<String>,
    pub nsfw: bool,
    pub slowmode_seconds: u16,
    pub default_auto_archive_minutes: Option<u16>,
    pub default_thread_slowmode_seconds: u16,
    pub overwrites: ChannelOverwrites,
}

/// What a channel that shall be created holds.
pub struct ChannelCreateView {
    pub kind: ChannelKind,
    pub name: Seq<char>,
    pub parent_id: Option<u64>,
    pub topic: Option<Seq<char>>,
    pub nsfw: bool,
    pub slowmode_seconds: u16,
    pub default_auto_archive_minutes: Option<u16>,
    pub default_thread_slowmode_seconds: u16,
    pub overwrites: ChannelOverwritesView,
}

impl DeepView for ChannelCreate {
    type V = ChannelCreateView;

    open spec fn deep_view(&self) -> ChannelCreateView {
        ChannelCreateView {
            kind: self.kind,
            name: self.name.deep_view(),
            parent_id: self.parent_id.deep_view(),
            topic: self.topic.deep_view(),
            nsfw: self.nsfw,
            slowmode_seconds: self.slowmode_seconds,
            default_auto_archive_minutes: self.default_auto_archive_minutes.deep_view(),
            default_thread_slowmode_seconds: self.default_thread_slowmode_seconds,
            overwrites: self.overwrites.deep_view(),
        }
    }
}

impl Plain for ChannelCreate {
    fn copy(&self) -> (copied: Self) {
        ChannelCreate {
            kind: self.kind,
            name: self.name.copy(),
            parent_id: self.parent_id.copy(),
            topic: self.topic.copy(),
            nsfw: self.nsfw,
            slowmode_seconds: self.slowmode_seconds,
            default_auto_archive_minutes: self.default_auto_archive_minutes.copy(),
            default_thread_slowmode_seconds: self.default_thread_slowmode_seconds,
            overwrites: self.overwrites.copy(),
        }
    }

    fn same(&self, other: &Self) -> (equal: bool) {
        self.kind == other.kind
            && self.name.same(&other.name)
            && self.parent_id.same(&other.parent_id)
            && self.topic.same(&other.topic)
            && self.nsfw == other.nsfw
            && self.slowmode_seconds == other.slowmode_seconds
            && self.default_auto_archive_minutes.same(&other.default_auto_archive_minutes)
            && self.default_thread_slowmode_seconds == other.default_thread_slowmode_seconds
            && self.overwrites.same(&other.overwrites)
    }
}

/// What came of creating a channel.
#[derive(Clone, Copy, Debug)]
pub enum ChannelCreateOutcome {
    Created(ChannelId),
    ResponseUnknown,
}

/// What creating a channel came to.
pub enum ChannelCreateOutcomeView {
    Created(u64),
    ResponseUnknown,
}

impl DeepView for ChannelCreateOutcome {
    type V = ChannelCreateOutcomeView;

    open spec fn deep_view(&self) -> ChannelCreateOutcomeView {
        match self {
            ChannelCreateOutcome::Created(id) => ChannelCreateOutcomeView::Created(id.deep_view()),
            ChannelCreateOutcome::ResponseUnknown => ChannelCreateOutcomeView::ResponseUnknown,
        }
    }
}

/// What came of deleting a channel.
#[derive(Clone, Copy, Debug, PartialEq, Eq, Structural)]
pub enum ChannelDeleteOutcome {
    Deleted,
    ResponseUnknown,
}

impl DeepView for ChannelDeleteOutcome {
    type V = ChannelDeleteOutcome;

    open spec fn deep_view(&self) -> ChannelDeleteOutcome {
        *self
    }
}

/// What came of updating a channel.
#[derive(Clone, Copy, Debug, PartialEq, Eq, Structural)]
pub enum ChannelUpdateOutcome {
    Applied,
    ResponseUnknown,
}

impl DeepView for ChannelUpdateOutcome {
    type V = ChannelUpdateOutcome;

    open spec fn deep_view(&self) -> ChannelUpdateOutcome {
        *self
    }
}

/// A change of an attribute that may be absent.
#[derive(Debug)]
pub enum ChannelUpdateValue<T> {
    Keep,
    Replace(T),
    Clear,
}

impl<T: DeepView> DeepView for ChannelUpdateValue<T> {
    type V = ChannelUpdateValue<T::V>;

    open spec fn deep_view(&self) -> ChannelUpdateValue<T::V> {
        match self {
            ChannelUpdateValue::Keep => ChannelUpdateValue::Keep,
            ChannelUpdateValue::Replace(value) => ChannelUpdateValue::Replace(value.deep_view()),
            ChannelUpdateValue::Clear => ChannelUpdateValue::Clear,
        }
    }
}

impl<T: Plain> Plain for ChannelUpdateValue<T> {
    fn copy(&self) -> (copied: Self) {
        match self {
            ChannelUpdateValue::Keep => ChannelUpdateValue::Keep,
            ChannelUpdateValue::Replace(value) => ChannelUpdateValue::Replace(value.copy()),
            ChannelUpdateValue::Clear => ChannelUpdateValue::Clear,
        }
    }

    fn same(&self, other: &Self) -> (equal: bool) {
        match (self, other) {
            (ChannelUpdateValue::Keep, ChannelUpdateValue::Keep) => true,
            (ChannelUpdateValue::Replace(left), ChannelUpdateValue::Replace(right)) => left.same(right),
            (ChannelUpdateValue::Clear, ChannelUpdateValue::Clear) => true,
            _ => false,
        }
    }
}

impl<T: Plain> ChannelUpdateValue<T> {
    /// Whether the attribute stays as it is.
    pub fn is_keep(&self) -> (answer: bool)
        ensures
            answer == (self.deep_view() is Keep),
    {
        matches!(self, ChannelUpdateValue::Keep)
    }
}

/// An attribute after a change.
pub open spec fn changed<W>(value: Option<W>, change: ChannelUpdateValue<W>) -> Option<W> {
    match change {
        ChannelUpdateValue::Keep => value,
        ChannelUpdateValue::Replace(new) => Some(new),
        ChannelUpdateValue::Clear => None,
    }
}

fn change<T: Plain>(value: &mut Option<T>, update: &ChannelUpdateValue<T>)
    ensures
        final(value).deep_view() == changed(old(value).deep_view(), update.deep_view()),
{
    match update {
        ChannelUpdateValue::Keep => {},
        ChannelUpdateValue::Replace(new) => *value = Some(new.copy()),
        ChannelUpdateValue::Clear => *value = None,
    }
}

/// A change of the attributes of a channel.
pub struct ChannelUpdate {
    pub name: Option<String>,
    pub parent_id: ChannelUpdateValue<ChannelId>,
    pub topic: ChannelUpdateValue<String>,
    pub nsfw: Option<bool>,
    pub slowmode_seconds: Option<u16>,
    pub default_auto_archive_minutes: ChannelUpdateValue<u16>,
    pub default_thread_slowmode_seconds: Option<u16>,
    pub overwrites: Option<ChannelOverwrites>,
}

/// What a change of the attributes of a channel holds.
pub struct ChannelUpdateView {
    pub name: Option<Seq<char>>,
    pub parent_id: ChannelUpdateValue<u64>,
    pub topic: ChannelUpdateValue<Seq<char>>,
    pub nsfw: Option<bool>,
    pub slowmode_seconds: Option<u16>,
    pub default_auto_archive_minutes: ChannelUpdateValue<u16>,
    pub default_thread_slowmode_seconds: Option<u16>,
    pub overwrites: Option<ChannelOverwritesView>,
}

impl DeepView for ChannelUpdate {
    type V = ChannelUpdateView;

    open spec fn deep_view(&self) -> ChannelUpdateView {
        ChannelUpdateView {
            name: self.name.deep_view(),
            parent_id: self.parent_id.deep_view(),
            topic: self.topic.deep_view(),
            nsfw: self.nsfw.deep_view(),
            slowmode_seconds: self.slowmode_seconds.deep_view(),
            default_auto_archive_minutes: self.default_auto_archive_minutes.deep_view(),
            default_thread_slowmode_seconds: self.default_thread_slowmode_seconds.deep_view(),
            overwrites: self.overwrites.deep_view(),
        }
    }
}

impl Plain for ChannelUpdate {
    fn copy(&self) -> (copied: Self) {
        ChannelUpdate {
            name: self.name.copy(),
            parent_id: self.parent_id.copy(),
            topic: self.topic.copy(),
            nsfw: self.nsfw.copy(),
            slowmode_seconds: self.slowmode_seconds.copy(),
            default_auto_archive_minutes: self.default_auto_archive_minutes.copy(),
            default_thread_slowmode_seconds: self.default_thread_slowmode_seconds.copy(),
            overwrites: self.overwrites.copy(),
        }
    }

    fn same(&self, other: &Self) -> (equal: bool) {
        self.name.same(&other.name)
            && self.parent_id.same(&other.parent_id)
            && self.topic.same(&other.topic)
            && self.nsfw.same(&other.nsfw)
            && self.slowmode_seconds.same(&other.slowmode_seconds)
            && self.default_auto_archive_minutes.same(&other.default_auto_archive_minutes)
            && self.default_thread_slowmode_seconds.same(&other.default_thread_slowmode_seconds)
            && self.overwrites.same(&other.overwrites)
    }
}

impl ChannelUpdateView {
    /// A channel after the change.
    pub open spec fn applied_to(self, channel: ChannelSnapshotView) -> ChannelSnapshotView {
        ChannelSnapshotView {
            name: replaced(channel.name, self.name),
            parent_id: changed(channel.parent_id, self.parent_id),
            topic: changed(channel.topic, self.topic),
            nsfw: replaced(channel.nsfw, self.nsfw),
            slowmode_seconds: replaced(channel.slowmode_seconds, self.slowmode_seconds),
            default_auto_archive_minutes: changed(
                channel.default_auto_archive_minutes,
                self.default_auto_archive_minutes,
            ),
            default_thread_slowmode_seconds: replaced(
                channel.default_thread_slowmode_seconds,
                self.default_thread_slowmode_seconds,
            ),
            overwrites: replaced(channel.overwrites, self.overwrites),
            ..channel
        }
    }
}

impl ChannelUpdate {
    /// An update that changes nothing.
    pub fn none() -> (update: Self)
        ensures
            forall|channel: ChannelSnapshotView| #[trigger] update.deep_view().applied_to(channel) == channel,
    {
        ChannelUpdate {
            name: None,
            parent_id: ChannelUpdateValue::Keep,
            topic: ChannelUpdateValue::Keep,
            nsfw: None,
            slowmode_seconds: None,
            default_auto_archive_minutes: ChannelUpdateValue::Keep,
            default_thread_slowmode_seconds: None,
            overwrites: None,
        }
    }

    /// Changes a channel as the update says.
    pub fn apply_to(&self, channel: &mut ChannelSnapshot)
        ensures
            final(channel).deep_view() == self.deep_view().applied_to(old(channel).deep_view()),
    {
        match &self.name {
            Some(name) => channel.name = name.copy(),
            None => {},
        }
        change(&mut channel.parent_id, &self.parent_id);
        change(&mut channel.topic, &self.topic);
        match self.nsfw {
            Some(nsfw) => channel.nsfw = nsfw,
            None => {},
        }
        match self.slowmode_seconds {
            Some(seconds) => channel.slowmode_seconds = seconds,
            None => {},
        }
        change(&mut channel.default_auto_archive_minutes, &self.default_auto_archive_minutes);
        match self.default_thread_slowmode_seconds {
            Some(seconds) => channel.default_thread_slowmode_seconds = seconds,
            None => {},
        }
        match &self.overwrites {
            Some(overwrites) => channel.overwrites = overwrites.copy(),
            None => {},
        }
    }
}

/// A new place of a channel among its siblings.
pub struct ChannelPositionUpdate {
    pub channel_id: ChannelId,
    pub position: u64,
}

/// What a new place of a channel among its siblings holds.
pub struct ChannelPositionUpdateView {
    pub channel_id: u64,
    pub position: u64,
}

impl DeepView for ChannelPositionUpdate {
    type V = ChannelPositionUpdateView;

    open spec fn deep_view(&self) -> ChannelPositionUpdateView {
        ChannelPositionUpdateView {
            channel_id: self.channel_id.deep_view(),
            position: self.position,
        }
    }
}

impl Plain for ChannelPositionUpdate {
    fn copy(&self) -> (copied: Self) {
        ChannelPositionUpdate {
            channel_id: self.channel_id.copy(),
            position: self.position,
        }
    }

    fn same(&self, other: &Self) -> (equal: bool) {
        self.channel_id.same(&other.channel_id)
            && self.position == other.position
    }
}

} // verus!
