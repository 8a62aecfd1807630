//! The roles of a guild, from what Discord says of them.

use vstd::prelude::*;

use crate::adapter::permission::{
    grantable_permissions, has_manage_roles, held_permissions, hold_permissions, list_grantable, manages_roles,
};
use crate::configuration::permission::{KnownPermission, PermissionVocabulary};
use crate::configuration::role::Color;
use crate::domain::{ErrorView, ManagementError};
use crate::ids::{GuildId, RoleId};
use crate::ordered::{put, OrderedMap};
use crate::port::{RoleCatalog, RoleCatalogView, RoleSnapshot, RoleSnapshotView};
use crate::value::{seen, Plain};

verus! {

/// A role as Discord describes it.
pub struct DiscordRole {
    pub id: RoleId,
    pub position: i16,
    /// Whether another service manages the role.
    pub managed: bool,
    pub name: String,
    pub color: Color,
    pub hoist: bool,
    pub mentionable: bool,
    pub permissions: u64,
}

/// What a role as Discord describes it holds.
pub struct DiscordRoleView {
    pub id: u64,
    pub position: i16,
    pub managed: bool,
    pub name: Seq<char>,
    pub color: u32,
    pub hoist: bool,
    pub mentionable: bool,
    pub permissions: u64,
}

impl DeepView for DiscordRole {
    type V = DiscordRoleView;

    open spec fn deep_view(&self) -> DiscordRoleView {
        DiscordRoleView {
            id: self.id.deep_view(),
            position: self.position,
            managed: self.managed,
            name: self.name@,
            color: self.color.deep_view(),
            hoist: self.hoist,
            mentionable: self.mentionable,
            permissions: self.permissions,
        }
    }
}

/// Whether a role stands below another: by its position, and at the same position by
/// a greater identifier.
pub open spec fn is_lower(position: i16, id: u64, highest_position: i16, highest_id: u64) -> bool {
    position < highest_position || (position == highest_position && id > highest_id)
}

/// Whether a role stands below another.
pub fn is_lower_in_hierarchy(position: i16, id: RoleId, highest_position: i16, highest_id: RoleId) -> (lower: bool)
    ensures
        lower == is_lower(position, id.deep_view(), highest_position, highest_id.deep_view()),
{
    position < highest_position || (position == highest_position && id.get() > highest_id.get())
}

/// Of two roles exactly one stands below the other, unless they have the same place.
pub proof fn hierarchy_is_total(position: i16, id: u64, other_position: i16, other_id: u64)
    ensures
        !(is_lower(position, id, other_position, other_id) && is_lower(other_position, other_id, position, id)),
        is_lower(position, id, other_position, other_id) || is_lower(other_position, other_id, position, id) || (
        position == other_position && id == other_id),
{
}

/// The role with an identifier.
pub open spec fn listed_role(roles: Seq<DiscordRoleView>, id: u64) -> Option<DiscordRoleView>
    decreases roles.len(),
{
    if roles.len() == 0 {
        None
    } else if roles[0].id == id {
        Some(roles[0])
    } else {
        listed_role(roles.drop_first(), id)
    }
}

fn find_listed<'a>(roles: &'a Vec<DiscordRole>, id: u64) -> (found: Option<&'a DiscordRole>)
    ensures
        found.deep_view() == listed_role(roles.deep_view(), id),
{
    let ghost all = roles.deep_view();
    let mut i: usize = 0;
    assert(all.skip(0) =~= all);
    while i < roles.len()
        invariant
            i <= roles@.len(),
            all == roles.deep_view(),
            listed_role(all, id) == listed_role(all.skip(i as int), id),
        decreases roles@.len() - i,
    {
        assert(all.skip(i as int)[0] == roles@[i as int].deep_view());
        assert(all.skip(i as int).drop_first() =~= all.skip(i + 1));
        if roles[i].id.get() == id {
            return Some(&roles[i]);
        }
        i += 1;
    }
    None
}

/// Permissions with those of the given roles, from a place on.
pub open spec fn joined_permissions(
    permissions: u64,
    roles: Seq<DiscordRoleView>,
    ids: Seq<u64>,
    i: int,
) -> u64
    decreases ids.len() - i,
{
    if i < 0 || i >= ids.len() {
        permissions
    } else {
        match listed_role(roles, ids[i]) {
            Some(role) => joined_permissions(permissions | role.permissions, roles, ids, i + 1),
            None => joined_permissions(permissions, roles, ids, i + 1),
        }
    }
}

/// The permissions of a member with the given roles: those of every member, and those
/// of each role.
pub fn member_permissions(everyone: u64, roles: &Vec<DiscordRole>, ids: &Vec<RoleId>) -> (permissions: u64)
    ensures
        permissions == joined_permissions(everyone, roles.deep_view(), ids.deep_view(), 0),
{
    let mut permissions: u64 = everyone;
    let mut i: usize = 0;
    while i < ids.len()
        invariant
            i <= ids@.len(),
            joined_permissions(everyone, roles.deep_view(), ids.deep_view(), 0) == joined_permissions(
                permissions,
                roles.deep_view(),
                ids.deep_view(),
                i as int,
            ),
        decreases ids@.len() - i,
    {
        assert(ids.deep_view()[i as int] == ids@[i as int].deep_view());
        match find_listed(roles, ids[i].get()) {
            Some(role) => {
                permissions = permissions | role.permissions;
            },
            None => {},
        }
        i += 1;
    }
    permissions
}

/// The highest of a role and the given ones, from a place on.
pub open spec fn highest_role(
    highest: Option<(i16, u64)>,
    roles: Seq<DiscordRoleView>,
    ids: Seq<u64>,
    i: int,
) -> Option<(i16, u64)>
    decreases ids.len() - i,
{
    if i < 0 || i >= ids.len() {
        highest
    } else {
        match listed_role(roles, ids[i]) {
            None => highest_role(highest, roles, ids, i + 1),
            Some(role) => {
                let next = match highest {
                    Some((position, id)) => if is_lower(role.position, role.id, position, id) {
                        highest
                    } else {
                        Some((role.position, role.id))
                    },
                    None => Some((role.position, role.id)),
                };
                highest_role(next, roles, ids, i + 1)
            },
        }
    }
}

/// The place of a role among all roles.
#[derive(Clone, Copy, Debug)]
pub struct Place {
    pub position: i16,
    pub id: RoleId,
}

impl DeepView for Place {
    type V = (i16, u64);

    open spec fn deep_view(&self) -> (i16, u64) {
        (self.position, self.id.deep_view())
    }
}

fn find_highest(roles: &Vec<DiscordRole>, ids: &Vec<RoleId>) -> (highest: Option<Place>)
    ensures
        highest.deep_view() == highest_role(None, roles.deep_view(), ids.deep_view(), 0),
{
    let mut highest: Option<Place> = None;
    let mut i: usize = 0;
    while i < ids.len()
        invariant
            i <= ids@.len(),
            highest_role(None, roles.deep_view(), ids.deep_view(), 0) == highest_role(
                highest.deep_view(),
                roles.deep_view(),
                ids.deep_view(),
                i as int,
            ),
        decreases ids@.len() - i,
    {
        assert(ids.deep_view()[i as int] == ids@[i as int].deep_view());
        match find_listed(roles, ids[i].get()) {
            Some(role) => {
                let lower: bool = match highest {
                    Some(place) => is_lower_in_hierarchy(role.position, role.id, place.position, place.id),
                    None => false,
                };
                if !lower {
                    highest = Some(Place { position: role.position, id: role.id });
                }
            },
            None => {},
        }
        i += 1;
    }
    highest
}

/// A role as it is managed.
pub open spec fn seen_role(
    role: DiscordRoleView,
    guild_id: u64,
    highest: (i16, u64),
    names: Seq<(Seq<char>, ())>,
) -> RoleSnapshotView {
    RoleSnapshotView {
        id: role.id,
        position: role.position,
        manageable: role.id != guild_id && !role.managed && is_lower(
            role.position,
            role.id,
            highest.0,
            highest.1,
        ),
        name: role.name,
        color: role.color,
        hoist: role.hoist,
        mentionable: role.mentionable,
        permissions: held_permissions(names, role.permissions),
    }
}

/// Roles as they are managed, in the order of their identifiers.
pub open spec fn seen_roles(
    roles: Seq<DiscordRoleView>,
    guild_id: u64,
    highest: (i16, u64),
    names: Seq<(Seq<char>, ())>,
) -> Seq<(u64, RoleSnapshotView)>
    decreases roles.len(),
{
    if roles.len() == 0 {
        Seq::empty()
    } else {
        put::<RoleId, RoleSnapshotView>(
            seen_roles(roles.drop_last(), guild_id, highest, names),
            roles.last().id,
            seen_role(roles.last(), guild_id, highest, names),
        )
    }
}

fn snapshot_role(
    role: &DiscordRole,
    guild_id: GuildId,
    highest: Place,
    names: &OrderedMap<KnownPermission, ()>,
) -> (snapshot: RoleSnapshot)
    ensures
        snapshot.deep_view() == seen_role(role.deep_view(), guild_id.deep_view(), highest.deep_view(), names.deep_view()),
{
    let id: u64 = role.id.get();
    let lower: bool = is_lower_in_hierarchy(role.position, role.id, highest.position, highest.id);
    RoleSnapshot {
        id: role.id,
        position: role.position,
        manageable: id != guild_id.get() && !role.managed && lower,
        name: role.name.copy(),
        color: role.color,
        hoist: role.hoist,
        mentionable: role.mentionable,
        permissions: hold_permissions(names, role.permissions),
    }
}

fn snapshot_roles(
    roles: &Vec<DiscordRole>,
    guild_id: GuildId,
    highest: Place,
    names: &OrderedMap<KnownPermission, ()>,
) -> (snapshots: OrderedMap<RoleId, RoleSnapshot>)
    ensures
        snapshots.deep_view() == seen_roles(roles.deep_view(), guild_id.deep_view(), highest.deep_view(), names.deep_view()),
{
    let ghost all = roles.deep_view();
    let mut snapshots: OrderedMap<RoleId, RoleSnapshot> = OrderedMap::new();
    let mut i: usize = 0;
    assert(all.take(0) =~= Seq::empty());
    while i < roles.len()
        invariant
            i <= roles@.len(),
            all == roles.deep_view(),
            snapshots.deep_view() == seen_roles(
                all.take(i as int),
                guild_id.deep_view(),
                highest.deep_view(),
                names.deep_view(),
            ),
        decreases roles@.len() - i,
    {
        proof {
            assert(all.take(i + 1).drop_last() =~= all.take(i as int));
            assert(all.take(i + 1).last() == roles@[i as int].deep_view());
        }
        snapshots.insert(roles[i].id, snapshot_role(&roles[i], guild_id, highest, names));
        i += 1;
    }
    assert(all.take(i as int) =~= all);
    snapshots
}

/// The values of entries.
pub open spec fn values_of<K, W>(entries: Seq<(K, W)>) -> Seq<W> {
    entries.map_values(|entry: (K, W)| entry.1)
}

/// The roles of a guild as they are managed, or why they cannot be.
pub open spec fn seen_catalog(
    roles: Seq<DiscordRoleView>,
    guild_id: u64,
    bot_roles: Seq<u64>,
    names: Seq<(Seq<char>, ())>,
) -> Result<RoleCatalogView, ErrorView> {
    match listed_role(roles, guild_id) {
        None => Err(ErrorView::RoleSource("@everyone Role が存在しません"@)),
        Some(everyone) => {
            let permissions = joined_permissions(everyone.permissions, roles, bot_roles, 0);
            let highest = match highest_role(None, roles, bot_roles, 0) {
                Some(highest) => highest,
                None => (everyone.position, everyone.id),
            };
            if !manages_roles(permissions) {
                Err(ErrorView::RoleSource("Bot に MANAGE_ROLES 権限がありません"@))
            } else {
                Ok(
                    RoleCatalogView {
                        roles: values_of(seen_roles(roles, guild_id, highest, names)),
                        permission_names: names,
                        grantable_permissions: grantable_permissions(names, permissions),
                        default_permissions: held_permissions(names, everyone.permissions),
                    },
                )
            }
        },
    }
}

/// The roles of a guild as they are managed, given the roles that the bot has.
pub fn role_catalog(
    roles: &Vec<DiscordRole>,
    guild_id: GuildId,
    bot_roles: &Vec<RoleId>,
    vocabulary: &PermissionVocabulary,
) -> (result: Result<RoleCatalog, ManagementError>)
    ensures
        seen(result) == seen_catalog(
            roles.deep_view(),
            guild_id.deep_view(),
            bot_roles.deep_view(),
            vocabulary.deep_view(),
        ),
{
    let everyone: &DiscordRole = match find_listed(roles, guild_id.get()) {
        None => {
            return Err(ManagementError::RoleSource("@everyone Role が存在しません".to_owned()));
        },
        Some(everyone) => everyone,
    };
    let permissions: u64 = member_permissions(everyone.permissions, roles, bot_roles);
    let highest: Place = match find_highest(roles, bot_roles) {
        Some(highest) => highest,
        None => Place { position: everyone.position, id: everyone.id },
    };
    if !has_manage_roles(permissions) {
        return Err(ManagementError::RoleSource("Bot に MANAGE_ROLES 権限がありません".to_owned()));
    }
    let names: OrderedMap<KnownPermission, ()> = vocabulary.known_names();
    let by_id: OrderedMap<RoleId, RoleSnapshot> = snapshot_roles(roles, guild_id, highest, &names);
    let ghost all = by_id.deep_view();
    let mut snapshots: Vec<RoleSnapshot> = Vec::new();
    let mut i: usize = 0;
    while i < by_id.len()
        invariant
            i <= all.len(),
            all == by_id.deep_view(),
            snapshots@.len() == i,
            forall|k: int| 0 <= k < i ==> (#[trigger] snapshots@[k]).deep_view() == values_of(all)[k],
        decreases all.len() - i,
    {
        snapshots.push(by_id.value_at(i).copy());
        i += 1;
    }
    assert(snapshots.deep_view() =~= values_of(all));
    let grantable_permissions: OrderedMap<KnownPermission, ()> = list_grantable(&names, permissions);
    let default_permissions: OrderedMap<KnownPermission, bool> = hold_permissions(&names, everyone.permissions);
    Ok(RoleCatalog { roles: snapshots, permission_names: names, grantable_permissions, default_permissions })
}

} // verus!
