//! What kind of thing a Discord identifier belongs to.

use vstd::prelude::*;

use crate::domain::ResourceType;
use crate::ids::GuildId;
use crate::port::ResourceLookup;

verus! {

/// What was found of an identifier, given whether it is among those of one kind.
pub open spec fn found_as(guild_id: u64, kind: ResourceType, found: bool) -> Option<(ResourceType, u64)> {
    if found {
        Some((kind, guild_id))
    } else {
        None
    }
}

/// Whether an identifier is among those of one kind, as what was found.
pub fn lookup_among(guild_id: GuildId, discord_id: u64, resource_type: ResourceType, ids: &Vec<u64>) -> (lookup: Option<
    ResourceLookup,
>)
    ensures
        crate::bind::found_of(lookup) == found_as(
            guild_id.deep_view(),
            resource_type,
            ids@.contains(discord_id),
        ),
{
    let mut i: usize = 0;
    while i < ids.len()
        invariant
            i <= ids@.len(),
            forall|k: int| 0 <= k < i ==> (#[trigger] ids@[k]) != discord_id,
        decreases ids@.len() - i,
    {
        if ids[i] == discord_id {
            return Some(ResourceLookup { resource_type, guild_id });
        }
        i += 1;
    }
    None
}

/// What was found of an identifier: a channel before a role, and a role before a member.
pub open spec fn found_resource(
    guild_id: u64,
    discord_id: u64,
    channels: Seq<u64>,
    roles: Seq<u64>,
    is_member: bool,
) -> Option<(ResourceType, u64)> {
    if channels.contains(discord_id) {
        Some((ResourceType::Channel, guild_id))
    } else if roles.contains(discord_id) {
        Some((ResourceType::Role, guild_id))
    } else {
        found_as(guild_id, ResourceType::Member, is_member)
    }
}

/// What was found of an identifier, given the channels and the roles of a guild and
/// whether it has a member with it.
pub fn lookup_resource(
    guild_id: GuildId,
    discord_id: u64,
    channels: &Vec<u64>,
    roles: &Vec<u64>,
    is_member: bool,
) -> (lookup: Option<ResourceLookup>)
    ensures
        crate::bind::found_of(lookup) == found_resource(
            guild_id.deep_view(),
            discord_id,
            channels@,
            roles@,
            is_member,
        ),
{
    let channel: Option<ResourceLookup> = lookup_among(guild_id, discord_id, ResourceType::Channel, channels);
    if channel.is_some() {
        return channel;
    }
    let role: Option<ResourceLookup> = lookup_among(guild_id, discord_id, ResourceType::Role, roles);
    if role.is_some() {
        return role;
    }
    if is_member {
        Some(ResourceLookup { resource_type: ResourceType::Member, guild_id })
    } else {
        None
    }
}

/// An identifier is found exactly where a channel, a role or a member of the guild has it. What
/// is found is of the guild and of the kind that has it, a channel before a role and a role
/// before a member.
pub proof fn resources_are_found_where_they_are(
    guild_id: u64,
    discord_id: u64,
    channels: Seq<u64>,
    roles: Seq<u64>,
    is_member: bool,
)
    ensures
        ({
            let found = found_resource(guild_id, discord_id, channels, roles, is_member);
            &&& found is Some <==> channels.contains(discord_id) || roles.contains(discord_id) || is_member
            &&& found matches Some((kind, guild)) ==> {
                &&& guild == guild_id
                &&& kind == ResourceType::Channel <==> channels.contains(discord_id)
                &&& kind == ResourceType::Role <==> roles.contains(discord_id) && !channels.contains(discord_id)
            }
        }),
{
}

} // verus!
