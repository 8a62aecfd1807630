//! How the channels of a guild are read.

use vstd::prelude::*;

use crate::adapter::channel::{
    known_values, mask_holds, mask_of, seen_catalog, seen_channel, seen_overwrite, seen_overwrites, seen_permissions,
    seen_target, DiscordChannelView, OverwriteKindView, OverwriteView,
};
use crate::adapter::laws::apart_from_mask;
use crate::adapter::permission::{holds_known, known_bits, permission_bits};
use crate::configuration::channel::OverwriteValue;
use crate::configuration::permission::KnownPermission;
use crate::ordered::{has_key, lookup, put, put_then_lookup};
use crate::port::{
    ChannelOverwritePermissionsView, ChannelOverwritesView, ChannelOverwriteTarget, ChannelOverwriteTargetView,
};

verus! {

/// Whether an overwrite is for a target. The role that every member has is that with the
/// identifier of the guild.
pub open spec fn is_for(kind: OverwriteKindView, guild_id: u64, target: ChannelOverwriteTargetView) -> bool {
    match target {
        ChannelOverwriteTargetView::Everyone => kind == OverwriteKindView::Role(guild_id),
        ChannelOverwriteTargetView::Role(id) => id != guild_id && kind == OverwriteKindView::Role(id),
        ChannelOverwriteTargetView::Member(id) => kind == OverwriteKindView::Member(id),
    }
}

/// Whether some bits hold all bits of a permission.
pub open spec fn has_bits_of(bits: u64, permission: Seq<char>) -> bool {
    permission_bits(permission) is Some && bits & permission_bits(permission)->0 == permission_bits(permission)->0
}

/// Whether no known permission has one of some bits.
pub open spec fn are_unnamed(bits: u64, known: Seq<Seq<char>>) -> bool {
    forall|k: int|
        0 <= k < known.len() && permission_bits(#[trigger] known[k]) is Some ==> bits & permission_bits(known[k])->0 == 0
}

/// Whether what was read of an overwrite is what it does: a known permission is allowed where
/// its bits are allowed, and denied where they are only denied; all other bits stay as they are.
pub open spec fn is_read(
    read: ChannelOverwritePermissionsView,
    overwrite: OverwriteView,
    known: Seq<Seq<char>>,
) -> bool {
    &&& forall|permission: Seq<char>| #[trigger]
        lookup(read.known, permission) == if !known.contains(permission) {
            None
        } else if has_bits_of(overwrite.allow, permission) {
            Some(OverwriteValue::Allow)
        } else if has_bits_of(overwrite.deny, permission) {
            Some(OverwriteValue::Deny)
        } else {
            None
        }
    &&& forall|bits: u64| #[trigger]
        are_unnamed(bits, known) ==> read.allow_unknown & bits == overwrite.allow & bits && read.deny_unknown & bits
            == overwrite.deny & bits
    &&& forall|k: int|
        0 <= k < known.len() && permission_bits(#[trigger] known[k]) is Some ==> read.allow_unknown & permission_bits(
            known[k],
        )->0 == 0 && read.deny_unknown & permission_bits(known[k])->0 == 0
}

proof fn values_are_read_by_bits(
    known: Seq<Seq<char>>,
    i: int,
    allow: u64,
    deny: u64,
    values: Seq<(Seq<char>, OverwriteValue)>,
    name: Seq<char>,
)
    requires
        0 <= i <= known.len(),
    ensures
        ({
            let asked = exists|k: int| i <= k < known.len() && #[trigger] known[k] == name;
            lookup(known_values(known, i, allow, deny, values), name) == if asked && has_bits_of(allow, name) {
                Some(OverwriteValue::Allow)
            } else if asked && has_bits_of(deny, name) {
                Some(OverwriteValue::Deny)
            } else {
                lookup(values, name)
            }
        }),
    decreases known.len() - i,
{
    if i < known.len() {
        let bits = permission_bits(known[i]);
        let next = if holds_known(allow, bits) {
            put::<KnownPermission, OverwriteValue>(values, known[i], OverwriteValue::Allow)
        } else if holds_known(deny, bits) {
            put::<KnownPermission, OverwriteValue>(values, known[i], OverwriteValue::Deny)
        } else {
            values
        };
        values_are_read_by_bits(known, i + 1, allow, deny, next, name);
        put_then_lookup::<KnownPermission, OverwriteValue>(values, known[i], OverwriteValue::Allow, name);
        put_then_lookup::<KnownPermission, OverwriteValue>(values, known[i], OverwriteValue::Deny, name);
        if known[i] == name {
            assert(known[i] == name);
        }
        if exists|k: int| i + 1 <= k < known.len() && #[trigger] known[k] == name {
            let k = choose|k: int| i + 1 <= k < known.len() && #[trigger] known[k] == name;
            assert(known[k] == name);
        }
        if exists|k: int| i <= k < known.len() && #[trigger] known[k] == name {
            let k = choose|k: int| i <= k < known.len() && #[trigger] known[k] == name;
            if k > i {
                assert(known[k] == name);
            }
        }
    }
}

proof fn permissions_are_read(overwrite: OverwriteView, known: Seq<Seq<char>>)
    ensures
        is_read(seen_permissions(overwrite, known, mask_of(known, 0, 0)), overwrite, known),
{
    let mask = mask_of(known, 0, 0);
    let allow = overwrite.allow;
    let deny = overwrite.deny;
    let read = seen_permissions(overwrite, known, mask);
    assert forall|permission: Seq<char>| #[trigger] lookup(read.known, permission) == if !known.contains(permission) {
        None
    } else if has_bits_of(allow, permission) {
        Some(OverwriteValue::Allow)
    } else if has_bits_of(deny, permission) {
        Some(OverwriteValue::Deny)
    } else {
        None
    } by {
        values_are_read_by_bits(known, 0, allow, deny, Seq::empty(), permission);
        assert(lookup(Seq::<(Seq<char>, OverwriteValue)>::empty(), permission) is None);
        if known.contains(permission) {
            let k = known.index_of(permission);
            assert(known[k] == permission);
        }
    }
    assert forall|bits: u64| #[trigger] are_unnamed(bits, known) implies read.allow_unknown & bits == allow & bits
        && read.deny_unknown & bits == deny & bits by {
        assert forall|k: int| 0 <= k < known.len() implies bits & known_bits(permission_bits(#[trigger] known[k]))
            == 0 by {
            assert(bits & 0 == 0) by (bit_vector);
        }
        assert(bits & 0 == 0) by (bit_vector);
        apart_from_mask(bits, known, 0, 0);
        assert(bits & mask == 0 ==> (allow & !mask) & bits == allow & bits && (deny & !mask) & bits == deny & bits)
            by (bit_vector);
    }
    assert forall|k: int| 0 <= k < known.len() && permission_bits(#[trigger] known[k]) is Some implies read.allow_unknown
        & permission_bits(known[k])->0 == 0 && read.deny_unknown & permission_bits(known[k])->0 == 0 by {
        let bits = permission_bits(known[k])->0;
        mask_holds(known, 0, 0, k);
        assert(bits & !mask == 0 ==> (allow & !mask) & bits == 0 && (deny & !mask) & bits == 0) by (bit_vector);
    }
}

proof fn overwrites_are_read_from(
    overwrites: Seq<OverwriteView>,
    i: int,
    guild_id: u64,
    known: Seq<Seq<char>>,
    gathered: ChannelOverwritesView,
    target: ChannelOverwriteTargetView,
)
    requires
        0 <= i <= overwrites.len(),
    ensures
        ({
            let read = lookup(seen_overwrites(overwrites, i, guild_id, known, gathered), target);
            &&& (forall|j: int| i <= j < overwrites.len() ==> !is_for((#[trigger] overwrites[j]).kind, guild_id, target))
                ==> read == lookup(gathered, target)
            &&& forall|j: int|
                i <= j < overwrites.len() && is_for((#[trigger] overwrites[j]).kind, guild_id, target) && (forall|
                    k: int,
                |
                    j < k < overwrites.len() ==> !is_for((#[trigger] overwrites[k]).kind, guild_id, target)) ==> read
                    is Some && is_read(read->0, overwrites[j], known)
        }),
    decreases overwrites.len() - i,
{
    if i < overwrites.len() {
        let overwrite = overwrites[i];
        let mask = mask_of(known, 0, 0);
        assert(seen_target(overwrite.kind, guild_id) == Some(target) <==> is_for(overwrite.kind, guild_id, target));
        match seen_overwrite(overwrite, guild_id, known, mask) {
            None => {
                overwrites_are_read_from(overwrites, i + 1, guild_id, known, gathered, target);
            },
            Some((found, permissions)) => {
                let next = put::<ChannelOverwriteTarget, ChannelOverwritePermissionsView>(gathered, found, permissions);
                overwrites_are_read_from(overwrites, i + 1, guild_id, known, next, target);
                put_then_lookup::<ChannelOverwriteTarget, ChannelOverwritePermissionsView>(
                    gathered,
                    found,
                    permissions,
                    target,
                );
                permissions_are_read(overwrite, known);
            },
        }
    }
}

/// The channels of a guild are read where the bot may manage channels or is an administrator,
/// all of them in their order and each as it is: a pause that is not given is none, and an
/// archive time that Discord does not have is none. What is overwritten for a target is what
/// the last overwrite for it does, and nothing is where there is none.
pub proof fn channels_are_read_as_they_are(
    channels: Seq<DiscordChannelView>,
    guild_id: u64,
    bot_permissions: u64,
    known: Seq<Seq<char>>,
    n: int,
    target: ChannelOverwriteTargetView,
    j: int,
)
    ensures
        ({
            let result = seen_catalog(channels, guild_id, bot_permissions, known);
            &&& result is Ok <==> bot_permissions & 0x10 == 0x10 || bot_permissions & 0x8 == 0x8
            &&& result is Ok ==> result->Ok_0.channels.len() == channels.len()
            &&& result is Ok && 0 <= n < channels.len() ==> {
                let read = result->Ok_0.channels[n];
                let channel = channels[n];
                let overwrites = channel.permission_overwrites;
                &&& read.id == channel.id
                &&& read.position == channel.position
                &&& read.kind == channel.kind
                &&& read.manageable
                &&& read.name == channel.name
                &&& read.parent_id == channel.parent_id
                &&& read.topic == channel.topic
                &&& read.nsfw == channel.nsfw
                &&& channel.rate_limit_per_user is Some ==> channel.rate_limit_per_user == Some(read.slowmode_seconds)
                &&& channel.rate_limit_per_user is None ==> read.slowmode_seconds == 0
                &&& channel.default_thread_rate_limit_per_user is Some ==> channel.default_thread_rate_limit_per_user
                    == Some(read.default_thread_slowmode_seconds)
                &&& channel.default_thread_rate_limit_per_user is None ==> read.default_thread_slowmode_seconds == 0
                &&& read.default_auto_archive_minutes == if channel.default_auto_archive_duration == Some(60u16)
                    || channel.default_auto_archive_duration == Some(1440u16) || channel.default_auto_archive_duration
                    == Some(4320u16) || channel.default_auto_archive_duration == Some(10080u16) {
                    channel.default_auto_archive_duration
                } else {
                    None
                }
                &&& has_key(read.overwrites, target) <==> exists|k: int|
                    0 <= k < overwrites.len() && is_for((#[trigger] overwrites[k]).kind, guild_id, target)
                &&& 0 <= j < overwrites.len() && is_for(overwrites[j].kind, guild_id, target) && (forall|k: int|
                    j < k < overwrites.len() ==> !is_for((#[trigger] overwrites[k]).kind, guild_id, target)) ==> has_key(
                    read.overwrites,
                    target,
                ) && is_read(lookup(read.overwrites, target)->0, overwrites[j], known)
            }
        }),
{
    let result = seen_catalog(channels, guild_id, bot_permissions, known);
    if result is Ok && 0 <= n < channels.len() {
        let overwrites = channels[n].permission_overwrites;
        let none: ChannelOverwritesView = Seq::empty();
        assert(result->Ok_0.channels[n] == seen_channel(channels[n], guild_id, known, true));
        overwrites_are_read_from(overwrites, 0, guild_id, known, none, target);
        assert(lookup(none, target) is None);
        if exists|k: int| 0 <= k < overwrites.len() && is_for((#[trigger] overwrites[k]).kind, guild_id, target) {
            let k = choose|k: int| 0 <= k < overwrites.len() && is_for((#[trigger] overwrites[k]).kind, guild_id, target);
            let last = last_for(overwrites, guild_id, target, k);
            assert(is_for(overwrites[last].kind, guild_id, target));
        }
    }
}

proof fn last_for(
    overwrites: Seq<OverwriteView>,
    guild_id: u64,
    target: ChannelOverwriteTargetView,
    k: int,
) -> (last: int)
    requires
        0 <= k < overwrites.len(),
        is_for(overwrites[k].kind, guild_id, target),
    ensures
        k <= last < overwrites.len(),
        is_for(overwrites[last].kind, guild_id, target),
        forall|j: int| last < j < overwrites.len() ==> !is_for((#[trigger] overwrites[j]).kind, guild_id, target),
    decreases overwrites.len() - k,
{
    if exists|j: int| k < j < overwrites.len() && is_for((#[trigger] overwrites[j]).kind, guild_id, target) {
        let j = choose|j: int| k < j < overwrites.len() && is_for((#[trigger] overwrites[j]).kind, guild_id, target);
        last_for(overwrites, guild_id, target, j)
    } else {
        k
    }
}

} // verus!
