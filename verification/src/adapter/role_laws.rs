//! What is read of the roles of a guild, told by what Discord says of each.

use vstd::prelude::*;

use crate::adapter::permission::{
    grantable_permissions, held_permissions, holds_known, is_administrator, permission_bits,
};
use crate::adapter::role::{
    highest_role, is_lower, joined_permissions, listed_role, seen_catalog, seen_role, seen_roles, DiscordRoleView,
};
use crate::configuration::permission::KnownPermission;
use crate::ids::RoleId;
use crate::ordered::{has_key, lookup, lookup_has_entry, put_then_lookup};
use crate::port::RoleSnapshotView;

verus! {

/// Whether a role is the first that is listed under an identifier.
pub open spec fn is_first(roles: Seq<DiscordRoleView>, n: int, id: u64) -> bool {
    &&& 0 <= n < roles.len()
    &&& roles[n].id == id
    &&& forall|k: int| 0 <= k < n ==> (#[trigger] roles[k]).id != id
}

/// Whether a role stands below another: at a lower position, or at the same one with a
/// greater identifier.
pub open spec fn stands_below(role: DiscordRoleView, other: DiscordRoleView) -> bool {
    role.position < other.position || role.position == other.position && role.id > other.id
}

/// Whether a role is one of those that the bot has.
pub open spec fn is_of_bot(roles: Seq<DiscordRoleView>, n: int, bot_roles: Seq<u64>) -> bool {
    exists|i: int| 0 <= i < bot_roles.len() && is_first(roles, n, #[trigger] bot_roles[i])
}

/// Whether a role stands below one of those that the bot has, or below the role of every
/// member where the bot has none.
pub open spec fn is_below_bot(
    role: DiscordRoleView,
    roles: Seq<DiscordRoleView>,
    guild_id: u64,
    bot_roles: Seq<u64>,
) -> bool {
    if exists|n: int| is_of_bot(roles, n, bot_roles) {
        exists|n: int| #[trigger] is_of_bot(roles, n, bot_roles) && stands_below(role, roles[n])
    } else {
        exists|n: int| #[trigger] is_first(roles, n, guild_id) && stands_below(role, roles[n])
    }
}

/// Whether permissions are read from bits: each known one by whether all of its bits are there.
pub open spec fn are_read(
    permissions: Seq<(Seq<char>, bool)>,
    names: Seq<(Seq<char>, ())>,
    bits: u64,
) -> bool {
    forall|name: Seq<char>| #[trigger]
        lookup(permissions, name) == if has_key(names, name) {
            Some(permission_bits(name) is Some && bits & permission_bits(name)->0 == permission_bits(name)->0)
        } else {
            None
        }
}

/// Whether a role is read as Discord describes it. The bot can manage it where no other
/// service does, and it stands below a role of the bot.
pub open spec fn is_read(
    read: RoleSnapshotView,
    role: DiscordRoleView,
    roles: Seq<DiscordRoleView>,
    guild_id: u64,
    bot_roles: Seq<u64>,
    names: Seq<(Seq<char>, ())>,
) -> bool {
    &&& read.id == role.id
    &&& read.position == role.position
    &&& read.name == role.name
    &&& read.color == role.color
    &&& read.hoist == role.hoist
    &&& read.mentionable == role.mentionable
    &&& are_read(read.permissions, names, role.permissions)
    &&& read.manageable <==> role.id != guild_id && !role.managed && is_below_bot(role, roles, guild_id, bot_roles)
}

/// Whether the bot has a bit of some: from the role of every member, or from one of its own.
pub open spec fn bot_has_any(roles: Seq<DiscordRoleView>, guild_id: u64, bot_roles: Seq<u64>, bits: u64) -> bool {
    exists|n: int| #[trigger]
        is_source(roles, n, guild_id, bot_roles) && roles[n].permissions & bits != 0
}

/// Whether one of the roles that give the bot its permissions has all of some bits.
pub open spec fn one_gives_all(roles: Seq<DiscordRoleView>, guild_id: u64, bot_roles: Seq<u64>, bits: u64) -> bool {
    exists|n: int| #[trigger]
        is_source(roles, n, guild_id, bot_roles) && roles[n].permissions & bits == bits
}

/// Whether a role gives the bot permissions: that of every member, and those that the bot has.
pub open spec fn is_source(roles: Seq<DiscordRoleView>, n: int, guild_id: u64, bot_roles: Seq<u64>) -> bool {
    is_first(roles, n, guild_id) || is_of_bot(roles, n, bot_roles)
}

proof fn found_is_first(roles: Seq<DiscordRoleView>, id: u64) -> (n: int)
    requires
        listed_role(roles, id) is Some,
    ensures
        is_first(roles, n, id),
        roles[n] == listed_role(roles, id)->0,
    decreases roles.len(),
{
    if roles[0].id == id {
        0
    } else {
        let rest = roles.drop_first();
        let n = found_is_first(rest, id);
        assert(roles[n + 1] == rest[n]);
        assert forall|k: int| 0 <= k < n + 1 implies (#[trigger] roles[k]).id != id by {
            if k > 0 {
                assert(rest[k - 1] == roles[k]);
            }
        }
        n + 1
    }
}

proof fn first_is_found(roles: Seq<DiscordRoleView>, n: int, id: u64)
    requires
        is_first(roles, n, id),
    ensures
        listed_role(roles, id) == Some(roles[n]),
    decreases roles.len(),
{
    if n > 0 {
        assert(roles[0].id != id);
        let rest = roles.drop_first();
        assert forall|k: int| 0 <= k < n - 1 implies (#[trigger] rest[k]).id != id by {
            assert(rest[k] == roles[k + 1]);
        }
        first_is_found(rest, n - 1, id);
    }
}

/// The highest of some roles is above what one of them is above.
proof fn highest_is_above_all(
    highest: Option<(i16, u64)>,
    roles: Seq<DiscordRoleView>,
    ids: Seq<u64>,
    i: int,
    role: DiscordRoleView,
)
    requires
        0 <= i <= ids.len(),
    ensures
        ({
            let all = highest_role(highest, roles, ids, i);
            let found = exists|k: int| i <= k < ids.len() && listed_role(roles, #[trigger] ids[k]) is Some;
            let above = exists|k: int|
                i <= k < ids.len() && listed_role(roles, #[trigger] ids[k]) is Some && stands_below(
                    role,
                    listed_role(roles, ids[k])->0,
                );
            &&& all is Some <==> highest is Some || found
            &&& is_above(all, role) <==> is_above(highest, role) || above
        }),
    decreases ids.len() - i,
{
    if i < ids.len() {
        let next = match listed_role(roles, ids[i]) {
            None => highest,
            Some(other) => match highest {
                Some((position, id)) => if is_lower(other.position, other.id, position, id) {
                    highest
                } else {
                    Some((other.position, other.id))
                },
                None => Some((other.position, other.id)),
            },
        };
        highest_is_above_all(next, roles, ids, i + 1, role);
        if listed_role(roles, ids[i]) is Some {
            assert(listed_role(roles, ids[i]) is Some);
        }
        if exists|k: int| i + 1 <= k < ids.len() && listed_role(roles, #[trigger] ids[k]) is Some && stands_below(
            role,
            listed_role(roles, ids[k])->0,
        ) {
            let k = choose|k: int|
                i + 1 <= k < ids.len() && listed_role(roles, #[trigger] ids[k]) is Some && stands_below(
                    role,
                    listed_role(roles, ids[k])->0,
                );
            assert(listed_role(roles, ids[k]) is Some);
        }
        if exists|k: int| i + 1 <= k < ids.len() && listed_role(roles, #[trigger] ids[k]) is Some {
            let k = choose|k: int| i + 1 <= k < ids.len() && listed_role(roles, #[trigger] ids[k]) is Some;
            assert(listed_role(roles, ids[k]) is Some);
        }
    }
}

/// Whether a place is above a role.
spec fn is_above(place: Option<(i16, u64)>, role: DiscordRoleView) -> bool {
    match place {
        Some((position, id)) => is_lower(role.position, role.id, position, id),
        None => false,
    }
}

proof fn manageable_are_below_the_bot(
    role: DiscordRoleView,
    roles: Seq<DiscordRoleView>,
    guild_id: u64,
    bot_roles: Seq<u64>,
)
    requires
        listed_role(roles, guild_id) is Some,
    ensures
        ({
            let everyone = listed_role(roles, guild_id)->0;
            let highest = match highest_role(None, roles, bot_roles, 0) {
                Some(highest) => highest,
                None => (everyone.position, everyone.id),
            };
            is_lower(role.position, role.id, highest.0, highest.1) <==> is_below_bot(role, roles, guild_id, bot_roles)
        }),
{
    let e = found_is_first(roles, guild_id);
    highest_is_above_all(None, roles, bot_roles, 0, role);
    let found = exists|k: int| 0 <= k < bot_roles.len() && listed_role(roles, #[trigger] bot_roles[k]) is Some;
    let above = exists|k: int|
        0 <= k < bot_roles.len() && listed_role(roles, #[trigger] bot_roles[k]) is Some && stands_below(
            role,
            listed_role(roles, bot_roles[k])->0,
        );
    let has_role = exists|n: int| is_of_bot(roles, n, bot_roles);
    if found {
        let k = choose|k: int| 0 <= k < bot_roles.len() && listed_role(roles, #[trigger] bot_roles[k]) is Some;
        let n = found_is_first(roles, bot_roles[k]);
        assert(is_of_bot(roles, n, bot_roles));
    }
    if has_role {
        let n = choose|n: int| is_of_bot(roles, n, bot_roles);
        let i = choose|i: int| 0 <= i < bot_roles.len() && is_first(roles, n, #[trigger] bot_roles[i]);
        first_is_found(roles, n, bot_roles[i]);
        assert(listed_role(roles, bot_roles[i]) is Some);
    }
    if above {
        let k = choose|k: int|
            0 <= k < bot_roles.len() && listed_role(roles, #[trigger] bot_roles[k]) is Some && stands_below(
                role,
                listed_role(roles, bot_roles[k])->0,
            );
        let n = found_is_first(roles, bot_roles[k]);
        assert(is_of_bot(roles, n, bot_roles));
    }
    if exists|n: int| #[trigger] is_of_bot(roles, n, bot_roles) && stands_below(role, roles[n]) {
        let n = choose|n: int| #[trigger] is_of_bot(roles, n, bot_roles) && stands_below(role, roles[n]);
        let i = choose|i: int| 0 <= i < bot_roles.len() && is_first(roles, n, #[trigger] bot_roles[i]);
        first_is_found(roles, n, bot_roles[i]);
        assert(listed_role(roles, bot_roles[i]) is Some);
    }
    if exists|n: int| #[trigger] is_first(roles, n, guild_id) && stands_below(role, roles[n]) {
        let n = choose|n: int| #[trigger] is_first(roles, n, guild_id) && stands_below(role, roles[n]);
        first_is_found(roles, n, guild_id);
    }
}

proof fn held_permissions_are_read(names: Seq<(Seq<char>, ())>, bits: u64)
    ensures
        are_read(held_permissions(names, bits), names, bits),
{
    assert forall|name: Seq<char>| #[trigger] lookup(held_permissions(names, bits), name) == if has_key(names, name) {
        Some(permission_bits(name) is Some && bits & permission_bits(name)->0 == permission_bits(name)->0)
    } else {
        None
    } by {
        held_permission_is_found(names, bits, name);
    }
}

proof fn held_permission_is_found(names: Seq<(Seq<char>, ())>, bits: u64, name: Seq<char>)
    ensures
        lookup(held_permissions(names, bits), name) == if has_key(names, name) {
            Some(holds_known(bits, permission_bits(name)))
        } else {
            None
        },
    decreases names.len(),
{
    if names.len() > 0 {
        assert(held_permissions(names, bits).drop_first() =~= held_permissions(names.drop_first(), bits));
        held_permission_is_found(names.drop_first(), bits, name);
    }
}

proof fn joined_permissions_hold(
    permissions: u64,
    roles: Seq<DiscordRoleView>,
    ids: Seq<u64>,
    i: int,
    bits: u64,
)
    requires
        0 <= i <= ids.len(),
    ensures
        ({
            let all = joined_permissions(permissions, roles, ids, i);
            &&& permissions & bits == bits ==> all & bits == bits
            &&& forall|k: int|
                i <= k < ids.len() && listed_role(roles, #[trigger] ids[k]) is Some && listed_role(
                    roles,
                    ids[k],
                )->0.permissions & bits == bits ==> all & bits == bits
            &&& permissions & bits == 0 && (forall|k: int|
                i <= k < ids.len() && listed_role(roles, #[trigger] ids[k]) is Some ==> listed_role(
                    roles,
                    ids[k],
                )->0.permissions & bits == 0) ==> all & bits == 0
        }),
    decreases ids.len() - i,
{
    if i < ids.len() {
        match listed_role(roles, ids[i]) {
            Some(role) => {
                let more = role.permissions;
                joined_permissions_hold(permissions | more, roles, ids, i + 1, bits);
                assert(permissions & bits == bits ==> (permissions | more) & bits == bits) by (bit_vector);
                assert(more & bits == bits ==> (permissions | more) & bits == bits) by (bit_vector);
                assert(permissions & bits == 0 && more & bits == 0 ==> (permissions | more) & bits == 0) by (bit_vector);
                if forall|k: int|
                    i <= k < ids.len() && listed_role(roles, #[trigger] ids[k]) is Some ==> listed_role(
                        roles,
                        ids[k],
                    )->0.permissions & bits == 0 {
                    assert(listed_role(roles, ids[i])->0.permissions & bits == 0);
                }
            },
            None => {
                joined_permissions_hold(permissions, roles, ids, i + 1, bits);
            },
        }
    }
}

/// What the bot may do is what the role of every member and its own roles allow.
proof fn bot_permissions_are_joined(roles: Seq<DiscordRoleView>, guild_id: u64, bot_roles: Seq<u64>, bits: u64)
    requires
        listed_role(roles, guild_id) is Some,
    ensures
        ({
            let all = joined_permissions(listed_role(roles, guild_id)->0.permissions, roles, bot_roles, 0);
            &&& one_gives_all(roles, guild_id, bot_roles, bits) ==> all & bits == bits
            &&& !bot_has_any(roles, guild_id, bot_roles, bits) ==> all & bits == 0
        }),
{
    let everyone = listed_role(roles, guild_id)->0;
    let e = found_is_first(roles, guild_id);
    assert(is_source(roles, e, guild_id, bot_roles));
    joined_permissions_hold(everyone.permissions, roles, bot_roles, 0, bits);
    if one_gives_all(roles, guild_id, bot_roles, bits) {
        let n = choose|n: int| #[trigger]
            is_source(roles, n, guild_id, bot_roles) && roles[n].permissions & bits == bits;
        if is_first(roles, n, guild_id) {
            first_is_found(roles, n, guild_id);
        } else {
            let i = choose|i: int| 0 <= i < bot_roles.len() && is_first(roles, n, #[trigger] bot_roles[i]);
            first_is_found(roles, n, bot_roles[i]);
            assert(listed_role(roles, bot_roles[i]) is Some);
        }
    }
    if !bot_has_any(roles, guild_id, bot_roles, bits) {
        assert forall|k: int| 0 <= k < bot_roles.len() && listed_role(roles, #[trigger] bot_roles[k]) is Some implies
            listed_role(roles, bot_roles[k])->0.permissions & bits == 0 by {
            let n = found_is_first(roles, bot_roles[k]);
            assert(is_of_bot(roles, n, bot_roles));
            assert(is_source(roles, n, guild_id, bot_roles));
        }
    }
}

proof fn grantable_are_had(names: Seq<(Seq<char>, ())>, permissions: u64, name: Seq<char>)
    ensures
        has_key(grantable_permissions(names, permissions), name) <==> has_name(names, name) && (is_administrator(
            permissions,
        ) || holds_known(permissions, permission_bits(name))),
    decreases names.len(),
{
    if names.len() > 0 {
        let front = names.drop_last();
        grantable_are_had(front, permissions, name);
        put_then_lookup::<KnownPermission, ()>(grantable_permissions(front, permissions), names.last().0, (), name);
        if has_name(front, name) {
            let k = choose|k: int| 0 <= k < front.len() && (#[trigger] front[k]).0 == name;
            assert(names[k].0 == name);
        }
        if names.last().0 == name {
            assert(names[names.len() - 1].0 == name);
        }
        if has_name(names, name) && names.last().0 != name {
            let k = choose|k: int| 0 <= k < names.len() && (#[trigger] names[k]).0 == name;
            assert(front[k].0 == name);
        }
    }
}

/// Whether a name is among some.
pub open spec fn has_name(names: Seq<(Seq<char>, ())>, name: Seq<char>) -> bool {
    exists|k: int| 0 <= k < names.len() && (#[trigger] names[k]).0 == name
}

proof fn last_is_seen(
    roles: Seq<DiscordRoleView>,
    guild_id: u64,
    highest: (i16, u64),
    names: Seq<(Seq<char>, ())>,
    n: int,
)
    requires
        0 <= n < roles.len(),
        forall|k: int| n < k < roles.len() ==> (#[trigger] roles[k]).id != roles[n].id,
    ensures
        lookup(seen_roles(roles, guild_id, highest, names), roles[n].id) == Some(
            seen_role(roles[n], guild_id, highest, names),
        ),
    decreases roles.len(),
{
    let front = roles.drop_last();
    let last = roles.last();
    put_then_lookup::<RoleId, RoleSnapshotView>(
        seen_roles(front, guild_id, highest, names),
        last.id,
        seen_role(last, guild_id, highest, names),
        roles[n].id,
    );
    if n < front.len() {
        assert(front[n] == roles[n]);
        assert(roles[roles.len() - 1].id != roles[n].id);
        last_is_seen(front, guild_id, highest, names, n);
    }
}

/// What is read of the roles of a guild.
///
/// Each role is read as Discord describes it. A permission can be granted that one of the
/// roles of the bot has, or all if one of them is that of an administrator, and no
/// permission of which the bot has nothing. Where the bot may manage no role, nothing is
/// read. The permissions of every member are the defaults.
pub proof fn roles_are_read_as_they_are(
    roles: Seq<DiscordRoleView>,
    guild_id: u64,
    bot_roles: Seq<u64>,
    names: Seq<(Seq<char>, ())>,
    n: int,
    permission: Seq<char>,
)
    requires
        seen_catalog(roles, guild_id, bot_roles, names) is Ok,
        0 <= n < roles.len(),
        forall|k: int| n < k < roles.len() ==> (#[trigger] roles[k]).id != roles[n].id,
    ensures
        ({
            let catalog = seen_catalog(roles, guild_id, bot_roles, names)->Ok_0;
            let bits = permission_bits(permission);
            &&& exists|m: int|
                0 <= m < catalog.roles.len() && is_read(
                    #[trigger] catalog.roles[m],
                    roles[n],
                    roles,
                    guild_id,
                    bot_roles,
                    names,
                )
            &&& catalog.permission_names == names
            &&& exists|e: int| #[trigger]
                is_first(roles, e, guild_id) && are_read(catalog.default_permissions, names, roles[e].permissions)
            &&& bot_has_any(roles, guild_id, bot_roles, 0x1000_0000) || bot_has_any(roles, guild_id, bot_roles, 0x8)
            &&& has_key(catalog.grantable_permissions, permission) ==> has_name(names, permission)
            &&& has_name(names, permission) && one_gives_all(roles, guild_id, bot_roles, 0x8) ==> has_key(
                catalog.grantable_permissions,
                permission,
            )
            &&& has_name(names, permission) && bits is Some && one_gives_all(roles, guild_id, bot_roles, bits->0)
                ==> has_key(catalog.grantable_permissions, permission)
            &&& has_key(catalog.grantable_permissions, permission) && !bot_has_any(roles, guild_id, bot_roles, 0x8)
                ==> bits is Some && (bits->0 == 0 || bot_has_any(roles, guild_id, bot_roles, bits->0))
        }),
{
    let catalog = seen_catalog(roles, guild_id, bot_roles, names)->Ok_0;
    let everyone = listed_role(roles, guild_id)->0;
    let all = joined_permissions(everyone.permissions, roles, bot_roles, 0);
    let bits = permission_bits(permission);
    let highest = match highest_role(None, roles, bot_roles, 0) {
        Some(highest) => highest,
        None => (everyone.position, everyone.id),
    };
    let e = found_is_first(roles, guild_id);
    held_permissions_are_read(names, everyone.permissions);
    held_permissions_are_read(names, roles[n].permissions);
    manageable_are_below_the_bot(roles[n], roles, guild_id, bot_roles);
    last_is_seen(roles, guild_id, highest, names, n);
    let seen = seen_roles(roles, guild_id, highest, names);
    let m = lookup_has_entry(seen, roles[n].id);
    assert(catalog.roles[m] == seen[m].1);
    assert(is_read(catalog.roles[m], roles[n], roles, guild_id, bot_roles, names));
    bot_permissions_are_joined(roles, guild_id, bot_roles, 0x1000_0000);
    bot_permissions_are_joined(roles, guild_id, bot_roles, 0x8);
    grantable_are_had(names, all, permission);
    if bits is Some {
        bot_permissions_are_joined(roles, guild_id, bot_roles, bits->0);
    }
}

} // verus!
