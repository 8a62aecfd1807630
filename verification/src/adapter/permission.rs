//! Permissions as bits.

use vstd::prelude::*;

use crate::configuration::permission::{
    is_permission_name, vocabulary_of, KnownPermission, PermissionName, PermissionVocabulary,
};
use crate::ordered::{has_key, lookup_has_entry, put, put_at_end, put_then_lookup, OrderedMap};
use crate::value::Plain;

verus! {

/// The bits of the permission that `serenity` knows under a name.
pub uninterp spec fn permission_bits(name: Seq<char>) -> Option<u64>;

/// Calls `serenity::all::Permissions::from_name` and takes the bits of what it
/// finds. Claims that they depend on the name alone; which bits each name has is
/// not stated.
#[verifier::external_body]
fn find_bits(name: &str) -> (bits: Option<u64>)
    ensures
        bits == permission_bits(name@),
{
    serenity::all::Permissions::from_name(name).map(|permission| permission.bits())
}

/// Whether one of some names has the bits of a name, where it has any.
pub open spec fn has_same_bits(names: Seq<Seq<char>>, name: Seq<char>) -> bool {
    permission_bits(name) is Some ==> exists|i: int|
        0 <= i < names.len() && permission_bits(#[trigger] names[i]) == permission_bits(name)
}

/// The names that a vocabulary holds.
pub open spec fn names_in(vocabulary: Seq<(Seq<char>, ())>) -> Seq<Seq<char>> {
    vocabulary.map_values(|entry: (Seq<char>, ())| entry.0)
}

/// Calls `iter_names` on `serenity::all::Permissions::all`, which goes through the
/// permissions that have a name. Claims that `from_name` finds each of them, that each
/// is written in capital letters and underscores, that no two have a bit in common, and
/// that whatever bits `from_name` finds under a name, one of them has: of two names for
/// the same bits only the first is gone through. Which names there are is not stated.
#[verifier::external_body]
fn all_names() -> (names: Vec<String>)
    ensures
        forall|i: int|
            0 <= i < names@.len() ==> is_permission_name((#[trigger] names@[i])@) && permission_bits(names@[i]@) is Some,
        forall|i: int, j: int|
            0 <= i < j < names@.len() ==> permission_bits((#[trigger] names@[i])@)->0 & permission_bits(
                (#[trigger] names@[j])@,
            )->0 == 0,
        forall|name: Seq<char>| #[trigger] has_same_bits(names.deep_view(), name),
{
    serenity::all::Permissions::all().iter_names().map(|(name, _)| name.to_owned()).collect()
}

/// Takes the bits of `serenity::all::Permissions::MANAGE_ROLES`, which is bit 28.
#[verifier::external_body]
fn manage_roles_bits() -> (bits: u64)
    ensures
        bits == 0x1000_0000,
{
    serenity::all::Permissions::MANAGE_ROLES.bits()
}

/// Takes the bits of `serenity::all::Permissions::MANAGE_CHANNELS`, which is bit 4.
#[verifier::external_body]
fn manage_channels_bits() -> (bits: u64)
    ensures
        bits == 0x10,
{
    serenity::all::Permissions::MANAGE_CHANNELS.bits()
}

/// Takes the bits of `serenity::all::Permissions::ADMINISTRATOR`, which is bit 3.
#[verifier::external_body]
fn administrator_bits() -> (bits: u64)
    ensures
        bits == 0x8,
{
    serenity::all::Permissions::ADMINISTRATOR.bits()
}

proof fn vocabulary_holds_names(names: Seq<Seq<char>>, gathered: Seq<(Seq<char>, ())>, name: Seq<char>)
    requires
        forall|i: int| 0 <= i < names.len() ==> is_permission_name(#[trigger] names[i]),
    ensures
        vocabulary_of(names, gathered) is Ok,
        has_key(vocabulary_of(names, gathered)->Ok_0, name) == (has_key(gathered, name) || names.contains(name)),
    decreases names.len(),
{
    if names.len() > 0 {
        let next = put::<PermissionName, ()>(gathered, names[0], ());
        let rest = names.drop_first();
        assert forall|i: int| 0 <= i < rest.len() implies is_permission_name(#[trigger] rest[i]) by {
            assert(rest[i] == names[i + 1]);
        }
        vocabulary_holds_names(rest, next, name);
        put_then_lookup::<PermissionName, ()>(gathered, names[0], (), name);
        if rest.contains(name) {
            let i = rest.index_of(name);
            assert(names[i + 1] == name);
        }
        if names.contains(name) && names[0] != name {
            let i = names.index_of(name);
            assert(rest[i - 1] == name);
        }
    }
}

/// The vocabulary of the permissions of Discord: whatever bits are known by a name, one
/// permission of the vocabulary has, and no two of them have a bit in common.
pub fn permission_vocabulary() -> (vocabulary: PermissionVocabulary)
    ensures
        forall|name: Seq<char>| #[trigger]
            has_key(vocabulary.deep_view(), name) ==> permission_bits(name) is Some,
        forall|name: Seq<char>| #[trigger] has_same_bits(names_in(vocabulary.deep_view()), name),
        forall|a: Seq<char>, b: Seq<char>|
            a != b && #[trigger] has_key(vocabulary.deep_view(), a) && #[trigger] has_key(vocabulary.deep_view(), b)
                ==> permission_bits(a)->0 & permission_bits(b)->0 == 0,
{
    let names: Vec<String> = all_names();
    let ghost all = names.deep_view();
    proof {
        assert forall|i: int| 0 <= i < all.len() implies is_permission_name(#[trigger] all[i]) by {
            assert(all[i] == names@[i]@);
        }
        vocabulary_holds_names(all, Seq::empty(), Seq::empty());
    }
    match PermissionVocabulary::from_names(&names) {
        Ok(vocabulary) => {
            proof {
                let held = vocabulary.deep_view();
                assert forall|name: Seq<char>| #[trigger] has_key(held, name) == all.contains(name) by {
                    vocabulary_holds_names(all, Seq::empty(), name);
                }
                assert forall|name: Seq<char>| #[trigger] has_key(held, name) implies permission_bits(name) is Some by {
                    let i = all.index_of(name);
                    assert(names@[i]@ == name);
                }
                assert forall|name: Seq<char>| #[trigger] has_same_bits(names_in(held), name) by {
                    assert(has_same_bits(all, name));
                    if permission_bits(name) is Some {
                        let i = choose|i: int|
                            0 <= i < all.len() && permission_bits(#[trigger] all[i]) == permission_bits(name);
                        assert(has_key(held, all[i]));
                        let k = lookup_has_entry(held, all[i]);
                        assert(names_in(held)[k] == all[i]);
                    }
                }
                assert forall|a: Seq<char>, b: Seq<char>| a != b && #[trigger] has_key(held, a) && #[trigger] has_key(
                    held,
                    b,
                ) implies permission_bits(a)->0 & permission_bits(b)->0 == 0 by {
                    let i = all.index_of(a);
                    let j = all.index_of(b);
                    assert(names@[i]@ == a && names@[j]@ == b);
                    let x = permission_bits(a)->0;
                    let y = permission_bits(b)->0;
                    assert(x & y == y & x) by (bit_vector);
                }
            }
            vocabulary
        },
        Err(_) => vstd::pervasive::unreached(),
    }
}

/// The bits of a permission, none where it is not known by its name.
pub open spec fn known_bits(bits: Option<u64>) -> u64 {
    match bits {
        Some(bits) => bits,
        None => 0,
    }
}

/// The bits of a permission, none where it is not known by its name.
pub fn bits_of(permission: &KnownPermission) -> (bits: u64)
    ensures
        bits == known_bits(permission_bits(permission.deep_view())),
{
    match find_bits(permission.as_str()) {
        Some(bits) => bits,
        None => 0,
    }
}

/// Whether bits hold all of the given ones.
pub open spec fn holds(permissions: u64, asked: u64) -> bool {
    permissions & asked == asked
}

/// Whether bits hold a permission that is known by its name.
pub open spec fn holds_known(permissions: u64, asked: Option<u64>) -> bool {
    asked is Some && holds(permissions, asked->0)
}

/// Whether bits hold a permission that is known by its name, given its bits.
pub fn holds_bits(permissions: u64, asked: Option<u64>) -> (answer: bool)
    ensures
        answer == holds_known(permissions, asked),
{
    match asked {
        Some(asked) => permissions & asked == asked,
        None => false,
    }
}

/// Whether bits hold a permission that is known by its name.
pub fn holds_permission(permissions: u64, asked: &KnownPermission) -> (answer: bool)
    ensures
        answer == holds_known(permissions, permission_bits(asked.deep_view())),
{
    holds_bits(permissions, find_bits(asked.as_str()))
}

/// Whether permissions allow to manage roles.
pub open spec fn manages_roles(permissions: u64) -> bool {
    holds(permissions, 0x1000_0000) || holds(permissions, 0x8)
}

/// Whether permissions allow to manage channels.
pub open spec fn manages_channels(permissions: u64) -> bool {
    holds(permissions, 0x10) || holds(permissions, 0x8)
}

/// Whether permissions allow to manage roles.
pub fn has_manage_roles(permissions: u64) -> (answer: bool)
    ensures
        answer == manages_roles(permissions),
{
    let manage_roles: u64 = manage_roles_bits();
    let administrator: u64 = administrator_bits();
    permissions & manage_roles == manage_roles || permissions & administrator == administrator
}

/// Whether permissions allow to manage channels.
pub fn has_manage_channels(permissions: u64) -> (answer: bool)
    ensures
        answer == manages_channels(permissions),
{
    let manage_channels: u64 = manage_channels_bits();
    let administrator: u64 = administrator_bits();
    permissions & manage_channels == manage_channels || permissions & administrator == administrator
}

/// Whether permissions are those of an administrator, who has all of them.
pub open spec fn is_administrator(permissions: u64) -> bool {
    holds(permissions, 0x8)
}

/// Whether permissions are those of an administrator.
pub fn has_administrator(permissions: u64) -> (answer: bool)
    ensures
        answer == is_administrator(permissions),
{
    let administrator: u64 = administrator_bits();
    permissions & administrator == administrator
}

/// Every known permission that passes, with whether it is held.
pub open spec fn held_permissions(names: Seq<(Seq<char>, ())>, permissions: u64) -> Seq<(Seq<char>, bool)> {
    names.map_values(|entry: (Seq<char>, ())| (entry.0, holds_known(permissions, permission_bits(entry.0))))
}

/// Every known permission with whether it is held.
pub fn hold_permissions(names: &OrderedMap<KnownPermission, ()>, permissions: u64) -> (held: OrderedMap<
    KnownPermission,
    bool,
>)
    ensures
        held.deep_view() == held_permissions(names.deep_view(), permissions),
{
    let ghost all = names.deep_view();
    let mut held: OrderedMap<KnownPermission, bool> = OrderedMap::new();
    let mut i: usize = 0;
    assert(held.deep_view() =~= held_permissions(all.take(0), permissions));
    while i < names.len()
        invariant
            i <= all.len(),
            all == names.deep_view(),
            held.deep_view() == held_permissions(all.take(i as int), permissions),
        decreases all.len() - i,
    {
        let _n: usize = names.len();
        let permission: &KnownPermission = names.key_at(i);
        let answer: bool = holds_permission(permissions, permission);
        proof {
            put_at_end::<KnownPermission, bool>(
                held_permissions(all.take(i as int), permissions),
                all[i as int].0,
                answer,
            );
        }
        held.insert(permission.copy(), answer);
        assert(held.deep_view() =~= held_permissions(all.take(i + 1), permissions));
        i += 1;
    }
    assert(all.take(i as int) =~= all);
    held
}

/// The permissions that someone with the given ones can grant: those they have, and
/// all of them as an administrator.
pub open spec fn grantable_permissions(names: Seq<(Seq<char>, ())>, permissions: u64) -> Seq<(Seq<char>, ())>
    decreases names.len(),
{
    if names.len() == 0 {
        names
    } else if is_administrator(permissions) || holds_known(permissions, permission_bits(names.last().0)) {
        put::<KnownPermission, ()>(grantable_permissions(names.drop_last(), permissions), names.last().0, ())
    } else {
        grantable_permissions(names.drop_last(), permissions)
    }
}

/// The permissions that someone with the given ones can grant.
pub fn list_grantable(names: &OrderedMap<KnownPermission, ()>, permissions: u64) -> (grantable: OrderedMap<
    KnownPermission,
    (),
>)
    ensures
        grantable.deep_view() == grantable_permissions(names.deep_view(), permissions),
{
    let ghost all = names.deep_view();
    let mut grantable: OrderedMap<KnownPermission, ()> = OrderedMap::new();
    let mut i: usize = 0;
    assert(all.take(0) =~= Seq::empty());
    while i < names.len()
        invariant
            i <= all.len(),
            all == names.deep_view(),
            grantable.deep_view() == grantable_permissions(all.take(i as int), permissions),
        decreases all.len() - i,
    {
        let permission: &KnownPermission = names.key_at(i);
        proof {
            assert(all.take(i + 1).drop_last() =~= all.take(i as int));
            assert(all.take(i + 1).last() == all[i as int]);
        }
        if has_administrator(permissions) || holds_permission(permissions, permission) {
            grantable.insert(permission.copy(), ());
        }
        i += 1;
    }
    assert(all.take(i as int) =~= all);
    grantable
}

} // verus!
