//! What an export of the managed roles of a guild holds.

use vstd::prelude::*;

use crate::configuration::definition::RawDefinitionView;
use crate::configuration::permission::KnownPermission;
use crate::configuration::role::RawRoleDefinitionView;
use crate::configuration::state::{holder, is_injective, MappingsView, StateView};
use crate::export::laws::{
    bound_is_held, described_roles_are_written, holder_is_bound, is_written, name_is_not_reserved, roles_have_own_ids,
};
use crate::export::role::{described_role, role_name, DescribedRolesView};
use crate::ids::{everyone, RoleLogicalId};
use crate::ordered::{has_key, lookup, put_then_lookup, sorted};
use crate::port::{RoleCatalogView, RoleSnapshotView};
use crate::service::management::{earlier_roles, exported_managed_roles, with_managed_role, with_managed_roles};
use crate::service::state::TrackedView;
use crate::text::decimal;

verus! {

/// The name under which a role is written.
spec fn name_of(role: RoleSnapshotView, guild_id: u64, previous: MappingsView) -> Seq<char> {
    if role.id == guild_id {
        everyone()
    } else {
        role_name(role.id, previous)->Ok_0
    }
}

/// Whether a role is written under its name, and bound to it unless every member has it.
spec fn is_put_down(
    role: RoleSnapshotView,
    described: DescribedRolesView,
    guild_id: u64,
    previous: MappingsView,
) -> bool {
    let name = name_of(role, guild_id, previous);
    &&& lookup(described.definitions, name) == Some(described_role(role, role.id == guild_id))
    &&& role.id != guild_id ==> role_name(role.id, previous) is Ok && lookup(described.mappings, name) == Some(role.id)
}

/// Whether the first roles that can be managed are put down, and nothing else is.
spec fn are_put_down(
    roles: Seq<RoleSnapshotView>,
    i: int,
    described: DescribedRolesView,
    guild_id: u64,
    previous: MappingsView,
) -> bool {
    &&& forall|n: int|
        0 <= n < i && (#[trigger] roles[n]).manageable ==> is_put_down(roles[n], described, guild_id, previous)
    &&& forall|name: Seq<char>| #[trigger]
        has_key(described.definitions, name) ==> exists|k: int|
            0 <= k < i && (#[trigger] roles[k]).manageable && name == name_of(roles[k], guild_id, previous)
    &&& forall|name: Seq<char>| #[trigger]
        has_key(described.mappings, name) <==> has_key(described.definitions, name) && name != everyone()
}

proof fn one_more_is_put_down(
    roles: Seq<RoleSnapshotView>,
    i: int,
    described: DescribedRolesView,
    guild_id: u64,
    previous: MappingsView,
)
    requires
        0 <= i < roles.len(),
        roles_have_own_ids(roles),
        sorted::<RoleLogicalId, u64>(previous),
        !has_key(previous, everyone()),
        are_put_down(roles, i, described, guild_id, previous),
        with_managed_role(described, roles[i], guild_id, previous) is Ok,
    ensures
        are_put_down(
            roles,
            i + 1,
            with_managed_role(described, roles[i], guild_id, previous)->Ok_0,
            guild_id,
            previous,
        ),
{
    let role = roles[i];
    let after = with_managed_role(described, role, guild_id, previous)->Ok_0;
    let name = name_of(role, guild_id, previous);
    let written = described_role(role, role.id == guild_id);
    if role.manageable {
        if role.id != guild_id {
            name_is_not_reserved(role.id, previous);
        }
        assert forall|asked: Seq<char>| #[trigger] lookup(after.definitions, asked) == if asked == name {
            Some(written)
        } else {
            lookup(described.definitions, asked)
        } by {
            put_then_lookup::<RoleLogicalId, RawRoleDefinitionView>(described.definitions, name, written, asked);
        }
        assert forall|asked: Seq<char>| #[trigger] lookup(after.mappings, asked) == if asked == name && role.id
            != guild_id {
            Some(role.id)
        } else {
            lookup(described.mappings, asked)
        } by {
            put_then_lookup::<RoleLogicalId, u64>(described.mappings, name, role.id, asked);
        }
        assert forall|n: int| 0 <= n < i + 1 && (#[trigger] roles[n]).manageable implies is_put_down(
            roles[n],
            after,
            guild_id,
            previous,
        ) by {
            if n < i {
                let other = name_of(roles[n], guild_id, previous);
                assert(roles[n].id != roles[i].id);
                assert(is_put_down(roles[n], described, guild_id, previous));
                if roles[n].id != guild_id {
                    assert(has_key(described.mappings, other));
                }
                assert(other != name);
            }
        }
        assert forall|asked: Seq<char>| #[trigger] has_key(after.definitions, asked) implies exists|k: int|
            0 <= k < i + 1 && (#[trigger] roles[k]).manageable && asked == name_of(roles[k], guild_id, previous) by {
            if asked == name {
                assert(roles[i].manageable);
            } else {
                assert(has_key(described.definitions, asked));
                let k = choose|k: int|
                    0 <= k < i && (#[trigger] roles[k]).manageable && asked == name_of(roles[k], guild_id, previous);
                assert(roles[k].manageable);
            }
        }
        assert forall|asked: Seq<char>| #[trigger] has_key(after.mappings, asked) <==> has_key(
            after.definitions,
            asked,
        ) && asked != everyone() by {
            assert(has_key(described.mappings, asked) <==> has_key(described.definitions, asked) && asked
                != everyone());
            assert(has_key(after.mappings, asked) <==> lookup(after.mappings, asked) is Some);
            assert(has_key(after.definitions, asked) <==> lookup(after.definitions, asked) is Some);
        }
    } else {
        assert forall|asked: Seq<char>| #[trigger] has_key(after.definitions, asked) implies exists|k: int|
            0 <= k < i + 1 && (#[trigger] roles[k]).manageable && asked == name_of(roles[k], guild_id, previous) by {
            let k = choose|k: int|
                0 <= k < i && (#[trigger] roles[k]).manageable && asked == name_of(roles[k], guild_id, previous);
            assert(roles[k].manageable);
        }
    }
}

proof fn all_are_put_down(
    roles: Seq<RoleSnapshotView>,
    i: int,
    described: DescribedRolesView,
    guild_id: u64,
    previous: MappingsView,
)
    requires
        0 <= i <= roles.len(),
        roles_have_own_ids(roles),
        sorted::<RoleLogicalId, u64>(previous),
        !has_key(previous, everyone()),
        are_put_down(roles, i, described, guild_id, previous),
        with_managed_roles(described, roles, i, guild_id, previous) is Ok,
    ensures
        are_put_down(
            roles,
            roles.len() as int,
            with_managed_roles(described, roles, i, guild_id, previous)->Ok_0,
            guild_id,
            previous,
        ),
    decreases roles.len() - i,
{
    if i < roles.len() {
        one_more_is_put_down(roles, i, described, guild_id, previous);
        all_are_put_down(
            roles,
            i + 1,
            with_managed_role(described, roles[i], guild_id, previous)->Ok_0,
            guild_id,
            previous,
        );
    }
}

/// Whether a role is written down with all that it is, under the name it had or one that is
/// made up for it.
pub open spec fn is_exported(
    role: RoleSnapshotView,
    guild_id: u64,
    definition: RawDefinitionView,
    state: StateView,
    earlier: MappingsView,
) -> bool {
    if role.id == guild_id {
        has_key(definition.roles, everyone()) && is_written(lookup(definition.roles, everyone())->0, role, true)
    } else {
        exists|name: Seq<char>| #[trigger]
            lookup(state.roles, name) == Some(role.id) && has_key(definition.roles, name) && is_written(
                lookup(definition.roles, name)->0,
                role,
                false,
            ) && ((forall|other: Seq<char>| #[trigger] lookup(earlier, other) != Some(role.id)) ==> name == "role_"@
                + decimal(role.id as nat)) && (forall|other: Seq<char>| #[trigger]
                lookup(earlier, other) == Some(role.id) ==> other == name)
    }
}

/// What was exported of the managed roles of a guild holds each of them with its name, its
/// color, its marks and what it grants, bound to it, under the name that it had before or one
/// that is made up for it. Nothing else is declared or bound.
pub proof fn exported_roles_hold_the_managed(
    catalog: RoleCatalogView,
    guild_id: u64,
    previous: Option<TrackedView>,
    n: int,
    declared: Seq<char>,
)
    requires
        roles_have_own_ids(catalog.roles),
        previous is Some ==> previous->0.bindings.is_sound() && sorted::<RoleLogicalId, u64>(
            previous->0.bindings.roles,
        ),
        exported_managed_roles(catalog, guild_id, previous) is Ok,
        0 <= n < catalog.roles.len(),
        sorted::<KnownPermission, bool>(catalog.roles[n].permissions),
    ensures
        ({
            let (definition, state) = exported_managed_roles(catalog, guild_id, previous)->Ok_0;
            let earlier = match previous {
                Some(state) => state.bindings.roles,
                None => Seq::empty(),
            };
            let role = catalog.roles[n];
            &&& role.manageable ==> is_exported(role, guild_id, definition, state, earlier)
            &&& has_key(definition.roles, declared) ==> exists|k: int|
                0 <= k < catalog.roles.len() && (#[trigger] catalog.roles[k]).manageable && if declared == everyone() {
                    catalog.roles[k].id == guild_id
                } else {
                    lookup(state.roles, declared) == Some(catalog.roles[k].id)
                }
            &&& has_key(state.roles, declared) <==> has_key(definition.roles, declared) && declared != everyone()
            &&& state.guild_id == guild_id
            &&& state.channels.len() == 0
            &&& state.members.len() == 0
            &&& definition.order is None
        }),
{
    let roles = catalog.roles;
    let role = roles[n];
    let earlier = earlier_roles(previous);
    let given = match previous {
        Some(state) => state.bindings.roles,
        None => Seq::empty(),
    };
    assert(given =~= earlier);
    assert(!has_key(earlier, everyone()));
    assert(is_injective(earlier));
    let none = DescribedRolesView { definitions: Seq::empty(), mappings: Seq::empty() };
    assert forall|name: Seq<char>| !(#[trigger] has_key(none.definitions, name)) && !has_key(none.mappings, name) by {
        assert(lookup(none.definitions, name) is None);
        assert(lookup(none.mappings, name) is None);
    }
    assert(are_put_down(roles, 0, none, guild_id, earlier));
    all_are_put_down(roles, 0, none, guild_id, earlier);
    let described = with_managed_roles(none, roles, 0, guild_id, earlier)->Ok_0;
    let (definition, state) = exported_managed_roles(catalog, guild_id, previous)->Ok_0;
    if role.manageable {
        assert(is_put_down(role, described, guild_id, earlier));
        described_roles_are_written(role, role.id == guild_id);
        if role.id != guild_id {
            let name = name_of(role, guild_id, earlier);
            assert forall|other: Seq<char>| #[trigger] lookup(given, other) == Some(role.id) implies other == name by {
                bound_is_held(earlier, other, role.id);
            }
            if forall|other: Seq<char>| #[trigger] lookup(given, other) != Some(role.id) {
                if holder(earlier, role.id) is Some {
                    holder_is_bound(earlier, role.id);
                    assert(lookup(given, holder(earlier, role.id)->0) == Some(role.id));
                }
            }
            assert(lookup(state.roles, name) == Some(role.id));
        }
        assert(is_exported(role, guild_id, definition, state, given));
    }
    if has_key(definition.roles, declared) {
        let k = choose|k: int|
            0 <= k < roles.len() && (#[trigger] roles[k]).manageable && declared == name_of(roles[k], guild_id, earlier);
        assert(is_put_down(roles[k], described, guild_id, earlier));
        if roles[k].id != guild_id {
            name_is_not_reserved(roles[k].id, earlier);
        }
        assert(catalog.roles[k].manageable);
    }
    assert(has_key(described.mappings, declared) <==> has_key(described.definitions, declared) && declared
        != everyone());
    assert(definition.order is None);
}

} // verus!
