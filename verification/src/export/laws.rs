//! What was exported describes the guild: it is accepted, and asks for no change.

use vstd::prelude::*;
use vstd::string::*;

use crate::configuration::channel::{
    silent_attributes, MemberDefinition, RawChannelDefinition, RawChannelDefinitionView,
};
use crate::configuration::definition::{parsed_roles, DefinitionView, RawDefinitionView};
use crate::configuration::input::{plan_input, references_fault, role_reference_fault};
use crate::configuration::order::{order_role_fault, order_roles_fault};
use crate::configuration::permission::{first_unknown, KnownPermission};
use crate::configuration::report::{entry, part, silent_entries, Reported};
use crate::configuration::role::{
    managed, ManagedValue, RawRoleDefinition, RawRoleDefinitionView, RoleAttributesView, RoleDefinitionView, RoleEnsure,
    RoleMode,
};
use crate::configuration::state::{
    bound_role_keeps_sound, entry_has_holder, holder, holder_has_entry, is_injective, role_id_of,
    sound_states_are_accepted, MappingsView, StateView,
};
use crate::configuration::validation::first_repeated;
use crate::domain::{ErrorView, SCHEMA_VERSION};
use crate::export::role::{
    described_name, described_names, described_role, described_roles, earlier_state, exported_roles, generated_name,
    granted, has_role, lost_role, referenced_role, role_name, with_role, DescribedRolesView,
};
use crate::ids::{everyone, RoleLogicalId};
use crate::ordered::{
    entry_is_found, first_in_none, has_key, lookup, lookup_has_entry, lookup_in_sorted, put, put_keeps_sorted,
    put_then_lookup, sorted,
};
use crate::port::{RoleCatalogView, RoleSnapshotView};
use crate::resource::role::attributes::{composed, with_sets};
use crate::resource::role::effects::bound_to;
use crate::resource::role::laws::{has_wanted, is_as_wanted, roles_as_wanted_do_not_change};
use crate::resource::role::order::{
    immovable_roles, named_roles, referenced_roles, role_order, role_places, role_with_id, NamedRolesView,
};
use crate::resource::role::plan::{role_plan, role_step, with_declared, with_released, PlanView, RoleStepView};
use crate::service::management::{earlier_roles, exported_managed_roles, with_managed_role, with_managed_roles};
use crate::service::plan::{
    permission_names_fault, tracked_plan, unknown_fault, with_attributes, with_permissions, AttributeChangeView,
    RolePlanView,
};
use crate::service::state::{removed_references_fault, tracked_input, TrackedView};
use crate::resource::sorting::{asked_for, in_places, order_in_place_stays, sorting_holds_the_same};

verus! {

/// Whether what is written of a role that the bot can manage can be read again: its name
/// has a length that is allowed, and each permission that is written is known, with a
/// default. Of the role that every member has all permissions are written, of others
/// those that are granted.
pub open spec fn is_proper_role(
    role: RoleSnapshotView,
    guild_id: u64,
    defaults: Seq<(Seq<char>, bool)>,
    known: Seq<(Seq<char>, ())>,
) -> bool {
    &&& role.id != guild_id ==> 1 <= role.name.len() <= 100
    &&& sorted::<KnownPermission, bool>(role.permissions)
    &&& forall|k: int|
        0 <= k < role.permissions.len() && (role.id == guild_id || (#[trigger] role.permissions[k]).1) ==> has_key(
            defaults,
            role.permissions[k].0,
        ) && has_key(known, role.permissions[k].0)
}

/// Whether each role that the bot can manage is proper.
pub open spec fn is_proper_catalog(catalog: RoleCatalogView, guild_id: u64, known: Seq<(Seq<char>, ())>) -> bool {
    forall|i: int|
        0 <= i < catalog.roles.len() && (#[trigger] catalog.roles[i]).manageable ==> is_proper_role(
            catalog.roles[i],
            guild_id,
            catalog.default_permissions,
            known,
        )
}

/// Whether no two roles have one identifier.
pub open spec fn roles_have_own_ids(roles: Seq<RoleSnapshotView>) -> bool {
    forall|i: int, j: int| 0 <= i < j < roles.len() ==> (#[trigger] roles[i]).id != (#[trigger] roles[j]).id
}

/// Whether no role is described: the bot can manage none, and none was bound before.
pub open spec fn describes_no_role(roles: Seq<RoleSnapshotView>, previous: MappingsView) -> bool {
    forall|i: int|
        0 <= i < roles.len() ==> !(#[trigger] roles[i]).manageable && holder(previous, roles[i].id) is None
}

/// Whether no role that the bot can manage has the identifier of one that is listed behind it.
pub open spec fn managed_have_own_ids(roles: Seq<RoleSnapshotView>) -> bool {
    forall|i: int, j: int|
        0 <= i < j < roles.len() && (#[trigger] roles[i]).manageable ==> roles[i].id != (#[trigger] roles[j]).id
}

/// Whether a state is one that an earlier export or bind can have left.
pub open spec fn is_earlier_state(state: StateView, guild_id: u64) -> bool {
    &&& state.is_sound()
    &&& state.guild_id == guild_id
    &&& sorted::<RoleLogicalId, u64>(state.roles)
}

/// Whether a written role describes a role of the guild.
spec fn describes(
    role: RoleSnapshotView,
    name: Seq<char>,
    definition: RawRoleDefinitionView,
    mappings: MappingsView,
    guild_id: u64,
    previous: MappingsView,
) -> bool {
    ||| role.manageable && role.id == guild_id && name == everyone() && definition == described_role(role, true)
    ||| role.manageable && role.id != guild_id && role_name(role.id, previous) == Ok::<Seq<char>, ErrorView>(name)
        && definition == described_role(role, false) && lookup(mappings, name) == Some(role.id)
    ||| !role.manageable && holder(previous, role.id) == Some(name) && definition == referenced_role() && lookup(
        mappings,
        name,
    ) == Some(role.id)
}

/// Whether a role of the guild is described, where it should be.
spec fn is_described(role: RoleSnapshotView, described: DescribedRolesView, guild_id: u64, previous: MappingsView) -> bool {
    if !role.manageable {
        holder(previous, role.id) is Some ==> has_key(described.definitions, holder(previous, role.id)->0)
    } else if role.id == guild_id {
        has_key(described.definitions, everyone())
    } else {
        let name = role_name(role.id, previous);
        name is Ok && has_key(described.definitions, name->Ok_0) && lookup(described.mappings, name->Ok_0) == Some(
            role.id,
        )
    }
}

/// What holds of the written roles once the first roles were described.
spec fn is_faithful(
    described: DescribedRolesView,
    roles: Seq<RoleSnapshotView>,
    n: int,
    guild_id: u64,
    previous: MappingsView,
) -> bool {
    &&& sorted::<RoleLogicalId, RawRoleDefinitionView>(described.definitions)
    &&& sorted::<RoleLogicalId, u64>(described.mappings)
    &&& state_of(guild_id, described.mappings).is_sound()
    &&& forall|name: Seq<char>|
        lookup(previous, name) is Some ==> #[trigger] lookup(described.mappings, name) == lookup(previous, name)
    &&& forall|name: Seq<char>|
        (#[trigger] lookup(described.definitions, name)) is Some ==> exists|k: int|
            0 <= k < n && describes(
                #[trigger] roles[k],
                name,
                lookup(described.definitions, name)->0,
                described.mappings,
                guild_id,
                previous,
            )
    &&& forall|k: int| 0 <= k < n ==> is_described(#[trigger] roles[k], described, guild_id, previous)
    &&& forall|name: Seq<char>|
        (#[trigger] lookup(described.mappings, name)) is Some && lookup(previous, name) is None ==> exists|k: int|
            0 <= k < n && (#[trigger] roles[k]).id == lookup(described.mappings, name)->0 && roles[k].manageable
                && roles[k].id != guild_id && role_name(roles[k].id, previous) == Ok::<Seq<char>, ErrorView>(name)
}

spec fn state_of(guild_id: u64, mappings: MappingsView) -> StateView {
    StateView {
        schema_version: SCHEMA_VERSION,
        guild_id,
        roles: mappings,
        channels: Seq::empty(),
        members: Seq::empty(),
    }
}

pub(crate) proof fn holder_is_bound(mappings: MappingsView, id: u64)
    requires
        sorted::<RoleLogicalId, u64>(mappings),
        holder(mappings, id) is Some,
    ensures
        lookup(mappings, holder(mappings, id)->0) == Some(id),
{
    let i = holder_has_entry(mappings, id);
    lookup_in_sorted::<RoleLogicalId, u64>(mappings, i);
}

pub(crate) proof fn bound_is_held(mappings: MappingsView, name: Seq<char>, id: u64)
    requires
        is_injective(mappings),
        lookup(mappings, name) == Some(id),
    ensures
        holder(mappings, id) == Some(name),
{
    let k = lookup_has_entry(mappings, name);
    entry_has_holder(mappings, k);
    let j = holder_has_entry(mappings, id);
    if j != k {
        if j < k {
            assert(mappings[j].1 != mappings[k].1);
        } else {
            assert(mappings[k].1 != mappings[j].1);
        }
    }
}

pub(crate) proof fn name_is_not_reserved(id: u64, previous: MappingsView)
    requires
        sorted::<RoleLogicalId, u64>(previous),
        !has_key(previous, everyone()),
        role_name(id, previous) is Ok,
    ensures
        role_name(id, previous)->Ok_0 != everyone(),
        holder(previous, id) is Some ==> lookup(previous, role_name(id, previous)->Ok_0) == Some(id),
        holder(previous, id) is None ==> lookup(previous, role_name(id, previous)->Ok_0) is None,
{
    if holder(previous, id) is Some {
        holder_is_bound(previous, id);
    } else {
        reveal_strlit("role_");
        reveal_strlit("everyone");
        assert(generated_name("role_"@, id)[0] == 'r');
        assert(everyone()[0] == 'e');
    }
}

proof fn describing_is_faithful(
    described: DescribedRolesView,
    roles: Seq<RoleSnapshotView>,
    n: int,
    guild_id: u64,
    previous: MappingsView,
)
    requires
        0 <= n < roles.len(),
        forall|i: int, j: int| 0 <= i < j < roles.len() ==> (#[trigger] roles[i]).id != (#[trigger] roles[j]).id,
        is_earlier_state(state_of(guild_id, previous), guild_id),
        is_faithful(described, roles, n, guild_id, previous),
        with_role(described, roles[n], guild_id, previous) is Ok,
    ensures
        is_faithful(
            with_role(described, roles[n], guild_id, previous)->Ok_0,
            roles,
            n + 1,
            guild_id,
            previous,
        ),
{
    let role = roles[n];
    let after = with_role(described, role, guild_id, previous)->Ok_0;
    if !role.manageable {
        if let Some(name) = holder(previous, role.id) {
            holder_is_bound(previous, role.id);
            put_keeps_sorted::<RoleLogicalId, RawRoleDefinitionView>(described.definitions, name, referenced_role());
            faithful_after_put(described, after, roles, n, guild_id, previous, name, referenced_role());
        } else {
            faithful_unchanged(described, roles, n, guild_id, previous);
        }
    } else if role.id == guild_id {
        put_keeps_sorted::<RoleLogicalId, RawRoleDefinitionView>(
            described.definitions,
            everyone(),
            described_role(role, true),
        );
        faithful_after_put(
            described,
            after,
            roles,
            n,
            guild_id,
            previous,
            everyone(),
            described_role(role, true),
        );
    } else {
        let name = role_name(role.id, previous)->Ok_0;
        name_is_not_reserved(role.id, previous);
        put_keeps_sorted::<RoleLogicalId, RawRoleDefinitionView>(
            described.definitions,
            name,
            described_role(role, false),
        );
        put_keeps_sorted::<RoleLogicalId, u64>(described.mappings, name, role.id);
        if let Some(other) = holder(described.mappings, role.id) {
            holder_is_bound(described.mappings, role.id);
            if lookup(previous, other) is Some {
                bound_is_held(previous, other, role.id);
            } else {
                let k = choose|k: int|
                    0 <= k < n && (#[trigger] roles[k]).id == lookup(described.mappings, other)->0
                        && roles[k].manageable && roles[k].id != guild_id && role_name(roles[k].id, previous) == Ok::<
                        Seq<char>,
                        ErrorView,
                    >(other);
                assert(roles[k].id != roles[n].id);
            }
        }
        bound_role_keeps_sound(state_of(guild_id, described.mappings), name, role.id);
        put_then_lookup::<RoleLogicalId, u64>(described.mappings, name, role.id, name);
        faithful_after_put(
            described,
            after,
            roles,
            n,
            guild_id,
            previous,
            name,
            described_role(role, false),
        );
    }
}

proof fn faithful_unchanged(
    described: DescribedRolesView,
    roles: Seq<RoleSnapshotView>,
    n: int,
    guild_id: u64,
    previous: MappingsView,
)
    requires
        0 <= n < roles.len(),
        is_faithful(described, roles, n, guild_id, previous),
        is_described(roles[n], described, guild_id, previous),
    ensures
        is_faithful(described, roles, n + 1, guild_id, previous),
{
    assert forall|name: Seq<char>| (#[trigger] lookup(described.definitions, name)) is Some implies exists|k: int|
        0 <= k < n + 1 && describes(
            #[trigger] roles[k],
            name,
            lookup(described.definitions, name)->0,
            described.mappings,
            guild_id,
            previous,
        ) by {
        let k = choose|k: int|
            0 <= k < n && describes(
                #[trigger] roles[k],
                name,
                lookup(described.definitions, name)->0,
                described.mappings,
                guild_id,
                previous,
            );
        assert(0 <= k < n + 1);
    }
    assert forall|name: Seq<char>|
        (#[trigger] lookup(described.mappings, name)) is Some && lookup(previous, name) is None implies exists|k: int|
        0 <= k < n + 1 && (#[trigger] roles[k]).id == lookup(described.mappings, name)->0 && roles[k].manageable
            && roles[k].id != guild_id && role_name(roles[k].id, previous) == Ok::<Seq<char>, ErrorView>(name) by {
        let k = choose|k: int|
            0 <= k < n && (#[trigger] roles[k]).id == lookup(described.mappings, name)->0 && roles[k].manageable
                && roles[k].id != guild_id && role_name(roles[k].id, previous) == Ok::<Seq<char>, ErrorView>(name);
        assert(0 <= k < n + 1);
    }
}

proof fn faithful_after_put(
    described: DescribedRolesView,
    after: DescribedRolesView,
    roles: Seq<RoleSnapshotView>,
    n: int,
    guild_id: u64,
    previous: MappingsView,
    name: Seq<char>,
    definition: RawRoleDefinitionView,
)
    requires
        0 <= n < roles.len(),
        is_faithful(described, roles, n, guild_id, previous),
        after.definitions == put::<RoleLogicalId, RawRoleDefinitionView>(described.definitions, name, definition),
        sorted::<RoleLogicalId, RawRoleDefinitionView>(after.definitions),
        after.mappings == described.mappings || (after.mappings == put::<RoleLogicalId, u64>(
            described.mappings,
            name,
            roles[n].id,
        ) && (lookup(described.mappings, name) is None || lookup(described.mappings, name) == Some(roles[n].id))
            && roles[n].manageable && roles[n].id != guild_id && role_name(roles[n].id, previous) == Ok::<
            Seq<char>,
            ErrorView,
        >(name) && (lookup(previous, name) is None || lookup(previous, name) == Some(roles[n].id))),
        sorted::<RoleLogicalId, u64>(after.mappings),
        state_of(guild_id, after.mappings).is_sound(),
        describes(roles[n], name, definition, after.mappings, guild_id, previous),
    ensures
        is_faithful(after, roles, n + 1, guild_id, previous),
{
    assert forall|other: Seq<char>| #[trigger] lookup(after.mappings, other) == (if after.mappings
        == described.mappings || other != name {
        lookup(described.mappings, other)
    } else {
        Some(roles[n].id)
    }) by {
        put_then_lookup::<RoleLogicalId, u64>(described.mappings, name, roles[n].id, other);
    }
    assert forall|other: Seq<char>| #[trigger] lookup(after.definitions, other) == (if other == name {
        Some(definition)
    } else {
        lookup(described.definitions, other)
    }) by {
        put_then_lookup::<RoleLogicalId, RawRoleDefinitionView>(described.definitions, name, definition, other);
    }
    assert forall|other: Seq<char>| lookup(previous, other) is Some implies #[trigger] lookup(after.mappings, other)
        == lookup(previous, other) by {
        assert(lookup(described.mappings, other) == lookup(previous, other));
    }
    assert forall|other: Seq<char>| (#[trigger] lookup(after.definitions, other)) is Some implies exists|k: int|
        0 <= k < n + 1 && describes(
            #[trigger] roles[k],
            other,
            lookup(after.definitions, other)->0,
            after.mappings,
            guild_id,
            previous,
        ) by {
        if other == name {
            assert(describes(roles[n], other, lookup(after.definitions, other)->0, after.mappings, guild_id, previous));
        } else {
            assert(lookup(described.definitions, other) is Some);
            let k = choose|k: int|
                0 <= k < n && describes(
                    #[trigger] roles[k],
                    other,
                    lookup(described.definitions, other)->0,
                    described.mappings,
                    guild_id,
                    previous,
                );
            assert(lookup(after.mappings, other) == lookup(described.mappings, other));
            assert(describes(roles[k], other, lookup(after.definitions, other)->0, after.mappings, guild_id, previous));
        }
    }
    assert forall|k: int| 0 <= k < n + 1 implies is_described(#[trigger] roles[k], after, guild_id, previous) by {
        if k < n {
            assert(is_described(roles[k], described, guild_id, previous));
            let role = roles[k];
            if role.manageable && role.id != guild_id {
                let own = role_name(role.id, previous)->Ok_0;
                assert(lookup(after.mappings, own) == lookup(described.mappings, own));
                assert(lookup(after.definitions, own) is Some);
            } else if role.manageable {
                assert(lookup(after.definitions, everyone()) is Some);
            } else if let Some(own) = holder(previous, role.id) {
                assert(lookup(after.definitions, own) is Some);
            }
        } else {
            assert(lookup(after.definitions, name) is Some);
        }
    }
    assert forall|other: Seq<char>|
        (#[trigger] lookup(after.mappings, other)) is Some && lookup(previous, other) is None implies exists|k: int|
        0 <= k < n + 1 && (#[trigger] roles[k]).id == lookup(after.mappings, other)->0 && roles[k].manageable
            && roles[k].id != guild_id && role_name(roles[k].id, previous) == Ok::<Seq<char>, ErrorView>(other) by {
        if after.mappings != described.mappings && other == name {
            assert(roles[n].id == lookup(after.mappings, other)->0);
        } else {
            assert(lookup(described.mappings, other) is Some);
            let k = choose|k: int|
                0 <= k < n && (#[trigger] roles[k]).id == lookup(described.mappings, other)->0 && roles[k].manageable
                    && roles[k].id != guild_id && role_name(roles[k].id, previous) == Ok::<Seq<char>, ErrorView>(
                    other,
                );
            assert(roles[k].id == lookup(after.mappings, other)->0);
        }
    }
}

proof fn described_roles_are_faithful(roles: Seq<RoleSnapshotView>, n: int, guild_id: u64, previous: MappingsView)
    requires
        0 <= n <= roles.len(),
        forall|i: int, j: int| 0 <= i < j < roles.len() ==> (#[trigger] roles[i]).id != (#[trigger] roles[j]).id,
        is_earlier_state(state_of(guild_id, previous), guild_id),
        described_roles(roles.take(n), guild_id, previous) is Ok,
    ensures
        is_faithful(described_roles(roles.take(n), guild_id, previous)->Ok_0, roles, n, guild_id, previous),
    decreases n,
{
    if n > 0 {
        assert(roles.take(n).drop_last() =~= roles.take(n - 1));
        assert(roles.take(n).last() == roles[n - 1]);
        described_roles_are_faithful(roles, n - 1, guild_id, previous);
        let described = described_roles(roles.take(n - 1), guild_id, previous)->Ok_0;
        describing_is_faithful(described, roles, n - 1, guild_id, previous);
    } else {
        assert(roles.take(0) =~= Seq::empty());
    }
}

/// What a written role that describes one means.
pub open spec fn meaning(definition: RawRoleDefinitionView) -> RoleDefinitionView {
    if definition.mode == RoleMode::Reference {
        RoleDefinitionView::Reference
    } else {
        RoleDefinitionView::Managed {
            settings_sets: definition.settings_sets,
            attributes: definition.attributes,
        }
    }
}

/// What written roles that describe the guild mean.
pub open spec fn meanings(definitions: Seq<(Seq<char>, RawRoleDefinitionView)>) -> Seq<(Seq<char>, RoleDefinitionView)> {
    definitions.map_values(|entry: (Seq<char>, RawRoleDefinitionView)| (entry.0, meaning(entry.1)))
}

/// Whether a written role can be read.
pub open spec fn is_readable(definition: RawRoleDefinitionView, known: Seq<(Seq<char>, ())>) -> bool {
    &&& definition.ensure == RoleEnsure::Present
    &&& definition.settings_sets.len() == 0
    &&& definition.mode == RoleMode::Reference ==> definition.attributes.is_empty()
    &&& first_unknown(definition.attributes.permissions, known) is None
    &&& definition.attributes.name_fault() is None
}

/// Nothing is said of a written definition whose parts break no rule.
pub(crate) proof fn nothing_is_said(written: RawDefinitionView)
    requires
        written.schema_version == SCHEMA_VERSION,
        written.settings_sets.role.len() == 0,
        written.settings_sets.channel.len() == 0,
        written.message_sets.len() == 0,
        written.threads.len() == 0,
        forall|i: int| 0 <= i < written.roles.len() ==> (#[trigger] written.roles[i]).1.attributes.name_fault() is None,
        forall|i: int| 0 <= i < written.channels.len() ==> (#[trigger] written.channels[i]).1.attributes.breaks_nothing(),
        forall|i: int| 0 <= i < written.members.len() ==> (#[trigger] written.members[i]).1 == RoleMode::Reference,
        written.order is Some ==> written.order->0.report("order"@).len() == 0,
    ensures
        written.report().len() == 0,
{
    silent_entries(
        "roles"@,
        written.roles,
        0,
        |role: RawRoleDefinitionView, place: Seq<char>| RawRoleDefinition::said(role, place),
    );
    assert forall|i: int| 0 <= i < written.channels.len() implies RawChannelDefinition::said(
        (#[trigger] written.channels[i]).1,
        entry("channels"@, i),
    ).len() == 0 by {
        silent_attributes(written.channels[i].1.attributes, part(entry("channels"@, i), "attributes"@));
    }
    silent_entries(
        "channels"@,
        written.channels,
        0,
        |channel: RawChannelDefinitionView, place: Seq<char>| RawChannelDefinition::said(channel, place),
    );
    silent_entries(
        "members"@,
        written.members,
        0,
        |mode: RoleMode, place: Seq<char>| MemberDefinition::said(mode, place),
    );
}

pub(crate) proof fn readable_roles_are_read(
    definitions: Seq<(Seq<char>, RawRoleDefinitionView)>,
    known: Seq<(Seq<char>, ())>,
    parsed: Seq<(Seq<char>, RoleDefinitionView)>,
)
    requires
        forall|i: int| 0 <= i < definitions.len() ==> is_readable((#[trigger] definitions[i]).1, known),
    ensures
        parsed_roles(definitions, Seq::empty(), known, parsed) == Ok::<Seq<(Seq<char>, RoleDefinitionView)>, ErrorView>(
            parsed + meanings(definitions),
        ),
    decreases definitions.len(),
{
    if definitions.len() > 0 {
        let rest = definitions.drop_first();
        assert(is_readable(definitions[0].1, known));
        assert forall|i: int| 0 <= i < rest.len() implies is_readable((#[trigger] rest[i]).1, known) by {
            assert(rest[i] == definitions[i + 1]);
        }
        let first = (definitions[0].0, meaning(definitions[0].1));
        readable_roles_are_read(rest, known, parsed.push(first));
        assert(parsed.push(first) + meanings(rest) =~= parsed + meanings(definitions));
    } else {
        assert(parsed + meanings(definitions) =~= parsed);
    }
}

pub(crate) proof fn meanings_are_found(definitions: Seq<(Seq<char>, RawRoleDefinitionView)>, name: Seq<char>)
    ensures
        lookup(meanings(definitions), name) == match lookup(definitions, name) {
            Some(definition) => Some(meaning(definition)),
            None => None,
        },
    decreases definitions.len(),
{
    if definitions.len() > 0 {
        meanings_are_found(definitions.drop_first(), name);
        assert(meanings(definitions).drop_first() =~= meanings(definitions.drop_first()));
    }
}

proof fn granted_are_held(permissions: Seq<(Seq<char>, bool)>, i: int)
    requires
        0 <= i < granted(permissions).len(),
    ensures
        permissions.contains(granted(permissions)[i]),
        granted(permissions)[i].1,
    decreases permissions.len(),
{
    let rest = granted(permissions.drop_last());
    if i < rest.len() {
        granted_are_held(permissions.drop_last(), i);
        let j = permissions.drop_last().index_of(rest[i]);
        assert(permissions[j] == granted(permissions)[i]);
    } else {
        assert(granted(permissions)[i] == permissions.last());
    }
}

proof fn known_names_are_known(values: Seq<(Seq<char>, ManagedValue<bool>)>, known: Seq<(Seq<char>, ())>)
    requires
        forall|i: int| 0 <= i < values.len() ==> has_key(known, (#[trigger] values[i]).0),
    ensures
        first_unknown(values, known) is None,
    decreases values.len(),
{
    if values.len() > 0 {
        assert(has_key(known, values[0].0));
        let rest = values.drop_first();
        assert forall|i: int| 0 <= i < rest.len() implies has_key(known, (#[trigger] rest[i]).0) by {
            assert(rest[i] == values[i + 1]);
        }
        known_names_are_known(rest, known);
    }
}

/// Whether wanted permissions are those of a role.
spec fn are_values_of(
    values: Seq<(Seq<char>, ManagedValue<bool>)>,
    permissions: Seq<(Seq<char>, bool)>,
    is_everyone: bool,
) -> bool {
    forall|i: int|
        0 <= i < values.len() ==> exists|j: int|
            0 <= j < permissions.len() && (#[trigger] permissions[j]).0 == (#[trigger] values[i]).0 && values[i].1
                == ManagedValue::Value(permissions[j].1) && (is_everyone || permissions[j].1)
}

proof fn described_permissions_are_held(role: RoleSnapshotView, is_everyone: bool)
    ensures
        are_values_of(described_role(role, is_everyone).attributes.permissions, role.permissions, is_everyone),
{
    let values = described_role(role, is_everyone).attributes.permissions;
    let held = role.permissions;
    assert forall|i: int| 0 <= i < values.len() implies exists|j: int|
        0 <= j < held.len() && (#[trigger] held[j]).0 == (#[trigger] values[i]).0 && values[i].1
            == ManagedValue::Value(held[j].1) && (is_everyone || held[j].1) by {
        if is_everyone {
            assert(held[i].0 == values[i].0);
        } else {
            granted_are_held(held, i);
            let j = held.index_of(granted(held)[i]);
            assert(held[j].0 == values[i].0);
        }
    }
}

proof fn put_all_entry(
    entries: Seq<(Seq<char>, ManagedValue<bool>)>,
    more: Seq<(Seq<char>, ManagedValue<bool>)>,
    i: int,
)
    requires
        0 <= i < crate::ordered::put_all::<KnownPermission, ManagedValue<bool>>(entries, more).len(),
    ensures
        ({
            let all = crate::ordered::put_all::<KnownPermission, ManagedValue<bool>>(entries, more);
            entries.contains(all[i]) || more.contains(all[i])
        }),
    decreases more.len(),
{
    let all = crate::ordered::put_all::<KnownPermission, ManagedValue<bool>>(entries, more);
    if more.len() > 0 {
        let next = put::<KnownPermission, ManagedValue<bool>>(entries, more[0].0, more[0].1);
        put_all_entry(next, more.drop_first(), i);
        if more.drop_first().contains(all[i]) {
            let j = more.drop_first().index_of(all[i]);
            assert(more[j + 1] == all[i]);
        } else {
            let j = next.index_of(all[i]);
            crate::ordered::put_entry::<KnownPermission, ManagedValue<bool>>(entries, more[0].0, more[0].1, j);
            if all[i] == (more[0].0, more[0].1) {
                assert(more[0] == all[i]);
            }
        }
    }
}

proof fn held_permissions_are_wanted(
    values: Seq<(Seq<char>, ManagedValue<bool>)>,
    role: RoleSnapshotView,
    guild_id: u64,
    defaults: Seq<(Seq<char>, bool)>,
    known: Seq<(Seq<char>, ())>,
)
    requires
        is_proper_role(role, guild_id, defaults, known),
        are_values_of(values, role.permissions, role.id == guild_id),
    ensures
        has_wanted(
            crate::ordered::put_all::<KnownPermission, ManagedValue<bool>>(Seq::empty(), values),
            role.permissions,
            defaults,
        ),
        first_unknown(values, known) is None,
{
    let wanted = crate::ordered::put_all::<KnownPermission, ManagedValue<bool>>(Seq::empty(), values);
    let held = role.permissions;
    assert forall|k: int| 0 <= k < wanted.len() implies {
        &&& lookup(defaults, (#[trigger] wanted[k]).0) is Some
        &&& lookup(held, wanted[k].0) == Some(managed(wanted[k].1, lookup(defaults, wanted[k].0)->0))
    } by {
        put_all_entry(Seq::empty(), values, k);
        let i = values.index_of(wanted[k]);
        assert(values[i] == wanted[k]);
        let j = choose|j: int|
            0 <= j < held.len() && (#[trigger] held[j]).0 == values[i].0 && values[i].1 == ManagedValue::Value(
                held[j].1,
            ) && (role.id == guild_id || held[j].1);
        lookup_in_sorted::<KnownPermission, bool>(held, j);
        assert(has_key(defaults, held[j].0));
    }
    assert forall|i: int| 0 <= i < values.len() implies has_key(known, (#[trigger] values[i]).0) by {
        let j = choose|j: int|
            0 <= j < held.len() && (#[trigger] held[j]).0 == values[i].0 && values[i].1 == ManagedValue::Value(
                held[j].1,
            ) && (role.id == guild_id || held[j].1);
        assert(has_key(known, held[j].0));
    }
    known_names_are_known(values, known);
}

proof fn role_is_found(roles: Seq<RoleSnapshotView>, k: int)
    requires
        0 <= k < roles.len(),
        forall|j: int| k < j < roles.len() ==> (#[trigger] roles[j]).id != roles[k].id,
    ensures
        role_with_id(roles, roles[k].id) == Some(roles[k]),
    decreases roles.len(),
{
    let last = roles.len() - 1;
    if k < last {
        let front = roles.drop_last();
        assert(roles[last].id != roles[k].id);
        assert forall|j: int| k < j < front.len() implies (#[trigger] front[j]).id != front[k].id by {
            assert(roles[j].id != roles[k].id);
        }
        role_is_found(front, k);
    }
}

/// What is asked of a role that is described: it can be read, and it is as it is wanted.
proof fn a_described_role_is_as_wanted(
    catalog: RoleCatalogView,
    k: int,
    name: Seq<char>,
    written: RawRoleDefinitionView,
    mappings: MappingsView,
    guild_id: u64,
    previous: MappingsView,
    known: Seq<(Seq<char>, ())>,
    sets: Seq<(Seq<char>, RoleAttributesView)>,
    state: StateView,
)
    requires
        is_proper_catalog(catalog, guild_id, known),
        0 <= k < catalog.roles.len(),
        forall|j: int| k < j < catalog.roles.len() ==> (#[trigger] catalog.roles[j]).id != catalog.roles[k].id,
        describes(catalog.roles[k], name, written, mappings, guild_id, previous),
        !has_key(mappings, everyone()),
        state.guild_id == guild_id,
        state.roles == mappings,
    ensures
        is_readable(written, known),
        role_id_of(state, name) == Some(catalog.roles[k].id),
        role_with_id(catalog.roles, catalog.roles[k].id) == Some(catalog.roles[k]),
        is_as_wanted(catalog.roles[k], composed(meaning(written), sets), catalog.default_permissions),
        name == everyone() ==> !composed(meaning(written), sets).has_non_permission_attributes(),
        meaning(written) is Reference ==> has_key(mappings, name),
        meaning(written) is Managed ==> catalog.roles[k].manageable,
{
    let role = catalog.roles[k];
    role_is_found(catalog.roles, k);
    let desired = composed(meaning(written), sets);
    let none = RoleAttributesView::none();
    assert(with_sets(none, Seq::<Seq<char>>::empty(), sets, 0) == none);
    if role.manageable {
        let is_everyone = role.id == guild_id;
        assert(is_proper_role(role, guild_id, catalog.default_permissions, known));
        described_permissions_are_held(role, is_everyone);
        held_permissions_are_wanted(
            written.attributes.permissions,
            role,
            guild_id,
            catalog.default_permissions,
            known,
        );
        assert(written.settings_sets =~= Seq::<Seq<char>>::empty());
    } else {
        assert(first_unknown(written.attributes.permissions, known) is None);
        assert(desired.permissions =~= Seq::empty());
    }
}

/// A described role can be read, and asks for no change.
proof fn described_roles_ask_for_nothing(
    described: DescribedRolesView,
    catalog: RoleCatalogView,
    guild_id: u64,
    previous: MappingsView,
    known: Seq<(Seq<char>, ())>,
    definition: DefinitionView,
    state: StateView,
    name: Seq<char>,
)
    requires
        is_proper_catalog(catalog, guild_id, known),
        roles_have_own_ids(catalog.roles),
        is_faithful(described, catalog.roles, catalog.roles.len() as int, guild_id, previous),
        lookup(described.definitions, name) is Some,
        state.guild_id == guild_id,
        state.roles == described.mappings,
    ensures
        is_readable(lookup(described.definitions, name)->0, known),
        role_step(name, meaning(lookup(described.definitions, name)->0), definition, state, catalog) == Ok::<
            RoleStepView,
            ErrorView,
        >(RoleStepView::Nothing),
        meaning(lookup(described.definitions, name)->0) is Reference ==> has_key(state.roles, name),
        role_id_of(state, name) is Some,
        ({
            let role = role_with_id(catalog.roles, role_id_of(state, name)->0);
            role is Some && (meaning(lookup(described.definitions, name)->0) is Managed ==> role->0.manageable)
        }),
{
    let written = lookup(described.definitions, name)->0;
    let k = choose|k: int|
        0 <= k < catalog.roles.len() && describes(
            #[trigger] catalog.roles[k],
            name,
            written,
            described.mappings,
            guild_id,
            previous,
        );
    assert forall|j: int| k < j < catalog.roles.len() implies (#[trigger] catalog.roles[j]).id != catalog.roles[k].id by {
        assert(catalog.roles[k].id != catalog.roles[j].id);
    }
    a_described_role_is_as_wanted(
        catalog,
        k,
        name,
        written,
        described.mappings,
        guild_id,
        previous,
        known,
        definition.settings_sets.role,
        state,
    );
    roles_as_wanted_do_not_change(
        name,
        catalog.roles[k],
        composed(meaning(written), definition.settings_sets.role),
        catalog.default_permissions,
        catalog.grantable_permissions,
    );
}

/// The identifiers of described roles, in the given order.
spec fn described_ids(ids: Seq<u64>, guild_id: u64, described: DescribedRolesView) -> Seq<u64>
    decreases ids.len(),
{
    if ids.len() == 0 {
        Seq::empty()
    } else if described_name(ids.last(), guild_id, described) is Some {
        described_ids(ids.drop_last(), guild_id, described).push(ids.last())
    } else {
        described_ids(ids.drop_last(), guild_id, described)
    }
}

proof fn names_of_described(ids: Seq<u64>, guild_id: u64, described: DescribedRolesView, i: int)
    requires
        0 <= i < described_names(ids, guild_id, described).len(),
    ensures
        described_names(ids, guild_id, described).len() == described_ids(ids, guild_id, described).len(),
        described_name(described_ids(ids, guild_id, described)[i], guild_id, described) == Some(
            described_names(ids, guild_id, described)[i],
        ),
        ids.contains(described_ids(ids, guild_id, described)[i]),
    decreases ids.len(),
{
    let rest = ids.drop_last();
    if i < described_names(rest, guild_id, described).len() {
        names_of_described(rest, guild_id, described, i);
        let id = described_ids(rest, guild_id, described)[i];
        let j = rest.index_of(id);
        assert(ids[j] == id);
    } else {
        same_number_described(rest, guild_id, described);
        assert(ids.last() == ids[ids.len() - 1]);
    }
}

proof fn same_number_described(ids: Seq<u64>, guild_id: u64, described: DescribedRolesView)
    ensures
        described_names(ids, guild_id, described).len() == described_ids(ids, guild_id, described).len(),
    decreases ids.len(),
{
    if ids.len() > 0 {
        same_number_described(ids.drop_last(), guild_id, described);
    }
}

proof fn asked_for_with_last(list: Seq<u64>, last: u64, asked: Seq<u64>)
    ensures
        asked_for(list.push(last), asked) == if asked.contains(last) {
            asked_for(list, asked).push(last)
        } else {
            asked_for(list, asked)
        },
    decreases list.len(),
{
    let all = list.push(last);
    if list.len() == 0 {
        assert(all.drop_first() =~= list);
        assert(asked_for(all.drop_first(), asked) =~= Seq::empty());
        if asked.contains(last) {
            assert(asked_for(all, asked) =~= asked_for(list, asked).push(last));
        }
    } else {
        assert(all.drop_first() =~= list.drop_first().push(last));
        asked_for_with_last(list.drop_first(), last, asked);
        if asked.contains(list[0]) && asked.contains(last) {
            assert(seq![list[0]] + asked_for(list.drop_first(), asked).push(last) =~= (seq![list[0]] + asked_for(
                list.drop_first(),
                asked,
            )).push(last));
        }
    }
}

proof fn described_ids_are_asked_for(
    ids: Seq<u64>,
    guild_id: u64,
    described: DescribedRolesView,
    asked: Seq<u64>,
)
    requires
        forall|i: int|
            0 <= i < ids.len() ==> (asked.contains(#[trigger] ids[i]) <==> described_name(ids[i], guild_id, described)
                is Some),
    ensures
        asked_for(ids, asked) == described_ids(ids, guild_id, described),
    decreases ids.len(),
{
    if ids.len() > 0 {
        let rest = ids.drop_last();
        assert forall|i: int| 0 <= i < rest.len() implies (asked.contains(#[trigger] rest[i]) <==> described_name(
            rest[i],
            guild_id,
            described,
        ) is Some) by {
            assert(rest[i] == ids[i]);
        }
        described_ids_are_asked_for(rest, guild_id, described, asked);
        asked_for_with_last(rest, ids.last(), asked);
        assert(rest.push(ids.last()) =~= ids);
        assert(asked.contains(ids[ids.len() - 1]) <==> described_name(ids.last(), guild_id, described) is Some);
    } else {
        assert(asked_for(ids, asked) =~= Seq::empty());
    }
}

proof fn described_ids_hold(ids: Seq<u64>, guild_id: u64, described: DescribedRolesView, id: u64)
    ensures
        described_ids(ids, guild_id, described).contains(id) <==> ids.contains(id) && described_name(
            id,
            guild_id,
            described,
        ) is Some,
    decreases ids.len(),
{
    let all = described_ids(ids, guild_id, described);
    if ids.len() > 0 {
        let rest = ids.drop_last();
        let before = described_ids(rest, guild_id, described);
        described_ids_hold(rest, guild_id, described, id);
        if rest.contains(id) {
            let i = rest.index_of(id);
            assert(ids[i] == id);
        }
        if ids.contains(id) && !rest.contains(id) {
            let i = ids.index_of(id);
            if i < rest.len() {
                assert(rest[i] == id);
            }
            assert(ids.last() == id);
        }
        if before.contains(id) {
            let i = before.index_of(id);
            assert(all[i] == id);
        }
        if all.contains(id) {
            let i = all.index_of(id);
            if i < before.len() {
                assert(before[i] == id);
            } else {
                assert(id == ids.last());
                assert(ids[ids.len() - 1] == id);
            }
        }
        if ids.last() == id && described_name(id, guild_id, described) is Some {
            assert(all[all.len() - 1] == id);
        }
    } else {
        assert(!all.contains(id));
        assert(!ids.contains(id));
    }
}

/// The order of roles names each of them once.
pub proof fn role_order_names_each_once(roles: Seq<RoleSnapshotView>, everyone_id: u64)
    requires
        forall|i: int, j: int| 0 <= i < j < roles.len() ==> (#[trigger] roles[i]).id != (#[trigger] roles[j]).id,
    ensures
        role_order(roles, everyone_id).no_duplicates(),
{
    broadcast use vstd::seq_lib::group_to_multiset_ensures;

    let places = role_places(roles, everyone_id);
    let placed = in_places(places);
    assert(places.no_duplicates()) by {
        assert forall|i: int, j: int| 0 <= i < places.len() && 0 <= j < places.len() && i != j implies places[i]
            != places[j] by {
            if i < j {
                assert(roles[i].id != roles[j].id);
            } else {
                assert(roles[j].id != roles[i].id);
            }
        }
    }
    sorting_holds_the_same(places);
    places.lemma_multiset_has_no_duplicates();
    placed.lemma_multiset_has_no_duplicates_conv();
    let order = role_order(roles, everyone_id);
    assert forall|i: int, j: int| 0 <= i < order.len() && 0 <= j < order.len() && i != j implies order[i]
        != order[j] by {
        assert(placed[i] != placed[j]);
        assert(placed.to_multiset().count(placed[i]) > 0);
        assert(placed.to_multiset().count(placed[j]) > 0);
        let a = places.index_of(placed[i]);
        let b = places.index_of(placed[j]);
        if a < b {
            assert(roles[a].id != roles[b].id);
        } else {
            assert(roles[b].id != roles[a].id);
        }
    }
}

proof fn named_roles_are_found(
    names: Seq<Seq<char>>,
    ids: Seq<u64>,
    i: int,
    definition: DefinitionView,
    state: StateView,
    roles: Seq<RoleSnapshotView>,
    gathered: NamedRolesView,
)
    requires
        0 <= i <= names.len(),
        names.len() == ids.len(),
        forall|k: int|
            0 <= k < names.len() ==> role_id_of(state, #[trigger] names[k]) == Some(ids[k]) && role_with_id(
                roles,
                ids[k],
            ) is Some && lookup(definition.roles, names[k]) is Some && (lookup(definition.roles, names[k])->0 is Managed
                && names[k] != everyone() ==> role_with_id(roles, ids[k])->0.manageable),
    ensures
        named_roles(names, i, definition, state, roles, gathered) is Ok,
        named_roles(names, i, definition, state, roles, gathered)->Ok_0.ids == gathered.ids + ids.skip(i),
        named_roles(names, i, definition, state, roles, gathered)->Ok_0.deferred == gathered.deferred,
    decreases names.len() - i,
{
    if i < names.len() {
        let role = role_with_id(roles, ids[i])->0;
        let declared = lookup(definition.roles, names[i])->0;
        assert(role_id_of(state, names[i]) == Some(ids[i]));
        let next = NamedRolesView {
            ids: gathered.ids.push(ids[i]),
            fixed: if declared is Reference || names[i] == everyone() || !role.manageable {
                gathered.fixed.push(ids[i])
            } else {
                gathered.fixed
            },
            deferred: gathered.deferred,
        };
        named_roles_are_found(names, ids, i + 1, definition, state, roles, next);
        assert(gathered.ids.push(ids[i]) + ids.skip(i + 1) =~= gathered.ids + ids.skip(i));
    } else {
        assert(gathered.ids + ids.skip(i) =~= gathered.ids);
    }
}

proof fn nothing_is_lost(previous: MappingsView, i: int, roles: Seq<RoleSnapshotView>, k: int)
    requires
        0 <= i <= k < previous.len(),
        lost_role(previous, i, roles) is None,
    ensures
        has_role(roles, previous[k].1),
    decreases k - i,
{
    if i < k {
        nothing_is_lost(previous, i + 1, roles, k);
    }
}

proof fn nothing_is_released(
    plan: PlanView,
    bound: MappingsView,
    i: int,
    declared: Seq<(Seq<char>, RoleDefinitionView)>,
)
    requires
        0 <= i <= bound.len(),
        forall|k: int| 0 <= k < bound.len() ==> has_key(declared, (#[trigger] bound[k]).0),
    ensures
        with_released(plan, bound, i, declared) == plan,
    decreases bound.len() - i,
{
    if i < bound.len() {
        assert(has_key(declared, bound[i].0));
        nothing_is_released(plan, bound, i + 1, declared);
    }
}

proof fn nothing_is_planned(
    i: int,
    definition: DefinitionView,
    state: StateView,
    catalog: RoleCatalogView,
)
    requires
        0 <= i <= definition.roles.len(),
        forall|k: int|
            0 <= k < definition.roles.len() ==> role_step(
                (#[trigger] definition.roles[k]).0,
                definition.roles[k].1,
                definition,
                state,
                catalog,
            ) == Ok::<RoleStepView, ErrorView>(RoleStepView::Nothing),
    ensures
        with_declared(PlanView::none(), definition.roles, i, definition, state, catalog) == Ok::<PlanView, ErrorView>(
            PlanView::none(),
        ),
    decreases definition.roles.len() - i,
{
    if i < definition.roles.len() {
        let (name, role) = definition.roles[i];
        assert(role_step(name, role, definition, state, catalog) == Ok::<RoleStepView, ErrorView>(
            RoleStepView::Nothing,
        ));
        nothing_is_planned(i + 1, definition, state, catalog);
    }
}

proof fn different_names_are_accepted(names: Seq<Seq<char>>, i: int)
    requires
        0 <= i <= names.len(),
        names.no_duplicates(),
    ensures
        first_repeated(names, i) is None,
    decreases names.len() - i,
{
    if i < names.len() {
        if names.take(i).contains(names[i]) {
            let j = names.take(i).index_of(names[i]);
            assert(names[j] == names[i]);
        }
        different_names_are_accepted(names, i + 1);
    }
}

proof fn declared_names_are_accepted(names: Seq<Seq<char>>, roles: Seq<(Seq<char>, RoleDefinitionView)>, i: int)
    requires
        0 <= i <= names.len(),
        forall|k: int|
            0 <= k < names.len() ==> lookup(roles, #[trigger] names[k]) is Some && !(lookup(roles, names[k])->0
                is Absent),
    ensures
        order_roles_fault(names, roles, i) is None,
    decreases names.len() - i,
{
    if i < names.len() {
        assert(order_role_fault(roles, names[i]) is None);
        declared_names_are_accepted(names, roles, i + 1);
    }
}

/// Every bound name is declared.
proof fn bound_roles_are_described(
    described: DescribedRolesView,
    roles: Seq<RoleSnapshotView>,
    guild_id: u64,
    previous: MappingsView,
    name: Seq<char>,
)
    requires
        is_earlier_state(state_of(guild_id, previous), guild_id),
        is_faithful(described, roles, roles.len() as int, guild_id, previous),
        lost_role(previous, 0, roles) is None,
        lookup(described.mappings, name) is Some,
    ensures
        has_key(described.definitions, name),
{
    let id = lookup(described.mappings, name)->0;
    if lookup(previous, name) is Some {
        assert(lookup(described.mappings, name) == lookup(previous, name));
        let i = lookup_has_entry(previous, name);
        nothing_is_lost(previous, 0, roles, i);
        let k = choose|k: int| 0 <= k < roles.len() && (#[trigger] roles[k]).id == id;
        bound_is_held(previous, name, id);
        assert(is_described(roles[k], described, guild_id, previous));
    } else {
        let k = choose|k: int|
            0 <= k < roles.len() && (#[trigger] roles[k]).id == lookup(described.mappings, name)->0
                && roles[k].manageable && roles[k].id != guild_id && role_name(roles[k].id, previous) == Ok::<
                Seq<char>,
                ErrorView,
            >(name);
        assert(is_described(roles[k], described, guild_id, previous));
    }
}

proof fn described_name_is_bound(
    described: DescribedRolesView,
    roles: Seq<RoleSnapshotView>,
    guild_id: u64,
    previous: MappingsView,
    state: StateView,
    id: u64,
)
    requires
        is_faithful(described, roles, roles.len() as int, guild_id, previous),
        described_name(id, guild_id, described) is Some,
        state.guild_id == guild_id,
        state.roles == described.mappings,
    ensures
        role_id_of(state, described_name(id, guild_id, described)->0) == Some(id),
        has_key(described.definitions, described_name(id, guild_id, described)->0),
{
    if id != guild_id {
        holder_is_bound(described.mappings, id);
    }
}

proof fn nothing_was_described(roles: Seq<RoleSnapshotView>, n: int, guild_id: u64, previous: MappingsView)
    requires
        0 <= n <= roles.len(),
        describes_no_role(roles, previous),
    ensures
        described_roles(roles.take(n), guild_id, previous) == Ok::<DescribedRolesView, ErrorView>(
            DescribedRolesView { definitions: Seq::empty(), mappings: previous },
        ),
    decreases n,
{
    if n > 0 {
        assert(roles.take(n).drop_last() =~= roles.take(n - 1));
        assert(roles.take(n).last() == roles[n - 1]);
        nothing_was_described(roles, n - 1, guild_id, previous);
    } else {
        assert(roles.take(0) =~= Seq::empty());
    }
}

proof fn nothing_was_named(ids: Seq<u64>, guild_id: u64, described: DescribedRolesView)
    requires
        described.definitions.len() == 0,
    ensures
        described_names(ids, guild_id, described).len() == 0,
    decreases ids.len(),
{
    if ids.len() > 0 {
        nothing_was_named(ids.drop_last(), guild_id, described);
    }
}

proof fn an_empty_export_needs_no_change(
    catalog: RoleCatalogView,
    guild_id: u64,
    previous: Option<StateView>,
    known: Seq<(Seq<char>, ())>,
)
    requires
        describes_no_role(catalog.roles, earlier_state(guild_id, previous).roles),
        previous is Some ==> is_earlier_state(previous->0, guild_id),
        exported_roles(catalog, guild_id, previous) is Ok,
    ensures
        ({
            let (definition, state) = exported_roles(catalog, guild_id, previous)->Ok_0;
            let input = plan_input(definition, state, guild_id, known);
            &&& input is Ok
            &&& input->Ok_0.1 == state
            &&& role_plan(input->Ok_0.0, state, catalog) == Ok::<PlanView, ErrorView>(PlanView::none())
        }),
{
    let roles = catalog.roles;
    let earlier = earlier_state(guild_id, previous);
    let (written, state) = exported_roles(catalog, guild_id, previous)->Ok_0;
    let described = DescribedRolesView { definitions: Seq::empty(), mappings: earlier.roles };
    assert(roles.take(roles.len() as int) =~= roles);
    nothing_was_described(roles, roles.len() as int, guild_id, earlier.roles);
    nothing_was_named(role_order(roles, guild_id), guild_id, described);
    if earlier.roles.len() > 0 {
        assert(has_role(roles, earlier.roles[0].1));
        let i = choose|i: int| 0 <= i < roles.len() && (#[trigger] roles[i]).id == earlier.roles[0].1;
        assert(holder(earlier.roles, roles[i].id) is None);
        entry_has_holder(earlier.roles, 0);
    }
    nothing_is_said(written);
    assert(state.is_sound());
    sound_states_are_accepted(state);
    assert(references_fault(written.parsed(known)->Ok_0, state) is None);
}

/// What was exported of the roles of a guild is accepted, is bound to the roles it
/// describes, and asks for no change of the guild as it is. No two roles may have one
/// identifier, unless none is described: their order could not be told.
pub proof fn exported_roles_need_no_change(
    catalog: RoleCatalogView,
    guild_id: u64,
    previous: Option<StateView>,
    known: Seq<(Seq<char>, ())>,
)
    requires
        is_proper_catalog(catalog, guild_id, known),
        roles_have_own_ids(catalog.roles) || describes_no_role(
            catalog.roles,
            earlier_state(guild_id, previous).roles,
        ),
        previous is Some ==> is_earlier_state(previous->0, guild_id),
        exported_roles(catalog, guild_id, previous) is Ok,
    ensures
        ({
            let (definition, state) = exported_roles(catalog, guild_id, previous)->Ok_0;
            let input = plan_input(definition, state, guild_id, known);
            &&& input is Ok
            &&& input->Ok_0.1 == state
            &&& role_plan(input->Ok_0.0, state, catalog) == Ok::<PlanView, ErrorView>(PlanView::none())
        }),
{
    if roles_have_own_ids(catalog.roles) {
        different_roles_need_no_change(catalog, guild_id, previous, known);
    } else {
        an_empty_export_needs_no_change(catalog, guild_id, previous, known);
    }
}

proof fn different_roles_need_no_change(
    catalog: RoleCatalogView,
    guild_id: u64,
    previous: Option<StateView>,
    known: Seq<(Seq<char>, ())>,
)
    requires
        is_proper_catalog(catalog, guild_id, known),
        roles_have_own_ids(catalog.roles),
        previous is Some ==> is_earlier_state(previous->0, guild_id),
        exported_roles(catalog, guild_id, previous) is Ok,
    ensures
        ({
            let (definition, state) = exported_roles(catalog, guild_id, previous)->Ok_0;
            let input = plan_input(definition, state, guild_id, known);
            &&& input is Ok
            &&& input->Ok_0.1 == state
            &&& role_plan(input->Ok_0.0, state, catalog) == Ok::<PlanView, ErrorView>(PlanView::none())
        }),
{
    let roles = catalog.roles;
    let earlier = earlier_state(guild_id, previous);
    let described = described_roles(roles, guild_id, earlier.roles)->Ok_0;
    let (written, state) = exported_roles(catalog, guild_id, previous)->Ok_0;
    assert(is_earlier_state(earlier, guild_id));
    assert(roles.take(roles.len() as int) =~= roles);
    described_roles_are_faithful(roles, roles.len() as int, guild_id, earlier.roles);
    let definitions = described.definitions;
    let current = role_order(roles, guild_id);
    let names = described_names(current, guild_id, described);
    let ids = described_ids(current, guild_id, described);
    let definition = DefinitionView {
        settings_sets: written.settings_sets,
        roles: meanings(definitions),
        channels: Seq::empty(),
        members: Seq::empty(),
        message_sets: Seq::empty(),
        threads: Seq::empty(),
        order: written.order,
    };
    // Each written role can be read and asks for nothing.
    assert forall|i: int| 0 <= i < definitions.len() implies is_readable((#[trigger] definitions[i]).1, known)
        && role_step(definitions[i].0, meaning(definitions[i].1), definition, state, catalog) == Ok::<
        RoleStepView,
        ErrorView,
    >(RoleStepView::Nothing) && (meaning(definitions[i].1) is Reference ==> has_key(state.roles, definitions[i].0)) by {
        lookup_in_sorted::<RoleLogicalId, RawRoleDefinitionView>(definitions, i);
        described_roles_ask_for_nothing(
            described,
            catalog,
            guild_id,
            earlier.roles,
            known,
            definition,
            state,
            definitions[i].0,
        );
    }
    readable_roles_are_read(definitions, known, Seq::empty());
    assert(Seq::<(Seq<char>, RoleDefinitionView)>::empty() + meanings(definitions) =~= meanings(definitions));
    // The order names roles that are described, each once.
    role_order_names_each_once(roles, guild_id);
    same_number_described(current, guild_id, described);
    assert forall|k: int| 0 <= k < names.len() implies role_id_of(state, #[trigger] names[k]) == Some(ids[k])
        && role_with_id(roles, ids[k]) is Some && lookup(definition.roles, names[k]) is Some && !(lookup(
        definition.roles,
        names[k],
    )->0 is Absent) && (lookup(definition.roles, names[k])->0 is Managed && names[k] != everyone() ==> role_with_id(
        roles,
        ids[k],
    )->0.manageable) by {
        names_of_described(current, guild_id, described, k);
        described_name_is_bound(described, roles, guild_id, earlier.roles, state, ids[k]);
        meanings_are_found(definitions, names[k]);
        described_roles_ask_for_nothing(
            described,
            catalog,
            guild_id,
            earlier.roles,
            known,
            definition,
            state,
            names[k],
        );
    }
    assert forall|i: int|
        0 <= i < current.len() implies (ids.contains(#[trigger] current[i]) <==> described_name(
        current[i],
        guild_id,
        described,
    ) is Some) by {
        described_ids_hold(current, guild_id, described, current[i]);
        assert(current.contains(current[i]));
    }
    described_ids_are_asked_for(current, guild_id, described, ids);
    assert(names.no_duplicates()) by {
        order_in_place_stays(current, ids, Seq::empty());
        assert forall|i: int, j: int| 0 <= i < names.len() && 0 <= j < names.len() && i != j implies names[i]
            != names[j] by {
            assert(role_id_of(state, names[i]) == Some(ids[i]));
            assert(role_id_of(state, names[j]) == Some(ids[j]));
            assert(ids[i] != ids[j]);
        }
    }
    different_names_are_accepted(names, 0);
    declared_names_are_accepted(names, definition.roles, 0);
    // The definition is accepted.
    assert forall|i: int| 0 <= i < definitions.len() implies (#[trigger] definitions[i]).1.attributes.name_fault() is None by {
        assert(is_readable(definitions[i].1, known));
    }
    nothing_is_said(written);
    assert(written.parsed(known) == Ok::<DefinitionView, ErrorView>(definition));
    // The state is accepted.
    assert(state.is_sound());
    sound_states_are_accepted(state);
    let unbound = |id: Seq<char>, role: RoleDefinitionView| role_reference_fault(id, role, state);
    assert forall|i: int| 0 <= i < definition.roles.len() implies unbound(
        (#[trigger] definition.roles[i]).0,
        definition.roles[i].1,
    ) is None by {
        assert(is_readable(definitions[i].1, known));
    }
    first_in_none(definition.roles, unbound);
    assert(references_fault(definition, state) is None);
    // Nothing is planned.
    assert forall|k: int| 0 <= k < definition.roles.len() implies role_step(
        (#[trigger] definition.roles[k]).0,
        definition.roles[k].1,
        definition,
        state,
        catalog,
    ) == Ok::<RoleStepView, ErrorView>(RoleStepView::Nothing) by {
        assert(is_readable(definitions[k].1, known));
    }
    nothing_is_planned(0, definition, state, catalog);
    assert forall|k: int| 0 <= k < state.roles.len() implies has_key(definition.roles, (#[trigger] state.roles[k]).0) by {
        entry_is_found(state.roles, k);
        bound_roles_are_described(described, roles, guild_id, earlier.roles, state.roles[k].0);
        meanings_are_found(definitions, state.roles[k].0);
    }
    nothing_is_released(PlanView::none(), state.roles, 0, definition.roles);
    // The order stays.
    if names.len() > 0 {
        let start = NamedRolesView {
            ids: Seq::empty(),
            fixed: immovable_roles(current, roles, guild_id),
            deferred: false,
        };
        named_roles_are_found(names, ids, 0, definition, state, roles, start);
        let named = named_roles(names, 0, definition, state, roles, start)->Ok_0;
        assert(named.ids =~= ids);
        order_in_place_stays(current, ids, named.fixed + referenced_roles(definition.roles, state));
    }
}

/// What holds of the written roles once the first roles that the bot can manage were
/// described.
spec fn holds_managed(
    described: DescribedRolesView,
    roles: Seq<RoleSnapshotView>,
    n: int,
    guild_id: u64,
    previous: MappingsView,
) -> bool {
    &&& sorted::<RoleLogicalId, RawRoleDefinitionView>(described.definitions)
    &&& sorted::<RoleLogicalId, u64>(described.mappings)
    &&& state_of(guild_id, described.mappings).is_sound()
    &&& forall|name: Seq<char>|
        (#[trigger] lookup(described.definitions, name)) is Some ==> exists|k: int|
            0 <= k < n && roles[k].manageable && describes(
                #[trigger] roles[k],
                name,
                lookup(described.definitions, name)->0,
                described.mappings,
                guild_id,
                previous,
            )
    &&& forall|name: Seq<char>|
        (#[trigger] lookup(described.mappings, name)) is Some ==> has_key(described.definitions, name) && exists|k: int|
            0 <= k < n && roles[k].manageable && (#[trigger] roles[k]).id == lookup(described.mappings, name)->0
}

proof fn managed_after_put(
    described: DescribedRolesView,
    after: DescribedRolesView,
    roles: Seq<RoleSnapshotView>,
    n: int,
    guild_id: u64,
    previous: MappingsView,
    name: Seq<char>,
    definition: RawRoleDefinitionView,
)
    requires
        0 <= n < roles.len(),
        roles[n].manageable,
        holds_managed(described, roles, n, guild_id, previous),
        after.definitions == put::<RoleLogicalId, RawRoleDefinitionView>(described.definitions, name, definition),
        sorted::<RoleLogicalId, RawRoleDefinitionView>(after.definitions),
        after.mappings == described.mappings || (after.mappings == put::<RoleLogicalId, u64>(
            described.mappings,
            name,
            roles[n].id,
        ) && lookup(described.mappings, name) is None),
        sorted::<RoleLogicalId, u64>(after.mappings),
        state_of(guild_id, after.mappings).is_sound(),
        describes(roles[n], name, definition, after.mappings, guild_id, previous),
    ensures
        holds_managed(after, roles, n + 1, guild_id, previous),
{
    assert forall|other: Seq<char>| #[trigger] lookup(after.mappings, other) == (if after.mappings
        == described.mappings || other != name {
        lookup(described.mappings, other)
    } else {
        Some(roles[n].id)
    }) by {
        put_then_lookup::<RoleLogicalId, u64>(described.mappings, name, roles[n].id, other);
    }
    assert forall|other: Seq<char>| #[trigger] lookup(after.definitions, other) == (if other == name {
        Some(definition)
    } else {
        lookup(described.definitions, other)
    }) by {
        put_then_lookup::<RoleLogicalId, RawRoleDefinitionView>(described.definitions, name, definition, other);
    }
    assert forall|other: Seq<char>| (#[trigger] lookup(after.definitions, other)) is Some implies exists|k: int|
        0 <= k < n + 1 && roles[k].manageable && describes(
            #[trigger] roles[k],
            other,
            lookup(after.definitions, other)->0,
            after.mappings,
            guild_id,
            previous,
        ) by {
        if other == name {
            assert(describes(roles[n], other, lookup(after.definitions, other)->0, after.mappings, guild_id, previous));
        } else {
            assert(lookup(described.definitions, other) is Some);
            let k = choose|k: int|
                0 <= k < n && roles[k].manageable && describes(
                    #[trigger] roles[k],
                    other,
                    lookup(described.definitions, other)->0,
                    described.mappings,
                    guild_id,
                    previous,
                );
            assert(lookup(after.mappings, other) == lookup(described.mappings, other));
            assert(describes(roles[k], other, lookup(after.definitions, other)->0, after.mappings, guild_id, previous));
        }
    }
    assert forall|other: Seq<char>| (#[trigger] lookup(after.mappings, other)) is Some implies has_key(
        after.definitions,
        other,
    ) && exists|k: int| 0 <= k < n + 1 && roles[k].manageable && (#[trigger] roles[k]).id == lookup(after.mappings, other)->0 by {
        assert(lookup(after.definitions, other) is Some || lookup(described.mappings, other) is Some);
        if after.mappings != described.mappings && other == name {
            assert(roles[n].id == lookup(after.mappings, other)->0);
        } else {
            assert(lookup(described.mappings, other) is Some);
            let k = choose|k: int| 0 <= k < n && roles[k].manageable && (#[trigger] roles[k]).id == lookup(described.mappings, other)->0;
            assert(roles[k].id == lookup(after.mappings, other)->0);
            assert(lookup(after.definitions, other) is Some);
        }
    }
}

proof fn describing_managed(
    described: DescribedRolesView,
    roles: Seq<RoleSnapshotView>,
    n: int,
    guild_id: u64,
    previous: MappingsView,
)
    requires
        0 <= n < roles.len(),
        managed_have_own_ids(roles),
        is_earlier_state(state_of(guild_id, previous), guild_id),
        holds_managed(described, roles, n, guild_id, previous),
        with_managed_role(described, roles[n], guild_id, previous) is Ok,
    ensures
        holds_managed(
            with_managed_role(described, roles[n], guild_id, previous)->Ok_0,
            roles,
            n + 1,
            guild_id,
            previous,
        ),
{
    let role = roles[n];
    let after = with_managed_role(described, role, guild_id, previous)->Ok_0;
    if !role.manageable {
        assert forall|name: Seq<char>| (#[trigger] lookup(described.definitions, name)) is Some implies exists|k: int|
            0 <= k < n + 1 && roles[k].manageable && describes(
                #[trigger] roles[k],
                name,
                lookup(described.definitions, name)->0,
                described.mappings,
                guild_id,
                previous,
            ) by {
            let k = choose|k: int|
                0 <= k < n && roles[k].manageable && describes(
                    #[trigger] roles[k],
                    name,
                    lookup(described.definitions, name)->0,
                    described.mappings,
                    guild_id,
                    previous,
                );
            assert(0 <= k < n + 1);
        }
        assert forall|name: Seq<char>| (#[trigger] lookup(described.mappings, name)) is Some implies exists|k: int|
            0 <= k < n + 1 && roles[k].manageable && (#[trigger] roles[k]).id == lookup(described.mappings, name)->0 by {
            let k = choose|k: int| 0 <= k < n && roles[k].manageable && (#[trigger] roles[k]).id == lookup(described.mappings, name)->0;
            assert(0 <= k < n + 1);
        }
    } else if role.id == guild_id {
        put_keeps_sorted::<RoleLogicalId, RawRoleDefinitionView>(
            described.definitions,
            everyone(),
            described_role(role, true),
        );
        managed_after_put(
            described,
            after,
            roles,
            n,
            guild_id,
            previous,
            everyone(),
            described_role(role, true),
        );
    } else {
        let name = role_name(role.id, previous)->Ok_0;
        name_is_not_reserved(role.id, previous);
        put_keeps_sorted::<RoleLogicalId, RawRoleDefinitionView>(
            described.definitions,
            name,
            described_role(role, false),
        );
        put_keeps_sorted::<RoleLogicalId, u64>(described.mappings, name, role.id);
        if let Some(other) = holder(described.mappings, role.id) {
            holder_is_bound(described.mappings, role.id);
            let k = choose|k: int| 0 <= k < n && roles[k].manageable && (#[trigger] roles[k]).id == lookup(described.mappings, other)->0;
            assert(roles[k].id != roles[n].id);
        }
        bound_role_keeps_sound(state_of(guild_id, described.mappings), name, role.id);
        put_then_lookup::<RoleLogicalId, u64>(described.mappings, name, role.id, name);
        managed_after_put(
            described,
            after,
            roles,
            n,
            guild_id,
            previous,
            name,
            described_role(role, false),
        );
    }
}

proof fn managed_roles_are_described(
    described: DescribedRolesView,
    roles: Seq<RoleSnapshotView>,
    n: int,
    guild_id: u64,
    previous: MappingsView,
)
    requires
        0 <= n <= roles.len(),
        managed_have_own_ids(roles),
        is_earlier_state(state_of(guild_id, previous), guild_id),
        holds_managed(described, roles, n, guild_id, previous),
        with_managed_roles(described, roles, n, guild_id, previous) is Ok,
    ensures
        holds_managed(
            with_managed_roles(described, roles, n, guild_id, previous)->Ok_0,
            roles,
            roles.len() as int,
            guild_id,
            previous,
        ),
    decreases roles.len() - n,
{
    if n < roles.len() {
        describing_managed(described, roles, n, guild_id, previous);
        let next = with_managed_role(described, roles[n], guild_id, previous)->Ok_0;
        managed_roles_are_described(next, roles, n + 1, guild_id, previous);
    }
}

proof fn wanted_permissions_are_not_listed(
    changes: Seq<AttributeChangeView>,
    id: Seq<char>,
    discord_id: u64,
    wanted: Seq<(Seq<char>, ManagedValue<bool>)>,
    actual: Seq<(Seq<char>, bool)>,
    defaults: Seq<(Seq<char>, bool)>,
    grantable: Seq<(Seq<char>, ())>,
)
    requires
        has_wanted(wanted, actual, defaults),
    ensures
        with_permissions(changes, id, discord_id, wanted, actual, defaults, grantable) == Ok::<
            Seq<AttributeChangeView>,
            ErrorView,
        >(changes),
    decreases wanted.len(),
{
    if wanted.len() > 0 {
        let rest = wanted.drop_first();
        assert(lookup(actual, wanted[0].0) is Some);
        assert forall|k: int| 0 <= k < rest.len() implies {
            &&& lookup(defaults, (#[trigger] rest[k]).0) is Some
            &&& lookup(actual, rest[k].0) == Some(managed(rest[k].1, lookup(defaults, rest[k].0)->0))
        } by {
            assert(rest[k] == wanted[k + 1]);
        }
        wanted_permissions_are_not_listed(changes, id, discord_id, rest, actual, defaults, grantable);
    }
}

/// A role that is as it is wanted stands in no plan by single attributes.
pub proof fn roles_as_wanted_are_not_listed(
    changes: Seq<AttributeChangeView>,
    id: Seq<char>,
    discord_id: u64,
    actual: RoleSnapshotView,
    desired: RoleAttributesView,
    catalog: RoleCatalogView,
)
    requires
        is_as_wanted(actual, desired, catalog.default_permissions),
    ensures
        with_attributes(changes, id, discord_id, actual, desired, catalog) == Ok::<
            Seq<AttributeChangeView>,
            ErrorView,
        >(changes),
{
    wanted_permissions_are_not_listed(
        changes,
        id,
        discord_id,
        desired.permissions,
        actual.permissions,
        catalog.default_permissions,
        catalog.grantable_permissions,
    );
}

proof fn nothing_is_listed(i: int, definition: DefinitionView, state: TrackedView, catalog: RoleCatalogView)
    requires
        0 <= i <= definition.roles.len(),
        forall|k: int|
            0 <= k < definition.roles.len() ==> RolePlanView::none().after_role(
                (#[trigger] definition.roles[k]).0,
                definition.roles[k].1,
                definition,
                state,
                catalog,
            ) == Ok::<RolePlanView, ErrorView>(RolePlanView::none()),
    ensures
        RolePlanView::none().after_roles(i, definition, state, catalog) == Ok::<RolePlanView, ErrorView>(
            RolePlanView::none(),
        ),
    decreases definition.roles.len() - i,
{
    if i < definition.roles.len() {
        let (name, role) = definition.roles[i];
        assert(RolePlanView::none().after_role(name, role, definition, state, catalog) == Ok::<
            RolePlanView,
            ErrorView,
        >(RolePlanView::none()));
        nothing_is_listed(i + 1, definition, state, catalog);
    }
}

proof fn nothing_is_let_go(
    plan: RolePlanView,
    bound: MappingsView,
    i: int,
    declared: Seq<(Seq<char>, RoleDefinitionView)>,
)
    requires
        0 <= i <= bound.len(),
        forall|k: int| 0 <= k < bound.len() ==> has_key(declared, (#[trigger] bound[k]).0),
    ensures
        plan.with_released(bound, i, declared) == plan,
    decreases bound.len() - i,
{
    if i < bound.len() {
        assert(has_key(declared, bound[i].0));
        nothing_is_let_go(plan, bound, i + 1, declared);
    }
}

/// What was exported of the roles that the bot can manage is accepted, and asks for no
/// change of the guild as it is, attribute by attribute. No role that is described may have
/// the identifier of one that is listed behind it, which would be taken for it.
pub proof fn exported_managed_roles_need_no_change(
    catalog: RoleCatalogView,
    guild_id: u64,
    previous: Option<TrackedView>,
    known: Seq<(Seq<char>, ())>,
)
    requires
        is_proper_catalog(catalog, guild_id, known),
        is_proper_catalog(catalog, guild_id, catalog.permission_names),
        managed_have_own_ids(catalog.roles),
        previous is Some ==> is_earlier_state(previous->0.bindings, guild_id),
        exported_managed_roles(catalog, guild_id, previous) is Ok,
    ensures
        ({
            let (definition, state) = exported_managed_roles(catalog, guild_id, previous)->Ok_0;
            let recorded = TrackedView {
                bindings: state,
                deleted_roles: Seq::empty(),
                pending_creations: Seq::empty(),
                pending_deletions: Seq::empty(),
            };
            let input = tracked_input(definition, recorded, guild_id, known);
            &&& input is Ok
            &&& input->Ok_0.1 == recorded
            &&& tracked_plan(input->Ok_0.0, recorded, catalog) == Ok::<RolePlanView, ErrorView>(RolePlanView::none())
        }),
{
    let roles = catalog.roles;
    let earlier = earlier_roles(previous);
    let none = DescribedRolesView { definitions: Seq::empty(), mappings: Seq::empty() };
    let described = with_managed_roles(none, roles, 0, guild_id, earlier)->Ok_0;
    let (written, state) = exported_managed_roles(catalog, guild_id, previous)->Ok_0;
    let recorded = TrackedView {
        bindings: state,
        deleted_roles: Seq::empty(),
        pending_creations: Seq::empty(),
        pending_deletions: Seq::empty(),
    };
    assert(state_of(guild_id, earlier).is_sound());
    managed_roles_are_described(none, roles, 0, guild_id, earlier);
    let definitions = described.definitions;
    let definition = DefinitionView {
        settings_sets: written.settings_sets,
        roles: meanings(definitions),
        channels: Seq::empty(),
        members: Seq::empty(),
        message_sets: Seq::empty(),
        threads: Seq::empty(),
        order: None,
    };
    assert forall|i: int| 0 <= i < definitions.len() implies is_readable((#[trigger] definitions[i]).1, known)
        && is_readable(definitions[i].1, catalog.permission_names) && RolePlanView::none().after_role(
        definitions[i].0,
        meaning(definitions[i].1),
        definition,
        recorded,
        catalog,
    ) == Ok::<RolePlanView, ErrorView>(RolePlanView::none()) && (meaning(definitions[i].1) is Reference ==> has_key(
        state.roles,
        definitions[i].0,
    )) by {
        lookup_in_sorted::<RoleLogicalId, RawRoleDefinitionView>(definitions, i);
        let name = definitions[i].0;
        let k = choose|k: int|
            0 <= k < roles.len() && roles[k].manageable && describes(
                #[trigger] roles[k],
                name,
                lookup(definitions, name)->0,
                described.mappings,
                guild_id,
                earlier,
            );
        let sets = definition.settings_sets.role;
        assert forall|j: int| k < j < roles.len() implies (#[trigger] roles[j]).id != roles[k].id by {
            assert(roles[k].id != roles[j].id);
        }
        a_described_role_is_as_wanted(
            catalog,
            k,
            name,
            definitions[i].1,
            described.mappings,
            guild_id,
            earlier,
            known,
            sets,
            state,
        );
        a_described_role_is_as_wanted(
            catalog,
            k,
            name,
            definitions[i].1,
            described.mappings,
            guild_id,
            earlier,
            catalog.permission_names,
            sets,
            state,
        );
        roles_as_wanted_are_not_listed(
            Seq::empty(),
            name,
            roles[k].id,
            roles[k],
            composed(meaning(definitions[i].1), sets),
            catalog,
        );
    }
    readable_roles_are_read(definitions, known, Seq::empty());
    assert(Seq::<(Seq<char>, RoleDefinitionView)>::empty() + meanings(definitions) =~= meanings(definitions));
    assert forall|i: int| 0 <= i < definitions.len() implies (#[trigger] definitions[i]).1.attributes.name_fault() is None by {
        assert(is_readable(definitions[i].1, known));
    }
    nothing_is_said(written);
    assert(written.parsed(known) == Ok::<DefinitionView, ErrorView>(definition));
    assert(state.is_sound());
    sound_states_are_accepted(state);
    assert(recorded.tracking_fault() is None);
    let unbound = |id: Seq<char>, role: RoleDefinitionView| role_reference_fault(id, role, state);
    assert forall|i: int| 0 <= i < definition.roles.len() implies unbound(
        (#[trigger] definition.roles[i]).0,
        definition.roles[i].1,
    ) is None by {
        assert(is_readable(definitions[i].1, known));
    }
    first_in_none(definition.roles, unbound);
    assert(references_fault(definition, state) is None);
    assert(removed_references_fault(definition, recorded) is None);
    let names = catalog.permission_names;
    let unknown = |id: Seq<char>, role: RoleDefinitionView| unknown_fault("Role "@ + id, role.attributes(), names);
    assert forall|i: int| 0 <= i < definition.roles.len() implies unknown(
        (#[trigger] definition.roles[i]).0,
        definition.roles[i].1,
    ) is None by {
        assert(is_readable(definitions[i].1, names));
    }
    first_in_none(definition.roles, unknown);
    assert(permission_names_fault(definition, names) is None);
    assert forall|k: int| 0 <= k < definition.roles.len() implies RolePlanView::none().after_role(
        (#[trigger] definition.roles[k]).0,
        definition.roles[k].1,
        definition,
        recorded,
        catalog,
    ) == Ok::<RolePlanView, ErrorView>(RolePlanView::none()) by {
        assert(is_readable(definitions[k].1, known));
    }
    nothing_is_listed(0, definition, recorded, catalog);
    assert forall|k: int| 0 <= k < state.roles.len() implies has_key(definition.roles, (#[trigger] state.roles[k]).0) by {
        entry_is_found(state.roles, k);
        assert(lookup(described.mappings, state.roles[k].0) is Some);
        meanings_are_found(definitions, state.roles[k].0);
    }
    nothing_is_let_go(RolePlanView::none(), state.roles, 0, definition.roles);
}

/// Whether written permissions are those of a role, all of them or those that are granted.
pub open spec fn permissions_are_written(
    written: Seq<(Seq<char>, ManagedValue<bool>)>,
    permissions: Seq<(Seq<char>, bool)>,
    only_granted: bool,
) -> bool {
    forall|permission: Seq<char>| #[trigger]
        lookup(written, permission) == match lookup(permissions, permission) {
            Some(value) => if only_granted && !value {
                None
            } else {
                Some(ManagedValue::Value(value))
            },
            None => None,
        }
}

/// Whether a written role holds what a role is: its name, its color, its marks and the
/// permissions that it grants. Of the role that every member has it holds all permissions
/// and nothing else.
pub open spec fn is_written(written: RawRoleDefinitionView, role: RoleSnapshotView, is_everyone: bool) -> bool {
    let attributes = written.attributes;
    &&& written.ensure == RoleEnsure::Present && written.mode == RoleMode::Managed
    &&& written.settings_sets.len() == 0
    &&& attributes.name == if is_everyone {
        None
    } else {
        Some(ManagedValue::Value(role.name))
    }
    &&& attributes.color == if is_everyone {
        None
    } else {
        Some(ManagedValue::Value(role.color))
    }
    &&& attributes.hoist == if is_everyone {
        None
    } else {
        Some(ManagedValue::Value(role.hoist))
    }
    &&& attributes.mentionable == if is_everyone {
        None
    } else {
        Some(ManagedValue::Value(role.mentionable))
    }
    &&& permissions_are_written(attributes.permissions, role.permissions, !is_everyone)
}

/// Whether a role of the guild is written down: one that the bot can manage with all that
/// it is, under the name it had or one that is made up for it, and one that it cannot
/// manage as a reference, where it had a name.
pub open spec fn is_written_down(
    role: RoleSnapshotView,
    guild_id: u64,
    definition: RawDefinitionView,
    state: StateView,
    previous: MappingsView,
) -> bool {
    if !role.manageable {
        forall|name: Seq<char>| #[trigger]
            lookup(previous, name) == Some(role.id) ==> lookup(state.roles, name) == Some(role.id) && lookup(
                definition.roles,
                name,
            ) is Some && (role.id != guild_id ==> lookup(definition.roles, name)->0.mode == RoleMode::Reference)
    } else if role.id == guild_id {
        lookup(definition.roles, everyone()) is Some && is_written(lookup(definition.roles, everyone())->0, role, true)
    } else {
        exists|name: Seq<char>| #[trigger]
            lookup(state.roles, name) == Some(role.id) && lookup(definition.roles, name) is Some && is_written(
                lookup(definition.roles, name)->0,
                role,
                false,
            ) && ((forall|earlier: Seq<char>| #[trigger] lookup(previous, earlier) != Some(role.id)) ==> name
                == "role_"@ + crate::text::decimal(role.id as nat)) && (forall|earlier: Seq<char>| #[trigger]
                lookup(previous, earlier) == Some(role.id) ==> earlier == name)
    }
}

proof fn managed_values_are_found(permissions: Seq<(Seq<char>, bool)>, name: Seq<char>)
    ensures
        lookup(crate::export::role::managed_values(permissions), name) == match lookup(permissions, name) {
            Some(value) => Some(ManagedValue::Value(value)),
            None => None,
        },
    decreases permissions.len(),
{
    if permissions.len() > 0 {
        assert(crate::export::role::managed_values(permissions).drop_first() =~= crate::export::role::managed_values(
            permissions.drop_first(),
        ));
        managed_values_are_found(permissions.drop_first(), name);
    }
}

proof fn granted_are_found(permissions: Seq<(Seq<char>, bool)>, name: Seq<char>)
    requires
        sorted::<KnownPermission, bool>(permissions),
    ensures
        lookup(granted(permissions), name) == if lookup(permissions, name) == Some(true) {
            Some(true)
        } else {
            None
        },
    decreases permissions.len(),
{
    if permissions.len() > 0 {
        let front = permissions.drop_last();
        let last = permissions.last();
        assert forall|i: int, j: int| 0 <= i < j < front.len() implies <KnownPermission as crate::ordered::OrderedKey>::before(
            #[trigger] front[i].0,
            #[trigger] front[j].0,
        ) by {
            assert(front[i] == permissions[i] && front[j] == permissions[j]);
        }
        granted_are_found(front, name);
        assert(permissions =~= front + seq![last]);
        crate::ordered::lookup_in_both(front, seq![last], name);
        assert(seq![last].drop_first() =~= Seq::empty());
        assert(lookup(seq![last].drop_first(), name) is None);
        assert(lookup(seq![last], name) == if last.0 == name {
            Some(last.1)
        } else {
            None
        });
        if last.1 {
            assert(granted(permissions) =~= granted(front) + seq![last]);
            crate::ordered::lookup_in_both(granted(front), seq![last], name);
        }
        if lookup(front, name) is Some && name == last.0 {
            let k = lookup_has_entry(front, name);
            assert(permissions[k] == front[k]);
            crate::ordered::sorted_entries::<KnownPermission, bool>(permissions, k, permissions.len() - 1);
            <KnownPermission as crate::ordered::OrderedKey>::order_is_total(
                permissions[k].0,
                permissions[permissions.len() - 1].0,
            );
        }
    }
}

pub(crate) proof fn described_roles_are_written(role: RoleSnapshotView, is_everyone: bool)
    requires
        sorted::<KnownPermission, bool>(role.permissions),
    ensures
        is_written(described_role(role, is_everyone), role, is_everyone),
{
    let written = described_role(role, is_everyone).attributes.permissions;
    assert forall|permission: Seq<char>| #[trigger] lookup(written, permission) == match lookup(
        role.permissions,
        permission,
    ) {
        Some(value) => if !is_everyone && !value {
            None
        } else {
            Some(ManagedValue::Value(value))
        },
        None => None,
    } by {
        if is_everyone {
            managed_values_are_found(role.permissions, permission);
        } else {
            managed_values_are_found(granted(role.permissions), permission);
            granted_are_found(role.permissions, permission);
        }
    }
}

proof fn described_are_named(ids: Seq<u64>, guild_id: u64, described: DescribedRolesView, i: int, name: Seq<char>)
    requires
        0 <= i < ids.len(),
        described_name(ids[i], guild_id, described) == Some(name),
    ensures
        described_names(ids, guild_id, described).contains(name),
    decreases ids.len(),
{
    let front = ids.drop_last();
    let rest = described_names(front, guild_id, described);
    let all = described_names(ids, guild_id, described);
    if i < front.len() {
        described_are_named(front, guild_id, described, i, name);
        let k = rest.index_of(name);
        assert(all[k] == name);
    } else {
        assert(all[all.len() - 1] == name);
    }
}

/// What was exported of the roles of a guild holds all of it: each role that the bot can
/// manage with its name, its color, its marks and what it grants, bound to it, under the
/// name that it had before; and each other that had a name as a reference. All that is
/// declared stands for a role of the guild, and is named by the order.
pub proof fn exported_roles_hold_the_guild(
    catalog: RoleCatalogView,
    guild_id: u64,
    previous: Option<StateView>,
    n: int,
    declared: Seq<char>,
)
    requires
        roles_have_own_ids(catalog.roles),
        previous is Some ==> is_earlier_state(previous->0, guild_id),
        exported_roles(catalog, guild_id, previous) is Ok,
        0 <= n < catalog.roles.len(),
        sorted::<KnownPermission, bool>(catalog.roles[n].permissions),
    ensures
        ({
            let (definition, state) = exported_roles(catalog, guild_id, previous)->Ok_0;
            let earlier = match previous {
                Some(state) => state.roles,
                None => Seq::empty(),
            };
            &&& is_written_down(catalog.roles[n], guild_id, definition, state, earlier)
            &&& has_key(definition.roles, declared) ==> {
                &&& exists|k: int|
                    0 <= k < catalog.roles.len() && bound_to(state, declared) == Some((#[trigger] catalog.roles[k]).id)
                &&& definition.order is Some && definition.order->0.roles.contains(declared)
            }
            &&& state.guild_id == guild_id
            &&& forall|name: Seq<char>| #[trigger]
                lookup(earlier, name) is Some ==> lookup(state.roles, name) == lookup(earlier, name)
        }),
{
    let roles = catalog.roles;
    let role = roles[n];
    let earlier = earlier_state(guild_id, previous);
    let described = described_roles(roles, guild_id, earlier.roles)->Ok_0;
    let (definition, state) = exported_roles(catalog, guild_id, previous)->Ok_0;
    assert(roles.take(roles.len() as int) =~= roles);
    assert(is_earlier_state(earlier, guild_id));
    described_roles_are_faithful(roles, roles.len() as int, guild_id, earlier.roles);
    assert(is_described(roles[n], described, guild_id, earlier.roles));
    let previous_roles = match previous {
        Some(state) => state.roles,
        None => Seq::empty(),
    };
    assert(previous_roles =~= earlier.roles);
    if role.manageable {
        let name = if role.id == guild_id {
            everyone()
        } else {
            role_name(role.id, earlier.roles)->Ok_0
        };
        assert(lookup(described.definitions, name) is Some);
        let k = choose|k: int|
            0 <= k < roles.len() && describes(
                #[trigger] roles[k],
                name,
                lookup(described.definitions, name)->0,
                described.mappings,
                guild_id,
                earlier.roles,
            );
        assert(!has_key(described.mappings, everyone())) by {
            assert(state_of(guild_id, described.mappings).is_sound());
        }
        if role.id != guild_id {
            name_is_not_reserved(role.id, earlier.roles);
        }
        if roles[k].id != role.id {
            if roles[k].manageable && roles[k].id != guild_id {
                name_is_not_reserved(roles[k].id, earlier.roles);
            }
            assert(false);
        }
        if k < n {
            assert(roles[k].id != roles[n].id);
        } else if n < k {
            assert(roles[n].id != roles[k].id);
        }
        described_roles_are_written(role, role.id == guild_id);
        if role.id != guild_id {
            assert forall|other: Seq<char>| #[trigger] lookup(previous_roles, other) == Some(role.id) implies other
                == name by {
                bound_is_held(earlier.roles, other, role.id);
            }
            if forall|other: Seq<char>| #[trigger] lookup(previous_roles, other) != Some(role.id) {
                if holder(earlier.roles, role.id) is Some {
                    holder_is_bound(earlier.roles, role.id);
                    assert(lookup(previous_roles, holder(earlier.roles, role.id)->0) == Some(role.id));
                }
            }
            assert(lookup(state.roles, name) == Some(role.id));
        }
    } else {
        assert forall|name: Seq<char>| #[trigger] lookup(previous_roles, name) == Some(role.id) implies lookup(
            state.roles,
            name,
        ) == Some(role.id) && lookup(definition.roles, name) is Some && (role.id != guild_id ==> lookup(
            definition.roles,
            name,
        )->0.mode == RoleMode::Reference) by {
            bound_is_held(earlier.roles, name, role.id);
            assert(lookup(described.definitions, name) is Some);
            let k = choose|k: int|
                0 <= k < roles.len() && describes(
                    #[trigger] roles[k],
                    name,
                    lookup(described.definitions, name)->0,
                    described.mappings,
                    guild_id,
                    earlier.roles,
                );
            assert(lookup(described.mappings, name) == lookup(earlier.roles, name));
            assert(!has_key(described.mappings, everyone())) by {
                assert(state_of(guild_id, described.mappings).is_sound());
            }
            if k < n {
                assert(roles[k].id != roles[n].id);
            } else if n < k {
                assert(roles[n].id != roles[k].id);
            }
        }
    }
    if has_key(definition.roles, declared) {
        let current = role_order(roles, guild_id);
        let k = choose|k: int|
            0 <= k < roles.len() && describes(
                #[trigger] roles[k],
                declared,
                lookup(described.definitions, declared)->0,
                described.mappings,
                guild_id,
                earlier.roles,
            );
        assert(!has_key(described.mappings, everyone())) by {
            assert(state_of(guild_id, described.mappings).is_sound());
        }
        crate::resource::role::order_laws::roles_stand_by_position(roles, guild_id);
        assert(current.contains(roles[k].id));
        let place = current.index_of(roles[k].id);
        if declared == everyone() {
            assert(roles[k].id == guild_id);
            assert(bound_to(state, declared) == Some(roles[k].id));
        } else {
            assert(lookup(described.mappings, declared) == Some(roles[k].id));
            assert(is_injective(described.mappings)) by {
                assert(state_of(guild_id, described.mappings).is_sound());
            }
            bound_is_held(described.mappings, declared, roles[k].id);
            assert(roles[k].id != guild_id) by {
                assert(state_of(guild_id, described.mappings).is_sound());
            }
        }
        assert(described_name(current[place], guild_id, described) == Some(declared));
        described_are_named(current, guild_id, described, place, declared);
    }
}

} // verus!
