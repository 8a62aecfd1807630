//! Binding a declared name to a Discord object that exists.

use vstd::prelude::*;

use crate::configuration::definition::{DefinitionFile, DefinitionView};
use crate::configuration::order::accepted;
use crate::configuration::state::{
    bound_role_keeps_sound, entry_has_holder, holder, holder_has_entry, is_injective, put_keeps_injective,
    serialize_state, sound_states_are_accepted, state_text, MappingsView, StateFile, StateView,
};
use crate::domain::{ErrorView, ManagementError, ResourceType};
use crate::export::role::find_name;
use crate::ids::{
    everyone, logical_id_fault, parsed_logical_id, ChannelId, ChannelLogicalId, DiscordId, GuildId, LogicalId, MemberId,
    MemberLogicalId, RoleId, RoleLogicalId,
};
use crate::ordered::{has_key, lookup, put, put_then_lookup, sorted, OrderedMap};
use crate::port::ResourceLookup;
use crate::text::{decimal, decimal_text, number, parse_number, text2, text3, text5, text7};
use crate::value::{seen, Plain};

verus! {

/// A declared name, with the kind of what it names.
pub enum BoundLogicalId {
    Role(RoleLogicalId),
    Channel(ChannelLogicalId),
    Member(MemberLogicalId),
}

/// What a declared name holds.
pub enum BoundView {
    Role(Seq<char>),
    Channel(Seq<char>),
    Member(Seq<char>),
}

impl DeepView for BoundLogicalId {
    type V = BoundView;

    open spec fn deep_view(&self) -> BoundView {
        match self {
            BoundLogicalId::Role(id) => BoundView::Role(id.deep_view()),
            BoundLogicalId::Channel(id) => BoundView::Channel(id.deep_view()),
            BoundLogicalId::Member(id) => BoundView::Member(id.deep_view()),
        }
    }
}

/// A state with a new binding, and its text.
pub struct BindResult {
    pub state: StateFile,
    pub state_json: String,
}

impl DeepView for BindResult {
    type V = (StateView, Seq<char>);

    open spec fn deep_view(&self) -> (StateView, Seq<char>) {
        (self.state.deep_view(), self.state_json@)
    }
}

/// The number that a text stands for as a Discord identifier, or why it is none.
pub open spec fn discord_id_of(kind: ResourceType, text: Seq<char>) -> Result<u64, ErrorView> {
    match number(text) {
        Err(error) => Err(
            ErrorView::InvalidInputFile(
                kind.chars() + " の Discord ID "@ + text + " が不正です: "@ + error.chars(),
            ),
        ),
        Ok(id) => if id == u64::MAX {
            Err(
                ErrorView::InvalidInputFile(
                    kind.chars() + " の Discord ID "@ + text + " は使用できません"@,
                ),
            )
        } else {
            Ok(id)
        },
    }
}

/// Reads a Discord identifier.
pub fn parse_discord_id(resource_type: ResourceType, discord_id: &str) -> (result: Result<u64, ManagementError>)
    ensures
        seen(result) == discord_id_of(resource_type, discord_id@),
        result is Ok ==> result->Ok_0 != u64::MAX,
{
    match parse_number(discord_id) {
        Err(error) => Err(
            ManagementError::InvalidInputFile(
                text5(
                    resource_type.as_str(),
                    " の Discord ID ",
                    discord_id,
                    " が不正です: ",
                    error.as_str(),
                ),
            ),
        ),
        Ok(id) => if id == u64::MAX {
            Err(
                ManagementError::InvalidInputFile(
                    text2(
                        text3(resource_type.as_str(), " の Discord ID ", discord_id).as_str(),
                        " は使用できません",
                    ),
                ),
            )
        } else {
            Ok(id)
        },
    }
}

/// The declared name that a text is, or why it is none.
pub open spec fn declared_name(
    definition: DefinitionView,
    kind: ResourceType,
    text: Seq<char>,
) -> Result<BoundView, ErrorView> {
    match parsed_logical_id(text) {
        Err(_) => Err(
            ErrorView::InvalidDefinition(kind.chars() + " の論理 ID が不正です: "@ + logical_id_fault()),
        ),
        Ok(id) => match kind {
            ResourceType::Role => if id == everyone() {
                Err(
                    ErrorView::InvalidDefinition(
                        "予約参照 everyone は bind せず、Guild ID へ自動解決します"@,
                    ),
                )
            } else if !has_key(definition.roles, id) {
                Err(not_declared(kind, id))
            } else {
                Ok(BoundView::Role(id))
            },
            ResourceType::Channel => match lookup(definition.channels, id) {
                None => Err(not_declared(kind, id)),
                Some(crate::configuration::channel::ChannelDefinitionView::Absent) => Err(
                    ErrorView::InvalidDefinition("Channel "@ + id + " は削除宣言のため bind できません"@),
                ),
                Some(_) => Ok(BoundView::Channel(id)),
            },
            ResourceType::Member => if !has_key(definition.members, id) {
                Err(not_declared(kind, id))
            } else {
                Ok(BoundView::Member(id))
            },
        },
    }
}

/// Why a name cannot be bound: it is not declared.
pub open spec fn not_declared(kind: ResourceType, id: Seq<char>) -> ErrorView {
    ErrorView::InvalidDefinition(kind.chars() + " "@ + id + " の宣言が definition にありません"@)
}

fn not_declared_error(kind: ResourceType, id: &str) -> (error: ManagementError)
    ensures
        error.deep_view() == not_declared(kind, id@),
{
    ManagementError::InvalidDefinition(
        text2(text3(kind.as_str(), " ", id).as_str(), " の宣言が definition にありません"),
    )
}

fn bad_name_error(kind: ResourceType) -> (error: ManagementError)
    ensures
        error.deep_view() == ErrorView::InvalidDefinition(
            kind.chars() + " の論理 ID が不正です: "@ + logical_id_fault(),
        ),
{
    ManagementError::InvalidDefinition(
        text3(kind.as_str(), " の論理 ID が不正です: ", crate::ids::LogicalIdError.as_str()),
    )
}

/// The declared name that a text is.
pub fn declared_logical_id(definition: &DefinitionFile, resource_type: ResourceType, logical_id: &str) -> (result: Result<
    BoundLogicalId,
    ManagementError,
>)
    ensures
        seen(result) == declared_name(definition.deep_view(), resource_type, logical_id@),
{
    match resource_type {
        ResourceType::Role => match RoleLogicalId::parse(logical_id) {
            Err(_) => Err(bad_name_error(resource_type)),
            Ok(id) => {
                if id.is_everyone() {
                    return Err(
                        ManagementError::InvalidDefinition(
                            "予約参照 everyone は bind せず、Guild ID へ自動解決します".to_owned(),
                        ),
                    );
                }
                if !definition.roles.contains_key(&id) {
                    return Err(not_declared_error(resource_type, id.as_str()));
                }
                Ok(BoundLogicalId::Role(id))
            },
        },
        ResourceType::Channel => match ChannelLogicalId::parse(logical_id) {
            Err(_) => Err(bad_name_error(resource_type)),
            Ok(id) => match definition.channels.get(&id) {
                None => Err(not_declared_error(resource_type, id.as_str())),
                Some(channel) => if channel.is_absent() {
                    Err(
                        ManagementError::InvalidDefinition(
                            text3("Channel ", id.as_str(), " は削除宣言のため bind できません"),
                        ),
                    )
                } else {
                    Ok(BoundLogicalId::Channel(id))
                },
            },
        },
        ResourceType::Member => match MemberLogicalId::parse(logical_id) {
            Err(_) => Err(bad_name_error(resource_type)),
            Ok(id) => if definition.members.contains_key(&id) {
                Ok(BoundLogicalId::Member(id))
            } else {
                Err(not_declared_error(resource_type, id.as_str()))
            },
        },
    }
}

/// What is wrong with a new binding: the name is bound to another object, or the
/// object to another name.
pub open spec fn mapping_conflict(
    mappings: MappingsView,
    name: Seq<char>,
    id: u64,
    kind: Seq<char>,
) -> Option<ErrorView> {
    let bound = lookup(mappings, name);
    let named = holder(mappings, id);
    if bound is Some && bound->0 != id {
        Some(
            ErrorView::InvalidState(
                kind + " "@ + name + " はすでに Snowflake "@ + decimal(bound->0 as nat)
                    + " に対応しており、"@ + decimal(id as nat) + " へ暗黙に付け替えられません"@,
            ),
        )
    } else if named is Some && named->0 != name {
        Some(
            ErrorView::InvalidState(
                kind + " "@ + named->0 + " がすでに Snowflake "@ + decimal(id as nat)
                    + " を採用しています"@,
            ),
        )
    } else {
        None
    }
}

/// What is wrong with a new binding in a state.
pub open spec fn binding_conflict(state: StateView, bound: BoundView, id: u64) -> Option<ErrorView> {
    match bound {
        BoundView::Role(name) => mapping_conflict(state.roles, name, id, "Role"@),
        BoundView::Channel(name) => mapping_conflict(state.channels, name, id, "Channel"@),
        BoundView::Member(name) => mapping_conflict(state.members, name, id, "Member"@),
    }
}

/// Checks a new binding.
pub fn validate_mapping_conflict<L, D>(
    mappings: &OrderedMap<LogicalId<L>, DiscordId<D>>,
    logical_id: &LogicalId<L>,
    discord_id: u64,
    resource_type: &str,
) -> (result: Result<(), ManagementError>)
    ensures
        seen(result) == accepted(
            mapping_conflict(mappings.deep_view(), logical_id.deep_view(), discord_id, resource_type@),
        ),
{
    match mappings.get(logical_id) {
        None => {},
        Some(existing) => {
            if existing.get() != discord_id {
                return Err(
                    ManagementError::InvalidState(
                        text2(
                            text7(
                                resource_type,
                                " ",
                                logical_id.as_str(),
                                " はすでに Snowflake ",
                                existing.to_text().as_str(),
                                " に対応しており、",
                                decimal_text(discord_id).as_str(),
                            ).as_str(),
                            " へ暗黙に付け替えられません",
                        ),
                    ),
                );
            }
        },
    }
    match find_name(mappings, discord_id) {
        None => {},
        Some(existing) => {
            if !existing.same(logical_id) {
                return Err(
                    ManagementError::InvalidState(
                        text2(
                            text5(
                                resource_type,
                                " ",
                                existing.as_str(),
                                " がすでに Snowflake ",
                                decimal_text(discord_id).as_str(),
                            ).as_str(),
                            " を採用しています",
                        ),
                    ),
                );
            }
        },
    }
    Ok(())
}

/// Checks a new binding in a state.
pub fn validate_binding_conflicts(state: &StateFile, logical_id: &BoundLogicalId, discord_id: u64) -> (result: Result<
    (),
    ManagementError,
>)
    ensures
        seen(result) == accepted(
            binding_conflict(state.deep_view(), logical_id.deep_view(), discord_id),
        ),
{
    match logical_id {
        BoundLogicalId::Role(id) => validate_mapping_conflict(&state.roles, id, discord_id, "Role"),
        BoundLogicalId::Channel(id) => validate_mapping_conflict(&state.channels, id, discord_id, "Channel"),
        BoundLogicalId::Member(id) => validate_mapping_conflict(&state.members, id, discord_id, "Member"),
    }
}

/// What is wrong with the object that was found for a binding.
pub open spec fn lookup_fault(
    kind: ResourceType,
    id: u64,
    guild_id: u64,
    found: Option<(ResourceType, u64)>,
) -> Option<ErrorView> {
    match found {
        None => Some(ErrorView::ResourceNotFound { resource_type: kind, discord_id: id }),
        Some((found_kind, found_guild)) => if found_kind != kind {
            Some(ErrorView::ResourceTypeMismatch { expected: kind, actual: found_kind, discord_id: id })
        } else if found_guild != guild_id {
            Some(
                ErrorView::ResourceGuildMismatch {
                    resource_type: kind,
                    discord_id: id,
                    resource_guild_id: found_guild,
                    actual_guild_id: guild_id,
                },
            )
        } else {
            None
        },
    }
}

/// What was found for a binding.
pub open spec fn found_of(lookup: Option<ResourceLookup>) -> Option<(ResourceType, u64)> {
    match lookup {
        Some(lookup) => Some((lookup.resource_type, lookup.guild_id.deep_view())),
        None => None,
    }
}

/// Checks the object that was found for a binding.
pub fn validate_lookup(
    resource_type: ResourceType,
    discord_id: u64,
    guild_id: GuildId,
    lookup: Option<ResourceLookup>,
) -> (result: Result<(), ManagementError>)
    ensures
        seen(result) == accepted(
            lookup_fault(resource_type, discord_id, guild_id.deep_view(), found_of(lookup)),
        ),
{
    match lookup {
        None => Err(ManagementError::ResourceNotFound { resource_type, discord_id }),
        Some(lookup) => if lookup.resource_type != resource_type {
            Err(
                ManagementError::ResourceTypeMismatch {
                    expected: resource_type,
                    actual: lookup.resource_type,
                    discord_id,
                },
            )
        } else if lookup.guild_id.get() != guild_id.get() {
            Err(
                ManagementError::ResourceGuildMismatch {
                    resource_type,
                    discord_id,
                    resource_guild_id: lookup.guild_id,
                    actual_guild_id: guild_id,
                },
            )
        } else {
            Ok(())
        },
    }
}

/// A state with one more binding.
pub open spec fn with_binding(state: StateView, bound: BoundView, id: u64) -> StateView {
    match bound {
        BoundView::Role(name) => StateView { roles: put::<RoleLogicalId, u64>(state.roles, name, id), ..state },
        BoundView::Channel(name) => StateView {
            channels: put::<ChannelLogicalId, u64>(state.channels, name, id),
            ..state
        },
        BoundView::Member(name) => StateView {
            members: put::<MemberLogicalId, u64>(state.members, name, id),
            ..state
        },
    }
}

impl BoundLogicalId {
    /// Adds the binding to a state.
    pub fn insert_into(self, state: &mut StateFile, discord_id: u64)
        requires
            discord_id != u64::MAX,
        ensures
            final(state).deep_view() == with_binding(old(state).deep_view(), self.deep_view(), discord_id),
    {
        match self {
            BoundLogicalId::Role(id) => state.roles.insert(id, RoleId::new(discord_id)),
            BoundLogicalId::Channel(id) => state.channels.insert(id, ChannelId::new(discord_id)),
            BoundLogicalId::Member(id) => state.members.insert(id, MemberId::new(discord_id)),
        }
    }
}

/// A binding that was asked for, and can be made if the object is found.
pub struct BindRequest {
    pub logical_id: BoundLogicalId,
    pub discord_id: u64,
}

impl DeepView for BindRequest {
    type V = (BoundView, u64);

    open spec fn deep_view(&self) -> (BoundView, u64) {
        (self.logical_id.deep_view(), self.discord_id)
    }
}

/// The binding that is asked for, or why it cannot be made whatever is found.
pub open spec fn bind_request(
    definition: DefinitionView,
    state: StateView,
    guild_id: u64,
    kind: ResourceType,
    logical_id: Seq<char>,
    discord_id: Seq<char>,
) -> Result<(BoundView, u64), ErrorView> {
    match discord_id_of(kind, discord_id) {
        Err(error) => Err(error),
        Ok(id) => if kind == ResourceType::Role && id == guild_id {
            Err(
                ErrorView::InvalidDefinition(
                    "予約参照 everyone の Role ID は別の論理 ID へ bind できません"@,
                ),
            )
        } else {
            match declared_name(definition, kind, logical_id) {
                Err(error) => Err(error),
                Ok(bound) => match binding_conflict(state, bound, id) {
                    Some(error) => Err(error),
                    None => Ok((bound, id)),
                },
            }
        },
    }
}

/// Checks a binding that is asked for, before the object is looked up.
pub fn prepare_bind(
    definition: &DefinitionFile,
    state: &StateFile,
    guild_id: GuildId,
    resource_type: ResourceType,
    logical_id: &str,
    discord_id: &str,
) -> (result: Result<BindRequest, ManagementError>)
    ensures
        seen(result) == bind_request(
            definition.deep_view(),
            state.deep_view(),
            guild_id.deep_view(),
            resource_type,
            logical_id@,
            discord_id@,
        ),
        result is Ok ==> result->Ok_0.discord_id != u64::MAX,
{
    let id: u64 = parse_discord_id(resource_type, discord_id)?;
    if resource_type == ResourceType::Role && id == guild_id.get() {
        return Err(
            ManagementError::InvalidDefinition(
                "予約参照 everyone の Role ID は別の論理 ID へ bind できません".to_owned(),
            ),
        );
    }
    let logical_id: BoundLogicalId = declared_logical_id(definition, resource_type, logical_id)?;
    validate_binding_conflicts(state, &logical_id, id)?;
    Ok(BindRequest { logical_id, discord_id: id })
}

/// The state with a binding, given what was found of the object.
pub open spec fn bound_state(
    state: StateView,
    guild_id: u64,
    kind: ResourceType,
    request: (BoundView, u64),
    found: Option<(ResourceType, u64)>,
) -> Result<(StateView, Seq<char>), ErrorView> {
    match lookup_fault(kind, request.1, guild_id, found) {
        Some(error) => Err(error),
        None => {
            let bound = with_binding(state, request.0, request.1);
            Ok((bound, state_text(bound)))
        },
    }
}

/// Makes a binding that was asked for, given what was found of the object.
pub fn bind_resource(
    state: StateFile,
    guild_id: GuildId,
    resource_type: ResourceType,
    request: BindRequest,
    lookup: Option<ResourceLookup>,
) -> (result: Result<BindResult, ManagementError>)
    requires
        request.discord_id != u64::MAX,
    ensures
        seen(result) == bound_state(
            state.deep_view(),
            guild_id.deep_view(),
            resource_type,
            request.deep_view(),
            found_of(lookup),
        ),
{
    validate_lookup(resource_type, request.discord_id, guild_id, lookup)?;
    let mut state: StateFile = state;
    request.logical_id.insert_into(&mut state, request.discord_id);
    let state_json: String = serialize_state(&state)?;
    Ok(BindResult { state, state_json })
}

/// A new binding is found in the state, leaves every other binding as it was, and
/// leaves a sound state sound: what bind writes, the next command reads.
pub proof fn binding_keeps_state_sound(
    definition: DefinitionView,
    state: StateView,
    kind: ResourceType,
    logical_id: Seq<char>,
    discord_id: Seq<char>,
)
    requires
        state.is_sound(),
        sorted::<RoleLogicalId, u64>(state.roles),
        sorted::<ChannelLogicalId, u64>(state.channels),
        sorted::<MemberLogicalId, u64>(state.members),
        bind_request(definition, state, state.guild_id, kind, logical_id, discord_id) is Ok,
    ensures
        ({
            let request = bind_request(definition, state, state.guild_id, kind, logical_id, discord_id)->Ok_0;
            let after = with_binding(state, request.0, request.1);
            &&& after.is_sound()
            &&& after.parsed_for_guild(state.guild_id) == Ok::<StateView, ErrorView>(after)
            &&& bound_id(after, request.0) == Some(request.1)
            &&& forall|other: BoundView| other != request.0 ==> #[trigger] bound_id(after, other) == bound_id(
                state,
                other,
            )
        }),
{
    let request = bind_request(definition, state, state.guild_id, kind, logical_id, discord_id)->Ok_0;
    let id = request.1;
    let after = with_binding(state, request.0, id);
    match request.0 {
        BoundView::Role(name) => {
            bound_role_keeps_sound(state, name, id);
        },
        BoundView::Channel(name) => {
            put_keeps_injective::<ChannelLogicalId>(state.channels, name, id);
        },
        BoundView::Member(name) => {
            put_keeps_injective::<MemberLogicalId>(state.members, name, id);
        },
    }
    sound_states_are_accepted(after);
    bound_id_after(state, request.0, id, request.0);
    assert forall|other: BoundView| other != request.0 implies #[trigger] bound_id(after, other) == bound_id(
        state,
        other,
    ) by {
        bound_id_after(state, request.0, id, other);
    }
}

/// What a name is bound to.
pub open spec fn bound_id(state: StateView, bound: BoundView) -> Option<u64> {
    match bound {
        BoundView::Role(name) => lookup(state.roles, name),
        BoundView::Channel(name) => lookup(state.channels, name),
        BoundView::Member(name) => lookup(state.members, name),
    }
}

proof fn bound_id_after(state: StateView, bound: BoundView, id: u64, other: BoundView)
    ensures
        bound_id(with_binding(state, bound, id), other) == if other == bound {
            Some(id)
        } else {
            bound_id(state, other)
        },
{
    match (bound, other) {
        (BoundView::Role(name), BoundView::Role(asked)) => {
            put_then_lookup::<RoleLogicalId, u64>(state.roles, name, id, asked);
        },
        (BoundView::Channel(name), BoundView::Channel(asked)) => {
            put_then_lookup::<ChannelLogicalId, u64>(state.channels, name, id, asked);
        },
        (BoundView::Member(name), BoundView::Member(asked)) => {
            put_then_lookup::<MemberLogicalId, u64>(state.members, name, id, asked);
        },
        _ => {},
    }
}

/// The bindings of one kind.
pub open spec fn bindings_of(state: StateView, kind: ResourceType) -> MappingsView {
    match kind {
        ResourceType::Role => state.roles,
        ResourceType::Channel => state.channels,
        ResourceType::Member => state.members,
    }
}

/// A name of a kind.
pub open spec fn name_of(kind: ResourceType, name: Seq<char>) -> BoundView {
    match kind {
        ResourceType::Role => BoundView::Role(name),
        ResourceType::Channel => BoundView::Channel(name),
        ResourceType::Member => BoundView::Member(name),
    }
}

/// Whether a name is declared as something that can be bound.
pub open spec fn is_open_to_binding(definition: DefinitionView, kind: ResourceType, name: Seq<char>) -> bool {
    match kind {
        ResourceType::Role => name != everyone() && has_key(definition.roles, name),
        ResourceType::Channel => has_key(definition.channels, name) && lookup(definition.channels, name) != Some(
            crate::configuration::channel::ChannelDefinitionView::Absent,
        ),
        ResourceType::Member => has_key(definition.members, name),
    }
}

proof fn free_bindings_do_not_conflict(mappings: MappingsView, name: Seq<char>, id: u64, kind: Seq<char>)
    requires
        is_injective(mappings),
    ensures
        mapping_conflict(mappings, name, id, kind) is None <==> {
            &&& has_key(mappings, name) ==> lookup(mappings, name) == Some(id)
            &&& forall|k: int| 0 <= k < mappings.len() && (#[trigger] mappings[k]).1 == id ==> mappings[k].0 == name
        },
{
    if holder(mappings, id) is Some {
        let i = holder_has_entry(mappings, id);
        assert forall|k: int| 0 <= k < mappings.len() && (#[trigger] mappings[k]).1 == id implies k == i by {
            assert(mappings[i].1 == id);
        }
    } else {
        assert forall|k: int| 0 <= k < mappings.len() implies (#[trigger] mappings[k]).1 != id by {
            entry_has_holder(mappings, k);
        }
    }
}

/// A binding is asked for exactly where the text is the number of an object that may be
/// bound, the name is declared and stays, the name is bound to nothing else, and the object
/// has no other name.
pub proof fn bindings_are_asked_for_free_names(
    definition: DefinitionView,
    state: StateView,
    kind: ResourceType,
    logical_id: Seq<char>,
    discord_id: Seq<char>,
)
    requires
        state.is_sound(),
    ensures
        ({
            let result = bind_request(definition, state, state.guild_id, kind, logical_id, discord_id);
            let bindings = bindings_of(state, kind);
            let name = parsed_logical_id(logical_id);
            let id = number(discord_id);
            &&& result is Ok <==> {
                &&& id is Ok
                &&& id->Ok_0 != u64::MAX
                &&& kind == ResourceType::Role ==> id->Ok_0 != state.guild_id
                &&& name is Ok
                &&& is_open_to_binding(definition, kind, name->Ok_0)
                &&& has_key(bindings, name->Ok_0) ==> lookup(bindings, name->Ok_0) == Some(id->Ok_0)
                &&& forall|k: int|
                    0 <= k < bindings.len() && (#[trigger] bindings[k]).1 == id->Ok_0 ==> bindings[k].0 == name->Ok_0
            }
            &&& result is Ok ==> result->Ok_0 == (name_of(kind, name->Ok_0), id->Ok_0)
        }),
{
    let bindings = bindings_of(state, kind);
    if parsed_logical_id(logical_id) is Ok && number(discord_id) is Ok {
        let name = parsed_logical_id(logical_id)->Ok_0;
        let id = number(discord_id)->Ok_0;
        free_bindings_do_not_conflict(bindings, name, id, "Role"@);
        free_bindings_do_not_conflict(bindings, name, id, "Channel"@);
        free_bindings_do_not_conflict(bindings, name, id, "Member"@);
    }
}

/// A binding is made exactly where an object of that kind was found in that guild. The name
/// is then bound to it, and every other name is bound as before.
pub proof fn bindings_are_made_to_what_was_found(
    state: StateView,
    guild_id: u64,
    kind: ResourceType,
    name: Seq<char>,
    id: u64,
    found: Option<(ResourceType, u64)>,
)
    ensures
        ({
            let result = bound_state(state, guild_id, kind, (name_of(kind, name), id), found);
            &&& result is Ok <==> found == Some((kind, guild_id))
            &&& result is Ok ==> {
                let after = result->Ok_0.0;
                &&& after.schema_version == state.schema_version
                &&& after.guild_id == state.guild_id
                &&& forall|other: ResourceType, asked: Seq<char>|
                    #[trigger] lookup(bindings_of(after, other), asked) == if other == kind && asked == name {
                        Some(id)
                    } else {
                        lookup(bindings_of(state, other), asked)
                    }
                &&& result->Ok_0.1 == state_text(after)
            }
        }),
{
    let result = bound_state(state, guild_id, kind, (name_of(kind, name), id), found);
    if result is Ok {
        let after = result->Ok_0.0;
        assert forall|other: ResourceType, asked: Seq<char>|
            #[trigger] lookup(bindings_of(after, other), asked) == if other == kind && asked == name {
                Some(id)
            } else {
                lookup(bindings_of(state, other), asked)
            } by {
            bound_id_after(state, name_of(kind, name), id, name_of(other, asked));
            assert(bound_id(after, name_of(other, asked)) == lookup(bindings_of(after, other), asked));
            assert(bound_id(state, name_of(other, asked)) == lookup(bindings_of(state, other), asked));
        }
    }
}

} // verus!
