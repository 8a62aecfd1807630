//! Definitions, states, binding, exports and plans, from the texts of the files.

use discord_management::bind::{bind_resource, prepare_bind, BindResult};
use discord_management::configuration::channel::{
    ChannelValue, Ensure, MemberDefinition, OverwriteTarget, OverwriteValue, RawChannelAttributes, RawChannelDefinition,
    RawChannelKind,
};
use discord_management::configuration::definition::{
    DefinitionFile, RawDefinitionFile, RawMessageDefinition, RawMessageSetDefinition, RawOrderDefinition,
    RawSettingsSets, RawThreadDefinition,
};
use discord_management::configuration::input::PlanInput;
use discord_management::configuration::permission::{KnownPermission, PermissionName, PermissionVocabulary};
use discord_management::configuration::role::{
    Color, ManagedValue, OptionalManagedValueExt, RawRoleAttributes, RawRoleDefinition, RoleEnsure, RoleMode,
};
use discord_management::configuration::state::{collect_unique_mappings, serialize_state, RawStateFile, StateFile};
use discord_management::domain::{ManagementError, ResourceType};
use discord_management::export::role::{export_roles, ExportFiles};
use discord_management::ids::{
    everyone_logical_id, ChannelLogicalId, DiscordId, GuildId, LogicalId, MemberLogicalId, RoleId, RoleLogicalId,
};
use discord_management::ordered::OrderedMap;
use discord_management::plan::plan_roles;
use discord_management::port::{ResourceLookup, RoleCatalog, RoleSnapshot};
use discord_management::resource::role::plan::{Change, Plan};
use discord_management::service::apply::{RoleApplyResult, RoleApplySession, RoleApplyStart, RoleApplyStatus, RoleEvent};
use discord_management::service::management::RoleManagementService;
use discord_management::service::plan::RolePlan;
use discord_management::service::state::{RawTrackedState, TrackedInput, TrackedState};
use discord_management::apply::Reply;
use discord_management::port::{RoleCreateOutcome, RoleDeleteOutcome, RoleUpdate, RoleUpdateOutcome};
use discord_management::resource::role::apply::{RoleAction, RoleApplyOptions};
use discord_management::value::Plain;

fn invalid(message: impl Into<String>) -> ManagementError {
    ManagementError::InvalidDefinition(message.into())
}

fn bad_state(message: impl Into<String>) -> ManagementError {
    ManagementError::InvalidState(message.into())
}

fn error_of<T>(result: Result<T, ManagementError>) -> ManagementError {
    match result {
        Ok(_) => panic!("an error is expected"),
        Err(error) => error,
    }
}

fn message_of(error: ManagementError) -> String {
    match error {
        ManagementError::InvalidDefinition(message) => message,
        other => panic!("the definition should be invalid: {other:?}"),
    }
}

fn state_message_of(error: ManagementError) -> String {
    match error {
        ManagementError::InvalidState(message) => message,
        other => panic!("the state should be invalid: {other:?}"),
    }
}

fn vocabulary() -> PermissionVocabulary {
    let names: Vec<String> = ["MANAGE_MESSAGES", "MANAGE_ROLES", "SEND_MESSAGES", "VIEW_CHANNEL"]
        .iter()
        .map(|name| name.to_string())
        .collect();
    PermissionVocabulary::from_names(&names).unwrap()
}

fn known_permission(name: &str) -> KnownPermission {
    vocabulary().resolve(&PermissionName::parse(name).unwrap()).unwrap()
}

fn guild_id(value: u64) -> GuildId {
    GuildId::new(value)
}

fn role_id(value: &str) -> RoleId {
    RoleId::parse(value).unwrap()
}

fn logical_id(value: &str) -> RoleLogicalId {
    RoleLogicalId::parse(value).unwrap()
}

fn values(entries: &[(&str, bool)]) -> OrderedMap<KnownPermission, bool> {
    let mut map = OrderedMap::new();
    for (name, value) in entries {
        map.insert(known_permission(name), *value);
    }
    map
}

fn role(id: &str, name: &str) -> RoleSnapshot {
    RoleSnapshot {
        id: role_id(id),
        position: 0,
        manageable: true,
        name: name.to_owned(),
        color: Color::default(),
        hoist: false,
        mentionable: false,
        permissions: values(&[("SEND_MESSAGES", false), ("VIEW_CHANNEL", true)]),
    }
}

/// The catalog of a guild with the given roles. The role of the guild gives the defaults.
fn catalog_of(guild: u64, roles: Vec<RoleSnapshot>) -> RoleCatalog {
    let mut permission_names = OrderedMap::new();
    let mut default_permissions: OrderedMap<KnownPermission, bool> = OrderedMap::new();
    for role in &roles {
        for (name, _) in role.permissions.copy().into_entries() {
            default_permissions.insert(name.copy(), false);
            permission_names.insert(name, ());
        }
    }
    if let Some(everyone) = roles.iter().find(|role| role.id.get() == guild) {
        default_permissions = everyone.permissions.copy();
    }
    RoleCatalog { roles, grantable_permissions: permission_names.copy(), permission_names, default_permissions }
}

// The text of a definition.

fn only(table: &toml::Table, allowed: &[&str]) -> Result<(), ManagementError> {
    match table.keys().find(|key| !allowed.contains(&key.as_str())) {
        Some(key) => Err(invalid(format!("unknown field `{key}`"))),
        None => Ok(()),
    }
}

fn read_text(value: &toml::Value) -> Result<String, ManagementError> {
    value.as_str().map(str::to_owned).ok_or_else(|| invalid("a text is expected"))
}

fn read_bool(value: &toml::Value) -> Result<bool, ManagementError> {
    value.as_bool().ok_or_else(|| invalid("a truth value is expected"))
}

fn read_u16(value: &toml::Value) -> Result<u16, ManagementError> {
    value
        .as_integer()
        .and_then(|number| u16::try_from(number).ok())
        .ok_or_else(|| invalid("a small number is expected"))
}

fn read_color(value: &toml::Value) -> Result<Color, ManagementError> {
    let number = value
        .as_integer()
        .and_then(|number| u32::try_from(number).ok())
        .ok_or_else(|| invalid("a number is expected"))?;
    Color::new(number).map_err(invalid)
}

fn read_id<Tag>(value: &toml::Value) -> Result<LogicalId<Tag>, ManagementError> {
    LogicalId::parse(&read_text(value)?).map_err(|error| invalid(error.as_str()))
}

fn key_id<Tag>(key: &str) -> Result<LogicalId<Tag>, ManagementError> {
    LogicalId::parse(key).map_err(|error| invalid(error.as_str()))
}

fn read_ids<Tag>(value: Option<&toml::Value>) -> Result<Vec<LogicalId<Tag>>, ManagementError> {
    match value {
        None => Ok(Vec::new()),
        Some(value) => value
            .as_array()
            .ok_or_else(|| invalid("a list is expected"))?
            .iter()
            .map(read_id)
            .collect(),
    }
}

fn read_table(value: &toml::Value) -> Result<&toml::Table, ManagementError> {
    value.as_table().ok_or_else(|| invalid("a table is expected"))
}

fn read_managed<T: Plain>(
    value: Option<&toml::Value>,
    read: impl Fn(&toml::Value) -> Result<T, ManagementError>,
) -> Result<Option<ManagedValue<T>>, ManagementError> {
    let Some(value) = value else { return Ok(None) };
    if let Some(table) = value.as_table() {
        let default = table.get("default").ok_or_else(|| invalid("default is expected"))?;
        return ManagedValue::from_marker(read_bool(default)?).map(Some).map_err(invalid);
    }
    Ok(Some(ManagedValue::Value(read(value)?)))
}

fn read_channel_value<T: Plain>(
    value: Option<&toml::Value>,
    read: impl Fn(&toml::Value) -> Result<T, ManagementError>,
) -> Result<Option<ChannelValue<T>>, ManagementError> {
    let Some(value) = value else { return Ok(None) };
    if let Some(table) = value.as_table() {
        only(table, &["default", "clear"])?;
        let default = table.get("default").map(read_bool).transpose()?;
        let clear = table.get("clear").map(read_bool).transpose()?;
        return ChannelValue::from_markers(default, clear).map(Some).map_err(invalid);
    }
    Ok(Some(ChannelValue::Value(read(value)?)))
}

fn read_permission_name(key: &str) -> Result<PermissionName, ManagementError> {
    PermissionName::parse(key).map_err(invalid)
}

const ROLE_ATTRIBUTES: [&str; 5] = ["name", "color", "hoist", "mentionable", "permissions"];

fn read_role_attributes(table: &toml::Table) -> Result<RawRoleAttributes, ManagementError> {
    let mut permissions = OrderedMap::new();
    if let Some(value) = table.get("permissions") {
        for (key, value) in read_table(value)? {
            permissions.insert(read_permission_name(key)?, read_managed(Some(value), read_bool)?.unwrap());
        }
    }
    Ok(RawRoleAttributes {
        name: read_managed(table.get("name"), read_text)?,
        color: read_managed(table.get("color"), read_color)?,
        hoist: read_managed(table.get("hoist"), read_bool)?,
        mentionable: read_managed(table.get("mentionable"), read_bool)?,
        permissions,
    })
}

fn read_mode(value: Option<&toml::Value>) -> Result<RoleMode, ManagementError> {
    match value.map(read_text).transpose()?.as_deref() {
        None | Some("managed") => Ok(RoleMode::Managed),
        Some("reference") => Ok(RoleMode::Reference),
        Some(other) => Err(invalid(format!("unknown mode {other}"))),
    }
}

fn read_ensure(value: Option<&toml::Value>) -> Result<Option<Ensure>, ManagementError> {
    match value.map(read_text).transpose()?.as_deref() {
        None => Ok(None),
        Some("present") => Ok(Some(Ensure::Present)),
        Some("absent") => Ok(Some(Ensure::Absent)),
        Some(other) => Err(invalid(format!("unknown ensure {other}"))),
    }
}

fn read_role(value: &toml::Value) -> Result<RawRoleDefinition, ManagementError> {
    let table = read_table(value)?;
    let mut allowed = vec!["ensure", "mode", "settings_sets"];
    allowed.extend(ROLE_ATTRIBUTES);
    only(table, &allowed)?;
    Ok(RawRoleDefinition {
        ensure: match read_ensure(table.get("ensure"))? {
            Some(Ensure::Absent) => RoleEnsure::Absent,
            _ => RoleEnsure::Present,
        },
        mode: read_mode(table.get("mode"))?,
        settings_sets: read_ids(table.get("settings_sets"))?,
        attributes: read_role_attributes(table)?,
    })
}

const CHANNEL_ATTRIBUTES: [&str; 10] = [
    "type",
    "name",
    "parent",
    "topic",
    "nsfw",
    "slowmode_seconds",
    "default_auto_archive_minutes",
    "default_thread_slowmode_seconds",
    "permissions_sync",
    "overwrites",
];

fn read_channel_attributes(table: &toml::Table) -> Result<RawChannelAttributes, ManagementError> {
    let kind = match table.get("type").map(read_text).transpose()?.as_deref() {
        None => None,
        Some("category") => Some(RawChannelKind::Category),
        Some("text") => Some(RawChannelKind::Text),
        Some(other) => return Err(invalid(format!("unknown variant `{other}`"))),
    };
    let mut overwrites = OrderedMap::new();
    if let Some(value) = table.get("overwrites") {
        for (key, value) in read_table(value)? {
            let mut of_target = OrderedMap::new();
            for (name, value) in read_table(value)? {
                let value = match read_text(value)?.as_str() {
                    "allow" => OverwriteValue::Allow,
                    "deny" => OverwriteValue::Deny,
                    "clear" => OverwriteValue::Clear,
                    other => return Err(invalid(format!("unknown overwrite {other}"))),
                };
                of_target.insert(read_permission_name(name)?, value);
            }
            overwrites.insert(OverwriteTarget::parse(key).map_err(invalid)?, of_target);
        }
    }
    Ok(RawChannelAttributes {
        kind,
        name: read_channel_value(table.get("name"), read_text)?,
        parent: read_channel_value(table.get("parent"), read_id)?,
        topic: read_channel_value(table.get("topic"), read_text)?,
        nsfw: read_channel_value(table.get("nsfw"), read_bool)?,
        slowmode_seconds: read_channel_value(table.get("slowmode_seconds"), read_u16)?,
        default_auto_archive_minutes: read_channel_value(table.get("default_auto_archive_minutes"), read_u16)?,
        default_thread_slowmode_seconds: read_channel_value(table.get("default_thread_slowmode_seconds"), read_u16)?,
        permissions_sync: table.get("permissions_sync").map(read_bool).transpose()?,
        overwrites,
    })
}

fn read_channel(value: &toml::Value) -> Result<RawChannelDefinition, ManagementError> {
    let table = read_table(value)?;
    let mut allowed = vec!["ensure", "mode", "settings_sets"];
    allowed.extend(CHANNEL_ATTRIBUTES);
    only(table, &allowed)?;
    Ok(RawChannelDefinition {
        mode: read_mode(table.get("mode"))?,
        ensure: read_ensure(table.get("ensure"))?,
        settings_sets: read_ids(table.get("settings_sets"))?,
        attributes: read_channel_attributes(table)?,
    })
}

fn read_member(value: &toml::Value) -> Result<MemberDefinition, ManagementError> {
    let table = read_table(value)?;
    only(table, &["mode"])?;
    Ok(MemberDefinition { mode: read_mode(table.get("mode"))? })
}

fn read_messages(value: Option<&toml::Value>) -> Result<Option<Vec<RawMessageDefinition>>, ManagementError> {
    let Some(value) = value else { return Ok(None) };
    let mut messages = Vec::new();
    for value in value.as_array().ok_or_else(|| invalid("a list is expected"))? {
        let table = read_table(value)?;
        only(table, &["id", "body"])?;
        messages.push(RawMessageDefinition {
            id: read_id(table.get("id").ok_or_else(|| invalid("id is missing"))?)?,
            body: read_text(table.get("body").ok_or_else(|| invalid("body is missing"))?)?,
        });
    }
    Ok(Some(messages))
}

fn read_message_set(value: &toml::Value) -> Result<RawMessageSetDefinition, ManagementError> {
    let table = read_table(value)?;
    only(table, &["ensure", "channel", "body"])?;
    Ok(RawMessageSetDefinition {
        ensure: read_ensure(table.get("ensure"))?,
        channel: table.get("channel").map(read_id).transpose()?,
        body: read_messages(table.get("body"))?,
    })
}

fn read_thread(value: &toml::Value) -> Result<RawThreadDefinition, ManagementError> {
    let table = read_table(value)?;
    only(table, &["ensure", "channel", "name", "body"])?;
    Ok(RawThreadDefinition {
        ensure: read_ensure(table.get("ensure"))?,
        channel: table.get("channel").map(read_id).transpose()?,
        name: table.get("name").map(read_text).transpose()?,
        body: read_messages(table.get("body"))?,
    })
}

fn read_order(value: &toml::Value) -> Result<RawOrderDefinition, ManagementError> {
    let table = read_table(value)?;
    only(table, &["roles", "categories", "uncategorized", "children"])?;
    let mut children = OrderedMap::new();
    if let Some(value) = table.get("children") {
        for (key, value) in read_table(value)? {
            children.insert(key_id(key)?, read_ids(Some(value))?);
        }
    }
    Ok(RawOrderDefinition {
        roles: read_ids(table.get("roles"))?,
        categories: read_ids(table.get("categories"))?,
        uncategorized: read_ids(table.get("uncategorized"))?,
        children,
    })
}

fn read_definition(text: &str) -> Result<RawDefinitionFile, ManagementError> {
    let table: toml::Table = text.parse().map_err(|error: toml::de::Error| invalid(error.to_string()))?;
    only(
        &table,
        &["schema_version", "settings_sets", "roles", "channels", "members", "message_sets", "threads", "order"],
    )?;
    let mut settings_sets = RawSettingsSets { role: OrderedMap::new(), channel: OrderedMap::new() };
    if let Some(value) = table.get("settings_sets") {
        let sets = read_table(value)?;
        only(sets, &["role", "channel"])?;
        if let Some(value) = sets.get("role") {
            for (key, value) in read_table(value)? {
                let set = read_table(value)?;
                only(set, &ROLE_ATTRIBUTES)?;
                settings_sets.role.insert(key_id(key)?, read_role_attributes(set)?);
            }
        }
        if let Some(value) = sets.get("channel") {
            for (key, value) in read_table(value)? {
                let set = read_table(value)?;
                only(set, &CHANNEL_ATTRIBUTES)?;
                settings_sets.channel.insert(key_id(key)?, read_channel_attributes(set)?);
            }
        }
    }
    let version = table
        .get("schema_version")
        .and_then(toml::Value::as_integer)
        .and_then(|version| u32::try_from(version).ok())
        .ok_or_else(|| invalid("schema_version is missing"))?;
    let mut roles = OrderedMap::new();
    let mut channels = OrderedMap::new();
    let mut members = OrderedMap::new();
    let mut message_sets = OrderedMap::new();
    let mut threads = OrderedMap::new();
    for (key, value) in table.get("roles").map(read_table).transpose()?.into_iter().flatten() {
        roles.insert(key_id(key)?, read_role(value)?);
    }
    for (key, value) in table.get("channels").map(read_table).transpose()?.into_iter().flatten() {
        channels.insert(key_id(key)?, read_channel(value)?);
    }
    for (key, value) in table.get("members").map(read_table).transpose()?.into_iter().flatten() {
        members.insert(key_id(key)?, read_member(value)?);
    }
    for (key, value) in table.get("message_sets").map(read_table).transpose()?.into_iter().flatten() {
        message_sets.insert(key.clone(), read_message_set(value)?);
    }
    for (key, value) in table.get("threads").map(read_table).transpose()?.into_iter().flatten() {
        threads.insert(key.clone(), read_thread(value)?);
    }
    Ok(RawDefinitionFile {
        schema_version: version,
        settings_sets,
        roles,
        channels,
        members,
        message_sets,
        threads,
        order: table.get("order").map(read_order).transpose()?,
    })
}

fn parse_definition(text: &str) -> Result<DefinitionFile, ManagementError> {
    DefinitionFile::parse(read_definition(text)?, &vocabulary())
}

// The text of a state.

fn read_mappings<L, D>(
    value: Option<&serde_json::Value>,
    kind: &str,
) -> Result<OrderedMap<LogicalId<L>, DiscordId<D>>, ManagementError> {
    let mut entries = Vec::new();
    if let Some(value) = value {
        for (key, value) in value.as_object().ok_or_else(|| bad_state("an object is expected"))? {
            let id = LogicalId::parse(key).map_err(|error| bad_state(error.as_str()))?;
            let text = value.as_str().ok_or_else(|| bad_state("a text is expected"))?;
            let label = format!("{kind} ID");
            entries.push((id, DiscordId::parse_labelled(&label, text).map_err(bad_state)?));
        }
    }
    collect_unique_mappings(entries, kind).map_err(bad_state)
}

fn read_names(value: Option<&serde_json::Value>) -> OrderedMap<RoleLogicalId, ()> {
    let mut names = OrderedMap::new();
    for name in value.and_then(serde_json::Value::as_array).into_iter().flatten() {
        names.insert(logical_id(name.as_str().unwrap()), ());
    }
    names
}

fn read_object(text: &str, allowed: &[&str]) -> Result<serde_json::Map<String, serde_json::Value>, ManagementError> {
    let value: serde_json::Value = serde_json::from_str(text).map_err(|error| bad_state(error.to_string()))?;
    let object = value.as_object().ok_or_else(|| bad_state("an object is expected"))?.clone();
    match object.keys().find(|key| !allowed.contains(&key.as_str())) {
        Some(key) => Err(bad_state(format!("unknown field `{key}`"))),
        None => Ok(object),
    }
}

fn read_bindings(object: &serde_json::Map<String, serde_json::Value>) -> Result<RawStateFile, ManagementError> {
    Ok(RawStateFile {
        schema_version: object["schema_version"].as_u64().unwrap() as u32,
        guild_id: GuildId::parse_labelled("Guild ID", object["guild_id"].as_str().unwrap()).map_err(bad_state)?,
        roles: read_mappings(object.get("roles"), "Role")?,
        channels: read_mappings(object.get("channels"), "Channel")?,
        members: read_mappings(object.get("members"), "Member")?,
    })
}

fn read_state(text: &str) -> Result<RawStateFile, ManagementError> {
    read_bindings(&read_object(text, &["schema_version", "guild_id", "roles", "channels", "members"])?)
}

fn read_recorded(text: &str) -> Result<RawTrackedState, ManagementError> {
    let object = read_object(
        text,
        &[
            "schema_version",
            "guild_id",
            "roles",
            "channels",
            "members",
            "deleted_roles",
            "pending_creations",
            "pending_deletions",
        ],
    )?;
    Ok(RawTrackedState {
        bindings: read_bindings(&object)?,
        deleted_roles: read_names(object.get("deleted_roles")),
        pending_creations: read_names(object.get("pending_creations")),
        pending_deletions: read_names(object.get("pending_deletions")),
    })
}

fn state(guild: &str, roles: &str) -> String {
    format!(r#"{{"schema_version":1,"guild_id":"{guild}","roles":{roles}}}"#)
}

fn json(text: &str) -> serde_json::Value {
    serde_json::from_str(text).unwrap()
}

fn plan(catalog: &RoleCatalog, guild: GuildId, definition: &str, state: &str) -> Result<Plan, ManagementError> {
    let input = PlanInput::parse(read_definition(definition)?, read_state(state)?, guild, &vocabulary())?;
    plan_roles(&input, catalog)
}

fn plan_export(catalog: &RoleCatalog, guild: GuildId, files: ExportFiles) -> Result<Plan, ManagementError> {
    let state = read_state(&files.state_json)?;
    let input = PlanInput::parse(files.definition, state, guild, &vocabulary())?;
    plan_roles(&input, catalog)
}

fn export(catalog: &RoleCatalog, guild: GuildId, previous: Option<&str>) -> Result<ExportFiles, ManagementError> {
    let previous = match previous {
        Some(text) => Some(StateFile::parse_for_guild(read_state(text)?, guild)?),
        None => None,
    };
    export_roles(catalog, guild, previous.as_ref())
}

fn bind(
    lookup: Option<ResourceLookup>,
    definition: &str,
    state: &str,
    resource_type: ResourceType,
    name: &str,
    discord_id: &str,
) -> Result<BindResult, ManagementError> {
    let guild = guild_id(100);
    let definition = parse_definition(definition)?;
    let state = StateFile::parse_for_guild(read_state(state)?, guild)?;
    let request = prepare_bind(&definition, &state, guild, resource_type, name, discord_id)?;
    bind_resource(state, guild, resource_type, request, lookup)
}

fn found(resource_type: ResourceType, guild: u64) -> Option<ResourceLookup> {
    Some(ResourceLookup { resource_type, guild_id: guild_id(guild) })
}

fn literal_string(value: &Option<ManagedValue<String>>) -> Option<&str> {
    match value {
        Some(ManagedValue::Value(value)) => Some(value),
        _ => None,
    }
}

fn literal_bool(value: Option<&ManagedValue<bool>>) -> Option<bool> {
    match value {
        Some(ManagedValue::Value(value)) => Some(*value),
        _ => None,
    }
}

const MODERATOR: &str = "schema_version = 1\n[roles.moderator]\nname = \"運営\"\n";
const EMPTY_STATE: &str = r#"{"schema_version":1,"guild_id":"100","roles":{}}"#;

#[test]
fn bind_adopts_an_existing_role_into_state() {
    let result = bind(found(ResourceType::Role, 100), MODERATOR, EMPTY_STATE, ResourceType::Role, "moderator", "200")
        .unwrap();
    assert_eq!(
        json(&result.state_json),
        json(r#"{"schema_version":1,"guild_id":"100","roles":{"moderator":"200"}}"#)
    );
}

#[test]
fn bind_adopts_an_existing_channel_into_state() {
    let definition = "schema_version = 1\n[channels.rules]\ntype = \"text\"\nname = \"ルール\"\n";
    let result =
        bind(found(ResourceType::Channel, 100), definition, EMPTY_STATE, ResourceType::Channel, "rules", "300")
            .unwrap();
    assert_eq!(json(&result.state_json)["channels"]["rules"], "300");
}

#[test]
fn bind_adopts_an_existing_member_into_state() {
    let definition = "schema_version = 1\n[members.owner]\nmode = \"reference\"\n";
    let result =
        bind(found(ResourceType::Member, 100), definition, EMPTY_STATE, ResourceType::Member, "owner", "400").unwrap();
    assert_eq!(json(&result.state_json)["members"]["owner"], "400");
}

#[test]
fn bind_rejects_a_resource_type_mismatch() {
    let error = error_of(bind(
        found(ResourceType::Channel, 100),
        MODERATOR,
        EMPTY_STATE,
        ResourceType::Role,
        "moderator",
        "300",
    ));
    assert!(matches!(
        error,
        ManagementError::ResourceTypeMismatch {
            expected: ResourceType::Role,
            actual: ResourceType::Channel,
            discord_id: 300,
        }
    ));
}

#[test]
fn bind_rejects_a_resource_from_another_guild() {
    let error = error_of(bind(
        found(ResourceType::Role, 999),
        MODERATOR,
        EMPTY_STATE,
        ResourceType::Role,
        "moderator",
        "200",
    ));
    let text = error.to_text();
    match error {
        ManagementError::ResourceGuildMismatch {
            resource_type: ResourceType::Role,
            discord_id: 200,
            resource_guild_id,
            actual_guild_id,
        } => {
            assert_eq!(resource_guild_id.get(), 999);
            assert_eq!(actual_guild_id.get(), 100);
        }
        other => panic!("{other:?}"),
    }
    assert_eq!(text, "Role の Discord ID 200 は Guild 999 に属し、実行 Guild 100 と一致しません");
}

#[test]
fn bind_rejects_duplicate_resource_adoption() {
    let state = r#"{"schema_version":1,"guild_id":"100","roles":{"existing":"200"}}"#;
    let message = state_message_of(error_of(bind(
        found(ResourceType::Role, 100),
        MODERATOR,
        state,
        ResourceType::Role,
        "moderator",
        "200",
    )));
    assert!(message.contains("existing") && message.contains("200"));
}

#[test]
fn bind_rejects_retargeting_an_existing_logical_id() {
    let state = r#"{"schema_version":1,"guild_id":"100","roles":{"moderator":"201"}}"#;
    let message = state_message_of(error_of(bind(
        found(ResourceType::Role, 100),
        MODERATOR,
        state,
        ResourceType::Role,
        "moderator",
        "200",
    )));
    assert!(message.contains("moderator") && message.contains("201") && message.contains("200"));
}

#[test]
fn bind_rejects_an_undeclared_logical_id() {
    let message = message_of(error_of(bind(
        found(ResourceType::Role, 100),
        MODERATOR,
        EMPTY_STATE,
        ResourceType::Role,
        "missing",
        "200",
    )));
    assert!(message.contains("missing") && message.contains("宣言"));
}

#[test]
fn bind_rejects_a_missing_resource() {
    let error = error_of(bind(None, MODERATOR, EMPTY_STATE, ResourceType::Role, "moderator", "200"));
    assert!(matches!(
        error,
        ManagementError::ResourceNotFound { resource_type: ResourceType::Role, discord_id: 200 }
    ));
}

#[test]
fn bind_rejects_the_reserved_everyone_role() {
    let definition = "schema_version = 1\n[roles.everyone]\nmode = \"reference\"\n";
    let message = message_of(error_of(bind(
        found(ResourceType::Role, 100),
        definition,
        EMPTY_STATE,
        ResourceType::Role,
        "everyone",
        "100",
    )));
    assert!(message.contains("everyone") && message.contains("bind"));
}

#[test]
fn bind_rejects_an_alias_for_reserved_everyone_role() {
    let definition = "schema_version = 1\n[roles.default_role]\nmode = \"reference\"\n";
    let message = message_of(error_of(bind(
        found(ResourceType::Role, 100),
        definition,
        EMPTY_STATE,
        ResourceType::Role,
        "default_role",
        "100",
    )));
    assert!(message.contains("everyone") && message.contains("別の論理 ID"));
}

#[test]
fn bind_rejects_a_bad_number_a_bad_name_and_an_absent_channel() {
    let not_a_number =
        error_of(bind(found(ResourceType::Role, 100), MODERATOR, EMPTY_STATE, ResourceType::Role, "moderator", "2x"));
    assert_eq!(
        not_a_number.to_text(),
        "入力ファイルが不正です: Role の Discord ID 2x が不正です: invalid digit found in string"
    );
    let greatest = error_of(bind(
        found(ResourceType::Role, 100),
        MODERATOR,
        EMPTY_STATE,
        ResourceType::Role,
        "moderator",
        "18446744073709551615",
    ));
    assert!(matches!(greatest, ManagementError::InvalidInputFile(message) if message.contains("使用できません")));
    let bad_name = message_of(error_of(bind(
        found(ResourceType::Role, 100),
        MODERATOR,
        EMPTY_STATE,
        ResourceType::Role,
        "not a name",
        "200",
    )));
    assert!(bad_name.contains("論理 ID が不正です"));
    let definition = "schema_version = 1\n[channels.rules]\nensure = \"absent\"\n";
    let absent = message_of(error_of(bind(
        found(ResourceType::Channel, 100),
        definition,
        EMPTY_STATE,
        ResourceType::Channel,
        "rules",
        "300",
    )));
    assert!(absent.contains("削除宣言"));
}

#[test]
fn plan_rejects_a_reference_channel_without_a_binding() {
    let definition = "schema_version = 1\n[channels.information]\nmode = \"reference\"\n";
    let message =
        state_message_of(error_of(plan(&catalog_of(100, Vec::new()), guild_id(100), definition, EMPTY_STATE)));
    assert!(message.contains("Channel information") && message.contains("対応がありません"));
}

#[test]
fn plan_resolves_bound_reference_resources_without_managing_attributes() {
    let definition = r#"
        schema_version = 1
        [roles.external]
        mode = "reference"
        [channels.information]
        mode = "reference"
        [members.owner]
        mode = "reference"
    "#;
    let state = r#"{
        "schema_version": 1,
        "guild_id": "100",
        "roles": {"external": "200"},
        "channels": {"information": "300"},
        "members": {"owner": "400"}
    }"#;
    let plan = plan(&catalog_of(100, vec![role("200", "外部管理")]), guild_id(100), definition, state).unwrap();
    assert!(plan.is_empty());
}

#[test]
fn plan_rejects_a_channel_reference_without_a_declaration() {
    let definition = r#"
        schema_version = 1
        [channels.rules]
        type = "text"
        parent = "information"
    "#;
    let state = r#"{
        "schema_version": 1,
        "guild_id": "100",
        "roles": {},
        "channels": {"rules": "300"}
    }"#;
    let message = message_of(error_of(plan(&catalog_of(100, Vec::new()), guild_id(100), definition, state)));
    assert!(message.contains("information") && message.contains("宣言がありません"));
}

#[test]
fn plan_rejects_a_message_set_channel_reference_without_a_declaration() {
    let definition = r#"
        schema_version = 1
        [message_sets.guidelines]
        channel = "information"
        body = []
    "#;
    let message = message_of(error_of(plan(&catalog_of(100, Vec::new()), guild_id(100), definition, EMPTY_STATE)));
    assert!(message.contains("information") && message.contains("宣言がありません"));
}

#[test]
fn plan_rejects_a_thread_channel_reference_without_a_binding() {
    let definition = r#"
        schema_version = 1
        [channels.information]
        mode = "reference"
        [threads.details]
        channel = "information"
        name = "詳細"
        body = []
    "#;
    let message =
        state_message_of(error_of(plan(&catalog_of(100, Vec::new()), guild_id(100), definition, EMPTY_STATE)));
    assert!(message.contains("information") && message.contains("対応がありません"));
}

#[test]
fn plan_rejects_duplicate_channel_snowflakes() {
    let state = r#"{
        "schema_version": 1,
        "guild_id": "100",
        "roles": {},
        "channels": {"first": "300", "second": "300"}
    }"#;
    let message =
        state_message_of(error_of(plan(&catalog_of(100, Vec::new()), guild_id(100), "schema_version = 1\n", state)));
    assert!(message.contains("Channel") && message.contains("同じ Snowflake 300"));
}

#[test]
fn plan_rejects_duplicate_member_snowflakes() {
    let state = r#"{
        "schema_version": 1,
        "guild_id": "100",
        "roles": {},
        "members": {"first": "400", "second": "400"}
    }"#;
    let message =
        state_message_of(error_of(plan(&catalog_of(100, Vec::new()), guild_id(100), "schema_version = 1\n", state)));
    assert!(message.contains("Member") && message.contains("同じ Snowflake 400"));
}

#[test]
fn bound_state_can_be_passed_to_the_next_plan() {
    let definition = "schema_version = 1\n[channels.information]\nmode = \"reference\"\n";
    let bound = bind(
        found(ResourceType::Channel, 100),
        definition,
        EMPTY_STATE,
        ResourceType::Channel,
        "information",
        "300",
    )
    .unwrap();
    let plan = plan(&catalog_of(100, Vec::new()), guild_id(100), definition, &bound.state_json).unwrap();
    assert!(plan.is_empty());
}

#[test]
fn tests_initial_export_uses_snowflakes_for_duplicate_role_names() {
    let catalog = catalog_of(100, vec![role("200", "運営"), role("201", "運営")]);
    let files = export(&catalog, guild_id(100), None).unwrap();
    let state = StateFile::parse_for_guild(read_state(&files.state_json).unwrap(), guild_id(100)).unwrap();
    let definition = DefinitionFile::parse(files.definition, &vocabulary()).unwrap();
    for name in ["role_200", "role_201"] {
        let attributes = definition.roles.get(&logical_id(name)).unwrap().attributes();
        assert_eq!(literal_string(&attributes.name), Some("運営"));
    }
    let attributes = definition.roles.get(&logical_id("role_200")).unwrap().attributes();
    assert!(!attributes.permissions.contains_key(&known_permission("SEND_MESSAGES")));
    assert_eq!(state.guild_id.get(), 100);
    assert_eq!(state.roles.get(&logical_id("role_200")).unwrap().get(), 200);
    assert_eq!(state.roles.get(&logical_id("role_201")).unwrap().get(), 201);
}

#[test]
fn tests_everyone_export_contains_only_permissions_and_keeps_false_values() {
    let catalog = catalog_of(100, vec![role("100", "@everyone")]);
    let files = export(&catalog, guild_id(100), None).unwrap();
    let state = StateFile::parse_for_guild(read_state(&files.state_json).unwrap(), guild_id(100)).unwrap();
    let definition = DefinitionFile::parse(files.definition, &vocabulary()).unwrap();
    let everyone = definition.roles.get(&logical_id("everyone")).unwrap().attributes();
    assert!(everyone.name.is_none());
    assert!(everyone.color.is_none());
    assert!(everyone.hoist.is_none());
    assert!(everyone.mentionable.is_none());
    assert_eq!(literal_bool(everyone.permissions.get(&known_permission("VIEW_CHANNEL"))), Some(true));
    assert_eq!(literal_bool(everyone.permissions.get(&known_permission("SEND_MESSAGES"))), Some(false));
    assert!(!state.roles.contains_key(&logical_id("everyone")));

    let files = export(&catalog, guild_id(100), None).unwrap();
    assert!(plan_export(&catalog, guild_id(100), files).unwrap().is_empty());
}

#[test]
fn tests_everyone_rejects_non_permission_managed_attributes() {
    let definition = r#"
        schema_version = 1
        [roles.everyone]
        name = "renamed"
    "#;
    let catalog = catalog_of(100, vec![role("100", "@everyone")]);
    let message = message_of(error_of(plan(&catalog, guild_id(100), definition, &state("100", "{}"))));
    assert!(message.contains("@everyone") && message.contains("権限"));
}

const MODERATOR_STATE: &str = r#"{
    "schema_version": 1,
    "guild_id": "100",
    "roles": { "moderator": "200" }
}"#;

#[test]
fn tests_re_export_preserves_logical_ids_from_input_state() {
    let catalog = catalog_of(100, vec![role("200", "名称変更後")]);
    let files = export(&catalog, guild_id(100), Some(MODERATOR_STATE)).unwrap();
    let state = StateFile::parse_for_guild(read_state(&files.state_json).unwrap(), guild_id(100)).unwrap();
    let definition = DefinitionFile::parse(files.definition, &vocabulary()).unwrap();
    let attributes = definition.roles.get(&logical_id("moderator")).unwrap().attributes();
    assert_eq!(literal_string(&attributes.name), Some("名称変更後"));
    assert_eq!(state.roles.get(&logical_id("moderator")).unwrap().get(), 200);
    assert!(!definition.roles.contains_key(&logical_id("role_200")));
}

#[test]
fn re_export_keeps_unmanageable_role_reference_only() {
    let mut external = role("200", "外部側の名称");
    external.manageable = false;
    let previous = r#"{
        "schema_version": 1,
        "guild_id": "100",
        "roles": { "external": "200" }
    }"#;
    let files = export(&catalog_of(100, vec![external]), guild_id(100), Some(previous)).unwrap();
    let definition = DefinitionFile::parse(files.definition, &vocabulary()).unwrap();
    let role = definition.roles.get(&logical_id("external")).unwrap();
    assert!(role.is_reference());
    assert!(role.attributes().name.is_none());
    assert!(role.attributes().color.is_none());
}

#[test]
fn tests_exported_definition_has_no_plan_changes() {
    let catalog = catalog_of(100, vec![role("200", "運営")]);
    let files = export(&catalog, guild_id(100), None).unwrap();
    assert!(plan_export(&catalog, guild_id(100), files).unwrap().is_empty());
}

#[test]
fn identical_role_attributes_do_not_create_an_empty_update() {
    let definition = r#"
        schema_version = 1
        [roles.moderator]
        name = "運営"
    "#;
    let catalog = catalog_of(100, vec![role("200", "運営")]);
    let plan = plan(&catalog, guild_id(100), definition, &state("100", r#"{"moderator":"200"}"#)).unwrap();
    assert!(plan.is_empty());
    assert!(plan.changes.into_entries().iter().all(|(_, change)| !change.is_update()));
}

#[test]
fn empty_state_plans_managed_role_creation_without_discord_id() {
    let definition = r#"
        schema_version = 1
        [roles.moderator]
        name = "運営"
    "#;
    let catalog = catalog_of(100, vec![role("100", "@everyone")]);
    let plan = plan(&catalog, guild_id(100), definition, &state("100", "{}")).unwrap();
    assert_eq!(plan.len(), 1);
    assert!(matches!(plan.get(&logical_id("moderator")), Some(Change::Create)));
    assert!(plan.render().contains("moderator"));
    assert!(plan.render().contains("作成"));
    assert!(!plan.render().contains("Snowflake"));
}

#[test]
fn tests_reference_role_may_target_an_unmanageable_guild_role() {
    let mut external = role("200", "外部 Bot");
    external.manageable = false;
    let definition = r#"
        schema_version = 1
        [roles.external_bot]
        mode = "reference"
    "#;
    let catalog = catalog_of(100, vec![external]);
    let plan = plan(&catalog, guild_id(100), definition, &state("100", r#"{"external_bot":"200"}"#)).unwrap();
    assert!(plan.is_empty());
}

#[test]
fn tests_everyone_role_may_be_used_as_a_reference() {
    let mut everyone = role("100", "@everyone");
    everyone.manageable = false;
    let definition = r#"
        schema_version = 1
        [roles.everyone]
        mode = "reference"
    "#;
    let plan = plan(&catalog_of(100, vec![everyone]), guild_id(100), definition, &state("100", "{}")).unwrap();
    assert!(plan.is_empty());
}

#[test]
fn tests_permission_default_uses_everyone_role_value() {
    let mut everyone = role("100", "@everyone");
    everyone.manageable = false;
    let mut moderator = role("200", "運営");
    moderator.permissions.insert(known_permission("VIEW_CHANNEL"), false);
    let definition = r#"
        schema_version = 1
        [roles.moderator.permissions]
        VIEW_CHANNEL = { default = true }
    "#;
    let catalog = catalog_of(100, vec![everyone, moderator]);
    let plan = plan(&catalog, guild_id(100), definition, &state("100", r#"{"moderator":"200"}"#)).unwrap();
    let attributes = plan.get(&logical_id("moderator")).and_then(Change::attributes).unwrap();
    let permission = attributes.permissions.get(&known_permission("VIEW_CHANNEL")).unwrap();
    assert_eq!(permission.current(), &false);
    assert_eq!(permission.desired(), &true);
}

#[test]
fn tests_export_omits_unmanageable_roles_but_keeps_manageable_roles() {
    let mut external = role("200", "外部 Bot");
    external.manageable = false;
    let files = export(&catalog_of(100, vec![external, role("201", "運営")]), guild_id(100), None).unwrap();
    let definition = DefinitionFile::parse(files.definition, &vocabulary()).unwrap();
    assert!(!definition.roles.contains_key(&logical_id("role_200")));
    assert!(definition.roles.contains_key(&logical_id("role_201")));
}

const STAFF_SET: &str = r#"
    schema_version = 1

    [settings_sets.role.staff]
    hoist = true

    [roles.moderator]
    settings_sets = ["staff"]
"#;

#[test]
fn tests_role_settings_set_attributes_are_planned() {
    let catalog = catalog_of(100, vec![role("200", "運営")]);
    let plan = plan(&catalog, guild_id(100), STAFF_SET, MODERATOR_STATE).unwrap();
    assert_eq!(plan.len(), 1);
    let attributes = plan.get(&logical_id("moderator")).and_then(Change::attributes).unwrap();
    let hoist = attributes.hoist.as_ref().unwrap();
    assert_eq!(hoist.current(), &false);
    assert_eq!(hoist.desired(), &true);
}

#[test]
fn multiple_role_attributes_are_grouped_in_one_change() {
    let definition = r#"
        schema_version = 1
        [roles.moderator]
        name = "モデレーター"
        hoist = true
        mentionable = true
        [roles.moderator.permissions]
        SEND_MESSAGES = true
    "#;
    let catalog = catalog_of(100, vec![role("200", "運営")]);
    let plan = plan(&catalog, guild_id(100), definition, &state("100", r#"{"moderator":"200"}"#)).unwrap();
    assert_eq!(plan.len(), 1);
    let attributes = plan.get(&logical_id("moderator")).and_then(Change::attributes).unwrap();
    assert_eq!(attributes.name.as_ref().unwrap().desired(), "モデレーター");
    assert_eq!(attributes.hoist.as_ref().unwrap().desired(), &true);
    assert_eq!(attributes.mentionable.as_ref().unwrap().desired(), &true);
    assert!(attributes.permissions.contains_key(&known_permission("SEND_MESSAGES")));
    assert_eq!(
        plan.render(),
        "Role の変更計画\n\n\
         - moderator (200) name: \"運営\" -> \"モデレーター\"\n\
         - moderator (200) hoist: false -> true\n\
         - moderator (200) mentionable: false -> true\n\
         - moderator (200) permissions.SEND_MESSAGES: false -> true\n"
    );
}

#[test]
fn plan_rejects_an_undeclared_role_overwrite_target() {
    let definition = r#"
        schema_version = 1
        [channels.rules]
        type = "text"
        [channels.rules.overwrites."role:admin"]
        VIEW_CHANNEL = "allow"
    "#;
    let state = r#"{
        "schema_version": 1,
        "guild_id": "100",
        "roles": {},
        "channels": {"rules": "300"}
    }"#;
    let message = message_of(error_of(plan(&catalog_of(100, Vec::new()), guild_id(100), definition, state)));
    assert!(message.contains("Role admin") && message.contains("宣言がありません"));
}

#[test]
fn plan_rejects_an_absent_role_overwrite_target() {
    let definition = r#"
        schema_version = 1
        [roles.admin]
        ensure = "absent"
        [channels.rules]
        type = "text"
        [channels.rules.overwrites."role:admin"]
        VIEW_CHANNEL = "allow"
    "#;
    let state = r#"{
        "schema_version": 1,
        "guild_id": "100",
        "roles": {"admin": "200"},
        "channels": {"rules": "300"}
    }"#;
    let message = message_of(error_of(plan(&catalog_of(100, Vec::new()), guild_id(100), definition, state)));
    assert!(message.contains("Role admin") && message.contains("削除宣言"));
}

#[test]
fn plan_rejects_a_missing_role_overwrite_target() {
    let definition = r#"
        schema_version = 1
        [roles.admin]
        name = "管理"
        [channels.rules]
        type = "text"
        [channels.rules.overwrites."role:admin"]
        VIEW_CHANNEL = "allow"
    "#;
    let state = r#"{
        "schema_version": 1,
        "guild_id": "100",
        "roles": {"admin": "200"},
        "channels": {"rules": "300"}
    }"#;
    let message = state_message_of(error_of(plan(&catalog_of(100, Vec::new()), guild_id(100), definition, state)));
    assert!(message.contains("予期せず消失") || message.contains("存在しません"));
}

#[test]
fn plan_rejects_an_undeclared_member_overwrite_target() {
    let definition = r#"
        schema_version = 1
        [channels.rules]
        type = "text"
        [channels.rules.overwrites."member:moderator"]
        VIEW_CHANNEL = "allow"
    "#;
    let state = r#"{
        "schema_version": 1,
        "guild_id": "100",
        "roles": {},
        "channels": {"rules": "300"}
    }"#;
    let message = message_of(error_of(plan(&catalog_of(100, Vec::new()), guild_id(100), definition, state)));
    assert!(message.contains("Member moderator") && message.contains("宣言がありません"));
}

const TWO_SETS: &str = r#"
    schema_version = 1

    [settings_sets.role.first]
    hoist = true
    mentionable = true

    [settings_sets.role.second]
    mentionable = false

    [roles.moderator]
    settings_sets = ["first", "second"]
    mentionable = true
"#;

#[test]
fn tests_direct_attributes_override_later_settings_sets_and_omitted_attributes_are_retained() {
    let catalog = catalog_of(100, vec![role("200", "運営")]);
    let plan = plan(&catalog, guild_id(100), TWO_SETS, &state("100", r#"{"moderator":"200"}"#)).unwrap();
    assert_eq!(plan.len(), 1);
    let attributes = plan.get(&logical_id("moderator")).and_then(Change::attributes).unwrap();
    assert!(attributes.hoist.is_some());
    assert!(attributes.mentionable.is_some());
    assert!(attributes.name.is_none());
}

const DEFAULTS: &str = r#"
    schema_version = 1
    [roles.moderator]
    name = { default = true }
    color = { default = true }
"#;

#[test]
fn tests_default_specifiers_are_resolved_to_schema_version_values() {
    let mut actual = role("200", "運営");
    actual.color = Color::new(0x12_34_56).unwrap();
    let catalog = catalog_of(100, vec![actual]);
    let plan = plan(&catalog, guild_id(100), DEFAULTS, &state("100", r#"{"moderator":"200"}"#)).unwrap();
    let attributes = plan.get(&logical_id("moderator")).and_then(Change::attributes).unwrap();
    let name = attributes.name.as_ref().unwrap();
    assert_eq!(name.current(), "運営");
    assert_eq!(name.desired(), "new role");
    let color = attributes.color.as_ref().unwrap();
    assert_eq!(color.current().get(), 0x12_34_56);
    assert_eq!(color.desired().get(), 0);
}

#[test]
fn role_create_plan_resolves_default_values() {
    let definition = r#"
        schema_version = 1
        [roles.moderator]
        name = { default = true }
        color = { default = true }
        hoist = { default = true }
        mentionable = { default = true }
        [roles.moderator.permissions]
        VIEW_CHANNEL = { default = true }
    "#;
    let catalog = catalog_of(100, vec![role("100", "@everyone")]);
    let rendered = plan(&catalog, guild_id(100), definition, &state("100", "{}")).unwrap().render();
    assert!(rendered.contains("name: \"new role\""));
    assert!(rendered.contains("color: 0"));
    assert!(rendered.contains("hoist: false"));
    assert!(rendered.contains("mentionable: false"));
    assert!(rendered.contains("VIEW_CHANNEL: true"));
    assert!(!rendered.contains("Default"));
}

fn assert_guild_mismatch(error: ManagementError) {
    assert_eq!(error.to_text(), "state の Guild 999 は実行 Guild 100 と一致しません");
    match error {
        ManagementError::GuildMismatch { state_guild_id, actual_guild_id } => {
            assert_eq!(state_guild_id.get(), 999);
            assert_eq!(actual_guild_id.get(), 100);
        }
        other => panic!("{other:?}"),
    }
}

#[test]
fn tests_guild_mismatch_is_reported_before_reading_discord() {
    assert_guild_mismatch(error_of(PlanInput::parse(
        read_definition("schema_version = 1").unwrap(),
        read_state(&state("999", "{}")).unwrap(),
        guild_id(100),
        &vocabulary(),
    )));
}

#[test]
fn tests_non_numeric_state_guild_id_is_reported() {
    let catalog = catalog_of(100, Vec::new());
    let state = state("not-a-snowflake", "{}");
    let message = state_message_of(error_of(plan(&catalog, guild_id(100), "schema_version = 1", &state)));
    assert!(message.contains("Guild ID"));
}

#[test]
fn state_round_trip_contains_only_mappings() {
    let input = r#"{
        "schema_version": 1,
        "guild_id": "100",
        "roles": {"moderator": "200"},
        "channels": {"rules": "300"},
        "members": {"owner": "400"}
    }"#;
    let state = StateFile::parse_for_guild(read_state(input).unwrap(), guild_id(100)).unwrap();
    let serialized = serialize_state(&state).unwrap();
    assert_eq!(json(&serialized), json(input));
    assert_eq!(
        serialized,
        "{\n  \"schema_version\": 1,\n  \"guild_id\": \"100\",\n  \"roles\": {\n    \"moderator\": \"200\"\n  },\n  \
         \"channels\": {\n    \"rules\": \"300\"\n  },\n  \"members\": {\n    \"owner\": \"400\"\n  }\n}\n"
    );
}

#[test]
fn an_empty_state_is_written_with_empty_brackets() {
    let state = StateFile::parse_for_guild(read_state(EMPTY_STATE).unwrap(), guild_id(100)).unwrap();
    assert_eq!(
        serialize_state(&state).unwrap(),
        "{\n  \"schema_version\": 1,\n  \"guild_id\": \"100\",\n  \"roles\": {}\n}\n"
    );
}

#[test]
fn tests_everyone_mapping_in_state_is_rejected() {
    let catalog = catalog_of(100, vec![role("100", "@everyone")]);
    let message = state_message_of(error_of(plan(
        &catalog,
        guild_id(100),
        "schema_version = 1\n[roles.everyone]",
        &state("100", r#"{"everyone":"100"}"#),
    )));
    assert!(message.contains("everyone") && message.contains("state に含めず"));
}

#[test]
fn everyone_role_id_under_another_logical_id_is_rejected() {
    let catalog = catalog_of(100, vec![role("100", "@everyone")]);
    let message = state_message_of(error_of(plan(
        &catalog,
        guild_id(100),
        "schema_version = 1\n[roles.default_role]\nmode = \"reference\"",
        &state("100", r#"{"default_role":"100"}"#),
    )));
    assert!(message.contains("everyone") && message.contains("別の論理 ID"));
}

#[test]
fn tests_duplicate_snowflakes_in_state_are_reported() {
    let catalog = catalog_of(100, vec![role("200", "運営")]);
    let previous = state("100", r#"{"moderator":"200","staff":"200"}"#);
    let message = state_message_of(error_of(export(&catalog, guild_id(100), Some(&previous))));
    assert!(message.contains("同じ Snowflake 200"));
}

#[test]
fn tests_duplicate_logical_id_keys_in_state_are_reported() {
    let entries = vec![(logical_id("moderator"), role_id("200")), (logical_id("moderator"), role_id("201"))];
    let message = collect_unique_mappings(entries, "Role").err().unwrap();
    assert!(message.contains("論理 ID moderator が重複"));
}

#[test]
fn tests_generated_logical_id_collision_with_stale_state_is_reported() {
    let catalog = catalog_of(100, vec![role("200", "運営")]);
    let previous = state("100", r#"{"role_200":"999"}"#);
    let message = state_message_of(error_of(export(&catalog, guild_id(100), Some(&previous))));
    assert!(message.contains("論理 ID role_200"));
}

#[test]
fn tests_invalid_unreferenced_settings_set_is_reported() {
    let definition = r#"
        schema_version = 1
        [settings_sets.role.unused]
        color = 16777216
    "#;
    let catalog = catalog_of(100, vec![role("200", "運営")]);
    let message = message_of(error_of(plan(&catalog, guild_id(100), definition, &state("100", "{}"))));
    assert!(message.contains("color"));
}

#[test]
fn tests_false_default_in_unreferenced_settings_set_is_reported() {
    let definition = r#"
        schema_version = 1
        [settings_sets.role.unused]
        hoist = { default = false }
    "#;
    let catalog = catalog_of(100, vec![role("200", "運営")]);
    let message = message_of(error_of(plan(&catalog, guild_id(100), definition, &state("100", "{}"))));
    assert!(message.contains("default"));
}

#[test]
fn tests_unknown_permission_in_unreferenced_settings_set_is_reported() {
    let definition = r#"
        schema_version = 1
        [settings_sets.role.unused.permissions]
        NOT_A_DISCORD_PERMISSION = true
    "#;
    let catalog = catalog_of(100, vec![role("200", "運営")]);
    let message = message_of(error_of(plan(&catalog, guild_id(100), definition, &state("100", "{}"))));
    assert!(message.contains("未知の権限"));
}

#[test]
fn unknown_permission_is_rejected_before_catalog_and_build_plan() {
    let definition = r#"
        schema_version = 1
        [roles.moderator.permissions]
        NOT_A_DISCORD_PERMISSION = true
    "#;
    let message = message_of(error_of(PlanInput::parse(
        read_definition(definition).unwrap(),
        read_state(&state("100", "{}")).unwrap(),
        guild_id(100),
        &vocabulary(),
    )));
    assert!(message.contains("未知の権限"));
}

#[test]
fn tests_unsupported_definition_version_is_reported() {
    let catalog = catalog_of(100, Vec::new());
    let message =
        message_of(error_of(plan(&catalog, guild_id(100), "schema_version = 2", &state("100", "{}"))));
    assert!(message.contains("schema_version"));
}

const MISSING_SET: &str = r#"
    schema_version = 1
    [roles.moderator]
    settings_sets = ["missing"]
"#;

#[test]
fn tests_unknown_settings_set_is_reported() {
    let message = message_of(error_of(plan(
        &catalog_of(100, Vec::new()),
        guild_id(100),
        MISSING_SET,
        &state("100", "{}"),
    )));
    assert!(message.contains("未知の設定セット"));
}

const MANAGED_REFERENCE: &str = r#"
    schema_version = 1
    [roles.external]
    mode = "reference"
    hoist = true
"#;

#[test]
fn tests_reference_role_with_managed_attributes_is_reported() {
    let message = message_of(error_of(plan(
        &catalog_of(100, Vec::new()),
        guild_id(100),
        MANAGED_REFERENCE,
        &state("100", "{}"),
    )));
    assert!(message.contains("参照専用 Role"));
}

#[test]
fn channel_rejects_an_unknown_settings_set_while_parsing() {
    let definition = r#"
        schema_version = 1
        [channels.rules]
        type = "text"
        settings_sets = ["missing"]
    "#;
    let message = message_of(error_of(parse_definition(definition)));
    assert!(message.contains("Channel rules") && message.contains("未知の設定セット missing"));
}

#[test]
fn channel_rejects_duplicate_settings_sets_while_parsing() {
    let definition = r#"
        schema_version = 1
        [settings_sets.channel.readonly]
        name = "閲覧専用"
        [channels.rules]
        type = "text"
        settings_sets = ["readonly", "readonly"]
    "#;
    let message = message_of(error_of(parse_definition(definition)));
    assert!(message.contains("Channel rules") && message.contains("重複"));
}

#[test]
fn channel_parses_ordered_settings_sets() {
    let definition = r#"
        schema_version = 1
        [settings_sets.channel.readonly]
        name = "閲覧専用"
        [settings_sets.channel.writable]
        name = "書き込み可能"
        [channels.rules]
        type = "text"
        settings_sets = ["readonly", "writable"]
    "#;
    let definition = parse_definition(definition).unwrap();
    let attributes = definition.channels.get(&ChannelLogicalId::parse("rules").unwrap()).unwrap().attributes();
    assert!(matches!(attributes.name, Some(ChannelValue::Value(name)) if name == "書き込み可能"));
}

#[test]
fn reference_channel_rejects_settings_sets_while_parsing() {
    let definition = r#"
        schema_version = 1
        [settings_sets.channel.readonly]
        name = "閲覧専用"
        [channels.rules]
        mode = "reference"
        settings_sets = ["readonly"]
    "#;
    let message = message_of(error_of(parse_definition(definition)));
    assert!(message.contains("参照専用 Channel rules"));
}

#[test]
fn definition_validates_raw_attribute_values_with_validator() {
    let empty_role_name =
        message_of(error_of(parse_definition("schema_version = 1\n[roles.moderator]\nname = \"\"\n")));
    assert!(empty_role_name.contains("name") && empty_role_name.contains("1文字"));

    let long_role_name = "a".repeat(101);
    let long_role_name = message_of(error_of(parse_definition(&format!(
        "schema_version = 1\n[roles.moderator]\nname = \"{long_role_name}\"\n",
    ))));
    assert!(long_role_name.contains("name") && long_role_name.contains("100"));

    let invalid_auto_archive = message_of(error_of(parse_definition(
        "schema_version = 1\n[channels.rules]\ntype = \"text\"\ndefault_auto_archive_minutes = 61\n",
    )));
    assert!(invalid_auto_archive.contains("default_auto_archive_minutes") && invalid_auto_archive.contains("60"));

    let clear_nsfw = message_of(error_of(parse_definition(
        "schema_version = 1\n[channels.rules]\ntype = \"text\"\nnsfw = { clear = true }\n",
    )));
    assert!(clear_nsfw.contains("nsfw") && clear_nsfw.contains("解除"));

    let default_parent = message_of(error_of(parse_definition(
        "schema_version = 1\n[channels.rules]\ntype = \"text\"\nparent = { default = true }\n",
    )));
    assert!(default_parent.contains("parent") && default_parent.contains("default"));

    let invalid_kind =
        message_of(error_of(parse_definition("schema_version = 1\n[channels.rules]\ntype = \"voice\"\n")));
    assert!(invalid_kind.contains("voice"));
}

#[test]
fn optional_managed_value_resolution_preserves_omission() {
    let omitted: Option<ManagedValue<u16>> = None;
    assert_eq!(omitted.resolve_optional(10), None);
    assert_eq!(Some(ManagedValue::Default).resolve_optional(10_u16), Some(10));
    assert_eq!(Some(ManagedValue::Value(20)).resolve_optional(10_u16), Some(20));
}

#[test]
fn role_everyone_overwrite_is_rejected_with_canonical_name() {
    let message = message_of(error_of(parse_definition(
        r#"
            schema_version = 1
            [channels.rules]
            type = "text"
            [channels.rules.overwrites."role:everyone"]
            VIEW_CHANNEL = "allow"
        "#,
    )));
    assert!(message.contains("role:everyone") && message.contains("everyone"));
}

#[test]
fn resource_definitions_are_validated_as_typed_models() {
    let refused = |definition: &str| message_of(error_of(parse_definition(definition)));

    assert!(refused("schema_version = 1\n[members.owner]\n").contains("参照専用"));
    assert!(refused("schema_version = 1\n[threads.details]\nname = \"詳細\"\n").contains("channel"));
    assert!(refused("schema_version = 1\n[threads.details]\nchannel = \"rules\"\n").contains("name"));
    assert!(
        refused("schema_version = 1\n[threads.details]\nchannel = \"rules\"\nname = \"詳細\"\n").contains("body")
    );
    let present_thread_ensure = refused(
        r#"
            schema_version = 1
            [threads.details]
            ensure = "present"
            channel = "rules"
            name = "詳細"
            body = []
        "#,
    );
    assert!(present_thread_ensure.contains("present") && present_thread_ensure.contains("ensure"));
    assert!(refused("schema_version = 1\n[message_sets.guidelines]\nchannel = \"rules\"\n").contains("body"));
    assert!(refused("schema_version = 1\n[message_sets.guidelines]\nbody = []\n").contains("channel"));

    let present_message_set = parse_definition(
        r#"
            schema_version = 1
            [message_sets.guidelines]
            ensure = "present"
            channel = "rules"
            body = []
        "#,
    )
    .unwrap();
    let guidelines = present_message_set.message_sets.get(&"guidelines".to_owned()).unwrap();
    assert!(guidelines.body.as_ref().is_some_and(Vec::is_empty));

    assert!(refused("schema_version = 1\n[message_sets.guidelines]\nname = \"案内\"\n").contains("name"));
    let empty_body = refused(
        r#"
            schema_version = 1
            [message_sets.guidelines]
            channel = "rules"
            [[message_sets.guidelines.body]]
            id = "basic"
            body = ""
        "#,
    );
    assert!(empty_body.contains("body"));
    let invalid_id = refused(
        r#"
            schema_version = 1
            [message_sets.guidelines]
            channel = "rules"
            [[message_sets.guidelines.body]]
            id = ""
            body = "本文"
        "#,
    );
    assert!(invalid_id.contains("論理 ID"));
    let long_thread_name = "a".repeat(101);
    let long_thread_name = refused(&format!(
        "schema_version = 1\n[threads.details]\nchannel = \"rules\"\nname = \"{long_thread_name}\"\n"
    ));
    assert!(long_thread_name.contains("name") && long_thread_name.contains("100"));
    let absent_with_attributes = refused(
        r#"
            schema_version = 1
            [threads.details]
            ensure = "absent"
            name = "詳細"
        "#,
    );
    assert!(absent_with_attributes.contains("absent"));
    let duplicate_body_ids = refused(
        r#"
            schema_version = 1
            [message_sets.guidelines]
            channel = "rules"
            [[message_sets.guidelines.body]]
            id = "basic"
            body = "本文1"
            [[message_sets.guidelines.body]]
            id = "basic"
            body = "本文2"
        "#,
    );
    assert!(duplicate_body_ids.contains("重複"));
    let unknown_key = refused(
        r#"
            schema_version = 1
            [message_sets.guidelines]
            channel = "rules"
            typo = true
        "#,
    );
    assert!(unknown_key.contains("typo"));
}

#[test]
fn order_definition_is_typed_and_validated() {
    let valid = parse_definition(
        r#"
            schema_version = 1
            [roles.moderator]
            name = "運営"
            [channels.information]
            type = "category"
            [channels.rules]
            type = "text"
            parent = "information"
            [order]
            roles = ["moderator"]
            categories = ["information"]
            [order.children]
            information = ["rules"]
        "#,
    )
    .unwrap();
    assert!(valid.order.is_some());

    let refused = |definition: &str| message_of(error_of(parse_definition(definition)));

    let undeclared_role = refused("schema_version = 1\n[order]\nroles = [\"moderator\"]\n");
    assert!(undeclared_role.contains("moderator") && undeclared_role.contains("宣言されていません"));
    let undeclared_category = refused("schema_version = 1\n[order]\ncategories = [\"information\"]\n");
    assert!(undeclared_category.contains("information") && undeclared_category.contains("宣言されていません"));
    let text_as_category = refused(
        r#"
            schema_version = 1
            [channels.rules]
            type = "text"
            [order]
            categories = ["rules"]
        "#,
    );
    assert!(text_as_category.contains("rules") && text_as_category.contains("Text"));
    let undeclared_child = refused(
        r#"
            schema_version = 1
            [channels.information]
            type = "category"
            [order.children]
            information = ["rules"]
        "#,
    );
    assert!(undeclared_child.contains("rules") && undeclared_child.contains("宣言されていません"));
    let mismatched_parent = refused(
        r#"
            schema_version = 1
            [channels.information]
            type = "category"
            [channels.other]
            type = "category"
            [channels.rules]
            type = "text"
            parent = "other"
            [order.children]
            information = ["rules"]
        "#,
    );
    assert!(mismatched_parent.contains("rules") && mismatched_parent.contains("一致しません"));
    for duplicate in [
        "schema_version = 1\n[order]\nroles = [\"moderator\", \"moderator\"]\n",
        "schema_version = 1\n[order]\ncategories = [\"information\", \"information\"]\n",
        "schema_version = 1\n[order]\n[order.children]\ninformation = [\"rules\", \"rules\"]\n",
    ] {
        let message = refused(duplicate);
        assert!(message.contains("order") && message.contains("重複"));
    }
    assert!(refused("schema_version = 1\n[order]\nroles = [\"invalid.id\"]\n").contains("論理 ID"));
}

#[test]
fn what_is_wrong_with_the_definition_is_told_before_the_state() {
    let sound = || read_definition("schema_version = 1\n");
    let wrong = || read_definition("schema_version = 2\n");
    let unread = || Err(invalid("読めない定義"));
    let text = state("100", "{}");
    let known = vocabulary();
    let lost = || bad_state("読めない状態");
    let guild = || guild_id(100);
    let told = |error: ManagementError| match error {
        ManagementError::InvalidDefinition(message) | ManagementError::InvalidState(message) => message,
        other => panic!("the definition or the state should be invalid: {other:?}"),
    };
    assert_eq!(told(error_of(PlanInput::read(unread(), Err(lost()), guild(), &known))), "読めない定義");
    assert_eq!(told(error_of(PlanInput::read(sound(), Err(lost()), guild(), &known))), "読めない状態");
    let refused = message_of(error_of(PlanInput::read(wrong(), Err(lost()), guild(), &known)));
    assert_eq!(refused, message_of(error_of(PlanInput::read(wrong(), read_state(&text), guild(), &known))));
    assert!(PlanInput::read(sound(), read_state(&text), guild(), &known).is_ok());
    assert_eq!(told(error_of(TrackedInput::read(unread(), Err(lost()), guild(), &known))), "読めない定義");
    assert_eq!(told(error_of(TrackedInput::read(sound(), Err(lost()), guild(), &known))), "読めない状態");
    assert_eq!(refused, message_of(error_of(TrackedInput::read(wrong(), Err(lost()), guild(), &known))));
    assert!(TrackedInput::read(sound(), read_recorded(&text), guild(), &known).is_ok());
}

#[test]
fn a_channel_ordered_twice_is_told_with_its_earlier_parent() {
    let declared = "schema_version = 1\n[channels.information]\ntype = \"category\"\n\
        [channels.other]\ntype = \"category\"\n[channels.rules]\ntype = \"text\"\n";
    let refused = |order: &str| message_of(error_of(parse_definition(&format!("{declared}{order}"))));
    assert_eq!(
        refused(
            "parent = \"information\"\n[order.children]\ninformation = [\"rules\"]\nother = [\"rules\"]\n"
        ),
        "order の Channel rules が親 Some(LogicalId(TaggedLogicalId { value: \"information\", tag: PhantomData<fn() -> \
         discord_management::ids::ChannelLogicalIdTag> })) と other に重複指定されています"
    );
    assert_eq!(
        refused(
            "parent = { clear = true }\n[order]\nuncategorized = [\"rules\"]\n[order.children]\nother = [\"rules\"]\n"
        ),
        "order の Channel rules が親 None と other に重複指定されています"
    );
}

fn placed(id: &str, name: &str, position: i16) -> RoleSnapshot {
    let mut role = role(id, name);
    role.position = position;
    role
}

fn ids_of(ids: &[RoleId]) -> Vec<u64> {
    ids.iter().map(|id| id.get()).collect()
}

#[test]
fn role_export_order_round_trips_into_an_empty_plan() {
    let catalog = catalog_of(
        100,
        vec![placed("200", "下位", 2), placed("100", "@everyone", 0), placed("300", "上位", 3)],
    );
    let previous = state("100", r#"{"top":"300","bottom":"200"}"#);
    let exported = export(&catalog, guild_id(100), Some(&previous)).unwrap();
    let names: Vec<String> =
        exported.definition.order.as_ref().unwrap().roles.iter().map(|id| id.as_str().to_owned()).collect();
    assert_eq!(names, ["top", "bottom", everyone_logical_id().as_str()]);
    assert!(plan_export(&catalog, guild_id(100), exported).unwrap().is_empty());
}

#[test]
fn role_plan_reports_relative_order_changes() {
    let catalog =
        catalog_of(100, vec![placed("200", "最初", 3), placed("300", "次", 1), placed("100", "@everyone", 0)]);
    let definition = r#"
        schema_version = 1
        [roles.first]
        name = "最初"
        [roles.second]
        name = "次"
        [order]
        roles = ["second", "first"]
    "#;
    let plan =
        plan(&catalog, guild_id(100), definition, &state("100", r#"{"first":"200","second":"300"}"#)).unwrap();
    let order = plan.order().unwrap();
    assert_eq!(ids_of(&order.expected_order), [300, 200, 100]);
    assert_eq!(order.updates.iter().map(|update| update.role_id.get()).collect::<Vec<_>>(), [200, 300]);
    assert!(!order.updates.iter().any(|update| update.role_id.get() == 100));
    assert_eq!(plan.render(), "Role の変更計画\n\n- Role の相対順序: second -> first\n");
}

#[test]
fn role_plan_uses_reference_role_as_a_fixed_anchor() {
    let catalog = catalog_of(
        100,
        vec![
            placed("250", "基準", 3),
            placed("200", "最初", 2),
            placed("300", "次", 1),
            placed("100", "@everyone", 0),
        ],
    );
    let definition = r#"
        schema_version = 1
        [roles.anchor]
        mode = "reference"
        [roles.first]
        name = "最初"
        [roles.second]
        name = "次"
        [order]
        roles = ["anchor", "second", "first"]
    "#;
    let state = state("100", r#"{"anchor":"250","first":"200","second":"300"}"#);
    let plan = plan(&catalog, guild_id(100), definition, &state).unwrap();
    let order = plan.order().unwrap();
    assert_eq!(ids_of(&order.expected_order), [250, 300, 200, 100]);
    assert!(!order.updates.iter().any(|update| update.role_id.get() == 250));
}

#[test]
fn role_plan_rejects_an_order_crossing_a_reference_anchor() {
    let catalog = catalog_of(
        100,
        vec![
            placed("200", "最初", 3),
            placed("250", "基準", 2),
            placed("300", "次", 1),
            placed("100", "@everyone", 0),
        ],
    );
    let definition = r#"
        schema_version = 1
        [roles.anchor]
        mode = "reference"
        [roles.first]
        name = "最初"
        [roles.second]
        name = "次"
        [order]
        roles = ["second", "anchor", "first"]
    "#;
    let state = state("100", r#"{"anchor":"250","first":"200","second":"300"}"#);
    let message = message_of(error_of(plan(&catalog, guild_id(100), definition, &state)));
    assert!(message.contains("参照専用") && message.contains("両立"));
}

#[test]
fn role_plan_handles_roles_with_the_same_position() {
    let catalog =
        catalog_of(100, vec![placed("300", "次", 2), placed("200", "最初", 2), placed("100", "@everyone", 0)]);
    let definition = r#"
        schema_version = 1
        [roles.first]
        name = "最初"
        [roles.second]
        name = "次"
        [order]
        roles = ["second", "first"]
    "#;
    let plan =
        plan(&catalog, guild_id(100), definition, &state("100", r#"{"first":"200","second":"300"}"#)).unwrap();
    assert_eq!(ids_of(&plan.order().unwrap().expected_order), [300, 200, 100]);
}

// Plans by single attributes.

fn service() -> RoleManagementService<()> {
    RoleManagementService::new(())
}

fn recorded(text: &str) -> Result<TrackedState, ManagementError> {
    TrackedState::parse_for_guild(read_recorded(text)?, guild_id(100))
}

fn list_plan(catalog: &RoleCatalog, definition: &str, state: &str) -> Result<RolePlan, ManagementError> {
    let input =
        TrackedInput::parse(read_definition(definition)?, read_recorded(state)?, guild_id(100), &vocabulary())?;
    service().plan_roles(&input, catalog)
}

fn list_export(catalog: &RoleCatalog, previous: Option<&str>) -> Result<ExportFiles, ManagementError> {
    let previous = previous.map(recorded).transpose()?;
    service().export_roles(guild_id(100), previous.as_ref(), catalog)
}

fn list_plan_export(catalog: &RoleCatalog, files: ExportFiles) -> Result<RolePlan, ManagementError> {
    let input = TrackedInput::parse(
        files.definition,
        read_recorded(&files.state_json)?,
        guild_id(100),
        &vocabulary(),
    )?;
    service().plan_roles(&input, catalog)
}

#[test]
fn initial_export_uses_snowflakes_for_duplicate_role_names() {
    let catalog = catalog_of(100, vec![role("200", "運営"), role("201", "運営")]);
    let files = list_export(&catalog, None).unwrap();
    let state = recorded(&files.state_json).unwrap().bindings;
    assert_eq!(files.definition.schema_version, 1);
    let definition = DefinitionFile::parse(files.definition, &vocabulary()).unwrap();
    for name in ["role_200", "role_201"] {
        let attributes = definition.roles.get(&logical_id(name)).unwrap().attributes();
        assert_eq!(literal_string(&attributes.name), Some("運営"));
    }
    let attributes = definition.roles.get(&logical_id("role_200")).unwrap().attributes();
    assert!(!attributes.permissions.contains_key(&known_permission("SEND_MESSAGES")));
    assert_eq!(state.guild_id.get(), 100);
    assert_eq!(state.roles.get(&logical_id("role_200")).unwrap().get(), 200);
    assert_eq!(state.roles.get(&logical_id("role_201")).unwrap().get(), 201);
}

#[test]
fn everyone_export_contains_only_permissions_and_keeps_false_values() {
    let catalog = catalog_of(100, vec![role("100", "@everyone")]);
    let files = list_export(&catalog, None).unwrap();
    let state = recorded(&files.state_json).unwrap().bindings;
    let definition = DefinitionFile::parse(files.definition, &vocabulary()).unwrap();
    let everyone = definition.roles.get(&logical_id("everyone")).unwrap().attributes();
    assert!(everyone.name.is_none());
    assert!(everyone.color.is_none());
    assert!(everyone.hoist.is_none());
    assert!(everyone.mentionable.is_none());
    assert_eq!(literal_bool(everyone.permissions.get(&known_permission("VIEW_CHANNEL"))), Some(true));
    assert_eq!(literal_bool(everyone.permissions.get(&known_permission("SEND_MESSAGES"))), Some(false));
    assert!(!state.roles.contains_key(&logical_id("everyone")));

    let files = list_export(&catalog, None).unwrap();
    assert!(list_plan_export(&catalog, files).unwrap().changes.is_empty());
}

#[test]
fn everyone_rejects_non_permission_managed_attributes() {
    let definition = r#"
        schema_version = 1
        [roles.everyone]
        name = "renamed"
    "#;
    let catalog = catalog_of(100, vec![role("100", "@everyone")]);
    let message = message_of(error_of(list_plan(&catalog, definition, &state("100", "{}"))));
    assert!(message.contains("@everyone") && message.contains("権限"));
}

#[test]
fn re_export_preserves_logical_ids_from_input_state() {
    let catalog = catalog_of(100, vec![role("200", "名称変更後")]);
    let files = list_export(&catalog, Some(MODERATOR_STATE)).unwrap();
    let state = recorded(&files.state_json).unwrap().bindings;
    let definition = DefinitionFile::parse(files.definition, &vocabulary()).unwrap();
    let attributes = definition.roles.get(&logical_id("moderator")).unwrap().attributes();
    assert_eq!(literal_string(&attributes.name), Some("名称変更後"));
    assert_eq!(state.roles.get(&logical_id("moderator")).unwrap().get(), 200);
    assert!(!definition.roles.contains_key(&logical_id("role_200")));
}

#[test]
fn exported_definition_has_no_plan_changes() {
    let catalog = catalog_of(100, vec![role("200", "運営")]);
    let files = list_export(&catalog, None).unwrap();
    let plan = list_plan_export(&catalog, files).unwrap();
    assert!(plan.changes.is_empty());
    assert_eq!(plan.render(), "変更はありません。\n");
}

#[test]
fn reference_role_may_target_an_unmanageable_guild_role() {
    let mut external = role("200", "外部 Bot");
    external.manageable = false;
    let definition = r#"
        schema_version = 1
        [roles.external_bot]
        mode = "reference"
    "#;
    let catalog = catalog_of(100, vec![external]);
    let plan = list_plan(&catalog, definition, &state("100", r#"{"external_bot":"200"}"#)).unwrap();
    assert!(plan.changes.is_empty());
}

#[test]
fn everyone_role_may_be_used_as_a_reference() {
    let mut everyone = role("100", "@everyone");
    everyone.manageable = false;
    let definition = r#"
        schema_version = 1
        [roles.everyone]
        mode = "reference"
    "#;
    let plan = list_plan(&catalog_of(100, vec![everyone]), definition, &state("100", "{}")).unwrap();
    assert!(plan.changes.is_empty());
}

#[test]
fn permission_default_uses_everyone_role_value() {
    let mut everyone = role("100", "@everyone");
    everyone.manageable = false;
    let mut moderator = role("200", "運営");
    moderator.permissions.insert(known_permission("VIEW_CHANNEL"), false);
    let definition = r#"
        schema_version = 1
        [roles.moderator.permissions]
        VIEW_CHANNEL = { default = true }
    "#;
    let catalog = catalog_of(100, vec![everyone, moderator]);
    let plan = list_plan(&catalog, definition, &state("100", r#"{"moderator":"200"}"#)).unwrap();
    assert_eq!(plan.changes[0].attribute, "permissions.VIEW_CHANNEL");
    assert_eq!(plan.changes[0].current, "false");
    assert_eq!(plan.changes[0].desired, "true");
}

#[test]
fn export_omits_unmanageable_roles_but_keeps_manageable_roles() {
    let mut external = role("200", "外部 Bot");
    external.manageable = false;
    let files = list_export(&catalog_of(100, vec![external, role("201", "運営")]), None).unwrap();
    let definition = DefinitionFile::parse(files.definition, &vocabulary()).unwrap();
    assert!(!definition.roles.contains_key(&logical_id("role_200")));
    assert!(definition.roles.contains_key(&logical_id("role_201")));
}

#[test]
fn role_settings_set_attributes_are_planned() {
    let catalog = catalog_of(100, vec![role("200", "運営")]);
    let plan = list_plan(&catalog, STAFF_SET, MODERATOR_STATE).unwrap();
    assert_eq!(plan.changes.len(), 1);
    assert_eq!(plan.changes[0].logical_id.as_str(), "moderator");
    assert_eq!(plan.changes[0].discord_id.get(), 200);
    assert_eq!(plan.changes[0].attribute, "hoist");
    assert_eq!(plan.changes[0].current, "false");
    assert_eq!(plan.changes[0].desired, "true");
    assert_eq!(plan.render(), "Role の変更計画\n\n- moderator (200) hoist: false -> true\n");
}

#[test]
fn direct_attributes_override_later_settings_sets_and_omitted_attributes_are_retained() {
    let catalog = catalog_of(100, vec![role("200", "運営")]);
    let plan = list_plan(&catalog, TWO_SETS, &state("100", r#"{"moderator":"200"}"#)).unwrap();
    assert_eq!(plan.changes.len(), 2);
    assert!(plan.changes.iter().any(|change| change.attribute == "hoist"));
    assert!(plan.changes.iter().any(|change| change.attribute == "mentionable"));
    assert!(!plan.changes.iter().any(|change| change.attribute == "name"));
}

#[test]
fn default_specifiers_are_resolved_to_schema_version_values() {
    let mut actual = role("200", "運営");
    actual.color = Color::new(0x12_34_56).unwrap();
    let plan =
        list_plan(&catalog_of(100, vec![actual]), DEFAULTS, &state("100", r#"{"moderator":"200"}"#)).unwrap();
    assert!(plan
        .changes
        .iter()
        .any(|change| change.attribute == "name" && change.current == "運営" && change.desired == "new role"));
    assert!(plan
        .changes
        .iter()
        .any(|change| change.attribute == "color" && change.current == "1193046" && change.desired == "0"));
}

#[test]
fn guild_mismatch_is_reported_before_reading_discord() {
    assert_guild_mismatch(error_of(TrackedInput::parse(
        read_definition("schema_version = 1").unwrap(),
        read_recorded(&state("999", "{}")).unwrap(),
        guild_id(100),
        &vocabulary(),
    )));
}

#[test]
fn non_numeric_state_guild_id_is_reported() {
    let message = state_message_of(error_of(list_plan(
        &catalog_of(100, Vec::new()),
        "schema_version = 1",
        &state("not-a-snowflake", "{}"),
    )));
    assert!(message.contains("Guild ID"));
}

#[test]
fn everyone_mapping_in_state_is_rejected() {
    let message = state_message_of(error_of(list_plan(
        &catalog_of(100, vec![role("100", "@everyone")]),
        "schema_version = 1\n[roles.everyone]",
        &state("100", r#"{"everyone":"100"}"#),
    )));
    assert!(message.contains("everyone") && message.contains("state に含めず"));
}

#[test]
fn duplicate_snowflakes_in_state_are_reported() {
    let catalog = catalog_of(100, vec![role("200", "運営")]);
    let previous = state("100", r#"{"moderator":"200","staff":"200"}"#);
    let message = state_message_of(error_of(list_export(&catalog, Some(&previous))));
    assert!(message.contains("同じ Snowflake 200"));
}

#[test]
fn duplicate_logical_id_keys_in_state_are_reported() {
    let entries = vec![
        (ChannelLogicalId::parse("moderator").unwrap(), role_id("200")),
        (ChannelLogicalId::parse("moderator").unwrap(), role_id("201")),
    ];
    let message = collect_unique_mappings(entries, "Channel").err().unwrap();
    assert!(message.contains("論理 ID moderator が重複"));
}

#[test]
fn generated_logical_id_collision_with_stale_state_is_reported() {
    let catalog = catalog_of(100, vec![role("200", "運営")]);
    let previous = state("100", r#"{"role_200":"999"}"#);
    let message = state_message_of(error_of(list_export(&catalog, Some(&previous))));
    assert!(message.contains("論理 ID role_200"));
}

#[test]
fn invalid_unreferenced_settings_set_is_reported() {
    let definition = "schema_version = 1\n[settings_sets.role.unused]\ncolor = 16777216\n";
    let catalog = catalog_of(100, vec![role("200", "運営")]);
    assert!(message_of(error_of(list_plan(&catalog, definition, &state("100", "{}")))).contains("color"));
    assert_eq!(Color::new(16777215).unwrap().get(), 16777215);
    assert!(Color::new(16777216).is_err());
}

#[test]
fn false_default_in_unreferenced_settings_set_is_reported() {
    let definition = "schema_version = 1\n[settings_sets.role.unused]\nhoist = { default = false }\n";
    let catalog = catalog_of(100, vec![role("200", "運営")]);
    assert!(message_of(error_of(list_plan(&catalog, definition, &state("100", "{}")))).contains("default"));
}

#[test]
fn unknown_permission_in_unreferenced_settings_set_is_reported() {
    let definition = r#"
        schema_version = 1
        [settings_sets.role.unused.permissions]
        NOT_A_DISCORD_PERMISSION = true
    "#;
    let catalog = catalog_of(100, vec![role("200", "運営")]);
    assert!(message_of(error_of(list_plan(&catalog, definition, &state("100", "{}")))).contains("未知の権限"));
    // A permission that the vocabulary has and the guild has not is found by the plan.
    let definition = "schema_version = 1\n[settings_sets.role.unused.permissions]\nMANAGE_ROLES = true\n";
    assert!(message_of(error_of(list_plan(&catalog, definition, &state("100", "{}")))).contains("未知の権限"));
}

#[test]
fn unsupported_definition_version_is_reported() {
    let catalog = catalog_of(100, Vec::new());
    let message = message_of(error_of(list_plan(&catalog, "schema_version = 2", &state("100", "{}"))));
    assert!(message.contains("schema_version"));
}

#[test]
fn unknown_settings_set_is_reported() {
    let catalog = catalog_of(100, Vec::new());
    let message = message_of(error_of(list_plan(&catalog, MISSING_SET, &state("100", "{}"))));
    assert!(message.contains("未知の設定セット"));
}

#[test]
fn reference_role_with_managed_attributes_is_reported() {
    let catalog = catalog_of(100, Vec::new());
    let message = message_of(error_of(list_plan(&catalog, MANAGED_REFERENCE, &state("100", "{}"))));
    assert!(message.contains("参照専用 Role"));
}

const LIFECYCLE: &str = r#"
    schema_version = 1
    [roles.fresh]
    name = "新規"
    [roles.again]
    name = "再び"
    [roles.gone]
    ensure = "absent"
"#;

const LIFECYCLE_STATE: &str = r#"{
    "schema_version": 1,
    "guild_id": "100",
    "roles": {"again": "201", "free": "202", "gone": "203"},
    "deleted_roles": ["again"]
}"#;

#[test]
fn a_plan_lists_creations_releases_and_deletions() {
    let catalog = catalog_of(100, vec![role("202", "自由"), role("203", "不要")]);
    let plan = list_plan(&catalog, LIFECYCLE, LIFECYCLE_STATE).unwrap();
    assert_eq!(
        plan.render(),
        "Role の変更計画\n\n- 再作成: again\n- 新規作成: fresh\n- 削除: gone (203)\n  \
         影響: Guild から Role が削除され、付与済みの割り当ても失われます。\n- 管理解除: free (202)\n"
    );
}

fn start_lifecycle(plan: &RolePlan) -> RoleApplyStart {
    service()
        .apply_roles_with_options(
            recorded(LIFECYCLE_STATE).unwrap(),
            parse_definition(LIFECYCLE),
            plan,
            RoleApplyOptions { allow_deletions: true },
            true,
            0,
            DEADLINE,
        )
        .unwrap()
}

#[test]
fn an_application_binds_and_records_what_it_made() {
    let mut catalog = catalog_of(100, vec![role("202", "自由"), role("203", "不要")]);
    let plan = list_plan(&catalog, LIFECYCLE, LIFECYCLE_STATE).unwrap();
    let mut created = 300;
    let result = run(start_lifecycle(&plan), |action| match action {
        RoleAction::Create { create, .. } => {
            created += 1;
            catalog.roles.push(role(&created.to_string(), &create.name));
            RoleEvent::Created(Reply::Answered(RoleCreateOutcome::Created(RoleId::new(created))))
        }
        RoleAction::Delete { role_id, .. } => {
            catalog.roles.retain(|role| role.id.get() != role_id.get());
            RoleEvent::Deleted(Reply::Answered(RoleDeleteOutcome::Deleted))
        }
        RoleAction::ReadCatalog { .. } => RoleEvent::Catalog(Reply::Answered(catalog.copy())),
        _ => panic!("nothing else is asked for"),
    });
    assert!(matches!(result.status, RoleApplyStatus::Complete));
    assert_eq!(result.applied_lifecycle.len(), plan.lifecycle.len());
    assert!(result.pending_lifecycle.is_empty() && result.pending.is_empty());
    let state = recorded(&result.state_json).unwrap();
    let bound = |name: &str| state.bindings.roles.get(&logical_id(name)).map(|id| id.get());
    assert_eq!(
        [bound("again"), bound("free"), bound("fresh"), bound("gone")],
        [Some(301), None, Some(302), Some(203)]
    );
    assert!(state.deleted_roles.contains_key(&logical_id("gone")));
    assert!(!state.deleted_roles.contains_key(&logical_id("again")));
    assert!(state.pending_creations.is_empty() && state.pending_deletions.is_empty());
}

#[test]
fn an_application_that_stops_accounts_for_its_plan() {
    let mut catalog = catalog_of(100, vec![role("202", "自由"), role("203", "不要")]);
    let plan = list_plan(&catalog, LIFECYCLE, LIFECYCLE_STATE).unwrap();
    let result = run(start_lifecycle(&plan), |action| match action {
        RoleAction::Create { create, .. } if create.name == "再び" => {
            catalog.roles.push(role("301", &create.name));
            RoleEvent::Created(Reply::Answered(RoleCreateOutcome::Created(RoleId::new(301))))
        }
        RoleAction::Create { .. } => RoleEvent::Created(Reply::TimedOut),
        RoleAction::ReadCatalog { .. } => RoleEvent::Catalog(Reply::Answered(catalog.copy())),
        _ => panic!("nothing else is asked for"),
    });
    assert!(matches!(result.status, RoleApplyStatus::CreationResponseUnknown));
    assert!(result.applied_lifecycle.len() == 1 && result.applied_lifecycle[0].same(&plan.lifecycle[0]));
    assert_eq!(result.pending_lifecycle.len(), 3);
    assert!(result.pending_lifecycle.iter().zip(&plan.lifecycle[1..]).all(|(left, right)| left.same(right)));
    let state = recorded(&result.state_json).unwrap();
    assert_eq!(state.bindings.roles.get(&logical_id("again")).unwrap().get(), 301);
    assert_eq!(state.bindings.roles.get(&logical_id("free")).unwrap().get(), 202);
    assert_eq!(state.bindings.roles.get(&logical_id("gone")).unwrap().get(), 203);
    assert!(state.deleted_roles.is_empty() && state.pending_creations.contains_key(&logical_id("fresh")));
}

#[test]
fn states_with_contradictions_are_refused() {
    let refused = |rest: &str| {
        let text = format!(r#"{{"schema_version":1,"guild_id":"100","roles":{{"a":"200"}},{rest}}}"#);
        state_message_of(error_of(recorded(&text)))
    };
    assert!(refused(r#""deleted_roles":["b"]"#).contains("対応する Snowflake がありません"));
    assert!(refused(r#""deleted_roles":["a"],"pending_deletions":["a"]"#).contains("競合する未完了状態"));
    assert!(refused(r#""pending_deletions":["b"]"#).contains("active state がありません"));
    assert!(refused(r#""pending_creations":["a"]"#).contains("Snowflake が設定されています"));
}

#[test]
fn unsettled_creations_and_deletions_stop_plans() {
    let catalog = catalog_of(100, vec![role("200", "運営")]);
    let pending = r#"{"schema_version":1,"guild_id":"100","roles":{},"pending_creations":["moderator"]}"#;
    assert!(state_message_of(error_of(list_plan(&catalog, MODERATOR, pending))).contains("作成結果不明"));
    let pending =
        r#"{"schema_version":1,"guild_id":"100","roles":{"moderator":"200"},"pending_deletions":["moderator"]}"#;
    assert!(state_message_of(error_of(list_plan(&catalog, MODERATOR, pending))).contains("削除意図が未解決"));
    assert!(state_message_of(error_of(list_plan(&catalog, "schema_version = 1", pending)))
        .contains("定義を変更できません"));
}

// Applications of plans by single attributes.

const DEADLINE: u64 = 60_000;
const RENAME: &str = "schema_version = 1\n[roles.moderator]\nname = \"モデレーター\"\n";

fn bare_catalog(roles: Vec<RoleSnapshot>) -> RoleCatalog {
    RoleCatalog {
        roles,
        permission_names: OrderedMap::new(),
        grantable_permissions: OrderedMap::new(),
        default_permissions: OrderedMap::new(),
    }
}

fn start_apply(definition: &str, state: &str, plan: &RolePlan, acquired: bool, now: u64) -> RoleApplyStart {
    service()
        .apply_roles(recorded(state).unwrap(), parse_definition(definition), plan, acquired, now, DEADLINE)
        .unwrap()
}

/// Runs an application to its end. `reply` says what comes of a request.
fn run(start: RoleApplyStart, mut reply: impl FnMut(RoleAction) -> RoleEvent) -> RoleApplyResult {
    let mut session: RoleApplySession = match start {
        RoleApplyStart::Finished(result) => return result,
        RoleApplyStart::Started(session) => session,
    };
    loop {
        match session.action() {
            RoleAction::Finish => return session.into_result().unwrap(),
            RoleAction::Proceed => session.step(RoleEvent::Proceed, 1),
            action => {
                let event = reply(action);
                session.step(event, 1);
            }
        }
    }
}

fn rename(catalog: &mut RoleCatalog, id: RoleId, update: &RoleUpdate) {
    let role = catalog.roles.iter_mut().find(|role| role.id.get() == id.get()).unwrap();
    update.apply_to(role);
}

fn same_changes(left: &RolePlan, right: &[discord_management::service::plan::AttributeChange]) -> bool {
    left.changes.len() == right.len() && left.changes.iter().zip(right).all(|(left, right)| left.same(right))
}

#[test]
fn apply_updates_only_explicit_attributes_and_preserves_omitted_permissions() {
    let mut moderator = role("200", "運営");
    moderator.permissions = values(&[("VIEW_CHANNEL", false), ("MANAGE_MESSAGES", true)]);
    let mut catalog = catalog_of(100, vec![moderator]);
    catalog.default_permissions = values(&[("VIEW_CHANNEL", false), ("MANAGE_MESSAGES", false)]);
    let definition = r#"
        schema_version = 1
        [roles.moderator]
        name = "モデレーター"
        [roles.moderator.permissions]
        VIEW_CHANNEL = true
    "#;
    let state = state("100", r#"{"moderator":"200"}"#);
    let plan = list_plan(&catalog, definition, &state).unwrap();
    let mut updates = Vec::new();
    let result = run(start_apply(definition, &state, &plan, true, 0), |action| match action {
        RoleAction::Update { role_id, update, .. } => {
            rename(&mut catalog, role_id, &update);
            updates.push(update);
            RoleEvent::Updated(Reply::Answered(RoleUpdateOutcome::Applied))
        }
        _ => RoleEvent::Catalog(Reply::Answered(catalog.copy())),
    });
    assert!(matches!(result.status, RoleApplyStatus::Complete));
    assert!(same_changes(&plan, &result.applied));
    assert!(result.pending.is_empty());
    assert_eq!(
        json(&result.state_json),
        json(r#"{"schema_version":1,"guild_id":"100","roles":{"moderator":"200"}}"#)
    );
    assert_eq!(updates.len(), 1);
    assert_eq!(updates[0].name.as_deref(), Some("モデレーター"));
    let permissions = updates[0].permissions.as_ref().unwrap();
    assert!(permissions.same(&values(&[("MANAGE_MESSAGES", true), ("VIEW_CHANNEL", true)])));
}

#[test]
fn apply_requires_a_new_plan_when_managed_attributes_changed_after_confirmation() {
    let mut catalog = bare_catalog(vec![role("200", "運営")]);
    let state = state("100", r#"{"moderator":"200"}"#);
    let plan = list_plan(&catalog, RENAME, &state).unwrap();
    catalog.roles[0].name = "外部変更".to_owned();
    let result = run(start_apply(RENAME, &state, &plan, true, 0), |action| match action {
        RoleAction::ReadCatalog { .. } => RoleEvent::Catalog(Reply::Answered(catalog.copy())),
        _ => panic!("nothing may be changed"),
    });
    assert!(matches!(result.status, RoleApplyStatus::ReplanRequired));
    assert!(result.applied.is_empty());
    assert_eq!(result.pending[0].current, "外部変更");
}

#[test]
fn unknown_update_response_stops_when_refetched_value_does_not_match() {
    let catalog = bare_catalog(vec![role("200", "運営")]);
    let state = state("100", r#"{"moderator":"200"}"#);
    let plan = list_plan(&catalog, RENAME, &state).unwrap();
    let result = run(start_apply(RENAME, &state, &plan, true, 0), |action| match action {
        RoleAction::Update { .. } => RoleEvent::Updated(Reply::Answered(RoleUpdateOutcome::ResponseUnknown)),
        _ => RoleEvent::Catalog(Reply::Answered(catalog.copy())),
    });
    assert!(matches!(result.status, RoleApplyStatus::ResponseUnknown));
    assert!(result.applied.is_empty());
    assert!(same_changes(&plan, &result.pending));
}

#[test]
fn update_deadline_returns_unknown_progress_that_can_be_resubmitted() {
    let mut catalog = bare_catalog(vec![role("200", "運営")]);
    let state = state("100", r#"{"moderator":"200"}"#);
    let plan = list_plan(&catalog, RENAME, &state).unwrap();
    let timed_out = run(start_apply(RENAME, &state, &plan, true, 0), |action| match action {
        RoleAction::Update { .. } => RoleEvent::Updated(Reply::TimedOut),
        _ => RoleEvent::Catalog(Reply::Answered(catalog.copy())),
    });
    assert!(matches!(timed_out.status, RoleApplyStatus::ResponseUnknown));
    assert!(timed_out.applied.is_empty());
    assert!(same_changes(&plan, &timed_out.pending));

    let resubmitted = run(start_apply(RENAME, &timed_out.state_json, &plan, true, 0), |action| match action {
        RoleAction::Update { role_id, update, .. } => {
            rename(&mut catalog, role_id, &update);
            RoleEvent::Updated(Reply::Answered(RoleUpdateOutcome::Applied))
        }
        _ => RoleEvent::Catalog(Reply::Answered(catalog.copy())),
    });
    assert!(matches!(resubmitted.status, RoleApplyStatus::Complete));
    assert!(same_changes(&plan, &resubmitted.applied));
    assert!(resubmitted.pending.is_empty());
}

#[test]
fn expired_processing_budget_starts_no_updates_and_returns_latest_state() {
    let catalog = bare_catalog(vec![role("200", "運営")]);
    let state = state("100", r#"{"moderator":"200"}"#);
    let plan = list_plan(&catalog, RENAME, &state).unwrap();
    let result = run(start_apply(RENAME, &state, &plan, true, DEADLINE), |_| panic!("nothing may be asked"));
    assert!(matches!(result.status, RoleApplyStatus::DeadlineExceeded));
    assert!(result.applied.is_empty());
    assert!(same_changes(&plan, &result.pending));
    assert_eq!(json(&result.state_json)["guild_id"], "100");
}

#[test]
fn apply_stops_at_first_failure_and_reports_successful_and_pending_changes() {
    let mut catalog = bare_catalog(vec![role("200", "A"), role("201", "B")]);
    let definition = "schema_version = 1\n[roles.a]\nname = \"new A\"\n[roles.b]\nname = \"new B\"\n";
    let state = state("100", r#"{"a":"200","b":"201"}"#);
    let plan = list_plan(&catalog, definition, &state).unwrap();
    let mut calls = 0;
    let result = run(start_apply(definition, &state, &plan, true, 0), |action| match action {
        RoleAction::Update { role_id, update, .. } => {
            calls += 1;
            if calls == 2 {
                return RoleEvent::Updated(Reply::Refused(ManagementError::RoleSource(
                    "injected failure".to_owned(),
                )));
            }
            rename(&mut catalog, role_id, &update);
            RoleEvent::Updated(Reply::Answered(RoleUpdateOutcome::Applied))
        }
        _ => RoleEvent::Catalog(Reply::Answered(catalog.copy())),
    });
    assert!(matches!(result.status, RoleApplyStatus::Failed(message) if message.contains("injected failure")));
    assert_eq!(result.applied.iter().map(|change| change.logical_id.as_str()).collect::<Vec<_>>(), ["a"]);
    assert_eq!(result.pending.iter().map(|change| change.logical_id.as_str()).collect::<Vec<_>>(), ["b"]);
}

#[test]
fn acknowledged_update_is_reported_as_success_even_when_refetch_fails() {
    let catalog = bare_catalog(vec![role("200", "運営")]);
    let state = state("100", r#"{"moderator":"200"}"#);
    let plan = list_plan(&catalog, RENAME, &state).unwrap();
    let mut reads = 0;
    let result = run(start_apply(RENAME, &state, &plan, true, 0), |action| match action {
        RoleAction::Update { .. } => RoleEvent::Updated(Reply::Answered(RoleUpdateOutcome::Applied)),
        _ => {
            reads += 1;
            if reads == 2 {
                RoleEvent::Catalog(Reply::Refused(ManagementError::RoleSource("refetch failed".to_owned())))
            } else {
                RoleEvent::Catalog(Reply::Answered(catalog.copy()))
            }
        }
    });
    assert!(matches!(result.status, RoleApplyStatus::Failed(message) if message.contains("refetch failed")));
    assert!(same_changes(&plan, &result.applied));
    assert!(result.pending.is_empty());
}

#[test]
fn concurrent_apply_for_the_same_guild_is_rejected_without_waiting() {
    let mut lock = discord_management::guild_lock::GuildApplyLock::default();
    let mut catalog = bare_catalog(vec![role("200", "運営")]);
    let state = state("100", r#"{"moderator":"200"}"#);
    let plan = list_plan(&catalog, RENAME, &state).unwrap();
    let permit = lock.try_acquire(guild_id(100));
    let first = start_apply(RENAME, &state, &plan, permit.is_some(), 0);
    let second = lock.try_acquire(guild_id(100));
    let second = run(start_apply(RENAME, &state, &plan, second.is_some(), 0), |_| panic!("nothing may be asked"));
    assert!(matches!(second.status, RoleApplyStatus::GuildBusy));
    let first = run(first, |action| match action {
        RoleAction::Update { role_id, update, .. } => {
            rename(&mut catalog, role_id, &update);
            RoleEvent::Updated(Reply::Answered(RoleUpdateOutcome::Applied))
        }
        _ => RoleEvent::Catalog(Reply::Answered(catalog.copy())),
    });
    assert!(matches!(first.status, RoleApplyStatus::Complete));
    lock.release(permit.unwrap());
    assert!(lock.try_acquire(guild_id(100)).is_some());
}

#[test]
fn member_names_are_read_as_they_are_written() {
    assert_eq!(MemberLogicalId::parse("owner-1_a").unwrap().as_str(), "owner-1_a");
    assert!(MemberLogicalId::parse("").is_err());
    assert!(MemberLogicalId::parse("名前").is_err());
}

#[test]
fn each_broken_rule_is_told_with_its_place() {
    let text = concat_lines(&[
        "schema_version = 2",
        "[settings_sets.role.base]",
        "name = \"\"",
        "[settings_sets.channel.base]",
        "nsfw = { clear = true }",
        "[roles.admin]",
        "name = \"運営\"",
        "[roles.moderator]",
        "name = \"\"",
        "[channels.rules]",
        "type = \"text\"",
        "name = \"\"",
        "slowmode_seconds = 21601",
        "default_auto_archive_minutes = 61",
        "[members.owner]",
        "[message_sets.guide]",
        "channel = \"rules\"",
        "body = [{ id = \"first\", body = \"\" }]",
        "[message_sets.notes]",
        "channel = \"rules\"",
        "[threads.\"a b\"]",
        "[order]",
        "roles = [\"admin\", \"admin\"]",
    ]);
    let expected = concat_lines(&[
        "schema_version: 対応していない schema_version です",
        "settings_sets.role[0].name: name は1文字以上かつ100文字以内で指定してくださいsettings_sets.channel[0].attributes.nsfw: nsfw は解除できません",
        "roles[1].attributes.name: name は1文字以上かつ100文字以内で指定してください",
        "channels[0].attributes.name: name は1文字以上かつ100文字以内で指定してくださいchannels[0].attributes.slowmode_seconds: slowmode_seconds は0から21600の範囲で指定してくださいchannels[0].attributes.default_auto_archive_minutes: default_auto_archive_minutes は60、1440、4320、10080のいずれかで指定してください",
        "members[0].mode: Member は参照専用として宣言してください",
        "message_sets[0].body[0].body: body は1文字以上で指定してくださいmessage_sets[1].__all__: 管理メッセージ群には body が必要です",
        "threads: 管理リソース名 a b は英数字、ハイフン、アンダースコアだけで指定してください",
        "order.roles: order の Role admin が重複しています",
    ]);
    assert_eq!(message_of(error_of(parse_definition(&text))), expected);
}

fn concat_lines(lines: &[&str]) -> String {
    lines.join("\n")
}

#[test]
fn a_single_broken_rule_is_told_as_the_validator_crate_tells_it() {
    let mut messages = validator::ValidationErrors::new();
    messages.add(
        "name",
        validator::ValidationError::new("length").with_message("name は1文字以上かつ100文字以内で指定してください".into()),
    );
    let mut role = validator::ValidationErrors::new();
    role.errors_mut().insert("attributes".into(), validator::ValidationErrorsKind::Struct(Box::new(messages)));
    let mut list = std::collections::BTreeMap::new();
    list.insert(0, Box::new(role));
    let mut errors = validator::ValidationErrors::new();
    errors.errors_mut().insert("roles".into(), validator::ValidationErrorsKind::List(list));
    let refused = parse_definition("schema_version = 1\n[roles.admin]\nname = \"\"\n");
    assert_eq!(message_of(error_of(refused)), errors.to_string());
}

#[test]
fn broken_rules_of_states_are_told_with_their_places() {
    let text = r#"{"schema_version":2,"guild_id":"100","roles":{"everyone":"200"},"channels":{"a":"300","b":"300"},"members":{"c":"400","d":"400"}}"#;
    let refused = StateFile::parse_for_guild(read_state(text).unwrap(), guild_id(100));
    assert_eq!(
        state_message_of(error_of(refused)),
        concat_lines(&[
            "schema_version: 対応していない schema_version です",
            "roles: 予約論理 ID everyone は state に含めず、definition だけで使用してください",
            "channels: Channel a と b が同じ Snowflake 300 を参照しています",
            "members: Member c と d が同じ Snowflake 400 を参照しています",
        ])
    );
}
