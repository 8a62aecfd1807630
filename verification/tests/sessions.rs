//! Plans of channels and roles, and their application step by step.

use discord_management::apply::Reply;
use discord_management::configuration::channel::{
    ChannelAttributes, ChannelKind, ChannelValue, Ensure, OverwriteTarget, OverwriteValue, RawChannelAttributes,
    RawChannelDefinition, RawChannelKind,
};
use discord_management::configuration::definition::{
    DefinitionFile, RawDefinitionFile, RawOrderDefinition, RawSettingsSets,
};
use discord_management::configuration::input::PlanInput;
use discord_management::configuration::permission::{KnownPermission, PermissionName, PermissionVocabulary};
use discord_management::configuration::role::{
    Color, ManagedValue, RawRoleAttributes, RawRoleDefinition, RoleEnsure, RoleMode,
};
use discord_management::configuration::state::RawStateFile;
use discord_management::domain::ManagementError;
use discord_management::export::channel::export_channels;
use discord_management::export::marker::{inline_markers, Marker, TomlItem};
use discord_management::ids::{ChannelId, ChannelLogicalId, GuildId, RoleId, RoleLogicalId};
use discord_management::ordered::OrderedMap;
use discord_management::plan::{plan_channels, plan_roles};
use discord_management::port::{
    ChannelCatalog, ChannelCreateOutcome, ChannelDeleteOutcome, ChannelOverwritePermissions, ChannelOverwriteTarget,
    ChannelSnapshot, ChannelUpdateOutcome, RoleCatalog, RoleCreateOutcome, RoleDeleteOutcome, RolePositionUpdateOutcome,
    RoleSnapshot, RoleUpdateOutcome,
};
use discord_management::resource::channel::apply::{
    ChannelAction, ChannelApplyOptions, ChannelApplyResult, ChannelApplySession, ChannelApplyStatus, ChannelEvent,
};
use discord_management::resource::role::apply::{
    RoleAction, RoleApplyOptions, RoleApplyResult, RoleApplySession, RoleApplyStatus, RoleEvent,
};
use discord_management::service::plan::validate_role_plan_scope;
use discord_management::value::Plain;

const DEADLINE: u64 = 1_000;

fn guild() -> GuildId {
    GuildId::new(100)
}

fn vocabulary() -> PermissionVocabulary {
    PermissionVocabulary::from_names(&vec!["VIEW_CHANNEL".to_owned()]).unwrap()
}

fn view_channel() -> KnownPermission {
    vocabulary().resolve(&PermissionName::parse("VIEW_CHANNEL").unwrap()).unwrap()
}

fn role_name(name: &str) -> RoleLogicalId {
    RoleLogicalId::parse(name).unwrap()
}

fn channel_name(name: &str) -> ChannelLogicalId {
    ChannelLogicalId::parse(name).unwrap()
}

fn empty_definition() -> RawDefinitionFile {
    RawDefinitionFile {
        schema_version: 1,
        settings_sets: RawSettingsSets { role: OrderedMap::new(), channel: OrderedMap::new() },
        roles: OrderedMap::new(),
        channels: OrderedMap::new(),
        members: OrderedMap::new(),
        message_sets: OrderedMap::new(),
        threads: OrderedMap::new(),
        order: None,
    }
}

fn managed_role(name: &str) -> RawRoleDefinition {
    RawRoleDefinition {
        ensure: RoleEnsure::Present,
        mode: RoleMode::Managed,
        settings_sets: Vec::new(),
        attributes: RawRoleAttributes {
            name: Some(ManagedValue::Value(name.to_owned())),
            color: None,
            hoist: None,
            mentionable: None,
            permissions: OrderedMap::new(),
        },
    }
}

fn absent_role() -> RawRoleDefinition {
    RawRoleDefinition {
        ensure: RoleEnsure::Absent,
        mode: RoleMode::Managed,
        settings_sets: Vec::new(),
        attributes: RawRoleAttributes::none(),
    }
}

fn raw_state(roles: &[(&str, u64)], channels: &[(&str, u64)]) -> RawStateFile {
    let mut state = RawStateFile {
        schema_version: 1,
        guild_id: guild(),
        roles: OrderedMap::new(),
        channels: OrderedMap::new(),
        members: OrderedMap::new(),
    };
    for (name, id) in roles {
        state.roles.insert(role_name(name), RoleId::new(*id));
    }
    for (name, id) in channels {
        state.channels.insert(channel_name(name), ChannelId::new(*id));
    }
    state
}

fn input(definition: RawDefinitionFile, state: RawStateFile) -> PlanInput {
    PlanInput::parse(definition, state, guild(), &vocabulary()).unwrap()
}

fn role(id: u64, name: &str, position: i16) -> RoleSnapshot {
    RoleSnapshot {
        id: RoleId::new(id),
        position,
        manageable: id != 100,
        name: name.to_owned(),
        color: Color::default(),
        hoist: false,
        mentionable: false,
        permissions: OrderedMap::new(),
    }
}

fn role_catalog(roles: Vec<RoleSnapshot>) -> RoleCatalog {
    RoleCatalog {
        roles,
        permission_names: OrderedMap::new(),
        grantable_permissions: OrderedMap::new(),
        default_permissions: OrderedMap::new(),
    }
}

fn run_roles(mut session: RoleApplySession, mut reply: impl FnMut(RoleAction) -> RoleEvent) -> RoleApplyResult {
    loop {
        match session.action() {
            RoleAction::Finish => return session.into_result().unwrap(),
            RoleAction::Proceed => session.step(RoleEvent::Proceed, 1),
            action => {
                let event = reply(action);
                session.step(event, 1);
            }
        }
    }
}

/// A definition that creates `fresh`, deletes `gone` and renames `kept`; `free` is released.
fn lifecycle_definition() -> RawDefinitionFile {
    let mut definition = empty_definition();
    definition.roles.insert(role_name("fresh"), managed_role("新規"));
    definition.roles.insert(role_name("gone"), absent_role());
    definition.roles.insert(role_name("kept"), managed_role("新しい名前"));
    definition
}

fn lifecycle_state() -> RawStateFile {
    raw_state(&[("gone", 201), ("kept", 202), ("free", 203)], &[])
}

fn lifecycle_catalog() -> RoleCatalog {
    role_catalog(vec![role(201, "不要", 3), role(202, "古い名前", 2), role(203, "自由", 1), role(100, "@everyone", 0)])
}

/// What a guild does that answers every request.
fn answer(catalog: &mut RoleCatalog, action: RoleAction) -> RoleEvent {
    match action {
        RoleAction::Create { create, .. } => {
            catalog.roles.push(role(300, &create.name, 1));
            RoleEvent::Created(Reply::Answered(RoleCreateOutcome::Created(RoleId::new(300))))
        }
        RoleAction::Delete { role_id, .. } => {
            catalog.roles.retain(|role| role.id.get() != role_id.get());
            RoleEvent::Deleted(Reply::Answered(RoleDeleteOutcome::Deleted))
        }
        RoleAction::Update { role_id, update, .. } => {
            let role = catalog.roles.iter_mut().find(|role| role.id.get() == role_id.get()).unwrap();
            update.apply_to(role);
            RoleEvent::Updated(Reply::Answered(RoleUpdateOutcome::Applied))
        }
        RoleAction::Move { updates, .. } => {
            for update in updates {
                let role = catalog.roles.iter_mut().find(|role| role.id.get() == update.role_id.get()).unwrap();
                role.position = update.position;
            }
            RoleEvent::Moved(Reply::Answered(RolePositionUpdateOutcome::Applied))
        }
        _ => RoleEvent::Catalog(Reply::Answered(catalog.copy())),
    }
}

#[test]
fn a_plan_of_roles_is_applied_and_settled() {
    let mut catalog = lifecycle_catalog();
    let plan = plan_roles(&input(lifecycle_definition(), lifecycle_state()), &catalog).unwrap();
    assert_eq!(plan.len(), 4);
    assert!(plan.contains_deletions());
    let session = RoleApplySession::apply_roles_with_options(
        input(lifecycle_definition(), lifecycle_state()),
        &plan,
        RoleApplyOptions { allow_deletions: true },
        true,
        0,
        DEADLINE,
    );
    let result = run_roles(session, |action| answer(&mut catalog, action));
    assert!(matches!(result.status, RoleApplyStatus::Complete));
    assert!(result.pending.is_empty());
    assert!(result.applied.same(&plan));
    let state = raw_state(&[("fresh", 300), ("kept", 202)], &[]);
    assert_eq!(
        result.state_json,
        "{\n  \"schema_version\": 1,\n  \"guild_id\": \"100\",\n  \"roles\": {\n    \"fresh\": \"300\",\n    \
         \"kept\": \"202\"\n  }\n}\n"
    );
    assert!(plan_roles(&input(lifecycle_definition(), state), &catalog).unwrap().is_empty());
}

#[test]
fn deletions_need_to_be_allowed() {
    let catalog = lifecycle_catalog();
    let plan = plan_roles(&input(lifecycle_definition(), lifecycle_state()), &catalog).unwrap();
    let session =
        RoleApplySession::apply_roles(input(lifecycle_definition(), lifecycle_state()), &plan, true, 0, DEADLINE);
    let result = run_roles(session, |action| match action {
        RoleAction::ReadCatalog { until } => {
            assert_eq!(until, DEADLINE);
            RoleEvent::Catalog(Reply::Answered(catalog.copy()))
        }
        _ => panic!("nothing may be changed"),
    });
    assert!(matches!(result.status, RoleApplyStatus::DeletionPermissionRequired));
    assert!(result.pending.same(&plan));
}

#[test]
fn a_session_ends_with_what_went_wrong() {
    let start = || {
        let plan = plan_roles(&input(lifecycle_definition(), lifecycle_state()), &lifecycle_catalog()).unwrap();
        RoleApplySession::apply_roles_with_options(
            input(lifecycle_definition(), lifecycle_state()),
            &plan,
            RoleApplyOptions { allow_deletions: true },
            true,
            0,
            DEADLINE,
        )
    };
    let mut catalog = lifecycle_catalog();
    let lost = run_roles(start(), |action| match action {
        RoleAction::Create { .. } => RoleEvent::Created(Reply::TimedOut),
        action => answer(&mut catalog, action),
    });
    assert!(matches!(lost.status, RoleApplyStatus::CreationResponseUnknown));
    assert_eq!(lost.applied.len(), 1);
    assert_eq!(lost.pending.len(), 3);

    let mut catalog = lifecycle_catalog();
    let denied = run_roles(start(), |action| match action {
        RoleAction::Delete { .. } => {
            RoleEvent::Deleted(Reply::Refused(ManagementError::RolePermissionDenied("上位の Role".to_owned())))
        }
        action => answer(&mut catalog, action),
    });
    assert!(matches!(denied.status, RoleApplyStatus::DeletionPermissionDenied(message) if message == "上位の Role"));

    let mut catalog = lifecycle_catalog();
    let unknown = run_roles(start(), |action| match action {
        RoleAction::Delete { .. } => RoleEvent::Deleted(Reply::Answered(RoleDeleteOutcome::ResponseUnknown)),
        action => answer(&mut catalog, action),
    });
    assert!(matches!(unknown.status, RoleApplyStatus::DeletionResponseUnknown));

    let mut catalog = lifecycle_catalog();
    let clash = run_roles(start(), |action| match action {
        RoleAction::Create { .. } => {
            RoleEvent::Created(Reply::Answered(RoleCreateOutcome::Created(RoleId::new(202))))
        }
        action => answer(&mut catalog, action),
    });
    assert!(matches!(clash.status, RoleApplyStatus::Failed(message) if message.contains("202")));

    let mut catalog = lifecycle_catalog();
    let mismatch = run_roles(start(), |action| match action {
        RoleAction::Update { .. } => RoleEvent::Updated(Reply::Answered(RoleUpdateOutcome::Applied)),
        action => answer(&mut catalog, action),
    });
    assert!(matches!(mismatch.status, RoleApplyStatus::Failed(message) if message.contains("一致しません")));

    let mut catalog = lifecycle_catalog();
    let unheard = run_roles(start(), |action| match action {
        RoleAction::Update { .. } => RoleEvent::Updated(Reply::TimedOut),
        action => answer(&mut catalog, action),
    });
    assert!(matches!(unheard.status, RoleApplyStatus::ResponseUnknown));
    let outdated = run_roles(start(), |_| RoleEvent::Catalog(Reply::Answered(role_catalog(vec![
        role(201, "不要", 3),
        role(202, "別の名前", 2),
        role(203, "自由", 1),
        role(100, "@everyone", 0),
    ]))));
    assert!(matches!(outdated.status, RoleApplyStatus::ReplanRequired));
    assert!(outdated.applied.is_empty());
    let late = run_roles(start(), |_| RoleEvent::Catalog(Reply::TimedOut));
    assert!(matches!(late.status, RoleApplyStatus::DeadlineExceeded));
}

#[test]
fn a_busy_guild_and_a_passed_deadline_ask_for_nothing() {
    let catalog = lifecycle_catalog();
    let plan = plan_roles(&input(lifecycle_definition(), lifecycle_state()), &catalog).unwrap();
    let start = |acquired: bool, now: u64| {
        let input = input(lifecycle_definition(), lifecycle_state());
        run_roles(RoleApplySession::apply_roles(input, &plan, acquired, now, DEADLINE), |_| panic!("nothing is asked"))
    };
    assert!(matches!(start(false, 0).status, RoleApplyStatus::GuildBusy));
    assert!(matches!(start(true, DEADLINE).status, RoleApplyStatus::DeadlineExceeded));
}

#[test]
fn an_application_of_updates_refuses_other_changes() {
    let catalog = lifecycle_catalog();
    let plan = plan_roles(&input(lifecycle_definition(), lifecycle_state()), &catalog).unwrap();
    let mut session = RoleApplySession::apply_role_updates(
        input(lifecycle_definition(), lifecycle_state()),
        &plan,
        true,
        0,
        DEADLINE,
    );
    session.step(RoleEvent::Catalog(Reply::Answered(catalog)), 1);
    assert!(matches!(session.action(), RoleAction::Finish));
    assert!(matches!(session.into_result(), Err(ManagementError::InvalidState(message)) if message.contains("lifecycle")));
}

fn order_definition() -> RawDefinitionFile {
    let mut definition = empty_definition();
    definition.roles.insert(role_name("first"), managed_role("最初"));
    definition.roles.insert(role_name("second"), managed_role("次"));
    definition.order = Some(RawOrderDefinition {
        roles: vec![role_name("second"), role_name("first")],
        categories: Vec::new(),
        uncategorized: Vec::new(),
        children: OrderedMap::new(),
    });
    definition
}

#[test]
fn a_new_order_of_roles_is_applied_and_settled() {
    let state = || raw_state(&[("first", 201), ("second", 202)], &[]);
    let mut catalog = role_catalog(vec![role(201, "最初", 2), role(202, "次", 1), role(100, "@everyone", 0)]);
    let plan = plan_roles(&input(order_definition(), state()), &catalog).unwrap();
    assert!(plan.has_order());
    let start = || RoleApplySession::apply_roles(input(order_definition(), state()), &plan, true, 0, DEADLINE);
    let refused = run_roles(start(), |action| match action {
        RoleAction::Move { .. } => RoleEvent::Moved(Reply::Refused(ManagementError::RoleSource("断".to_owned()))),
        _ => RoleEvent::Catalog(Reply::Answered(catalog.copy())),
    });
    assert!(matches!(refused.status, RoleApplyStatus::Failed(message) if message.contains('断')));
    assert!(refused.pending.has_order());
    let ignored = run_roles(start(), |action| match action {
        RoleAction::Move { .. } => RoleEvent::Moved(Reply::TimedOut),
        _ => RoleEvent::Catalog(Reply::Answered(catalog.copy())),
    });
    assert!(matches!(ignored.status, RoleApplyStatus::ReplanRequired));
    let result = run_roles(start(), |action| answer(&mut catalog, action));
    assert!(matches!(result.status, RoleApplyStatus::Complete));
    assert!(result.applied.has_order() && result.pending.is_empty());
    assert!(plan_roles(&input(order_definition(), state()), &catalog).unwrap().is_empty());
}

// Channels.

fn text_channel(name: &str, parent: Option<&str>) -> RawChannelDefinition {
    let mut attributes = RawChannelAttributes::none();
    attributes.kind = Some(RawChannelKind::Text);
    attributes.name = Some(ChannelValue::Value(name.to_owned()));
    attributes.parent = parent.map(|parent| ChannelValue::Value(channel_name(parent)));
    RawChannelDefinition { mode: RoleMode::Managed, ensure: None, settings_sets: Vec::new(), attributes }
}

fn category(name: &str) -> RawChannelDefinition {
    let mut attributes = RawChannelAttributes::none();
    attributes.kind = Some(RawChannelKind::Category);
    attributes.name = Some(ChannelValue::Value(name.to_owned()));
    RawChannelDefinition { mode: RoleMode::Managed, ensure: None, settings_sets: Vec::new(), attributes }
}

fn absent_channel() -> RawChannelDefinition {
    RawChannelDefinition {
        mode: RoleMode::Managed,
        ensure: Some(Ensure::Absent),
        settings_sets: Vec::new(),
        attributes: RawChannelAttributes::none(),
    }
}

fn channel(id: u64, kind: ChannelKind, name: &str, parent: Option<u64>) -> ChannelSnapshot {
    ChannelSnapshot {
        id: ChannelId::new(id),
        position: 0,
        kind,
        manageable: true,
        name: name.to_owned(),
        parent_id: parent.map(ChannelId::new),
        topic: None,
        nsfw: false,
        slowmode_seconds: 0,
        default_auto_archive_minutes: None,
        default_thread_slowmode_seconds: 0,
        overwrites: OrderedMap::new(),
    }
}

fn channel_definition() -> RawDefinitionFile {
    let mut definition = empty_definition();
    definition.channels.insert(channel_name("a_child"), text_channel("子", Some("parent")));
    definition.channels.insert(channel_name("old"), absent_channel());
    definition.channels.insert(channel_name("old_inside"), absent_channel());
    definition.channels.insert(channel_name("parent"), category("親"));
    let mut moved = text_channel("移動", Some("parent"));
    let mut view = OrderedMap::new();
    view.insert(PermissionName::parse("VIEW_CHANNEL").unwrap(), OverwriteValue::Deny);
    moved.attributes.overwrites.insert(OverwriteTarget::Everyone, view);
    definition.channels.insert(channel_name("moved"), moved);
    definition
}

fn channel_state() -> RawStateFile {
    raw_state(&[], &[("old", 400), ("old_inside", 401), ("moved", 402), ("free", 403)])
}

fn channel_catalog() -> ChannelCatalog {
    ChannelCatalog {
        channels: vec![
            channel(400, ChannelKind::Category, "旧", None),
            channel(401, ChannelKind::Text, "旧の中", Some(400)),
            channel(402, ChannelKind::Text, "移動", None),
            channel(403, ChannelKind::Text, "自由", None),
        ],
    }
}

fn run_channels(
    mut session: ChannelApplySession,
    mut reply: impl FnMut(ChannelAction) -> ChannelEvent,
) -> ChannelApplyResult {
    loop {
        match session.action() {
            ChannelAction::Finish => return session.into_result().unwrap(),
            ChannelAction::Proceed => session.step(ChannelEvent::Proceed, 1),
            action => {
                let event = reply(action);
                session.step(event, 1);
            }
        }
    }
}

#[test]
fn a_plan_of_channels_is_applied_in_order_and_settled() {
    let mut catalog = channel_catalog();
    let plan = plan_channels(&input(channel_definition(), channel_state()), &catalog, true).unwrap();
    assert_eq!(plan.len(), 6);
    let session = ChannelApplySession::apply_channels_with_options(
        input(channel_definition(), channel_state()),
        &plan,
        ChannelApplyOptions { allow_deletions: true },
        true,
        0,
        DEADLINE,
    );
    let mut requests = Vec::new();
    let mut next = 500;
    let result = run_channels(session, |action| match action {
        ChannelAction::Create { create, .. } => {
            requests.push(format!("create {}", create.name));
            let parent = create.parent_id.map(|id| id.get());
            catalog.channels.push(channel(next, create.kind, &create.name, parent));
            next += 1;
            ChannelEvent::Created(Reply::Answered(ChannelCreateOutcome::Created(ChannelId::new(next - 1))))
        }
        ChannelAction::Delete { channel_id, .. } => {
            requests.push(format!("delete {}", channel_id.get()));
            catalog.channels.retain(|channel| channel.id.get() != channel_id.get());
            ChannelEvent::Deleted(Reply::Answered(ChannelDeleteOutcome::Deleted))
        }
        ChannelAction::Update { channel_id, update, .. } => {
            requests.push(format!("update {}", channel_id.get()));
            let channel =
                catalog.channels.iter_mut().find(|channel| channel.id.get() == channel_id.get()).unwrap();
            update.apply_to(channel);
            ChannelEvent::Updated(Reply::Answered(ChannelUpdateOutcome::Applied))
        }
        ChannelAction::ReadPermission { .. } => ChannelEvent::Permitted(Reply::Answered(true)),
        _ => ChannelEvent::Catalog(Reply::Answered(catalog.copy())),
    });
    assert!(matches!(result.status, ChannelApplyStatus::Complete));
    assert_eq!(requests, ["create 親", "create 子", "update 402", "delete 400", "delete 401"]);
    assert!(result.applied.same(&plan));
    assert!(result.pending.is_empty());
    let state = raw_state(&[], &[("a_child", 501), ("moved", 402), ("parent", 500)]);
    assert!(plan_channels(&input(channel_definition(), state), &catalog, true).unwrap().is_empty());
}

#[test]
fn channels_are_not_deleted_without_leave() {
    let catalog = channel_catalog();
    let plan = plan_channels(&input(channel_definition(), channel_state()), &catalog, true).unwrap();
    let session = ChannelApplySession::apply_channels(
        input(channel_definition(), channel_state()),
        &plan,
        true,
        0,
        DEADLINE,
    );
    let result = run_channels(session, |action| match action {
        ChannelAction::ReadCatalog { .. } => ChannelEvent::Catalog(Reply::Answered(catalog.copy())),
        ChannelAction::ReadPermission { .. } => ChannelEvent::Permitted(Reply::Answered(true)),
        _ => panic!("nothing may be changed"),
    });
    assert!(matches!(result.status, ChannelApplyStatus::DeletionPermissionRequired));
    assert!(result.pending.same(&plan));
}

#[test]
fn overwrites_cannot_be_planned_without_the_permission_to_manage_roles() {
    let refused = plan_channels(&input(channel_definition(), channel_state()), &channel_catalog(), false);
    assert!(matches!(refused, Err(ManagementError::ChannelPermissionDenied(_))));
}

#[test]
fn a_category_with_channels_of_others_is_not_deleted() {
    let mut definition = empty_definition();
    definition.channels.insert(channel_name("old"), absent_channel());
    let refused = plan_channels(&input(definition, raw_state(&[], &[("old", 400)])), &channel_catalog(), true);
    assert!(matches!(refused, Err(ManagementError::InvalidState(message)) if message.contains("401")));
}

#[test]
fn exported_channels_need_no_change() {
    let mut catalog = ChannelCatalog {
        channels: vec![
            channel(400, ChannelKind::Category, "案内", None),
            channel(401, ChannelKind::Text, "ルール", Some(400)),
            channel(402, ChannelKind::Unsupported, "音声", Some(400)),
        ],
    };
    let mut known = OrderedMap::new();
    known.insert(view_channel(), OverwriteValue::Deny);
    catalog.channels[1]
        .overwrites
        .insert(ChannelOverwriteTarget::Role(RoleId::new(200)), ChannelOverwritePermissions::from_known(known));
    let files = export_channels(&catalog, guild(), None).unwrap();
    assert_eq!(files.state.channels.get(&channel_name("channel_401")).unwrap().get(), 401);
    assert_eq!(files.state.roles.get(&role_name("role_200")).unwrap().get(), 200);
    assert!(!files.state.channels.contains_key(&channel_name("channel_402")));
    let state = files.state.to_raw();
    assert!(plan_channels(&input(files.definition, state), &catalog, false).unwrap().is_empty());
}

fn read_item(item: &toml_edit::Item) -> TomlItem {
    match item {
        toml_edit::Item::Table(table) => TomlItem::Table(read_entries(table)),
        toml_edit::Item::ArrayOfTables(tables) => TomlItem::Tables(tables.iter().map(read_entries).collect()),
        _ => TomlItem::Value(item.as_bool()),
    }
}

fn read_entries(table: &toml_edit::Table) -> Vec<(String, TomlItem)> {
    table.iter().map(|(key, child)| (key.to_owned(), read_item(child))).collect()
}

fn write_item(item: &mut toml_edit::Item, wanted: &TomlItem) {
    match (&mut *item, wanted) {
        (toml_edit::Item::Table(table), TomlItem::Table(entries)) => {
            for ((_, child), (_, wanted)) in table.iter_mut().zip(entries) {
                write_item(child, wanted);
            }
            table.fmt();
        }
        (_, TomlItem::Inline(marker)) => {
            let mut inline = toml_edit::InlineTable::new();
            inline.insert(marker.key(), true.into());
            *item = toml_edit::Item::Value(toml_edit::Value::InlineTable(inline));
        }
        _ => {}
    }
}

#[test]
fn marker_tables_are_inlined_without_inlining_structured_tables() {
    let mut document = r#"
[settings_sets.channels.base.topic]
default = true

[channels.rules.parent]
clear = true

[channels.rules.overwrites.everyone]
VIEW_CHANNEL = "deny"
"#
    .parse::<toml_edit::DocumentMut>()
    .unwrap();

    let wanted = inline_markers(read_item(document.as_item()));
    write_item(document.as_item_mut(), &wanted);
    let output = document.to_string();

    assert!(output.contains("topic = { default = true }"));
    assert!(output.contains("parent = { clear = true }"));
    assert!(output.contains("[channels.rules.overwrites.everyone]"));
    assert!(!output.contains("overwrites = {"));
}

fn table(entries: &[(&str, Option<bool>)]) -> TomlItem {
    TomlItem::Table(entries.iter().map(|(key, truth)| ((*key).to_owned(), TomlItem::Value(*truth))).collect())
}

#[test]
fn marker_tables_have_one_entry_that_is_true() {
    assert!(matches!(inline_markers(table(&[("default", Some(true))])), TomlItem::Inline(Marker::Default)));
    assert!(matches!(inline_markers(table(&[("clear", Some(true))])), TomlItem::Inline(Marker::Clear)));
    for other in [
        table(&[]),
        table(&[("default", Some(false))]),
        table(&[("clear", None)]),
        table(&[("name", Some(true))]),
        table(&[("clear", Some(true)), ("default", Some(true))]),
    ] {
        assert!(matches!(inline_markers(other), TomlItem::Table(_)));
    }
    assert!(matches!(inline_markers(TomlItem::Value(Some(true))), TomlItem::Value(Some(true))));
    assert_eq!(Marker::Default.key(), "default");
    assert_eq!(Marker::Clear.key(), "clear");
}

#[test]
fn markers_are_inlined_in_tables_under_one_key_only() {
    let nested = vec![("topic".to_owned(), table(&[("clear", Some(true))]))];
    let marker = vec![("default".to_owned(), TomlItem::Value(Some(true)))];
    let inlined = inline_markers(TomlItem::Tables(vec![nested, marker]));
    let again = format!("{inlined:?}");
    assert!(matches!(
        &inlined,
        TomlItem::Tables(tables)
            if matches!(tables[0][0].1, TomlItem::Inline(Marker::Clear))
                && matches!(tables[1][0].1, TomlItem::Value(Some(true)))
    ));
    assert_eq!(format!("{:?}", inline_markers(inlined)), again);
    let around = TomlItem::Table(vec![("default".to_owned(), table(&[("default", Some(true))]))]);
    assert!(matches!(
        inline_markers(around),
        TomlItem::Table(entries) if matches!(entries[0].1, TomlItem::Inline(Marker::Default))
    ));
}

#[test]
fn the_present_parent_of_a_reference_is_shown_with_its_type() {
    let deferred = |parent: Option<u64>| {
        let mut definition = empty_definition();
        definition.channels.insert(channel_name("parent"), category("親"));
        definition.channels.insert(
            channel_name("rules"),
            RawChannelDefinition {
                mode: RoleMode::Reference,
                ensure: None,
                settings_sets: Vec::new(),
                attributes: RawChannelAttributes::none(),
            },
        );
        let mut children = OrderedMap::new();
        children.insert(channel_name("parent"), vec![channel_name("rules")]);
        definition.order =
            Some(RawOrderDefinition { roles: Vec::new(), categories: Vec::new(), uncategorized: Vec::new(), children });
        let catalog = ChannelCatalog {
            channels: vec![
                channel(300, ChannelKind::Category, "別", None),
                channel(401, ChannelKind::Text, "規則", parent),
            ],
        };
        match plan_channels(&input(definition, raw_state(&[], &[("rules", 401)])), &catalog, true) {
            Err(ManagementError::InvalidDefinition(message)) => message,
            _ => panic!("the definition should be invalid"),
        }
    };
    assert_eq!(
        deferred(Some(300)),
        "order.children の未作成 Category parent には、現在の親が Some(DiscordId { value: 300, tag: PhantomData<fn() -> \
         discord_management::ids::ChannelIdTag> }) の参照専用 Channel rules を配置できません"
    );
    assert_eq!(
        deferred(None),
        "order.children の未作成 Category parent には、現在の親が None の参照専用 Channel rules を配置できません"
    );
}

#[test]
fn plans_of_roles_leave_channels_alone() {
    let mut referred = empty_definition();
    referred.channels.insert(
        channel_name("rules"),
        RawChannelDefinition {
            mode: RoleMode::Reference,
            ensure: None,
            settings_sets: Vec::new(),
            attributes: RawChannelAttributes::none(),
        },
    );
    let definition = DefinitionFile::parse(referred, &vocabulary()).unwrap();
    assert!(validate_role_plan_scope(&definition).is_ok());
    for channel in [text_channel("ルール", None), absent_channel()] {
        let mut managed = empty_definition();
        managed.channels.insert(channel_name("rules"), channel);
        let definition = DefinitionFile::parse(managed, &vocabulary()).unwrap();
        let refused = validate_role_plan_scope(&definition);
        assert!(matches!(
            refused,
            Err(ManagementError::InvalidDefinition(message))
                if message == "Channel rules の属性管理は Channel plan の対象外です。参照専用として宣言してください"
        ));
    }
}

#[test]
fn values_of_channels_are_told_from_markers() {
    let value = ChannelValue::Value(5_u16);
    assert_eq!(value.as_value(), Some(&5));
    assert!(!value.is_default() && !value.is_clear());
    assert_eq!(value.into_value(), Some(5));
    assert!(ChannelValue::<u16>::Default.is_default());
    assert!(ChannelValue::<u16>::Clear.is_clear());
    assert_eq!(ChannelValue::<u16>::Clear.as_value(), None);
    assert_eq!(ChannelValue::<u16>::Default.into_value(), None);
}

#[test]
fn a_new_channel_is_put_into_the_category_that_was_created_for_it() {
    let catalog = channel_catalog();
    let given = input(channel_definition(), channel_state());
    let plan = plan_channels(&given, &catalog, true).unwrap();
    let desired = plan.create_desired.get(&channel_name("a_child")).unwrap();
    let name = channel_name("a_child");
    let early = desired.payload_for_apply(&given.state, &catalog, &name);
    assert!(matches!(
        early,
        Err(ManagementError::InvalidState(message))
            if message == "Channel a_child の親 parent の作成結果が state にありません"
    ));
    let bound = input(channel_definition(), raw_state(&[], &[("parent", 400), ("old_inside", 401), ("moved", 402)]));
    let payload = desired.payload_for_apply(&bound.state, &catalog, &name).unwrap();
    assert_eq!(payload.parent_id.map(|id| id.get()), Some(400));
    let lost = desired.payload_for_apply(&bound.state, &ChannelCatalog::none(), &name);
    assert!(matches!(
        lost,
        Err(ManagementError::InvalidState(message))
            if message == "Channel a_child の親 parent の Snowflake 400 が Guild から予期せず消失しています"
    ));
}

fn attributes(topic: Option<&str>, overwrites: &[(OverwriteTarget, OverwriteValue)]) -> ChannelAttributes {
    let mut attributes = ChannelAttributes::none();
    attributes.topic = topic.map(|topic| ChannelValue::Value(topic.to_owned()));
    for (target, value) in overwrites {
        let mut values = OrderedMap::new();
        values.insert(view_channel(), *value);
        attributes.overwrites.insert(target.copy(), values);
    }
    attributes
}

fn merged(first: &ChannelAttributes, second: &ChannelAttributes) -> ChannelAttributes {
    let mut merged = first.copy();
    merged.merge(second);
    merged
}

#[test]
fn channel_attributes_merge_as_they_should() {
    let role = OverwriteTarget::Role(role_name("admin"));
    let a = attributes(Some("一"), &[(OverwriteTarget::Everyone, OverwriteValue::Deny)]);
    let b = attributes(None, &[(OverwriteTarget::Everyone, OverwriteValue::Allow), (role, OverwriteValue::Clear)]);
    let c = attributes(Some("二"), &[]);
    let none = ChannelAttributes::none();
    assert!(merged(&a, &none).same(&a));
    assert!(merged(&none, &a).same(&a));
    assert!(merged(&a, &a).same(&a));
    assert!(merged(&merged(&a, &b), &c).same(&merged(&a, &merged(&b, &c))));
    assert!(merged(&none, &none).is_empty());
    assert!(!merged(&none, &b).is_empty());
    let ab = merged(&a, &b);
    let everyone = ab.overwrites.get(&OverwriteTarget::Everyone).unwrap();
    assert_eq!(everyone.get(&view_channel()), Some(&OverwriteValue::Allow));
    assert_eq!(ab.topic.unwrap().into_value().as_deref(), Some("一"));
}

#[test]
fn plans_without_overwrites_need_no_right_to_manage_roles() {
    let mut definition = empty_definition();
    definition.channels.insert(channel_name("moved"), text_channel("新名", None));
    let state = || raw_state(&[], &[("moved", 402)]);
    let mut again = empty_definition();
    again.channels.insert(channel_name("moved"), text_channel("新名", None));
    let allowed = plan_channels(&input(definition, state()), &channel_catalog(), true).unwrap();
    let denied = plan_channels(&input(again, state()), &channel_catalog(), false).unwrap();
    assert!(!allowed.is_empty() && allowed.same(&denied));
}
