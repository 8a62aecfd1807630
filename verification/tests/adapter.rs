//! What Discord says and is told.

use discord_management::adapter::channel::{
    auto_archive_minutes, channel_catalog, channel_edit_is_required, channel_snapshot,
    channel_update_requires_manage_roles, check_channel_update, create_channel_payload, edit_channel_payload,
    known_permission_mask, overwrite_snapshot, CreateChannelRequest, DiscordChannel, DiscordChannelType,
    DiscordOverwrite, DiscordOverwriteKind, DiscordPermissionOverwrite, DiscordPermissionOverwriteType,
    ModifyChannelRequest, NullablePatchField,
};
use discord_management::adapter::failure::{
    map_channel_catalog_error, map_channel_create_error, map_channel_delete_error, map_channel_update_error,
    RequestFailure,
};
use discord_management::adapter::permission::{
    bits_of, has_administrator, has_manage_channels, has_manage_roles, permission_vocabulary,
};
use discord_management::adapter::resource::lookup_resource;
use discord_management::adapter::role::{is_lower_in_hierarchy, member_permissions, role_catalog, DiscordRole};
use discord_management::configuration::channel::{ChannelKind, OverwriteValue};
use discord_management::configuration::permission::{KnownPermission, PermissionName};
use discord_management::configuration::role::Color;
use discord_management::domain::{ManagementError, ResourceType};
use discord_management::ids::{ChannelId, GuildId, MemberId, RoleId};
use discord_management::ordered::OrderedMap;
use discord_management::port::{
    ChannelCreate, ChannelCreateOutcome, ChannelDeleteOutcome, ChannelOverwritePermissions, ChannelOverwrites,
    ChannelOverwriteTarget, ChannelUpdate, ChannelUpdateOutcome, ChannelUpdateValue, PermissionBits,
};
use discord_management::value::Plain;
use serenity::all::Permissions;

fn permission(name: &str) -> KnownPermission {
    permission_vocabulary().resolve(&PermissionName::parse(name).unwrap()).unwrap()
}

fn known(entries: &[(&str, OverwriteValue)]) -> OrderedMap<KnownPermission, OverwriteValue> {
    let mut map = OrderedMap::new();
    for (name, value) in entries {
        map.insert(permission(name), *value);
    }
    map
}

fn guild() -> GuildId {
    GuildId::new(100)
}

fn text_create(overwrites: ChannelOverwrites) -> ChannelCreate {
    ChannelCreate {
        kind: ChannelKind::Text,
        name: "rules".to_owned(),
        parent_id: None,
        topic: None,
        nsfw: false,
        slowmode_seconds: 0,
        default_auto_archive_minutes: None,
        default_thread_slowmode_seconds: 0,
        overwrites,
    }
}

fn sent(id: u64, kind: DiscordPermissionOverwriteType, allow: u64, deny: u64) -> DiscordPermissionOverwrite {
    DiscordPermissionOverwrite { id, kind, allow, deny }
}

/// The names of the fields that a change sends, in order.
fn fields(request: &ModifyChannelRequest) -> Vec<&'static str> {
    let mut names = Vec::new();
    if request.name.is_some() {
        names.push("name");
    }
    if !request.parent_id.is_keep() {
        names.push("parent_id");
    }
    if !request.topic.is_keep() {
        names.push("topic");
    }
    if request.nsfw.is_some() {
        names.push("nsfw");
    }
    if request.rate_limit_per_user.is_some() {
        names.push("rate_limit_per_user");
    }
    if !request.default_auto_archive_duration.is_keep() {
        names.push("default_auto_archive_duration");
    }
    if request.default_thread_rate_limit_per_user.is_some() {
        names.push("default_thread_rate_limit_per_user");
    }
    if request.permission_overwrites.is_some() {
        names.push("permission_overwrites");
    }
    names
}

#[test]
fn same_position_role_with_larger_snowflake_is_lower() {
    assert!(is_lower_in_hierarchy(10, RoleId::new(201), 10, RoleId::new(200)));
    assert!(!is_lower_in_hierarchy(10, RoleId::new(199), 10, RoleId::new(200)));
}

#[test]
fn manage_roles_precheck_accepts_manage_roles_or_administrator() {
    assert!(has_manage_roles(Permissions::MANAGE_ROLES.bits()));
    assert!(has_manage_roles(Permissions::ADMINISTRATOR.bits()));
    assert!(!has_manage_roles(Permissions::MANAGE_CHANNELS.bits()));
    assert!(has_manage_channels(Permissions::MANAGE_CHANNELS.bits()));
    assert!(has_manage_channels(Permissions::ADMINISTRATOR.bits()));
    assert!(!has_manage_channels(Permissions::MANAGE_ROLES.bits()));
    assert!(has_administrator(Permissions::ADMINISTRATOR.bits()));
    assert!(!has_administrator(Permissions::MANAGE_ROLES.bits()));
}

#[test]
fn permissions_have_the_bits_of_their_names() {
    assert_eq!(bits_of(&permission("VIEW_CHANNEL")), 1 << 10);
    assert_eq!(bits_of(&permission("SEND_MESSAGES")), 1 << 11);
    assert_eq!(bits_of(&permission("MANAGE_ROLES")), 1 << 28);
    assert!(permission_vocabulary().resolve(&PermissionName::parse("NO_SUCH").unwrap()).is_none());
}

#[test]
fn edit_payload_uses_null_for_parent_and_topic_clear_and_full_overwrite_array() {
    let mut overwrites = OrderedMap::new();
    overwrites.insert(
        ChannelOverwriteTarget::Everyone,
        ChannelOverwritePermissions::from_known(known(&[("VIEW_CHANNEL", OverwriteValue::Deny)])),
    );
    let mut update = ChannelUpdate::none();
    update.parent_id = ChannelUpdateValue::Clear;
    update.topic = ChannelUpdateValue::Clear;
    update.overwrites = Some(overwrites);
    let payload = edit_channel_payload(guild(), &update);
    assert_eq!(fields(&payload), ["parent_id", "topic", "permission_overwrites"]);
    assert!(matches!(payload.parent_id, NullablePatchField::Clear));
    assert!(matches!(payload.topic, NullablePatchField::Clear));
    assert_eq!(
        payload.permission_overwrites.unwrap(),
        [sent(100, DiscordPermissionOverwriteType::Role, 0, 1024)]
    );
}

#[test]
fn create_payload_contains_explicit_channel_type_and_text_defaults() {
    let mut create = text_create(OrderedMap::new());
    create.parent_id = Some(ChannelId::new(200));
    create.topic = Some("案内".to_owned());
    create.slowmode_seconds = 5;
    create.default_auto_archive_minutes = Some(4320);
    create.default_thread_slowmode_seconds = 10;
    match create_channel_payload(guild(), create) {
        CreateChannelRequest::Text(request) => {
            assert_eq!(request.name, "rules");
            assert_eq!(request.channel_type.code(), 0);
            assert_eq!(request.parent_id.unwrap().get(), 200);
            assert_eq!(request.topic.as_deref(), Some("案内"));
            assert!(!request.nsfw);
            assert_eq!(request.rate_limit_per_user, Some(5));
            assert_eq!(request.default_auto_archive_duration, Some(4320));
            assert_eq!(request.default_thread_rate_limit_per_user, Some(10));
            assert!(request.permission_overwrites.is_none());
        }
        CreateChannelRequest::Category(_) => panic!("a text channel is expected"),
    }
}

#[test]
fn create_payload_omits_overwrite_entries_that_only_clear_permissions() {
    let mut overwrites = OrderedMap::new();
    overwrites.insert(
        ChannelOverwriteTarget::Everyone,
        ChannelOverwritePermissions::from_known(known(&[("VIEW_CHANNEL", OverwriteValue::Clear)])),
    );
    match create_channel_payload(guild(), text_create(overwrites)) {
        CreateChannelRequest::Text(request) => {
            assert_eq!(request.name, "rules");
            assert_eq!(request.channel_type.code(), 0);
            assert!(request.parent_id.is_none());
            assert!(request.topic.is_none());
            assert!(!request.nsfw);
            assert_eq!(request.rate_limit_per_user, Some(0));
            assert!(request.default_auto_archive_duration.is_none());
            assert!(request.default_thread_rate_limit_per_user.is_none());
            assert!(request.permission_overwrites.is_none());
        }
        CreateChannelRequest::Category(_) => panic!("a text channel is expected"),
    }
}

#[test]
fn edit_payload_uses_null_for_optional_values_and_category_omits_text_attributes() {
    let mut update = ChannelUpdate::none();
    update.nsfw = Some(true);
    update.slowmode_seconds = Some(0);
    update.default_auto_archive_minutes = ChannelUpdateValue::Clear;
    update.default_thread_slowmode_seconds = Some(0);
    let payload = edit_channel_payload(guild(), &update);
    assert_eq!(
        fields(&payload),
        ["nsfw", "rate_limit_per_user", "default_auto_archive_duration", "default_thread_rate_limit_per_user"]
    );
    assert_eq!(payload.nsfw, Some(true));
    assert_eq!(payload.rate_limit_per_user, Some(0));
    assert!(matches!(payload.default_auto_archive_duration, NullablePatchField::Clear));
    assert_eq!(payload.default_thread_rate_limit_per_user, Some(0));

    let mut create = text_create(OrderedMap::new());
    create.kind = ChannelKind::Category;
    create.name = "案内".to_owned();
    create.nsfw = true;
    match create_channel_payload(guild(), create) {
        CreateChannelRequest::Category(request) => {
            assert_eq!(request.name, "案内");
            assert_eq!(request.channel_type, DiscordChannelType::Category);
            assert_eq!(request.channel_type.code(), 4);
            assert!(request.permission_overwrites.is_none());
        }
        CreateChannelRequest::Text(_) => panic!("a category is expected"),
    }
}

#[test]
fn channel_snapshot_keeps_permission_bits_unknown_to_the_vocabulary() {
    let view_channel = vec![permission("VIEW_CHANNEL")];
    let unknown_allow = 1_u64 << 60;
    let unknown_deny = 1_u64 << 61;
    let overwrite = DiscordOverwrite {
        kind: DiscordOverwriteKind::Role(RoleId::new(400)),
        allow: Permissions::VIEW_CHANNEL.bits() | unknown_allow,
        deny: unknown_deny,
    };
    let (target, permissions) =
        overwrite_snapshot(&overwrite, guild(), &view_channel, known_permission_mask(&view_channel)).unwrap();
    assert_eq!(target.to_text(), "role:400");
    assert!(permissions.known.same(&known(&[("VIEW_CHANNEL", OverwriteValue::Allow)])));
    assert_eq!(permissions.allow_unknown.bits(), unknown_allow);
    assert_eq!(permissions.deny_unknown.bits(), unknown_deny);
}

#[test]
fn edit_payload_merges_unknown_bits_and_serializes_every_overwrite_target() {
    let mut overwrites = OrderedMap::new();
    overwrites.insert(
        ChannelOverwriteTarget::Everyone,
        ChannelOverwritePermissions {
            known: known(&[("VIEW_CHANNEL", OverwriteValue::Allow)]),
            allow_unknown: PermissionBits::new(1 << 60),
            deny_unknown: PermissionBits::new(1 << 61),
        },
    );
    overwrites.insert(
        ChannelOverwriteTarget::Role(RoleId::new(200)),
        ChannelOverwritePermissions {
            known: OrderedMap::new(),
            allow_unknown: PermissionBits::new(1 << 62),
            deny_unknown: PermissionBits::default(),
        },
    );
    overwrites.insert(
        ChannelOverwriteTarget::Member(MemberId::new(300)),
        ChannelOverwritePermissions {
            known: known(&[("SEND_MESSAGES", OverwriteValue::Deny)]),
            allow_unknown: PermissionBits::default(),
            deny_unknown: PermissionBits::new(1 << 60),
        },
    );
    let mut update = ChannelUpdate::none();
    update.overwrites = Some(overwrites);
    let payload = edit_channel_payload(guild(), &update);
    assert_eq!(fields(&payload), ["permission_overwrites"]);
    assert_eq!(
        payload.permission_overwrites.unwrap(),
        [
            sent(100, DiscordPermissionOverwriteType::Role, 1152921504606848000, 2305843009213693952),
            sent(200, DiscordPermissionOverwriteType::Role, 4611686018427387904, 0),
            sent(300, DiscordPermissionOverwriteType::Member, 0, 1152921504606849024),
        ]
    );
    assert_eq!(DiscordPermissionOverwriteType::Role.code(), 0);
    assert_eq!(DiscordPermissionOverwriteType::Member.code(), 1);
}

#[test]
fn empty_permission_overwrites_are_sent_as_a_full_replacement() {
    let mut update = ChannelUpdate::none();
    assert!(!channel_edit_is_required(&update));
    update.overwrites = Some(OrderedMap::new());
    assert!(channel_edit_is_required(&update));
    let payload = edit_channel_payload(guild(), &update);
    assert_eq!(fields(&payload), ["permission_overwrites"]);
    assert!(payload.permission_overwrites.unwrap().is_empty());
}

#[test]
fn overwrites_need_the_permission_to_manage_roles() {
    let mut update = ChannelUpdate::none();
    update.name = Some("新しい名前".to_owned());
    assert!(!channel_update_requires_manage_roles(&update));
    assert!(check_channel_update(&update, 0).is_ok());
    update.overwrites = Some(OrderedMap::new());
    assert!(matches!(check_channel_update(&update, 0), Err(ManagementError::ChannelPermissionDenied(_))));
    assert!(check_channel_update(&update, Permissions::MANAGE_ROLES.bits()).is_ok());
}

fn channel(kind: ChannelKind) -> DiscordChannel {
    DiscordChannel {
        id: ChannelId::new(300),
        position: 2,
        kind,
        name: "rules".to_owned(),
        parent_id: Some(ChannelId::new(200)),
        topic: None,
        nsfw: true,
        rate_limit_per_user: None,
        default_auto_archive_duration: Some(61),
        default_thread_rate_limit_per_user: Some(7),
        permission_overwrites: vec![
            DiscordOverwrite { kind: DiscordOverwriteKind::Role(RoleId::new(100)), allow: 0, deny: 1024 },
            DiscordOverwrite { kind: DiscordOverwriteKind::Other, allow: 1, deny: 2 },
            DiscordOverwrite { kind: DiscordOverwriteKind::Member(MemberId::new(9)), allow: 1024, deny: 0 },
        ],
    }
}

#[test]
fn channels_are_read_with_defaults_and_known_overwrites() {
    let snapshot = channel_snapshot(&channel(ChannelKind::Text), guild(), &vec![permission("VIEW_CHANNEL")], true);
    assert_eq!(snapshot.slowmode_seconds, 0);
    assert_eq!(snapshot.default_auto_archive_minutes, None);
    assert_eq!(snapshot.default_thread_slowmode_seconds, 7);
    let targets: Vec<String> =
        snapshot.overwrites.copy().into_entries().iter().map(|(target, _)| target.to_text()).collect();
    assert_eq!(targets, ["everyone", "member:9"]);
    assert_eq!(auto_archive_minutes(60), Some(60));
    assert_eq!(auto_archive_minutes(1440), Some(1440));
    assert_eq!(auto_archive_minutes(4320), Some(4320));
    assert_eq!(auto_archive_minutes(10080), Some(10080));
    assert_eq!(auto_archive_minutes(0), None);
}

#[test]
fn channels_are_read_only_with_the_permission_to_manage_them() {
    let vocabulary = permission_vocabulary();
    let channels = vec![channel(ChannelKind::Text), channel(ChannelKind::Unsupported)];
    let refused = channel_catalog(&channels, guild(), 0, &vocabulary).err().unwrap();
    assert!(matches!(refused, ManagementError::ChannelCatalogPermissionDenied(_)));
    let catalog = channel_catalog(&channels, guild(), Permissions::MANAGE_CHANNELS.bits(), &vocabulary).unwrap();
    assert_eq!(catalog.channels.len(), 2);
    assert!(catalog.channels.iter().all(|channel| channel.manageable));
}

fn discord_role(id: u64, position: i16, permissions: Permissions) -> DiscordRole {
    DiscordRole {
        id: RoleId::new(id),
        position,
        managed: false,
        name: format!("role {id}"),
        color: Color::default(),
        hoist: false,
        mentionable: false,
        permissions: permissions.bits(),
    }
}

#[test]
fn roles_below_the_highest_of_the_bot_are_manageable() {
    let vocabulary = permission_vocabulary();
    let mut managed = discord_role(204, 1, Permissions::empty());
    managed.managed = true;
    let roles = vec![
        discord_role(203, 4, Permissions::empty()),
        discord_role(202, 3, Permissions::MANAGE_ROLES),
        discord_role(201, 2, Permissions::VIEW_CHANNEL),
        managed,
        discord_role(100, 0, Permissions::SEND_MESSAGES),
    ];
    let bot_roles = vec![RoleId::new(201), RoleId::new(202), RoleId::new(999)];
    let catalog = role_catalog(&roles, guild(), &bot_roles, &vocabulary).unwrap();
    let manageable: Vec<(u64, bool)> =
        catalog.roles.iter().map(|role| (role.id.get(), role.manageable)).collect();
    assert_eq!(manageable, [(100, false), (201, true), (202, false), (203, false), (204, false)]);
    assert_eq!(catalog.default_permissions.get(&permission("SEND_MESSAGES")), Some(&true));
    assert_eq!(catalog.default_permissions.get(&permission("VIEW_CHANNEL")), Some(&false));
    assert!(catalog.grantable_permissions.contains_key(&permission("VIEW_CHANNEL")));
    assert!(!catalog.grantable_permissions.contains_key(&permission("BAN_MEMBERS")));
    assert_eq!(
        member_permissions(0, &roles, &bot_roles),
        (Permissions::MANAGE_ROLES | Permissions::VIEW_CHANNEL).bits()
    );

    let denied = role_catalog(&roles, guild(), &vec![RoleId::new(201)], &vocabulary).err().unwrap();
    assert!(matches!(denied, ManagementError::RoleSource(message) if message.contains("MANAGE_ROLES")));
    let lost = role_catalog(&roles, GuildId::new(1), &bot_roles, &vocabulary).err().unwrap();
    assert!(matches!(lost, ManagementError::RoleSource(message) if message.contains("@everyone")));
}

#[test]
fn identifiers_are_looked_up_among_channels_roles_and_members() {
    let kind = |id: u64, is_member: bool| {
        lookup_resource(guild(), id, &vec![1, 2], &vec![2, 3], is_member).map(|lookup| lookup.resource_type)
    };
    assert_eq!(kind(1, false), Some(ResourceType::Channel));
    assert_eq!(kind(2, true), Some(ResourceType::Channel));
    assert_eq!(kind(3, true), Some(ResourceType::Role));
    assert_eq!(kind(4, true), Some(ResourceType::Member));
    assert_eq!(kind(4, false), None);
}

#[test]
fn failures_are_told_apart() {
    let lost = || RequestFailure::Lost("lost".to_owned());
    let forbidden = || RequestFailure::Forbidden("forbidden".to_owned());
    let other = || RequestFailure::Other("other".to_owned());
    assert!(matches!(map_channel_update_error(lost()), Ok(ChannelUpdateOutcome::ResponseUnknown)));
    assert!(matches!(map_channel_create_error(lost()), Ok(ChannelCreateOutcome::ResponseUnknown)));
    assert!(matches!(map_channel_delete_error(lost()), Ok(ChannelDeleteOutcome::ResponseUnknown)));
    assert!(matches!(
        map_channel_update_error(forbidden()),
        Err(ManagementError::ChannelPermissionDenied(text)) if text == "forbidden"
    ));
    assert!(matches!(map_channel_create_error(forbidden()), Err(ManagementError::ChannelPermissionDenied(_))));
    assert!(matches!(map_channel_delete_error(other()), Err(ManagementError::ChannelSource(_))));
    assert!(matches!(map_channel_catalog_error(lost()), ManagementError::ChannelSource(text) if text == "lost"));
    assert!(matches!(map_channel_catalog_error(forbidden()), ManagementError::ChannelCatalogPermissionDenied(_)));
    assert!(matches!(map_channel_catalog_error(other()), ManagementError::ChannelSource(_)));
}

#[test]
fn the_vocabulary_holds_every_permission_once() {
    let vocabulary = permission_vocabulary();
    let mut bits = 0;
    for permission in vocabulary.known_permissions() {
        assert_eq!(bits & bits_of(&permission), 0);
        bits |= bits_of(&permission);
    }
    assert_eq!(bits, Permissions::all().bits());
    assert_eq!(vocabulary.known_permissions().len(), 50);
    assert!(vocabulary.resolve(&PermissionName::parse("MANAGE_GUILD_EXPRESSIONS").unwrap()).is_some());
    assert!(vocabulary.resolve(&PermissionName::parse("MANAGE_EMOJIS_AND_STICKERS").unwrap()).is_none());
}
