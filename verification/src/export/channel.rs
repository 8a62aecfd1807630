//! The definition and the state that describe the channels of a guild.

use vstd::prelude::*;

use crate::configuration::channel::{
    ChannelAttributesView, ChannelKind, ChannelValue, MemberDefinition, OverwritesView, OverwriteTarget,
    OverwriteTargetView, OverwriteValue, RawChannelAttributes, RawChannelDefinition, RawChannelDefinitionView,
    RawChannelKind,
};
use crate::configuration::definition::{RawDefinitionFile, RawDefinitionView, RawSettingsSets, SettingsSetsView};
use crate::configuration::permission::{KnownPermission, PermissionName};
use crate::configuration::role::{RawRoleDefinition, RawRoleDefinitionView, RoleMode};
use crate::configuration::state::{holder, serialize_state, MappingsView, StateFile, StateView};
use crate::domain::{ErrorView, ManagementError, SCHEMA_VERSION};
use crate::export::role::{
    earlier_state, export_files, find_name, generated_name, name_is_used, name_is_used_error, reference_role,
    referenced_role, take_earlier, ExportFiles,
};
use crate::ids::{
    ChannelId, ChannelLogicalId, ChannelSettingsSetId, DiscordId, GuildId, LogicalId, MemberId, MemberLogicalId, RoleId,
    RoleLogicalId,
};
use crate::ordered::{has_key, lookup, put, put_at_end, OrderedMap};
use crate::port::{
    ChannelCatalog, ChannelCatalogView, ChannelOverwrites, ChannelOverwritesView, ChannelOverwriteTarget,
    ChannelOverwriteTargetView, ChannelSnapshot, ChannelSnapshotView,
};
use crate::resource::channel::create::{has_channel, is_listed};
use crate::text::{decimal, text3, text5, text7};
use crate::value::{seen, Plain};

verus! {

/// Objects and the names they have.
pub type NamesView = Seq<(u64, Seq<char>)>;

/// What is said of the first bound channel, from a place on, that the guild does not have.
pub open spec fn lost_channel(
    previous: MappingsView,
    i: int,
    channels: Seq<ChannelSnapshotView>,
) -> Option<ErrorView>
    decreases previous.len() - i,
{
    if i < 0 || i >= previous.len() {
        None
    } else if is_listed(channels, previous[i].1) {
        lost_channel(previous, i + 1, channels)
    } else {
        Some(
            ErrorView::InvalidState(
                "論理 ID "@ + previous[i].0 + " に対応する Channel の Snowflake "@ + decimal(
                    previous[i].1 as nat,
                ) + " が Guild から予期せず消失しています"@,
            ),
        )
    }
}

/// Whether a channel can be described: the bot can manage it, and it is a
/// category or a text channel.
pub open spec fn is_describable(channel: ChannelSnapshotView) -> bool {
    channel.manageable && channel.kind != ChannelKind::Unsupported
}

/// The channels that can be described.
pub open spec fn describable(channels: Seq<ChannelSnapshotView>) -> Seq<ChannelSnapshotView>
    decreases channels.len(),
{
    if channels.len() == 0 {
        channels
    } else if is_describable(channels.last()) {
        describable(channels.drop_last()).push(channels.last())
    } else {
        describable(channels.drop_last())
    }
}

/// The names of channels and the bindings they have.
pub struct NamedChannelsView {
    pub names: NamesView,
    pub mappings: MappingsView,
}

/// The name that a channel has kept, or that is made up for it.
pub open spec fn channel_name(id: u64, previous: MappingsView) -> Result<Seq<char>, ErrorView> {
    match holder(previous, id) {
        Some(name) => Ok(name),
        None => match lookup(previous, generated_name("channel_"@, id)) {
            Some(used_for) => Err(name_is_used(generated_name("channel_"@, id), used_for)),
            None => Ok(generated_name("channel_"@, id)),
        },
    }
}

/// The names of channels.
pub open spec fn named_channels(
    channels: Seq<ChannelSnapshotView>,
    previous: MappingsView,
) -> Result<NamedChannelsView, ErrorView>
    decreases channels.len(),
{
    if channels.len() == 0 {
        Ok(NamedChannelsView { names: Seq::empty(), mappings: previous })
    } else {
        match named_channels(channels.drop_last(), previous) {
            Err(error) => Err(error),
            Ok(named) => with_named(named, channels.last().id, previous),
        }
    }
}

/// The names of channels with one more.
pub open spec fn with_named(
    named: NamedChannelsView,
    id: u64,
    previous: MappingsView,
) -> Result<NamedChannelsView, ErrorView> {
    match channel_name(id, previous) {
        Err(error) => Err(error),
        Ok(name) => {
            let bound = lookup(named.mappings, name);
            if bound is Some && bound != Some(id) {
                Err(
                    ErrorView::InvalidState(
                        "論理 ID "@ + name + " が Channel "@ + decimal(bound->0 as nat) + " と "@ + decimal(
                            id as nat,
                        ) + " で衝突しています"@,
                    ),
                )
            } else {
                Ok(
                    NamedChannelsView {
                        names: put::<ChannelId, Seq<char>>(named.names, id, name),
                        mappings: put::<ChannelLogicalId, u64>(named.mappings, name, id),
                    },
                )
            }
        },
    }
}

/// The objects that names are bound to, with those names.
pub open spec fn inverted(mappings: MappingsView) -> NamesView
    decreases mappings.len(),
{
    if mappings.len() == 0 {
        Seq::empty()
    } else {
        put::<ChannelId, Seq<char>>(inverted(mappings.drop_last()), mappings.last().1, mappings.last().0)
    }
}

/// Objects with one more, under a name that is made up for it unless it has one.
pub open spec fn with_object(
    names: NamesView,
    id: u64,
    prefix: Seq<char>,
    previous: MappingsView,
) -> Result<NamesView, ErrorView> {
    if has_key(names, id) {
        Ok(names)
    } else {
        match lookup(previous, generated_name(prefix, id)) {
            Some(used_for) => Err(name_is_used(generated_name(prefix, id), used_for)),
            None => Ok(put::<ChannelId, Seq<char>>(names, id, generated_name(prefix, id))),
        }
    }
}

/// The roles and members for whom overwrites are.
pub struct TargetsView {
    pub roles: NamesView,
    pub members: NamesView,
}

/// Roles and members with one more for whom an overwrite is.
pub open spec fn with_overwrite_target(
    targets: TargetsView,
    target: ChannelOverwriteTargetView,
    earlier: StateView,
) -> Result<TargetsView, ErrorView> {
    match target {
        ChannelOverwriteTargetView::Everyone => Ok(targets),
        ChannelOverwriteTargetView::Role(id) => match with_object(targets.roles, id, "role_"@, earlier.roles) {
            Err(error) => Err(error),
            Ok(roles) => Ok(TargetsView { roles, ..targets }),
        },
        ChannelOverwriteTargetView::Member(id) => match with_object(
            targets.members,
            id,
            "member_"@,
            earlier.members,
        ) {
            Err(error) => Err(error),
            Ok(members) => Ok(TargetsView { members, ..targets }),
        },
    }
}

/// Roles and members with those for whom the overwrites of a channel are, from a place on.
pub open spec fn with_overwrite_targets(
    targets: TargetsView,
    overwrites: ChannelOverwritesView,
    i: int,
    earlier: StateView,
) -> Result<TargetsView, ErrorView>
    decreases overwrites.len() - i,
{
    if i < 0 || i >= overwrites.len() {
        Ok(targets)
    } else {
        match with_overwrite_target(targets, overwrites[i].0, earlier) {
            Err(error) => Err(error),
            Ok(targets) => with_overwrite_targets(targets, overwrites, i + 1, earlier),
        }
    }
}

/// Roles and members with those for whom the overwrites of channels are, from a place on.
pub open spec fn with_all_targets(
    targets: TargetsView,
    channels: Seq<ChannelSnapshotView>,
    i: int,
    earlier: StateView,
) -> Result<TargetsView, ErrorView>
    decreases channels.len() - i,
{
    if i < 0 || i >= channels.len() {
        Ok(targets)
    } else {
        match with_overwrite_targets(targets, channels[i].overwrites, 0, earlier) {
            Err(error) => Err(error),
            Ok(targets) => with_all_targets(targets, channels, i + 1, earlier),
        }
    }
}

/// For whom an overwrite is, by name, or why the name is not known.
pub open spec fn described_target(
    target: ChannelOverwriteTargetView,
    targets: TargetsView,
) -> Result<OverwriteTargetView, ErrorView> {
    match target {
        ChannelOverwriteTargetView::Everyone => Ok(OverwriteTargetView::Everyone),
        ChannelOverwriteTargetView::Role(id) => match lookup(targets.roles, id) {
            Some(name) => Ok(OverwriteTargetView::Role(name)),
            None => Err(
                ErrorView::InvalidState(
                    "Channel overwrite の Role "@ + decimal(id as nat)
                        + " に対応する論理 ID が state にありません"@,
                ),
            ),
        },
        ChannelOverwriteTargetView::Member(id) => match lookup(targets.members, id) {
            Some(name) => Ok(OverwriteTargetView::Member(name)),
            None => Err(
                ErrorView::InvalidState(
                    "Channel overwrite の Member "@ + decimal(id as nat)
                        + " に対応する論理 ID が state にありません"@,
                ),
            ),
        },
    }
}

/// The overwrites of a channel by name, from a place on.
pub open spec fn described_overwrites(
    overwrites: ChannelOverwritesView,
    i: int,
    targets: TargetsView,
    described: OverwritesView,
) -> Result<OverwritesView, ErrorView>
    decreases overwrites.len() - i,
{
    if i < 0 || i >= overwrites.len() {
        Ok(described)
    } else {
        match described_target(overwrites[i].0, targets) {
            Err(error) => Err(error),
            Ok(target) => described_overwrites(
                overwrites,
                i + 1,
                targets,
                put::<OverwriteTarget, Seq<(Seq<char>, OverwriteValue)>>(
                    described,
                    target,
                    overwrites[i].1.known,
                ),
            ),
        }
    }
}

/// The parent of a channel by name, if it is described.
pub open spec fn described_parent(
    name: Seq<char>,
    channel: ChannelSnapshotView,
    names: NamesView,
) -> Result<Option<ChannelValue<Seq<char>>>, ErrorView> {
    match channel.parent_id {
        Some(parent_id) => match lookup(names, parent_id) {
            Some(parent) => Ok(Some(ChannelValue::Value(parent))),
            None => Err(
                ErrorView::InvalidState(
                    "Channel "@ + name + " の親 Channel "@ + decimal(parent_id as nat)
                        + " が export 対象に含まれていません"@,
                ),
            ),
        },
        None => Ok(
            if channel.kind == ChannelKind::Text {
                Some(ChannelValue::Clear)
            } else {
                None
            },
        ),
    }
}

/// The written channel that describes a channel, or why there is none.
pub open spec fn described_channel(
    name: Seq<char>,
    channel: ChannelSnapshotView,
    names: NamesView,
    targets: TargetsView,
) -> Result<RawChannelDefinitionView, ErrorView> {
    match described_parent(name, channel, names) {
        Err(error) => Err(error),
        Ok(parent) => match described_overwrites(channel.overwrites, 0, targets, Seq::empty()) {
            Err(error) => Err(error),
            Ok(overwrites) => {
                let is_text = channel.kind == ChannelKind::Text;
                Ok(
                    RawChannelDefinitionView {
                        mode: RoleMode::Managed,
                        ensure: None,
                        settings_sets: Seq::empty(),
                        attributes: ChannelAttributesView {
                            kind: Some(channel.kind),
                            name: Some(ChannelValue::Value(channel.name)),
                            parent,
                            topic: if !is_text {
                                None
                            } else {
                                match channel.topic {
                                    Some(topic) => Some(ChannelValue::Value(topic)),
                                    None => Some(ChannelValue::Clear),
                                }
                            },
                            nsfw: if is_text {
                                Some(ChannelValue::Value(channel.nsfw))
                            } else {
                                None
                            },
                            slowmode_seconds: if is_text {
                                Some(ChannelValue::Value(channel.slowmode_seconds))
                            } else {
                                None
                            },
                            default_auto_archive_minutes: if !is_text {
                                None
                            } else {
                                match channel.default_auto_archive_minutes {
                                    Some(minutes) => Some(ChannelValue::Value(minutes)),
                                    None => None,
                                }
                            },
                            default_thread_slowmode_seconds: if is_text {
                                Some(ChannelValue::Value(channel.default_thread_slowmode_seconds))
                            } else {
                                None
                            },
                            permissions_sync: None,
                            overwrites,
                        },
                    },
                )
            },
        },
    }
}

/// Written channels that describe channels, from a place on.
pub open spec fn described_channels(
    channels: Seq<ChannelSnapshotView>,
    i: int,
    names: NamesView,
    targets: TargetsView,
    described: Seq<(Seq<char>, RawChannelDefinitionView)>,
) -> Result<Seq<(Seq<char>, RawChannelDefinitionView)>, ErrorView>
    decreases channels.len() - i,
{
    if i < 0 || i >= channels.len() {
        Ok(described)
    } else {
        match lookup(names, channels[i].id) {
            None => described_channels(channels, i + 1, names, targets, described),
            Some(name) => match described_channel(name, channels[i], names, targets) {
                Err(error) => Err(error),
                Ok(channel) => described_channels(
                    channels,
                    i + 1,
                    names,
                    targets,
                    put::<ChannelLogicalId, RawChannelDefinitionView>(described, name, channel),
                ),
            },
        }
    }
}

/// Written roles that are only referred to, for the names of objects.
pub open spec fn role_references(names: NamesView) -> Seq<(Seq<char>, RawRoleDefinitionView)>
    decreases names.len(),
{
    if names.len() == 0 {
        Seq::empty()
    } else {
        put::<RoleLogicalId, RawRoleDefinitionView>(
            role_references(names.drop_last()),
            names.last().1,
            referenced_role(),
        )
    }
}

/// Members that are only referred to, for the names of objects.
pub open spec fn member_references(names: NamesView) -> Seq<(Seq<char>, RoleMode)>
    decreases names.len(),
{
    if names.len() == 0 {
        Seq::empty()
    } else {
        put::<MemberLogicalId, RoleMode>(
            member_references(names.drop_last()),
            names.last().1,
            RoleMode::Reference,
        )
    }
}

/// Bindings with those of more names; a name that is bound stays as it is.
pub open spec fn with_bindings(mappings: MappingsView, names: NamesView) -> MappingsView
    decreases names.len(),
{
    if names.len() == 0 {
        mappings
    } else {
        let before = with_bindings(mappings, names.drop_last());
        if has_key(before, names.last().1) {
            before
        } else {
            put::<RoleLogicalId, u64>(before, names.last().1, names.last().0)
        }
    }
}

/// The definition and the state that describe the channels of a guild, or why there are none.
pub open spec fn exported_channels(
    catalog: ChannelCatalogView,
    guild_id: u64,
    previous: Option<StateView>,
) -> Result<(RawDefinitionView, StateView), ErrorView> {
    let earlier = earlier_state(guild_id, previous);
    let channels = describable(catalog.channels);
    match lost_channel(earlier.channels, 0, catalog.channels) {
        Some(error) => Err(error),
        None => match named_channels(channels, earlier.channels) {
            Err(error) => Err(error),
            Ok(named) => match with_all_targets(
                TargetsView { roles: inverted(earlier.roles), members: inverted(earlier.members) },
                channels,
                0,
                earlier,
            ) {
                Err(error) => Err(error),
                Ok(targets) => match described_channels(channels, 0, named.names, targets, Seq::empty()) {
                    Err(error) => Err(error),
                    Ok(described) => Ok(
                        (
                            RawDefinitionView {
                                schema_version: SCHEMA_VERSION,
                                settings_sets: SettingsSetsView { role: Seq::empty(), channel: Seq::empty() },
                                roles: role_references(targets.roles),
                                channels: described,
                                members: member_references(targets.members),
                                message_sets: Seq::empty(),
                                threads: Seq::empty(),
                                order: None,
                            },
                            StateView {
                                schema_version: SCHEMA_VERSION,
                                guild_id,
                                roles: with_bindings(earlier.roles, targets.roles),
                                channels: named.mappings,
                                members: with_bindings(earlier.members, targets.members),
                            },
                        ),
                    ),
                },
            },
        },
    }
}

fn find_lost_channel(previous: &OrderedMap<ChannelLogicalId, ChannelId>, channels: &Vec<ChannelSnapshot>) -> (result: Result<
    (),
    ManagementError,
>)
    ensures
        seen(result) == crate::configuration::order::accepted(
            lost_channel(previous.deep_view(), 0, channels.deep_view()),
        ),
{
    let mut i: usize = 0;
    while i < previous.len()
        invariant
            i <= previous.deep_view().len(),
            lost_channel(previous.deep_view(), 0, channels.deep_view()) == lost_channel(
                previous.deep_view(),
                i as int,
                channels.deep_view(),
            ),
        decreases previous.deep_view().len() - i,
    {
        let id: ChannelId = *previous.value_at(i);
        if !has_channel(channels, id.get()) {
            return Err(
                ManagementError::InvalidState(
                    text5(
                        "論理 ID ",
                        previous.key_at(i).as_str(),
                        " に対応する Channel の Snowflake ",
                        id.to_text().as_str(),
                        " が Guild から予期せず消失しています",
                    ),
                ),
            );
        }
        i += 1;
    }
    Ok(())
}

fn take_describable(channels: &Vec<ChannelSnapshot>) -> (taken: Vec<ChannelSnapshot>)
    ensures
        taken.deep_view() == describable(channels.deep_view()),
{
    let ghost all = channels.deep_view();
    let mut taken: Vec<ChannelSnapshot> = Vec::new();
    let mut i: usize = 0;
    assert(all.take(0) =~= Seq::empty());
    assert(taken.deep_view() =~= describable(all.take(0)));
    while i < channels.len()
        invariant
            i <= channels@.len(),
            all == channels.deep_view(),
            taken.deep_view() == describable(all.take(i as int)),
        decreases channels@.len() - i,
    {
        let ghost before = taken.deep_view();
        proof {
            assert(all.take(i + 1).drop_last() =~= all.take(i as int));
            assert(all.take(i + 1).last() == channels@[i as int].deep_view());
        }
        if channels[i].manageable && channels[i].kind != ChannelKind::Unsupported {
            taken.push(channels[i].copy());
            assert(taken.deep_view() =~= before.push(all[i as int]));
        }
        i += 1;
    }
    assert(all.take(i as int) =~= all);
    taken
}

struct NamedChannels {
    names: OrderedMap<ChannelId, ChannelLogicalId>,
    mappings: OrderedMap<ChannelLogicalId, ChannelId>,
}

impl DeepView for NamedChannels {
    type V = NamedChannelsView;

    closed spec fn deep_view(&self) -> NamedChannelsView {
        NamedChannelsView { names: self.names.deep_view(), mappings: self.mappings.deep_view() }
    }
}

fn name_channel(id: ChannelId, previous: &OrderedMap<ChannelLogicalId, ChannelId>) -> (result: Result<
    ChannelLogicalId,
    ManagementError,
>)
    ensures
        seen(result) == channel_name(id.deep_view(), previous.deep_view()),
{
    match find_name(previous, id.get()) {
        Some(name) => Ok(name.copy()),
        None => {
            proof {
                reveal_strlit("channel_");
            }
            let name: ChannelLogicalId = ChannelLogicalId::generated("channel_", id.get());
            match previous.get(&name) {
                Some(used_for) => Err(name_is_used_error(name.as_str(), used_for.to_text().as_str())),
                None => Ok(name),
            }
        },
    }
}

fn add_named(named: NamedChannels, id: ChannelId, previous: &OrderedMap<ChannelLogicalId, ChannelId>) -> (result: Result<
    NamedChannels,
    ManagementError,
>)
    ensures
        seen(result) == with_named(named.deep_view(), id.deep_view(), previous.deep_view()),
{
    let name: ChannelLogicalId = name_channel(id, previous)?;
    let mut names: OrderedMap<ChannelId, ChannelLogicalId> = named.names;
    let mut mappings: OrderedMap<ChannelLogicalId, ChannelId> = named.mappings;
    match mappings.get(&name) {
        None => {},
        Some(bound) => {
            if bound.get() != id.get() {
                return Err(
                    ManagementError::InvalidState(
                        text7(
                            "論理 ID ",
                            name.as_str(),
                            " が Channel ",
                            bound.to_text().as_str(),
                            " と ",
                            id.to_text().as_str(),
                            " で衝突しています",
                        ),
                    ),
                );
            }
        },
    }
    names.insert(id, name.copy());
    mappings.insert(name, id);
    Ok(NamedChannels { names, mappings })
}

proof fn named_channels_prefix(channels: Seq<ChannelSnapshotView>, n: int, previous: MappingsView)
    requires
        0 <= n <= channels.len(),
    ensures
        named_channels(channels.take(n), previous) is Err ==> named_channels(channels, previous) == named_channels(
            channels.take(n),
            previous,
        ),
    decreases channels.len() - n,
{
    if n == channels.len() {
        assert(channels.take(n) =~= channels);
    } else {
        assert(channels.take(n + 1).drop_last() =~= channels.take(n));
        named_channels_prefix(channels, n + 1, previous);
    }
}

#[verifier::loop_isolation(false)]
fn name_channels(channels: &Vec<ChannelSnapshot>, previous: &OrderedMap<ChannelLogicalId, ChannelId>) -> (result: Result<
    NamedChannels,
    ManagementError,
>)
    ensures
        seen(result) == named_channels(channels.deep_view(), previous.deep_view()),
{
    let ghost all = channels.deep_view();
    let mut named = NamedChannels { names: OrderedMap::new(), mappings: previous.copy() };
    let mut i: usize = 0;
    assert(all.take(0) =~= Seq::empty());
    while i < channels.len()
        invariant
            i <= channels@.len(),
            named_channels(all.take(i as int), previous.deep_view()) == Ok::<NamedChannelsView, ErrorView>(
                named.deep_view(),
            ),
        decreases channels@.len() - i,
    {
        proof {
            assert(all.take(i + 1).drop_last() =~= all.take(i as int));
            assert(all.take(i + 1).last() == channels@[i as int].deep_view());
            named_channels_prefix(all, i + 1, previous.deep_view());
        }
        named = add_named(named, channels[i].id, previous)?;
        i += 1;
    }
    assert(all.take(i as int) =~= all);
    Ok(named)
}

proof fn put_is_the_same<D>(entries: NamesView, id: u64, name: Seq<char>)
    ensures
        put::<DiscordId<D>, Seq<char>>(entries, id, name) == put::<ChannelId, Seq<char>>(entries, id, name),
    decreases entries.len(),
{
    if entries.len() > 0 {
        put_is_the_same::<D>(entries.drop_first(), id, name);
    }
}

fn invert<L, D>(mappings: &OrderedMap<LogicalId<L>, DiscordId<D>>) -> (names: OrderedMap<DiscordId<D>, LogicalId<L>>)
    ensures
        names.deep_view() == inverted(mappings.deep_view()),
{
    let ghost all = mappings.deep_view();
    let mut names: OrderedMap<DiscordId<D>, LogicalId<L>> = OrderedMap::new();
    let mut i: usize = 0;
    assert(all.take(0) =~= Seq::empty());
    while i < mappings.len()
        invariant
            i <= all.len(),
            all == mappings.deep_view(),
            names.deep_view() == inverted(all.take(i as int)),
        decreases all.len() - i,
    {
        proof {
            assert(all.take(i + 1).drop_last() =~= all.take(i as int));
            assert(all.take(i + 1).last() == all[i as int]);
            put_is_the_same::<D>(names.deep_view(), all[i as int].1, all[i as int].0);
        }
        names.insert(*mappings.value_at(i), mappings.key_at(i).copy());
        i += 1;
    }
    assert(all.take(i as int) =~= all);
    names
}

/// Adds an object under a name that is made up for it, unless it has one.
pub fn register_overwrite_target<L, D>(
    id: DiscordId<D>,
    prefix: &str,
    names: OrderedMap<DiscordId<D>, LogicalId<L>>,
    previous: &OrderedMap<LogicalId<L>, DiscordId<D>>,
) -> (result: Result<OrderedMap<DiscordId<D>, LogicalId<L>>, ManagementError>)
    requires
        forall|i: int| 0 <= i < prefix@.len() ==> crate::ids::is_id_char(#[trigger] prefix@[i]),
    ensures
        seen(result) == with_object(names.deep_view(), id.deep_view(), prefix@, previous.deep_view()),
{
    if names.contains_key(&id) {
        return Ok(names);
    }
    let name: LogicalId<L> = LogicalId::generated(prefix, id.get());
    match previous.get(&name) {
        Some(used_for) => Err(name_is_used_error(name.as_str(), used_for.to_text().as_str())),
        None => {
            let mut names: OrderedMap<DiscordId<D>, LogicalId<L>> = names;
            proof {
                put_is_the_same::<D>(names.deep_view(), id.deep_view(), name.deep_view());
            }
            names.insert(id, name);
            Ok(names)
        },
    }
}

struct Targets {
    roles: OrderedMap<RoleId, RoleLogicalId>,
    members: OrderedMap<MemberId, MemberLogicalId>,
}

impl DeepView for Targets {
    type V = TargetsView;

    closed spec fn deep_view(&self) -> TargetsView {
        TargetsView { roles: self.roles.deep_view(), members: self.members.deep_view() }
    }
}

fn add_target(targets: Targets, target: &ChannelOverwriteTarget, earlier: &StateFile) -> (result: Result<
    Targets,
    ManagementError,
>)
    ensures
        seen(result) == with_overwrite_target(targets.deep_view(), target.deep_view(), earlier.deep_view()),
{
    match target {
        ChannelOverwriteTarget::Everyone => Ok(targets),
        ChannelOverwriteTarget::Role(id) => {
            proof {
                reveal_strlit("role_");
            }
            let roles: OrderedMap<RoleId, RoleLogicalId> = register_overwrite_target(
                *id,
                "role_",
                targets.roles,
                &earlier.roles,
            )?;
            Ok(Targets { roles, members: targets.members })
        },
        ChannelOverwriteTarget::Member(id) => {
            proof {
                reveal_strlit("member_");
            }
            let members: OrderedMap<MemberId, MemberLogicalId> = register_overwrite_target(
                *id,
                "member_",
                targets.members,
                &earlier.members,
            )?;
            Ok(Targets { roles: targets.roles, members })
        },
    }
}

#[verifier::loop_isolation(false)]
fn add_targets(targets: Targets, overwrites: &ChannelOverwrites, earlier: &StateFile) -> (result: Result<
    Targets,
    ManagementError,
>)
    ensures
        seen(result) == with_overwrite_targets(
            targets.deep_view(),
            overwrites.deep_view(),
            0,
            earlier.deep_view(),
        ),
{
    let ghost all = overwrites.deep_view();
    let ghost wanted = with_overwrite_targets(targets.deep_view(), all, 0, earlier.deep_view());
    let mut targets: Targets = targets;
    let mut i: usize = 0;
    while i < overwrites.len()
        invariant
            i <= all.len(),
            wanted == with_overwrite_targets(targets.deep_view(), all, i as int, earlier.deep_view()),
        decreases all.len() - i,
    {
        targets = add_target(targets, overwrites.key_at(i), earlier)?;
        i += 1;
    }
    Ok(targets)
}

#[verifier::loop_isolation(false)]
fn gather_targets(channels: &Vec<ChannelSnapshot>, earlier: &StateFile) -> (result: Result<Targets, ManagementError>)
    ensures
        seen(result) == with_all_targets(
            TargetsView {
                roles: inverted(earlier.deep_view().roles),
                members: inverted(earlier.deep_view().members),
            },
            channels.deep_view(),
            0,
            earlier.deep_view(),
        ),
{
    let ghost all = channels.deep_view();
    let mut targets = Targets { roles: invert(&earlier.roles), members: invert(&earlier.members) };
    let ghost wanted = with_all_targets(targets.deep_view(), all, 0, earlier.deep_view());
    let mut i: usize = 0;
    while i < channels.len()
        invariant
            i <= channels@.len(),
            wanted == with_all_targets(targets.deep_view(), all, i as int, earlier.deep_view()),
        decreases channels@.len() - i,
    {
        assert(all[i as int] == channels@[i as int].deep_view());
        targets = add_targets(targets, &channels[i].overwrites, earlier)?;
        i += 1;
    }
    Ok(targets)
}

fn describe_target(target: &ChannelOverwriteTarget, targets: &Targets) -> (result: Result<
    OverwriteTarget,
    ManagementError,
>)
    ensures
        seen(result) == described_target(target.deep_view(), targets.deep_view()),
{
    match target {
        ChannelOverwriteTarget::Everyone => Ok(OverwriteTarget::Everyone),
        ChannelOverwriteTarget::Role(id) => match targets.roles.get(id) {
            Some(name) => Ok(OverwriteTarget::Role(name.copy())),
            None => Err(
                ManagementError::InvalidState(
                    text3(
                        "Channel overwrite の Role ",
                        id.to_text().as_str(),
                        " に対応する論理 ID が state にありません",
                    ),
                ),
            ),
        },
        ChannelOverwriteTarget::Member(id) => match targets.members.get(id) {
            Some(name) => Ok(OverwriteTarget::Member(name.copy())),
            None => Err(
                ManagementError::InvalidState(
                    text3(
                        "Channel overwrite の Member ",
                        id.to_text().as_str(),
                        " に対応する論理 ID が state にありません",
                    ),
                ),
            ),
        },
    }
}

fn take_names(known: &OrderedMap<KnownPermission, OverwriteValue>) -> (values: OrderedMap<
    PermissionName,
    OverwriteValue,
>)
    ensures
        values.deep_view() == known.deep_view(),
{
    let ghost all = known.deep_view();
    let mut values: OrderedMap<PermissionName, OverwriteValue> = OrderedMap::new();
    let mut i: usize = 0;
    assert(all.take(0) =~= Seq::empty());
    while i < known.len()
        invariant
            i <= all.len(),
            all == known.deep_view(),
            values.deep_view() == all.take(i as int),
        decreases all.len() - i,
    {
        let _n: usize = known.len();
        proof {
            put_at_end::<PermissionName, OverwriteValue>(all.take(i as int), all[i as int].0, all[i as int].1);
            assert(all.take(i + 1) =~= all.take(i as int).push(all[i as int]));
        }
        values.insert(known.key_at(i).to_name(), *known.value_at(i));
        i += 1;
    }
    assert(all.take(i as int) =~= all);
    values
}

#[verifier::loop_isolation(false)]
fn describe_overwrites(overwrites: &ChannelOverwrites, targets: &Targets) -> (result: Result<
    OrderedMap<OverwriteTarget, OrderedMap<PermissionName, OverwriteValue>>,
    ManagementError,
>)
    ensures
        seen(result) == described_overwrites(
            overwrites.deep_view(),
            0,
            targets.deep_view(),
            Seq::empty(),
        ),
{
    let ghost all = overwrites.deep_view();
    let mut described: OrderedMap<OverwriteTarget, OrderedMap<PermissionName, OverwriteValue>> = OrderedMap::new();
    let mut i: usize = 0;
    while i < overwrites.len()
        invariant
            i <= all.len(),
            described_overwrites(all, 0, targets.deep_view(), Seq::empty()) == described_overwrites(
                all,
                i as int,
                targets.deep_view(),
                described.deep_view(),
            ),
        decreases all.len() - i,
    {
        let target: OverwriteTarget = describe_target(overwrites.key_at(i), targets)?;
        described.insert(target, take_names(&overwrites.value_at(i).known));
        i += 1;
    }
    Ok(described)
}

fn describe_channel(
    name: &ChannelLogicalId,
    channel: &ChannelSnapshot,
    names: &OrderedMap<ChannelId, ChannelLogicalId>,
    targets: &Targets,
) -> (result: Result<RawChannelDefinition, ManagementError>)
    requires
        channel.kind != ChannelKind::Unsupported,
    ensures
        seen(result) == described_channel(
            name.deep_view(),
            channel.deep_view(),
            names.deep_view(),
            targets.deep_view(),
        ),
{
    let is_text: bool = channel.kind == ChannelKind::Text;
    let parent: Option<ChannelValue<ChannelLogicalId>> = match channel.parent_id {
        Some(parent_id) => match names.get(&parent_id) {
            Some(parent) => Some(ChannelValue::Value(parent.copy())),
            None => {
                return Err(
                    ManagementError::InvalidState(
                        text5(
                            "Channel ",
                            name.as_str(),
                            " の親 Channel ",
                            parent_id.to_text().as_str(),
                            " が export 対象に含まれていません",
                        ),
                    ),
                );
            },
        },
        None => if is_text {
            Some(ChannelValue::Clear)
        } else {
            None
        },
    };
    let overwrites: OrderedMap<OverwriteTarget, OrderedMap<PermissionName, OverwriteValue>> = describe_overwrites(
        &channel.overwrites,
        targets,
    )?;
    let settings_sets: Vec<ChannelSettingsSetId> = Vec::new();
    assert(settings_sets.deep_view() =~= Seq::empty());
    let mut attributes: RawChannelAttributes = RawChannelAttributes::none();
    attributes.kind = Some(
        if is_text {
            RawChannelKind::Text
        } else {
            RawChannelKind::Category
        },
    );
    attributes.name = Some(ChannelValue::Value(channel.name.copy()));
    attributes.parent = parent;
    attributes.overwrites = overwrites;
    if is_text {
        attributes.topic = match &channel.topic {
            Some(topic) => Some(ChannelValue::Value(topic.copy())),
            None => Some(ChannelValue::Clear),
        };
        attributes.nsfw = Some(ChannelValue::Value(channel.nsfw));
        attributes.slowmode_seconds = Some(ChannelValue::Value(channel.slowmode_seconds));
        attributes.default_auto_archive_minutes = match channel.default_auto_archive_minutes {
            Some(minutes) => Some(ChannelValue::Value(minutes)),
            None => None,
        };
        attributes.default_thread_slowmode_seconds = Some(
            ChannelValue::Value(channel.default_thread_slowmode_seconds),
        );
    }
    Ok(RawChannelDefinition { mode: RoleMode::Managed, ensure: None, settings_sets, attributes })
}

proof fn describable_are(channels: Seq<ChannelSnapshotView>, i: int)
    requires
        0 <= i < describable(channels).len(),
    ensures
        is_describable(describable(channels)[i]),
    decreases channels.len(),
{
    if channels.len() > 0 {
        let rest = describable(channels.drop_last());
        if i < rest.len() {
            describable_are(channels.drop_last(), i);
        }
    }
}

#[verifier::loop_isolation(false)]
fn describe_channels(
    channels: &Vec<ChannelSnapshot>,
    names: &OrderedMap<ChannelId, ChannelLogicalId>,
    targets: &Targets,
) -> (result: Result<OrderedMap<ChannelLogicalId, RawChannelDefinition>, ManagementError>)
    requires
        forall|i: int| 0 <= i < channels@.len() ==> (#[trigger] channels@[i]).kind != ChannelKind::Unsupported,
    ensures
        seen(result) == described_channels(
            channels.deep_view(),
            0,
            names.deep_view(),
            targets.deep_view(),
            Seq::empty(),
        ),
{
    let ghost all = channels.deep_view();
    let mut described: OrderedMap<ChannelLogicalId, RawChannelDefinition> = OrderedMap::new();
    let mut i: usize = 0;
    while i < channels.len()
        invariant
            i <= channels@.len(),
            described_channels(all, 0, names.deep_view(), targets.deep_view(), Seq::empty()) == described_channels(
                all,
                i as int,
                names.deep_view(),
                targets.deep_view(),
                described.deep_view(),
            ),
        decreases channels@.len() - i,
    {
        assert(all[i as int] == channels@[i as int].deep_view());
        match names.get(&channels[i].id) {
            None => {},
            Some(name) => {
                let channel: RawChannelDefinition = describe_channel(name, &channels[i], names, targets)?;
                described.insert(name.copy(), channel);
            },
        }
        i += 1;
    }
    Ok(described)
}

fn refer_to_roles(names: &OrderedMap<RoleId, RoleLogicalId>) -> (roles: OrderedMap<RoleLogicalId, RawRoleDefinition>)
    ensures
        roles.deep_view() == role_references(names.deep_view()),
{
    let ghost all = names.deep_view();
    let mut roles: OrderedMap<RoleLogicalId, RawRoleDefinition> = OrderedMap::new();
    let mut i: usize = 0;
    assert(all.take(0) =~= Seq::empty());
    while i < names.len()
        invariant
            i <= all.len(),
            all == names.deep_view(),
            roles.deep_view() == role_references(all.take(i as int)),
        decreases all.len() - i,
    {
        proof {
            assert(all.take(i + 1).drop_last() =~= all.take(i as int));
            assert(all.take(i + 1).last() == all[i as int]);
        }
        roles.insert(names.value_at(i).copy(), reference_role());
        i += 1;
    }
    assert(all.take(i as int) =~= all);
    roles
}

fn refer_to_members(names: &OrderedMap<MemberId, MemberLogicalId>) -> (members: OrderedMap<
    MemberLogicalId,
    MemberDefinition,
>)
    ensures
        members.deep_view() == member_references(names.deep_view()),
{
    let ghost all = names.deep_view();
    let mut members: OrderedMap<MemberLogicalId, MemberDefinition> = OrderedMap::new();
    let mut i: usize = 0;
    assert(all.take(0) =~= Seq::empty());
    while i < names.len()
        invariant
            i <= all.len(),
            all == names.deep_view(),
            members.deep_view() == member_references(all.take(i as int)),
        decreases all.len() - i,
    {
        proof {
            assert(all.take(i + 1).drop_last() =~= all.take(i as int));
            assert(all.take(i + 1).last() == all[i as int]);
        }
        members.insert(names.value_at(i).copy(), MemberDefinition { mode: RoleMode::Reference });
        i += 1;
    }
    assert(all.take(i as int) =~= all);
    members
}

proof fn binding_is_the_same<L>(entries: MappingsView, name: Seq<char>, id: u64)
    ensures
        put::<LogicalId<L>, u64>(entries, name, id) == put::<RoleLogicalId, u64>(entries, name, id),
    decreases entries.len(),
{
    if entries.len() > 0 {
        binding_is_the_same::<L>(entries.drop_first(), name, id);
    }
}

fn add_bindings<L, D>(
    mappings: OrderedMap<LogicalId<L>, DiscordId<D>>,
    names: &OrderedMap<DiscordId<D>, LogicalId<L>>,
) -> (bound: OrderedMap<LogicalId<L>, DiscordId<D>>)
    ensures
        bound.deep_view() == with_bindings(mappings.deep_view(), names.deep_view()),
{
    let ghost all = names.deep_view();
    let ghost start = mappings.deep_view();
    let mut bound: OrderedMap<LogicalId<L>, DiscordId<D>> = mappings;
    let mut i: usize = 0;
    assert(all.take(0) =~= Seq::empty());
    while i < names.len()
        invariant
            i <= all.len(),
            all == names.deep_view(),
            bound.deep_view() == with_bindings(start, all.take(i as int)),
        decreases all.len() - i,
    {
        proof {
            assert(all.take(i + 1).drop_last() =~= all.take(i as int));
            assert(all.take(i + 1).last() == all[i as int]);
            binding_is_the_same::<L>(bound.deep_view(), all[i as int].1, all[i as int].0);
        }
        if !bound.contains_key(names.value_at(i)) {
            bound.insert(names.value_at(i).copy(), *names.key_at(i));
        }
        i += 1;
    }
    assert(all.take(i as int) =~= all);
    bound
}

/// The definition and the state that describe the channels of a guild. Names of
/// an earlier state are kept.
pub fn export_channels(catalog: &ChannelCatalog, guild_id: GuildId, previous: Option<&StateFile>) -> (result: Result<
    ExportFiles,
    ManagementError,
>)
    ensures
        seen(result) == export_files(
            exported_channels(catalog.deep_view(), guild_id.deep_view(), previous.deep_view()),
        ),
{
    let earlier: StateFile = take_earlier(guild_id, previous);
    find_lost_channel(&earlier.channels, &catalog.channels)?;
    let channels: Vec<ChannelSnapshot> = take_describable(&catalog.channels);
    let named: NamedChannels = name_channels(&channels, &earlier.channels)?;
    let targets: Targets = gather_targets(&channels, &earlier)?;
    proof {
        assert forall|i: int| 0 <= i < channels@.len() implies (#[trigger] channels@[i]).kind
            != ChannelKind::Unsupported by {
            describable_are(catalog.deep_view().channels, i);
            assert(channels.deep_view()[i] == channels@[i].deep_view());
        }
    }
    let described: OrderedMap<ChannelLogicalId, RawChannelDefinition> = describe_channels(
        &channels,
        &named.names,
        &targets,
    )?;
    let definition = RawDefinitionFile {
        schema_version: SCHEMA_VERSION,
        settings_sets: RawSettingsSets { role: OrderedMap::new(), channel: OrderedMap::new() },
        roles: refer_to_roles(&targets.roles),
        channels: described,
        members: refer_to_members(&targets.members),
        message_sets: OrderedMap::new(),
        threads: OrderedMap::new(),
        order: None,
    };
    let state = StateFile {
        schema_version: SCHEMA_VERSION,
        guild_id,
        roles: add_bindings(earlier.roles, &targets.roles),
        channels: named.mappings,
        members: add_bindings(earlier.members, &targets.members),
    };
    let state_json: String = serialize_state(&state)?;
    Ok(ExportFiles { definition, state, state_json })
}

} // verus!
