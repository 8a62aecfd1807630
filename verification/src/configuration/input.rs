//! A definition and a state together.

use vstd::prelude::*;

use crate::configuration::channel::{
    ChannelAttributes, ChannelAttributesView, ChannelDefinition, ChannelDefinitionView, ChannelValue, Ensure,
    OverwriteTarget, OverwriteTargetView, OverwriteValue,
};
use crate::configuration::definition::{
    settings_set_channel, settings_set_logical_id, DefinitionFile, DefinitionView, MessageSetView, RawDefinitionFile,
    RawDefinitionView, ThreadView,
};
use crate::configuration::order::accepted;
use crate::configuration::permission::PermissionVocabulary;
use crate::configuration::role::{RoleDefinitionView, RoleMode};
use crate::configuration::state::{RawStateFile, StateFile, StateView};
use crate::domain::{ErrorView, ManagementError};
use crate::ids::{everyone, everyone_logical_id, ChannelLogicalId, GuildId, RoleLogicalId};
use crate::ordered::{first_in, first_in_step, has_key, lookup};
use crate::text::{text3, text4, text5};
use crate::value::seen;

verus! {

/// A definition and a state that fit together.
pub struct PlanInput {
    pub definition: DefinitionFile,
    pub state: StateFile,
}

/// What is wrong with a declared role: it is only referred to, but not bound.
pub open spec fn role_reference_fault(
    id: Seq<char>,
    role: RoleDefinitionView,
    state: StateView,
) -> Option<ErrorView> {
    if id != everyone() && role is Reference && !has_key(state.roles, id) {
        Some(ErrorView::InvalidState("Role "@ + id + " の対応がありません"@))
    } else {
        None
    }
}

/// What is wrong with a channel that something refers to.
pub open spec fn required_channel_fault(
    id: Seq<char>,
    definition: DefinitionView,
    state: StateView,
    context: Seq<char>,
) -> Option<ErrorView> {
    match lookup(definition.channels, id) {
        None => Some(
            ErrorView::InvalidDefinition(context + " Channel "@ + id + " の宣言がありません"@),
        ),
        Some(ChannelDefinitionView::Absent) => Some(
            ErrorView::InvalidDefinition(context + " Channel "@ + id + " は削除宣言です"@),
        ),
        Some(ChannelDefinitionView::Reference) => if has_key(state.channels, id) {
            None
        } else {
            Some(ErrorView::InvalidState(context + " Channel "@ + id + " の対応がありません"@))
        },
        Some(_) => None,
    }
}

/// What is wrong with a role whose permissions a channel overwrites: it shall be deleted.
pub open spec fn role_overwrite_fault(
    channel: Seq<char>,
    id: Seq<char>,
    definition: DefinitionView,
) -> Option<ErrorView> {
    match lookup(definition.roles, id) {
        Some(RoleDefinitionView::Absent) => Some(
            ErrorView::InvalidDefinition(
                "Channel "@ + channel + " の権限対象 Role "@ + id + " は削除宣言です"@,
            ),
        ),
        _ => None,
    }
}

/// What is wrong with whom a channel overwrites permissions for.
pub open spec fn overwrite_target_fault(
    channel: Seq<char>,
    target: OverwriteTargetView,
    definition: DefinitionView,
    state: StateView,
) -> Option<ErrorView> {
    match target {
        OverwriteTargetView::Everyone => role_overwrite_fault(channel, everyone(), definition),
        OverwriteTargetView::Role(id) => if id == everyone() {
            role_overwrite_fault(channel, id, definition)
        } else if !has_key(definition.roles, id) {
            Some(
                ErrorView::InvalidDefinition(
                    "Channel "@ + channel + " の権限対象 Role "@ + id + " の宣言がありません"@,
                ),
            )
        } else {
            match role_overwrite_fault(channel, id, definition) {
                Some(error) => Some(error),
                None => if has_key(state.roles, id) {
                    None
                } else {
                    Some(
                        ErrorView::InvalidState(
                            "Channel "@ + channel + " の権限対象 Role "@ + id + " の対応がありません"@,
                        ),
                    )
                },
            }
        },
        OverwriteTargetView::Member(id) => if !has_key(definition.members, id) {
            Some(
                ErrorView::InvalidDefinition(
                    "Channel "@ + channel + " の権限対象 Member "@ + id + " の宣言がありません"@,
                ),
            )
        } else if !has_key(state.members, id) {
            Some(
                ErrorView::InvalidState(
                    "Channel "@ + channel + " の権限対象 Member "@ + id + " の対応がありません"@,
                ),
            )
        } else {
            None
        },
    }
}

/// What is wrong with what the attributes of a channel refer to.
pub open spec fn channel_references_fault(
    channel: Seq<char>,
    attributes: ChannelAttributesView,
    definition: DefinitionView,
    state: StateView,
) -> Option<ErrorView> {
    let parent_fault = match attributes.parent {
        Some(ChannelValue::Value(parent)) => required_channel_fault(
            parent,
            definition,
            state,
            "Channel "@ + channel + " の親"@,
        ),
        _ => None,
    };
    match parent_fault {
        Some(error) => Some(error),
        None => first_in(
            attributes.overwrites,
            |target: OverwriteTargetView, permissions: Seq<(Seq<char>, OverwriteValue)>|
                overwrite_target_fault(channel, target, definition, state),
        ),
    }
}

/// What is wrong with a declared channel.
pub open spec fn channel_fault(
    id: Seq<char>,
    channel: ChannelDefinitionView,
    definition: DefinitionView,
    state: StateView,
) -> Option<ErrorView> {
    match channel {
        ChannelDefinitionView::Absent => None,
        ChannelDefinitionView::Reference => if has_key(state.channels, id) {
            None
        } else {
            Some(ErrorView::InvalidState("Channel "@ + id + " の対応がありません"@))
        },
        ChannelDefinitionView::Managed { attributes } => channel_references_fault(
            id,
            attributes,
            definition,
            state,
        ),
    }
}

/// What is wrong with a declared member.
pub open spec fn member_reference_fault(id: Seq<char>, mode: RoleMode, state: StateView) -> Option<ErrorView> {
    if mode != RoleMode::Reference {
        Some(ErrorView::InvalidDefinition("Member "@ + id + " は参照専用として宣言してください"@))
    } else if !has_key(state.members, id) {
        Some(ErrorView::InvalidState("Member "@ + id + " の対応がありません"@))
    } else {
        None
    }
}

/// What is wrong with where a set of messages or a thread is posted.
pub open spec fn container_fault(
    kind: Seq<char>,
    name: Seq<char>,
    ensure: Option<Ensure>,
    channel: Option<Seq<char>>,
    definition: DefinitionView,
    state: StateView,
) -> Option<ErrorView> {
    if ensure == Some(Ensure::Absent) {
        None
    } else {
        match channel {
            None => Some(
                ErrorView::InvalidDefinition(kind + " "@ + name + " の channel がありません"@),
            ),
            Some(channel) => required_channel_fault(
                channel,
                definition,
                state,
                kind + " "@ + name + " の投稿先"@,
            ),
        }
    }
}

/// What is wrong with a definition in the light of a state: something refers to
/// what is not declared, shall be deleted, or is not bound.
pub open spec fn references_fault(definition: DefinitionView, state: StateView) -> Option<ErrorView> {
    match first_in(
        definition.roles,
        |id: Seq<char>, role: RoleDefinitionView| role_reference_fault(id, role, state),
    ) {
        Some(error) => Some(error),
        None => match first_in(
            definition.channels,
            |id: Seq<char>, channel: ChannelDefinitionView| channel_fault(id, channel, definition, state),
        ) {
            Some(error) => Some(error),
            None => match first_in(
                definition.members,
                |id: Seq<char>, mode: RoleMode| member_reference_fault(id, mode, state),
            ) {
                Some(error) => Some(error),
                None => match first_in(
                    definition.message_sets,
                    |name: Seq<char>, set: MessageSetView|
                        container_fault("管理メッセージ群"@, name, set.ensure, set.channel, definition, state),
                ) {
                    Some(error) => Some(error),
                    None => match first_in(
                        definition.threads,
                        |name: Seq<char>, thread: ThreadView|
                            container_fault(
                                "管理スレッド"@,
                                name,
                                thread.ensure,
                                thread.channel,
                                definition,
                                state,
                            ),
                    ) {
                        Some(error) => Some(error),
                        None => first_in(
                            definition.settings_sets.channel,
                            |name: Seq<char>, attributes: ChannelAttributesView|
                                channel_references_fault(
                                    settings_set_channel(name),
                                    attributes,
                                    definition,
                                    state,
                                ),
                        ),
                    },
                },
            },
        },
    }
}

/// A definition and a state, read for a guild.
pub open spec fn plan_input(
    definition: RawDefinitionView,
    state: StateView,
    guild_id: u64,
    known: Seq<(Seq<char>, ())>,
) -> Result<(DefinitionView, StateView), ErrorView> {
    match definition.parsed(known) {
        Err(error) => Err(error),
        Ok(definition) => match state.parsed_for_guild(guild_id) {
            Err(error) => Err(error),
            Ok(state) => match references_fault(definition, state) {
                Some(error) => Err(error),
                None => Ok((definition, state)),
            },
        },
    }
}

impl DeepView for PlanInput {
    type V = (DefinitionView, StateView);

    open spec fn deep_view(&self) -> (DefinitionView, StateView) {
        (self.definition.deep_view(), self.state.deep_view())
    }
}

fn require_channel_reference(
    logical_id: &ChannelLogicalId,
    definition: &DefinitionFile,
    state: &StateFile,
    context: &str,
) -> (result: Result<(), ManagementError>)
    ensures
        seen(result) == accepted(
            required_channel_fault(logical_id.deep_view(), definition.deep_view(), state.deep_view(), context@),
        ),
{
    let id: &str = logical_id.as_str();
    match definition.channels.get(logical_id) {
        None => Err(
            ManagementError::InvalidDefinition(text4(context, " Channel ", id, " の宣言がありません")),
        ),
        Some(channel) => {
            if channel.is_absent() {
                return Err(
                    ManagementError::InvalidDefinition(text4(context, " Channel ", id, " は削除宣言です")),
                );
            }
            if channel.is_reference() && !state.channels.contains_key(logical_id) {
                return Err(
                    ManagementError::InvalidState(text4(context, " Channel ", id, " の対応がありません")),
                );
            }
            Ok(())
        },
    }
}

fn validate_role_overwrite_reference(
    channel_id: &ChannelLogicalId,
    logical_id: &RoleLogicalId,
    definition: &DefinitionFile,
) -> (result: Result<(), ManagementError>)
    ensures
        seen(result) == accepted(
            role_overwrite_fault(channel_id.deep_view(), logical_id.deep_view(), definition.deep_view()),
        ),
{
    match definition.roles.get(logical_id) {
        None => Ok(()),
        Some(role) => if role.is_absent() {
            Err(
                ManagementError::InvalidDefinition(
                    text5(
                        "Channel ",
                        channel_id.as_str(),
                        " の権限対象 Role ",
                        logical_id.as_str(),
                        " は削除宣言です",
                    ),
                ),
            )
        } else {
            Ok(())
        },
    }
}

fn validate_overwrite_target(
    channel_id: &ChannelLogicalId,
    target: &OverwriteTarget,
    definition: &DefinitionFile,
    state: &StateFile,
) -> (result: Result<(), ManagementError>)
    ensures
        seen(result) == accepted(
            overwrite_target_fault(
                channel_id.deep_view(),
                target.deep_view(),
                definition.deep_view(),
                state.deep_view(),
            ),
        ),
{
    match target {
        OverwriteTarget::Everyone => validate_role_overwrite_reference(
            channel_id,
            &everyone_logical_id(),
            definition,
        ),
        OverwriteTarget::Role(logical_id) => {
            if logical_id.is_everyone() {
                return validate_role_overwrite_reference(channel_id, logical_id, definition);
            }
            if !definition.roles.contains_key(logical_id) {
                return Err(
                    ManagementError::InvalidDefinition(
                        text5(
                            "Channel ",
                            channel_id.as_str(),
                            " の権限対象 Role ",
                            logical_id.as_str(),
                            " の宣言がありません",
                        ),
                    ),
                );
            }
            validate_role_overwrite_reference(channel_id, logical_id, definition)?;
            if !state.roles.contains_key(logical_id) {
                return Err(
                    ManagementError::InvalidState(
                        text5(
                            "Channel ",
                            channel_id.as_str(),
                            " の権限対象 Role ",
                            logical_id.as_str(),
                            " の対応がありません",
                        ),
                    ),
                );
            }
            Ok(())
        },
        OverwriteTarget::Member(logical_id) => {
            if !definition.members.contains_key(logical_id) {
                return Err(
                    ManagementError::InvalidDefinition(
                        text5(
                            "Channel ",
                            channel_id.as_str(),
                            " の権限対象 Member ",
                            logical_id.as_str(),
                            " の宣言がありません",
                        ),
                    ),
                );
            }
            if !state.members.contains_key(logical_id) {
                return Err(
                    ManagementError::InvalidState(
                        text5(
                            "Channel ",
                            channel_id.as_str(),
                            " の権限対象 Member ",
                            logical_id.as_str(),
                            " の対応がありません",
                        ),
                    ),
                );
            }
            Ok(())
        },
    }
}

/// Checks what the attributes of a channel refer to.
#[verifier::loop_isolation(false)]
pub fn validate_channel_references(
    channel_id: &ChannelLogicalId,
    attributes: &ChannelAttributes,
    definition: &DefinitionFile,
    state: &StateFile,
) -> (result: Result<(), ManagementError>)
    ensures
        seen(result) == accepted(
            channel_references_fault(
                channel_id.deep_view(),
                attributes.deep_view(),
                definition.deep_view(),
                state.deep_view(),
            ),
        ),
{
    match &attributes.parent {
        Some(ChannelValue::Value(parent_id)) => require_channel_reference(
            parent_id,
            definition,
            state,
            text3("Channel ", channel_id.as_str(), " の親").as_str(),
        )?,
        _ => {},
    }
    let ghost channel = channel_id.deep_view();
    let ghost def = definition.deep_view();
    let ghost st = state.deep_view();
    let ghost all = attributes.overwrites.deep_view();
    let ghost check = |target: OverwriteTargetView, permissions: Seq<(Seq<char>, OverwriteValue)>|
        overwrite_target_fault(channel, target, def, st);
    let mut i: usize = 0;
    assert(all.skip(0) =~= all);
    while i < attributes.overwrites.len()
        invariant
            i <= all.len(),
            first_in(all, check) == first_in(all.skip(i as int), check),
        decreases all.len() - i,
    {
        proof {
            first_in_step(all, check, i as int);
        }
        validate_overwrite_target(channel_id, attributes.overwrites.key_at(i), definition, state)?;
        i += 1;
    }
    Ok(())
}

/// Checks where a set of messages or a thread is posted.
pub fn validate_channel_container_reference(
    resource_kind: &str,
    resource_name: &str,
    absent: bool,
    channel: &Option<ChannelLogicalId>,
    definition: &DefinitionFile,
    state: &StateFile,
) -> (result: Result<(), ManagementError>)
    ensures
        seen(result) == accepted(
            container_fault(
                resource_kind@,
                resource_name@,
                if absent {
                    Some(Ensure::Absent)
                } else {
                    None
                },
                channel.deep_view(),
                definition.deep_view(),
                state.deep_view(),
            ),
        ),
{
    if absent {
        return Ok(());
    }
    match channel {
        None => Err(
            ManagementError::InvalidDefinition(
                text4(resource_kind, " ", resource_name, " の channel がありません"),
            ),
        ),
        Some(channel_id) => require_channel_reference(
            channel_id,
            definition,
            state,
            text4(resource_kind, " ", resource_name, " の投稿先").as_str(),
        ),
    }
}

#[verifier::loop_isolation(false)]
fn validate_role_references(definition: &DefinitionFile, state: &StateFile) -> (result: Result<(), ManagementError>)
    ensures
        seen(result) == accepted(
            first_in(
                definition.deep_view().roles,
                |id: Seq<char>, role: RoleDefinitionView| role_reference_fault(id, role, state.deep_view()),
            ),
        ),
{
    let ghost st = state.deep_view();
    let ghost all = definition.roles.deep_view();
    let ghost check = |id: Seq<char>, role: RoleDefinitionView| role_reference_fault(id, role, st);
    let mut i: usize = 0;
    assert(all.skip(0) =~= all);
    while i < definition.roles.len()
        invariant
            i <= all.len(),
            first_in(all, check) == first_in(all.skip(i as int), check),
        decreases all.len() - i,
    {
        proof {
            first_in_step(all, check, i as int);
        }
        let logical_id: &RoleLogicalId = definition.roles.key_at(i);
        if !logical_id.is_everyone() && definition.roles.value_at(i).is_reference() && !state.roles.contains_key(
            logical_id,
        ) {
            return Err(
                ManagementError::InvalidState(text3("Role ", logical_id.as_str(), " の対応がありません")),
            );
        }
        i += 1;
    }
    Ok(())
}

#[verifier::loop_isolation(false)]
fn validate_declared_channels(definition: &DefinitionFile, state: &StateFile) -> (result: Result<
    (),
    ManagementError,
>)
    ensures
        seen(result) == accepted(
            first_in(
                definition.deep_view().channels,
                |id: Seq<char>, channel: ChannelDefinitionView|
                    channel_fault(id, channel, definition.deep_view(), state.deep_view()),
            ),
        ),
{
    let ghost def = definition.deep_view();
    let ghost st = state.deep_view();
    let ghost all = definition.channels.deep_view();
    let ghost check = |id: Seq<char>, channel: ChannelDefinitionView| channel_fault(id, channel, def, st);
    let mut i: usize = 0;
    assert(all.skip(0) =~= all);
    while i < definition.channels.len()
        invariant
            i <= all.len(),
            first_in(all, check) == first_in(all.skip(i as int), check),
        decreases all.len() - i,
    {
        proof {
            first_in_step(all, check, i as int);
        }
        let logical_id: &ChannelLogicalId = definition.channels.key_at(i);
        match definition.channels.value_at(i) {
            ChannelDefinition::Absent => {},
            ChannelDefinition::Reference => {
                if !state.channels.contains_key(logical_id) {
                    return Err(
                        ManagementError::InvalidState(
                            text3("Channel ", logical_id.as_str(), " の対応がありません"),
                        ),
                    );
                }
            },
            ChannelDefinition::Managed { attributes } => validate_channel_references(
                logical_id,
                attributes,
                definition,
                state,
            )?,
        }
        i += 1;
    }
    Ok(())
}

#[verifier::loop_isolation(false)]
fn validate_member_references(definition: &DefinitionFile, state: &StateFile) -> (result: Result<
    (),
    ManagementError,
>)
    ensures
        seen(result) == accepted(
            first_in(
                definition.deep_view().members,
                |id: Seq<char>, mode: RoleMode| member_reference_fault(id, mode, state.deep_view()),
            ),
        ),
{
    let ghost st = state.deep_view();
    let ghost all = definition.members.deep_view();
    let ghost check = |id: Seq<char>, mode: RoleMode| member_reference_fault(id, mode, st);
    let mut i: usize = 0;
    assert(all.skip(0) =~= all);
    while i < definition.members.len()
        invariant
            i <= all.len(),
            first_in(all, check) == first_in(all.skip(i as int), check),
        decreases all.len() - i,
    {
        proof {
            first_in_step(all, check, i as int);
        }
        let id: &str = definition.members.key_at(i).as_str();
        if definition.members.value_at(i).mode.is_managed() {
            return Err(
                ManagementError::InvalidDefinition(
                    text3("Member ", id, " は参照専用として宣言してください"),
                ),
            );
        }
        if !state.members.contains_key(definition.members.key_at(i)) {
            return Err(ManagementError::InvalidState(text3("Member ", id, " の対応がありません")));
        }
        i += 1;
    }
    Ok(())
}

#[verifier::loop_isolation(false)]
fn validate_message_set_references(definition: &DefinitionFile, state: &StateFile) -> (result: Result<
    (),
    ManagementError,
>)
    ensures
        seen(result) == accepted(
            first_in(
                definition.deep_view().message_sets,
                |name: Seq<char>, set: MessageSetView|
                    container_fault(
                        "管理メッセージ群"@,
                        name,
                        set.ensure,
                        set.channel,
                        definition.deep_view(),
                        state.deep_view(),
                    ),
            ),
        ),
{
    let ghost def = definition.deep_view();
    let ghost st = state.deep_view();
    let ghost all = definition.message_sets.deep_view();
    let ghost check = |name: Seq<char>, set: MessageSetView|
        container_fault("管理メッセージ群"@, name, set.ensure, set.channel, def, st);
    let mut i: usize = 0;
    assert(all.skip(0) =~= all);
    while i < definition.message_sets.len()
        invariant
            i <= all.len(),
            first_in(all, check) == first_in(all.skip(i as int), check),
        decreases all.len() - i,
    {
        proof {
            first_in_step(all, check, i as int);
        }
        validate_channel_container_reference(
            "管理メッセージ群",
            definition.message_sets.key_at(i).as_str(),
            definition.message_sets.value_at(i).is_absent(),
            &definition.message_sets.value_at(i).channel,
            definition,
            state,
        )?;
        i += 1;
    }
    Ok(())
}

#[verifier::loop_isolation(false)]
fn validate_thread_references(definition: &DefinitionFile, state: &StateFile) -> (result: Result<
    (),
    ManagementError,
>)
    ensures
        seen(result) == accepted(
            first_in(
                definition.deep_view().threads,
                |name: Seq<char>, thread: ThreadView|
                    container_fault(
                        "管理スレッド"@,
                        name,
                        thread.ensure,
                        thread.channel,
                        definition.deep_view(),
                        state.deep_view(),
                    ),
            ),
        ),
{
    let ghost def = definition.deep_view();
    let ghost st = state.deep_view();
    let ghost all = definition.threads.deep_view();
    let ghost check = |name: Seq<char>, thread: ThreadView|
        container_fault("管理スレッド"@, name, thread.ensure, thread.channel, def, st);
    let mut i: usize = 0;
    assert(all.skip(0) =~= all);
    while i < definition.threads.len()
        invariant
            i <= all.len(),
            first_in(all, check) == first_in(all.skip(i as int), check),
        decreases all.len() - i,
    {
        proof {
            first_in_step(all, check, i as int);
        }
        validate_channel_container_reference(
            "管理スレッド",
            definition.threads.key_at(i).as_str(),
            definition.threads.value_at(i).is_absent(),
            &definition.threads.value_at(i).channel,
            definition,
            state,
        )?;
        i += 1;
    }
    Ok(())
}

#[verifier::loop_isolation(false)]
fn validate_settings_set_references(definition: &DefinitionFile, state: &StateFile) -> (result: Result<
    (),
    ManagementError,
>)
    ensures
        seen(result) == accepted(
            first_in(
                definition.deep_view().settings_sets.channel,
                |name: Seq<char>, attributes: ChannelAttributesView|
                    channel_references_fault(
                        settings_set_channel(name),
                        attributes,
                        definition.deep_view(),
                        state.deep_view(),
                    ),
            ),
        ),
{
    let ghost def = definition.deep_view();
    let ghost st = state.deep_view();
    let ghost all = definition.settings_sets.channel.deep_view();
    let ghost check = |name: Seq<char>, attributes: ChannelAttributesView|
        channel_references_fault(settings_set_channel(name), attributes, def, st);
    let mut i: usize = 0;
    assert(all.skip(0) =~= all);
    while i < definition.settings_sets.channel.len()
        invariant
            i <= all.len(),
            first_in(all, check) == first_in(all.skip(i as int), check),
        decreases all.len() - i,
    {
        proof {
            first_in_step(all, check, i as int);
        }
        validate_channel_references(
            &settings_set_logical_id(definition.settings_sets.channel.key_at(i)),
            definition.settings_sets.channel.value_at(i),
            definition,
            state,
        )?;
        i += 1;
    }
    Ok(())
}

/// Checks that everything a definition refers to is declared, stays, and is
/// bound where it has to be.
pub fn validate_references(definition: &DefinitionFile, state: &StateFile) -> (result: Result<(), ManagementError>)
    ensures
        seen(result) == accepted(references_fault(definition.deep_view(), state.deep_view())),
{
    validate_role_references(definition, state)?;
    validate_declared_channels(definition, state)?;
    validate_member_references(definition, state)?;
    validate_message_set_references(definition, state)?;
    validate_thread_references(definition, state)?;
    validate_settings_set_references(definition, state)
}

/// A definition and a state, taken from what reading their files gave. What is wrong with
/// the definition is told before what is wrong with the state.
pub open spec fn read_plan_input(
    definition: Result<RawDefinitionView, ErrorView>,
    state: Result<StateView, ErrorView>,
    guild_id: u64,
    known: Seq<(Seq<char>, ())>,
) -> Result<(DefinitionView, StateView), ErrorView> {
    match definition {
        Err(error) => Err(error),
        Ok(definition) => match (definition.parsed(known), state) {
            (Err(error), _) => Err(error),
            (Ok(_), Err(error)) => Err(error),
            (Ok(_), Ok(state)) => plan_input(definition, state, guild_id, known),
        },
    }
}

impl PlanInput {
    /// Takes a definition and a state for a guild from what reading their files gave.
    pub fn read(
        definition: Result<RawDefinitionFile, ManagementError>,
        state: Result<RawStateFile, ManagementError>,
        guild_id: GuildId,
        vocabulary: &PermissionVocabulary,
    ) -> (result: Result<Self, ManagementError>)
        ensures
            seen(result) == read_plan_input(
                seen(definition),
                seen(state),
                guild_id.deep_view(),
                vocabulary.deep_view(),
            ),
    {
        let definition: DefinitionFile = DefinitionFile::parse(definition?, vocabulary)?;
        let state: StateFile = StateFile::parse_for_guild(state?, guild_id)?;
        validate_references(&definition, &state)?;
        Ok(PlanInput { definition, state })
    }

    /// Takes a definition and a state for a guild.
    pub fn parse(
        definition: RawDefinitionFile,
        state: RawStateFile,
        guild_id: GuildId,
        vocabulary: &PermissionVocabulary,
    ) -> (result: Result<Self, ManagementError>)
        ensures
            seen(result) == plan_input(
                definition.deep_view(),
                state.deep_view(),
                guild_id.deep_view(),
                vocabulary.deep_view(),
            ),
    {
        Self::read(Ok(definition), Ok(state), guild_id, vocabulary)
    }
}

} // verus!
