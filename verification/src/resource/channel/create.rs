//! Channels that shall be created.

use vstd::prelude::*;

use crate::configuration::channel::{
    given_value, valued_if_any, ChannelAttributes, ChannelAttributesView, ChannelDefinition, ChannelDefinitionView,
    ChannelKind, ChannelValue,
};
use crate::configuration::definition::{DefinitionFile, DefinitionView};
use crate::configuration::order::accepted;
use crate::configuration::state::{StateFile, StateView};
use crate::domain::{ErrorView, ManagementError};
use crate::ids::{ChannelId, ChannelLogicalId};
use crate::ordered::{has_key, lookup, OrderedMap};
use crate::port::{
    ChannelCatalog, ChannelCatalogView, ChannelCreate, ChannelCreateView, ChannelOverwrites, ChannelOverwritesView,
    ChannelSnapshot, ChannelSnapshotView,
};
use crate::resource::channel::attributes::{
    is_planned_channel_creation, is_planned_creation, resolve_bool, resolve_name, resolve_parent_target, resolve_u16,
    wanted_name, wanted_nsfw, wanted_parent, wanted_seconds, ParentTarget, ParentTargetView,
};
use crate::resource::channel::overwrites::{
    apply_overwrite_values, desired_overwrites, desired_overwrites_for_channel, with_definition, ActualChannels,
    ActualChannelsView,
};
use crate::text::{decimal, text3, text5, text7};
use crate::value::{seen, Plain};

verus! {

/// What is wrong with the parent that a channel asks for.
pub open spec fn parent_fault(
    id: Seq<char>,
    kind: ChannelKind,
    parent: Option<ChannelValue<Seq<char>>>,
    definition: DefinitionView,
    state: StateView,
    actual: ActualChannelsView,
) -> Option<ErrorView> {
    match parent {
        None => None,
        Some(value) => if kind == ChannelKind::Category {
            Some(ErrorView::InvalidDefinition("Category "@ + id + " には parent を指定できません"@))
        } else {
            match value {
                ChannelValue::Value(parent) => named_parent_fault(id, parent, definition, state, actual),
                _ => None,
            }
        },
    }
}

/// What is wrong with a channel as the parent of another.
pub open spec fn named_parent_fault(
    id: Seq<char>,
    parent: Seq<char>,
    definition: DefinitionView,
    state: StateView,
    actual: ActualChannelsView,
) -> Option<ErrorView> {
    match lookup(definition.channels, parent) {
        None => Some(
            ErrorView::InvalidDefinition("Channel "@ + id + " の親 "@ + parent + " の宣言がありません"@),
        ),
        Some(ChannelDefinitionView::Absent) => Some(
            ErrorView::InvalidDefinition("Channel "@ + id + " の親 "@ + parent + " は削除宣言です"@),
        ),
        Some(declared) => if declared.attributes().kind == Some(ChannelKind::Text) {
            Some(
                ErrorView::InvalidDefinition(
                    "Channel "@ + id + " の親 "@ + parent + " は Category である必要があります"@,
                ),
            )
        } else if declared.attributes().kind is None && !(declared is Reference) {
            Some(
                ErrorView::InvalidDefinition(
                    "Channel "@ + id + " の親 "@ + parent + " の type がありません"@,
                ),
            )
        } else if is_planned_creation(definition, state, parent) {
            None
        } else {
            match lookup(state.channels, parent) {
                None => if declared is Reference {
                    Some(
                        ErrorView::InvalidState(
                            "Channel "@ + id + " の親 "@ + parent + " の対応がありません"@,
                        ),
                    )
                } else {
                    None
                },
                Some(parent_id) => match lookup(actual, parent_id) {
                    None => Some(
                        ErrorView::InvalidState(
                            "Channel "@ + id + " の親 "@ + parent + " の Snowflake "@ + decimal(
                                parent_id as nat,
                            ) + " が Guild から予期せず消失しています"@,
                        ),
                    ),
                    Some(channel) => if channel.kind != ChannelKind::Category {
                        Some(
                            ErrorView::InvalidDefinition(
                                "Channel "@ + id + " の親 "@ + parent
                                    + " は Category である必要があります"@,
                            ),
                        )
                    } else {
                        None
                    },
                },
            }
        },
    }
}

fn validate_named_parent(
    logical_id: &ChannelLogicalId,
    parent: &ChannelLogicalId,
    definition: &DefinitionFile,
    state: &StateFile,
    actual: &ActualChannels,
) -> (result: Result<(), ManagementError>)
    ensures
        seen(result) == accepted(
            named_parent_fault(
                logical_id.deep_view(),
                parent.deep_view(),
                definition.deep_view(),
                state.deep_view(),
                actual.deep_view(),
            ),
        ),
{
    let id: &str = logical_id.as_str();
    let parent_id: &str = parent.as_str();
    let declared: &ChannelDefinition = match definition.channels.get(parent) {
        None => {
            return Err(
                ManagementError::InvalidDefinition(
                    text5("Channel ", id, " の親 ", parent_id, " の宣言がありません"),
                ),
            );
        },
        Some(declared) => declared,
    };
    if declared.is_absent() {
        return Err(
            ManagementError::InvalidDefinition(
                text5("Channel ", id, " の親 ", parent_id, " は削除宣言です"),
            ),
        );
    }
    let kind: Option<ChannelKind> = declared.attributes().kind;
    if matches!(kind, Some(ChannelKind::Text)) {
        return Err(
            ManagementError::InvalidDefinition(
                text5("Channel ", id, " の親 ", parent_id, " は Category である必要があります"),
            ),
        );
    }
    if kind.is_none() && !declared.is_reference() {
        return Err(
            ManagementError::InvalidDefinition(
                text5("Channel ", id, " の親 ", parent_id, " の type がありません"),
            ),
        );
    }
    if is_planned_channel_creation(definition, state, parent) {
        return Ok(());
    }
    match state.channels.get(parent) {
        None => if declared.is_reference() {
            Err(
                ManagementError::InvalidState(
                    text5("Channel ", id, " の親 ", parent_id, " の対応がありません"),
                ),
            )
        } else {
            Ok(())
        },
        Some(discord_id) => match actual.get(discord_id) {
            None => Err(
                ManagementError::InvalidState(
                    text7(
                        "Channel ",
                        id,
                        " の親 ",
                        parent_id,
                        " の Snowflake ",
                        discord_id.to_text().as_str(),
                        " が Guild から予期せず消失しています",
                    ),
                ),
            ),
            Some(channel) => if channel.kind != ChannelKind::Category {
                Err(
                    ManagementError::InvalidDefinition(
                        text5("Channel ", id, " の親 ", parent_id, " は Category である必要があります"),
                    ),
                )
            } else {
                Ok(())
            },
        },
    }
}

/// Checks the parent that a channel asks for.
pub fn validate_channel_parent(
    logical_id: &ChannelLogicalId,
    kind: ChannelKind,
    parent: &Option<ChannelValue<ChannelLogicalId>>,
    definition: &DefinitionFile,
    state: &StateFile,
    actual: &ActualChannels,
) -> (result: Result<(), ManagementError>)
    ensures
        seen(result) == accepted(
            parent_fault(
                logical_id.deep_view(),
                kind,
                parent.deep_view(),
                definition.deep_view(),
                state.deep_view(),
                actual.deep_view(),
            ),
        ),
{
    match parent {
        None => Ok(()),
        Some(value) => {
            if kind == ChannelKind::Category {
                return Err(
                    ManagementError::InvalidDefinition(
                        text3("Category ", logical_id.as_str(), " には parent を指定できません"),
                    ),
                );
            }
            match value {
                ChannelValue::Value(parent) => validate_named_parent(
                    logical_id,
                    parent,
                    definition,
                    state,
                    actual,
                ),
                _ => Ok(()),
            }
        },
    }
}

/// What is wrong with the attributes of a channel that shall be created.
pub open spec fn creation_fault(
    id: Seq<char>,
    attributes: ChannelAttributesView,
    definition: DefinitionView,
    state: StateView,
    actual: ActualChannelsView,
) -> Option<ErrorView> {
    match attributes.kind {
        None => Some(ErrorView::InvalidDefinition("新しい Channel "@ + id + " には type が必要です"@)),
        Some(kind) => if given_value(attributes.name) is None {
            Some(ErrorView::InvalidDefinition("新しい Channel "@ + id + " には name の具体値が必要です"@))
        } else {
            match parent_fault(id, kind, attributes.parent, definition, state, actual) {
                Some(error) => Some(error),
                None => match given_value(attributes.parent) {
                    None => None,
                    Some(parent) => match lookup(definition.channels, parent) {
                        Some(ChannelDefinitionView::Reference) => if has_key(state.channels, parent) {
                            None
                        } else {
                            Some(
                                ErrorView::InvalidState(
                                    "Channel "@ + id + " の親 "@ + parent
                                        + " を作成または bind できません"@,
                                ),
                            )
                        },
                        _ => None,
                    },
                },
            }
        },
    }
}

/// Checks the attributes of a channel that shall be created.
pub fn validate_channel_creation(
    logical_id: &ChannelLogicalId,
    attributes: &ChannelAttributes,
    definition: &DefinitionFile,
    state: &StateFile,
    actual: &ActualChannels,
) -> (result: Result<(), ManagementError>)
    ensures
        seen(result) == accepted(
            creation_fault(
                logical_id.deep_view(),
                attributes.deep_view(),
                definition.deep_view(),
                state.deep_view(),
                actual.deep_view(),
            ),
        ),
{
    let id: &str = logical_id.as_str();
    let kind: ChannelKind = match attributes.kind {
        None => {
            return Err(
                ManagementError::InvalidDefinition(text3("新しい Channel ", id, " には type が必要です")),
            );
        },
        Some(kind) => kind,
    };
    if !matches!(attributes.name, Some(ChannelValue::Value(_))) {
        return Err(
            ManagementError::InvalidDefinition(
                text3("新しい Channel ", id, " には name の具体値が必要です"),
            ),
        );
    }
    validate_channel_parent(logical_id, kind, &attributes.parent, definition, state, actual)?;
    match &attributes.parent {
        Some(ChannelValue::Value(parent)) => match definition.channels.get(parent) {
            Some(declared) => {
                if declared.is_reference() && !state.channels.contains_key(parent) {
                    return Err(
                        ManagementError::InvalidState(
                            text5(
                                "Channel ",
                                id,
                                " の親 ",
                                parent.as_str(),
                                " を作成または bind できません",
                            ),
                        ),
                    );
                }
            },
            None => {},
        },
        _ => {},
    }
    Ok(())
}

/// The overwrites that a channel shall be created with, or why they are not known.
pub open spec fn created_overwrites(
    id: Seq<char>,
    attributes: ChannelAttributesView,
    definition: DefinitionView,
    state: StateView,
    actual: ActualChannelsView,
) -> Result<ChannelOverwritesView, ErrorView> {
    if attributes.permissions_sync == Some(true) {
        desired_overwrites(id, definition, state, actual, Seq::empty())
    } else {
        with_definition(id, attributes.overwrites, 0, state, Seq::empty())
    }
}

/// The minutes after which threads are archived in a channel that shall be created.
pub open spec fn created_auto_archive(value: Option<ChannelValue<u16>>) -> Option<u16> {
    match value {
        None => Some(1440),
        Some(value) => valued_if_any(value, Some(1440)),
    }
}

/// The channel that a definition wants to be created, or why it cannot be. A
/// parent that is still to be created is left open.
pub open spec fn created_channel(
    id: Seq<char>,
    attributes: ChannelAttributesView,
    definition: DefinitionView,
    state: StateView,
    actual: ActualChannelsView,
) -> Result<ChannelCreateView, ErrorView> {
    match creation_fault(id, attributes, definition, state, actual) {
        Some(error) => Err(error),
        None => match wanted_name(attributes.name, id) {
            Err(error) => Err(error),
            Ok(name) => match wanted_parent(attributes.parent, id, definition, state) {
                Err(error) => Err(error),
                Ok(parent) => match wanted_nsfw(attributes.nsfw) {
                    Err(error) => Err(error),
                    Ok(nsfw) => match created_overwrites(id, attributes, definition, state, actual) {
                        Err(error) => Err(error),
                        Ok(overwrites) => Ok(
                            ChannelCreateView {
                                kind: attributes.kind->0,
                                name: name->0,
                                parent_id: match parent {
                                    Some(ParentTargetView::Resolved(parent_id)) => parent_id,
                                    _ => None,
                                },
                                topic: match attributes.topic {
                                    None => None,
                                    Some(value) => valued_if_any(value, None),
                                },
                                nsfw: nsfw == Some(true),
                                slowmode_seconds: crate::port::replaced(
                                    0,
                                    wanted_seconds(attributes.slowmode_seconds),
                                ),
                                default_auto_archive_minutes: created_auto_archive(
                                    attributes.default_auto_archive_minutes,
                                ),
                                default_thread_slowmode_seconds: crate::port::replaced(
                                    0,
                                    wanted_seconds(attributes.default_thread_slowmode_seconds),
                                ),
                                overwrites,
                            },
                        ),
                    },
                },
            },
        },
    }
}

/// The channel that a definition wants to be created.
pub fn desired_channel_create_with_catalog(
    attributes: &ChannelAttributes,
    logical_id: &ChannelLogicalId,
    state: &StateFile,
    definition: &DefinitionFile,
    actual: &ActualChannels,
) -> (result: Result<ChannelCreate, ManagementError>)
    ensures
        seen(result) == created_channel(
            logical_id.deep_view(),
            attributes.deep_view(),
            definition.deep_view(),
            state.deep_view(),
            actual.deep_view(),
        ),
{
    validate_channel_creation(logical_id, attributes, definition, state, actual)?;
    let kind: ChannelKind = attributes.kind.unwrap();
    let name: String = resolve_name(&attributes.name, logical_id)?.unwrap();
    let parent_id: Option<ChannelId> = match &attributes.parent {
        None => None,
        Some(value) => match resolve_parent_target(value, logical_id, definition, state)? {
            ParentTarget::Resolved(parent_id) => parent_id,
            ParentTarget::Planned(_) => None,
        },
    };
    let topic: Option<String> = match &attributes.topic {
        None => None,
        Some(value) => value.resolve_optional(None),
    };
    let nsfw: bool = matches!(resolve_bool(&attributes.nsfw)?, Some(true));
    let slowmode_seconds: u16 = match resolve_u16(&attributes.slowmode_seconds) {
        Some(seconds) => seconds,
        None => 0,
    };
    let default_auto_archive_minutes: Option<u16> = match &attributes.default_auto_archive_minutes {
        None => Some(1440),
        Some(value) => value.resolve_optional(Some(1440)),
    };
    let default_thread_slowmode_seconds: u16 = match resolve_u16(&attributes.default_thread_slowmode_seconds) {
        Some(seconds) => seconds,
        None => 0,
    };
    let overwrites: ChannelOverwrites = if matches!(attributes.permissions_sync, Some(true)) {
        let visited: Vec<ChannelLogicalId> = Vec::new();
        assert(visited.deep_view() =~= Seq::empty());
        desired_overwrites_for_channel(logical_id, definition, state, actual, visited)?
    } else {
        apply_overwrite_values(logical_id, attributes, state, OrderedMap::new())?
    };
    Ok(
        ChannelCreate {
            kind,
            name,
            parent_id,
            topic,
            nsfw,
            slowmode_seconds,
            default_auto_archive_minutes,
            default_thread_slowmode_seconds,
            overwrites,
        },
    )
}

/// A channel that shall be created, and the name of its parent.
pub struct CreateDesired {
    pub payload: ChannelCreate,
    pub parent_logical_id: Option<ChannelLogicalId>,
}

/// What a channel that shall be created holds, with the name of its parent.
pub struct CreateDesiredView {
    pub payload: ChannelCreateView,
    pub parent_logical_id: Option<Seq<char>>,
}

impl DeepView for CreateDesired {
    type V = CreateDesiredView;

    open spec fn deep_view(&self) -> CreateDesiredView {
        CreateDesiredView {
            payload: self.payload.deep_view(),
            parent_logical_id: self.parent_logical_id.deep_view(),
        }
    }
}

impl Plain for CreateDesired {
    fn copy(&self) -> (copied: Self) {
        CreateDesired { payload: self.payload.copy(), parent_logical_id: self.parent_logical_id.copy() }
    }

    fn same(&self, other: &Self) -> (equal: bool) {
        self.payload.same(&other.payload) && self.parent_logical_id.same(&other.parent_logical_id)
    }
}

/// Whether a channel is in a catalog.
pub open spec fn is_listed(channels: Seq<ChannelSnapshotView>, id: u64) -> bool {
    exists|i: int| 0 <= i < channels.len() && (#[trigger] channels[i]).id == id
}

/// Whether a channel is in a catalog.
pub fn has_channel(channels: &Vec<ChannelSnapshot>, id: u64) -> (found: bool)
    ensures
        found == is_listed(channels.deep_view(), id),
{
    let mut i: usize = 0;
    while i < channels.len()
        invariant
            i <= channels@.len(),
            forall|k: int| 0 <= k < i ==> (#[trigger] channels.deep_view()[k]).id != id,
        decreases channels@.len() - i,
    {
        if channels[i].id.get() == id {
            assert(channels.deep_view()[i as int].id == id);
            return true;
        }
        i += 1;
    }
    false
}

impl CreateDesiredView {
    /// The channel to be created, with the parent that was created before it, or
    /// why the parent is not known.
    pub open spec fn payload_for(
        self,
        state: StateView,
        catalog: ChannelCatalogView,
        id: Seq<char>,
    ) -> Result<ChannelCreateView, ErrorView> {
        match self.parent_logical_id {
            None => Ok(self.payload),
            Some(parent) => {
                let parent_id = if self.payload.parent_id is Some {
                    self.payload.parent_id
                } else {
                    lookup(state.channels, parent)
                };
                match parent_id {
                    None => Err(
                        ErrorView::InvalidState(
                            "Channel "@ + id + " の親 "@ + parent + " の作成結果が state にありません"@,
                        ),
                    ),
                    Some(parent_id) => if is_listed(catalog.channels, parent_id) {
                        Ok(ChannelCreateView { parent_id: Some(parent_id), ..self.payload })
                    } else {
                        Err(
                            ErrorView::InvalidState(
                                "Channel "@ + id + " の親 "@ + parent + " の Snowflake "@ + decimal(
                                    parent_id as nat,
                                ) + " が Guild から予期せず消失しています"@,
                            ),
                        )
                    },
                }
            },
        }
    }
}

impl CreateDesired {
    /// The channel to be created, with the parent that was created before it.
    pub fn payload_for_apply(
        &self,
        state: &StateFile,
        catalog: &ChannelCatalog,
        logical_id: &ChannelLogicalId,
    ) -> (result: Result<ChannelCreate, ManagementError>)
        ensures
            seen(result) == self.deep_view().payload_for(
                state.deep_view(),
                catalog.deep_view(),
                logical_id.deep_view(),
            ),
    {
        let mut payload: ChannelCreate = self.payload.copy();
        match &self.parent_logical_id {
            None => {},
            Some(parent) => {
                let parent_id: ChannelId = match payload.parent_id {
                    Some(parent_id) => parent_id,
                    None => match state.channels.get(parent) {
                        Some(parent_id) => *parent_id,
                        None => {
                            return Err(
                                ManagementError::InvalidState(
                                    text5(
                                        "Channel ",
                                        logical_id.as_str(),
                                        " の親 ",
                                        parent.as_str(),
                                        " の作成結果が state にありません",
                                    ),
                                ),
                            );
                        },
                    },
                };
                if !has_channel(&catalog.channels, parent_id.get()) {
                    return Err(
                        ManagementError::InvalidState(
                            text7(
                                "Channel ",
                                logical_id.as_str(),
                                " の親 ",
                                parent.as_str(),
                                " の Snowflake ",
                                parent_id.to_text().as_str(),
                                " が Guild から予期せず消失しています",
                            ),
                        ),
                    );
                }
                payload.parent_id = Some(parent_id);
            },
        }
        Ok(payload)
    }
}

} // verus!
