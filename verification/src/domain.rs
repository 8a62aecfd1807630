//! Kinds of resources, and what can go wrong with them.

use vstd::prelude::*;
use vstd::string::*;

use crate::ids::GuildId;
use crate::text::{decimal, decimal_text, text2, text3, text5};
use crate::value::{seen, Plain};

verus! {

/// The version of the definition and state files that is understood.
pub const SCHEMA_VERSION: u32 = 1;

/// What a logical identifier can be bound to.
#[derive(Clone, Copy, Debug, PartialEq, Eq, Hash, Structural)]
pub enum ResourceType {
    Role,
    Channel,
    Member,
}

impl DeepView for ResourceType {
    type V = ResourceType;

    open spec fn deep_view(&self) -> ResourceType {
        *self
    }
}

/// The resource kind that a user wrote.
pub open spec fn resource_type_named(name: Seq<char>) -> Result<ResourceType, ErrorView> {
    if name == "role"@ {
        Ok(ResourceType::Role)
    } else if name == "channel"@ {
        Ok(ResourceType::Channel)
    } else if name == "member"@ {
        Ok(ResourceType::Member)
    } else {
        Err(
            ErrorView::InvalidInputFile(
                "リソース種別 "@ + name + " は role、channel、member のいずれかで指定してください"@,
            ),
        )
    }
}

impl ResourceType {
    /// The name of the kind.
    pub open spec fn chars(self) -> Seq<char> {
        match self {
            ResourceType::Role => "Role"@,
            ResourceType::Channel => "Channel"@,
            ResourceType::Member => "Member"@,
        }
    }

    /// The name of the kind.
    pub fn as_str(self) -> (name: &'static str)
        ensures
            name@ == self.chars(),
    {
        match self {
            ResourceType::Role => "Role",
            ResourceType::Channel => "Channel",
            ResourceType::Member => "Member",
        }
    }

    /// The kind that a user wrote in lower case.
    pub fn parse(name: &str) -> (result: Result<Self, ManagementError>)
        ensures
            seen(result) == resource_type_named(name@),
    {
        let name: String = name.to_owned();
        if name == "role".to_owned() {
            Ok(ResourceType::Role)
        } else if name == "channel".to_owned() {
            Ok(ResourceType::Channel)
        } else if name == "member".to_owned() {
            Ok(ResourceType::Member)
        } else {
            Err(
                ManagementError::InvalidInputFile(
                    text3(
                        "リソース種別 ",
                        name.as_str(),
                        " は role、channel、member のいずれかで指定してください",
                    ),
                ),
            )
        }
    }
}

/// Why an operation was refused.
#[derive(Debug)]
pub enum ManagementError {
    RoleSource(String),
    RoleCatalogPermissionDenied(String),
    RolePermissionDenied(String),
    ChannelSource(String),
    ChannelCatalogPermissionDenied(String),
    ChannelPermissionDenied(String),
    ResourceSource(String),
    SerializeDefinition(String),
    SerializeState(String),
    InvalidState(String),
    InvalidDefinition(String),
    InvalidInputFile(String),
    GuildMismatch { state_guild_id: GuildId, actual_guild_id: GuildId },
    ResourceNotFound { resource_type: ResourceType, discord_id: u64 },
    ResourceTypeMismatch { expected: ResourceType, actual: ResourceType, discord_id: u64 },
    ResourceGuildMismatch {
        resource_type: ResourceType,
        discord_id: u64,
        resource_guild_id: GuildId,
        actual_guild_id: GuildId,
    },
}

/// What an error holds.
pub enum ErrorView {
    RoleSource(Seq<char>),
    RoleCatalogPermissionDenied(Seq<char>),
    RolePermissionDenied(Seq<char>),
    ChannelSource(Seq<char>),
    ChannelCatalogPermissionDenied(Seq<char>),
    ChannelPermissionDenied(Seq<char>),
    ResourceSource(Seq<char>),
    SerializeDefinition(Seq<char>),
    SerializeState(Seq<char>),
    InvalidState(Seq<char>),
    InvalidDefinition(Seq<char>),
    InvalidInputFile(Seq<char>),
    GuildMismatch { state_guild_id: u64, actual_guild_id: u64 },
    ResourceNotFound { resource_type: ResourceType, discord_id: u64 },
    ResourceTypeMismatch { expected: ResourceType, actual: ResourceType, discord_id: u64 },
    ResourceGuildMismatch {
        resource_type: ResourceType,
        discord_id: u64,
        resource_guild_id: u64,
        actual_guild_id: u64,
    },
}

impl DeepView for ManagementError {
    type V = ErrorView;

    open spec fn deep_view(&self) -> ErrorView {
        match self {
            ManagementError::RoleSource(text) => ErrorView::RoleSource(text@),
            ManagementError::RoleCatalogPermissionDenied(text) => ErrorView::RoleCatalogPermissionDenied(text@),
            ManagementError::RolePermissionDenied(text) => ErrorView::RolePermissionDenied(text@),
            ManagementError::ChannelSource(text) => ErrorView::ChannelSource(text@),
            ManagementError::ChannelCatalogPermissionDenied(text) => ErrorView::ChannelCatalogPermissionDenied(text@),
            ManagementError::ChannelPermissionDenied(text) => ErrorView::ChannelPermissionDenied(text@),
            ManagementError::ResourceSource(text) => ErrorView::ResourceSource(text@),
            ManagementError::SerializeDefinition(text) => ErrorView::SerializeDefinition(text@),
            ManagementError::SerializeState(text) => ErrorView::SerializeState(text@),
            ManagementError::InvalidState(text) => ErrorView::InvalidState(text@),
            ManagementError::InvalidDefinition(text) => ErrorView::InvalidDefinition(text@),
            ManagementError::InvalidInputFile(text) => ErrorView::InvalidInputFile(text@),
            ManagementError::GuildMismatch { state_guild_id, actual_guild_id } => ErrorView::GuildMismatch {
                state_guild_id: state_guild_id.deep_view(),
                actual_guild_id: actual_guild_id.deep_view(),
            },
            ManagementError::ResourceNotFound { resource_type, discord_id } => ErrorView::ResourceNotFound {
                resource_type: *resource_type,
                discord_id: *discord_id,
            },
            ManagementError::ResourceTypeMismatch { expected, actual, discord_id } => ErrorView::ResourceTypeMismatch {
                expected: *expected,
                actual: *actual,
                discord_id: *discord_id,
            },
            ManagementError::ResourceGuildMismatch {
                resource_type,
                discord_id,
                resource_guild_id,
                actual_guild_id,
            } => ErrorView::ResourceGuildMismatch {
                resource_type: *resource_type,
                discord_id: *discord_id,
                resource_guild_id: resource_guild_id.deep_view(),
                actual_guild_id: actual_guild_id.deep_view(),
            },
        }
    }
}

impl ErrorView {
    /// What is said of an error.
    pub open spec fn chars(self) -> Seq<char> {
        match self {
            ErrorView::RoleSource(text) => "Discord から Role を取得できません: "@ + text,
            ErrorView::RoleCatalogPermissionDenied(text) => "Discord から Role を取得する権限が不足しています: "@ + text,
            ErrorView::RolePermissionDenied(text) => "Role の操作権限が不足しています: "@ + text,
            ErrorView::ChannelSource(text) => "Discord から Channel を取得できません: "@ + text,
            ErrorView::ChannelCatalogPermissionDenied(text) => "Discord から Channel を取得する権限が不足しています: "@
                + text,
            ErrorView::ChannelPermissionDenied(text) => "Channel の操作権限が不足しています: "@ + text,
            ErrorView::ResourceSource(text) => "Discord から bind 対象を取得できません: "@ + text,
            ErrorView::SerializeDefinition(text) => "定義ファイルを生成できません: "@ + text,
            ErrorView::SerializeState(text) => "state ファイルを生成できません: "@ + text,
            ErrorView::InvalidState(text) => "state ファイルが不正です: "@ + text,
            ErrorView::InvalidDefinition(text) => "定義ファイルが不正です: "@ + text,
            ErrorView::InvalidInputFile(text) => "入力ファイルが不正です: "@ + text,
            ErrorView::GuildMismatch { state_guild_id, actual_guild_id } => "state の Guild "@ + decimal(
                state_guild_id as nat,
            ) + " は実行 Guild "@ + decimal(actual_guild_id as nat) + " と一致しません"@,
            ErrorView::ResourceNotFound { resource_type, discord_id } => resource_type.chars() + " の Discord ID "@
                + decimal(discord_id as nat) + " が見つかりません"@,
            ErrorView::ResourceTypeMismatch { expected, actual, discord_id } => "Discord ID "@ + decimal(
                discord_id as nat,
            ) + " は "@ + expected.chars() + " ではなく "@ + actual.chars() + " です"@,
            ErrorView::ResourceGuildMismatch {
                resource_type,
                discord_id,
                resource_guild_id,
                actual_guild_id,
            } => resource_type.chars() + " の Discord ID "@ + decimal(discord_id as nat) + " は Guild "@ + decimal(
                resource_guild_id as nat,
            ) + " に属し、実行 Guild "@ + decimal(actual_guild_id as nat) + " と一致しません"@,
        }
    }
}

impl ManagementError {
    /// What is said of the error.
    pub fn to_text(&self) -> (text: String)
        ensures
            text@ == self.deep_view().chars(),
    {
        match self {
            ManagementError::RoleSource(text) => text2("Discord から Role を取得できません: ", text.as_str()),
            ManagementError::RoleCatalogPermissionDenied(text) => text2(
                "Discord から Role を取得する権限が不足しています: ",
                text.as_str(),
            ),
            ManagementError::RolePermissionDenied(text) => text2("Role の操作権限が不足しています: ", text.as_str()),
            ManagementError::ChannelSource(text) => text2("Discord から Channel を取得できません: ", text.as_str()),
            ManagementError::ChannelCatalogPermissionDenied(text) => text2(
                "Discord から Channel を取得する権限が不足しています: ",
                text.as_str(),
            ),
            ManagementError::ChannelPermissionDenied(text) => text2(
                "Channel の操作権限が不足しています: ",
                text.as_str(),
            ),
            ManagementError::ResourceSource(text) => text2("Discord から bind 対象を取得できません: ", text.as_str()),
            ManagementError::SerializeDefinition(text) => text2("定義ファイルを生成できません: ", text.as_str()),
            ManagementError::SerializeState(text) => text2("state ファイルを生成できません: ", text.as_str()),
            ManagementError::InvalidState(text) => text2("state ファイルが不正です: ", text.as_str()),
            ManagementError::InvalidDefinition(text) => text2("定義ファイルが不正です: ", text.as_str()),
            ManagementError::InvalidInputFile(text) => text2("入力ファイルが不正です: ", text.as_str()),
            ManagementError::GuildMismatch { state_guild_id, actual_guild_id } => text5(
                "state の Guild ",
                state_guild_id.to_text().as_str(),
                " は実行 Guild ",
                actual_guild_id.to_text().as_str(),
                " と一致しません",
            ),
            ManagementError::ResourceNotFound { resource_type, discord_id } => {
                let mut text: String = text3(
                    resource_type.as_str(),
                    " の Discord ID ",
                    decimal_text(*discord_id).as_str(),
                );
                text.append(" が見つかりません");
                text
            },
            ManagementError::ResourceTypeMismatch { expected, actual, discord_id } => {
                let mut text: String = text5(
                    "Discord ID ",
                    decimal_text(*discord_id).as_str(),
                    " は ",
                    expected.as_str(),
                    " ではなく ",
                );
                text.append(actual.as_str());
                text.append(" です");
                text
            },
            ManagementError::ResourceGuildMismatch {
                resource_type,
                discord_id,
                resource_guild_id,
                actual_guild_id,
            } => {
                let mut text: String = text5(
                    resource_type.as_str(),
                    " の Discord ID ",
                    decimal_text(*discord_id).as_str(),
                    " は Guild ",
                    resource_guild_id.to_text().as_str(),
                );
                text.append(" に属し、実行 Guild ");
                text.append(actual_guild_id.to_text().as_str());
                text.append(" と一致しません");
                text
            },
        }
    }
}

impl Plain for ResourceType {
    fn copy(&self) -> (copied: Self) {
        *self
    }

    fn same(&self, other: &Self) -> (equal: bool) {
        *self == *other
    }
}

} // verus!
