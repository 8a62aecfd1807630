//! Channels in a definition.

use vstd::prelude::*;
use vstd::string::*;

use crate::configuration::permission::{
    first_unknown, known_entries, KnownPermission, PermissionName, PermissionVocabulary,
};
use crate::configuration::role::{later, RoleMode};
use crate::configuration::report::{part, part_path, place_report, report_place, Reported};
use crate::configuration::validation::{check_settings_sets, checked, fault, settings_set_fault, Fault, ValidationError};
use crate::domain::{ErrorView, ManagementError};
use crate::ids::{
    logical_id_fault, parsed_logical_id, ChannelLogicalId, ChannelSettingsSetId, MemberLogicalId, RoleLogicalId,
};
use crate::ordered::{lookup, put, put_all, put_at_end, OrderedKey, OrderedMap};
use crate::text::{
    after_prefix, is_text_before, strip_prefix, text2, text3, text4, text7, text_before, text_order_is_total,
    text_order_is_transitive,
};
use crate::value::{seen, Plain};

verus! {

/// The kinds of channels that are told apart.
#[derive(Clone, Copy, Debug, PartialEq, Eq, Structural)]
pub enum ChannelKind {
    Category,
    Text,
    /// A channel whose attributes are not managed. It is kept so that the
    /// channels in a category are all seen before the category is deleted.
    Unsupported,
}

impl DeepView for ChannelKind {
    type V = ChannelKind;

    open spec fn deep_view(&self) -> ChannelKind {
        *self
    }
}

impl Plain for ChannelKind {
    fn copy(&self) -> (copied: Self) {
        *self
    }

    fn same(&self, other: &Self) -> (equal: bool) {
        *self == *other
    }
}

impl ChannelKind {
    /// The name of the kind.
    pub open spec fn chars(self) -> Seq<char> {
        match self {
            ChannelKind::Category => "category"@,
            ChannelKind::Text => "text"@,
            ChannelKind::Unsupported => "unsupported"@,
        }
    }

    /// The name of the kind.
    pub fn as_str(self) -> (name: &'static str)
        ensures
            name@ == self.chars(),
    {
        match self {
            ChannelKind::Category => "category",
            ChannelKind::Text => "text",
            ChannelKind::Unsupported => "unsupported",
        }
    }
}

/// The kinds of channels that a definition can declare.
#[derive(Clone, Copy, Debug, PartialEq, Eq, Structural)]
pub enum RawChannelKind {
    Category,
    Text,
}

impl RawChannelKind {
    /// The declared kind among all kinds.
    pub open spec fn kind(self) -> ChannelKind {
        match self {
            RawChannelKind::Category => ChannelKind::Category,
            RawChannelKind::Text => ChannelKind::Text,
        }
    }

    /// The declared kind among all kinds.
    pub fn to_kind(self) -> (kind: ChannelKind)
        ensures
            kind == self.kind(),
    {
        match self {
            RawChannelKind::Category => ChannelKind::Category,
            RawChannelKind::Text => ChannelKind::Text,
        }
    }
}

impl DeepView for RawChannelKind {
    type V = ChannelKind;

    open spec fn deep_view(&self) -> ChannelKind {
        self.kind()
    }
}

/// A channel attribute: a value of its own, Discord's default, or nothing.
#[derive(Debug)]
pub enum ChannelValue<T> {
    Value(T),
    Default,
    Clear,
}

impl<T: DeepView> DeepView for ChannelValue<T> {
    type V = ChannelValue<T::V>;

    open spec fn deep_view(&self) -> ChannelValue<T::V> {
        match self {
            ChannelValue::Value(value) => ChannelValue::Value(value.deep_view()),
            ChannelValue::Default => ChannelValue::Default,
            ChannelValue::Clear => ChannelValue::Clear,
        }
    }
}

impl<T: Plain> Plain for ChannelValue<T> {
    fn copy(&self) -> (copied: Self) {
        match self {
            ChannelValue::Value(value) => ChannelValue::Value(value.copy()),
            ChannelValue::Default => ChannelValue::Default,
            ChannelValue::Clear => ChannelValue::Clear,
        }
    }

    fn same(&self, other: &Self) -> (equal: bool) {
        match (self, other) {
            (ChannelValue::Value(left), ChannelValue::Value(right)) => left.same(right),
            (ChannelValue::Default, ChannelValue::Default) => true,
            (ChannelValue::Clear, ChannelValue::Clear) => true,
            _ => false,
        }
    }
}

/// The value that is given, if one is.
pub open spec fn own_value<W>(value: ChannelValue<W>) -> Option<W> {
    match value {
        ChannelValue::Value(value) => Some(value),
        _ => None,
    }
}

/// The value that is given in an attribute, if the attribute is there and gives one.
pub open spec fn given_value<W>(value: Option<ChannelValue<W>>) -> Option<W> {
    match value {
        Some(ChannelValue::Value(value)) => Some(value),
        _ => None,
    }
}

/// What an attribute stands for, given what the default and no value stand for.
pub open spec fn valued<W>(value: ChannelValue<W>, default: W, clear: W) -> W {
    match value {
        ChannelValue::Value(value) => value,
        ChannelValue::Default => default,
        ChannelValue::Clear => clear,
    }
}

/// What an attribute that may be absent stands for, given the default.
pub open spec fn valued_if_any<W>(value: ChannelValue<W>, default: Option<W>) -> Option<W> {
    match value {
        ChannelValue::Value(value) => Some(value),
        ChannelValue::Default => default,
        ChannelValue::Clear => None,
    }
}

/// The value that written markers mean, or what is wrong with them: exactly one is
/// written, and it is true.
pub open spec fn channel_marker<W>(default: Option<bool>, clear: Option<bool>) -> Result<ChannelValue<W>, Seq<char>> {
    if default is Some && clear is None {
        if default->0 {
            Ok(ChannelValue::Default)
        } else {
            Err("default 指定は true である必要があります"@)
        }
    } else if default is None && clear is Some {
        if clear->0 {
            Ok(ChannelValue::Clear)
        } else {
            Err("clear 指定は true である必要があります"@)
        }
    } else {
        Err("default = true または clear = true のいずれか一つを指定してください"@)
    }
}

impl<T: Plain> ChannelValue<T> {
    /// The value that written markers mean.
    pub fn from_markers(default: Option<bool>, clear: Option<bool>) -> (result: Result<Self, &'static str>)
        ensures
            seen(result) == channel_marker::<T::V>(default, clear),
    {
        match (default, clear) {
            (Some(true), None) => Ok(ChannelValue::Default),
            (None, Some(true)) => Ok(ChannelValue::Clear),
            (Some(false), None) => Err("default 指定は true である必要があります"),
            (None, Some(false)) => Err("clear 指定は true である必要があります"),
            _ => Err("default = true または clear = true のいずれか一つを指定してください"),
        }
    }

    /// The value that is given, if one is.
    pub fn as_value(&self) -> (value: Option<&T>)
        ensures
            value.deep_view() == own_value(self.deep_view()),
    {
        match self {
            ChannelValue::Value(value) => Some(value),
            _ => None,
        }
    }

    /// The value that is given, if one is.
    pub fn into_value(self) -> (value: Option<T>)
        ensures
            value.deep_view() == own_value(self.deep_view()),
    {
        match self {
            ChannelValue::Value(value) => Some(value),
            _ => None,
        }
    }

    /// Whether the default is asked for.
    pub fn is_default(&self) -> (answer: bool)
        ensures
            answer == (self.deep_view() is Default),
    {
        matches!(self, ChannelValue::Default)
    }

    /// Whether the attribute shall have no value.
    pub fn is_clear(&self) -> (answer: bool)
        ensures
            answer == (self.deep_view() is Clear),
    {
        matches!(self, ChannelValue::Clear)
    }

    /// The value, the default, or what no value stands for.
    pub fn resolve(&self, default: T, clear: T) -> (value: T)
        ensures
            value.deep_view() == valued(self.deep_view(), default.deep_view(), clear.deep_view()),
    {
        match self {
            ChannelValue::Value(value) => value.copy(),
            ChannelValue::Default => default,
            ChannelValue::Clear => clear,
        }
    }

    /// The value, the default, or none.
    pub fn resolve_optional(&self, default: Option<T>) -> (value: Option<T>)
        ensures
            value.deep_view() == valued_if_any(self.deep_view(), default.deep_view()),
    {
        match self {
            ChannelValue::Value(value) => Some(value.copy()),
            ChannelValue::Default => default,
            ChannelValue::Clear => None,
        }
    }
}

/// For whom a definition overwrites permissions in a channel.
#[derive(Debug)]
pub enum OverwriteTarget {
    Everyone,
    Role(RoleLogicalId),
    Member(MemberLogicalId),
}

/// What an overwrite target holds.
pub enum OverwriteTargetView {
    Everyone,
    Role(Seq<char>),
    Member(Seq<char>),
}

impl DeepView for OverwriteTarget {
    type V = OverwriteTargetView;

    open spec fn deep_view(&self) -> OverwriteTargetView {
        match self {
            OverwriteTarget::Everyone => OverwriteTargetView::Everyone,
            OverwriteTarget::Role(id) => OverwriteTargetView::Role(id.deep_view()),
            OverwriteTarget::Member(id) => OverwriteTargetView::Member(id.deep_view()),
        }
    }
}

impl Plain for OverwriteTarget {
    fn copy(&self) -> (copied: Self) {
        match self {
            OverwriteTarget::Everyone => OverwriteTarget::Everyone,
            OverwriteTarget::Role(id) => OverwriteTarget::Role(id.copy()),
            OverwriteTarget::Member(id) => OverwriteTarget::Member(id.copy()),
        }
    }

    fn same(&self, other: &Self) -> (equal: bool) {
        match (self, other) {
            (OverwriteTarget::Everyone, OverwriteTarget::Everyone) => true,
            (OverwriteTarget::Role(left), OverwriteTarget::Role(right)) => left.same(right),
            (OverwriteTarget::Member(left), OverwriteTarget::Member(right)) => left.same(right),
            _ => false,
        }
    }
}

impl OrderedKey for OverwriteTarget {
    open spec fn before(a: OverwriteTargetView, b: OverwriteTargetView) -> bool {
        match (a, b) {
            (OverwriteTargetView::Everyone, OverwriteTargetView::Everyone) => false,
            (OverwriteTargetView::Everyone, _) => true,
            (_, OverwriteTargetView::Everyone) => false,
            (OverwriteTargetView::Role(x), OverwriteTargetView::Role(y)) => text_before(x, y),
            (OverwriteTargetView::Role(_), OverwriteTargetView::Member(_)) => true,
            (OverwriteTargetView::Member(_), OverwriteTargetView::Role(_)) => false,
            (OverwriteTargetView::Member(x), OverwriteTargetView::Member(y)) => text_before(x, y),
        }
    }

    fn is_before(&self, other: &Self) -> (answer: bool) {
        match (self, other) {
            (OverwriteTarget::Everyone, OverwriteTarget::Everyone) => false,
            (OverwriteTarget::Everyone, _) => true,
            (_, OverwriteTarget::Everyone) => false,
            (OverwriteTarget::Role(x), OverwriteTarget::Role(y)) => is_text_before(x.as_str(), y.as_str()),
            (OverwriteTarget::Role(_), OverwriteTarget::Member(_)) => true,
            (OverwriteTarget::Member(_), OverwriteTarget::Role(_)) => false,
            (OverwriteTarget::Member(x), OverwriteTarget::Member(y)) => is_text_before(x.as_str(), y.as_str()),
        }
    }

    proof fn order_is_total(a: OverwriteTargetView, b: OverwriteTargetView) {
        match (a, b) {
            (OverwriteTargetView::Role(x), OverwriteTargetView::Role(y)) => text_order_is_total(x, y),
            (OverwriteTargetView::Member(x), OverwriteTargetView::Member(y)) => text_order_is_total(x, y),
            _ => {},
        }
    }

    proof fn order_is_transitive(a: OverwriteTargetView, b: OverwriteTargetView, c: OverwriteTargetView) {
        match (a, b, c) {
            (OverwriteTargetView::Role(x), OverwriteTargetView::Role(y), OverwriteTargetView::Role(z)) => {
                text_order_is_transitive(x, y, z)
            },
            (OverwriteTargetView::Member(x), OverwriteTargetView::Member(y), OverwriteTargetView::Member(z)) => {
                text_order_is_transitive(x, y, z)
            },
            _ => {},
        }
    }
}

impl OverwriteTargetView {
    /// The target as a definition writes it.
    pub open spec fn chars(self) -> Seq<char> {
        match self {
            OverwriteTargetView::Everyone => "everyone"@,
            OverwriteTargetView::Role(id) => "role:"@ + id,
            OverwriteTargetView::Member(id) => "member:"@ + id,
        }
    }
}

/// The overwrite target that a text stands for, or what is said of the text.
pub open spec fn overwrite_target_of(text: Seq<char>) -> Result<OverwriteTargetView, Seq<char>> {
    if text == "everyone"@ {
        Ok(OverwriteTargetView::Everyone)
    } else {
        match after_prefix(text, "role:"@) {
            Some(id) => if id == "everyone"@ {
                Err("権限対象 role:everyone は使用できません。everyone を指定してください"@)
            } else {
                match parsed_logical_id(id) {
                    Ok(id) => Ok(OverwriteTargetView::Role(id)),
                    Err(_) => Err(logical_id_fault()),
                }
            },
            None => match after_prefix(text, "member:"@) {
                Some(id) => match parsed_logical_id(id) {
                    Ok(id) => Ok(OverwriteTargetView::Member(id)),
                    Err(_) => Err(logical_id_fault()),
                },
                None => Err(
                    "権限対象 "@ + text
                        + " は everyone、role:<論理 ID>、member:<論理 ID> のいずれかで指定してください"@,
                ),
            },
        }
    }
}

impl OverwriteTarget {
    /// The target as a definition writes it.
    pub fn to_text(&self) -> (text: String)
        ensures
            text@ == self.deep_view().chars(),
    {
        match self {
            OverwriteTarget::Everyone => "everyone".to_owned(),
            OverwriteTarget::Role(id) => text2("role:", id.as_str()),
            OverwriteTarget::Member(id) => text2("member:", id.as_str()),
        }
    }

    /// Reads a target from what a definition writes.
    pub fn parse(text: &str) -> (result: Result<Self, String>)
        ensures
            seen(result) == overwrite_target_of(text@),
    {
        if text.to_owned() == "everyone".to_owned() {
            return Ok(OverwriteTarget::Everyone);
        }
        match strip_prefix(text, "role:") {
            Some(id) => {
                if id == "everyone".to_owned() {
                    return Err(
                        "権限対象 role:everyone は使用できません。everyone を指定してください".to_owned(),
                    );
                }
                match RoleLogicalId::parse(id.as_str()) {
                    Ok(id) => Ok(OverwriteTarget::Role(id)),
                    Err(error) => Err(error.as_str().to_owned()),
                }
            },
            None => match strip_prefix(text, "member:") {
                Some(id) => match MemberLogicalId::parse(id.as_str()) {
                    Ok(id) => Ok(OverwriteTarget::Member(id)),
                    Err(error) => Err(error.as_str().to_owned()),
                },
                None => Err(
                    text3(
                        "権限対象 ",
                        text,
                        " は everyone、role:<論理 ID>、member:<論理 ID> のいずれかで指定してください",
                    ),
                ),
            },
        }
    }
}

/// A text that is written for a target reads back as that target, unless it
/// names the role that every member has.
pub proof fn overwrite_target_round_trip(target: OverwriteTargetView)
    requires
        match target {
            OverwriteTargetView::Everyone => true,
            OverwriteTargetView::Role(id) => crate::ids::is_logical_id(id) && id != "everyone"@,
            OverwriteTargetView::Member(id) => crate::ids::is_logical_id(id),
        },
    ensures
        overwrite_target_of(target.chars()) == Ok::<OverwriteTargetView, Seq<char>>(target),
{
    reveal_strlit("everyone");
    reveal_strlit("role:");
    reveal_strlit("member:");
    let text = target.chars();
    match target {
        OverwriteTargetView::Everyone => {},
        OverwriteTargetView::Role(id) => {
            assert(text[0] == 'r');
            assert(text.take(5) =~= "role:"@);
            assert(text.skip(5) =~= id);
        },
        OverwriteTargetView::Member(id) => {
            assert(text[0] == 'm');
            assert(text.take(5)[0] == 'm');
            assert("role:"@[0] == 'r');
            assert(text.take(7) =~= "member:"@);
            assert(text.skip(7) =~= id);
        },
    }
}

/// What an overwrite does to a permission.
#[derive(Clone, Copy, Debug, PartialEq, Eq, Structural)]
pub enum OverwriteValue {
    Allow,
    Deny,
    Clear,
}

impl DeepView for OverwriteValue {
    type V = OverwriteValue;

    open spec fn deep_view(&self) -> OverwriteValue {
        *self
    }
}

impl Plain for OverwriteValue {
    fn copy(&self) -> (copied: Self) {
        *self
    }

    fn same(&self, other: &Self) -> (equal: bool) {
        *self == *other
    }
}

/// The overwrites that a definition gives for a channel.
pub type OverwritesView = Seq<(OverwriteTargetView, Seq<(Seq<char>, OverwriteValue)>)>;

/// The attributes of a channel, with known permissions.
pub struct ChannelAttributes {
    pub kind: Option<ChannelKind>,
    pub name: Option<ChannelValue<String>>,
    pub parent: Option<ChannelValue<ChannelLogicalId>>,
    pub topic: Option<ChannelValue<String>>,
    pub nsfw: Option<ChannelValue<bool>>,
    pub slowmode_seconds: Option<ChannelValue<u16>>,
    pub default_auto_archive_minutes: Option<ChannelValue<u16>>,
    pub default_thread_slowmode_seconds: Option<ChannelValue<u16>>,
    pub permissions_sync: Option<bool>,
    pub overwrites: OrderedMap<OverwriteTarget, OrderedMap<KnownPermission, OverwriteValue>>,
}

/// The attributes of a channel as a definition writes them.
pub struct RawChannelAttributes {
    pub kind: Option<RawChannelKind>,
    pub name: Option<ChannelValue<String>>,
    pub parent: Option<ChannelValue<ChannelLogicalId>>,
    pub topic: Option<ChannelValue<String>>,
    pub nsfw: Option<ChannelValue<bool>>,
    pub slowmode_seconds: Option<ChannelValue<u16>>,
    pub default_auto_archive_minutes: Option<ChannelValue<u16>>,
    pub default_thread_slowmode_seconds: Option<ChannelValue<u16>>,
    pub permissions_sync: Option<bool>,
    pub overwrites: OrderedMap<OverwriteTarget, OrderedMap<PermissionName, OverwriteValue>>,
}

/// What the attributes of a channel hold.
pub struct ChannelAttributesView {
    pub kind: Option<ChannelKind>,
    pub name: Option<ChannelValue<Seq<char>>>,
    pub parent: Option<ChannelValue<Seq<char>>>,
    pub topic: Option<ChannelValue<Seq<char>>>,
    pub nsfw: Option<ChannelValue<bool>>,
    pub slowmode_seconds: Option<ChannelValue<u16>>,
    pub default_auto_archive_minutes: Option<ChannelValue<u16>>,
    pub default_thread_slowmode_seconds: Option<ChannelValue<u16>>,
    pub permissions_sync: Option<bool>,
    pub overwrites: OverwritesView,
}

impl DeepView for ChannelAttributes {
    type V = ChannelAttributesView;

    open spec fn deep_view(&self) -> ChannelAttributesView {
        ChannelAttributesView {
            kind: self.kind,
            name: self.name.deep_view(),
            parent: self.parent.deep_view(),
            topic: self.topic.deep_view(),
            nsfw: self.nsfw.deep_view(),
            slowmode_seconds: self.slowmode_seconds.deep_view(),
            default_auto_archive_minutes: self.default_auto_archive_minutes.deep_view(),
            default_thread_slowmode_seconds: self.default_thread_slowmode_seconds.deep_view(),
            permissions_sync: self.permissions_sync,
            overwrites: self.overwrites.deep_view(),
        }
    }
}

impl DeepView for RawChannelAttributes {
    type V = ChannelAttributesView;

    open spec fn deep_view(&self) -> ChannelAttributesView {
        ChannelAttributesView {
            kind: self.kind.deep_view(),
            name: self.name.deep_view(),
            parent: self.parent.deep_view(),
            topic: self.topic.deep_view(),
            nsfw: self.nsfw.deep_view(),
            slowmode_seconds: self.slowmode_seconds.deep_view(),
            default_auto_archive_minutes: self.default_auto_archive_minutes.deep_view(),
            default_thread_slowmode_seconds: self.default_thread_slowmode_seconds.deep_view(),
            permissions_sync: self.permissions_sync,
            overwrites: self.overwrites.deep_view(),
        }
    }
}

impl Plain for ChannelAttributes {
    fn copy(&self) -> (copied: Self) {
        ChannelAttributes {
            kind: self.kind,
            name: self.name.copy(),
            parent: self.parent.copy(),
            topic: self.topic.copy(),
            nsfw: self.nsfw.copy(),
            slowmode_seconds: self.slowmode_seconds.copy(),
            default_auto_archive_minutes: self.default_auto_archive_minutes.copy(),
            default_thread_slowmode_seconds: self.default_thread_slowmode_seconds.copy(),
            permissions_sync: self.permissions_sync,
            overwrites: self.overwrites.copy(),
        }
    }

    fn same(&self, other: &Self) -> (equal: bool) {
        self.kind == other.kind && self.name.same(&other.name) && self.parent.same(&other.parent) && self.topic.same(
            &other.topic,
        ) && self.nsfw.same(&other.nsfw) && self.slowmode_seconds.same(&other.slowmode_seconds)
            && self.default_auto_archive_minutes.same(&other.default_auto_archive_minutes)
            && self.default_thread_slowmode_seconds.same(&other.default_thread_slowmode_seconds)
            && self.permissions_sync.same(&other.permissions_sync) && self.overwrites.same(&other.overwrites)
    }
}

/// Overwrites, overridden permission by permission by later ones.
pub open spec fn merged_overwrites(first: OverwritesView, after: OverwritesView) -> OverwritesView
    decreases after.len(),
{
    if after.len() == 0 {
        first
    } else {
        let present = match lookup(first, after[0].0) {
            Some(permissions) => permissions,
            None => Seq::empty(),
        };
        merged_overwrites(
            put::<OverwriteTarget, Seq<(Seq<char>, OverwriteValue)>>(
                first,
                after[0].0,
                put_all::<KnownPermission, OverwriteValue>(present, after[0].1),
            ),
            after.drop_first(),
        )
    }
}

/// Of two faults the first that there is.
pub open spec fn first_fault(a: Option<Fault>, b: Option<Fault>) -> Option<Fault> {
    if a is Some {
        a
    } else {
        b
    }
}

/// What is wrong with asking for the default or for no value.
pub open spec fn marker_fault<W>(
    value: Option<ChannelValue<W>>,
    attribute: Seq<char>,
    allow_default: bool,
    allow_clear: bool,
) -> Option<Fault> {
    match value {
        Some(ChannelValue::Default) => if allow_default {
            None
        } else {
            Some(fault("invalid_marker"@, attribute + " に default は指定できません"@))
        },
        Some(ChannelValue::Clear) => if allow_clear {
            None
        } else {
            Some(fault("invalid_marker"@, attribute + " は解除できません"@))
        },
        _ => None,
    }
}

/// What is wrong with the length of a text.
pub open spec fn length_fault(
    value: Option<ChannelValue<Seq<char>>>,
    least: nat,
    most: nat,
    message: Seq<char>,
) -> Option<Fault> {
    match given_value(value) {
        Some(text) => if least <= text.len() <= most {
            None
        } else {
            Some(fault("length"@, message))
        },
        None => None,
    }
}

/// What is wrong with a number of seconds.
pub open spec fn seconds_fault(value: Option<ChannelValue<u16>>, message: Seq<char>) -> Option<Fault> {
    match given_value(value) {
        Some(seconds) => if seconds <= 21600 {
            None
        } else {
            Some(fault("range"@, message))
        },
        None => None,
    }
}

/// What is wrong with the minutes after which a thread is archived.
pub open spec fn auto_archive_fault(value: Option<ChannelValue<u16>>) -> Option<Fault> {
    match given_value(value) {
        Some(minutes) => if minutes == 60 || minutes == 1440 || minutes == 4320 || minutes == 10080 {
            None
        } else {
            Some(
                fault(
                    "allowed_values"@,
                    "default_auto_archive_minutes は60、1440、4320、10080のいずれかで指定してください"@,
                ),
            )
        },
        None => None,
    }
}

/// The first channel overwrite target with a permission that is not known, and that permission.
pub open spec fn first_unknown_overwrite(
    overwrites: OverwritesView,
    known: Seq<(Seq<char>, ())>,
) -> Option<(OverwriteTargetView, Seq<char>)>
    decreases overwrites.len(),
{
    if overwrites.len() == 0 {
        None
    } else {
        match first_unknown(overwrites[0].1, known) {
            Some(name) => Some((overwrites[0].0, name)),
            None => first_unknown_overwrite(overwrites.drop_first(), known),
        }
    }
}

impl ChannelAttributesView {
    /// No attribute at all.
    pub open spec fn none() -> ChannelAttributesView {
        ChannelAttributesView {
            kind: None,
            name: None,
            parent: None,
            topic: None,
            nsfw: None,
            slowmode_seconds: None,
            default_auto_archive_minutes: None,
            default_thread_slowmode_seconds: None,
            permissions_sync: None,
            overwrites: Seq::empty(),
        }
    }

    /// Whether no attribute is given.
    pub open spec fn is_empty(self) -> bool {
        &&& self.kind is None
        &&& self.name is None
        &&& self.parent is None
        &&& self.topic is None
        &&& self.nsfw is None
        &&& self.slowmode_seconds is None
        &&& self.default_auto_archive_minutes is None
        &&& self.default_thread_slowmode_seconds is None
        &&& self.permissions_sync is None
        &&& self.overwrites.len() == 0
    }

    /// These attributes, overridden by later ones.
    pub open spec fn merged(self, after: ChannelAttributesView) -> ChannelAttributesView {
        ChannelAttributesView {
            kind: later(self.kind, after.kind),
            name: later(self.name, after.name),
            parent: later(self.parent, after.parent),
            topic: later(self.topic, after.topic),
            nsfw: later(self.nsfw, after.nsfw),
            slowmode_seconds: later(self.slowmode_seconds, after.slowmode_seconds),
            default_auto_archive_minutes: later(
                self.default_auto_archive_minutes,
                after.default_auto_archive_minutes,
            ),
            default_thread_slowmode_seconds: later(
                self.default_thread_slowmode_seconds,
                after.default_thread_slowmode_seconds,
            ),
            permissions_sync: later(self.permissions_sync, after.permissions_sync),
            overwrites: merged_overwrites(self.overwrites, after.overwrites),
        }
    }

    /// Whether an attribute is given that only a text channel has.
    pub open spec fn has_text_attributes(self) -> bool {
        ||| self.parent is Some
        ||| self.topic is Some
        ||| self.nsfw is Some
        ||| self.slowmode_seconds is Some
        ||| self.default_auto_archive_minutes is Some
        ||| self.default_thread_slowmode_seconds is Some
    }

    /// What is wrong with the attributes together, once the kind is known.
    pub open spec fn kind_fault(self, id: Seq<char>) -> Option<ErrorView> {
        match self.kind {
            None => None,
            Some(kind) => if kind == ChannelKind::Category && self.has_text_attributes() {
                Some(ErrorView::InvalidDefinition("Category "@ + id + " には Text 専用属性を指定できません"@))
            } else if kind == ChannelKind::Text && self.parent is Some && self.parent->0 is Default {
                Some(
                    ErrorView::InvalidDefinition(
                        "Text Channel "@ + id + " の parent に default は指定できません"@,
                    ),
                )
            } else if self.permissions_sync == Some(true) && self.overwrites.len() > 0 {
                Some(
                    ErrorView::InvalidDefinition(
                        "Channel "@ + id + " の permissions_sync と個別 Overwrite は併用できません"@,
                    ),
                )
            } else if self.permissions_sync == Some(true) && kind == ChannelKind::Category {
                Some(
                    ErrorView::InvalidDefinition("Category "@ + id + " には permissions_sync を指定できません"@),
                )
            } else {
                None
            },
        }
    }

    /// What is wrong with the name.
    pub open spec fn name_fault(self) -> Option<Fault> {
        first_fault(
            length_fault(self.name, 1, 100, "name は1文字以上かつ100文字以内で指定してください"@),
            marker_fault(self.name, "name"@, false, false),
        )
    }

    /// What is wrong with the parent.
    pub open spec fn parent_fault(self) -> Option<Fault> {
        marker_fault(self.parent, "parent"@, false, true)
    }

    /// What is wrong with the topic.
    pub open spec fn topic_fault(self) -> Option<Fault> {
        length_fault(self.topic, 0, 1024, "topic は1024文字以内で指定してください"@)
    }

    /// What is wrong with the mark for adults.
    pub open spec fn nsfw_fault(self) -> Option<Fault> {
        marker_fault(self.nsfw, "nsfw"@, true, false)
    }

    /// What is wrong with the pause between messages.
    pub open spec fn slowmode_fault(self) -> Option<Fault> {
        seconds_fault(self.slowmode_seconds, "slowmode_seconds は0から21600の範囲で指定してください"@)
    }

    /// What is wrong with the pause between messages of threads.
    pub open spec fn thread_slowmode_fault(self) -> Option<Fault> {
        seconds_fault(
            self.default_thread_slowmode_seconds,
            "default_thread_slowmode_seconds は0から21600の範囲で指定してください"@,
        )
    }

    /// Whether no single attribute breaks a rule.
    pub open spec fn breaks_nothing(self) -> bool {
        &&& self.name_fault() is None
        &&& self.parent_fault() is None
        &&& self.topic_fault() is None
        &&& self.nsfw_fault() is None
        &&& self.slowmode_fault() is None
        &&& auto_archive_fault(self.default_auto_archive_minutes) is None
        &&& self.thread_slowmode_fault() is None
    }

    /// What is said of the first attributes.
    pub open spec fn head_report(self, path: Seq<char>) -> Seq<char> {
        place_report(part(path, "name"@), self.name_fault()) + place_report(
            part(path, "parent"@),
            self.parent_fault(),
        ) + place_report(part(path, "topic"@), self.topic_fault()) + place_report(
            part(path, "nsfw"@),
            self.nsfw_fault(),
        )
    }

    /// What is said of single attributes.
    pub open spec fn report(self, path: Seq<char>) -> Seq<char> {
        self.head_report(path) + place_report(part(path, "slowmode_seconds"@), self.slowmode_fault()) + place_report(
            part(path, "default_auto_archive_minutes"@),
            auto_archive_fault(self.default_auto_archive_minutes),
        ) + place_report(part(path, "default_thread_slowmode_seconds"@), self.thread_slowmode_fault())
    }

    /// The attributes with known permissions.
    pub open spec fn resolved(
        self,
        known: Seq<(Seq<char>, ())>,
        id: Seq<char>,
    ) -> Result<ChannelAttributesView, ErrorView> {
        match first_unknown_overwrite(self.overwrites, known) {
            Some((subject, name)) => Err(
                ErrorView::InvalidDefinition(
                    "Channel "@ + id + " の "@ + subject.chars() + " に未知の権限 "@ + name
                        + " が指定されています"@,
                ),
            ),
            None => Ok(self),
        }
    }
}

/// Checks that the default or no value is asked for only where it may be.
pub fn validate_channel_markers<T: Plain>(
    value: &Option<ChannelValue<T>>,
    attribute: &str,
    allow_default: bool,
    allow_clear: bool,
) -> (result: Result<(), ValidationError>)
    ensures
        seen(result) == checked(marker_fault(value.deep_view(), attribute@, allow_default, allow_clear)),
{
    match value {
        Some(ChannelValue::Default) => if allow_default {
            Ok(())
        } else {
            Err(
                ValidationError::new(
                    "invalid_marker",
                    text2(attribute, " に default は指定できません").as_str(),
                ),
            )
        },
        Some(ChannelValue::Clear) => if allow_clear {
            Ok(())
        } else {
            Err(ValidationError::new("invalid_marker", text2(attribute, " は解除できません").as_str()))
        },
        _ => Ok(()),
    }
}

fn validate_length(value: &Option<ChannelValue<String>>, least: usize, most: usize, message: &str) -> (result: Result<
    (),
    ValidationError,
>)
    ensures
        seen(result) == checked(length_fault(value.deep_view(), least as nat, most as nat, message@)),
{
    match value {
        Some(ChannelValue::Value(text)) => {
            let length: usize = text.as_str().unicode_len();
            if least <= length && length <= most {
                Ok(())
            } else {
                Err(ValidationError::new("length", message))
            }
        },
        _ => Ok(()),
    }
}

fn validate_seconds(value: &Option<ChannelValue<u16>>, message: &str) -> (result: Result<(), ValidationError>)
    ensures
        seen(result) == checked(seconds_fault(value.deep_view(), message@)),
{
    match value {
        Some(ChannelValue::Value(seconds)) => if *seconds <= 21600 {
            Ok(())
        } else {
            Err(ValidationError::new("range", message))
        },
        _ => Ok(()),
    }
}

/// Checks the minutes after which a thread is archived.
pub fn validate_channel_auto_archive(value: &Option<ChannelValue<u16>>) -> (result: Result<(), ValidationError>)
    ensures
        seen(result) == checked(auto_archive_fault(value.deep_view())),
{
    match value {
        Some(ChannelValue::Value(minutes)) => {
            let minutes: u16 = *minutes;
            if minutes == 60 || minutes == 1440 || minutes == 4320 || minutes == 10080 {
                Ok(())
            } else {
                Err(
                    ValidationError::new(
                        "allowed_values",
                        "default_auto_archive_minutes は60、1440、4320、10080のいずれかで指定してください",
                    ),
                )
            }
        },
        _ => Ok(()),
    }
}

/// The same overwrites with known permissions, or the first that is not known.
pub fn resolve_overwrites(
    overwrites: &OrderedMap<OverwriteTarget, OrderedMap<PermissionName, OverwriteValue>>,
    logical_id: &ChannelLogicalId,
    vocabulary: &PermissionVocabulary,
) -> (result: Result<OrderedMap<OverwriteTarget, OrderedMap<KnownPermission, OverwriteValue>>, ManagementError>)
    ensures
        seen(result) == match first_unknown_overwrite(overwrites.deep_view(), vocabulary.deep_view()) {
            Some((subject, name)) => Err(
                ErrorView::InvalidDefinition(
                    "Channel "@ + logical_id.deep_view() + " の "@ + subject.chars() + " に未知の権限 "@ + name
                        + " が指定されています"@,
                ),
            ),
            None => Ok(overwrites.deep_view()),
        },
{
    let mut resolved: OrderedMap<OverwriteTarget, OrderedMap<KnownPermission, OverwriteValue>> = OrderedMap::new();
    let ghost all = overwrites.deep_view();
    let ghost known = vocabulary.deep_view();
    let mut i: usize = 0;
    assert(all.skip(0) =~= all);
    assert(all.take(0) =~= Seq::empty());
    while i < overwrites.len()
        invariant
            i <= all.len(),
            all == overwrites.deep_view(),
            known == vocabulary.deep_view(),
            resolved.deep_view() == all.take(i as int),
            first_unknown_overwrite(all, known) == first_unknown_overwrite(all.skip(i as int), known),
        decreases all.len() - i,
    {
        assert(all.skip(i as int)[0] == all[i as int]);
        assert(all.skip(i as int).drop_first() =~= all.skip(i + 1));
        match known_entries(overwrites.value_at(i), vocabulary) {
            Err(name) => {
                return Err(
                    ManagementError::InvalidDefinition(
                        text7(
                            "Channel ",
                            logical_id.as_str(),
                            " の ",
                            overwrites.key_at(i).to_text().as_str(),
                            " に未知の権限 ",
                            name.as_str(),
                            " が指定されています",
                        ),
                    ),
                );
            },
            Ok(permissions) => {
                let _n: usize = overwrites.len();
                proof {
                    put_at_end::<OverwriteTarget, Seq<(Seq<char>, OverwriteValue)>>(
                        all.take(i as int),
                        all[i as int].0,
                        all[i as int].1,
                    );
                    assert(all.take(i + 1) =~= all.take(i as int).push(all[i as int]));
                }
                resolved.insert(overwrites.key_at(i).copy(), permissions);
            },
        }
        i += 1;
    }
    assert(all.take(i as int) =~= all);
    Ok(resolved)
}

impl RawChannelAttributes {
    /// No attribute at all.
    pub fn none() -> (attributes: Self)
        ensures
            attributes.deep_view() == ChannelAttributesView::none(),
    {
        RawChannelAttributes {
            kind: None,
            name: None,
            parent: None,
            topic: None,
            nsfw: None,
            slowmode_seconds: None,
            default_auto_archive_minutes: None,
            default_thread_slowmode_seconds: None,
            permissions_sync: None,
            overwrites: OrderedMap::new(),
        }
    }

    fn validate_name(&self) -> (result: Result<(), ValidationError>)
        ensures
            seen(result) == checked(self.deep_view().name_fault()),
    {
        validate_length(&self.name, 1, 100, "name は1文字以上かつ100文字以内で指定してください")?;
        validate_channel_markers(&self.name, "name", false, false)
    }

    fn report_head(&self, path: &str) -> (report: String)
        ensures
            report@ == self.deep_view().head_report(path@),
    {
        let name: String = report_place(part_path(path, "name").as_str(), self.validate_name());
        let parent: String = report_place(
            part_path(path, "parent").as_str(),
            validate_channel_markers(&self.parent, "parent", false, true),
        );
        let topic: String = report_place(
            part_path(path, "topic").as_str(),
            validate_length(&self.topic, 0, 1024, "topic は1024文字以内で指定してください"),
        );
        let nsfw: String = report_place(
            part_path(path, "nsfw").as_str(),
            validate_channel_markers(&self.nsfw, "nsfw", true, false),
        );
        text4(name.as_str(), parent.as_str(), topic.as_str(), nsfw.as_str())
    }

    /// Checks each attribute by itself.
    pub fn report(&self, path: &str) -> (report: String)
        ensures
            report@ == self.deep_view().report(path@),
    {
        let head: String = self.report_head(path);
        let slowmode: String = report_place(
            part_path(path, "slowmode_seconds").as_str(),
            validate_seconds(&self.slowmode_seconds, "slowmode_seconds は0から21600の範囲で指定してください"),
        );
        let archive: String = report_place(
            part_path(path, "default_auto_archive_minutes").as_str(),
            validate_channel_auto_archive(&self.default_auto_archive_minutes),
        );
        let thread_slowmode: String = report_place(
            part_path(path, "default_thread_slowmode_seconds").as_str(),
            validate_seconds(
                &self.default_thread_slowmode_seconds,
                "default_thread_slowmode_seconds は0から21600の範囲で指定してください",
            ),
        );
        text4(head.as_str(), slowmode.as_str(), archive.as_str(), thread_slowmode.as_str())
    }

    /// The attributes with known permissions.
    pub fn resolve(self, logical_id: &ChannelLogicalId, vocabulary: &PermissionVocabulary) -> (result: Result<
        ChannelAttributes,
        ManagementError,
    >)
        ensures
            seen(result) == self.deep_view().resolved(vocabulary.deep_view(), logical_id.deep_view()),
    {
        let overwrites: OrderedMap<OverwriteTarget, OrderedMap<KnownPermission, OverwriteValue>> =
            resolve_overwrites(&self.overwrites, logical_id, vocabulary)?;
        let kind: Option<ChannelKind> = match self.kind {
            Some(kind) => Some(kind.to_kind()),
            None => None,
        };
        Ok(
            ChannelAttributes {
                kind,
                name: self.name,
                parent: self.parent,
                topic: self.topic,
                nsfw: self.nsfw,
                slowmode_seconds: self.slowmode_seconds,
                default_auto_archive_minutes: self.default_auto_archive_minutes,
                default_thread_slowmode_seconds: self.default_thread_slowmode_seconds,
                permissions_sync: self.permissions_sync,
                overwrites,
            },
        )
    }
}

fn merge_overwrites(
    first: &mut OrderedMap<OverwriteTarget, OrderedMap<KnownPermission, OverwriteValue>>,
    after: &OrderedMap<OverwriteTarget, OrderedMap<KnownPermission, OverwriteValue>>,
)
    ensures
        final(first).deep_view() == merged_overwrites(old(first).deep_view(), after.deep_view()),
{
    let mut i: usize = 0;
    let ghost all = after.deep_view();
    assert(all.skip(0) =~= all);
    while i < after.len()
        invariant
            i <= all.len(),
            all == after.deep_view(),
            merged_overwrites(first.deep_view(), all.skip(i as int)) == merged_overwrites(
                old(first).deep_view(),
                all,
            ),
        decreases all.len() - i,
    {
        assert(all.skip(i as int)[0] == all[i as int]);
        assert(all.skip(i as int).drop_first() =~= all.skip(i + 1));
        let mut permissions: OrderedMap<KnownPermission, OverwriteValue> = match first.get(after.key_at(i)) {
            Some(permissions) => permissions.copy(),
            None => OrderedMap::new(),
        };
        permissions.extend(after.value_at(i));
        first.insert(after.key_at(i).copy(), permissions);
        i += 1;
    }
    assert(all.skip(i as int) =~= Seq::empty());
}

impl ChannelAttributes {
    /// No attribute at all.
    pub fn none() -> (attributes: Self)
        ensures
            attributes.deep_view() == ChannelAttributesView::none(),
    {
        ChannelAttributes {
            kind: None,
            name: None,
            parent: None,
            topic: None,
            nsfw: None,
            slowmode_seconds: None,
            default_auto_archive_minutes: None,
            default_thread_slowmode_seconds: None,
            permissions_sync: None,
            overwrites: OrderedMap::new(),
        }
    }

    /// Overrides these attributes with later ones.
    pub fn merge(&mut self, later: &Self)
        ensures
            final(self).deep_view() == old(self).deep_view().merged(later.deep_view()),
    {
        if later.kind.is_some() {
            self.kind = later.kind;
        }
        if later.name.is_some() {
            self.name = later.name.copy();
        }
        if later.parent.is_some() {
            self.parent = later.parent.copy();
        }
        if later.topic.is_some() {
            self.topic = later.topic.copy();
        }
        if later.nsfw.is_some() {
            self.nsfw = later.nsfw.copy();
        }
        if later.slowmode_seconds.is_some() {
            self.slowmode_seconds = later.slowmode_seconds.copy();
        }
        if later.default_auto_archive_minutes.is_some() {
            self.default_auto_archive_minutes = later.default_auto_archive_minutes.copy();
        }
        if later.default_thread_slowmode_seconds.is_some() {
            self.default_thread_slowmode_seconds = later.default_thread_slowmode_seconds.copy();
        }
        if later.permissions_sync.is_some() {
            self.permissions_sync = later.permissions_sync;
        }
        merge_overwrites(&mut self.overwrites, &later.overwrites);
    }

    /// Checks the attributes together, once the kind is known.
    pub fn validate_for_kind(&self, logical_id: &ChannelLogicalId) -> (result: Result<(), ManagementError>)
        ensures
            seen(result) == match self.deep_view().kind_fault(logical_id.deep_view()) {
                Some(error) => Err(error),
                None => Ok(()),
            },
    {
        let kind: ChannelKind = match self.kind {
            None => {
                return Ok(());
            },
            Some(kind) => kind,
        };
        let id: &str = logical_id.as_str();
        if kind == ChannelKind::Category && (self.parent.is_some() || self.topic.is_some() || self.nsfw.is_some()
            || self.slowmode_seconds.is_some() || self.default_auto_archive_minutes.is_some()
            || self.default_thread_slowmode_seconds.is_some()) {
            return Err(
                ManagementError::InvalidDefinition(text3("Category ", id, " には Text 専用属性を指定できません")),
            );
        }
        if kind == ChannelKind::Text && matches!(self.parent, Some(ChannelValue::Default)) {
            return Err(
                ManagementError::InvalidDefinition(
                    text3("Text Channel ", id, " の parent に default は指定できません"),
                ),
            );
        }
        let synced: bool = matches!(self.permissions_sync, Some(true));
        if synced && !self.overwrites.is_empty() {
            return Err(
                ManagementError::InvalidDefinition(
                    text3("Channel ", id, " の permissions_sync と個別 Overwrite は併用できません"),
                ),
            );
        }
        if synced && kind == ChannelKind::Category {
            return Err(
                ManagementError::InvalidDefinition(
                    text3("Category ", id, " には permissions_sync を指定できません"),
                ),
            );
        }
        Ok(())
    }

    /// Whether no attribute is given.
    pub fn is_empty(&self) -> (empty: bool)
        ensures
            empty == self.deep_view().is_empty(),
    {
        self.kind.is_none() && self.name.is_none() && self.parent.is_none() && self.topic.is_none()
            && self.nsfw.is_none() && self.slowmode_seconds.is_none() && self.default_auto_archive_minutes.is_none()
            && self.default_thread_slowmode_seconds.is_none() && self.permissions_sync.is_none()
            && self.overwrites.is_empty()
    }
}

/// Whether a declared channel, message set or thread should exist.
#[derive(Clone, Copy, Debug, PartialEq, Eq, Structural)]
pub enum Ensure {
    Present,
    Absent,
}

impl DeepView for Ensure {
    type V = Ensure;

    open spec fn deep_view(&self) -> Ensure {
        *self
    }
}

/// A channel as a definition writes it.
pub struct RawChannelDefinition {
    pub mode: RoleMode,
    pub ensure: Option<Ensure>,
    pub settings_sets: Vec<ChannelSettingsSetId>,
    pub attributes: RawChannelAttributes,
}

/// What a written channel holds.
pub struct RawChannelDefinitionView {
    pub mode: RoleMode,
    pub ensure: Option<Ensure>,
    pub settings_sets: Seq<Seq<char>>,
    pub attributes: ChannelAttributesView,
}

impl DeepView for RawChannelDefinition {
    type V = RawChannelDefinitionView;

    open spec fn deep_view(&self) -> RawChannelDefinitionView {
        RawChannelDefinitionView {
            mode: self.mode,
            ensure: self.ensure,
            settings_sets: self.settings_sets.deep_view(),
            attributes: self.attributes.deep_view(),
        }
    }
}

/// A channel that a definition declares.
pub enum ChannelDefinition {
    Managed { attributes: ChannelAttributes },
    Reference,
    Absent,
}

/// What a declared channel holds.
pub enum ChannelDefinitionView {
    Managed { attributes: ChannelAttributesView },
    Reference,
    Absent,
}

impl DeepView for ChannelDefinition {
    type V = ChannelDefinitionView;

    open spec fn deep_view(&self) -> ChannelDefinitionView {
        match self {
            ChannelDefinition::Managed { attributes } => ChannelDefinitionView::Managed {
                attributes: attributes.deep_view(),
            },
            ChannelDefinition::Reference => ChannelDefinitionView::Reference,
            ChannelDefinition::Absent => ChannelDefinitionView::Absent,
        }
    }
}

impl ChannelDefinitionView {
    /// The attributes of the channel.
    pub open spec fn attributes(self) -> ChannelAttributesView {
        match self {
            ChannelDefinitionView::Managed { attributes } => attributes,
            _ => ChannelAttributesView::none(),
        }
    }
}

/// What the settings sets from a place on add up to: the attributes, and the
/// kind with the last set that gave it. Two sets may not give different kinds.
pub open spec fn composed_sets(
    id: Seq<char>,
    sets: Seq<Seq<char>>,
    declared: Seq<(Seq<char>, ChannelAttributesView)>,
    i: int,
    attributes: ChannelAttributesView,
    kind: Option<(ChannelKind, Seq<char>)>,
) -> Result<(ChannelAttributesView, Option<(ChannelKind, Seq<char>)>), ErrorView>
    decreases sets.len() - i,
{
    if i < 0 || i >= sets.len() {
        Ok((attributes, kind))
    } else {
        match lookup(declared, sets[i]) {
            None => composed_sets(id, sets, declared, i + 1, attributes, kind),
            Some(settings) => match (settings.kind, kind) {
                (Some(given), Some((known, by))) => if given != known {
                    Err(
                        ErrorView::InvalidDefinition(
                            "Channel "@ + id + " の設定セット "@ + sets[i] + " の type "@ + given.chars()
                                + " は設定セット "@ + by + " の type と一致しません"@,
                        ),
                    )
                } else {
                    composed_sets(
                        id,
                        sets,
                        declared,
                        i + 1,
                        attributes.merged(settings),
                        Some((given, sets[i])),
                    )
                },
                (Some(given), None) => composed_sets(
                    id,
                    sets,
                    declared,
                    i + 1,
                    attributes.merged(settings),
                    Some((given, sets[i])),
                ),
                (None, _) => composed_sets(id, sets, declared, i + 1, attributes.merged(settings), kind),
            },
        }
    }
}

impl RawChannelDefinitionView {
    /// The attributes of the channel: those of its settings sets in order, then its own.
    pub open spec fn composed(
        self,
        id: Seq<char>,
        settings_sets: Seq<(Seq<char>, ChannelAttributesView)>,
        known: Seq<(Seq<char>, ())>,
    ) -> Result<ChannelAttributesView, ErrorView> {
        match settings_set_fault("Channel "@, id, self.settings_sets, settings_sets, 0) {
            Some(error) => Err(error),
            None => match composed_sets(
                id,
                self.settings_sets,
                settings_sets,
                0,
                ChannelAttributesView::none(),
                None,
            ) {
                Err(error) => Err(error),
                Ok((attributes, kind)) => match self.attributes.resolved(known, id) {
                    Err(error) => Err(error),
                    Ok(direct) => match (direct.kind, kind) {
                        (Some(given), Some((declared, by))) => if given != declared {
                            Err(
                                ErrorView::InvalidDefinition(
                                    "Channel "@ + id + " の直接指定 type "@ + given.chars() + " は設定セット "@ + by
                                        + " の type と一致しません"@,
                                ),
                            )
                        } else {
                            Ok(attributes.merged(direct))
                        },
                        _ => Ok(attributes.merged(direct)),
                    },
                },
            },
        }
    }

    /// What the written channel declares.
    pub open spec fn parsed(
        self,
        id: Seq<char>,
        settings_sets: Seq<(Seq<char>, ChannelAttributesView)>,
        known: Seq<(Seq<char>, ())>,
    ) -> Result<ChannelDefinitionView, ErrorView> {
        match self.composed(id, settings_sets, known) {
            Err(error) => Err(error),
            Ok(attributes) => match attributes.kind_fault(id) {
                Some(error) => Err(error),
                None => {
                    let bare = self.settings_sets.len() == 0 && attributes.is_empty();
                    if self.ensure == Some(Ensure::Absent) {
                        if self.mode == RoleMode::Managed && bare {
                            Ok(ChannelDefinitionView::Absent)
                        } else {
                            Err(
                                ErrorView::InvalidDefinition(
                                    "削除宣言 Channel "@ + id + " には mode や管理属性を指定できません"@,
                                ),
                            )
                        }
                    } else if self.mode == RoleMode::Reference {
                        if self.ensure is None && bare {
                            Ok(ChannelDefinitionView::Reference)
                        } else {
                            Err(
                                ErrorView::InvalidDefinition(
                                    "参照専用 Channel "@ + id
                                        + " には ensure や管理属性を指定できません"@,
                                ),
                            )
                        }
                    } else {
                        Ok(ChannelDefinitionView::Managed { attributes })
                    }
                },
            },
        }
    }
}

fn compose_sets(
    id: &str,
    sets: &Vec<ChannelSettingsSetId>,
    declared: &OrderedMap<ChannelSettingsSetId, ChannelAttributes>,
) -> (result: Result<(ChannelAttributes, Option<(ChannelKind, String)>), ManagementError>)
    ensures
        seen(result) == composed_sets(
            id@,
            sets.deep_view(),
            declared.deep_view(),
            0,
            ChannelAttributesView::none(),
            None,
        ),
{
    let mut attributes: ChannelAttributes = ChannelAttributes::none();
    let mut kind: Option<(ChannelKind, String)> = None;
    let mut i: usize = 0;
    while i < sets.len()
        invariant
            i <= sets@.len(),
            composed_sets(id@, sets.deep_view(), declared.deep_view(), 0, ChannelAttributesView::none(), None)
                == composed_sets(
                id@,
                sets.deep_view(),
                declared.deep_view(),
                i as int,
                attributes.deep_view(),
                kind.deep_view(),
            ),
        decreases sets@.len() - i,
    {
        match declared.get(&sets[i]) {
            None => {},
            Some(settings) => {
                match settings.kind {
                    None => {},
                    Some(given) => {
                        match &kind {
                            None => {},
                            Some(known) => {
                                if known.0 != given {
                                    return Err(
                                        ManagementError::InvalidDefinition(
                                            text3(
                                                text7(
                                                    "Channel ",
                                                    id,
                                                    " の設定セット ",
                                                    sets[i].as_str(),
                                                    " の type ",
                                                    given.as_str(),
                                                    " は設定セット ",
                                                ).as_str(),
                                                known.1.as_str(),
                                                " の type と一致しません",
                                            ),
                                        ),
                                    );
                                }
                            },
                        }
                        kind = Some((given, sets[i].as_str().to_owned()));
                    },
                }
                attributes.merge(settings);
            },
        }
        i += 1;
    }
    Ok((attributes, kind))
}

impl ChannelDefinition {
    fn compose(
        logical_id: &ChannelLogicalId,
        raw: RawChannelDefinition,
        settings_sets: &OrderedMap<ChannelSettingsSetId, ChannelAttributes>,
        vocabulary: &PermissionVocabulary,
    ) -> (result: Result<ChannelAttributes, ManagementError>)
        ensures
            seen(result) == raw.deep_view().composed(
                logical_id.deep_view(),
                settings_sets.deep_view(),
                vocabulary.deep_view(),
            ),
    {
        let id: &str = logical_id.as_str();
        check_settings_sets("Channel ", id, &raw.settings_sets, settings_sets)?;
        let (mut attributes, kind) = compose_sets(id, &raw.settings_sets, settings_sets)?;
        let direct: ChannelAttributes = raw.attributes.resolve(logical_id, vocabulary)?;
        match (direct.kind, &kind) {
            (Some(given), Some(declared)) => {
                if declared.0 != given {
                    return Err(
                        ManagementError::InvalidDefinition(
                            text7(
                                "Channel ",
                                id,
                                " の直接指定 type ",
                                given.as_str(),
                                " は設定セット ",
                                declared.1.as_str(),
                                " の type と一致しません",
                            ),
                        ),
                    );
                }
            },
            _ => {},
        }
        attributes.merge(&direct);
        Ok(attributes)
    }

    /// What a written channel declares.
    pub fn parse(
        logical_id: &ChannelLogicalId,
        raw: RawChannelDefinition,
        settings_sets: &OrderedMap<ChannelSettingsSetId, ChannelAttributes>,
        vocabulary: &PermissionVocabulary,
    ) -> (result: Result<Self, ManagementError>)
        ensures
            seen(result) == raw.deep_view().parsed(
                logical_id.deep_view(),
                settings_sets.deep_view(),
                vocabulary.deep_view(),
            ),
    {
        let mode: RoleMode = raw.mode;
        let ensure: Option<Ensure> = raw.ensure;
        let no_sets: bool = raw.settings_sets.is_empty();
        let attributes: ChannelAttributes = Self::compose(logical_id, raw, settings_sets, vocabulary)?;
        attributes.validate_for_kind(logical_id)?;
        let bare: bool = no_sets && attributes.is_empty();
        match (ensure, mode) {
            (Some(Ensure::Absent), mode) => if mode.is_managed() && bare {
                Ok(ChannelDefinition::Absent)
            } else {
                Err(
                    ManagementError::InvalidDefinition(
                        text3(
                            "削除宣言 Channel ",
                            logical_id.as_str(),
                            " には mode や管理属性を指定できません",
                        ),
                    ),
                )
            },
            (ensure, RoleMode::Reference) => if ensure.is_none() && bare {
                Ok(ChannelDefinition::Reference)
            } else {
                Err(
                    ManagementError::InvalidDefinition(
                        text3(
                            "参照専用 Channel ",
                            logical_id.as_str(),
                            " には ensure や管理属性を指定できません",
                        ),
                    ),
                )
            },
            (_, RoleMode::Managed) => Ok(ChannelDefinition::Managed { attributes }),
        }
    }

    /// Whether the channel should be deleted.
    pub fn is_absent(&self) -> (answer: bool)
        ensures
            answer == (self.deep_view() is Absent),
    {
        matches!(self, ChannelDefinition::Absent)
    }

    /// Whether the channel is only referred to.
    pub fn is_reference(&self) -> (answer: bool)
        ensures
            answer == (self.deep_view() is Reference),
    {
        matches!(self, ChannelDefinition::Reference)
    }

    /// Whether the attributes of the channel are managed.
    pub fn is_managed(&self) -> (answer: bool)
        ensures
            answer == (self.deep_view() is Managed),
    {
        matches!(self, ChannelDefinition::Managed { .. })
    }

    /// The attributes of the channel.
    pub fn attributes(&self) -> (attributes: ChannelAttributes)
        ensures
            attributes.deep_view() == self.deep_view().attributes(),
    {
        match self {
            ChannelDefinition::Managed { attributes } => attributes.copy(),
            _ => ChannelAttributes::none(),
        }
    }
}

/// A member that a definition declares.
#[derive(Clone, Copy, Debug)]
pub struct MemberDefinition {
    pub mode: RoleMode,
}

impl DeepView for MemberDefinition {
    type V = RoleMode;

    open spec fn deep_view(&self) -> RoleMode {
        self.mode
    }
}

/// What is wrong with a declared member.
pub open spec fn member_fault(mode: RoleMode) -> Option<Fault> {
    if mode == RoleMode::Reference {
        None
    } else {
        Some(fault("member_must_be_reference"@, "Member は参照専用として宣言してください"@))
    }
}

impl MemberDefinition {
    /// Checks that the member is only referred to.
    pub fn validate(&self) -> (result: Result<(), ValidationError>)
        ensures
            seen(result) == checked(member_fault(self.deep_view())),
    {
        match self.mode {
            RoleMode::Reference => Ok(()),
            RoleMode::Managed => Err(
                ValidationError::new(
                    "member_must_be_reference",
                    "Member は参照専用として宣言してください",
                ),
            ),
        }
    }
}

/// Nothing is said of attributes none of which breaks a rule.
pub proof fn silent_attributes(attributes: ChannelAttributesView, path: Seq<char>)
    requires
        attributes.breaks_nothing(),
    ensures
        attributes.report(path).len() == 0,
{
}

impl Reported for RawChannelAttributes {
    open spec fn said(value: ChannelAttributesView, path: Seq<char>) -> Seq<char> {
        value.report(part(path, "attributes"@))
    }

    fn say(&self, path: &str) -> (report: String) {
        self.report(part_path(path, "attributes").as_str())
    }
}

impl Reported for RawChannelDefinition {
    open spec fn said(value: RawChannelDefinitionView, path: Seq<char>) -> Seq<char> {
        value.attributes.report(part(path, "attributes"@))
    }

    fn say(&self, path: &str) -> (report: String) {
        self.attributes.report(part_path(path, "attributes").as_str())
    }
}

impl Reported for MemberDefinition {
    open spec fn said(value: RoleMode, path: Seq<char>) -> Seq<char> {
        place_report(part(path, "mode"@), member_fault(value))
    }

    fn say(&self, path: &str) -> (report: String) {
        report_place(part_path(path, "mode").as_str(), self.validate())
    }
}

} // verus!
