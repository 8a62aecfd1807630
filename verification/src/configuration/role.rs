//! Roles in a definition.

use vstd::prelude::*;
use vstd::string::*;

use crate::configuration::permission::{
    first_unknown, known_entries, KnownPermission, PermissionName, PermissionVocabulary,
};
use crate::configuration::report::{part, part_path, place_report, report_place, Reported};
use crate::configuration::validation::{check_settings_sets, checked, fault, settings_set_fault, Fault, ValidationError};
use crate::domain::{ErrorView, ManagementError};
use crate::ids::{RoleLogicalId, RoleSettingsSetId};
use crate::ordered::{put_all, OrderedMap};
use crate::text::{text2, text3, text4};
use crate::value::{seen, Plain};

verus! {

/// A colour of 24 bits.
#[derive(Debug)]
pub struct Color {
    value: u32,
}

impl DeepView for Color {
    type V = u32;

    closed spec fn deep_view(&self) -> u32 {
        self.value
    }
}

/// The colour that a number stands for.
pub open spec fn color_of(value: u32) -> Result<u32, Seq<char>> {
    if value <= 0xFF_FF_FF {
        Ok(value)
    } else {
        Err("color は 0 から 16777215 の範囲で指定してください"@)
    }
}

impl Color {
    #[verifier::type_invariant]
    spec fn is_in_range(&self) -> bool {
        self.value <= 0xFF_FF_FF
    }

    /// The colour with the given number, if it has at most 24 bits.
    pub fn new(value: u32) -> (result: Result<Self, &'static str>)
        ensures
            seen(result) == color_of(value),
    {
        if value <= 0xFF_FF_FF {
            Ok(Color { value })
        } else {
            Err("color は 0 から 16777215 の範囲で指定してください")
        }
    }

    /// The number of the colour.
    pub fn get(self) -> (value: u32)
        ensures
            value == self.deep_view(),
            value <= 0xFF_FF_FF,
    {
        proof {
            use_type_invariant(&self);
        }
        self.value
    }
}

impl Default for Color {
    fn default() -> (color: Self)
        ensures
            color.deep_view() == 0,
    {
        Color { value: 0 }
    }
}

impl Clone for Color {
    fn clone(&self) -> (copied: Self)
        ensures
            copied == *self,
    {
        proof {
            use_type_invariant(self);
        }
        Color { value: self.value }
    }
}

impl Copy for Color {

}

impl Plain for Color {
    fn copy(&self) -> (copied: Self) {
        *self
    }

    fn same(&self, other: &Self) -> (equal: bool) {
        self.value == other.value
    }
}

/// A value that a definition manages: a value of its own, or Discord's default.
#[derive(Debug)]
pub enum ManagedValue<T> {
    Value(T),
    Default,
}

impl<T: DeepView> DeepView for ManagedValue<T> {
    type V = ManagedValue<T::V>;

    open spec fn deep_view(&self) -> ManagedValue<T::V> {
        match self {
            ManagedValue::Value(value) => ManagedValue::Value(value.deep_view()),
            ManagedValue::Default => ManagedValue::Default,
        }
    }
}

impl<T: Plain> Plain for ManagedValue<T> {
    fn copy(&self) -> (copied: Self) {
        match self {
            ManagedValue::Value(value) => ManagedValue::Value(value.copy()),
            ManagedValue::Default => ManagedValue::Default,
        }
    }

    fn same(&self, other: &Self) -> (equal: bool) {
        match (self, other) {
            (ManagedValue::Value(left), ManagedValue::Value(right)) => left.same(right),
            (ManagedValue::Default, ManagedValue::Default) => true,
            _ => false,
        }
    }
}

/// What a managed value stands for, given the default.
pub open spec fn managed<W>(value: ManagedValue<W>, default: W) -> W {
    match value {
        ManagedValue::Value(value) => value,
        ManagedValue::Default => default,
    }
}

/// What a managed value stands for, if one is given.
pub open spec fn managed_if_given<W>(value: Option<ManagedValue<W>>, default: W) -> Option<W> {
    match value {
        Some(value) => Some(managed(value, default)),
        None => None,
    }
}

/// The managed value that a written default marker means, or what is wrong with it.
pub open spec fn default_marker<W>(default: bool) -> Result<ManagedValue<W>, Seq<char>> {
    if default {
        Ok(ManagedValue::Default)
    } else {
        Err("default 指定は true である必要があります"@)
    }
}

impl<T: Plain> ManagedValue<T> {
    /// The managed value that a written default marker means.
    pub fn from_marker(default: bool) -> (result: Result<Self, &'static str>)
        ensures
            seen(result) == default_marker::<T::V>(default),
    {
        if default {
            Ok(ManagedValue::Default)
        } else {
            Err("default 指定は true である必要があります")
        }
    }

    /// The value, or the default.
    pub fn resolve(&self, default: T) -> (value: T)
        ensures
            value.deep_view() == managed(self.deep_view(), default.deep_view()),
    {
        match self {
            ManagedValue::Value(value) => value.copy(),
            ManagedValue::Default => default,
        }
    }
}

/// Managed values that may be left out.
pub trait OptionalManagedValueExt<T: Plain> {
    /// The managed value, if there is one.
    spec fn given(&self) -> Option<ManagedValue<T::V>>;

    /// The value or the default, unless it was left out.
    fn resolve_optional(&self, default: T) -> (value: Option<T>)
        ensures
            value.deep_view() == managed_if_given(self.given(), default.deep_view()),
    ;
}

impl<T: Plain> OptionalManagedValueExt<T> for Option<ManagedValue<T>> {
    open spec fn given(&self) -> Option<ManagedValue<T::V>> {
        self.deep_view()
    }

    fn resolve_optional(&self, default: T) -> (value: Option<T>) {
        match self {
            Some(value) => Some(value.resolve(default)),
            None => None,
        }
    }
}

/// Whether a declared resource should exist.
#[derive(Clone, Copy, Debug, PartialEq, Eq, Structural)]
pub enum RoleEnsure {
    Present,
    Absent,
}

impl DeepView for RoleEnsure {
    type V = RoleEnsure;

    open spec fn deep_view(&self) -> RoleEnsure {
        *self
    }
}

impl RoleEnsure {
    /// Whether the resource should exist.
    pub fn is_present(&self) -> (answer: bool)
        ensures
            answer == (*self == RoleEnsure::Present),
    {
        matches!(self, RoleEnsure::Present)
    }
}

/// Whether the attributes of a declared resource are managed.
#[derive(Clone, Copy, Debug, PartialEq, Eq, Structural)]
pub enum RoleMode {
    Managed,
    Reference,
}

impl DeepView for RoleMode {
    type V = RoleMode;

    open spec fn deep_view(&self) -> RoleMode {
        *self
    }
}

impl RoleMode {
    /// Whether the attributes are managed.
    pub fn is_managed(&self) -> (answer: bool)
        ensures
            answer == (*self == RoleMode::Managed),
    {
        matches!(self, RoleMode::Managed)
    }
}

/// The attributes of a role as a definition writes them.
pub struct RawRoleAttributes {
    pub name: Option<ManagedValue<String>>,
    pub color: Option<ManagedValue<Color>>,
    pub hoist: Option<ManagedValue<bool>>,
    pub mentionable: Option<ManagedValue<bool>>,
    pub permissions: OrderedMap<PermissionName, ManagedValue<bool>>,
}

/// The attributes of a role, with known permissions.
pub struct RoleAttributes {
    pub name: Option<ManagedValue<String>>,
    pub color: Option<ManagedValue<Color>>,
    pub hoist: Option<ManagedValue<bool>>,
    pub mentionable: Option<ManagedValue<bool>>,
    pub permissions: OrderedMap<KnownPermission, ManagedValue<bool>>,
}

/// What the attributes of a role hold.
pub struct RoleAttributesView {
    pub name: Option<ManagedValue<Seq<char>>>,
    pub color: Option<ManagedValue<u32>>,
    pub hoist: Option<ManagedValue<bool>>,
    pub mentionable: Option<ManagedValue<bool>>,
    pub permissions: Seq<(Seq<char>, ManagedValue<bool>)>,
}

impl DeepView for RawRoleAttributes {
    type V = RoleAttributesView;

    open spec fn deep_view(&self) -> RoleAttributesView {
        RoleAttributesView {
            name: self.name.deep_view(),
            color: self.color.deep_view(),
            hoist: self.hoist.deep_view(),
            mentionable: self.mentionable.deep_view(),
            permissions: self.permissions.deep_view(),
        }
    }
}

impl DeepView for RoleAttributes {
    type V = RoleAttributesView;

    open spec fn deep_view(&self) -> RoleAttributesView {
        RoleAttributesView {
            name: self.name.deep_view(),
            color: self.color.deep_view(),
            hoist: self.hoist.deep_view(),
            mentionable: self.mentionable.deep_view(),
            permissions: self.permissions.deep_view(),
        }
    }
}

impl Plain for RoleAttributes {
    fn copy(&self) -> (copied: Self) {
        RoleAttributes {
            name: self.name.copy(),
            color: self.color.copy(),
            hoist: self.hoist.copy(),
            mentionable: self.mentionable.copy(),
            permissions: self.permissions.copy(),
        }
    }

    fn same(&self, other: &Self) -> (equal: bool) {
        self.name.same(&other.name) && self.color.same(&other.color) && self.hoist.same(&other.hoist)
            && self.mentionable.same(&other.mentionable) && self.permissions.same(&other.permissions)
    }
}

/// Of two optional values the later one that is given.
pub open spec fn later<W>(first: Option<W>, second: Option<W>) -> Option<W> {
    if second is Some {
        second
    } else {
        first
    }
}

impl RoleAttributesView {
    /// No attribute at all.
    pub open spec fn none() -> RoleAttributesView {
        RoleAttributesView { name: None, color: None, hoist: None, mentionable: None, permissions: Seq::empty() }
    }

    /// Whether no attribute is given.
    pub open spec fn is_empty(self) -> bool {
        !self.has_non_permission_attributes() && self.permissions.len() == 0
    }

    /// Whether an attribute other than permissions is given.
    pub open spec fn has_non_permission_attributes(self) -> bool {
        self.name is Some || self.color is Some || self.hoist is Some || self.mentionable is Some
    }

    /// These attributes, overridden by later ones.
    pub open spec fn merged(self, after: RoleAttributesView) -> RoleAttributesView {
        RoleAttributesView {
            name: later(self.name, after.name),
            color: later(self.color, after.color),
            hoist: later(self.hoist, after.hoist),
            mentionable: later(self.mentionable, after.mentionable),
            permissions: put_all::<KnownPermission, ManagedValue<bool>>(self.permissions, after.permissions),
        }
    }

    /// What is wrong with the name.
    pub open spec fn name_fault(self) -> Option<Fault> {
        match self.name {
            Some(ManagedValue::Value(name)) => if 1 <= name.len() <= 100 {
                None
            } else {
                Some(fault("length"@, "name は1文字以上かつ100文字以内で指定してください"@))
            },
            _ => None,
        }
    }

    /// What is said of single attributes.
    pub open spec fn report(self, path: Seq<char>) -> Seq<char> {
        place_report(part(path, "name"@), self.name_fault())
    }

    /// The attributes with known permissions.
    pub open spec fn resolved(
        self,
        known: Seq<(Seq<char>, ())>,
        context: Seq<char>,
    ) -> Result<RoleAttributesView, ErrorView> {
        match first_unknown(self.permissions, known) {
            Some(name) => Err(
                ErrorView::InvalidDefinition(
                    context + " に未知の権限 "@ + name + " が指定されています"@,
                ),
            ),
            None => Ok(self),
        }
    }
}

impl RawRoleAttributes {
    /// No attribute at all.
    pub fn none() -> (attributes: Self)
        ensures
            attributes.deep_view() == RoleAttributesView::none(),
    {
        RawRoleAttributes { name: None, color: None, hoist: None, mentionable: None, permissions: OrderedMap::new() }
    }

    /// Whether no attribute is given.
    pub fn is_empty(&self) -> (empty: bool)
        ensures
            empty == self.deep_view().is_empty(),
    {
        self.name.is_none() && self.color.is_none() && self.hoist.is_none() && self.mentionable.is_none()
            && self.permissions.is_empty()
    }

    /// Checks the name.
    fn validate_name(&self) -> (result: Result<(), ValidationError>)
        ensures
            seen(result) == checked(self.deep_view().name_fault()),
    {
        match &self.name {
            Some(ManagedValue::Value(name)) => {
                let length: usize = name.as_str().unicode_len();
                if length < 1 || length > 100 {
                    return Err(
                        ValidationError::new("length", "name は1文字以上かつ100文字以内で指定してください"),
                    );
                }
            },
            _ => {},
        }
        Ok(())
    }

    /// Checks each attribute by itself.
    pub fn report(&self, path: &str) -> (report: String)
        ensures
            report@ == self.deep_view().report(path@),
    {
        report_place(part_path(path, "name").as_str(), self.validate_name())
    }

    /// The attributes with known permissions.
    pub fn resolve(self, vocabulary: &PermissionVocabulary, context: &str) -> (result: Result<
        RoleAttributes,
        ManagementError,
    >)
        ensures
            seen(result) == self.deep_view().resolved(vocabulary.deep_view(), context@),
    {
        match known_entries(&self.permissions, vocabulary) {
            Err(name) => Err(
                ManagementError::InvalidDefinition(
                    text4(context, " に未知の権限 ", name.as_str(), " が指定されています"),
                ),
            ),
            Ok(permissions) => Ok(
                RoleAttributes {
                    name: self.name,
                    color: self.color,
                    hoist: self.hoist,
                    mentionable: self.mentionable,
                    permissions,
                },
            ),
        }
    }
}

impl RoleAttributes {
    /// No attribute at all.
    pub fn none() -> (attributes: Self)
        ensures
            attributes.deep_view() == RoleAttributesView::none(),
    {
        RoleAttributes { name: None, color: None, hoist: None, mentionable: None, permissions: OrderedMap::new() }
    }

    /// Whether an attribute other than permissions is given.
    pub fn has_non_permission_attributes(&self) -> (answer: bool)
        ensures
            answer == self.deep_view().has_non_permission_attributes(),
    {
        self.name.is_some() || self.color.is_some() || self.hoist.is_some() || self.mentionable.is_some()
    }

    /// Overrides these attributes with later ones.
    pub fn merge(&mut self, later: &Self)
        ensures
            final(self).deep_view() == old(self).deep_view().merged(later.deep_view()),
    {
        if later.name.is_some() {
            self.name = later.name.copy();
        }
        if later.color.is_some() {
            self.color = later.color.copy();
        }
        if later.hoist.is_some() {
            self.hoist = later.hoist.copy();
        }
        if later.mentionable.is_some() {
            self.mentionable = later.mentionable.copy();
        }
        self.permissions.extend(&later.permissions);
    }
}

/// A role as a definition writes it.
pub struct RawRoleDefinition {
    pub ensure: RoleEnsure,
    pub mode: RoleMode,
    pub settings_sets: Vec<RoleSettingsSetId>,
    pub attributes: RawRoleAttributes,
}

/// What a written role holds.
pub struct RawRoleDefinitionView {
    pub ensure: RoleEnsure,
    pub mode: RoleMode,
    pub settings_sets: Seq<Seq<char>>,
    pub attributes: RoleAttributesView,
}

impl DeepView for RawRoleDefinition {
    type V = RawRoleDefinitionView;

    open spec fn deep_view(&self) -> RawRoleDefinitionView {
        RawRoleDefinitionView {
            ensure: self.ensure,
            mode: self.mode,
            settings_sets: self.settings_sets.deep_view(),
            attributes: self.attributes.deep_view(),
        }
    }
}

/// A role that a definition declares.
pub enum RoleDefinition {
    Managed { settings_sets: Vec<RoleSettingsSetId>, attributes: RoleAttributes },
    Reference,
    Absent,
}

/// What a declared role holds.
pub enum RoleDefinitionView {
    Managed { settings_sets: Seq<Seq<char>>, attributes: RoleAttributesView },
    Reference,
    Absent,
}

impl DeepView for RoleDefinition {
    type V = RoleDefinitionView;

    open spec fn deep_view(&self) -> RoleDefinitionView {
        match self {
            RoleDefinition::Managed { settings_sets, attributes } => RoleDefinitionView::Managed {
                settings_sets: settings_sets.deep_view(),
                attributes: attributes.deep_view(),
            },
            RoleDefinition::Reference => RoleDefinitionView::Reference,
            RoleDefinition::Absent => RoleDefinitionView::Absent,
        }
    }
}

impl RoleDefinitionView {
    /// The settings sets that the role takes its attributes from.
    pub open spec fn settings_sets(self) -> Seq<Seq<char>> {
        match self {
            RoleDefinitionView::Managed { settings_sets, .. } => settings_sets,
            _ => Seq::empty(),
        }
    }

    /// The attributes that are given for the role itself.
    pub open spec fn attributes(self) -> RoleAttributesView {
        match self {
            RoleDefinitionView::Managed { attributes, .. } => attributes,
            _ => RoleAttributesView::none(),
        }
    }
}

impl RawRoleDefinitionView {
    /// What the written role declares.
    pub open spec fn parsed(
        self,
        id: Seq<char>,
        settings_sets: Seq<(Seq<char>, RoleAttributesView)>,
        known: Seq<(Seq<char>, ())>,
    ) -> Result<RoleDefinitionView, ErrorView> {
        let bare = self.settings_sets.len() == 0 && self.attributes.is_empty();
        match settings_set_fault("Role "@, id, self.settings_sets, settings_sets, 0) {
            Some(error) => Err(error),
            None => match self.attributes.resolved(known, "Role "@ + id) {
                Err(error) => Err(error),
                Ok(attributes) => match (self.ensure, self.mode) {
                    (RoleEnsure::Absent, mode) => if mode == RoleMode::Managed && bare {
                        Ok(RoleDefinitionView::Absent)
                    } else {
                        Err(
                            ErrorView::InvalidDefinition(
                                "削除する Role "@ + id
                                    + " には mode、設定セット、管理属性を指定できません"@,
                            ),
                        )
                    },
                    (RoleEnsure::Present, RoleMode::Reference) => if bare {
                        Ok(RoleDefinitionView::Reference)
                    } else {
                        Err(
                            ErrorView::InvalidDefinition(
                                "参照専用 Role "@ + id + " には管理属性を指定できません"@,
                            ),
                        )
                    },
                    (RoleEnsure::Present, RoleMode::Managed) => Ok(
                        RoleDefinitionView::Managed { settings_sets: self.settings_sets, attributes },
                    ),
                },
            },
        }
    }
}

impl RoleDefinition {
    /// What a written role declares.
    pub fn parse(
        logical_id: &RoleLogicalId,
        raw: RawRoleDefinition,
        settings_sets: &OrderedMap<RoleSettingsSetId, RoleAttributes>,
        vocabulary: &PermissionVocabulary,
    ) -> (result: Result<Self, ManagementError>)
        ensures
            seen(result) == raw.deep_view().parsed(
                logical_id.deep_view(),
                settings_sets.deep_view(),
                vocabulary.deep_view(),
            ),
    {
        match check_settings_sets("Role ", logical_id.as_str(), &raw.settings_sets, settings_sets) {
            Err(error) => {
                return Err(error);
            },
            Ok(()) => {},
        }
        let bare: bool = raw.settings_sets.is_empty() && raw.attributes.is_empty();
        let attributes: RoleAttributes = match raw.attributes.resolve(
            vocabulary,
            text2("Role ", logical_id.as_str()).as_str(),
        ) {
            Err(error) => {
                return Err(error);
            },
            Ok(attributes) => attributes,
        };
        match (raw.ensure, raw.mode) {
            (RoleEnsure::Absent, mode) => if mode.is_managed() && bare {
                Ok(RoleDefinition::Absent)
            } else {
                Err(
                    ManagementError::InvalidDefinition(
                        text3(
                            "削除する Role ",
                            logical_id.as_str(),
                            " には mode、設定セット、管理属性を指定できません",
                        ),
                    ),
                )
            },
            (RoleEnsure::Present, RoleMode::Reference) => if bare {
                Ok(RoleDefinition::Reference)
            } else {
                Err(
                    ManagementError::InvalidDefinition(
                        text3("参照専用 Role ", logical_id.as_str(), " には管理属性を指定できません"),
                    ),
                )
            },
            (RoleEnsure::Present, RoleMode::Managed) => Ok(
                RoleDefinition::Managed { settings_sets: raw.settings_sets, attributes },
            ),
        }
    }

    /// Whether the role should be deleted.
    pub fn is_absent(&self) -> (answer: bool)
        ensures
            answer == (self.deep_view() is Absent),
    {
        matches!(self, RoleDefinition::Absent)
    }

    /// Whether the role is only referred to.
    pub fn is_reference(&self) -> (answer: bool)
        ensures
            answer == (self.deep_view() is Reference),
    {
        matches!(self, RoleDefinition::Reference)
    }

    /// Whether the attributes of the role are managed.
    pub fn is_managed(&self) -> (answer: bool)
        ensures
            answer == (self.deep_view() is Managed),
    {
        matches!(self, RoleDefinition::Managed { .. })
    }

    /// The settings sets that the role takes its attributes from.
    pub fn settings_sets(&self) -> (sets: Vec<RoleSettingsSetId>)
        ensures
            sets.deep_view() == self.deep_view().settings_sets(),
    {
        match self {
            RoleDefinition::Managed { settings_sets, .. } => settings_sets.copy(),
            _ => {
                let none: Vec<RoleSettingsSetId> = Vec::new();
                assert(none.deep_view() =~= Seq::empty());
                none
            },
        }
    }

    /// The attributes that are given for the role itself.
    pub fn attributes(&self) -> (attributes: RoleAttributes)
        ensures
            attributes.deep_view() == self.deep_view().attributes(),
    {
        match self {
            RoleDefinition::Managed { attributes, .. } => attributes.copy(),
            _ => RoleAttributes::none(),
        }
    }
}

impl Reported for RawRoleAttributes {
    open spec fn said(value: RoleAttributesView, path: Seq<char>) -> Seq<char> {
        value.report(path)
    }

    fn say(&self, path: &str) -> (report: String) {
        self.report(path)
    }
}

impl Reported for RawRoleDefinition {
    open spec fn said(value: RawRoleDefinitionView, path: Seq<char>) -> Seq<char> {
        value.attributes.report(part(path, "attributes"@))
    }

    fn say(&self, path: &str) -> (report: String) {
        self.attributes.report(part_path(path, "attributes").as_str())
    }
}

} // verus!
