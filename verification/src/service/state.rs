//! Bindings of a guild, with what is known of creations and deletions under way.

use vstd::prelude::*;
use vstd::string::*;

use crate::configuration::channel::{ChannelAttributes, ChannelAttributesView, OverwriteTarget, OverwriteTargetView};
use crate::configuration::definition::{
    settings_set_channel, settings_set_logical_id, DefinitionFile, DefinitionView, RawDefinitionFile, RawDefinitionView,
};
use crate::configuration::input::{references_fault, validate_references};
use crate::configuration::order::accepted;
use crate::configuration::permission::PermissionVocabulary;
use crate::configuration::state::{
    field_names_differ, fields_of, pretty_json_text, serialize_fields, sound_states_are_accepted, state_fields,
    JsonField, JsonFieldView, RawStateFile, StateFile, StateView,
};
use crate::configuration::report::{place_report, report_place};
use crate::configuration::validation::{checked, fault, Fault, ValidationError};
use crate::configuration::written::{
    identifiers_are_plain, is_plain, is_plain_member, names_are_logical, objects_are_told, state_fields_are_plain,
    state_fields_are_told,
};
use crate::domain::{ErrorView, ManagementError};
use crate::ids::{everyone, everyone_logical_id, is_logical_id, ChannelLogicalId, GuildId, RoleLogicalId};
use crate::ordered::{first_in, first_in_step, has_key, lookup, lookup_has_entry, lookup_in_both, OrderedMap};
use crate::text::{text3, text5};
use crate::value::seen;

verus! {

/// Names of roles, each once, in order.
pub type RoleNames = OrderedMap<RoleLogicalId, ()>;

/// Names of roles, each once, in order.
pub type RoleNamesView = Seq<(Seq<char>, ())>;

/// A state file as it is written.
pub struct RawTrackedState {
    pub bindings: RawStateFile,
    pub deleted_roles: RoleNames,
    pub pending_creations: RoleNames,
    pub pending_deletions: RoleNames,
}

/// Bindings, with the names of roles that were deleted, and of those whose creation
/// or deletion was asked for with no certain answer.
pub struct TrackedState {
    pub bindings: StateFile,
    pub deleted_roles: RoleNames,
    pub pending_creations: RoleNames,
    pub pending_deletions: RoleNames,
}

/// What bindings with deletions and creations under way hold.
pub struct TrackedView {
    pub bindings: StateView,
    pub deleted_roles: RoleNamesView,
    pub pending_creations: RoleNamesView,
    pub pending_deletions: RoleNamesView,
}

impl DeepView for RawTrackedState {
    type V = TrackedView;

    open spec fn deep_view(&self) -> TrackedView {
        TrackedView {
            bindings: self.bindings.deep_view(),
            deleted_roles: self.deleted_roles.deep_view(),
            pending_creations: self.pending_creations.deep_view(),
            pending_deletions: self.pending_deletions.deep_view(),
        }
    }
}

impl DeepView for TrackedState {
    type V = TrackedView;

    open spec fn deep_view(&self) -> TrackedView {
        TrackedView {
            bindings: self.bindings.deep_view(),
            deleted_roles: self.deleted_roles.deep_view(),
            pending_creations: self.pending_creations.deep_view(),
            pending_deletions: self.pending_deletions.deep_view(),
        }
    }
}

/// What is wrong with a role that is said to be deleted.
pub open spec fn deleted_fault(id: Seq<char>, state: TrackedView) -> Option<Fault> {
    if !has_key(state.bindings.roles, id) {
        Some(
            fault(
                "deleted_role_without_mapping"@,
                "削除済み Role "@ + id + " に対応する Snowflake がありません"@,
            ),
        )
    } else if has_key(state.pending_deletions, id) {
        Some(fault("conflicting_role_operation"@, "Role "@ + id + " に競合する未完了状態があります"@))
    } else {
        None
    }
}

/// What is wrong with a role whose deletion is under way.
pub open spec fn pending_deletion_fault(id: Seq<char>, state: TrackedView) -> Option<Fault> {
    if !has_key(state.bindings.roles, id) || has_key(state.deleted_roles, id) {
        Some(
            fault(
                "invalid_pending_deletion"@,
                "Role "@ + id + " の削除意図に対応する active state がありません"@,
            ),
        )
    } else {
        None
    }
}

/// What is wrong with a role whose creation is under way.
pub open spec fn pending_creation_fault(id: Seq<char>, state: TrackedView) -> Option<Fault> {
    if has_key(state.bindings.roles, id) && !has_key(state.deleted_roles, id) {
        Some(
            fault(
                "invalid_pending_creation"@,
                "作成結果不明の Role "@ + id + " に Snowflake が設定されています"@,
            ),
        )
    } else {
        None
    }
}

impl TrackedView {
    /// What is wrong with what is said of deletions and creations.
    pub open spec fn tracking_fault(self) -> Option<Fault> {
        let deleted = first_in(self.deleted_roles, |id: Seq<char>, _u: ()| deleted_fault(id, self));
        let deletion = first_in(self.pending_deletions, |id: Seq<char>, _u: ()| pending_deletion_fault(id, self));
        let creation = first_in(self.pending_creations, |id: Seq<char>, _u: ()| pending_creation_fault(id, self));
        if deleted is Some {
            deleted
        } else if deletion is Some {
            deletion
        } else {
            creation
        }
    }

    /// A state that was accepted for its guild.
    pub open spec fn is_sound(self) -> bool {
        self.bindings.is_sound() && self.tracking_fault() is None
    }

    /// The state of a guild, if the written state is sound and belongs to it.
    pub open spec fn parsed_for_guild(self, guild_id: u64) -> Result<TrackedView, ErrorView> {
        if self.bindings.report().len() > 0 {
            Err(ErrorView::InvalidState(self.bindings.report()))
        } else {
            match self.tracking_fault() {
                Some(found) => Err(ErrorView::InvalidState(place_report("__all__"@, Some(found)))),
                None => match self.bindings.parsed_for_guild(guild_id) {
                    Err(error) => Err(error),
                    Ok(_) => Ok(self),
                },
            }
        }
    }
}

/// A written state is accepted for its own guild exactly where it is sound, and then
/// unchanged: what was accepted once is accepted again.
pub proof fn sound_tracked_states_are_accepted(state: TrackedView)
    ensures
        state.is_sound() <==> state.parsed_for_guild(state.bindings.guild_id) == Ok::<TrackedView, ErrorView>(state),
        state.is_sound() <==> state.parsed_for_guild(state.bindings.guild_id) is Ok,
{
    sound_states_are_accepted(state.bindings);
}

/// Checks what is said of deletions and creations.
#[verifier::loop_isolation(false)]
pub fn validate_state(state: &RawTrackedState) -> (result: Result<(), ValidationError>)
    ensures
        seen(result) == checked(state.deep_view().tracking_fault()),
{
    let ghost view = state.deep_view();
    let ghost check = |id: Seq<char>, _u: ()| deleted_fault(id, view);
    let ghost all = view.deleted_roles;
    let mut i: usize = 0;
    assert(all.skip(0) =~= all);
    while i < state.deleted_roles.len()
        invariant
            i <= all.len(),
            first_in(all, check) == first_in(all.skip(i as int), check),
        decreases all.len() - i,
    {
        proof {
            first_in_step(all, check, i as int);
        }
        let id: &RoleLogicalId = state.deleted_roles.key_at(i);
        if !state.bindings.roles.contains_key(id) {
            return Err(
                ValidationError::new(
                    "deleted_role_without_mapping",
                    text3("削除済み Role ", id.as_str(), " に対応する Snowflake がありません").as_str(),
                ),
            );
        }
        if state.pending_deletions.contains_key(id) {
            return Err(
                ValidationError::new(
                    "conflicting_role_operation",
                    text3("Role ", id.as_str(), " に競合する未完了状態があります").as_str(),
                ),
            );
        }
        i += 1;
    }
    let ghost check = |id: Seq<char>, _u: ()| pending_deletion_fault(id, view);
    let ghost all = view.pending_deletions;
    let mut i: usize = 0;
    assert(all.skip(0) =~= all);
    while i < state.pending_deletions.len()
        invariant
            i <= all.len(),
            first_in(all, check) == first_in(all.skip(i as int), check),
        decreases all.len() - i,
    {
        proof {
            first_in_step(all, check, i as int);
        }
        let id: &RoleLogicalId = state.pending_deletions.key_at(i);
        if !state.bindings.roles.contains_key(id) || state.deleted_roles.contains_key(id) {
            return Err(
                ValidationError::new(
                    "invalid_pending_deletion",
                    text3("Role ", id.as_str(), " の削除意図に対応する active state がありません").as_str(),
                ),
            );
        }
        i += 1;
    }
    let ghost check = |id: Seq<char>, _u: ()| pending_creation_fault(id, view);
    let ghost all = view.pending_creations;
    let mut i: usize = 0;
    assert(all.skip(0) =~= all);
    while i < state.pending_creations.len()
        invariant
            i <= all.len(),
            first_in(all, check) == first_in(all.skip(i as int), check),
        decreases all.len() - i,
    {
        proof {
            first_in_step(all, check, i as int);
        }
        let id: &RoleLogicalId = state.pending_creations.key_at(i);
        if state.bindings.roles.contains_key(id) && !state.deleted_roles.contains_key(id) {
            return Err(
                ValidationError::new(
                    "invalid_pending_creation",
                    text3("作成結果不明の Role ", id.as_str(), " に Snowflake が設定されています").as_str(),
                ),
            );
        }
        i += 1;
    }
    Ok(())
}

/// The names of roles as texts.
pub open spec fn name_texts(names: RoleNamesView) -> Seq<Seq<char>> {
    names.map_values(|entry: (Seq<char>, ())| entry.0)
}

/// A field with the names of roles, left out where there are none.
pub open spec fn names_field(name: Seq<char>, names: RoleNamesView) -> Seq<(Seq<char>, JsonFieldView)> {
    if names.len() == 0 {
        Seq::empty()
    } else {
        seq![(name, JsonFieldView::List(name_texts(names)))]
    }
}

/// The fields that a state is written with.
pub open spec fn tracked_fields(state: TrackedView) -> Seq<(Seq<char>, JsonFieldView)> {
    state_fields(state.bindings) + names_field("deleted_roles"@, state.deleted_roles) + names_field(
        "pending_creations"@,
        state.pending_creations,
    ) + names_field("pending_deletions"@, state.pending_deletions)
}

/// The text of a state file.
pub open spec fn tracked_text(state: TrackedView) -> Seq<char> {
    pretty_json_text(tracked_fields(state)) + "\n"@
}

fn name_list(names: &RoleNames) -> (texts: Vec<String>)
    ensures
        texts.deep_view() == name_texts(names.deep_view()),
{
    let mut texts: Vec<String> = Vec::new();
    let mut i: usize = 0;
    while i < names.len()
        invariant
            i <= names.deep_view().len(),
            texts@.len() == i,
            forall|k: int| 0 <= k < i ==> (#[trigger] texts@[k])@ == name_texts(names.deep_view())[k],
        decreases names.deep_view().len() - i,
    {
        texts.push(names.key_at(i).as_str().to_owned());
        i += 1;
    }
    assert(texts.deep_view() =~= name_texts(names.deep_view()));
    texts
}

/// The text of a state file.
pub fn serialize_state(state: &TrackedState) -> (result: Result<String, ManagementError>)
    ensures
        seen(result) == Ok::<Seq<char>, ErrorView>(tracked_text(state.deep_view())),
{
    let ghost view = state.deep_view();
    let mut fields: Vec<(String, JsonField)> = fields_of(&state.bindings);
    let ghost head = fields.deep_view();
    proof {
        field_names_differ();
        reveal_strlit("deleted_roles");
        reveal_strlit("pending_creations");
        reveal_strlit("pending_deletions");
        assert("pending_creations"@[8] != "pending_deletions"@[8]);
        assert forall|i: int| 0 <= i < head.len() implies (#[trigger] head[i]).0.len() != 13 && head[i].0.len()
            != 17 by {
            assert(head[i] == state_fields(view.bindings)[i]);
        }
    }
    if !state.deleted_roles.is_empty() {
        fields.push(("deleted_roles".to_owned(), JsonField::List(name_list(&state.deleted_roles))));
    }
    if !state.pending_creations.is_empty() {
        fields.push(("pending_creations".to_owned(), JsonField::List(name_list(&state.pending_creations))));
    }
    if !state.pending_deletions.is_empty() {
        fields.push(("pending_deletions".to_owned(), JsonField::List(name_list(&state.pending_deletions))));
    }
    proof {
        let all = fields.deep_view();
        assert(all =~= tracked_fields(view));
        assert forall|i: int, j: int| 0 <= i < j < all.len() implies (#[trigger] all[i]).0 != (#[trigger] all[j]).0 by {
            if j < head.len() {
                assert(head[i].0 != head[j].0);
            } else if i < head.len() {
                assert(all[i] == head[i]);
            }
        }
        assert forall|i: int| 0 <= i < all.len() && (#[trigger] all[i]).1 is Table implies
            crate::configuration::state::distinct_names(all[i].1->Table_0) by {
            assert(i < head.len());
            assert(all[i] == head[i]);
        }
    }
    serialize_fields(&fields)
}

impl TrackedState {
    /// Reads the state of a guild.
    pub fn parse_for_guild(raw: RawTrackedState, guild_id: GuildId) -> (result: Result<Self, ManagementError>)
        ensures
            seen(result) == raw.deep_view().parsed_for_guild(guild_id.deep_view()),
    {
        match raw.bindings.validate() {
            Err(report) => {
                return Err(ManagementError::InvalidState(report));
            },
            Ok(()) => {},
        }
        match validate_state(&raw) {
            Err(error) => {
                return Err(ManagementError::InvalidState(report_place("__all__", Err(error))));
            },
            Ok(()) => {},
        }
        let bindings: StateFile = StateFile::parse_for_guild(raw.bindings, guild_id)?;
        Ok(
            TrackedState {
                bindings,
                deleted_roles: raw.deleted_roles,
                pending_creations: raw.pending_creations,
                pending_deletions: raw.pending_deletions,
            },
        )
    }
}

/// What is wrong with a role whose permissions a channel overwrites: it was
/// deleted, or its deletion is under way.
pub open spec fn removed_role_fault(channel: Seq<char>, id: Seq<char>, state: TrackedView) -> Option<ErrorView> {
    if has_key(state.deleted_roles, id) {
        Some(
            ErrorView::InvalidState("Channel "@ + channel + " の権限対象 Role "@ + id + " は削除済みです"@),
        )
    } else if has_key(state.pending_deletions, id) {
        Some(
            ErrorView::InvalidState(
                "Channel "@ + channel + " の権限対象 Role "@ + id + " の削除意図が未解決です"@,
            ),
        )
    } else {
        None
    }
}

/// What is wrong with whom a channel overwrites permissions for: a role that was
/// deleted or whose deletion is under way.
pub open spec fn removed_target_fault(
    channel: Seq<char>,
    target: OverwriteTargetView,
    state: TrackedView,
) -> Option<ErrorView> {
    match target {
        OverwriteTargetView::Everyone => removed_role_fault(channel, everyone(), state),
        OverwriteTargetView::Role(id) => removed_role_fault(channel, id, state),
        OverwriteTargetView::Member(_) => None,
    }
}

/// What is wrong with the overwrites of a channel.
pub open spec fn removed_targets_fault(
    channel: Seq<char>,
    attributes: ChannelAttributesView,
    state: TrackedView,
) -> Option<ErrorView> {
    first_in(
        attributes.overwrites,
        |target: OverwriteTargetView, _v: Seq<(Seq<char>, crate::configuration::channel::OverwriteValue)>|
            removed_target_fault(channel, target, state),
    )
}

/// What is wrong with what a definition refers to, by what is known of deletions.
pub open spec fn removed_references_fault(definition: DefinitionView, state: TrackedView) -> Option<ErrorView> {
    let channels = first_in(
        definition.channels,
        |id: Seq<char>, channel: crate::configuration::channel::ChannelDefinitionView|
            removed_targets_fault(id, channel.attributes(), state),
    );
    let sets = first_in(
        definition.settings_sets.channel,
        |name: Seq<char>, attributes: ChannelAttributesView|
            removed_targets_fault(settings_set_channel(name), attributes, state),
    );
    if channels is Some {
        channels
    } else {
        sets
    }
}

fn check_removed_role(channel: &str, id: &RoleLogicalId, state: &TrackedState) -> (result: Result<
    (),
    ManagementError,
>)
    ensures
        seen(result) == accepted(removed_role_fault(channel@, id.deep_view(), state.deep_view())),
{
    if state.deleted_roles.contains_key(id) {
        return Err(
            ManagementError::InvalidState(
                text5("Channel ", channel, " の権限対象 Role ", id.as_str(), " は削除済みです"),
            ),
        );
    }
    if state.pending_deletions.contains_key(id) {
        return Err(
            ManagementError::InvalidState(
                text5("Channel ", channel, " の権限対象 Role ", id.as_str(), " の削除意図が未解決です"),
            ),
        );
    }
    Ok(())
}

#[verifier::loop_isolation(false)]
fn check_removed_targets(channel: &ChannelLogicalId, attributes: &ChannelAttributes, state: &TrackedState) -> (result:
    Result<(), ManagementError>)
    ensures
        seen(result) == accepted(
            removed_targets_fault(channel.deep_view(), attributes.deep_view(), state.deep_view()),
        ),
{
    let ghost all = attributes.deep_view().overwrites;
    let ghost name = channel.deep_view();
    let ghost view = state.deep_view();
    let ghost check = |
        target: OverwriteTargetView,
        _v: Seq<(Seq<char>, crate::configuration::channel::OverwriteValue)>,
    | removed_target_fault(name, target, view);
    let mut i: usize = 0;
    assert(all.skip(0) =~= all);
    while i < attributes.overwrites.len()
        invariant
            i <= all.len(),
            first_in(all, check) == first_in(all.skip(i as int), check),
        decreases all.len() - i,
    {
        proof {
            first_in_step(all, check, i as int);
        }
        match attributes.overwrites.key_at(i) {
            OverwriteTarget::Everyone => check_removed_role(channel.as_str(), &everyone_logical_id(), state)?,
            OverwriteTarget::Role(id) => check_removed_role(channel.as_str(), id, state)?,
            OverwriteTarget::Member(_) => {},
        }
        i += 1;
    }
    Ok(())
}

/// Checks what a definition refers to by what is known of deletions.
#[verifier::loop_isolation(false)]
pub fn validate_removed_references(definition: &DefinitionFile, state: &TrackedState) -> (result: Result<
    (),
    ManagementError,
>)
    ensures
        seen(result) == accepted(removed_references_fault(definition.deep_view(), state.deep_view())),
{
    let ghost view = state.deep_view();
    let ghost all = definition.deep_view().channels;
    let ghost check = |id: Seq<char>, channel: crate::configuration::channel::ChannelDefinitionView|
        removed_targets_fault(id, channel.attributes(), view);
    let mut i: usize = 0;
    assert(all.skip(0) =~= all);
    while i < definition.channels.len()
        invariant
            i <= all.len(),
            first_in(all, check) == first_in(all.skip(i as int), check),
        decreases all.len() - i,
    {
        proof {
            first_in_step(all, check, i as int);
        }
        let attributes: ChannelAttributes = definition.channels.value_at(i).attributes();
        check_removed_targets(definition.channels.key_at(i), &attributes, state)?;
        i += 1;
    }
    let ghost sets = definition.deep_view().settings_sets.channel;
    let ghost check_set = |name: Seq<char>, attributes: ChannelAttributesView|
        removed_targets_fault(settings_set_channel(name), attributes, view);
    let mut k: usize = 0;
    assert(sets.skip(0) =~= sets);
    while k < definition.settings_sets.channel.len()
        invariant
            k <= sets.len(),
            first_in(sets, check_set) == first_in(sets.skip(k as int), check_set),
        decreases sets.len() - k,
    {
        proof {
            first_in_step(sets, check_set, k as int);
        }
        let id: ChannelLogicalId = settings_set_logical_id(definition.settings_sets.channel.key_at(k));
        check_removed_targets(&id, definition.settings_sets.channel.value_at(k), state)?;
        k += 1;
    }
    Ok(())
}

/// A definition and a state that fit together.
pub struct TrackedInput {
    pub definition: DefinitionFile,
    pub state: TrackedState,
}

impl DeepView for TrackedInput {
    type V = (DefinitionView, TrackedView);

    open spec fn deep_view(&self) -> (DefinitionView, TrackedView) {
        (self.definition.deep_view(), self.state.deep_view())
    }
}

/// A definition and a state, read for a guild.
pub open spec fn tracked_input(
    definition: RawDefinitionView,
    state: TrackedView,
    guild_id: u64,
    known: Seq<(Seq<char>, ())>,
) -> Result<(DefinitionView, TrackedView), ErrorView> {
    match definition.parsed(known) {
        Err(error) => Err(error),
        Ok(definition) => match state.parsed_for_guild(guild_id) {
            Err(error) => Err(error),
            Ok(state) => match references_fault(definition, state.bindings) {
                Some(error) => Err(error),
                None => match removed_references_fault(definition, state) {
                    Some(error) => Err(error),
                    None => Ok((definition, state)),
                },
            },
        },
    }
}

/// A definition and a state, taken from what reading their files gave. What is wrong with
/// the definition is told before what is wrong with the state.
pub open spec fn read_tracked_input(
    definition: Result<RawDefinitionView, ErrorView>,
    state: Result<TrackedView, ErrorView>,
    guild_id: u64,
    known: Seq<(Seq<char>, ())>,
) -> Result<(DefinitionView, TrackedView), ErrorView> {
    match definition {
        Err(error) => Err(error),
        Ok(definition) => match (definition.parsed(known), state) {
            (Err(error), _) => Err(error),
            (Ok(_), Err(error)) => Err(error),
            (Ok(_), Ok(state)) => tracked_input(definition, state, guild_id, known),
        },
    }
}

impl TrackedInput {
    /// Takes a definition and a state for a guild from what reading their files gave.
    pub fn read(
        definition: Result<RawDefinitionFile, ManagementError>,
        state: Result<RawTrackedState, ManagementError>,
        guild_id: GuildId,
        vocabulary: &PermissionVocabulary,
    ) -> (result: Result<Self, ManagementError>)
        ensures
            seen(result) == read_tracked_input(
                seen(definition),
                seen(state),
                guild_id.deep_view(),
                vocabulary.deep_view(),
            ),
    {
        let definition: DefinitionFile = DefinitionFile::parse(definition?, vocabulary)?;
        let state: TrackedState = TrackedState::parse_for_guild(state?, guild_id)?;
        validate_references(&definition, &state.bindings)?;
        validate_removed_references(&definition, &state)?;
        Ok(TrackedInput { definition, state })
    }

    /// Takes a definition and a state for a guild.
    pub fn parse(
        definition: RawDefinitionFile,
        state: RawTrackedState,
        guild_id: GuildId,
        vocabulary: &PermissionVocabulary,
    ) -> (result: Result<Self, ManagementError>)
        ensures
            seen(result) == tracked_input(
                definition.deep_view(),
                state.deep_view(),
                guild_id.deep_view(),
                vocabulary.deep_view(),
            ),
    {
        Self::read(Ok(definition), Ok(state), guild_id, vocabulary)
    }
}

/// Whether all names of a state are logical identifiers, as those of every value are.
pub open spec fn tracked_names_are_logical(state: TrackedView) -> bool {
    &&& names_are_logical(state.bindings)
    &&& are_logical(state.deleted_roles)
    &&& are_logical(state.pending_creations)
    &&& are_logical(state.pending_deletions)
}

/// Whether names of roles are logical identifiers.
pub open spec fn are_logical(names: RoleNamesView) -> bool {
    forall|i: int| 0 <= i < names.len() ==> is_logical_id((#[trigger] names[i]).0)
}

proof fn names_are_plain(name: Seq<char>, names: RoleNamesView)
    requires
        is_logical_id(name),
        are_logical(names),
    ensures
        forall|i: int| 0 <= i < names_field(name, names).len() ==> is_plain_member(#[trigger] names_field(name, names)[i]),
{
    let texts = name_texts(names);
    identifiers_are_plain(name);
    assert forall|i: int| 0 <= i < texts.len() implies is_plain(#[trigger] texts[i]) by {
        assert(is_logical_id(names[i].0));
        identifiers_are_plain(names[i].0);
    }
}

/// What is found of the names of roles in the fields of a state.
spec fn found_names(names: RoleNamesView) -> Option<JsonFieldView> {
    if names.len() == 0 {
        None
    } else {
        Some(JsonFieldView::List(name_texts(names)))
    }
}

proof fn names_are_told(a: RoleNamesView, b: RoleNamesView)
    requires
        found_names(a) == found_names(b),
    ensures
        a == b,
{
    if a.len() > 0 {
        let x = name_texts(a);
        let y = name_texts(b);
        assert(x.len() == a.len() && y.len() == b.len());
        assert forall|i: int| 0 <= i < a.len() implies a[i] == b[i] by {
            assert(x[i] == y[i]);
        }
    }
    assert(a =~= b);
}

proof fn bindings_have_other_names(state: StateView, name: Seq<char>)
    requires
        name == "deleted_roles"@ || name == "pending_creations"@ || name == "pending_deletions"@,
    ensures
        lookup(state_fields(state), name) is None,
{
    reveal_strlit("schema_version");
    reveal_strlit("guild_id");
    reveal_strlit("roles");
    reveal_strlit("channels");
    reveal_strlit("members");
    reveal_strlit("deleted_roles");
    reveal_strlit("pending_creations");
    reveal_strlit("pending_deletions");
    let fields = state_fields(state);
    if lookup(fields, name) is Some {
        let i = lookup_has_entry(fields, name);
        assert(fields[i].0.len() == name.len());
    }
}

proof fn found_in_tracked(state: TrackedView)
    ensures
        lookup(tracked_fields(state), "deleted_roles"@) == found_names(state.deleted_roles),
        lookup(tracked_fields(state), "pending_creations"@) == found_names(state.pending_creations),
        lookup(tracked_fields(state), "pending_deletions"@) == found_names(state.pending_deletions),
{
    reveal_strlit("deleted_roles");
    reveal_strlit("pending_creations");
    reveal_strlit("pending_deletions");
    assert("pending_creations"@[8] != "pending_deletions"@[8]);
    assert("deleted_roles"@.len() != "pending_creations"@.len());
    assert("deleted_roles"@.len() != "pending_deletions"@.len());
    let head = state_fields(state.bindings);
    let deleted = names_field("deleted_roles"@, state.deleted_roles);
    let creations = names_field("pending_creations"@, state.pending_creations);
    let deletions = names_field("pending_deletions"@, state.pending_deletions);
    assert forall|name: Seq<char>|
        name == "deleted_roles"@ || name == "pending_creations"@ || name == "pending_deletions"@ implies #[trigger] lookup(
        tracked_fields(state),
        name,
    ) == match lookup(deleted, name) {
        Some(field) => Some(field),
        None => match lookup(creations, name) {
            Some(field) => Some(field),
            None => lookup(deletions, name),
        },
    } by {
        bindings_have_other_names(state.bindings, name);
        lookup_in_both(head + deleted + creations, deletions, name);
        lookup_in_both(head + deleted, creations, name);
        lookup_in_both(head, deleted, name);
    }
    single_field("deleted_roles"@, state.deleted_roles, "deleted_roles"@);
    single_field("deleted_roles"@, state.deleted_roles, "pending_creations"@);
    single_field("deleted_roles"@, state.deleted_roles, "pending_deletions"@);
    single_field("pending_creations"@, state.pending_creations, "deleted_roles"@);
    single_field("pending_creations"@, state.pending_creations, "pending_creations"@);
    single_field("pending_creations"@, state.pending_creations, "pending_deletions"@);
    single_field("pending_deletions"@, state.pending_deletions, "deleted_roles"@);
    single_field("pending_deletions"@, state.pending_deletions, "pending_creations"@);
    single_field("pending_deletions"@, state.pending_deletions, "pending_deletions"@);
}

proof fn single_field(name: Seq<char>, names: RoleNamesView, asked: Seq<char>)
    ensures
        lookup(names_field(name, names), asked) == if asked == name {
            found_names(names)
        } else {
            None
        },
{
    let field = names_field(name, names);
    if field.len() > 0 {
        assert(field.drop_first() =~= Seq::empty());
        assert(lookup(field.drop_first(), asked) is None);
    }
}

/// The text of a state tells the state, with the creations and deletions that are pending:
/// no two states are written alike.
pub proof fn tracked_states_are_told_by_their_text(a: TrackedView, b: TrackedView)
    requires
        tracked_names_are_logical(a),
        tracked_names_are_logical(b),
        tracked_text(a) == tracked_text(b),
    ensures
        a == b,
{
    let x = tracked_fields(a);
    let y = tracked_fields(b);
    assert(tracked_text(a).drop_last() =~= pretty_json_text(x)) by {
        reveal_strlit("\n");
    }
    assert(tracked_text(b).drop_last() =~= pretty_json_text(y)) by {
        reveal_strlit("\n");
    }
    tracked_fields_are_plain(a);
    tracked_fields_are_plain(b);
    objects_are_told(x, y);
    found_in_tracked(a);
    found_in_tracked(b);
    names_are_told(a.deleted_roles, b.deleted_roles);
    names_are_told(a.pending_creations, b.pending_creations);
    names_are_told(a.pending_deletions, b.pending_deletions);
    let n = state_fields(a.bindings).len();
    assert(n == state_fields(b.bindings).len());
    assert(x.take(n as int) =~= state_fields(a.bindings));
    assert(y.take(n as int) =~= state_fields(b.bindings));
    state_fields_are_told(a.bindings, b.bindings);
}

proof fn tracked_fields_are_plain(state: TrackedView)
    requires
        tracked_names_are_logical(state),
    ensures
        forall|i: int| 0 <= i < tracked_fields(state).len() ==> is_plain_member(#[trigger] tracked_fields(state)[i]),
{
    reveal_strlit("deleted_roles");
    reveal_strlit("pending_creations");
    reveal_strlit("pending_deletions");
    state_fields_are_plain(state.bindings);
    names_are_plain("deleted_roles"@, state.deleted_roles);
    names_are_plain("pending_creations"@, state.pending_creations);
    names_are_plain("pending_deletions"@, state.pending_deletions);
}

} // verus!
