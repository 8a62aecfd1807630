//! The state file: which logical identifiers are bound to which Discord objects.

use vstd::prelude::*;
use vstd::string::*;

use crate::configuration::definition::{validate_version, version_fault};
use crate::configuration::report::{join_lines, lines, place_report, report_place, silent_place};
use crate::configuration::validation::{checked, fault, Fault, ValidationError};
use crate::domain::{ErrorView, ManagementError, SCHEMA_VERSION};
use crate::ids::{
    everyone, everyone_logical_id, ChannelId, ChannelLogicalId, DiscordId, GuildId, LogicalId, MemberId,
    MemberLogicalId, RoleId, RoleLogicalId,
};
use crate::resource::change::{joined, json_quoted};
use crate::ordered::{
    has_key, lookup, put, put_entry, put_keeps_sorted, sorted, without, without_entry, without_keeps_sorted, OrderedKey,
    OrderedMap,
};
use crate::text::{decimal, decimal_text, text2, text3, text4, text7};
use crate::value::{seen, Plain};

verus! {

/// A state file as it is written.
pub struct RawStateFile {
    pub schema_version: u32,
    pub guild_id: GuildId,
    pub roles: OrderedMap<RoleLogicalId, RoleId>,
    pub channels: OrderedMap<ChannelLogicalId, ChannelId>,
    pub members: OrderedMap<MemberLogicalId, MemberId>,
}

/// Bindings of logical identifiers in one guild.
pub struct StateFile {
    pub schema_version: u32,
    pub guild_id: GuildId,
    pub roles: OrderedMap<RoleLogicalId, RoleId>,
    pub channels: OrderedMap<ChannelLogicalId, ChannelId>,
    pub members: OrderedMap<MemberLogicalId, MemberId>,
}

/// Logical identifiers and the Discord objects they are bound to.
pub type MappingsView = Seq<(Seq<char>, u64)>;

/// What a state file holds.
pub struct StateView {
    pub schema_version: u32,
    pub guild_id: u64,
    pub roles: MappingsView,
    pub channels: MappingsView,
    pub members: MappingsView,
}

impl DeepView for RawStateFile {
    type V = StateView;

    open spec fn deep_view(&self) -> StateView {
        StateView {
            schema_version: self.schema_version,
            guild_id: self.guild_id.deep_view(),
            roles: self.roles.deep_view(),
            channels: self.channels.deep_view(),
            members: self.members.deep_view(),
        }
    }
}

impl DeepView for StateFile {
    type V = StateView;

    open spec fn deep_view(&self) -> StateView {
        StateView {
            schema_version: self.schema_version,
            guild_id: self.guild_id.deep_view(),
            roles: self.roles.deep_view(),
            channels: self.channels.deep_view(),
            members: self.members.deep_view(),
        }
    }
}

impl StateFile {
    /// Another state file with the same bindings.
    pub fn copy(&self) -> (copied: Self)
        ensures
            copied.deep_view() == self.deep_view(),
    {
        StateFile {
            schema_version: self.schema_version,
            guild_id: self.guild_id,
            roles: self.roles.copy(),
            channels: self.channels.copy(),
            members: self.members.copy(),
        }
    }

    /// The state file as it is written.
    pub fn to_raw(&self) -> (raw: RawStateFile)
        ensures
            raw.deep_view() == self.deep_view(),
    {
        RawStateFile {
            schema_version: self.schema_version,
            guild_id: self.guild_id,
            roles: self.roles.copy(),
            channels: self.channels.copy(),
            members: self.members.copy(),
        }
    }
}

/// The logical identifier that is bound to a Discord object: the first in order.
pub open spec fn holder(mappings: MappingsView, id: u64) -> Option<Seq<char>>
    decreases mappings.len(),
{
    if mappings.len() == 0 {
        None
    } else if mappings[0].1 == id {
        Some(mappings[0].0)
    } else {
        holder(mappings.drop_first(), id)
    }
}

/// An entry whose object no earlier entry has is the holder of that object.
pub proof fn holder_of_entry(mappings: MappingsView, i: int)
    requires
        0 <= i < mappings.len(),
        forall|k: int| 0 <= k < i ==> (#[trigger] mappings[k]).1 != mappings[i].1,
    ensures
        holder(mappings, mappings[i].1) == Some(mappings[i].0),
    decreases i,
{
    if i > 0 {
        let rest = mappings.drop_first();
        assert forall|k: int| 0 <= k < i - 1 implies (#[trigger] rest[k]).1 != rest[i - 1].1 by {
            assert(rest[k] == mappings[k + 1]);
        }
        holder_of_entry(rest, i - 1);
        assert(mappings[0].1 != mappings[i].1);
    }
}

/// An object that no entry has is held by none.
pub proof fn holder_of_none(mappings: MappingsView, id: u64)
    requires
        forall|k: int| 0 <= k < mappings.len() ==> (#[trigger] mappings[k]).1 != id,
    ensures
        holder(mappings, id) is None,
    decreases mappings.len(),
{
    if mappings.len() > 0 {
        let rest = mappings.drop_first();
        assert forall|k: int| 0 <= k < rest.len() implies (#[trigger] rest[k]).1 != id by {
            assert(rest[k] == mappings[k + 1]);
        }
        holder_of_none(rest, id);
        assert(mappings[0].1 != id);
    }
}

/// The holder of an object stands in some entry with that object.
pub proof fn holder_has_entry(mappings: MappingsView, id: u64) -> (i: int)
    requires
        holder(mappings, id) is Some,
    ensures
        0 <= i < mappings.len(),
        mappings[i].1 == id,
        holder(mappings, id) == Some(mappings[i].0),
    decreases mappings.len(),
{
    if mappings[0].1 == id {
        0
    } else {
        let i = holder_has_entry(mappings.drop_first(), id);
        i + 1
    }
}

/// The logical identifier that is bound to a Discord object, the first in order
/// within the first `n` entries.
pub fn find_holder<'a, L, D>(
    mappings: &'a OrderedMap<LogicalId<L>, DiscordId<D>>,
    id: u64,
    n: usize,
) -> (found: Option<&'a LogicalId<L>>)
    requires
        n <= mappings.deep_view().len(),
    ensures
        found.deep_view() == holder(mappings.deep_view().take(n as int), id),
{
    let ghost all = mappings.deep_view().take(n as int);
    let mut i: usize = 0;
    while i < n
        invariant
            i <= n <= mappings.deep_view().len(),
            all == mappings.deep_view().take(n as int),
            forall|k: int| 0 <= k < i ==> (#[trigger] all[k]).1 != id,
        decreases n - i,
    {
        if mappings.value_at(i).get() == id {
            proof {
                holder_of_entry(all, i as int);
            }
            return Some(mappings.key_at(i));
        }
        i += 1;
    }
    proof {
        holder_of_none(all, id);
    }
    None
}

/// What is said of the first object from a place on that an earlier logical
/// identifier is bound to as well.
pub open spec fn duplicate_fault(kind: Seq<char>, mappings: MappingsView, i: int) -> Option<Fault>
    decreases mappings.len() - i,
{
    if i < 0 || i >= mappings.len() {
        None
    } else {
        match holder(mappings.take(i), mappings[i].1) {
            Some(first) => Some(
                fault(
                    "duplicate_snowflake"@,
                    kind + " "@ + first + " と "@ + mappings[i].0 + " が同じ Snowflake "@ + decimal(
                        mappings[i].1 as nat,
                    ) + " を参照しています"@,
                ),
            ),
            None => duplicate_fault(kind, mappings, i + 1),
        }
    }
}

/// Whether no two logical identifiers are bound to one object.
pub open spec fn is_injective(mappings: MappingsView) -> bool {
    forall|i: int, j: int|
        0 <= i < j < mappings.len() ==> (#[trigger] mappings[i]).1 != (#[trigger] mappings[j]).1
}

/// No fault is found exactly where no two identifiers share an object.
pub proof fn no_duplicate_means_injective(kind: Seq<char>, mappings: MappingsView, i: int)
    requires
        0 <= i <= mappings.len(),
        is_injective(mappings.take(i)),
    ensures
        duplicate_fault(kind, mappings, i) is None <==> is_injective(mappings),
    decreases mappings.len() - i,
{
    if i == mappings.len() {
        assert(mappings.take(i) =~= mappings);
    } else if holder(mappings.take(i), mappings[i].1) is Some {
        let j = holder_has_entry(mappings.take(i), mappings[i].1);
        assert(mappings[j].1 == mappings[i].1);
    } else {
        assert forall|a: int, b: int| 0 <= a < b < i + 1 implies (#[trigger] mappings.take(i + 1)[a]).1 != (
        #[trigger] mappings.take(i + 1)[b]).1 by {
            if b < i {
                assert(mappings.take(i)[a].1 != mappings.take(i)[b].1);
            } else if mappings[a].1 == mappings[i].1 {
                entry_has_holder(mappings.take(i), a);
                assert(false);
            }
        }
        no_duplicate_means_injective(kind, mappings, i + 1);
    }
}

/// The object of an entry is held.
pub proof fn entry_has_holder(mappings: MappingsView, i: int)
    requires
        0 <= i < mappings.len(),
    ensures
        holder(mappings, mappings[i].1) is Some,
    decreases i,
{
    if i > 0 && mappings[0].1 != mappings[i].1 {
        entry_has_holder(mappings.drop_first(), i - 1);
    }
}

/// Checks that no two logical identifiers are bound to one object.
pub fn validate_unique_mappings<L, D>(
    mappings: &OrderedMap<LogicalId<L>, DiscordId<D>>,
    resource_type: &str,
) -> (result: Result<(), ValidationError>)
    ensures
        seen(result) == checked(duplicate_fault(resource_type@, mappings.deep_view(), 0)),
{
    let mut i: usize = 0;
    while i < mappings.len()
        invariant
            i <= mappings.deep_view().len(),
            duplicate_fault(resource_type@, mappings.deep_view(), 0) == duplicate_fault(
                resource_type@,
                mappings.deep_view(),
                i as int,
            ),
        decreases mappings.deep_view().len() - i,
    {
        let id: u64 = mappings.value_at(i).get();
        match find_holder(mappings, id, i) {
            None => {},
            Some(first) => {
                return Err(
                    ValidationError::new(
                        "duplicate_snowflake",
                        text2(
                            text7(
                                resource_type,
                                " ",
                                first.as_str(),
                                " と ",
                                mappings.key_at(i).as_str(),
                                " が同じ Snowflake ",
                                decimal_text(id).as_str(),
                            ).as_str(),
                            " を参照しています",
                        ).as_str(),
                    ),
                );
            },
        }
        i += 1;
    }
    Ok(())
}

/// What is wrong with the bindings of roles.
pub open spec fn role_mappings_fault(roles: MappingsView) -> Option<Fault> {
    if has_key(roles, everyone()) {
        Some(
            fault(
                "reserved_everyone_logical_id"@,
                "予約論理 ID everyone は state に含めず、definition だけで使用してください"@,
            ),
        )
    } else {
        duplicate_fault("Role"@, roles, 0)
    }
}

/// Checks the bindings of roles.
pub fn validate_role_mappings(roles: &OrderedMap<RoleLogicalId, RoleId>) -> (result: Result<(), ValidationError>)
    ensures
        seen(result) == checked(role_mappings_fault(roles.deep_view())),
{
    if roles.contains_key(&everyone_logical_id()) {
        return Err(
            ValidationError::new(
                "reserved_everyone_logical_id",
                "予約論理 ID everyone は state に含めず、definition だけで使用してください",
            ),
        );
    }
    validate_unique_mappings(roles, "Role")
}

impl StateView {
    /// What is said of the written state: each rule that it breaks, with the place.
    pub open spec fn report(self) -> Seq<char> {
        lines(
            place_report("schema_version"@, version_fault(self.schema_version)),
            lines(
                place_report("roles"@, role_mappings_fault(self.roles)),
                lines(
                    place_report("channels"@, duplicate_fault("Channel"@, self.channels, 0)),
                    place_report("members"@, duplicate_fault("Member"@, self.members, 0)),
                ),
            ),
        )
    }

    /// The state of a guild, if the written state is sound and belongs to it.
    pub open spec fn parsed_for_guild(self, guild_id: u64) -> Result<StateView, ErrorView> {
        if self.report().len() > 0 {
            Err(ErrorView::InvalidState(self.report()))
        } else if self.guild_id != guild_id {
            Err(ErrorView::GuildMismatch { state_guild_id: self.guild_id, actual_guild_id: guild_id })
        } else if holder(self.roles, guild_id) is Some {
            Err(
                ErrorView::InvalidState(
                    "予約参照 everyone の Role ID は state の別の論理 ID に対応付けできません"@,
                ),
            )
        } else {
            Ok(self)
        }
    }

    /// A state that was accepted for its guild.
    pub open spec fn is_sound(self) -> bool {
        &&& self.schema_version == SCHEMA_VERSION
        &&& !has_key(self.roles, everyone())
        &&& is_injective(self.roles)
        &&& is_injective(self.channels)
        &&& is_injective(self.members)
        &&& holder(self.roles, self.guild_id) is None
    }
}

/// A written state is accepted for its own guild exactly where it is sound, and
/// then unchanged: what was accepted once is accepted again.
pub proof fn sound_states_are_accepted(state: StateView)
    ensures
        state.is_sound() <==> state.parsed_for_guild(state.guild_id) == Ok::<StateView, ErrorView>(state),
        state.is_sound() <==> state.parsed_for_guild(state.guild_id) is Ok,
{
    no_duplicate_means_injective("Role"@, state.roles, 0);
    no_duplicate_means_injective("Channel"@, state.channels, 0);
    no_duplicate_means_injective("Member"@, state.members, 0);
    silent_place("schema_version"@, version_fault(state.schema_version));
    silent_place("roles"@, role_mappings_fault(state.roles));
    silent_place("channels"@, duplicate_fault("Channel"@, state.channels, 0));
    silent_place("members"@, duplicate_fault("Member"@, state.members, 0));
}

/// Bindings stay one to one when an object is bound that no other name has.
pub proof fn put_keeps_injective<K: OrderedKey<V = Seq<char>>>(mappings: MappingsView, name: Seq<char>, id: u64)
    requires
        sorted::<K, u64>(mappings),
        is_injective(mappings),
        holder(mappings, id) is Some ==> holder(mappings, id) == Some(name),
    ensures
        is_injective(put::<K, u64>(mappings, name, id)),
{
    let after = put::<K, u64>(mappings, name, id);
    put_keeps_sorted::<K, u64>(mappings, name, id);
    assert forall|i: int, j: int| 0 <= i < j < after.len() implies (#[trigger] after[i]).1 != (#[trigger] after[j]).1 by {
        K::order_is_total(after[i].0, after[j].0);
        put_entry::<K, u64>(mappings, name, id, i);
        put_entry::<K, u64>(mappings, name, id, j);
        if after[i].1 == after[j].1 {
            if mappings.contains(after[i]) {
                entry_of_held(mappings, name, id, mappings.index_of(after[i]));
            }
            if mappings.contains(after[j]) {
                entry_of_held(mappings, name, id, mappings.index_of(after[j]));
            }
            if after[i] != (name, id) && after[j] != (name, id) {
                let a = mappings.index_of(after[i]);
                let b = mappings.index_of(after[j]);
                assert(mappings[a].1 == mappings[b].1);
                assert(a != b);
            }
        }
    }
}

proof fn entry_of_held(mappings: MappingsView, name: Seq<char>, id: u64, i: int)
    requires
        is_injective(mappings),
        holder(mappings, id) is Some ==> holder(mappings, id) == Some(name),
        0 <= i < mappings.len(),
    ensures
        mappings[i].1 == id ==> mappings[i].0 == name,
{
    if mappings[i].1 == id {
        entry_has_holder(mappings, i);
        let k = holder_has_entry(mappings, id);
        assert(mappings[k].1 == mappings[i].1);
    }
}

/// Bindings stay one to one when one is taken away.
pub proof fn without_keeps_injective<K: OrderedKey<V = Seq<char>>>(mappings: MappingsView, name: Seq<char>)
    requires
        sorted::<K, u64>(mappings),
        is_injective(mappings),
    ensures
        is_injective(without(mappings, name)),
{
    let after = without(mappings, name);
    without_keeps_sorted::<K, u64>(mappings, name);
    assert forall|i: int, j: int| 0 <= i < j < after.len() implies (#[trigger] after[i]).1 != (#[trigger] after[j]).1 by {
        K::order_is_total(after[i].0, after[j].0);
        without_entry(mappings, name, i);
        without_entry(mappings, name, j);
        let a = mappings.index_of(after[i]);
        let b = mappings.index_of(after[j]);
        assert(a != b);
        assert(mappings[a].1 != mappings[b].1);
    }
}

/// A sound state stays sound when a name of a role that is not reserved is bound
/// to an object that no name has.
pub proof fn bound_role_keeps_sound(state: StateView, name: Seq<char>, id: u64)
    requires
        state.is_sound(),
        sorted::<RoleLogicalId, u64>(state.roles),
        name != everyone(),
        id != state.guild_id,
        holder(state.roles, id) is Some ==> holder(state.roles, id) == Some(name),
    ensures
        (StateView { roles: put::<RoleLogicalId, u64>(state.roles, name, id), ..state }).is_sound(),
{
    let after = put::<RoleLogicalId, u64>(state.roles, name, id);
    put_keeps_injective::<RoleLogicalId>(state.roles, name, id);
    crate::ordered::put_then_lookup::<RoleLogicalId, u64>(state.roles, name, id, everyone());
    assert forall|k: int| 0 <= k < after.len() implies (#[trigger] after[k]).1 != state.guild_id by {
        put_entry::<RoleLogicalId, u64>(state.roles, name, id, k);
        if after[k] != (name, id) {
            entry_has_holder(state.roles, state.roles.index_of(after[k]));
        }
    }
    holder_of_none(after, state.guild_id);
}

/// A sound state stays sound when a role is unbound.
pub proof fn unbound_role_keeps_sound(state: StateView, name: Seq<char>)
    requires
        state.is_sound(),
        sorted::<RoleLogicalId, u64>(state.roles),
    ensures
        (StateView { roles: without(state.roles, name), ..state }).is_sound(),
{
    let after = without(state.roles, name);
    without_keeps_injective::<RoleLogicalId>(state.roles, name);
    crate::ordered::without_then_lookup(state.roles, name, everyone());
    assert forall|k: int| 0 <= k < after.len() implies (#[trigger] after[k]).1 != state.guild_id by {
        without_entry(state.roles, name, k);
        entry_has_holder(state.roles, state.roles.index_of(after[k]));
    }
    holder_of_none(after, state.guild_id);
}

impl RawStateFile {
    /// Checks the written state by itself.
    pub fn validate(&self) -> (result: Result<(), String>)
        ensures
            result is Ok <==> self.deep_view().report().len() == 0,
            result is Err ==> result->Err_0@ == self.deep_view().report(),
    {
        let version: String = report_place("schema_version", validate_version(self.schema_version));
        let roles: String = report_place("roles", validate_role_mappings(&self.roles));
        let channels: String = report_place("channels", validate_unique_mappings(&self.channels, "Channel"));
        let members: String = report_place("members", validate_unique_mappings(&self.members, "Member"));
        let report: String = join_lines(version, join_lines(roles, join_lines(channels, members)));
        if report.as_str().unicode_len() == 0 {
            Ok(())
        } else {
            Err(report)
        }
    }
}

impl StateFile {
    /// Takes a written state as the state of a guild.
    pub fn parse_for_guild(raw: RawStateFile, guild_id: GuildId) -> (result: Result<Self, ManagementError>)
        ensures
            seen(result) == raw.deep_view().parsed_for_guild(guild_id.deep_view()),
    {
        match raw.validate() {
            Err(report) => {
                return Err(ManagementError::InvalidState(report));
            },
            Ok(()) => {},
        }
        if raw.guild_id.get() != guild_id.get() {
            return Err(
                ManagementError::GuildMismatch { state_guild_id: raw.guild_id, actual_guild_id: guild_id },
            );
        }
        proof {
            assert(raw.roles.deep_view().take(raw.roles.deep_view().len() as int) =~= raw.roles.deep_view());
        }
        if find_holder(&raw.roles, guild_id.get(), raw.roles.len()).is_some() {
            return Err(
                ManagementError::InvalidState(
                    "予約参照 everyone の Role ID は state の別の論理 ID に対応付けできません".to_owned(),
                ),
            );
        }
        Ok(
            StateFile {
                schema_version: raw.schema_version,
                guild_id: raw.guild_id,
                roles: raw.roles,
                channels: raw.channels,
                members: raw.members,
            },
        )
    }
}

/// The bindings that a list of entries gives, or what is said of the first
/// logical identifier that comes twice.
pub open spec fn unique_mappings(
    kind: Seq<char>,
    entries: Seq<(Seq<char>, u64)>,
    gathered: MappingsView,
) -> Result<MappingsView, Seq<char>>
    decreases entries.len(),
{
    if entries.len() == 0 {
        Ok(gathered)
    } else if has_key(gathered, entries[0].0) {
        Err(kind + " 論理 ID "@ + entries[0].0 + " が重複しています"@)
    } else {
        unique_mappings(
            kind,
            entries.drop_first(),
            put::<String, u64>(gathered, entries[0].0, entries[0].1),
        )
    }
}

proof fn put_is_the_same<L>(entries: MappingsView, key: Seq<char>, value: u64)
    ensures
        put::<LogicalId<L>, u64>(entries, key, value) == put::<String, u64>(entries, key, value),
    decreases entries.len(),
{
    if entries.len() > 0 {
        put_is_the_same::<L>(entries.drop_first(), key, value);
    }
}

/// Gathers entries into bindings; a logical identifier may come only once.
pub fn collect_unique_mappings<L, D>(entries: Vec<(LogicalId<L>, DiscordId<D>)>, resource_type: &str) -> (result: Result<
    OrderedMap<LogicalId<L>, DiscordId<D>>,
    String,
>)
    ensures
        seen(result) == unique_mappings(resource_type@, entries.deep_view(), Seq::empty()),
{
    let mut gathered: OrderedMap<LogicalId<L>, DiscordId<D>> = OrderedMap::new();
    let mut i: usize = 0;
    let ghost all = entries.deep_view();
    assert(all.skip(0) =~= all);
    while i < entries.len()
        invariant
            i <= entries@.len(),
            all == entries.deep_view(),
            unique_mappings(resource_type@, all, Seq::empty()) == unique_mappings(
                resource_type@,
                all.skip(i as int),
                gathered.deep_view(),
            ),
        decreases entries@.len() - i,
    {
        assert(all.skip(i as int)[0] == entries@[i as int].deep_view());
        assert(all.skip(i as int).drop_first() =~= all.skip(i + 1));
        if gathered.contains_key(&entries[i].0) {
            return Err(text4(resource_type, " 論理 ID ", entries[i].0.as_str(), " が重複しています"));
        }
        proof {
            put_is_the_same::<L>(gathered.deep_view(), all[i as int].0, all[i as int].1);
        }
        gathered.insert(entries[i].0.copy(), entries[i].1);
        i += 1;
    }
    Ok(gathered)
}

/// The value of a field of a JSON object.
pub enum JsonField {
    Number(u32),
    Text(String),
    Table(Vec<(String, String)>),
    List(Vec<String>),
}

/// What a field of a JSON object holds.
pub enum JsonFieldView {
    Number(u32),
    Text(Seq<char>),
    Table(Seq<(Seq<char>, Seq<char>)>),
    List(Seq<Seq<char>>),
}

impl DeepView for JsonField {
    type V = JsonFieldView;

    open spec fn deep_view(&self) -> JsonFieldView {
        match self {
            JsonField::Number(number) => JsonFieldView::Number(*number),
            JsonField::Text(text) => JsonFieldView::Text(text@),
            JsonField::Table(entries) => JsonFieldView::Table(entries.deep_view()),
            JsonField::List(items) => JsonFieldView::List(items.deep_view()),
        }
    }
}

/// Lines between brackets, each with an indentation, or the brackets alone where
/// there are none.
pub open spec fn bracketed(
    open: Seq<char>,
    lines: Seq<Seq<char>>,
    indent: Seq<char>,
    close: Seq<char>,
) -> Seq<char> {
    if lines.len() == 0 {
        open + close
    } else {
        open + "\n"@ + joined(lines.map_values(|line: Seq<char>| indent + "  "@ + line), ",\n"@) + "\n"@ + indent
            + close
    }
}

/// The text of the value of a field.
pub open spec fn json_value(field: JsonFieldView) -> Seq<char> {
    match field {
        JsonFieldView::Number(number) => decimal(number as nat),
        JsonFieldView::Text(text) => json_quoted(text),
        JsonFieldView::Table(entries) => bracketed(
            "{"@,
            entries.map_values(
                |entry: (Seq<char>, Seq<char>)| json_quoted(entry.0) + ": "@ + json_quoted(entry.1),
            ),
            "  "@,
            "}"@,
        ),
        JsonFieldView::List(items) => bracketed(
            "["@,
            items.map_values(|item: Seq<char>| json_quoted(item)),
            "  "@,
            "]"@,
        ),
    }
}

/// The text of a JSON object with the given fields, on several lines.
pub open spec fn pretty_json_text(fields: Seq<(Seq<char>, JsonFieldView)>) -> Seq<char> {
    bracketed(
        "{"@,
        fields.map_values(
            |field: (Seq<char>, JsonFieldView)| json_quoted(field.0) + ": "@ + json_value(field.1),
        ),
        ""@,
        "}"@,
    )
}

/// Whether no name stands twice.
pub open spec fn distinct_names<W>(entries: Seq<(Seq<char>, W)>) -> bool {
    forall|i: int, j: int| 0 <= i < j < entries.len() ==> (#[trigger] entries[i]).0 != (#[trigger] entries[j]).0
}

/// Whether no name stands twice in an object or in a table of it.
pub open spec fn is_json_object(fields: Seq<(Seq<char>, JsonFieldView)>) -> bool {
    &&& distinct_names(fields)
    &&& forall|i: int|
        0 <= i < fields.len() && (#[trigger] fields[i]).1 is Table ==> distinct_names(fields[i].1->Table_0)
}

/// Calls `serde_json::to_string_pretty` on an object with the given fields, in
/// their order. It writes each field, and each entry of a table or a list, on a
/// line of its own with two more spaces than the line with the opening bracket
/// has. Writing such an object does not fail.
#[verifier::external_body]
fn pretty_json(fields: &Vec<(String, JsonField)>) -> (result: Result<String, String>)
    requires
        is_json_object(fields.deep_view()),
    ensures
        result is Ok,
        result->Ok_0@ == pretty_json_text(fields.deep_view()),
{
    let mut object = serde_json::Map::new();
    for (name, field) in fields {
        let value = match field {
            JsonField::Number(number) => serde_json::Value::from(*number),
            JsonField::Text(text) => serde_json::Value::from(text.as_str()),
            JsonField::Table(entries) => entries.iter().map(|(key, text)| (key.clone(), text.clone())).collect(),
            JsonField::List(items) => serde_json::Value::from(items.as_slice()),
        };
        object.insert(name.clone(), value);
    }
    serde_json::to_string_pretty(&object).map_err(|error| error.to_string())
}

/// Bindings as names and decimal texts.
pub open spec fn mapping_texts(mappings: MappingsView) -> Seq<(Seq<char>, Seq<char>)> {
    mappings.map_values(|entry: (Seq<char>, u64)| (entry.0, decimal(entry.1 as nat)))
}

/// The fields that a state is written with. Channels and members are left out
/// where there are none.
pub open spec fn state_fields(state: StateView) -> Seq<(Seq<char>, JsonFieldView)> {
    let head = seq![
        ("schema_version"@, JsonFieldView::Number(state.schema_version)),
        ("guild_id"@, JsonFieldView::Text(decimal(state.guild_id as nat))),
        ("roles"@, JsonFieldView::Table(mapping_texts(state.roles))),
    ];
    let channels = if state.channels.len() == 0 {
        Seq::empty()
    } else {
        seq![("channels"@, JsonFieldView::Table(mapping_texts(state.channels)))]
    };
    let members = if state.members.len() == 0 {
        Seq::empty()
    } else {
        seq![("members"@, JsonFieldView::Table(mapping_texts(state.members)))]
    };
    head + channels + members
}

/// The text of a state file.
pub open spec fn state_text(state: StateView) -> Seq<char> {
    pretty_json_text(state_fields(state)) + "\n"@
}

fn mapping_fields<L, D>(mappings: &OrderedMap<LogicalId<L>, DiscordId<D>>) -> (entries: Vec<(String, String)>)
    ensures
        entries.deep_view() == mapping_texts(mappings.deep_view()),
        distinct_names(entries.deep_view()),
{
    let mut entries: Vec<(String, String)> = Vec::new();
    let mut i: usize = 0;
    while i < mappings.len()
        invariant
            i <= mappings.deep_view().len(),
            entries@.len() == i,
            forall|k: int|
                0 <= k < i ==> (#[trigger] entries@[k]).deep_view() == mapping_texts(mappings.deep_view())[k],
        decreases mappings.deep_view().len() - i,
    {
        entries.push((mappings.key_at(i).as_str().to_owned(), mappings.value_at(i).to_text()));
        i += 1;
    }
    let ghost all = mappings.deep_view();
    let _n: usize = mappings.len();
    proof {
        assert(entries.deep_view() =~= mapping_texts(all));
        assert forall|i: int, j: int| 0 <= i < j < all.len() implies (#[trigger] mapping_texts(all)[i]).0 != (
        #[trigger] mapping_texts(all)[j]).0 by {
            assert(all[i].0 != all[j].0) by {
                <LogicalId<L> as OrderedKey>::order_is_total(all[i].0, all[j].0);
            }
        }
    }
    entries
}

/// The text of an object with the given fields, with a line break at its end.
pub fn serialize_fields(fields: &Vec<(String, JsonField)>) -> (result: Result<String, ManagementError>)
    requires
        is_json_object(fields.deep_view()),
    ensures
        seen(result) == Ok::<Seq<char>, ErrorView>(pretty_json_text(fields.deep_view()) + "\n"@),
{
    match pretty_json(fields) {
        Ok(json) => Ok(text2(json.as_str(), "\n")),
        Err(error) => Err(ManagementError::SerializeState(error)),
    }
}

/// The fields that a state is written with.
pub fn fields_of(state: &StateFile) -> (fields: Vec<(String, JsonField)>)
    ensures
        fields.deep_view() == state_fields(state.deep_view()),
        is_json_object(fields.deep_view()),
        fields@.len() <= 5,
{
    let mut fields: Vec<(String, JsonField)> = Vec::new();
    fields.push(("schema_version".to_owned(), JsonField::Number(state.schema_version)));
    fields.push(("guild_id".to_owned(), JsonField::Text(state.guild_id.to_text())));
    fields.push(("roles".to_owned(), JsonField::Table(mapping_fields(&state.roles))));
    if !state.channels.is_empty() {
        fields.push(("channels".to_owned(), JsonField::Table(mapping_fields(&state.channels))));
    }
    if !state.members.is_empty() {
        fields.push(("members".to_owned(), JsonField::Table(mapping_fields(&state.members))));
    }
    assert(fields.deep_view() =~= state_fields(state.deep_view()));
    proof {
        field_names_differ();
    }
    fields
}

/// The names of the fields of a state differ.
pub proof fn field_names_differ()
    ensures
        "schema_version"@.len() == 14,
        "guild_id"@.len() == 8,
        "roles"@.len() == 5,
        "channels"@.len() == 8,
        "members"@.len() == 7,
        "guild_id"@ != "channels"@,
{
    reveal_strlit("schema_version");
    reveal_strlit("guild_id");
    reveal_strlit("roles");
    reveal_strlit("channels");
    reveal_strlit("members");
    assert("guild_id"@[0] != "channels"@[0]);
}

/// The text of a state file.
pub fn serialize_state(state: &StateFile) -> (result: Result<String, ManagementError>)
    ensures
        seen(result) == Ok::<Seq<char>, ErrorView>(state_text(state.deep_view())),
{
    serialize_fields(&fields_of(state))
}

/// The Discord identifier of a declared role, if it is known.
pub open spec fn role_id_of(state: StateView, id: Seq<char>) -> Option<u64> {
    if id == everyone() {
        Some(state.guild_id)
    } else {
        lookup(state.roles, id)
    }
}

/// The Discord identifier of a declared role. The role that every member has
/// bears the identifier of its guild.
pub fn resolve_role_id(logical_id: &RoleLogicalId, state: &StateFile) -> (result: Result<RoleId, ManagementError>)
    ensures
        seen(result) == match role_id_of(state.deep_view(), logical_id.deep_view()) {
            Some(id) => Ok(id),
            None => Err(
                ErrorView::InvalidState("Role "@ + logical_id.deep_view() + " の対応がありません"@),
            ),
        },
{
    if logical_id.is_everyone() {
        return Ok(RoleId::new(state.guild_id.get()));
    }
    match state.roles.get(logical_id) {
        Some(id) => Ok(*id),
        None => Err(
            ManagementError::InvalidState(text3("Role ", logical_id.as_str(), " の対応がありません")),
        ),
    }
}

} // verus!
