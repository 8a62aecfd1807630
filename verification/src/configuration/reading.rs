//! Which written definitions are read, and what is read from them.

use vstd::prelude::*;

use crate::configuration::acceptance::{can_be_made, orders_are_accepted_where_they_can_be_made};
use crate::configuration::channel::{
    composed_sets, first_unknown_overwrite, ChannelAttributesView, ChannelDefinitionView, ChannelKind, ChannelValue,
    Ensure, MemberDefinition, OverwritesView, RawChannelAttributes, RawChannelDefinition, RawChannelDefinitionView,
};
use crate::configuration::composition::sets_are_declared;
use crate::configuration::definition::{
    channel_set_error, children_names_fault, message_ids_fault, message_report, messages_report, parsed_channels,
    parsed_roles, resource_name_fault, role_set_error, MessageSetView, OrderView, RawDefinitionView,
    RawMessageSetDefinition, RawThreadDefinition, SettingsSetsView, ThreadView,
};
use crate::configuration::permission::first_unknown;
use crate::configuration::report::{entries_report, entry, part, place_report, silent_place, Reported};
use crate::configuration::role::{
    ManagedValue, RawRoleAttributes, RawRoleDefinition, RawRoleDefinitionView, RoleAttributesView, RoleDefinitionView,
    RoleEnsure, RoleMode,
};
use crate::configuration::validation::first_repeated;
use crate::domain::ErrorView;
use crate::ids::is_logical_id;
use crate::ordered::{first_in_none, has_key, lookup};

verus! {

/// Whether the attributes of a role keep the rules for single attributes.
pub open spec fn role_is_well_written(attributes: RoleAttributesView) -> bool {
    attributes.name matches Some(ManagedValue::Value(name)) ==> 1 <= name.len() <= 100
}

/// Whether a pause is not longer than six hours.
pub open spec fn is_pause(value: Option<ChannelValue<u16>>) -> bool {
    value matches Some(ChannelValue::Value(seconds)) ==> seconds <= 21600
}

/// Whether the attributes of a channel keep the rules for single attributes.
pub open spec fn channel_is_well_written(attributes: ChannelAttributesView) -> bool {
    &&& attributes.name is Some ==> attributes.name->0 is Value && 1 <= attributes.name->0->Value_0.len() <= 100
    &&& attributes.parent is Some ==> !(attributes.parent->0 is Default)
    &&& attributes.topic matches Some(ChannelValue::Value(topic)) ==> topic.len() <= 1024
    &&& attributes.nsfw is Some ==> !(attributes.nsfw->0 is Clear)
    &&& is_pause(attributes.slowmode_seconds)
    &&& attributes.default_auto_archive_minutes matches Some(ChannelValue::Value(minutes)) ==> minutes == 60 || minutes
        == 1440 || minutes == 4320 || minutes == 10080
    &&& is_pause(attributes.default_thread_slowmode_seconds)
}

/// Whether messages say something, each under a name of its own.
pub open spec fn messages_are_well_written(messages: Seq<(Seq<char>, Seq<char>)>) -> bool {
    &&& forall|k: int| 0 <= k < messages.len() ==> (#[trigger] messages[k]).1.len() > 0
    &&& names_differ(messages)
}

/// Whether no name stands twice.
pub open spec fn names_differ<W>(entries: Seq<(Seq<char>, W)>) -> bool {
    forall|j: int, k: int| 0 <= j < k < entries.len() ==> (#[trigger] entries[j]).0 != (#[trigger] entries[k]).0
}

/// Whether a set of messages is complete, or empty where it shall be absent.
pub open spec fn message_set_is_well_written(set: MessageSetView) -> bool {
    if set.ensure == Some(Ensure::Absent) {
        set.channel is None && set.body is None
    } else {
        set.channel is Some && set.body is Some && messages_are_well_written(set.body->0)
    }
}

/// Whether a thread is complete, or empty where it shall be absent.
pub open spec fn thread_is_well_written(thread: ThreadView) -> bool {
    if thread.ensure == Some(Ensure::Absent) {
        thread.channel is None && thread.name is None && thread.body is None
    } else {
        &&& thread.ensure is None
        &&& thread.channel is Some
        &&& thread.name is Some && 1 <= thread.name->0.len() <= 100
        &&& thread.body is Some && messages_are_well_written(thread.body->0)
    }
}

/// Whether no value stands twice.
pub open spec fn all_differ<W>(values: Seq<W>) -> bool {
    forall|j: int, k: int| 0 <= j < k < values.len() ==> #[trigger] values[j] != #[trigger] values[k]
}

/// Whether an order names nothing twice in one place.
pub open spec fn order_is_well_written(order: OrderView) -> bool {
    &&& all_differ(order.roles)
    &&& all_differ(order.categories)
    &&& all_differ(order.uncategorized)
    &&& forall|k: int| 0 <= k < order.children.len() ==> all_differ((#[trigger] order.children[k]).1)
}

/// Whether every part of a written definition keeps the rules for it.
pub open spec fn is_well_written(raw: RawDefinitionView) -> bool {
    &&& raw.schema_version == 1
    &&& forall|k: int|
        0 <= k < raw.settings_sets.role.len() ==> role_is_well_written((#[trigger] raw.settings_sets.role[k]).1)
    &&& forall|k: int|
        0 <= k < raw.settings_sets.channel.len() ==> channel_is_well_written(
            (#[trigger] raw.settings_sets.channel[k]).1,
        )
    &&& forall|k: int| 0 <= k < raw.roles.len() ==> role_is_well_written((#[trigger] raw.roles[k]).1.attributes)
    &&& forall|k: int|
        0 <= k < raw.channels.len() ==> channel_is_well_written((#[trigger] raw.channels[k]).1.attributes)
    &&& forall|k: int| 0 <= k < raw.members.len() ==> (#[trigger] raw.members[k]).1 == RoleMode::Reference
    &&& forall|k: int|
        0 <= k < raw.message_sets.len() ==> is_logical_id((#[trigger] raw.message_sets[k]).0)
            && message_set_is_well_written(raw.message_sets[k].1)
    &&& forall|k: int|
        0 <= k < raw.threads.len() ==> is_logical_id((#[trigger] raw.threads[k]).0) && thread_is_well_written(
            raw.threads[k].1,
        )
    &&& raw.order is Some ==> order_is_well_written(raw.order->0)
}

proof fn nothing_is_said_of_entries<K, W>(
    path: Seq<char>,
    entries: Seq<(K, W)>,
    i: int,
    said: spec_fn(W, Seq<char>) -> Seq<char>,
)
    requires
        0 <= i <= entries.len(),
    ensures
        entries_report(path, entries, i, said).len() == 0 <==> forall|k: int|
            i <= k < entries.len() ==> said((#[trigger] entries[k]).1, entry(path, k)).len() == 0,
    decreases entries.len() - i,
{
    if i < entries.len() {
        nothing_is_said_of_entries(path, entries, i + 1, said);
    }
}

proof fn nothing_is_said_of_role(attributes: RoleAttributesView, path: Seq<char>)
    ensures
        attributes.report(path).len() == 0 <==> role_is_well_written(attributes),
{
    silent_place(part(path, "name"@), attributes.name_fault());
}

proof fn nothing_is_said_of_channel(attributes: ChannelAttributesView, path: Seq<char>)
    ensures
        attributes.report(path).len() == 0 <==> channel_is_well_written(attributes),
{
    silent_place(part(path, "name"@), attributes.name_fault());
    silent_place(part(path, "parent"@), attributes.parent_fault());
    silent_place(part(path, "topic"@), attributes.topic_fault());
    silent_place(part(path, "nsfw"@), attributes.nsfw_fault());
    silent_place(part(path, "slowmode_seconds"@), attributes.slowmode_fault());
    silent_place(
        part(path, "default_auto_archive_minutes"@),
        crate::configuration::channel::auto_archive_fault(attributes.default_auto_archive_minutes),
    );
    silent_place(part(path, "default_thread_slowmode_seconds"@), attributes.thread_slowmode_fault());
}

proof fn nothing_is_said_of_messages(messages: Seq<(Seq<char>, Seq<char>)>, path: Seq<char>)
    ensures
        messages_report(Some(messages), path).len() == 0 <==> forall|k: int|
            0 <= k < messages.len() ==> (#[trigger] messages[k]).1.len() > 0,
{
    let said = |body: Seq<char>, place: Seq<char>| message_report(body, place);
    nothing_is_said_of_entries(path, messages, 0, said);
    assert forall|k: int| 0 <= k < messages.len() implies (said((#[trigger] messages[k]).1, entry(path, k)).len() == 0
        <==> messages[k].1.len() > 0) by {
        silent_place(
            part(entry(path, k), "body"@),
            crate::configuration::definition::message_fault(messages[k].1),
        );
    }
}

proof fn no_key_stands(entries: Seq<(Seq<char>, Seq<char>)>, key: Seq<char>)
    ensures
        has_key(entries, key) <==> exists|k: int| 0 <= k < entries.len() && (#[trigger] entries[k]).0 == key,
    decreases entries.len(),
{
    if entries.len() > 0 {
        let rest = entries.drop_first();
        no_key_stands(rest, key);
        if entries[0].0 == key {
            assert(entries[0].0 == key);
        } else {
            if exists|k: int| 0 <= k < entries.len() && (#[trigger] entries[k]).0 == key {
                let k = choose|k: int| 0 <= k < entries.len() && (#[trigger] entries[k]).0 == key;
                assert(rest[k - 1] == entries[k]);
            }
            if exists|k: int| 0 <= k < rest.len() && (#[trigger] rest[k]).0 == key {
                let k = choose|k: int| 0 <= k < rest.len() && (#[trigger] rest[k]).0 == key;
                assert(entries[k + 1] == rest[k]);
            }
        }
    }
}

proof fn messages_have_their_names(messages: Seq<(Seq<char>, Seq<char>)>, i: int)
    requires
        0 <= i <= messages.len(),
    ensures
        message_ids_fault(messages, i) is None <==> forall|j: int, k: int|
            0 <= j < k < messages.len() && i <= k ==> (#[trigger] messages[j]).0 != (#[trigger] messages[k]).0,
    decreases messages.len() - i,
{
    if i < messages.len() {
        let head = messages.take(i);
        messages_have_their_names(messages, i + 1);
        no_key_stands(head, messages[i].0);
        if has_key(head, messages[i].0) {
            let j = choose|j: int| 0 <= j < head.len() && (#[trigger] head[j]).0 == messages[i].0;
            assert(messages[j].0 == messages[i].0);
        } else {
            assert forall|j: int| 0 <= j < i implies (#[trigger] messages[j]).0 != messages[i].0 by {
                assert(head[j] == messages[j]);
            }
        }
    }
}

proof fn nothing_stands_twice<W>(values: Seq<W>, i: int)
    requires
        0 <= i <= values.len(),
    ensures
        first_repeated(values, i) is None <==> forall|j: int, k: int|
            0 <= j < k < values.len() && i <= k ==> #[trigger] values[j] != #[trigger] values[k],
    decreases values.len() - i,
{
    if i < values.len() {
        let head = values.take(i);
        nothing_stands_twice(values, i + 1);
        if head.contains(values[i]) {
            let j = choose|j: int| 0 <= j < head.len() && #[trigger] head[j] == values[i];
            assert(values[j] == values[i]);
        } else {
            assert forall|j: int| 0 <= j < i implies #[trigger] values[j] != values[i] by {
                assert(head[j] == values[j]);
            }
        }
    }
}

proof fn nothing_is_said_of_set(set: MessageSetView, path: Seq<char>)
    ensures
        set.report(path).len() == 0 <==> message_set_is_well_written(set),
{
    silent_place(part(path, "__all__"@), set.parts_fault());
    if set.body is Some {
        nothing_is_said_of_messages(set.body->0, part(path, "body"@));
        messages_have_their_names(set.body->0, 0);
    }
}

proof fn nothing_is_said_of_thread(thread: ThreadView, path: Seq<char>)
    ensures
        thread.report(path).len() == 0 <==> thread_is_well_written(thread),
{
    silent_place(part(path, "__all__"@), thread.parts_fault());
    silent_place(part(path, "name"@), thread.name_fault());
    if thread.body is Some {
        nothing_is_said_of_messages(thread.body->0, part(path, "body"@));
        messages_have_their_names(thread.body->0, 0);
    }
    let name = place_report(part(path, "name"@), thread.name_fault());
    let body = messages_report(thread.body, part(path, "body"@));
    assert((name + body).len() == name.len() + body.len());
    match thread.ensure {
        Some(Ensure::Absent) => {},
        Some(Ensure::Present) => {},
        None => {},
    }
}

proof fn nothing_is_said_of_order(order: OrderView, path: Seq<char>)
    ensures
        order.report(path).len() == 0 <==> order_is_well_written(order),
{
    silent_place(part(path, "roles"@), crate::configuration::definition::repeated_fault("Role"@, order.roles));
    silent_place(
        part(path, "categories"@),
        crate::configuration::definition::repeated_fault("Channel"@, order.categories),
    );
    silent_place(
        part(path, "uncategorized"@),
        crate::configuration::definition::repeated_fault("Channel"@, order.uncategorized),
    );
    silent_place(part(path, "children"@), order.children_fault());
    nothing_stands_twice(order.roles, 0);
    nothing_stands_twice(order.categories, 0);
    nothing_stands_twice(order.uncategorized, 0);
    let check = |parent: Seq<char>, children: Seq<Seq<char>>| children_names_fault(parent, children);
    first_in_none(order.children, check);
    assert forall|k: int| 0 <= k < order.children.len() implies (check(
        (#[trigger] order.children[k]).0,
        order.children[k].1,
    ) is None <==> all_differ(order.children[k].1)) by {
        nothing_stands_twice(order.children[k].1, 0);
    }
}

proof fn nothing_is_said_of_declared(raw: RawDefinitionView)
    ensures
        raw.declared_report().len() == 0 <==> {
            &&& forall|k: int| 0 <= k < raw.roles.len() ==> role_is_well_written((#[trigger] raw.roles[k]).1.attributes)
            &&& forall|k: int|
                0 <= k < raw.channels.len() ==> channel_is_well_written((#[trigger] raw.channels[k]).1.attributes)
            &&& forall|k: int| 0 <= k < raw.members.len() ==> (#[trigger] raw.members[k]).1 == RoleMode::Reference
        },
{
    let role_said = |role: RawRoleDefinitionView, place: Seq<char>| RawRoleDefinition::said(role, place);
    let channel_said = |channel: RawChannelDefinitionView, place: Seq<char>|
        RawChannelDefinition::said(channel, place);
    let member_said = |mode: RoleMode, place: Seq<char>| MemberDefinition::said(mode, place);
    nothing_is_said_of_entries("roles"@, raw.roles, 0, role_said);
    nothing_is_said_of_entries("channels"@, raw.channels, 0, channel_said);
    nothing_is_said_of_entries("members"@, raw.members, 0, member_said);
    assert forall|k: int| 0 <= k < raw.roles.len() implies (role_said(
        (#[trigger] raw.roles[k]).1,
        entry("roles"@, k),
    ).len() == 0 <==> role_is_well_written(raw.roles[k].1.attributes)) by {
        nothing_is_said_of_role(raw.roles[k].1.attributes, part(entry("roles"@, k), "attributes"@));
    }
    assert forall|k: int| 0 <= k < raw.channels.len() implies (channel_said(
        (#[trigger] raw.channels[k]).1,
        entry("channels"@, k),
    ).len() == 0 <==> channel_is_well_written(raw.channels[k].1.attributes)) by {
        nothing_is_said_of_channel(raw.channels[k].1.attributes, part(entry("channels"@, k), "attributes"@));
    }
    assert forall|k: int| 0 <= k < raw.members.len() implies (member_said(
        (#[trigger] raw.members[k]).1,
        entry("members"@, k),
    ).len() == 0 <==> raw.members[k].1 == RoleMode::Reference) by {
        silent_place(
            part(entry("members"@, k), "mode"@),
            crate::configuration::channel::member_fault(raw.members[k].1),
        );
    }
}

proof fn nothing_is_said_of_resources(raw: RawDefinitionView)
    ensures
        raw.resources_report().len() == 0 <==> {
            &&& forall|k: int|
                0 <= k < raw.message_sets.len() ==> is_logical_id((#[trigger] raw.message_sets[k]).0)
                    && message_set_is_well_written(raw.message_sets[k].1)
            &&& forall|k: int|
                0 <= k < raw.threads.len() ==> is_logical_id((#[trigger] raw.threads[k]).0) && thread_is_well_written(
                    raw.threads[k].1,
                )
            &&& raw.order is Some ==> order_is_well_written(raw.order->0)
        },
{
    let set_said = |set: MessageSetView, place: Seq<char>| RawMessageSetDefinition::said(set, place);
    let thread_said = |thread: ThreadView, place: Seq<char>| RawThreadDefinition::said(thread, place);
    let set_check = |name: Seq<char>, value: MessageSetView| resource_name_fault(name);
    let thread_check = |name: Seq<char>, value: ThreadView| resource_name_fault(name);
    first_in_none(raw.message_sets, set_check);
    first_in_none(raw.threads, thread_check);
    silent_place("message_sets"@, crate::ordered::first_in(raw.message_sets, set_check));
    silent_place("threads"@, crate::ordered::first_in(raw.threads, thread_check));
    nothing_is_said_of_entries("message_sets"@, raw.message_sets, 0, set_said);
    nothing_is_said_of_entries("threads"@, raw.threads, 0, thread_said);
    assert forall|k: int| 0 <= k < raw.message_sets.len() implies (set_said(
        (#[trigger] raw.message_sets[k]).1,
        entry("message_sets"@, k),
    ).len() == 0 <==> message_set_is_well_written(raw.message_sets[k].1)) && (set_check(
        raw.message_sets[k].0,
        raw.message_sets[k].1,
    ) is None <==> is_logical_id(raw.message_sets[k].0)) by {
        nothing_is_said_of_set(raw.message_sets[k].1, entry("message_sets"@, k));
    }
    assert forall|k: int| 0 <= k < raw.threads.len() implies (thread_said(
        (#[trigger] raw.threads[k]).1,
        entry("threads"@, k),
    ).len() == 0 <==> thread_is_well_written(raw.threads[k].1)) && (thread_check(raw.threads[k].0, raw.threads[k].1)
        is None <==> is_logical_id(raw.threads[k].0)) by {
        nothing_is_said_of_thread(raw.threads[k].1, entry("threads"@, k));
    }
    if raw.order is Some {
        nothing_is_said_of_order(raw.order->0, "order"@);
    }
}

/// Nothing is said of a written definition exactly where every part of it keeps the rules:
/// names and topics are neither too long nor empty, pauses and archive times are ones that
/// Discord has, members are only referred to, messages and threads are complete or absent,
/// and nothing is named twice.
pub proof fn nothing_is_said_of_what_is_well_written(raw: RawDefinitionView)
    ensures
        raw.report().len() == 0 <==> is_well_written(raw),
{
    let role_said = |attributes: RoleAttributesView, place: Seq<char>| RawRoleAttributes::said(attributes, place);
    let channel_said = |attributes: ChannelAttributesView, place: Seq<char>|
        RawChannelAttributes::said(attributes, place);
    let sets = raw.settings_sets;
    let path = "settings_sets"@;
    silent_place("schema_version"@, crate::configuration::definition::version_fault(raw.schema_version));
    nothing_is_said_of_entries(part(path, "role"@), sets.role, 0, role_said);
    nothing_is_said_of_entries(part(path, "channel"@), sets.channel, 0, channel_said);
    assert forall|k: int| 0 <= k < sets.role.len() implies (role_said(
        (#[trigger] sets.role[k]).1,
        entry(part(path, "role"@), k),
    ).len() == 0 <==> role_is_well_written(sets.role[k].1)) by {
        nothing_is_said_of_role(sets.role[k].1, entry(part(path, "role"@), k));
    }
    assert forall|k: int| 0 <= k < sets.channel.len() implies (channel_said(
        (#[trigger] sets.channel[k]).1,
        entry(part(path, "channel"@), k),
    ).len() == 0 <==> channel_is_well_written(sets.channel[k].1)) by {
        nothing_is_said_of_channel(sets.channel[k].1, entry(part(path, "channel"@), k));
        nothing_is_said_of_channel(sets.channel[k].1, part(entry(part(path, "channel"@), k), "attributes"@));
    }
    nothing_is_said_of_declared(raw);
    nothing_is_said_of_resources(raw);
}

/// Whether every entry stands under a known name.
pub open spec fn all_are_known<W>(entries: Seq<(Seq<char>, W)>, known: Seq<(Seq<char>, ())>) -> bool {
    forall|k: int| 0 <= k < entries.len() ==> has_key(known, (#[trigger] entries[k]).0)
}

pub(crate) proof fn known_entries_are_found<W>(entries: Seq<(Seq<char>, W)>, known: Seq<(Seq<char>, ())>)
    ensures
        first_unknown(entries, known) is None <==> all_are_known(entries, known),
    decreases entries.len(),
{
    if entries.len() > 0 {
        let rest = entries.drop_first();
        known_entries_are_found(rest, known);
        if all_are_known(rest, known) && has_key(known, entries[0].0) {
            assert forall|k: int| 0 <= k < entries.len() implies has_key(known, (#[trigger] entries[k]).0) by {
                if k > 0 {
                    assert(rest[k - 1] == entries[k]);
                }
            }
        }
        if all_are_known(entries, known) {
            assert forall|k: int| 0 <= k < rest.len() implies has_key(known, (#[trigger] rest[k]).0) by {
                assert(entries[k + 1] == rest[k]);
            }
            assert(has_key(known, entries[0].0));
        }
    }
}

/// Whether every overwritten permission is known.
pub open spec fn all_overwrites_are_known(overwrites: OverwritesView, known: Seq<(Seq<char>, ())>) -> bool {
    forall|k: int| 0 <= k < overwrites.len() ==> all_are_known((#[trigger] overwrites[k]).1, known)
}

proof fn known_overwrites_are_found(overwrites: OverwritesView, known: Seq<(Seq<char>, ())>)
    ensures
        first_unknown_overwrite(overwrites, known) is None <==> all_overwrites_are_known(overwrites, known),
    decreases overwrites.len(),
{
    if overwrites.len() > 0 {
        let rest = overwrites.drop_first();
        known_overwrites_are_found(rest, known);
        known_entries_are_found(overwrites[0].1, known);
        if all_overwrites_are_known(rest, known) && all_are_known(overwrites[0].1, known) {
            assert forall|k: int| 0 <= k < overwrites.len() implies all_are_known(
                (#[trigger] overwrites[k]).1,
                known,
            ) by {
                if k > 0 {
                    assert(rest[k - 1] == overwrites[k]);
                }
            }
        }
        if all_overwrites_are_known(overwrites, known) {
            assert forall|k: int| 0 <= k < rest.len() implies all_are_known((#[trigger] rest[k]).1, known) by {
                assert(overwrites[k + 1] == rest[k]);
            }
            assert(all_are_known(overwrites[0].1, known));
        }
    }
}

/// Whether a written role says nothing but that it is there.
pub open spec fn says_nothing_else(raw: RawRoleDefinitionView) -> bool {
    &&& raw.settings_sets.len() == 0
    &&& raw.attributes.name is None
    &&& raw.attributes.color is None
    &&& raw.attributes.hoist is None
    &&& raw.attributes.mentionable is None
    &&& raw.attributes.permissions.len() == 0
}

/// A written role is read exactly where each of its settings sets is declared and named
/// once, each of its permissions is known, and it says nothing else where it shall be absent
/// or is only referred to. What is read is what is written.
pub proof fn roles_declare_what_is_written(
    raw: RawRoleDefinitionView,
    id: Seq<char>,
    declared: Seq<(Seq<char>, RoleAttributesView)>,
    known: Seq<(Seq<char>, ())>,
)
    ensures
        ({
            let result = raw.parsed(id, declared, known);
            let sets = raw.settings_sets;
            &&& result is Ok <==> {
                &&& forall|k: int| 0 <= k < sets.len() ==> has_key(declared, #[trigger] sets[k])
                &&& all_differ(sets)
                &&& all_are_known(raw.attributes.permissions, known)
                &&& raw.ensure == RoleEnsure::Absent ==> raw.mode == RoleMode::Managed && says_nothing_else(raw)
                &&& raw.mode == RoleMode::Reference ==> says_nothing_else(raw)
            }
            &&& result is Ok ==> {
                let role = result->Ok_0;
                &&& role is Absent <==> raw.ensure == RoleEnsure::Absent
                &&& role is Reference <==> raw.mode == RoleMode::Reference
                &&& role is Managed ==> role->settings_sets == sets && role->Managed_attributes == raw.attributes
            }
        }),
{
    sets_are_declared("Role "@, id, raw.settings_sets, declared, 0);
    known_entries_are_found(raw.attributes.permissions, known);
}

proof fn roles_are_read_one_by_one(
    roles: Seq<(Seq<char>, RawRoleDefinitionView)>,
    sets: Seq<(Seq<char>, RoleAttributesView)>,
    known: Seq<(Seq<char>, ())>,
    parsed: Seq<(Seq<char>, RoleDefinitionView)>,
)
    ensures
        ({
            let result = parsed_roles(roles, sets, known, parsed);
            &&& result is Ok <==> forall|k: int|
                0 <= k < roles.len() ==> (#[trigger] roles[k]).1.parsed(roles[k].0, sets, known) is Ok
            &&& result is Ok ==> {
                &&& result->Ok_0.len() == parsed.len() + roles.len()
                &&& forall|k: int| 0 <= k < parsed.len() ==> #[trigger] result->Ok_0[k] == parsed[k]
                &&& forall|k: int|
                    0 <= k < roles.len() ==> result->Ok_0[parsed.len() + k] == (
                        (#[trigger] roles[k]).0,
                        roles[k].1.parsed(roles[k].0, sets, known)->Ok_0,
                    )
            }
        }),
    decreases roles.len(),
{
    if roles.len() > 0 {
        let rest = roles.drop_first();
        let first = roles[0].1.parsed(roles[0].0, sets, known);
        if first is Ok {
            let next = parsed.push((roles[0].0, first->Ok_0));
            roles_are_read_one_by_one(rest, sets, known, next);
            let result = parsed_roles(rest, sets, known, next);
            if result is Ok {
                assert forall|k: int| 0 <= k < roles.len() implies (#[trigger] roles[k]).1.parsed(
                    roles[k].0,
                    sets,
                    known,
                ) is Ok && result->Ok_0[parsed.len() + k] == (
                    roles[k].0,
                    roles[k].1.parsed(roles[k].0, sets, known)->Ok_0,
                ) by {
                    if k > 0 {
                        assert(rest[k - 1] == roles[k]);
                    } else {
                        assert(result->Ok_0[parsed.len() as int] == next[parsed.len() as int]);
                    }
                }
                assert forall|k: int| 0 <= k < parsed.len() implies #[trigger] result->Ok_0[k] == parsed[k] by {
                    assert(result->Ok_0[k] == next[k]);
                }
            } else {
                let k = choose|k: int|
                    0 <= k < rest.len() && !((#[trigger] rest[k]).1.parsed(rest[k].0, sets, known) is Ok);
                assert(roles[k + 1] == rest[k]);
            }
        } else {
            assert(!(roles[0].1.parsed(roles[0].0, sets, known) is Ok));
        }
    }
}

proof fn channels_are_read_one_by_one(
    channels: Seq<(Seq<char>, RawChannelDefinitionView)>,
    sets: Seq<(Seq<char>, ChannelAttributesView)>,
    known: Seq<(Seq<char>, ())>,
    parsed: Seq<(Seq<char>, ChannelDefinitionView)>,
)
    ensures
        ({
            let result = parsed_channels(channels, sets, known, parsed);
            &&& result is Ok <==> forall|k: int|
                0 <= k < channels.len() ==> (#[trigger] channels[k]).1.parsed(channels[k].0, sets, known) is Ok
            &&& result is Ok ==> {
                &&& result->Ok_0.len() == parsed.len() + channels.len()
                &&& forall|k: int| 0 <= k < parsed.len() ==> #[trigger] result->Ok_0[k] == parsed[k]
                &&& forall|k: int|
                    0 <= k < channels.len() ==> result->Ok_0[parsed.len() + k] == (
                        (#[trigger] channels[k]).0,
                        channels[k].1.parsed(channels[k].0, sets, known)->Ok_0,
                    )
            }
        }),
    decreases channels.len(),
{
    if channels.len() > 0 {
        let rest = channels.drop_first();
        let first = channels[0].1.parsed(channels[0].0, sets, known);
        if first is Ok {
            let next = parsed.push((channels[0].0, first->Ok_0));
            channels_are_read_one_by_one(rest, sets, known, next);
            let result = parsed_channels(rest, sets, known, next);
            if result is Ok {
                assert forall|k: int| 0 <= k < channels.len() implies (#[trigger] channels[k]).1.parsed(
                    channels[k].0,
                    sets,
                    known,
                ) is Ok && result->Ok_0[parsed.len() + k] == (
                    channels[k].0,
                    channels[k].1.parsed(channels[k].0, sets, known)->Ok_0,
                ) by {
                    if k > 0 {
                        assert(rest[k - 1] == channels[k]);
                    } else {
                        assert(result->Ok_0[parsed.len() as int] == next[parsed.len() as int]);
                    }
                }
                assert forall|k: int| 0 <= k < parsed.len() implies #[trigger] result->Ok_0[k] == parsed[k] by {
                    assert(result->Ok_0[k] == next[k]);
                }
            } else {
                let k = choose|k: int|
                    0 <= k < rest.len() && !((#[trigger] rest[k]).1.parsed(rest[k].0, sets, known) is Ok);
                assert(channels[k + 1] == rest[k]);
            }
        } else {
            assert(!(channels[0].1.parsed(channels[0].0, sets, known) is Ok));
        }
    }
}

proof fn known_sets_are_read(sets: SettingsSetsView, known: Seq<(Seq<char>, ())>)
    ensures
        sets.resolved(known) is Ok <==> {
            &&& forall|k: int| 0 <= k < sets.role.len() ==> all_are_known((#[trigger] sets.role[k]).1.permissions, known)
            &&& forall|k: int|
                0 <= k < sets.channel.len() ==> all_overwrites_are_known(
                    (#[trigger] sets.channel[k]).1.overwrites,
                    known,
                )
        },
        sets.resolved(known) is Ok ==> sets.resolved(known)->Ok_0 == sets,
{
    let bad_role = |name: Seq<char>, attributes: RoleAttributesView| role_set_error(name, attributes, known);
    let bad_channel = |name: Seq<char>, attributes: ChannelAttributesView| channel_set_error(name, attributes, known);
    first_in_none(sets.role, bad_role);
    first_in_none(sets.channel, bad_channel);
    assert forall|k: int| 0 <= k < sets.role.len() implies (bad_role((#[trigger] sets.role[k]).0, sets.role[k].1)
        is None <==> all_are_known(sets.role[k].1.permissions, known)) by {
        known_entries_are_found(sets.role[k].1.permissions, known);
    }
    assert forall|k: int| 0 <= k < sets.channel.len() implies (bad_channel(
        (#[trigger] sets.channel[k]).0,
        sets.channel[k].1,
    ) is None <==> all_overwrites_are_known(sets.channel[k].1.overwrites, known)) by {
        known_overwrites_are_found(sets.channel[k].1.overwrites, known);
    }
}

/// A definition that was read holds what is written: it keeps the rules, its settings sets
/// name known permissions only, each role and each channel is what the one written under its
/// name declares, its order can be made of them, and all else is as it is written.
pub proof fn definitions_declare_what_is_written(raw: RawDefinitionView, known: Seq<(Seq<char>, ())>)
    requires
        raw.parsed(known) is Ok,
    ensures
        ({
            let definition = raw.parsed(known)->Ok_0;
            let sets = raw.settings_sets;
            &&& is_well_written(raw)
            &&& forall|k: int| 0 <= k < sets.role.len() ==> all_are_known((#[trigger] sets.role[k]).1.permissions, known)
            &&& forall|k: int|
                0 <= k < sets.channel.len() ==> all_overwrites_are_known(
                    (#[trigger] sets.channel[k]).1.overwrites,
                    known,
                )
            &&& definition.settings_sets == sets
            &&& definition.roles.len() == raw.roles.len()
            &&& forall|k: int|
                0 <= k < raw.roles.len() ==> (#[trigger] definition.roles[k]).0 == raw.roles[k].0
                    && raw.roles[k].1.parsed(raw.roles[k].0, sets.role, known) == Ok::<RoleDefinitionView, ErrorView>(
                    definition.roles[k].1,
                )
            &&& definition.channels.len() == raw.channels.len()
            &&& forall|k: int|
                0 <= k < raw.channels.len() ==> (#[trigger] definition.channels[k]).0 == raw.channels[k].0
                    && raw.channels[k].1.parsed(raw.channels[k].0, sets.channel, known) == Ok::<
                    ChannelDefinitionView,
                    ErrorView,
                >(definition.channels[k].1)
            &&& definition.members == raw.members
            &&& definition.message_sets == raw.message_sets
            &&& definition.threads == raw.threads
            &&& definition.order == raw.order
            &&& raw.order is Some ==> can_be_made(raw.order->0, definition.roles, definition.channels)
        }),
{
    let definition = raw.parsed(known)->Ok_0;
    nothing_is_said_of_what_is_well_written(raw);
    known_sets_are_read(raw.settings_sets, known);
    roles_are_read_one_by_one(raw.roles, raw.settings_sets.role, known, Seq::empty());
    channels_are_read_one_by_one(raw.channels, raw.settings_sets.channel, known, Seq::empty());
    if raw.order is Some {
        orders_are_accepted_where_they_can_be_made(raw.order->0, definition.roles, definition.channels);
    }
    assert forall|k: int| 0 <= k < raw.roles.len() implies (#[trigger] definition.roles[k]).0 == raw.roles[k].0
        && raw.roles[k].1.parsed(raw.roles[k].0, raw.settings_sets.role, known) == Ok::<RoleDefinitionView, ErrorView>(
        definition.roles[k].1,
    ) by {
        assert(definition.roles[0 + k] == (
            raw.roles[k].0,
            raw.roles[k].1.parsed(raw.roles[k].0, raw.settings_sets.role, known)->Ok_0,
        ));
    }
    assert forall|k: int| 0 <= k < raw.channels.len() implies (#[trigger] definition.channels[k]).0
        == raw.channels[k].0 && raw.channels[k].1.parsed(raw.channels[k].0, raw.settings_sets.channel, known) == Ok::<
        ChannelDefinitionView,
        ErrorView,
    >(definition.channels[k].1) by {
        assert(definition.channels[0 + k] == (
            raw.channels[k].0,
            raw.channels[k].1.parsed(raw.channels[k].0, raw.settings_sets.channel, known)->Ok_0,
        ));
    }
}

/// A definition that keeps the rules is read, where its settings sets name known permissions
/// only, each of its roles and channels is read, and its order can be made of these.
pub proof fn well_written_definitions_are_read(
    raw: RawDefinitionView,
    known: Seq<(Seq<char>, ())>,
    roles: Seq<(Seq<char>, RoleDefinitionView)>,
    channels: Seq<(Seq<char>, ChannelDefinitionView)>,
)
    requires
        is_well_written(raw),
        forall|k: int|
            0 <= k < raw.settings_sets.role.len() ==> all_are_known(
                (#[trigger] raw.settings_sets.role[k]).1.permissions,
                known,
            ),
        forall|k: int|
            0 <= k < raw.settings_sets.channel.len() ==> all_overwrites_are_known(
                (#[trigger] raw.settings_sets.channel[k]).1.overwrites,
                known,
            ),
        roles.len() == raw.roles.len(),
        forall|k: int|
            0 <= k < raw.roles.len() ==> (#[trigger] raw.roles[k]).0 == roles[k].0 && raw.roles[k].1.parsed(
                raw.roles[k].0,
                raw.settings_sets.role,
                known,
            ) == Ok::<RoleDefinitionView, ErrorView>(roles[k].1),
        channels.len() == raw.channels.len(),
        forall|k: int|
            0 <= k < raw.channels.len() ==> (#[trigger] raw.channels[k]).0 == channels[k].0
                && raw.channels[k].1.parsed(raw.channels[k].0, raw.settings_sets.channel, known) == Ok::<
                ChannelDefinitionView,
                ErrorView,
            >(channels[k].1),
        raw.order is Some ==> can_be_made(raw.order->0, roles, channels),
    ensures
        raw.parsed(known) is Ok,
        raw.parsed(known)->Ok_0.roles == roles,
        raw.parsed(known)->Ok_0.channels == channels,
{
    nothing_is_said_of_what_is_well_written(raw);
    known_sets_are_read(raw.settings_sets, known);
    roles_are_read_one_by_one(raw.roles, raw.settings_sets.role, known, Seq::empty());
    channels_are_read_one_by_one(raw.channels, raw.settings_sets.channel, known, Seq::empty());
    let found_roles = parsed_roles(raw.roles, raw.settings_sets.role, known, Seq::empty())->Ok_0;
    let found_channels = parsed_channels(raw.channels, raw.settings_sets.channel, known, Seq::empty())->Ok_0;
    assert forall|k: int| 0 <= k < roles.len() implies #[trigger] found_roles[k] == roles[k] by {
        assert(found_roles[0 + k] == (
            raw.roles[k].0,
            raw.roles[k].1.parsed(raw.roles[k].0, raw.settings_sets.role, known)->Ok_0,
        ));
    }
    assert(found_roles =~= roles);
    assert forall|k: int| 0 <= k < channels.len() implies #[trigger] found_channels[k] == channels[k] by {
        assert(found_channels[0 + k] == (
            raw.channels[k].0,
            raw.channels[k].1.parsed(raw.channels[k].0, raw.settings_sets.channel, known)->Ok_0,
        ));
    }
    assert(found_channels =~= channels);
    if raw.order is Some {
        orders_are_accepted_where_they_can_be_made(raw.order->0, roles, channels);
    }
}

proof fn agreeing_sets_are_composed(
    id: Seq<char>,
    sets: Seq<Seq<char>>,
    declared: Seq<(Seq<char>, ChannelAttributesView)>,
    i: int,
    attributes: ChannelAttributesView,
    kind: Option<(ChannelKind, Seq<char>)>,
    common: ChannelKind,
)
    requires
        0 <= i <= sets.len(),
        kind matches Some((given, by)) ==> given == common,
        forall|k: int|
            i <= k < sets.len() && has_key(declared, #[trigger] sets[k]) && lookup(declared, sets[k])->0.kind is Some
                ==> lookup(declared, sets[k])->0.kind == Some(common),
    ensures
        composed_sets(id, sets, declared, i, attributes, kind) is Ok,
        composed_sets(id, sets, declared, i, attributes, kind) matches Ok((all, Some((given, by)))) ==> given == common,
    decreases sets.len() - i,
{
    if i < sets.len() {
        match lookup(declared, sets[i]) {
            Some(settings) => {
                assert(has_key(declared, sets[i]));
                let next = match settings.kind {
                    Some(given) => Some((given, sets[i])),
                    None => kind,
                };
                agreeing_sets_are_composed(id, sets, declared, i + 1, attributes.merged(settings), next, common);
            },
            None => {
                agreeing_sets_are_composed(id, sets, declared, i + 1, attributes, kind, common);
            },
        }
    }
}

/// The settings sets of a written channel and its own attributes come together, where each set
/// is declared and named once, all that give a kind give the same, and each permission that the
/// channel overwrites itself is known.
pub proof fn agreeing_attributes_come_together(
    raw: RawChannelDefinitionView,
    id: Seq<char>,
    declared: Seq<(Seq<char>, ChannelAttributesView)>,
    known: Seq<(Seq<char>, ())>,
    common: ChannelKind,
)
    requires
        forall|k: int|
            0 <= k < raw.settings_sets.len() ==> has_key(declared, #[trigger] raw.settings_sets[k]) && (lookup(
                declared,
                raw.settings_sets[k],
            )->0.kind is Some ==> lookup(declared, raw.settings_sets[k])->0.kind == Some(common)),
        all_differ(raw.settings_sets),
        raw.attributes.kind is Some ==> raw.attributes.kind == Some(common),
        all_overwrites_are_known(raw.attributes.overwrites, known),
    ensures
        raw.composed(id, declared, known) is Ok,
{
    sets_are_declared("Channel "@, id, raw.settings_sets, declared, 0);
    agreeing_sets_are_composed(
        id,
        raw.settings_sets,
        declared,
        0,
        ChannelAttributesView::none(),
        None,
        common,
    );
    known_overwrites_are_found(raw.attributes.overwrites, known);
}

/// Whether attributes can be those of a channel of their kind: a category has none that only
/// text channels have, a text channel has no default parent, and neither a category nor a
/// channel with overwrites of its own takes over those of its parent.
pub open spec fn fit_their_kind(attributes: ChannelAttributesView) -> bool {
    &&& attributes.kind == Some(ChannelKind::Category) ==> {
        &&& attributes.parent is None
        &&& attributes.topic is None
        &&& attributes.nsfw is None
        &&& attributes.slowmode_seconds is None
        &&& attributes.default_auto_archive_minutes is None
        &&& attributes.default_thread_slowmode_seconds is None
        &&& attributes.permissions_sync != Some(true)
    }
    &&& attributes.kind == Some(ChannelKind::Text) && attributes.parent is Some ==> !(attributes.parent->0 is Default)
    &&& attributes.kind is Some && attributes.permissions_sync == Some(true) ==> attributes.overwrites.len() == 0
}

/// Whether no attribute is given.
pub open spec fn give_nothing(attributes: ChannelAttributesView) -> bool {
    &&& attributes.kind is None && attributes.name is None && attributes.parent is None && attributes.topic is None
    &&& attributes.nsfw is None && attributes.slowmode_seconds is None
    &&& attributes.default_auto_archive_minutes is None && attributes.default_thread_slowmode_seconds is None
    &&& attributes.permissions_sync is None && attributes.overwrites.len() == 0
}

/// A written channel is read exactly where its attributes come together and fit their kind, and
/// where nothing else is said of one that shall be absent or is only referred to.
pub proof fn channels_are_read_where_their_attributes_fit(
    raw: RawChannelDefinitionView,
    id: Seq<char>,
    declared: Seq<(Seq<char>, ChannelAttributesView)>,
    known: Seq<(Seq<char>, ())>,
)
    ensures
        raw.parsed(id, declared, known) is Ok <==> {
            let all = raw.composed(id, declared, known);
            &&& all is Ok
            &&& fit_their_kind(all->Ok_0)
            &&& raw.ensure == Some(Ensure::Absent) ==> raw.mode == RoleMode::Managed && raw.settings_sets.len() == 0
                && give_nothing(all->Ok_0)
            &&& raw.ensure != Some(Ensure::Absent) && raw.mode == RoleMode::Reference ==> raw.ensure is None
                && raw.settings_sets.len() == 0 && give_nothing(all->Ok_0)
        },
        raw.composed(id, declared, known) is Ok ==> all_overwrites_are_known(raw.attributes.overwrites, known),
{
    known_overwrites_are_found(raw.attributes.overwrites, known);
    if raw.composed(id, declared, known) is Ok {
        let all = raw.composed(id, declared, known)->Ok_0;
        match all.kind {
            Some(ChannelKind::Category) => {},
            Some(ChannelKind::Text) => {},
            _ => {},
        }
    }
}

} // verus!
