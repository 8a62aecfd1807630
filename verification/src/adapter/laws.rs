//! What is sent to Discord and read back.

use vstd::prelude::*;

use crate::adapter::channel::{
    create_request, edit_is_required, known_values, mask_holds, mask_of, modify_request, seen_channel, seen_overwrites,
    seen_permissions, sent_overwrite, sent_overwrites, with_bits, with_bits_holds, with_bits_within, CreateRequestView,
    DiscordChannelType, DiscordChannelView, DiscordPermissionOverwrite, DiscordPermissionOverwriteType,
    ModifyRequestView, NullablePatchField, OverwriteKindView, OverwriteView,
};
use crate::adapter::permission::{holds_known, known_bits, permission_bits};
use crate::configuration::channel::{ChannelKind, OverwriteValue};
use crate::configuration::permission::KnownPermission;
use crate::ordered::{
    lookup, lookup_has_entry, lookup_in_sorted, put, put_at_end, put_keeps_sorted, put_then_lookup,
    same_lookups_same_entries, sorted, sorted_entries, OrderedKey,
};
use crate::port::{
    ChannelCreateView, ChannelOverwritePermissionsView, ChannelOverwritesView, ChannelOverwriteTarget,
    ChannelOverwriteTargetView, ChannelUpdateValue, ChannelUpdateView,
};
use crate::resource::channel::apply::has_values;

verus! {

/// A value after a field was sent: the one that was sent, or the one that was there before.
pub open spec fn sent_over<W>(field: Option<W>, before: W) -> W {
    match field {
        Some(value) => value,
        None => before,
    }
}

/// A value that may be absent after a field was sent: none, where nothing was sent in its place.
pub open spec fn patched_over<W>(field: NullablePatchField<W>, before: Option<W>) -> Option<W> {
    match field {
        NullablePatchField::Keep => before,
        NullablePatchField::Replace(value) => Some(value),
        NullablePatchField::Clear => None,
    }
}

/// An overwrite that was sent, as Discord describes it.
pub open spec fn described(sent: DiscordPermissionOverwrite) -> OverwriteView {
    OverwriteView {
        kind: match sent.kind {
            DiscordPermissionOverwriteType::Role => OverwriteKindView::Role(sent.id),
            DiscordPermissionOverwriteType::Member => OverwriteKindView::Member(sent.id),
        },
        allow: sent.allow,
        deny: sent.deny,
    }
}

/// Overwrites that were sent, as Discord describes them.
pub open spec fn all_described(sent: Seq<DiscordPermissionOverwrite>) -> Seq<OverwriteView> {
    Seq::new(sent.len(), |i: int| described(sent[i]))
}

/// A channel after a change was sent: each field that is sent replaces what was there, or
/// takes it away, and all others stay.
pub open spec fn patched(channel: DiscordChannelView, request: ModifyRequestView) -> DiscordChannelView {
    DiscordChannelView {
        id: channel.id,
        position: channel.position,
        kind: channel.kind,
        name: sent_over(request.name, channel.name),
        parent_id: patched_over(request.parent_id, channel.parent_id),
        topic: patched_over(request.topic, channel.topic),
        nsfw: sent_over(request.nsfw, channel.nsfw),
        rate_limit_per_user: match request.rate_limit_per_user {
            Some(seconds) => Some(seconds),
            None => channel.rate_limit_per_user,
        },
        default_auto_archive_duration: patched_over(
            request.default_auto_archive_duration,
            channel.default_auto_archive_duration,
        ),
        default_thread_rate_limit_per_user: match request.default_thread_rate_limit_per_user {
            Some(seconds) => Some(seconds),
            None => channel.default_thread_rate_limit_per_user,
        },
        permission_overwrites: match request.permission_overwrites {
            Some(sent) => all_described(sent),
            None => channel.permission_overwrites,
        },
    }
}

/// A channel that was made as a request says, with what it does not send left out.
pub open spec fn made(request: CreateRequestView, id: u64, position: u16) -> DiscordChannelView {
    match request {
        CreateRequestView::Text {
            name,
            channel_type,
            parent_id,
            topic,
            nsfw,
            rate_limit_per_user,
            default_auto_archive_duration,
            default_thread_rate_limit_per_user,
            permission_overwrites,
        } => DiscordChannelView {
            id,
            position,
            kind: kind_of(channel_type),
            name,
            parent_id,
            topic,
            nsfw,
            rate_limit_per_user,
            default_auto_archive_duration,
            default_thread_rate_limit_per_user,
            permission_overwrites: described_if_any(permission_overwrites),
        },
        CreateRequestView::Category { name, channel_type, permission_overwrites } => DiscordChannelView {
            id,
            position,
            kind: kind_of(channel_type),
            name,
            parent_id: None,
            topic: None,
            nsfw: false,
            rate_limit_per_user: None,
            default_auto_archive_duration: None,
            default_thread_rate_limit_per_user: None,
            permission_overwrites: described_if_any(permission_overwrites),
        },
    }
}

/// The kind of channel that a request asks for.
pub open spec fn kind_of(channel_type: DiscordChannelType) -> ChannelKind {
    match channel_type {
        DiscordChannelType::Text => ChannelKind::Text,
        DiscordChannelType::Category => ChannelKind::Category,
    }
}

/// Overwrites that were sent, as Discord describes them: none, where none were.
pub open spec fn described_if_any(sent: Option<Seq<DiscordPermissionOverwrite>>) -> Seq<OverwriteView> {
    match sent {
        Some(sent) => all_described(sent),
        None => Seq::empty(),
    }
}

/// Whether each of some permissions has bits of its own.
pub open spec fn bits_are_apart(known: Seq<Seq<char>>) -> bool {
    &&& forall|i: int|
        0 <= i < known.len() ==> permission_bits(#[trigger] known[i]) is Some && permission_bits(known[i])->0 != 0
    &&& forall|i: int, j: int|
        0 <= i < known.len() && 0 <= j < known.len() && known[i] != known[j] ==> permission_bits(
            #[trigger] known[i],
        )->0 & permission_bits(#[trigger] known[j])->0 == 0
}

/// Whether what an overwrite does can be said in bits: it does something, allows or denies
/// known permissions by name, and all others by their bits.
pub open spec fn can_be_said(permissions: ChannelOverwritePermissionsView, known: Seq<Seq<char>>) -> bool {
    &&& sorted::<KnownPermission, OverwriteValue>(permissions.known)
    &&& forall|k: int|
        0 <= k < permissions.known.len() ==> known.contains((#[trigger] permissions.known[k]).0)
            && permissions.known[k].1 != OverwriteValue::Clear
    &&& forall|i: int|
        0 <= i < known.len() ==> permissions.allow_unknown & known_bits(permission_bits(#[trigger] known[i])) == 0
            && permissions.deny_unknown & known_bits(permission_bits(known[i])) == 0
    &&& permissions.known.len() > 0 || permissions.allow_unknown != 0 || permissions.deny_unknown != 0
}

/// Whether overwrites can be said in bits, each for a target of its own.
pub open spec fn all_can_be_said(overwrites: ChannelOverwritesView, guild_id: u64, known: Seq<Seq<char>>) -> bool {
    &&& sorted::<ChannelOverwriteTarget, ChannelOverwritePermissionsView>(overwrites)
    &&& forall|k: int|
        0 <= k < overwrites.len() ==> (#[trigger] overwrites[k]).0 != ChannelOverwriteTargetView::Role(guild_id)
            && can_be_said(overwrites[k].1, known)
}

pub(crate) proof fn apart_from_mask(bits: u64, known: Seq<Seq<char>>, i: int, mask: u64)
    requires
        0 <= i <= known.len(),
        bits & mask == 0,
        forall|j: int| i <= j < known.len() ==> bits & known_bits(permission_bits(#[trigger] known[j])) == 0,
    ensures
        bits & mask_of(known, i, mask) == 0,
    decreases known.len() - i,
{
    if i < known.len() {
        let more = known_bits(permission_bits(known[i]));
        assert(bits & more == 0);
        assert(bits & mask == 0 && bits & more == 0 ==> bits & (mask | more) == 0) by (bit_vector);
        apart_from_mask(bits, known, i + 1, mask | more);
    }
}

proof fn apart_from_others(
    bits: u64,
    entries: Seq<(Seq<char>, OverwriteValue)>,
    i: int,
    value: OverwriteValue,
    asked: u64,
)
    requires
        0 <= i <= entries.len(),
        bits & asked == 0,
        forall|k: int|
            i <= k < entries.len() && (#[trigger] entries[k]).1 == value ==> known_bits(permission_bits(entries[k].0))
                & asked == 0,
    ensures
        with_bits(bits, entries, i, value) & asked == 0,
    decreases entries.len() - i,
{
    if i < entries.len() {
        if entries[i].1 == value {
            let more = known_bits(permission_bits(entries[i].0));
            assert(bits & asked == 0 && more & asked == 0 ==> (bits | more) & asked == 0) by (bit_vector);
            apart_from_others(bits | more, entries, i + 1, value, asked);
        } else {
            apart_from_others(bits, entries, i + 1, value, asked);
        }
    }
}

proof fn values_are_read(
    known: Seq<Seq<char>>,
    i: int,
    allow: u64,
    deny: u64,
    values: Seq<(Seq<char>, OverwriteValue)>,
    name: Seq<char>,
)
    requires
        0 <= i <= known.len(),
        sorted::<KnownPermission, OverwriteValue>(values),
    ensures
        ({
            let all = known_values(known, i, allow, deny, values);
            let asked = (exists|k: int| i <= k < known.len() && #[trigger] known[k] == name);
            &&& sorted::<KnownPermission, OverwriteValue>(all)
            &&& lookup(all, name) == if asked && holds_known(allow, permission_bits(name)) {
                Some(OverwriteValue::Allow)
            } else if asked && holds_known(deny, permission_bits(name)) {
                Some(OverwriteValue::Deny)
            } else {
                lookup(values, name)
            }
        }),
    decreases known.len() - i,
{
    if i < known.len() {
        let bits = permission_bits(known[i]);
        let next = if holds_known(allow, bits) {
            put::<KnownPermission, OverwriteValue>(values, known[i], OverwriteValue::Allow)
        } else if holds_known(deny, bits) {
            put::<KnownPermission, OverwriteValue>(values, known[i], OverwriteValue::Deny)
        } else {
            values
        };
        put_keeps_sorted::<KnownPermission, OverwriteValue>(values, known[i], OverwriteValue::Allow);
        put_keeps_sorted::<KnownPermission, OverwriteValue>(values, known[i], OverwriteValue::Deny);
        put_then_lookup::<KnownPermission, OverwriteValue>(values, known[i], OverwriteValue::Allow, name);
        put_then_lookup::<KnownPermission, OverwriteValue>(values, known[i], OverwriteValue::Deny, name);
        values_are_read(known, i + 1, allow, deny, next, name);
        if exists|k: int| i <= k < known.len() && #[trigger] known[k] == name {
            let k = choose|k: int| i <= k < known.len() && #[trigger] known[k] == name;
            if k > i {
                assert(known[k] == name);
            }
        }
    }
}

/// A known permission is among the bits that are sent where the overwrite says so, and only there.
proof fn sent_bits_say_it(
    unknown: u64,
    entries: Seq<(Seq<char>, OverwriteValue)>,
    known: Seq<Seq<char>>,
    value: OverwriteValue,
    name: Seq<char>,
)
    requires
        bits_are_apart(known),
        sorted::<KnownPermission, OverwriteValue>(entries),
        forall|k: int| 0 <= k < entries.len() ==> known.contains((#[trigger] entries[k]).0),
        known.contains(name),
        unknown & known_bits(permission_bits(name)) == 0,
    ensures
        holds_known(with_bits(unknown, entries, 0, value), permission_bits(name)) <==> lookup(entries, name) == Some(
            value,
        ),
        lookup(entries, name) == Some(value) ==> with_bits(unknown, entries, 0, value) != 0,
{
    let bits = permission_bits(name)->0;
    let all = with_bits(unknown, entries, 0, value);
    let place = known.index_of(name);
    assert(known[place] == name);
    assert(permission_bits(known[place]) is Some);
    if lookup(entries, name) == Some(value) {
        let k = lookup_has_entry(entries, name);
        with_bits_holds(unknown, entries, 0, value, k);
        assert(all & bits == bits && bits != 0 ==> all != 0) by (bit_vector);
    } else {
        assert forall|k: int| 0 <= k < entries.len() && (#[trigger] entries[k]).1 == value implies known_bits(
            permission_bits(entries[k].0),
        ) & bits == 0 by {
            let n = known.index_of(entries[k].0);
            assert(known.contains(entries[k].0));
            assert(known[n] == entries[k].0);
            lookup_in_sorted::<KnownPermission, OverwriteValue>(entries, k);
            assert(known[n] != known[place]);
            assert(permission_bits(known[n]) is Some);
            assert(permission_bits(known[n])->0 & permission_bits(known[place])->0 == 0);
        }
        apart_from_others(unknown, entries, 0, value, bits);
        assert(all & bits == 0 && bits != 0 ==> all & bits != bits) by (bit_vector);
    }
}

proof fn unknown_bits_stay(
    unknown: u64,
    entries: Seq<(Seq<char>, OverwriteValue)>,
    known: Seq<Seq<char>>,
    value: OverwriteValue,
)
    requires
        forall|k: int| 0 <= k < entries.len() ==> known.contains((#[trigger] entries[k]).0),
        forall|i: int| 0 <= i < known.len() ==> unknown & known_bits(permission_bits(#[trigger] known[i])) == 0,
    ensures
        with_bits(unknown, entries, 0, value) & !mask_of(known, 0, 0) == unknown,
        unknown != 0 ==> with_bits(unknown, entries, 0, value) != 0,
{
    let mask = mask_of(known, 0, 0);
    let all = with_bits(unknown, entries, 0, value);
    assert(unknown & 0 == 0) by (bit_vector);
    apart_from_mask(unknown, known, 0, 0);
    assert forall|k: int| 0 <= k < entries.len() && (#[trigger] entries[k]).1 == value implies known_bits(
        permission_bits(entries[k].0),
    ) & !mask == 0 by {
        assert(known.contains(entries[k].0));
        let n = known.index_of(entries[k].0);
        mask_holds(known, 0, 0, n);
    }
    with_bits_within(unknown, entries, 0, value, mask);
    assert(unknown & mask == 0 ==> unknown & !mask == unknown) by (bit_vector);
    assert(all & !mask == unknown && unknown != 0 ==> all != 0) by (bit_vector);
}

/// What an overwrite does is read back from what is sent for it.
proof fn permissions_are_read_back(
    guild_id: u64,
    target: ChannelOverwriteTargetView,
    permissions: ChannelOverwritePermissionsView,
    known: Seq<Seq<char>>,
)
    requires
        bits_are_apart(known),
        can_be_said(permissions, known),
    ensures
        ({
            let sent = sent_overwrite(guild_id, target, permissions);
            sent is Some && seen_permissions(described(sent->0), known, mask_of(known, 0, 0)) == permissions
        }),
{
    let entries = permissions.known;
    let allow = with_bits(permissions.allow_unknown, entries, 0, OverwriteValue::Allow);
    let deny = with_bits(permissions.deny_unknown, entries, 0, OverwriteValue::Deny);
    unknown_bits_stay(permissions.allow_unknown, entries, known, OverwriteValue::Allow);
    unknown_bits_stay(permissions.deny_unknown, entries, known, OverwriteValue::Deny);
    if entries.len() > 0 {
        let name = entries[0].0;
        assert(known.contains(name));
        let n = known.index_of(name);
        assert(known[n] == name);
        lookup_in_sorted::<KnownPermission, OverwriteValue>(entries, 0);
        sent_bits_say_it(permissions.allow_unknown, entries, known, OverwriteValue::Allow, name);
        sent_bits_say_it(permissions.deny_unknown, entries, known, OverwriteValue::Deny, name);
    }
    let read = known_values(known, 0, allow, deny, Seq::empty());
    values_are_read(known, 0, allow, deny, Seq::empty(), Seq::empty());
    assert forall|name: Seq<char>| #[trigger] lookup(read, name) == lookup(entries, name) by {
        values_are_read(known, 0, allow, deny, Seq::empty(), name);
        if exists|k: int| 0 <= k < known.len() && #[trigger] known[k] == name {
            let k = choose|k: int| 0 <= k < known.len() && #[trigger] known[k] == name;
            assert(known.contains(name));
            sent_bits_say_it(permissions.allow_unknown, entries, known, OverwriteValue::Allow, name);
            sent_bits_say_it(permissions.deny_unknown, entries, known, OverwriteValue::Deny, name);
            if lookup(entries, name) is Some {
                let m = lookup_has_entry(entries, name);
                assert(entries[m].1 != OverwriteValue::Clear);
            }
        } else if lookup(entries, name) is Some {
            let m = lookup_has_entry(entries, name);
            assert(known.contains(entries[m].0));
            let n = known.index_of(name);
            assert(known[n] == name);
        }
    }
    same_lookups_same_entries::<KnownPermission, OverwriteValue>(read, entries);
}

proof fn all_are_sent(guild_id: u64, overwrites: ChannelOverwritesView, known: Seq<Seq<char>>)
    requires
        bits_are_apart(known),
        forall|k: int| 0 <= k < overwrites.len() ==> can_be_said((#[trigger] overwrites[k]).1, known),
    ensures
        ({
            let sent = sent_overwrites(guild_id, overwrites);
            &&& sent.len() == overwrites.len()
            &&& forall|k: int|
                0 <= k < sent.len() ==> Some(#[trigger] sent[k]) == sent_overwrite(
                    guild_id,
                    overwrites[k].0,
                    overwrites[k].1,
                )
        }),
    decreases overwrites.len(),
{
    if overwrites.len() > 0 {
        let front = overwrites.drop_last();
        let last = overwrites.last();
        assert forall|k: int| 0 <= k < front.len() implies can_be_said((#[trigger] front[k]).1, known) by {
            assert(can_be_said(overwrites[k].1, known));
        }
        all_are_sent(guild_id, front, known);
        assert(can_be_said(overwrites[overwrites.len() - 1].1, known));
        permissions_are_read_back(guild_id, last.0, last.1, known);
        let sent = sent_overwrites(guild_id, overwrites);
        assert forall|k: int| 0 <= k < sent.len() implies Some(#[trigger] sent[k]) == sent_overwrite(
            guild_id,
            overwrites[k].0,
            overwrites[k].1,
        ) by {
            if k < sent.len() - 1 {
                assert(sent[k] == sent_overwrites(guild_id, front)[k]);
                assert(front[k] == overwrites[k]);
            }
        }
    }
}

proof fn rest_is_read_back(guild_id: u64, overwrites: ChannelOverwritesView, known: Seq<Seq<char>>, i: int)
    requires
        bits_are_apart(known),
        all_can_be_said(overwrites, guild_id, known),
        0 <= i <= overwrites.len(),
    ensures
        seen_overwrites(
            all_described(sent_overwrites(guild_id, overwrites)),
            i,
            guild_id,
            known,
            overwrites.take(i),
        ) == overwrites,
    decreases overwrites.len() - i,
{
    let sent = sent_overwrites(guild_id, overwrites);
    let all = all_described(sent);
    assert forall|k: int| 0 <= k < overwrites.len() implies can_be_said((#[trigger] overwrites[k]).1, known) by {}
    all_are_sent(guild_id, overwrites, known);
    if i < overwrites.len() {
        let (target, permissions) = overwrites[i];
        assert(Some(sent[i]) == sent_overwrite(guild_id, target, permissions));
        permissions_are_read_back(guild_id, target, permissions, known);
        assert(all[i] == described(sent[i]));
        let front = overwrites.take(i);
        assert forall|k: int| 0 <= k < front.len() implies ChannelOverwriteTarget::before(
            (#[trigger] front[k]).0,
            target,
        ) by {
            sorted_entries::<ChannelOverwriteTarget, ChannelOverwritePermissionsView>(overwrites, k, i);
        }
        put_at_end::<ChannelOverwriteTarget, ChannelOverwritePermissionsView>(front, target, permissions);
        assert(front.push((target, permissions)) =~= overwrites.take(i + 1));
        rest_is_read_back(guild_id, overwrites, known, i + 1);
    } else {
        assert(overwrites.take(i) =~= overwrites);
    }
}

/// Overwrites that are sent in full are read back just as they were: the same targets, with
/// the same permissions allowed and denied, and the same bits beyond the known ones.
pub proof fn sent_overwrites_are_read_back(guild_id: u64, overwrites: ChannelOverwritesView, known: Seq<Seq<char>>)
    requires
        bits_are_apart(known),
        all_can_be_said(overwrites, guild_id, known),
    ensures
        seen_overwrites(all_described(sent_overwrites(guild_id, overwrites)), 0, guild_id, known, Seq::empty())
            == overwrites,
        sent_overwrites(guild_id, overwrites).len() == overwrites.len(),
{
    assert forall|k: int| 0 <= k < overwrites.len() implies can_be_said((#[trigger] overwrites[k]).1, known) by {}
    all_are_sent(guild_id, overwrites, known);
    rest_is_read_back(guild_id, overwrites, known, 0);
    assert(overwrites.take(0) =~= Seq::empty());
}

/// Whether a number of minutes is one of those after which threads can be archived.
pub open spec fn is_archive_time(minutes: u16) -> bool {
    minutes == 60 || minutes == 1440 || minutes == 4320 || minutes == 10080
}

/// Whether a value is the one that is asked for, or the one before where none is.
pub open spec fn is_changed<W>(after: W, before: W, asked: Option<W>) -> bool {
    match asked {
        Some(value) => after == value,
        None => after == before,
    }
}

/// Whether a value that may be absent is changed as it is asked for.
pub open spec fn is_changed_if_any<W>(after: Option<W>, before: Option<W>, asked: ChannelUpdateValue<W>) -> bool {
    match asked {
        ChannelUpdateValue::Keep => after == before,
        ChannelUpdateValue::Replace(value) => after == Some(value),
        ChannelUpdateValue::Clear => after is None,
    }
}

/// A channel that was changed as the request for an update says, and is then read, has
/// every value that the update asks for, and all others as they were.
///
/// Threads can only be archived after one of four times. Overwrites must be such as can be
/// said in bits, and each known permission must have bits of its own.
pub proof fn sent_updates_are_read_back(
    channel: DiscordChannelView,
    update: ChannelUpdateView,
    guild_id: u64,
    known: Seq<Seq<char>>,
    manageable: bool,
)
    requires
        bits_are_apart(known),
        update.overwrites is Some ==> all_can_be_said(update.overwrites->0, guild_id, known),
        update.default_auto_archive_minutes is Replace ==> is_archive_time(
            update.default_auto_archive_minutes->Replace_0,
        ),
    ensures
        ({
            let before = seen_channel(channel, guild_id, known, manageable);
            let after = seen_channel(
                patched(channel, modify_request(guild_id, update)),
                guild_id,
                known,
                manageable,
            );
            &&& after.id == channel.id && after.position == channel.position && after.kind == channel.kind
            &&& after.manageable == manageable
            &&& is_changed(after.name, channel.name, update.name)
            &&& is_changed_if_any(after.parent_id, channel.parent_id, update.parent_id)
            &&& is_changed_if_any(after.topic, channel.topic, update.topic)
            &&& is_changed(after.nsfw, channel.nsfw, update.nsfw)
            &&& is_changed(after.slowmode_seconds, before.slowmode_seconds, update.slowmode_seconds)
            &&& is_changed_if_any(
                after.default_auto_archive_minutes,
                before.default_auto_archive_minutes,
                update.default_auto_archive_minutes,
            )
            &&& is_changed(
                after.default_thread_slowmode_seconds,
                before.default_thread_slowmode_seconds,
                update.default_thread_slowmode_seconds,
            )
            &&& is_changed(after.overwrites, before.overwrites, update.overwrites)
            &&& has_values(after, update)
            &&& after == update.applied_to(before)
        }),
{
    if update.overwrites is Some {
        sent_overwrites_are_read_back(guild_id, update.overwrites->0, known);
    }
}

/// A channel that was made as the request for it says, and is then read, has every value
/// that was asked for. A category has only its name and its overwrites.
pub proof fn sent_creations_are_read_back(
    create: ChannelCreateView,
    guild_id: u64,
    known: Seq<Seq<char>>,
    id: u64,
    position: u16,
    manageable: bool,
)
    requires
        bits_are_apart(known),
        all_can_be_said(create.overwrites, guild_id, known),
        create.kind != ChannelKind::Unsupported,
        create.default_auto_archive_minutes is Some ==> is_archive_time(create.default_auto_archive_minutes->0),
    ensures
        ({
            let read = seen_channel(
                made(create_request(guild_id, create), id, position),
                guild_id,
                known,
                manageable,
            );
            &&& read.kind == create.kind
            &&& read.name == create.name
            &&& read.overwrites == create.overwrites
            &&& create.kind == ChannelKind::Text ==> {
                &&& read.parent_id == create.parent_id
                &&& read.topic == create.topic
                &&& read.nsfw == create.nsfw
                &&& read.slowmode_seconds == create.slowmode_seconds
                &&& read.default_auto_archive_minutes == create.default_auto_archive_minutes
                &&& read.default_thread_slowmode_seconds == create.default_thread_slowmode_seconds
            }
        }),
{
    sent_overwrites_are_read_back(guild_id, create.overwrites, known);
    let sent = sent_overwrites(guild_id, create.overwrites);
    if sent.len() == 0 {
        assert(all_described(sent) =~= Seq::empty());
    }
}

/// An update that has not to be sent would change no channel, and one that has to be sent
/// sends something.
pub proof fn needless_updates_change_nothing(update: ChannelUpdateView, guild_id: u64, channel: DiscordChannelView)
    ensures
        !edit_is_required(update) ==> patched(channel, modify_request(guild_id, update)) == channel,
        edit_is_required(update) ==> {
            let request = modify_request(guild_id, update);
            ||| request.name is Some
            ||| !(request.parent_id is Keep)
            ||| !(request.topic is Keep)
            ||| request.nsfw is Some
            ||| request.rate_limit_per_user is Some
            ||| !(request.default_auto_archive_duration is Keep)
            ||| request.default_thread_rate_limit_per_user is Some
            ||| request.permission_overwrites is Some
        },
{
}

} // verus!
