//! What a written channel and its settings sets come to, told by who says what.

use vstd::prelude::*;

use crate::configuration::channel::{
    composed_sets, ChannelAttributesView, ChannelKind, Ensure, OverwritesView, OverwriteTargetView,
    OverwriteValue, RawChannelDefinitionView,
};
use crate::configuration::laws::{
    are_in_order, found_values_are_in_order, merged_at, merged_overwrites_hold, values_for,
};
use crate::configuration::permission::KnownPermission;
use crate::configuration::role::RoleMode;
use crate::configuration::validation::settings_set_fault;
use crate::ordered::{has_key, lookup, put_all_then_lookup};

verus! {

/// Whether an attribute is what is given last: what the channel says itself, or else what
/// the last of its settings sets says that says anything.
pub open spec fn is_given_last<W>(
    value: Option<W>,
    own: Option<W>,
    sets: Seq<Seq<char>>,
    declared: Seq<(Seq<char>, ChannelAttributesView)>,
    of: spec_fn(ChannelAttributesView) -> Option<W>,
) -> bool {
    if own is Some {
        value == own
    } else {
        match value {
            Some(_) => exists|i: int|
                0 <= i < sets.len() && lookup(declared, #[trigger] sets[i]) is Some && of(
                    lookup(declared, sets[i])->0,
                ) == value && says_nothing_after(sets, declared, of, i),
            None => says_nothing_after(sets, declared, of, -1),
        }
    }
}

/// Whether no settings set behind a place says anything.
pub open spec fn says_nothing_after<W>(
    sets: Seq<Seq<char>>,
    declared: Seq<(Seq<char>, ChannelAttributesView)>,
    of: spec_fn(ChannelAttributesView) -> Option<W>,
    i: int,
) -> bool {
    forall|j: int|
        i < j < sets.len() && lookup(declared, #[trigger] sets[j]) is Some ==> of(lookup(declared, sets[j])->0) is None
}

/// The value that overwrites give to a permission of a subject, if they give one.
pub open spec fn value_of(
    overwrites: OverwritesView,
    subject: OverwriteTargetView,
    permission: Seq<char>,
) -> Option<OverwriteValue> {
    match lookup(overwrites, subject) {
        None => None,
        Some(values) => lookup(values, permission),
    }
}

/// Whether the overwrites of all settings sets are in order.
pub open spec fn sets_are_in_order(declared: Seq<(Seq<char>, ChannelAttributesView)>) -> bool {
    forall|name: Seq<char>|
        (#[trigger] lookup(declared, name)) is Some ==> are_in_order(lookup(declared, name)->0.overwrites)
}

/// Whether attributes that are merged give what the later ones give, or else the earlier ones.
spec fn merges<W>(of: spec_fn(ChannelAttributesView) -> Option<W>) -> bool {
    &&& of(ChannelAttributesView::none()) is None
    &&& forall|a: ChannelAttributesView, b: ChannelAttributesView|
        are_in_order(a.overwrites) && are_in_order(b.overwrites) ==> #[trigger] of(a.merged(b)) == if of(b) is Some {
            of(b)
        } else {
            of(a)
        }
}

proof fn merging_keeps_order(a: ChannelAttributesView, b: ChannelAttributesView)
    requires
        are_in_order(a.overwrites),
        are_in_order(b.overwrites),
    ensures
        are_in_order(a.merged(b).overwrites),
{
    merged_overwrites_hold(a.overwrites, b.overwrites);
}

proof fn sets_give_the_last<W>(
    id: Seq<char>,
    attributes: ChannelAttributesView,
    sets: Seq<Seq<char>>,
    declared: Seq<(Seq<char>, ChannelAttributesView)>,
    i: int,
    kind: Option<(ChannelKind, Seq<char>)>,
    of: spec_fn(ChannelAttributesView) -> Option<W>,
)
    requires
        0 <= i <= sets.len(),
        sets_are_in_order(declared),
        are_in_order(attributes.overwrites),
        merges(of),
        composed_sets(id, sets, declared, i, attributes, kind) is Ok,
    ensures
        ({
            let all = composed_sets(id, sets, declared, i, attributes, kind)->Ok_0;
            let after = of(all.0);
            &&& are_in_order(all.0.overwrites)
            &&& {
                ||| after == of(attributes) && says_nothing_after(sets, declared, of, i - 1)
                ||| exists|k: int|
                    i <= k < sets.len() && lookup(declared, #[trigger] sets[k]) is Some && of(
                        lookup(declared, sets[k])->0,
                    ) == after && after is Some && says_nothing_after(sets, declared, of, k)
            }
        }),
    decreases sets.len() - i,
{
    if i < sets.len() {
        let after = of(composed_sets(id, sets, declared, i, attributes, kind)->Ok_0.0);
        match lookup(declared, sets[i]) {
            Some(settings) => {
                let next = attributes.merged(settings);
                let next_kind = match settings.kind {
                    Some(given) => Some((given, sets[i])),
                    None => kind,
                };
                merging_keeps_order(attributes, settings);
                sets_give_the_last(id, next, sets, declared, i + 1, next_kind, of);
                assert(of(next) == if of(settings) is Some {
                    of(settings)
                } else {
                    of(attributes)
                });
                if after == of(next) && says_nothing_after(sets, declared, of, i) {
                    if of(settings) is Some {
                        assert(lookup(declared, sets[i]) is Some);
                    } else {
                        assert(says_nothing_after(sets, declared, of, i - 1));
                    }
                }
            },
            None => {
                sets_give_the_last(id, attributes, sets, declared, i + 1, kind, of);
                if after == of(attributes) && says_nothing_after(sets, declared, of, i) {
                    assert(says_nothing_after(sets, declared, of, i - 1));
                }
            },
        }
    }
}

proof fn own_wins<W>(
    raw: RawChannelDefinitionView,
    id: Seq<char>,
    declared: Seq<(Seq<char>, ChannelAttributesView)>,
    known: Seq<(Seq<char>, ())>,
    of: spec_fn(ChannelAttributesView) -> Option<W>,
)
    requires
        sets_are_in_order(declared),
        are_in_order(raw.attributes.overwrites),
        merges(of),
        raw.composed(id, declared, known) is Ok,
    ensures
        is_given_last(
            of(raw.composed(id, declared, known)->Ok_0),
            of(raw.attributes),
            raw.settings_sets,
            declared,
            of,
        ),
{
    let none = ChannelAttributesView::none();
    let composed = composed_sets(id, raw.settings_sets, declared, 0, none, None)->Ok_0;
    assert(are_in_order(none.overwrites));
    sets_give_the_last(id, none, raw.settings_sets, declared, 0, None, of);
    assert(of(composed.0.merged(raw.attributes)) == if of(raw.attributes) is Some {
        of(raw.attributes)
    } else {
        of(composed.0)
    });
}

proof fn overwrites_merge(subject: OverwriteTargetView, permission: Seq<char>)
    ensures
        merges(|attributes: ChannelAttributesView| value_of(attributes.overwrites, subject, permission)),
{
    let of = |attributes: ChannelAttributesView| value_of(attributes.overwrites, subject, permission);
    assert forall|a: ChannelAttributesView, b: ChannelAttributesView|
        are_in_order(a.overwrites) && are_in_order(b.overwrites) implies #[trigger] of(a.merged(b)) == if of(b) is Some {
        of(b)
    } else {
        of(a)
    } by {
        merged_overwrites_hold(a.overwrites, b.overwrites);
        assert(lookup(a.merged(b).overwrites, subject) == merged_at(a.overwrites, b.overwrites, subject));
        found_values_are_in_order(b.overwrites, subject);
        put_all_then_lookup::<KnownPermission, OverwriteValue>(
            values_for(a.overwrites, subject),
            values_for(b.overwrites, subject),
            permission,
        );
    }
}

/// The attributes of a channel are those that are given last: by the channel itself, or
/// else by the last of its settings sets that gives them. So is each permission of each
/// overwrite. All that give a kind give the same.
pub proof fn attributes_are_those_given_last(
    raw: RawChannelDefinitionView,
    id: Seq<char>,
    declared: Seq<(Seq<char>, ChannelAttributesView)>,
    known: Seq<(Seq<char>, ())>,
    subject: OverwriteTargetView,
    permission: Seq<char>,
)
    requires
        sets_are_in_order(declared),
        are_in_order(raw.attributes.overwrites),
        raw.composed(id, declared, known) is Ok,
    ensures
        ({
            let all = raw.composed(id, declared, known)->Ok_0;
            let own = raw.attributes;
            let sets = raw.settings_sets;
            &&& is_given_last(all.kind, own.kind, sets, declared, |a: ChannelAttributesView| a.kind)
            &&& is_given_last(all.name, own.name, sets, declared, |a: ChannelAttributesView| a.name)
            &&& is_given_last(all.parent, own.parent, sets, declared, |a: ChannelAttributesView| a.parent)
            &&& is_given_last(all.topic, own.topic, sets, declared, |a: ChannelAttributesView| a.topic)
            &&& is_given_last(all.nsfw, own.nsfw, sets, declared, |a: ChannelAttributesView| a.nsfw)
            &&& is_given_last(
                all.slowmode_seconds,
                own.slowmode_seconds,
                sets,
                declared,
                |a: ChannelAttributesView| a.slowmode_seconds,
            )
            &&& is_given_last(
                all.default_auto_archive_minutes,
                own.default_auto_archive_minutes,
                sets,
                declared,
                |a: ChannelAttributesView| a.default_auto_archive_minutes,
            )
            &&& is_given_last(
                all.default_thread_slowmode_seconds,
                own.default_thread_slowmode_seconds,
                sets,
                declared,
                |a: ChannelAttributesView| a.default_thread_slowmode_seconds,
            )
            &&& is_given_last(
                all.permissions_sync,
                own.permissions_sync,
                sets,
                declared,
                |a: ChannelAttributesView| a.permissions_sync,
            )
            &&& is_given_last(
                value_of(all.overwrites, subject, permission),
                value_of(own.overwrites, subject, permission),
                sets,
                declared,
                |a: ChannelAttributesView| value_of(a.overwrites, subject, permission),
            )
        }),
{
    own_wins(raw, id, declared, known, |a: ChannelAttributesView| a.kind);
    own_wins(raw, id, declared, known, |a: ChannelAttributesView| a.name);
    own_wins(raw, id, declared, known, |a: ChannelAttributesView| a.parent);
    own_wins(raw, id, declared, known, |a: ChannelAttributesView| a.topic);
    own_wins(raw, id, declared, known, |a: ChannelAttributesView| a.nsfw);
    own_wins(raw, id, declared, known, |a: ChannelAttributesView| a.slowmode_seconds);
    own_wins(raw, id, declared, known, |a: ChannelAttributesView| a.default_auto_archive_minutes);
    own_wins(raw, id, declared, known, |a: ChannelAttributesView| a.default_thread_slowmode_seconds);
    own_wins(raw, id, declared, known, |a: ChannelAttributesView| a.permissions_sync);
    overwrites_merge(subject, permission);
    own_wins(
        raw,
        id,
        declared,
        known,
        |a: ChannelAttributesView| value_of(a.overwrites, subject, permission),
    );
}

/// The kind that was given last by a settings set.
spec fn kind_in(kind: Option<(ChannelKind, Seq<char>)>) -> Option<ChannelKind> {
    match kind {
        Some((kind, _)) => Some(kind),
        None => None,
    }
}

proof fn kinds_of_sets_agree(
    id: Seq<char>,
    sets: Seq<Seq<char>>,
    declared: Seq<(Seq<char>, ChannelAttributesView)>,
    i: int,
    attributes: ChannelAttributesView,
    kind: Option<(ChannelKind, Seq<char>)>,
)
    requires
        0 <= i <= sets.len(),
        composed_sets(id, sets, declared, i, attributes, kind) is Ok,
    ensures
        ({
            let all = composed_sets(id, sets, declared, i, attributes, kind)->Ok_0;
            &&& kind is Some ==> kind_in(all.1) == kind_in(kind)
            &&& forall|k: int|
                i <= k < sets.len() && lookup(declared, #[trigger] sets[k]) is Some && lookup(
                    declared,
                    sets[k],
                )->0.kind is Some ==> lookup(declared, sets[k])->0.kind == kind_in(all.1)
        }),
    decreases sets.len() - i,
{
    if i < sets.len() {
        match lookup(declared, sets[i]) {
            Some(settings) => {
                let next_kind = match settings.kind {
                    Some(given) => Some((given, sets[i])),
                    None => kind,
                };
                kinds_of_sets_agree(id, sets, declared, i + 1, attributes.merged(settings), next_kind);
            },
            None => {
                kinds_of_sets_agree(id, sets, declared, i + 1, attributes, kind);
            },
        }
    }
}

pub(crate) proof fn sets_are_declared<W>(
    kind: Seq<char>,
    id: Seq<char>,
    sets: Seq<Seq<char>>,
    declared: Seq<(Seq<char>, W)>,
    i: int,
)
    requires
        0 <= i <= sets.len(),
    ensures
        settings_set_fault(kind, id, sets, declared, i) is None <==> (forall|k: int|
            i <= k < sets.len() ==> has_key(declared, #[trigger] sets[k])) && (forall|j: int, k: int|
            0 <= j < k < sets.len() && i <= k ==> #[trigger] sets[j] != #[trigger] sets[k]),
    decreases sets.len() - i,
{
    if i < sets.len() {
        sets_are_declared(kind, id, sets, declared, i + 1);
        if sets.take(i).contains(sets[i]) {
            let j = sets.take(i).index_of(sets[i]);
            assert(sets[j] == sets[i]);
        } else {
            assert forall|j: int| 0 <= j < i implies #[trigger] sets[j] != sets[i] by {
                assert(sets.take(i)[j] == sets[j]);
            }
        }
    }
}

/// What a written channel declares.
///
/// Its settings sets are declared, none of them is named twice, and all that give a kind,
/// the channel itself too, give the same. One that shall be absent, or is only referred to,
/// says nothing else. Every other is managed, with the attributes it comes to.
pub proof fn channels_declare_what_is_written(
    raw: RawChannelDefinitionView,
    id: Seq<char>,
    declared: Seq<(Seq<char>, ChannelAttributesView)>,
    known: Seq<(Seq<char>, ())>,
)
    requires
        raw.parsed(id, declared, known) is Ok,
    ensures
        ({
            let channel = raw.parsed(id, declared, known)->Ok_0;
            let sets = raw.settings_sets;
            let all = raw.composed(id, declared, known);
            &&& all is Ok
            &&& forall|k: int| 0 <= k < sets.len() ==> has_key(declared, #[trigger] sets[k])
            &&& forall|j: int, k: int| 0 <= j < k < sets.len() ==> #[trigger] sets[j] != #[trigger] sets[k]
            &&& forall|j: int, k: int|
                0 <= j < sets.len() && 0 <= k < sets.len() && lookup(declared, #[trigger] sets[j])->0.kind is Some
                    && lookup(declared, #[trigger] sets[k])->0.kind is Some ==> lookup(declared, sets[j])->0.kind
                    == lookup(declared, sets[k])->0.kind
            &&& forall|k: int|
                0 <= k < sets.len() && raw.attributes.kind is Some && lookup(declared, #[trigger] sets[k])->0.kind
                    is Some ==> lookup(declared, sets[k])->0.kind == raw.attributes.kind
            &&& channel is Absent <==> raw.ensure == Some(Ensure::Absent)
            &&& channel is Reference <==> raw.ensure != Some(Ensure::Absent) && raw.mode == RoleMode::Reference
            &&& channel is Absent ==> raw.mode == RoleMode::Managed
            &&& channel is Reference ==> raw.ensure is None
            &&& channel is Absent || channel is Reference ==> sets.len() == 0
            &&& channel is Managed ==> channel->Managed_attributes == all->Ok_0
        }),
{
    sets_are_declared("Channel "@, id, raw.settings_sets, declared, 0);
    kinds_of_sets_agree(id, raw.settings_sets, declared, 0, ChannelAttributesView::none(), None);
}

} // verus!
