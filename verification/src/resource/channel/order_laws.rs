//! What the orders of channels that are planned come to, told by where the channels stand.

use vstd::prelude::*;

use crate::configuration::channel::{ChannelDefinitionView, ChannelKind, ChannelValue};
use crate::configuration::definition::DefinitionView;
use crate::configuration::state::{MappingsView, StateView};
use crate::domain::ErrorView;
use crate::ids::ChannelLogicalId;
use crate::ordered::{has_key, lookup, lookup_has_entry, lookup_in_sorted, sorted, sorted_entries, OrderedKey};
use crate::port::{ChannelCatalogView, ChannelPositionUpdateView, ChannelSnapshotView};
use crate::resource::channel::create::is_listed;
use crate::resource::channel::order::{
    categories_order, channel_order, channel_order_plan, channel_places, channel_with_id, children_orders, group_order,
    named_channels, referenced_channels, siblings_in, stand_in, with_parent, with_wanted_parents, NamedChannelsView,
    OrderGroupPlanView, Siblings,
};
use crate::resource::sorting::{keeps_fixed, relative_order, reordered};
use crate::resource::standing::{
    comes_before, new_orders_stand_as_asked, places_tell_the_order, stand_as_asked, standing_orders_are_kept,
};

verus! {

/// Whether a channel is one of those that are ordered among themselves.
pub open spec fn is_sibling(channel: ChannelSnapshotView, group: Siblings) -> bool {
    match group {
        Siblings::Top => channel.parent_id is None,
        Siblings::Under(parent) => channel.parent_id == Some(parent),
    }
}

/// Whether a channel stands before another: by its position, or by its identifier where
/// the positions are equal.
pub open spec fn stands_before(a: ChannelSnapshotView, b: ChannelSnapshotView) -> bool {
    a.position < b.position || a.position == b.position && a.id < b.id
}

/// Whether all channels that an order names are bound.
pub open spec fn all_bound(names: Seq<Seq<char>>, state: StateView) -> bool {
    forall|i: int| 0 <= i < names.len() ==> has_key(state.channels, #[trigger] names[i])
}

/// Whether one of two channels that are named one behind the other stands behind the other.
pub open spec fn is_out_of_place(
    names: Seq<Seq<char>>,
    group: Siblings,
    state: StateView,
    channels: Seq<ChannelSnapshotView>,
) -> bool {
    exists|i: int, j: int, a: int, b: int|
        0 <= i < j < names.len() && 0 <= a < channels.len() && 0 <= b < channels.len() && is_sibling(
            channels[a],
            group,
        ) && is_sibling(channels[b], group) && lookup(state.channels, #[trigger] names[i]) == Some(
            (#[trigger] channels[a]).id,
        ) && lookup(state.channels, #[trigger] names[j]) == Some((#[trigger] channels[b]).id) && stands_before(
            channels[b],
            channels[a],
        )
}

proof fn siblings_are_listed(channels: Seq<ChannelSnapshotView>, group: Siblings)
    ensures
        forall|channel: ChannelSnapshotView|
            #[trigger] siblings_in(channels, group).contains(channel) <==> channels.contains(channel) && is_sibling(
                channel,
                group,
            ),
    decreases channels.len(),
{
    let all = siblings_in(channels, group);
    if channels.len() > 0 {
        let last = channels.last();
        let front = channels.drop_last();
        let rest = siblings_in(front, group);
        siblings_are_listed(front, group);
        assert forall|channel: ChannelSnapshotView| #[trigger] all.contains(channel) <==> channels.contains(channel)
            && is_sibling(channel, group) by {
            if all.contains(channel) {
                let i = all.index_of(channel);
                if i < rest.len() {
                    assert(rest[i] == channel);
                    assert(rest.contains(channel));
                    let k = front.index_of(channel);
                    assert(channels[k] == channel);
                } else {
                    assert(channels[channels.len() - 1] == channel);
                }
            }
            if channels.contains(channel) && is_sibling(channel, group) {
                let k = channels.index_of(channel);
                if k < front.len() {
                    assert(front[k] == channel);
                    assert(rest.contains(channel));
                    let i = rest.index_of(channel);
                    assert(all[i] == channel);
                } else {
                    assert(all[all.len() - 1] == channel);
                }
            }
        }
    } else {
        assert forall|channel: ChannelSnapshotView| !(#[trigger] all.contains(channel)) by {}
    }
}

/// What the names of an order come to: the identifiers of those that are bound, in order,
/// and stand-ins for the others.
proof fn names_come_to_their_channels(
    names: Seq<Seq<char>>,
    i: int,
    kind: ChannelKind,
    definition: DefinitionView,
    state: StateView,
    channels: Seq<ChannelSnapshotView>,
    siblings: Seq<ChannelSnapshotView>,
    gathered: NamedChannelsView,
)
    requires
        0 <= i <= names.len(),
        gathered.ids.len() == i,
        forall|k: int| 0 <= k < i && has_key(state.channels, #[trigger] names[k]) ==> Some(gathered.ids[k]) == lookup(
            state.channels,
            names[k],
        ),
        gathered.missing.len() == 0 <==> forall|k: int| 0 <= k < i ==> has_key(state.channels, #[trigger] names[k]),
        named_channels(names, i, kind, definition, state, channels, siblings, gathered) is Ok,
    ensures
        ({
            let named = named_channels(names, i, kind, definition, state, channels, siblings, gathered)->Ok_0;
            &&& named.ids.len() == names.len()
            &&& forall|k: int|
                0 <= k < names.len() && has_key(state.channels, #[trigger] names[k]) ==> Some(named.ids[k]) == lookup(
                    state.channels,
                    names[k],
                )
            &&& forall|k: int|
                i <= k < names.len() && has_key(state.channels, #[trigger] names[k]) ==> channel_with_id(
                    siblings,
                    lookup(state.channels, names[k])->0,
                ) is Some && channel_with_id(siblings, lookup(state.channels, names[k])->0)->0.kind == kind && (lookup(
                    definition.channels,
                    names[k],
                ) is Some && lookup(definition.channels, names[k])->0 is Managed ==> channel_with_id(
                    siblings,
                    lookup(state.channels, names[k])->0,
                )->0.manageable)
            &&& forall|k: int|
                i <= k < names.len() && !has_key(state.channels, #[trigger] names[k]) ==> !(lookup(
                    definition.channels,
                    names[k],
                ) is Some && lookup(definition.channels, names[k])->0 is Reference)
            &&& named.missing.len() == 0 <==> all_bound(names, state)
        }),
    decreases names.len() - i,
{
    if i < names.len() {
        let name = names[i];
        let declared = lookup(definition.channels, name);
        let is_reference = declared is Some && declared->0 is Reference;
        match lookup(state.channels, name) {
            None => {
                let (id, next) = stand_in(gathered.next, channels, gathered.missing)->Ok_0;
                let after = NamedChannelsView {
                    ids: gathered.ids.push(id),
                    fixed: gathered.fixed,
                    missing: gathered.missing.push(id),
                    next,
                };
                assert(!has_key(state.channels, names[i]));
                names_come_to_their_channels(names, i + 1, kind, definition, state, channels, siblings, after);
            },
            Some(id) => {
                let after = NamedChannelsView {
                    ids: gathered.ids.push(id),
                    fixed: if is_reference {
                        gathered.fixed.push(id)
                    } else {
                        gathered.fixed
                    },
                    missing: gathered.missing,
                    next: gathered.next,
                };
                assert(has_key(state.channels, names[i]));
                if gathered.missing.len() == 0 {
                    assert forall|k: int| 0 <= k < i + 1 implies has_key(state.channels, #[trigger] names[k]) by {}
                } else {
                    let k = choose|k: int| 0 <= k < i && !has_key(state.channels, #[trigger] names[k]);
                    assert(!has_key(state.channels, names[k]));
                }
                names_come_to_their_channels(names, i + 1, kind, definition, state, channels, siblings, after);
            },
        }
    } else {
        if gathered.missing.len() == 0 {
            assert(all_bound(names, state));
        }
    }
}

proof fn found_channels_are_there(channels: Seq<ChannelSnapshotView>, id: u64)
    ensures
        channel_with_id(channels, id) is Some ==> channels.contains(channel_with_id(channels, id)->0)
            && channel_with_id(channels, id)->0.id == id,
        channel_with_id(channels, id) is None ==> forall|k: int|
            0 <= k < channels.len() ==> (#[trigger] channels[k]).id != id,
    decreases channels.len(),
{
    if channels.len() > 0 {
        let front = channels.drop_last();
        found_channels_are_there(front, id);
        if channels.last().id == id {
            assert(channels[channels.len() - 1] == channels.last());
        } else if let Some(channel) = channel_with_id(front, id) {
            let k = front.index_of(channel);
            assert(channels[k] == channel);
        } else {
            assert forall|k: int| 0 <= k < channels.len() implies (#[trigger] channels[k]).id != id by {
                if k < front.len() {
                    assert(front[k].id != id);
                }
            }
        }
    }
}

/// The first names of an order, before any was looked at.
spec fn nothing_named() -> NamedChannelsView {
    NamedChannelsView { ids: Seq::empty(), fixed: Seq::empty(), missing: Seq::empty(), next: (u64::MAX - 1) as u64 }
}

/// Where two siblings stand is told by their positions and identifiers.
proof fn siblings_stand_by_position(channels: Seq<ChannelSnapshotView>, group: Siblings)
    ensures
        ({
            let order = channel_order(siblings_in(channels, group));
            &&& forall|id: u64|
                #[trigger] order.contains(id) <==> exists|k: int|
                    0 <= k < channels.len() && (#[trigger] channels[k]).id == id && is_sibling(channels[k], group)
            &&& order.no_duplicates() ==> forall|a: int, b: int|
                0 <= a < channels.len() && 0 <= b < channels.len() && is_sibling(channels[a], group) && is_sibling(
                    channels[b],
                    group,
                ) ==> (order.index_of((#[trigger] channels[a]).id) < order.index_of((#[trigger] channels[b]).id)
                    <==> stands_before(channels[a], channels[b]))
        }),
{
    let siblings = siblings_in(channels, group);
    let places = channel_places(siblings);
    let order = channel_order(siblings);
    siblings_are_listed(channels, group);
    places_tell_the_order(places);
    assert forall|id: u64| #[trigger] order.contains(id) <==> exists|k: int|
        0 <= k < channels.len() && (#[trigger] channels[k]).id == id && is_sibling(channels[k], group) by {
        if order.contains(id) {
            let k = choose|k: int| 0 <= k < places.len() && (#[trigger] places[k]).1 == id;
            assert(siblings.contains(siblings[k]));
            let n = channels.index_of(siblings[k]);
            assert(channels[n].id == id);
        }
        if exists|k: int| 0 <= k < channels.len() && (#[trigger] channels[k]).id == id && is_sibling(channels[k], group) {
            let k = choose|k: int|
                0 <= k < channels.len() && (#[trigger] channels[k]).id == id && is_sibling(channels[k], group);
            assert(siblings.contains(channels[k]));
            let n = siblings.index_of(channels[k]);
            assert(places[n].1 == id);
        }
    }
    if order.no_duplicates() {
        assert forall|a: int, b: int|
            0 <= a < channels.len() && 0 <= b < channels.len() && is_sibling(channels[a], group) && is_sibling(
                channels[b],
                group,
            ) implies (order.index_of((#[trigger] channels[a]).id) < order.index_of((#[trigger] channels[b]).id)
            <==> stands_before(channels[a], channels[b])) by {
            assert(siblings.contains(channels[a]) && siblings.contains(channels[b]));
            let m = siblings.index_of(channels[a]);
            let n = siblings.index_of(channels[b]);
            assert(places[m] == (channels[a].position as i64, channels[a].id));
            assert(places[n] == (channels[b].position as i64, channels[b].id));
            assert(order.index_of(places[m].1) < order.index_of(places[n].1) <==> comes_before(places[m], places[n]));
        }
    }
}

/// Channels that are named one behind the other stand so exactly where none of them is out of place.
proof fn named_stand_unless_out_of_place(
    names: Seq<Seq<char>>,
    ids: Seq<u64>,
    group: Siblings,
    state: StateView,
    channels: Seq<ChannelSnapshotView>,
)
    requires
        all_bound(names, state),
        ids.len() == names.len(),
        ids.no_duplicates(),
        forall|k: int| 0 <= k < names.len() ==> Some(ids[k]) == lookup(state.channels, #[trigger] names[k]),
        channel_order(siblings_in(channels, group)).no_duplicates(),
        forall|k: int| 0 <= k < ids.len() ==> channel_order(siblings_in(channels, group)).contains(#[trigger] ids[k]),
    ensures
        stand_as_asked(channel_order(siblings_in(channels, group)), ids) <==> !is_out_of_place(
            names,
            group,
            state,
            channels,
        ),
{
    let order = channel_order(siblings_in(channels, group));
    siblings_stand_by_position(channels, group);
    if stand_as_asked(order, ids) && is_out_of_place(names, group, state, channels) {
        let (i, j, a, b) = choose|i: int, j: int, a: int, b: int|
            0 <= i < j < names.len() && 0 <= a < channels.len() && 0 <= b < channels.len() && is_sibling(
                channels[a],
                group,
            ) && is_sibling(channels[b], group) && lookup(state.channels, #[trigger] names[i]) == Some(
                (#[trigger] channels[a]).id,
            ) && lookup(state.channels, #[trigger] names[j]) == Some((#[trigger] channels[b]).id) && stands_before(
                channels[b],
                channels[a],
            );
        assert(ids[i] == channels[a].id && ids[j] == channels[b].id);
        assert(order.index_of(ids[i]) < order.index_of(ids[j]));
        assert(order.index_of(channels[b].id) < order.index_of(channels[a].id));
    }
    if !is_out_of_place(names, group, state, channels) {
        assert forall|i: int, j: int| 0 <= i < j < ids.len() implies order.index_of(#[trigger] ids[i]) < order.index_of(
            #[trigger] ids[j],
        ) by {
            assert(order.contains(ids[i]) && order.contains(ids[j]));
            let a = choose|k: int|
                0 <= k < channels.len() && (#[trigger] channels[k]).id == ids[i] && is_sibling(channels[k], group);
            let b = choose|k: int|
                0 <= k < channels.len() && (#[trigger] channels[k]).id == ids[j] && is_sibling(channels[k], group);
            assert(lookup(state.channels, names[i]) == Some(channels[a].id));
            assert(lookup(state.channels, names[j]) == Some(channels[b].id));
            assert(!stands_before(channels[b], channels[a]));
            assert(ids[i] != ids[j]);
            assert(stands_before(channels[a], channels[b]));
        }
    }
}

/// When a new order of siblings is planned, and what it is.
///
/// Where some of the named channels are still to be created, the order is planned and left
/// open. Else a new order is planned exactly where two of the named channels stand the other
/// way round than they are named. It lists every sibling once, the named ones as they are
/// named, and of the others none passes another; each gets the place at which it is listed.
/// Every named channel that is bound is one of the siblings, of the kind that is asked for,
/// and can be managed where it is managed.
pub proof fn orders_are_planned_where_they_differ(
    names: Seq<Seq<char>>,
    group: Siblings,
    kind: ChannelKind,
    definition: DefinitionView,
    state: StateView,
    channels: Seq<ChannelSnapshotView>,
)
    requires
        group_order(names, group, kind, definition, state, channels) is Ok,
    ensures
        ({
            let plan = group_order(names, group, kind, definition, state, channels)->Ok_0;
            &&& forall|k: int|
                0 <= k < names.len() && has_key(state.channels, #[trigger] names[k]) ==> exists|c: int|
                    0 <= c < channels.len() && (#[trigger] channels[c]).id == lookup(state.channels, names[k])->0
                        && is_sibling(channels[c], group) && channels[c].kind == kind && (lookup(
                        definition.channels,
                        names[k],
                    ) is Some && lookup(definition.channels, names[k])->0 is Managed ==> channels[c].manageable)
            &&& !all_bound(names, state) ==> plan is Some && plan->0.requested == names && plan->0.updates.len() == 0
                && plan->0.expected_order.len() == 0
            &&& all_bound(names, state) ==> (plan is Some <==> is_out_of_place(names, group, state, channels))
            &&& all_bound(names, state) && plan is Some ==> is_order_of(plan->0, names, group, state, channels)
        }),
{
    let siblings = siblings_in(channels, group);
    let current = channel_order(siblings);
    let named = named_channels(names, 0, kind, definition, state, channels, siblings, nothing_named())->Ok_0;
    let referenced = referenced_channels(definition.channels, state, siblings);
    names_come_to_their_channels(names, 0, kind, definition, state, channels, siblings, nothing_named());
    siblings_are_listed(channels, group);
    siblings_stand_by_position(channels, group);
    assert forall|k: int| 0 <= k < names.len() && has_key(state.channels, #[trigger] names[k]) implies exists|c: int|
        0 <= c < channels.len() && (#[trigger] channels[c]).id == lookup(state.channels, names[k])->0 && is_sibling(
            channels[c],
            group,
        ) && channels[c].kind == kind && (lookup(definition.channels, names[k]) is Some && lookup(
            definition.channels,
            names[k],
        )->0 is Managed ==> channels[c].manageable) by {
        let id = lookup(state.channels, names[k])->0;
        found_channels_are_there(siblings, id);
        let found = channel_with_id(siblings, id)->0;
        assert(siblings.contains(found));
        let c = channels.index_of(found);
        assert(channels[c].id == id);
    }
    if all_bound(names, state) {
        assert(named.missing =~= Seq::empty());
        assert(current + named.missing =~= current);
        let fixed = named.fixed + referenced;
        let order = relative_order(current, named.ids, fixed)->0;
        new_orders_stand_as_asked(current, named.ids, fixed);
        assert forall|k: int| 0 <= k < named.ids.len() implies current.contains(#[trigger] named.ids[k]) by {}
        named_stand_unless_out_of_place(names, named.ids, group, state, channels);
        if order != current {
            let plan = group_order(names, group, kind, definition, state, channels)->Ok_0->0;
            assert(plan.expected_order == order);
            assert forall|p: int| 0 <= p < order.len() && p <= u64::MAX implies (#[trigger] plan.updates[p]).channel_id
                == order[p] && plan.updates[p].position == p by {
                assert(plan.updates[p] == (ChannelPositionUpdateView { channel_id: order[p], position: p as u64 }));
            }
            assert forall|id: u64| #[trigger] order.contains(id) <==> exists|k: int|
                0 <= k < channels.len() && (#[trigger] channels[k]).id == id && is_sibling(channels[k], group) by {
                broadcast use vstd::seq_lib::group_to_multiset_ensures;

                assert(order.contains(id) <==> order.to_multiset().count(id) > 0);
                assert(current.contains(id) <==> current.to_multiset().count(id) > 0);
            }
            assert forall|i: int, j: int| 0 <= i < j < names.len() implies order.index_of(
                lookup(state.channels, #[trigger] names[i])->0,
            ) < order.index_of(lookup(state.channels, #[trigger] names[j])->0) by {
                assert(named.ids[i] == lookup(state.channels, names[i])->0);
                assert(named.ids[j] == lookup(state.channels, names[j])->0);
                assert(order.index_of(named.ids[i]) < order.index_of(named.ids[j]));
            }
            assert forall|a: int, b: int|
                0 <= a < channels.len() && 0 <= b < channels.len() && is_unnamed_sibling(
                    channels[a],
                    names,
                    group,
                    state,
                ) && is_unnamed_sibling(channels[b], names, group, state) && stands_before(
                    #[trigger] channels[a],
                    #[trigger] channels[b],
                ) implies order.index_of(channels[a].id) < order.index_of(channels[b].id) by {
                unnamed_keep_their_place(names, named.ids, current, order, fixed, group, state, channels[a]);
                unnamed_keep_their_place(names, named.ids, current, order, fixed, group, state, channels[b]);
                assert(current.contains(channels[a].id) && current.contains(channels[b].id));
                assert(current.index_of(channels[a].id) < current.index_of(channels[b].id));
            }
        }
    }
}

/// Whether a channel is a sibling that an order does not name.
pub open spec fn is_unnamed_sibling(
    channel: ChannelSnapshotView,
    names: Seq<Seq<char>>,
    group: Siblings,
    state: StateView,
) -> bool {
    is_sibling(channel, group) && forall|k: int|
        0 <= k < names.len() ==> lookup(state.channels, #[trigger] names[k]) != Some(channel.id)
}

proof fn unnamed_keep_their_place(
    names: Seq<Seq<char>>,
    ids: Seq<u64>,
    current: Seq<u64>,
    order: Seq<u64>,
    fixed: Seq<u64>,
    group: Siblings,
    state: StateView,
    channel: ChannelSnapshotView,
)
    requires
        current.no_duplicates(),
        order.no_duplicates(),
        order.len() == current.len(),
        current.contains(channel.id),
        ids.len() == names.len(),
        forall|k: int| 0 <= k < names.len() ==> Some(ids[k]) == lookup(state.channels, #[trigger] names[k]),
        is_unnamed_sibling(channel, names, group, state),
        forall|i: int|
            0 <= i < current.len() && (!ids.contains(#[trigger] current[i]) || fixed.contains(current[i])) ==> order[i]
                == current[i],
    ensures
        order.index_of(channel.id) == current.index_of(channel.id),
{
    let i = current.index_of(channel.id);
    if ids.contains(channel.id) {
        let k = ids.index_of(channel.id);
        assert(Some(ids[k]) == lookup(state.channels, names[k]));
    }
    assert(order[i] == channel.id);
    let j = order.index_of(channel.id);
    assert(order[j] == order[i]);
}

/// Whether a planned order lists every sibling once, the named ones as they are named, the
/// others as they stand, and gives each the place at which it is listed.
pub open spec fn is_order_of(
    plan: OrderGroupPlanView,
    names: Seq<Seq<char>>,
    group: Siblings,
    state: StateView,
    channels: Seq<ChannelSnapshotView>,
) -> bool {
    let order = plan.expected_order;
    &&& plan.requested == names
    &&& order.no_duplicates()
    &&& forall|id: u64|
        #[trigger] order.contains(id) <==> exists|k: int|
            0 <= k < channels.len() && (#[trigger] channels[k]).id == id && is_sibling(channels[k], group)
    &&& forall|i: int, j: int|
        0 <= i < j < names.len() ==> order.index_of(lookup(state.channels, #[trigger] names[i])->0) < order.index_of(
            lookup(state.channels, #[trigger] names[j])->0,
        )
    &&& forall|a: int, b: int|
        0 <= a < channels.len() && 0 <= b < channels.len() && is_unnamed_sibling(channels[a], names, group, state)
            && is_unnamed_sibling(channels[b], names, group, state) && stands_before(
            #[trigger] channels[a],
            #[trigger] channels[b],
        ) ==> order.index_of(channels[a].id) < order.index_of(channels[b].id)
    &&& plan.updates.len() == order.len()
    &&& forall|p: int|
        0 <= p < order.len() && p <= u64::MAX ==> (#[trigger] plan.updates[p]).channel_id == order[p]
            && plan.updates[p].position == p
}

/// Whether an order can be asked for: the named channels are bound to different siblings, of
/// the kind that is asked for, that can be managed where they are managed; and no two
/// siblings have one identifier.
pub open spec fn can_be_ordered(
    names: Seq<Seq<char>>,
    group: Siblings,
    kind: ChannelKind,
    definition: DefinitionView,
    state: StateView,
    channels: Seq<ChannelSnapshotView>,
) -> bool {
    &&& forall|k: int|
        0 <= k < names.len() ==> has_key(state.channels, #[trigger] names[k]) && exists|c: int|
            0 <= c < channels.len() && (#[trigger] channels[c]).id == lookup(state.channels, names[k])->0 && is_sibling(
                channels[c],
                group,
            ) && channels[c].kind == kind && (lookup(definition.channels, names[k]) is Some && lookup(
                definition.channels,
                names[k],
            )->0 is Managed ==> channels[c].manageable)
    &&& forall|i: int, j: int|
        0 <= i < j < names.len() ==> lookup(state.channels, #[trigger] names[i]) != lookup(
            state.channels,
            #[trigger] names[j],
        )
    &&& forall|a: int, b: int|
        0 <= a < b < channels.len() ==> (#[trigger] channels[a]).id != (#[trigger] channels[b]).id
}

proof fn names_are_taken(
    names: Seq<Seq<char>>,
    i: int,
    group: Siblings,
    kind: ChannelKind,
    definition: DefinitionView,
    state: StateView,
    channels: Seq<ChannelSnapshotView>,
    gathered: NamedChannelsView,
)
    requires
        0 <= i <= names.len(),
        can_be_ordered(names, group, kind, definition, state, channels),
    ensures
        named_channels(names, i, kind, definition, state, channels, siblings_in(channels, group), gathered) is Ok,
    decreases names.len() - i,
{
    let siblings = siblings_in(channels, group);
    if i < names.len() {
        let name = names[i];
        assert(has_key(state.channels, names[i]));
        let id = lookup(state.channels, name)->0;
        let declared = lookup(definition.channels, name);
        let is_reference = declared is Some && declared->0 is Reference;
        let c = choose|c: int|
            0 <= c < channels.len() && (#[trigger] channels[c]).id == id && is_sibling(channels[c], group)
                && channels[c].kind == kind && (declared is Some && declared->0 is Managed ==> channels[c].manageable);
        siblings_are_listed(channels, group);
        found_channels_are_there(siblings, id);
        assert(siblings.contains(channels[c]));
        let n = siblings.index_of(channels[c]);
        assert(siblings[n].id == id);
        let found = channel_with_id(siblings, id)->0;
        assert(siblings.contains(found));
        let m = channels.index_of(found);
        if m < c {
            assert(channels[m].id != channels[c].id);
        } else if c < m {
            assert(channels[c].id != channels[m].id);
        }
        let after = NamedChannelsView {
            ids: gathered.ids.push(id),
            fixed: if is_reference {
                gathered.fixed.push(id)
            } else {
                gathered.fixed
            },
            missing: gathered.missing,
            next: gathered.next,
        };
        names_are_taken(names, i + 1, group, kind, definition, state, channels, after);
    }
}

/// No order is planned where the named channels stand as they are named: so none is planned
/// again once the guild has the order that was planned.
pub proof fn orders_in_place_are_kept(
    names: Seq<Seq<char>>,
    group: Siblings,
    kind: ChannelKind,
    definition: DefinitionView,
    state: StateView,
    channels: Seq<ChannelSnapshotView>,
)
    requires
        can_be_ordered(names, group, kind, definition, state, channels),
        !is_out_of_place(names, group, state, channels),
    ensures
        group_order(names, group, kind, definition, state, channels) == Ok::<Option<OrderGroupPlanView>, ErrorView>(
            None,
        ),
{
    let siblings = siblings_in(channels, group);
    let places = channel_places(siblings);
    let current = channel_order(siblings);
    names_are_taken(names, 0, group, kind, definition, state, channels, nothing_named());
    let named = named_channels(names, 0, kind, definition, state, channels, siblings, nothing_named())->Ok_0;
    let referenced = referenced_channels(definition.channels, state, siblings);
    names_come_to_their_channels(names, 0, kind, definition, state, channels, siblings, nothing_named());
    siblings_stand_by_position(channels, group);
    assert forall|k: int| 0 <= k < names.len() implies has_key(state.channels, #[trigger] names[k]) by {}
    assert(all_bound(names, state));
    assert(named.missing =~= Seq::empty());
    assert(current + named.missing =~= current);
    siblings_differ(channels, group);
    places_tell_the_order(places);
    assert forall|i: int, j: int| 0 <= i < j < places.len() implies (#[trigger] places[i]).1 != (
    #[trigger] places[j]).1 by {
        assert(siblings[i].id != siblings[j].id);
    }
    assert(current.no_duplicates());
    assert(named.ids.no_duplicates()) by {
        assert forall|i: int, j: int|
            0 <= i < named.ids.len() && 0 <= j < named.ids.len() && i != j implies named.ids[i] != named.ids[j] by {
            assert(has_key(state.channels, names[i]) && has_key(state.channels, names[j]));
            if i < j {
                assert(lookup(state.channels, names[i]) != lookup(state.channels, names[j]));
            } else {
                assert(lookup(state.channels, names[j]) != lookup(state.channels, names[i]));
            }
        }
    }
    assert forall|k: int| 0 <= k < named.ids.len() implies current.contains(#[trigger] named.ids[k]) by {
        assert(has_key(state.channels, names[k]));
        let id = lookup(state.channels, names[k])->0;
        assert(named.ids[k] == id);
        let c = choose|c: int|
            0 <= c < channels.len() && (#[trigger] channels[c]).id == id && is_sibling(channels[c], group)
                && channels[c].kind == kind && (lookup(definition.channels, names[k]) is Some && lookup(
                definition.channels,
                names[k],
            )->0 is Managed ==> channels[c].manageable);
        assert(channels[c].id == id);
    }
    named_stand_unless_out_of_place(names, named.ids, group, state, channels);
    standing_orders_are_kept(current, named.ids, named.fixed + referenced);
}

proof fn siblings_differ(channels: Seq<ChannelSnapshotView>, group: Siblings)
    requires
        forall|a: int, b: int|
            0 <= a < b < channels.len() ==> (#[trigger] channels[a]).id != (#[trigger] channels[b]).id,
    ensures
        ({
            let siblings = siblings_in(channels, group);
            forall|a: int, b: int|
                0 <= a < b < siblings.len() ==> (#[trigger] siblings[a]).id != (#[trigger] siblings[b]).id
        }),
    decreases channels.len(),
{
    if channels.len() > 0 {
        let front = channels.drop_last();
        let rest = siblings_in(front, group);
        let siblings = siblings_in(channels, group);
        assert forall|a: int, b: int| 0 <= a < b < front.len() implies (#[trigger] front[a]).id != (
        #[trigger] front[b]).id by {
            assert(channels[a].id != channels[b].id);
        }
        siblings_differ(front, group);
        siblings_are_listed(front, group);
        assert forall|a: int, b: int| 0 <= a < b < siblings.len() implies (#[trigger] siblings[a]).id != (
        #[trigger] siblings[b]).id by {
            if b < rest.len() {
                assert(rest[a].id != rest[b].id);
            } else {
                assert(rest.contains(rest[a]));
                let k = front.index_of(rest[a]);
                assert(channels[k].id != channels[channels.len() - 1].id);
            }
        }
    }
}

proof fn references_are_fixed(
    declared: Seq<(Seq<char>, ChannelDefinitionView)>,
    state: StateView,
    siblings: Seq<ChannelSnapshotView>,
    k: int,
    id: u64,
)
    requires
        0 <= k < declared.len(),
        declared[k].1 is Reference,
        lookup(state.channels, declared[k].0) == Some(id),
        is_listed(siblings, id),
    ensures
        referenced_channels(declared, state, siblings).contains(id),
    decreases declared.len(),
{
    let front = declared.drop_last();
    let rest = referenced_channels(front, state, siblings);
    let all = referenced_channels(declared, state, siblings);
    if k < declared.len() - 1 {
        references_are_fixed(front, state, siblings, k, id);
        let n = rest.index_of(id);
        assert(all[n] == id);
    } else {
        assert(all[all.len() - 1] == id);
    }
}

/// No channel that is only referred to is passed: what a planned order lists before it, stood
/// before it.
pub proof fn planned_orders_pass_no_reference(
    names: Seq<Seq<char>>,
    group: Siblings,
    kind: ChannelKind,
    definition: DefinitionView,
    state: StateView,
    channels: Seq<ChannelSnapshotView>,
    name: Seq<char>,
    a: int,
    b: int,
)
    requires
        group_order(names, group, kind, definition, state, channels) is Ok,
        group_order(names, group, kind, definition, state, channels)->Ok_0 is Some,
        all_bound(names, state),
        lookup(definition.channels, name) == Some(ChannelDefinitionView::Reference),
        0 <= a < channels.len(),
        0 <= b < channels.len(),
        is_sibling(channels[a], group),
        is_sibling(channels[b], group),
        lookup(state.channels, name) == Some(channels[b].id),
        ({
            let order = group_order(names, group, kind, definition, state, channels)->Ok_0->0.expected_order;
            order.index_of(channels[a].id) < order.index_of(channels[b].id)
        }),
    ensures
        stands_before(channels[a], channels[b]),
{
    let siblings = siblings_in(channels, group);
    let current = channel_order(siblings);
    let named = named_channels(names, 0, kind, definition, state, channels, siblings, nothing_named())->Ok_0;
    let referenced = referenced_channels(definition.channels, state, siblings);
    let fixed = named.fixed + referenced;
    names_come_to_their_channels(names, 0, kind, definition, state, channels, siblings, nothing_named());
    siblings_are_listed(channels, group);
    siblings_stand_by_position(channels, group);
    assert(named.missing =~= Seq::empty());
    assert(current + named.missing =~= current);
    let order = relative_order(current, named.ids, fixed)->0;
    new_orders_stand_as_asked(current, named.ids, fixed);
    let k = lookup_has_entry(definition.channels, name);
    assert(siblings.contains(channels[b]));
    let n = siblings.index_of(channels[b]);
    assert(siblings[n].id == channels[b].id);
    references_are_fixed(definition.channels, state, siblings, k, channels[b].id);
    let m = referenced.index_of(channels[b].id);
    assert(fixed[named.fixed.len() + m] == channels[b].id);
    assert(current.contains(channels[a].id) && current.contains(channels[b].id));
    let i = current.index_of(channels[b].id);
    assert(keeps_fixed(current, reordered(current, named.ids, 0), fixed));
    assert(fixed.contains(current[i]));
    assert(order[i] == current[i]);
    let place = order.index_of(channels[b].id);
    assert(order[place] == order[i]);
    broadcast use vstd::seq_lib::group_to_multiset_ensures;

    assert(current.to_multiset().count(channels[a].id) > 0);
    assert(order.contains(channels[a].id));
    let h = order.index_of(channels[a].id);
    assert(order[h] == channels[a].id);
    assert(current.take(i).contains(order[h]));
    let g = current.take(i).index_of(order[h]);
    assert(current[g] == channels[a].id);
    let c = current.index_of(channels[a].id);
    assert(current[c] == current[g]);
    assert(current.index_of(channels[a].id) < current.index_of(channels[b].id));
}

/// Whether a declared channel that is bound to an identifier asks for a parent that is
/// bound, or for none.
pub open spec fn asks_for_parent(
    definition: DefinitionView,
    state: StateView,
    name: Seq<char>,
    id: u64,
    parent: Option<u64>,
) -> bool {
    lookup(state.channels, name) == Some(id) && match lookup(definition.channels, name) {
        Some(ChannelDefinitionView::Managed { attributes }) => match attributes.parent {
            Some(ChannelValue::Clear) => parent is None,
            Some(ChannelValue::Value(wanted)) => parent is Some && lookup(state.channels, wanted) == parent,
            _ => false,
        },
        _ => false,
    }
}

/// Whether channels are the same but for their parents.
spec fn differ_in_parents(a: Seq<ChannelSnapshotView>, b: Seq<ChannelSnapshotView>) -> bool {
    a.len() == b.len() && forall|c: int|
        0 <= c < a.len() ==> (#[trigger] b[c]) == (ChannelSnapshotView { parent_id: b[c].parent_id, ..a[c] })
}

proof fn one_parent_changes(channels: Seq<ChannelSnapshotView>, id: u64, parent_id: Option<u64>)
    requires
        forall|a: int, b: int|
            0 <= a < b < channels.len() ==> (#[trigger] channels[a]).id != (#[trigger] channels[b]).id,
    ensures
        differ_in_parents(channels, with_parent(channels, id, parent_id)),
        forall|c: int|
            0 <= c < channels.len() ==> (#[trigger] with_parent(channels, id, parent_id)[c]).parent_id
                == if channels[c].id == id {
                parent_id
            } else {
                channels[c].parent_id
            },
    decreases channels.len(),
{
    if channels.len() > 0 {
        let rest = channels.drop_first();
        let all = with_parent(channels, id, parent_id);
        assert forall|a: int, b: int| 0 <= a < b < rest.len() implies (#[trigger] rest[a]).id != (
        #[trigger] rest[b]).id by {
            assert(channels[a + 1].id != channels[b + 1].id);
        }
        one_parent_changes(rest, id, parent_id);
        if channels[0].id == id {
            assert forall|c: int| 0 <= c < channels.len() implies (#[trigger] all[c]) == (ChannelSnapshotView {
                parent_id: if channels[c].id == id {
                    parent_id
                } else {
                    channels[c].parent_id
                },
                ..channels[c]
            }) by {
                if c > 0 {
                    assert(channels[0].id != channels[c].id);
                    assert(all[c] == rest[c - 1]);
                }
            }
        } else {
            let changed = with_parent(rest, id, parent_id);
            assert forall|c: int| 0 <= c < channels.len() implies (#[trigger] all[c]) == (ChannelSnapshotView {
                parent_id: if channels[c].id == id {
                    parent_id
                } else {
                    channels[c].parent_id
                },
                ..channels[c]
            }) by {
                if c > 0 {
                    assert(all[c] == changed[c - 1]);
                    assert(changed[c - 1] == (ChannelSnapshotView {
                        parent_id: changed[c - 1].parent_id,
                        ..rest[c - 1]
                    }));
                }
            }
        }
    }
}

proof fn projected_parents(
    channels: Seq<ChannelSnapshotView>,
    definition: DefinitionView,
    i: int,
    state: StateView,
    c: int,
)
    requires
        0 <= i <= definition.channels.len(),
        0 <= c < channels.len(),
        sorted::<ChannelLogicalId, ChannelDefinitionView>(definition.channels),
        no_duplicate(state.channels),
        forall|a: int, b: int|
            0 <= a < b < channels.len() ==> (#[trigger] channels[a]).id != (#[trigger] channels[b]).id,
    ensures
        ({
            let after = with_wanted_parents(channels, definition.channels, i, state);
            &&& differ_in_parents(channels, after)
            &&& after[c].parent_id == channels[c].parent_id || exists|k: int|
                i <= k < definition.channels.len() && asks_for_parent(
                    definition,
                    state,
                    (#[trigger] definition.channels[k]).0,
                    channels[c].id,
                    after[c].parent_id,
                )
            &&& forall|k: int, parent: Option<u64>|
                i <= k < definition.channels.len() && #[trigger] asks_for_parent(
                    definition,
                    state,
                    (#[trigger] definition.channels[k]).0,
                    channels[c].id,
                    parent,
                ) ==> after[c].parent_id == parent
        }),
    decreases definition.channels.len() - i,
{
    if i < definition.channels.len() {
        let (name, declared) = definition.channels[i];
        lookup_in_sorted::<ChannelLogicalId, ChannelDefinitionView>(definition.channels, i);
        let next = match lookup(state.channels, name) {
            None => channels,
            Some(id) => match declared.attributes().parent {
                Some(ChannelValue::Clear) => with_parent(channels, id, None),
                Some(ChannelValue::Value(parent)) => match lookup(state.channels, parent) {
                    Some(parent_id) => with_parent(channels, id, Some(parent_id)),
                    None => channels,
                },
                _ => channels,
            },
        };
        if let Some(id) = lookup(state.channels, name) {
            one_parent_changes(channels, id, None);
            if let Some(ChannelValue::Value(parent)) = declared.attributes().parent {
                one_parent_changes(channels, id, lookup(state.channels, parent));
            }
        }
        assert(differ_in_parents(channels, next));
        assert forall|a: int, b: int| 0 <= a < b < next.len() implies (#[trigger] next[a]).id != (
        #[trigger] next[b]).id by {
            assert(channels[a].id != channels[b].id);
        }
        projected_parents(next, definition, i + 1, state, c);
        let after = with_wanted_parents(channels, definition.channels, i, state);
        assert(next[c].id == channels[c].id);
        if next[c].parent_id != channels[c].parent_id {
            assert(asks_for_parent(definition, state, definition.channels[i].0, channels[c].id, next[c].parent_id));
        }
        assert forall|k: int, parent: Option<u64>|
            i <= k < definition.channels.len() && #[trigger] asks_for_parent(
                definition,
                state,
                (#[trigger] definition.channels[k]).0,
                channels[c].id,
                parent,
            ) implies after[c].parent_id == parent by {
            if k == i {
                assert(next[c].parent_id == parent);
                assert forall|m: int| i + 1 <= m < definition.channels.len() implies lookup(
                    state.channels,
                    (#[trigger] definition.channels[m]).0,
                ) != Some(channels[c].id) by {
                    sorted_entries::<ChannelLogicalId, ChannelDefinitionView>(definition.channels, i, m);
                    ChannelLogicalId::order_is_total(definition.channels[i].0, definition.channels[m].0);
                    if lookup(state.channels, definition.channels[m].0) == Some(channels[c].id) {
                        bound_once(state.channels, definition.channels[i].0, definition.channels[m].0);
                    }
                }
            }
        }
        assert forall|a: int| 0 <= a < channels.len() implies (#[trigger] after[a]) == (ChannelSnapshotView {
            parent_id: after[a].parent_id,
            ..channels[a]
        }) by {
            assert(after[a] == (ChannelSnapshotView { parent_id: after[a].parent_id, ..next[a] }));
            assert(next[a] == (ChannelSnapshotView { parent_id: next[a].parent_id, ..channels[a] }));
        }
    }
}

/// Whether no two names are bound to one object.
pub open spec fn no_duplicate(bound: MappingsView) -> bool {
    forall|a: Seq<char>, b: Seq<char>|
        (#[trigger] lookup(bound, a)) is Some && lookup(bound, a) == #[trigger] lookup(bound, b) ==> a == b
}

proof fn bound_once(bound: MappingsView, a: Seq<char>, b: Seq<char>)
    requires
        no_duplicate(bound),
        lookup(bound, a) is Some,
        lookup(bound, a) == lookup(bound, b),
    ensures
        a == b,
{
}

/// Orders are planned for the guild as it will be: each channel has the parent that its
/// declaration asks for, as far as that parent is there already, and else the parent that it
/// has. Nothing else of a channel differs.
pub proof fn orders_are_planned_under_new_parents(
    definition: DefinitionView,
    state: StateView,
    catalog: ChannelCatalogView,
    c: int,
)
    requires
        sorted::<ChannelLogicalId, ChannelDefinitionView>(definition.channels),
        no_duplicate(state.channels),
        forall|a: int, b: int|
            0 <= a < b < catalog.channels.len() ==> (#[trigger] catalog.channels[a]).id != (
            #[trigger] catalog.channels[b]).id,
        0 <= c < catalog.channels.len(),
    ensures
        ({
            let channel = catalog.channels[c];
            let projected = with_wanted_parents(catalog.channels, definition.channels, 0, state);
            &&& projected.len() == catalog.channels.len()
            &&& projected[c] == (ChannelSnapshotView { parent_id: projected[c].parent_id, ..channel })
            &&& forall|name: Seq<char>, parent: Option<u64>|
                #[trigger] asks_for_parent(definition, state, name, channel.id, parent) ==> projected[c].parent_id
                    == parent
            &&& (forall|name: Seq<char>, parent: Option<u64>|
                !(#[trigger] asks_for_parent(definition, state, name, channel.id, parent)))
                ==> projected[c].parent_id == channel.parent_id
        }),
{
    let channel = catalog.channels[c];
    let projected = with_wanted_parents(catalog.channels, definition.channels, 0, state);
    projected_parents(catalog.channels, definition, 0, state, c);
    assert forall|name: Seq<char>, parent: Option<u64>|
        #[trigger] asks_for_parent(definition, state, name, channel.id, parent) implies projected[c].parent_id == parent by {
        let k = lookup_has_entry(definition.channels, name);
        assert(asks_for_parent(definition, state, definition.channels[k].0, channel.id, parent));
    }
}

/// What the order of one list of children comes to, given the channels as they will be.
pub open spec fn children_group(
    parent: Seq<char>,
    names: Seq<Seq<char>>,
    definition: DefinitionView,
    state: StateView,
    channels: Seq<ChannelSnapshotView>,
) -> Option<OrderGroupPlanView> {
    match lookup(state.channels, parent) {
        None => Some(OrderGroupPlanView { requested: names, updates: Seq::empty(), expected_order: Seq::empty() }),
        Some(id) => group_order(names, Siblings::Under(id), ChannelKind::Text, definition, state, channels)->Ok_0,
    }
}

proof fn all_children_are_ordered(
    children: Seq<(Seq<char>, Seq<Seq<char>>)>,
    i: int,
    definition: DefinitionView,
    state: StateView,
    channels: Seq<ChannelSnapshotView>,
    groups: Seq<OrderGroupPlanView>,
)
    requires
        0 <= i <= children.len(),
        children_orders(children, i, definition, state, channels, groups) is Ok,
    ensures
        ({
            let all = children_orders(children, i, definition, state, channels, groups)->Ok_0;
            &&& forall|g: int| 0 <= g < groups.len() ==> all.contains(#[trigger] groups[g])
            &&& forall|k: int|
                i <= k < children.len() && (#[trigger] children[k]).1.len() > 0 ==> {
                    let group = children_group(children[k].0, children[k].1, definition, state, channels);
                    &&& group is Some ==> all.contains(group->0)
                    &&& lookup(state.channels, children[k].0) is Some ==> group_order(
                        children[k].1,
                        Siblings::Under(lookup(state.channels, children[k].0)->0),
                        ChannelKind::Text,
                        definition,
                        state,
                        channels,
                    ) is Ok
                }
            &&& forall|g: int|
                0 <= g < all.len() ==> groups.contains(#[trigger] all[g]) || exists|k: int|
                    i <= k < children.len() && (#[trigger] children[k]).1.len() > 0 && children_group(
                        children[k].0,
                        children[k].1,
                        definition,
                        state,
                        channels,
                    ) == Some(all[g])
        }),
    decreases children.len() - i,
{
    let all = children_orders(children, i, definition, state, channels, groups)->Ok_0;
    if i < children.len() {
        let (parent, names) = children[i];
        let group = children_group(parent, names, definition, state, channels);
        let next = if names.len() > 0 && group is Some {
            groups.push(group->0)
        } else {
            groups
        };
        assert(children_orders(children, i, definition, state, channels, groups) == children_orders(
            children,
            i + 1,
            definition,
            state,
            channels,
            next,
        ));
        all_children_are_ordered(children, i + 1, definition, state, channels, next);
        assert forall|g: int| 0 <= g < groups.len() implies all.contains(#[trigger] groups[g]) by {
            assert(next[g] == groups[g]);
        }
        if names.len() > 0 && group is Some {
            assert(next[groups.len() as int] == group->0);
        }
        assert forall|g: int| 0 <= g < all.len() implies groups.contains(#[trigger] all[g]) || exists|k: int|
            i <= k < children.len() && (#[trigger] children[k]).1.len() > 0 && children_group(
                children[k].0,
                children[k].1,
                definition,
                state,
                channels,
            ) == Some(all[g]) by {
            if next.contains(all[g]) && !groups.contains(all[g]) {
                let n = next.index_of(all[g]);
                if n < groups.len() {
                    assert(groups[n] == all[g]);
                }
                assert(children[i].1.len() > 0);
            }
        }
    } else {
        assert forall|g: int| 0 <= g < groups.len() implies all.contains(#[trigger] groups[g]) by {}
        assert forall|g: int| 0 <= g < all.len() implies groups.contains(#[trigger] all[g]) by {}
    }
}

/// A plan holds the new order of every list of siblings that a definition names and that
/// needs one, and no other: of the categories among the channels without a parent, and of
/// the children under each of their parents.
pub proof fn all_orders_are_planned(definition: DefinitionView, state: StateView, catalog: ChannelCatalogView)
    requires
        channel_order_plan(definition, state, catalog) is Ok,
    ensures
        ({
            let plan = channel_order_plan(definition, state, catalog)->Ok_0;
            let groups = match plan {
                Some(groups) => groups,
                None => Seq::empty(),
            };
            let channels = with_wanted_parents(catalog.channels, definition.channels, 0, state);
            &&& plan is Some ==> groups.len() > 0
            &&& definition.order is None ==> plan is None
            &&& definition.order is Some ==> {
                let order = definition.order->0;
                let top = group_order(
                    order.categories,
                    Siblings::Top,
                    ChannelKind::Category,
                    definition,
                    state,
                    channels,
                );
                &&& order.categories.len() > 0 ==> top is Ok && (top->Ok_0 is Some ==> groups.contains(top->Ok_0->0))
                &&& forall|k: int|
                    0 <= k < order.children.len() && (#[trigger] order.children[k]).1.len() > 0 ==> {
                        let group = children_group(
                            order.children[k].0,
                            order.children[k].1,
                            definition,
                            state,
                            channels,
                        );
                        &&& group is Some ==> groups.contains(group->0)
                        &&& lookup(state.channels, order.children[k].0) is Some ==> group_order(
                            order.children[k].1,
                            Siblings::Under(lookup(state.channels, order.children[k].0)->0),
                            ChannelKind::Text,
                            definition,
                            state,
                            channels,
                        ) is Ok
                    }
                &&& forall|g: int|
                    0 <= g < groups.len() ==> (order.categories.len() > 0 && top == Ok::<
                        Option<OrderGroupPlanView>,
                        ErrorView,
                    >(Some(#[trigger] groups[g]))) || exists|k: int|
                        0 <= k < order.children.len() && (#[trigger] order.children[k]).1.len() > 0 && children_group(
                            order.children[k].0,
                            order.children[k].1,
                            definition,
                            state,
                            channels,
                        ) == Some(groups[g])
            }
        }),
{
    if definition.order is Some {
        let order = definition.order->0;
        let channels = with_wanted_parents(catalog.channels, definition.channels, 0, state);
        let first = categories_order(order.categories, definition, state, channels)->Ok_0;
        all_children_are_ordered(order.children, 0, definition, state, channels, first);
        let all = children_orders(order.children, 0, definition, state, channels, first)->Ok_0;
        let top = group_order(order.categories, Siblings::Top, ChannelKind::Category, definition, state, channels);
        if order.categories.len() > 0 && top->Ok_0 is Some {
            assert(first[0] == top->Ok_0->0);
        }
        if all.len() == 0 {
            assert(all =~= Seq::empty());
        }
        assert forall|g: int| 0 <= g < all.len() implies (order.categories.len() > 0 && top == Ok::<
            Option<OrderGroupPlanView>,
            ErrorView,
        >(Some(#[trigger] all[g]))) || exists|k: int|
            0 <= k < order.children.len() && (#[trigger] order.children[k]).1.len() > 0 && children_group(
                order.children[k].0,
                order.children[k].1,
                definition,
                state,
                channels,
            ) == Some(all[g]) by {
            if first.contains(all[g]) {
                let n = first.index_of(all[g]);
                assert(first[n] == all[g]);
            }
        }
    }
}

} // verus!
