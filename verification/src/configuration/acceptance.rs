//! Which definitions are accepted, told by what they refer to and what they order.

use vstd::prelude::*;

use crate::configuration::channel::{
    ChannelAttributesView, ChannelDefinitionView, ChannelKind, ChannelValue, Ensure, OverwriteTargetView,
    OverwriteValue,
};
use crate::configuration::definition::{settings_set_channel, DefinitionView, MessageSetView, OrderView, ThreadView};
use crate::configuration::input::{
    channel_fault, channel_references_fault, container_fault, member_reference_fault, overwrite_target_fault,
    references_fault, role_reference_fault,
};
use crate::configuration::order::{
    order_categories_fault, order_children_fault, order_fault, order_roles_fault, placed_children,
    placed_uncategorized, ChannelsView, PlacedView,
};
use crate::configuration::role::{RoleDefinitionView, RoleMode};
use crate::configuration::state::StateView;
use crate::ids::{everyone, ChannelLogicalId};
use crate::ordered::{first_in_none, has_key, lookup, put, put_then_lookup};

verus! {

/// Whether a channel can be referred to: it is declared, not to be deleted, and bound
/// where it is only referred to itself.
pub open spec fn is_available(id: Seq<char>, definition: DefinitionView, state: StateView) -> bool {
    match lookup(definition.channels, id) {
        Some(ChannelDefinitionView::Managed { .. }) => true,
        Some(ChannelDefinitionView::Reference) => has_key(state.channels, id),
        _ => false,
    }
}

/// Whether permissions of a role or a member can be overwritten: it is declared, not to be
/// deleted, and bound. The role that every member has need not be declared.
pub open spec fn can_be_overwritten(
    target: OverwriteTargetView,
    definition: DefinitionView,
    state: StateView,
) -> bool {
    match target {
        OverwriteTargetView::Everyone => lookup(definition.roles, everyone()) != Some(RoleDefinitionView::Absent),
        OverwriteTargetView::Role(id) => {
            &&& lookup(definition.roles, id) != Some(RoleDefinitionView::Absent)
            &&& id != everyone() ==> has_key(definition.roles, id) && has_key(state.roles, id)
        },
        OverwriteTargetView::Member(id) => has_key(definition.members, id) && has_key(state.members, id),
    }
}

/// Whether all that the attributes of a channel refer to is there.
pub open spec fn attributes_are_supported(
    attributes: ChannelAttributesView,
    definition: DefinitionView,
    state: StateView,
) -> bool {
    &&& attributes.parent is Some && attributes.parent->0 is Value ==> is_available(
        attributes.parent->0->Value_0,
        definition,
        state,
    )
    &&& forall|k: int|
        0 <= k < attributes.overwrites.len() ==> can_be_overwritten(
            (#[trigger] attributes.overwrites[k]).0,
            definition,
            state,
        )
}

/// Whether something that is posted has a channel to be posted in, unless it shall be absent.
pub open spec fn has_a_place(
    ensure: Option<Ensure>,
    channel: Option<Seq<char>>,
    definition: DefinitionView,
    state: StateView,
) -> bool {
    ensure == Some(Ensure::Absent) || channel is Some && is_available(channel->0, definition, state)
}

/// Whether all that a definition refers to is there.
pub open spec fn all_is_there(definition: DefinitionView, state: StateView) -> bool {
    &&& forall|k: int|
        0 <= k < definition.roles.len() && (#[trigger] definition.roles[k]).1 is Reference && definition.roles[k].0
            != everyone() ==> has_key(state.roles, definition.roles[k].0)
    &&& forall|k: int|
        0 <= k < definition.channels.len() ==> match (#[trigger] definition.channels[k]).1 {
            ChannelDefinitionView::Absent => true,
            ChannelDefinitionView::Reference => has_key(state.channels, definition.channels[k].0),
            ChannelDefinitionView::Managed { attributes } => attributes_are_supported(attributes, definition, state),
        }
    &&& forall|k: int|
        0 <= k < definition.members.len() ==> (#[trigger] definition.members[k]).1 == RoleMode::Reference && has_key(
            state.members,
            definition.members[k].0,
        )
    &&& forall|k: int|
        0 <= k < definition.message_sets.len() ==> has_a_place(
            (#[trigger] definition.message_sets[k]).1.ensure,
            definition.message_sets[k].1.channel,
            definition,
            state,
        )
    &&& forall|k: int|
        0 <= k < definition.threads.len() ==> has_a_place(
            (#[trigger] definition.threads[k]).1.ensure,
            definition.threads[k].1.channel,
            definition,
            state,
        )
    &&& forall|k: int|
        0 <= k < definition.settings_sets.channel.len() ==> attributes_are_supported(
            (#[trigger] definition.settings_sets.channel[k]).1,
            definition,
            state,
        )
}

proof fn supported_attributes_are_accepted(
    channel: Seq<char>,
    attributes: ChannelAttributesView,
    definition: DefinitionView,
    state: StateView,
)
    ensures
        channel_references_fault(channel, attributes, definition, state) is None <==> attributes_are_supported(
            attributes,
            definition,
            state,
        ),
{
    let check = |target: OverwriteTargetView, permissions: Seq<(Seq<char>, OverwriteValue)>|
        overwrite_target_fault(channel, target, definition, state);
    first_in_none(attributes.overwrites, check);
    assert forall|k: int| 0 <= k < attributes.overwrites.len() implies (check(
        (#[trigger] attributes.overwrites[k]).0,
        attributes.overwrites[k].1,
    ) is None <==> can_be_overwritten(attributes.overwrites[k].0, definition, state)) by {}
}

proof fn declared_channels_are_accepted(definition: DefinitionView, state: StateView)
    ensures
        crate::ordered::first_in(
            definition.channels,
            |id: Seq<char>, channel: ChannelDefinitionView| channel_fault(id, channel, definition, state),
        ) is None <==> forall|k: int|
            0 <= k < definition.channels.len() ==> match (#[trigger] definition.channels[k]).1 {
                ChannelDefinitionView::Absent => true,
                ChannelDefinitionView::Reference => has_key(state.channels, definition.channels[k].0),
                ChannelDefinitionView::Managed { attributes } => attributes_are_supported(
                    attributes,
                    definition,
                    state,
                ),
            },
{
    let check = |id: Seq<char>, channel: ChannelDefinitionView| channel_fault(id, channel, definition, state);
    first_in_none(definition.channels, check);
    assert forall|k: int| 0 <= k < definition.channels.len() implies (check(
        (#[trigger] definition.channels[k]).0,
        definition.channels[k].1,
    ) is None <==> match definition.channels[k].1 {
        ChannelDefinitionView::Absent => true,
        ChannelDefinitionView::Reference => has_key(state.channels, definition.channels[k].0),
        ChannelDefinitionView::Managed { attributes } => attributes_are_supported(attributes, definition, state),
    }) by {
        if let ChannelDefinitionView::Managed { attributes } = definition.channels[k].1 {
            supported_attributes_are_accepted(definition.channels[k].0, attributes, definition, state);
        }
    }
}

/// A definition is accepted with a state exactly where all that it refers to is there: each
/// role, channel and member that is only referred to is bound, and each parent, each target
/// of an overwrite and each channel to post in is declared, not to be deleted, and bound
/// where that is needed.
pub proof fn definitions_are_accepted_where_all_is_there(definition: DefinitionView, state: StateView)
    ensures
        references_fault(definition, state) is None <==> all_is_there(definition, state),
{
    let bad_role = |id: Seq<char>, role: RoleDefinitionView| role_reference_fault(id, role, state);
    let bad_member = |id: Seq<char>, mode: RoleMode| member_reference_fault(id, mode, state);
    let bad_set = |name: Seq<char>, set: MessageSetView|
        container_fault("管理メッセージ群"@, name, set.ensure, set.channel, definition, state);
    let bad_thread = |name: Seq<char>, thread: ThreadView|
        container_fault("管理スレッド"@, name, thread.ensure, thread.channel, definition, state);
    let bad_settings = |name: Seq<char>, attributes: ChannelAttributesView|
        channel_references_fault(settings_set_channel(name), attributes, definition, state);
    first_in_none(definition.roles, bad_role);
    declared_channels_are_accepted(definition, state);
    first_in_none(definition.members, bad_member);
    first_in_none(definition.message_sets, bad_set);
    first_in_none(definition.threads, bad_thread);
    first_in_none(definition.settings_sets.channel, bad_settings);
    assert forall|k: int| 0 <= k < definition.roles.len() implies (bad_role(
        (#[trigger] definition.roles[k]).0,
        definition.roles[k].1,
    ) is None <==> (definition.roles[k].1 is Reference && definition.roles[k].0 != everyone() ==> has_key(
        state.roles,
        definition.roles[k].0,
    ))) by {}
    assert forall|k: int| 0 <= k < definition.members.len() implies (bad_member(
        (#[trigger] definition.members[k]).0,
        definition.members[k].1,
    ) is None <==> definition.members[k].1 == RoleMode::Reference && has_key(state.members, definition.members[k].0)) by {}
    assert forall|k: int| 0 <= k < definition.message_sets.len() implies (bad_set(
        (#[trigger] definition.message_sets[k]).0,
        definition.message_sets[k].1,
    ) is None <==> has_a_place(
        definition.message_sets[k].1.ensure,
        definition.message_sets[k].1.channel,
        definition,
        state,
    )) by {}
    assert forall|k: int| 0 <= k < definition.threads.len() implies (bad_thread(
        (#[trigger] definition.threads[k]).0,
        definition.threads[k].1,
    ) is None <==> has_a_place(
        definition.threads[k].1.ensure,
        definition.threads[k].1.channel,
        definition,
        state,
    )) by {}
    assert forall|k: int| 0 <= k < definition.settings_sets.channel.len() implies (bad_settings(
        (#[trigger] definition.settings_sets.channel[k]).0,
        definition.settings_sets.channel[k].1,
    ) is None <==> attributes_are_supported(definition.settings_sets.channel[k].1, definition, state)) by {
        supported_attributes_are_accepted(
            settings_set_channel(definition.settings_sets.channel[k].0),
            definition.settings_sets.channel[k].1,
            definition,
            state,
        );
    }
}

/// Whether a declared channel can be ordered as a category.
pub open spec fn is_category(channels: ChannelsView, id: Seq<char>) -> bool {
    match lookup(channels, id) {
        Some(ChannelDefinitionView::Reference) => true,
        Some(ChannelDefinitionView::Managed { attributes }) => attributes.kind == Some(ChannelKind::Category),
        _ => false,
    }
}

/// Whether a declared channel can be ordered under a parent, or outside of all where there is none.
pub open spec fn goes_under(channels: ChannelsView, id: Seq<char>, parent: Option<Seq<char>>) -> bool {
    match lookup(channels, id) {
        Some(ChannelDefinitionView::Reference) => true,
        Some(ChannelDefinitionView::Managed { attributes }) => attributes.kind == Some(ChannelKind::Text)
            && attributes.parent == Some(
            match parent {
                Some(parent) => ChannelValue::Value(parent),
                None => ChannelValue::Clear,
            },
        ),
        _ => false,
    }
}

/// Whether a channel is ordered in a group before a place: outside of categories, in an
/// earlier group, or earlier in the same one.
pub open spec fn is_ordered_before(order: OrderView, id: Seq<char>, i: int, j: int) -> bool {
    ||| order.uncategorized.contains(id)
    ||| exists|a: int, b: int|
        0 <= a < order.children.len() && 0 <= b < (#[trigger] order.children[a]).1.len() && (a < i || a == i && b < j)
            && #[trigger] order.children[a].1[b] == id
}

/// Whether an order can be made of what is declared: it names declared roles that stay,
/// declared categories, and channels where their own declaration puts them, each of these once.
pub open spec fn can_be_made(
    order: OrderView,
    roles: Seq<(Seq<char>, RoleDefinitionView)>,
    channels: ChannelsView,
) -> bool {
    &&& forall|k: int|
        0 <= k < order.roles.len() ==> has_key(roles, #[trigger] order.roles[k]) && lookup(roles, order.roles[k])
            != Some(RoleDefinitionView::Absent)
    &&& forall|k: int| 0 <= k < order.categories.len() ==> is_category(channels, #[trigger] order.categories[k])
    &&& forall|k: int|
        0 <= k < order.uncategorized.len() ==> goes_under(channels, #[trigger] order.uncategorized[k], None)
    &&& forall|i: int| 0 <= i < order.children.len() ==> is_category(channels, (#[trigger] order.children[i]).0)
    &&& forall|i: int, j: int|
        0 <= i < order.children.len() && 0 <= j < (#[trigger] order.children[i]).1.len() ==> {
            let child = #[trigger] order.children[i].1[j];
            &&& child != order.children[i].0
            &&& goes_under(channels, child, Some(order.children[i].0))
            &&& !is_ordered_before(order, child, i, j)
        }
}

proof fn ordered_roles_stay(ids: Seq<Seq<char>>, roles: Seq<(Seq<char>, RoleDefinitionView)>, i: int)
    requires
        0 <= i <= ids.len(),
    ensures
        order_roles_fault(ids, roles, i) is None <==> forall|k: int|
            i <= k < ids.len() ==> has_key(roles, #[trigger] ids[k]) && lookup(roles, ids[k]) != Some(
                RoleDefinitionView::Absent,
            ),
    decreases ids.len() - i,
{
    if i < ids.len() {
        ordered_roles_stay(ids, roles, i + 1);
    }
}

proof fn ordered_categories_are(ids: Seq<Seq<char>>, channels: ChannelsView, i: int)
    requires
        0 <= i <= ids.len(),
    ensures
        order_categories_fault(ids, channels, i) is None <==> forall|k: int|
            i <= k < ids.len() ==> is_category(channels, #[trigger] ids[k]),
    decreases ids.len() - i,
{
    if i < ids.len() {
        ordered_categories_are(ids, channels, i + 1);
    }
}

proof fn uncategorized_are_placed(ids: Seq<Seq<char>>, channels: ChannelsView, i: int, placed: PlacedView)
    requires
        0 <= i <= ids.len(),
    ensures
        placed_uncategorized(ids, channels, i, placed) is Ok <==> forall|k: int|
            i <= k < ids.len() ==> goes_under(channels, #[trigger] ids[k], None),
        placed_uncategorized(ids, channels, i, placed) is Ok ==> forall|id: Seq<char>| #[trigger]
            has_key(placed_uncategorized(ids, channels, i, placed)->Ok_0, id) <==> has_key(placed, id) || exists|k: int|
                i <= k < ids.len() && #[trigger] ids[k] == id,
    decreases ids.len() - i,
{
    if i < ids.len() {
        let next = put::<ChannelLogicalId, Option<Seq<char>>>(placed, ids[i], None);
        uncategorized_are_placed(ids, channels, i + 1, next);
        if placed_uncategorized(ids, channels, i, placed) is Ok {
            let all = placed_uncategorized(ids, channels, i, placed)->Ok_0;
            assert forall|id: Seq<char>| #[trigger] has_key(all, id) <==> has_key(placed, id) || exists|k: int|
                i <= k < ids.len() && #[trigger] ids[k] == id by {
                put_then_lookup::<ChannelLogicalId, Option<Seq<char>>>(placed, ids[i], None, id);
                assert(has_key(all, id) <==> has_key(next, id) || exists|k: int|
                    i + 1 <= k < ids.len() && #[trigger] ids[k] == id);
                if exists|k: int| i + 1 <= k < ids.len() && #[trigger] ids[k] == id {
                    let k = choose|k: int| i + 1 <= k < ids.len() && #[trigger] ids[k] == id;
                    assert(ids[k] == id);
                }
                if ids[i] == id {
                    assert(ids[i] == id);
                }
            }
        }
    }
}

proof fn children_are_placed(
    parent: Seq<char>,
    children: Seq<Seq<char>>,
    channels: ChannelsView,
    j: int,
    placed: PlacedView,
)
    requires
        0 <= j <= children.len(),
    ensures
        placed_children(parent, children, channels, j, placed) is Ok <==> forall|k: int|
            j <= k < children.len() ==> {
                let child = #[trigger] children[k];
                &&& child != parent
                &&& goes_under(channels, child, Some(parent))
                &&& !has_key(placed, child)
                &&& forall|m: int| j <= m < k ==> #[trigger] children[m] != child
            },
        placed_children(parent, children, channels, j, placed) is Ok ==> forall|id: Seq<char>| #[trigger]
            has_key(placed_children(parent, children, channels, j, placed)->Ok_0, id) <==> has_key(placed, id)
                || exists|k: int| j <= k < children.len() && #[trigger] children[k] == id,
    decreases children.len() - j,
{
    if j < children.len() {
        let child = children[j];
        let next = put::<ChannelLogicalId, Option<Seq<char>>>(placed, child, Some(parent));
        children_are_placed(parent, children, channels, j + 1, next);
        assert forall|id: Seq<char>| #[trigger] has_key(next, id) <==> has_key(placed, id) || id == child by {
            put_then_lookup::<ChannelLogicalId, Option<Seq<char>>>(placed, child, Some(parent), id);
        }
        let goes_on = child != parent && goes_under(channels, child, Some(parent)) && !has_key(placed, child);
        assert(placed_children(parent, children, channels, j, placed) is Ok ==> goes_on);
        assert(goes_on ==> placed_children(parent, children, channels, j, placed) == placed_children(
            parent,
            children,
            channels,
            j + 1,
            next,
        ));
        let rest = forall|k: int|
            j + 1 <= k < children.len() ==> {
                let child = #[trigger] children[k];
                &&& child != parent
                &&& goes_under(channels, child, Some(parent))
                &&& !has_key(next, child)
                &&& forall|m: int| j + 1 <= m < k ==> #[trigger] children[m] != child
            };
        let all = forall|k: int|
            j <= k < children.len() ==> {
                let child = #[trigger] children[k];
                &&& child != parent
                &&& goes_under(channels, child, Some(parent))
                &&& !has_key(placed, child)
                &&& forall|m: int| j <= m < k ==> #[trigger] children[m] != child
            };
        if all {
            assert(goes_on) by {
                assert(children[j] == child);
            }
            assert forall|k: int| j + 1 <= k < children.len() implies {
                let child = #[trigger] children[k];
                &&& child != parent
                &&& goes_under(channels, child, Some(parent))
                &&& !has_key(next, child)
                &&& forall|m: int| j + 1 <= m < k ==> #[trigger] children[m] != child
            } by {
                assert(children[j] != children[k]);
            }
        }
        if goes_on && rest {
            assert forall|k: int| j <= k < children.len() implies {
                let child = #[trigger] children[k];
                &&& child != parent
                &&& goes_under(channels, child, Some(parent))
                &&& !has_key(placed, child)
                &&& forall|m: int| j <= m < k ==> #[trigger] children[m] != child
            } by {
                if k > j {
                    assert(!has_key(next, children[k]));
                }
            }
        }
        if placed_children(parent, children, channels, j, placed) is Ok {
            let done = placed_children(parent, children, channels, j, placed)->Ok_0;
            assert forall|id: Seq<char>| #[trigger] has_key(done, id) <==> has_key(placed, id) || exists|k: int|
                j <= k < children.len() && #[trigger] children[k] == id by {
                assert(has_key(done, id) <==> has_key(next, id) || exists|k: int|
                    j + 1 <= k < children.len() && #[trigger] children[k] == id);
                if exists|k: int| j + 1 <= k < children.len() && #[trigger] children[k] == id {
                    let k = choose|k: int| j + 1 <= k < children.len() && #[trigger] children[k] == id;
                    assert(children[k] == id);
                }
                if id == child {
                    assert(children[j] == id);
                }
                assert(has_key(next, id) <==> has_key(placed, id) || id == child);
            }
        }
    }
}

/// Whether a channel stands in a group from one on, before a place in another.
spec fn stands_before(groups: Seq<(Seq<char>, Seq<Seq<char>>)>, id: Seq<char>, from: int, i: int, j: int) -> bool {
    exists|a: int, b: int|
        from <= a < groups.len() && 0 <= b < groups[a].1.len() && (a < i || a == i && b < j)
            && #[trigger] groups[a].1[b] == id
}

spec fn child_fits(
    groups: Seq<(Seq<char>, Seq<Seq<char>>)>,
    channels: ChannelsView,
    placed: PlacedView,
    from: int,
    i: int,
    j: int,
) -> bool {
    let child = groups[i].1[j];
    &&& child != groups[i].0
    &&& goes_under(channels, child, Some(groups[i].0))
    &&& !has_key(placed, child)
    &&& !stands_before(groups, child, from, i, j)
}

spec fn children_fit(
    groups: Seq<(Seq<char>, Seq<Seq<char>>)>,
    channels: ChannelsView,
    i: int,
    placed: PlacedView,
) -> bool {
    &&& forall|a: int| i <= a < groups.len() ==> is_category(channels, (#[trigger] groups[a]).0)
    &&& forall|a: int, b: int|
        i <= a < groups.len() && 0 <= b < groups[a].1.len() ==> #[trigger] child_fits(groups, channels, placed, i, a, b)
}

proof fn one_group_fits(
    groups: Seq<(Seq<char>, Seq<Seq<char>>)>,
    channels: ChannelsView,
    i: int,
    placed: PlacedView,
)
    requires
        0 <= i < groups.len(),
    ensures
        placed_children(groups[i].0, groups[i].1, channels, 0, placed) is Ok <==> forall|b: int|
            0 <= b < groups[i].1.len() ==> #[trigger] child_fits(groups, channels, placed, i, i, b),
{
    let children = groups[i].1;
    children_are_placed(groups[i].0, children, channels, 0, placed);
    assert forall|b: int| 0 <= b < children.len() implies (#[trigger] stands_before(groups, children[b], i, i, b) <==> !(
    forall|m: int| 0 <= m < b ==> #[trigger] children[m] != children[b])) by {
        if exists|m: int| 0 <= m < b && #[trigger] children[m] == children[b] {
            let m = choose|m: int| 0 <= m < b && #[trigger] children[m] == children[b];
            assert(groups[i].1[m] == children[b]);
        }
        if stands_before(groups, children[b], i, i, b) {
            let (x, m) = choose|x: int, m: int|
                i <= x < groups.len() && 0 <= m < groups[x].1.len() && (x < i || x == i && m < b)
                    && #[trigger] groups[x].1[m] == children[b];
            assert(children[m] == children[b]);
        }
    }
    if placed_children(groups[i].0, children, channels, 0, placed) is Ok {
        assert forall|b: int| 0 <= b < children.len() implies #[trigger] child_fits(
            groups,
            channels,
            placed,
            i,
            i,
            b,
        ) by {
            assert(children[b] != groups[i].0);
            assert(!stands_before(groups, children[b], i, i, b));
        }
    }
    if forall|b: int| 0 <= b < children.len() ==> #[trigger] child_fits(groups, channels, placed, i, i, b) {
        assert forall|k: int| 0 <= k < children.len() implies {
            let child = #[trigger] children[k];
            &&& child != groups[i].0
            &&& goes_under(channels, child, Some(groups[i].0))
            &&& !has_key(placed, child)
            &&& forall|m: int| 0 <= m < k ==> #[trigger] children[m] != child
        } by {
            assert(child_fits(groups, channels, placed, i, i, k));
            assert(!stands_before(groups, children[k], i, i, k));
        }
    }
}

proof fn groups_are_placed(
    groups: Seq<(Seq<char>, Seq<Seq<char>>)>,
    channels: ChannelsView,
    i: int,
    placed: PlacedView,
)
    requires
        0 <= i <= groups.len(),
    ensures
        order_children_fault(groups, channels, i, placed) is None <==> children_fit(groups, channels, i, placed),
    decreases groups.len() - i,
{
    if i < groups.len() {
        one_group_fits(groups, channels, i, placed);
        children_are_placed(groups[i].0, groups[i].1, channels, 0, placed);
        let result = placed_children(groups[i].0, groups[i].1, channels, 0, placed);
        if children_fit(groups, channels, i, placed) {
            assert(is_category(channels, groups[i].0));
            assert forall|b: int| 0 <= b < groups[i].1.len() implies #[trigger] child_fits(
                groups,
                channels,
                placed,
                i,
                i,
                b,
            ) by {}
            assert(result is Ok);
        }
        if result is Ok {
            let next = result->Ok_0;
            groups_are_placed(groups, channels, i + 1, next);
            assert forall|a: int, b: int| i + 1 <= a < groups.len() && 0 <= b < groups[a].1.len() implies (
            #[trigger] child_fits(groups, channels, next, i + 1, a, b) <==> child_fits(
                groups,
                channels,
                placed,
                i,
                a,
                b,
            )) by {
                let child = groups[a].1[b];
                assert(has_key(next, child) <==> has_key(placed, child) || exists|k: int|
                    0 <= k < groups[i].1.len() && #[trigger] groups[i].1[k] == child);
                if stands_before(groups, child, i + 1, a, b) {
                    let (x, m) = choose|x: int, m: int|
                        i + 1 <= x < groups.len() && 0 <= m < groups[x].1.len() && (x < a || x == a && m < b)
                            && #[trigger] groups[x].1[m] == child;
                    assert(groups[x].1[m] == child);
                    assert(stands_before(groups, child, i, a, b));
                }
                if exists|k: int| 0 <= k < groups[i].1.len() && #[trigger] groups[i].1[k] == child {
                    let k = choose|k: int| 0 <= k < groups[i].1.len() && #[trigger] groups[i].1[k] == child;
                    assert(groups[i].1[k] == child);
                    assert(stands_before(groups, child, i, a, b));
                }
                if stands_before(groups, child, i, a, b) && !has_key(next, child) {
                    let (x, m) = choose|x: int, m: int|
                        i <= x < groups.len() && 0 <= m < groups[x].1.len() && (x < a || x == a && m < b)
                            && #[trigger] groups[x].1[m] == child;
                    assert(groups[x].1[m] == child);
                    assert(x != i);
                    assert(stands_before(groups, child, i + 1, a, b));
                }
            }
            if children_fit(groups, channels, i, placed) {
                assert forall|a: int, b: int| i + 1 <= a < groups.len() && 0 <= b < groups[a].1.len() implies #[trigger]
                child_fits(groups, channels, next, i + 1, a, b) by {
                    assert(child_fits(groups, channels, placed, i, a, b));
                }
                assert(children_fit(groups, channels, i + 1, next));
            }
            if order_children_fault(groups, channels, i, placed) is None {
                assert(children_fit(groups, channels, i + 1, next));
                assert forall|a: int, b: int| i <= a < groups.len() && 0 <= b < groups[a].1.len() implies #[trigger]
                child_fits(groups, channels, placed, i, a, b) by {
                    if a > i {
                        assert(child_fits(groups, channels, next, i + 1, a, b));
                    }
                }
                assert(is_category(channels, groups[i].0));
                assert(children_fit(groups, channels, i, placed));
            }
        }
    }
}

/// An order is accepted exactly where it can be made: it names declared roles that stay,
/// declared categories, and channels where their own declaration puts them, and no channel
/// stands in a category that is ordered elsewhere too.
pub proof fn orders_are_accepted_where_they_can_be_made(
    order: OrderView,
    roles: Seq<(Seq<char>, RoleDefinitionView)>,
    channels: ChannelsView,
)
    ensures
        order_fault(None, roles, channels) is None,
        order_fault(Some(order), roles, channels) is None <==> can_be_made(order, roles, channels),
{
    let none = Seq::<(Seq<char>, Option<Seq<char>>)>::empty();
    ordered_roles_stay(order.roles, roles, 0);
    ordered_categories_are(order.categories, channels, 0);
    uncategorized_are_placed(order.uncategorized, channels, 0, none);
    if placed_uncategorized(order.uncategorized, channels, 0, none) is Ok {
        let placed = placed_uncategorized(order.uncategorized, channels, 0, none)->Ok_0;
        groups_are_placed(order.children, channels, 0, placed);
        assert forall|id: Seq<char>| #[trigger] has_key(placed, id) <==> order.uncategorized.contains(id) by {
            assert(!has_key(none, id));
        }
        assert forall|id: Seq<char>, i: int, j: int| #[trigger]
            is_ordered_before(order, id, i, j) <==> has_key(placed, id) || stands_before(order.children, id, 0, i, j) by {
            if stands_before(order.children, id, 0, i, j) {
                let (a, b) = choose|a: int, b: int|
                    0 <= a < order.children.len() && 0 <= b < order.children[a].1.len() && (a < i || a == i && b < j)
                        && #[trigger] order.children[a].1[b] == id;
                assert(order.children[a].1[b] == id);
            }
        }
        if can_be_made(order, roles, channels) {
            assert forall|a: int, b: int|
                0 <= a < order.children.len() && 0 <= b < order.children[a].1.len() implies #[trigger] child_fits(
                order.children,
                channels,
                placed,
                0,
                a,
                b,
            ) by {
                assert(!is_ordered_before(order, order.children[a].1[b], a, b));
            }
            assert(children_fit(order.children, channels, 0, placed));
        }
        if children_fit(order.children, channels, 0, placed) {
            assert forall|i: int, j: int|
                0 <= i < order.children.len() && 0 <= j < (#[trigger] order.children[i]).1.len() implies {
                let child = #[trigger] order.children[i].1[j];
                &&& child != order.children[i].0
                &&& goes_under(channels, child, Some(order.children[i].0))
                &&& !is_ordered_before(order, child, i, j)
            } by {
                assert(child_fits(order.children, channels, placed, 0, i, j));
            }
        }
    }
}

} // verus!
