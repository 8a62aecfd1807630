//! The order of channels.

use vstd::prelude::*;

use crate::configuration::channel::{ChannelDefinition, ChannelDefinitionView, ChannelKind, ChannelValue};
use crate::configuration::definition::{DefinitionFile, DefinitionView, RawOrderDefinition};
use crate::configuration::order::accepted;
use crate::configuration::state::{StateFile, StateView};
use crate::domain::{ErrorView, ManagementError};
use crate::ids::{shown_channel_id, ChannelId, ChannelLogicalId};
use crate::ordered::{lookup, OrderedMap};
use crate::port::{
    ChannelCatalog, ChannelCatalogView, ChannelPositionUpdate, ChannelPositionUpdateView, ChannelSnapshot,
    ChannelSnapshotView,
};
use crate::resource::channel::create::{has_channel, is_listed};
use crate::resource::sorting::{
    has_id, ids_in_places, relative_order, sort_by_place, sorting_holds_the_same, stable_relative_order,
};
use crate::text::{decimal, text3, text5, text7};
use crate::value::{seen, Plain};

verus! {

/// Channels that are ordered among themselves: those without a parent, or those
/// under one.
#[derive(Clone, Copy, Debug, PartialEq, Eq, Structural)]
pub enum Siblings {
    Top,
    Under(u64),
}

impl Siblings {
    /// Whether a channel is one of them.
    pub open spec fn holds(self, channel: ChannelSnapshotView) -> bool {
        match self {
            Siblings::Top => channel.parent_id is None,
            Siblings::Under(parent) => channel.parent_id == Some(parent),
        }
    }

    /// Whether a channel is one of them.
    pub fn has(self, channel: &ChannelSnapshot) -> (answer: bool)
        ensures
            answer == self.holds(channel.deep_view()),
    {
        match (self, channel.parent_id) {
            (Siblings::Top, None) => true,
            (Siblings::Under(parent), Some(id)) => id.get() == parent,
            _ => false,
        }
    }
}

/// Those of the channels that are ordered among themselves.
pub open spec fn siblings_in(channels: Seq<ChannelSnapshotView>, group: Siblings) -> Seq<ChannelSnapshotView>
    decreases channels.len(),
{
    if channels.len() == 0 {
        channels
    } else if group.holds(channels.last()) {
        siblings_in(channels.drop_last(), group).push(channels.last())
    } else {
        siblings_in(channels.drop_last(), group)
    }
}

/// The places of channels.
pub open spec fn channel_places(channels: Seq<ChannelSnapshotView>) -> Seq<(i64, u64)> {
    channels.map_values(|channel: ChannelSnapshotView| (channel.position as i64, channel.id))
}

/// The identifiers of channels from the first to the last.
pub open spec fn channel_order(channels: Seq<ChannelSnapshotView>) -> Seq<u64> {
    ids_in_places(channel_places(channels))
}

/// The channel with an identifier: the last one that is listed.
pub open spec fn channel_with_id(channels: Seq<ChannelSnapshotView>, id: u64) -> Option<ChannelSnapshotView>
    decreases channels.len(),
{
    if channels.len() == 0 {
        None
    } else if channels.last().id == id {
        Some(channels.last())
    } else {
        channel_with_id(channels.drop_last(), id)
    }
}

/// The channel with an identifier: the first one that is listed.
pub open spec fn first_channel_with_id(channels: Seq<ChannelSnapshotView>, id: u64) -> Option<ChannelSnapshotView>
    decreases channels.len(),
{
    if channels.len() == 0 {
        None
    } else if channels[0].id == id {
        Some(channels[0])
    } else {
        first_channel_with_id(channels.drop_first(), id)
    }
}

/// The channel with an identifier: the first one that is listed.
pub fn find_first_channel<'a>(channels: &'a Vec<ChannelSnapshot>, id: u64) -> (found: Option<&'a ChannelSnapshot>)
    ensures
        found.deep_view() == first_channel_with_id(channels.deep_view(), id),
{
    let ghost all = channels.deep_view();
    let mut i: usize = 0;
    assert(all.skip(0) =~= all);
    while i < channels.len()
        invariant
            i <= channels@.len(),
            all == channels.deep_view(),
            first_channel_with_id(all, id) == first_channel_with_id(all.skip(i as int), id),
        decreases channels@.len() - i,
    {
        proof {
            assert(all.skip(i as int)[0] == channels@[i as int].deep_view());
            assert(all.skip(i as int).drop_first() =~= all.skip(i + 1));
        }
        if channels[i].id.get() == id {
            return Some(&channels[i]);
        }
        i += 1;
    }
    None
}

fn find_channel<'a>(channels: &'a Vec<ChannelSnapshot>, id: u64) -> (found: Option<&'a ChannelSnapshot>)
    ensures
        found.deep_view() == channel_with_id(channels.deep_view(), id),
{
    let ghost all = channels.deep_view();
    let mut n: usize = channels.len();
    assert(all.take(n as int) =~= all);
    while n > 0
        invariant
            n <= channels@.len(),
            all == channels.deep_view(),
            channel_with_id(all, id) == channel_with_id(all.take(n as int), id),
        decreases n,
    {
        proof {
            assert(all.take(n as int).last() == channels@[n - 1].deep_view());
            assert(all.take(n as int).drop_last() =~= all.take(n - 1));
        }
        if channels[n - 1].id.get() == id {
            return Some(&channels[n - 1]);
        }
        n -= 1;
    }
    None
}

fn take_siblings(channels: &Vec<ChannelSnapshot>, group: Siblings) -> (siblings: Vec<ChannelSnapshot>)
    ensures
        siblings.deep_view() == siblings_in(channels.deep_view(), group),
{
    let ghost all = channels.deep_view();
    let mut siblings: Vec<ChannelSnapshot> = Vec::new();
    let mut i: usize = 0;
    assert(all.take(0) =~= Seq::empty());
    assert(siblings.deep_view() =~= siblings_in(all.take(0), group));
    while i < channels.len()
        invariant
            i <= channels@.len(),
            all == channels.deep_view(),
            siblings.deep_view() == siblings_in(all.take(i as int), group),
        decreases channels@.len() - i,
    {
        let ghost before = siblings.deep_view();
        proof {
            assert(all.take(i + 1).last() == channels@[i as int].deep_view());
            assert(all.take(i + 1).drop_last() =~= all.take(i as int));
        }
        if group.has(&channels[i]) {
            siblings.push(channels[i].copy());
            assert(siblings.deep_view() =~= before.push(all[i as int]));
        }
        i += 1;
    }
    assert(all.take(i as int) =~= all);
    siblings
}

fn order_channels(channels: &Vec<ChannelSnapshot>) -> (ids: Vec<ChannelId>)
    ensures
        ids.deep_view() == channel_order(channels.deep_view()),
{
    let ghost all = channels.deep_view();
    let mut places: Vec<(i64, u64)> = Vec::new();
    let mut i: usize = 0;
    while i < channels.len()
        invariant
            i <= channels@.len(),
            all == channels.deep_view(),
            places@ == channel_places(all).take(i as int),
            forall|k: int| 0 <= k < i ==> (#[trigger] places@[k]).1 != u64::MAX,
        decreases channels@.len() - i,
    {
        places.push((channels[i].position as i64, channels[i].id.get()));
        proof {
            assert(all[i as int] == channels@[i as int].deep_view());
            assert(channel_places(all).take(i + 1) =~= channel_places(all).take(i as int).push(
                channel_places(all)[i as int],
            ));
        }
        i += 1;
    }
    assert(channel_places(all).take(i as int) =~= channel_places(all));
    let sorted: Vec<(i64, u64)> = sort_by_place(&places);
    let mut ids: Vec<ChannelId> = Vec::new();
    let mut k: usize = 0;
    proof {
        sorting_holds_the_same(places@);
    }
    while k < sorted.len()
        invariant
            k <= sorted@.len(),
            sorted@.to_multiset() == places@.to_multiset(),
            forall|j: int| 0 <= j < places@.len() ==> (#[trigger] places@[j]).1 != u64::MAX,
            ids@.len() == k,
            forall|j: int| 0 <= j < k ==> (#[trigger] ids@[j]).deep_view() == sorted@[j].1,
        decreases sorted@.len() - k,
    {
        proof {
            broadcast use vstd::seq_lib::group_to_multiset_ensures;

            assert(sorted@.contains(sorted@[k as int]));
            assert(sorted@.to_multiset().count(sorted@[k as int]) > 0);
            assert(places@.contains(sorted@[k as int]));
            let j = places@.index_of(sorted@[k as int]);
            assert(places@[j].1 != u64::MAX);
        }
        ids.push(ChannelId::new(sorted[k].1));
        k += 1;
    }
    assert(ids.deep_view() =~= channel_order(all));
    ids
}

/// A new order of channels among themselves.
pub struct OrderGroupPlan {
    pub requested: Vec<ChannelLogicalId>,
    pub updates: Vec<ChannelPositionUpdate>,
    pub expected_order: Vec<ChannelId>,
}

/// What a new order of channels among themselves holds.
pub struct OrderGroupPlanView {
    pub requested: Seq<Seq<char>>,
    pub updates: Seq<ChannelPositionUpdateView>,
    pub expected_order: Seq<u64>,
}

impl DeepView for OrderGroupPlan {
    type V = OrderGroupPlanView;

    open spec fn deep_view(&self) -> OrderGroupPlanView {
        OrderGroupPlanView {
            requested: self.requested.deep_view(),
            updates: self.updates.deep_view(),
            expected_order: self.expected_order.deep_view(),
        }
    }
}

impl Plain for OrderGroupPlan {
    fn copy(&self) -> (copied: Self) {
        OrderGroupPlan {
            requested: self.requested.copy(),
            updates: self.updates.copy(),
            expected_order: self.expected_order.copy(),
        }
    }

    fn same(&self, other: &Self) -> (equal: bool) {
        self.requested.same(&other.requested) && self.updates.same(&other.updates) && self.expected_order.same(
            &other.expected_order,
        )
    }
}

/// New orders of channels.
pub struct OrderPlan {
    pub groups: Vec<OrderGroupPlan>,
}

impl DeepView for OrderPlan {
    type V = Seq<OrderGroupPlanView>;

    open spec fn deep_view(&self) -> Seq<OrderGroupPlanView> {
        self.groups.deep_view()
    }
}

impl Plain for OrderPlan {
    fn copy(&self) -> (copied: Self) {
        OrderPlan { groups: self.groups.copy() }
    }

    fn same(&self, other: &Self) -> (equal: bool) {
        self.groups.same(&other.groups)
    }
}

/// A new order whose places are not known before channels are created.
pub open spec fn deferred_group(requested: Seq<Seq<char>>) -> OrderGroupPlanView {
    OrderGroupPlanView { requested, updates: Seq::empty(), expected_order: Seq::empty() }
}

fn defer_group(requested: &Vec<ChannelLogicalId>) -> (group: OrderGroupPlan)
    ensures
        group.deep_view() == deferred_group(requested.deep_view()),
{
    let updates: Vec<ChannelPositionUpdate> = Vec::new();
    let expected_order: Vec<ChannelId> = Vec::new();
    assert(updates.deep_view() =~= Seq::empty());
    assert(expected_order.deep_view() =~= Seq::empty());
    OrderGroupPlan { requested: requested.copy(), updates, expected_order }
}

/// Channels with the parent of one changed: the first that has the identifier.
pub open spec fn with_parent(
    channels: Seq<ChannelSnapshotView>,
    id: u64,
    parent_id: Option<u64>,
) -> Seq<ChannelSnapshotView>
    decreases channels.len(),
{
    if channels.len() == 0 {
        channels
    } else if channels[0].id == id {
        seq![ChannelSnapshotView { parent_id, ..channels[0] }] + channels.drop_first()
    } else {
        seq![channels[0]] + with_parent(channels.drop_first(), id, parent_id)
    }
}

/// Channels with the parents that a definition wants, from a place on, as far
/// as both are bound.
pub open spec fn with_wanted_parents(
    channels: Seq<ChannelSnapshotView>,
    declared: Seq<(Seq<char>, ChannelDefinitionView)>,
    i: int,
    state: StateView,
) -> Seq<ChannelSnapshotView>
    decreases declared.len() - i,
{
    if i < 0 || i >= declared.len() {
        channels
    } else {
        with_wanted_parents(
            match lookup(state.channels, declared[i].0) {
                None => channels,
                Some(id) => match declared[i].1.attributes().parent {
                    Some(ChannelValue::Clear) => with_parent(channels, id, None),
                    Some(ChannelValue::Value(parent)) => match lookup(state.channels, parent) {
                        Some(parent_id) => with_parent(channels, id, Some(parent_id)),
                        None => channels,
                    },
                    _ => channels,
                },
            },
            declared,
            i + 1,
            state,
        )
    }
}

proof fn with_parent_past(channels: Seq<ChannelSnapshotView>, id: u64, parent_id: Option<u64>, n: int)
    requires
        0 <= n <= channels.len(),
        forall|k: int| 0 <= k < n ==> (#[trigger] channels[k]).id != id,
        n < channels.len() ==> channels[n].id == id,
    ensures
        with_parent(channels, id, parent_id) == if n < channels.len() {
            channels.update(n, ChannelSnapshotView { parent_id, ..channels[n] })
        } else {
            channels
        },
    decreases n,
{
    if n == 0 {
        if channels.len() > 0 {
            assert(seq![ChannelSnapshotView { parent_id, ..channels[0] }] + channels.drop_first()
                =~= channels.update(0, ChannelSnapshotView { parent_id, ..channels[0] }));
        }
    } else {
        let rest = channels.drop_first();
        assert(channels[0].id != id);
        assert forall|k: int| 0 <= k < n - 1 implies (#[trigger] rest[k]).id != id by {
            assert(rest[k] == channels[k + 1]);
        }
        with_parent_past(rest, id, parent_id, n - 1);
        if n < channels.len() {
            assert(seq![channels[0]] + rest.update(n - 1, ChannelSnapshotView { parent_id, ..channels[n] })
                =~= channels.update(n, ChannelSnapshotView { parent_id, ..channels[n] }));
        } else {
            assert(seq![channels[0]] + rest =~= channels);
        }
    }
}

fn set_parent(channels: &mut Vec<ChannelSnapshot>, id: u64, parent_id: Option<ChannelId>)
    ensures
        final(channels).deep_view() == with_parent(old(channels).deep_view(), id, parent_id.deep_view()),
{
    let ghost before = channels.deep_view();
    let mut i: usize = 0;
    while i < channels.len() && channels[i].id.get() != id
        invariant
            i <= channels@.len(),
            before == channels.deep_view(),
            forall|k: int| 0 <= k < i ==> (#[trigger] before[k]).id != id,
        decreases channels@.len() - i,
    {
        i += 1;
    }
    proof {
        with_parent_past(before, id, parent_id.deep_view(), i as int);
    }
    if i < channels.len() {
        let mut channel: ChannelSnapshot = channels[i].copy();
        channel.parent_id = parent_id;
        channels.set(i, channel);
        assert(channels.deep_view() =~= before.update(
            i as int,
            ChannelSnapshotView { parent_id: parent_id.deep_view(), ..before[i as int] },
        ));
    }
}

/// The channels of a guild with the parents that a definition wants.
pub fn project_channel_parents_for_order(
    definition: &DefinitionFile,
    state: &StateFile,
    catalog: &ChannelCatalog,
) -> (projected: Vec<ChannelSnapshot>)
    ensures
        projected.deep_view() == with_wanted_parents(
            catalog.deep_view().channels,
            definition.deep_view().channels,
            0,
            state.deep_view(),
        ),
{
    let ghost start = catalog.deep_view().channels;
    let ghost declared = definition.deep_view().channels;
    let ghost st = state.deep_view();
    let mut projected: Vec<ChannelSnapshot> = catalog.channels.copy();
    let mut i: usize = 0;
    while i < definition.channels.len()
        invariant
            i <= declared.len(),
            declared == definition.deep_view().channels,
            st == state.deep_view(),
            with_wanted_parents(start, declared, 0, st) == with_wanted_parents(
                projected.deep_view(),
                declared,
                i as int,
                st,
            ),
        decreases declared.len() - i,
    {
        match state.channels.get(definition.channels.key_at(i)) {
            None => {},
            Some(id) => match definition.channels.value_at(i) {
                ChannelDefinition::Managed { attributes } => match &attributes.parent {
                    Some(ChannelValue::Clear) => set_parent(&mut projected, id.get(), None),
                    Some(ChannelValue::Value(parent)) => match state.channels.get(parent) {
                        Some(parent_id) => set_parent(&mut projected, id.get(), Some(*parent_id)),
                        None => {},
                    },
                    _ => {},
                },
                _ => {},
            },
        }
        i += 1;
    }
    projected
}

/// The parent that a channel has, as it is shown.
pub open spec fn parent_chars(parent: Option<u64>) -> Seq<char> {
    match parent {
        Some(id) => "Some("@ + shown_channel_id(id) + ")"@,
        None => "None"@,
    }
}

/// What is wrong with a child that is ordered under a category that is still to be created.
pub open spec fn deferred_child_fault(
    parent: Seq<char>,
    id: Seq<char>,
    definition: DefinitionView,
    state: StateView,
    channels: Seq<ChannelSnapshotView>,
) -> Option<ErrorView> {
    let declared = lookup(definition.channels, id);
    let is_reference = declared is Some && declared->0 is Reference;
    match lookup(state.channels, id) {
        None => if is_reference {
            Some(
                ErrorView::InvalidState(
                    "order.children の参照専用 Channel "@ + id + " の対応がありません"@,
                ),
            )
        } else {
            None
        },
        Some(discord_id) => match first_channel_with_id(channels, discord_id) {
            None => Some(
                ErrorView::InvalidState(
                    "order.children の Channel "@ + id + " の Snowflake "@ + decimal(discord_id as nat)
                        + " が Guild から予期せず消失しています"@,
                ),
            ),
            Some(channel) => if channel.kind != ChannelKind::Text {
                Some(
                    ErrorView::InvalidDefinition(
                        "order.children の Channel "@ + id + " は Text の兄弟として指定できません"@,
                    ),
                )
            } else if is_reference {
                Some(
                    ErrorView::InvalidDefinition(
                        "order.children の未作成 Category "@ + parent + " には、現在の親が "@
                            + parent_chars(channel.parent_id) + " の参照専用 Channel "@ + id
                            + " を配置できません"@,
                    ),
                )
            } else if !channel.manageable {
                Some(
                    ErrorView::InvalidState(
                        "order.children の Channel "@ + id + " の Snowflake "@ + decimal(discord_id as nat)
                            + " は Bot が管理できません"@,
                    ),
                )
            } else {
                None
            },
        },
    }
}

/// What is wrong with the children, from a place on, that are ordered under a
/// category that is still to be created.
pub open spec fn deferred_children_fault(
    parent: Seq<char>,
    ids: Seq<Seq<char>>,
    i: int,
    definition: DefinitionView,
    state: StateView,
    channels: Seq<ChannelSnapshotView>,
) -> Option<ErrorView>
    decreases ids.len() - i,
{
    if i < 0 || i >= ids.len() {
        None
    } else {
        match deferred_child_fault(parent, ids[i], definition, state, channels) {
            Some(error) => Some(error),
            None => deferred_children_fault(parent, ids, i + 1, definition, state, channels),
        }
    }
}

fn validate_deferred_child(
    parent: &ChannelLogicalId,
    logical_id: &ChannelLogicalId,
    definition: &DefinitionFile,
    state: &StateFile,
    channels: &Vec<ChannelSnapshot>,
) -> (result: Result<(), ManagementError>)
    ensures
        seen(result) == accepted(
            deferred_child_fault(
                parent.deep_view(),
                logical_id.deep_view(),
                definition.deep_view(),
                state.deep_view(),
                channels.deep_view(),
            ),
        ),
{
    let id: &str = logical_id.as_str();
    let is_reference: bool = match definition.channels.get(logical_id) {
        Some(declared) => declared.is_reference(),
        None => false,
    };
    let discord_id: ChannelId = match state.channels.get(logical_id) {
        None => {
            if is_reference {
                return Err(
                    ManagementError::InvalidState(
                        text3("order.children の参照専用 Channel ", id, " の対応がありません"),
                    ),
                );
            }
            return Ok(());
        },
        Some(discord_id) => *discord_id,
    };
    let channel: &ChannelSnapshot = match find_first_channel(channels, discord_id.get()) {
        None => {
            return Err(
                ManagementError::InvalidState(
                    text5(
                        "order.children の Channel ",
                        id,
                        " の Snowflake ",
                        discord_id.to_text().as_str(),
                        " が Guild から予期せず消失しています",
                    ),
                ),
            );
        },
        Some(channel) => channel,
    };
    if channel.kind != ChannelKind::Text {
        return Err(
            ManagementError::InvalidDefinition(
                text3("order.children の Channel ", id, " は Text の兄弟として指定できません"),
            ),
        );
    }
    if is_reference {
        let present: String = match channel.parent_id {
            Some(parent_id) => text3("Some(", parent_id.to_shown_text().as_str(), ")"),
            None => "None".to_owned(),
        };
        return Err(
            ManagementError::InvalidDefinition(
                text7(
                    "order.children の未作成 Category ",
                    parent.as_str(),
                    " には、現在の親が ",
                    present.as_str(),
                    " の参照専用 Channel ",
                    id,
                    " を配置できません",
                ),
            ),
        );
    }
    if !channel.manageable {
        return Err(
            ManagementError::InvalidState(
                text5(
                    "order.children の Channel ",
                    id,
                    " の Snowflake ",
                    discord_id.to_text().as_str(),
                    " は Bot が管理できません",
                ),
            ),
        );
    }
    Ok(())
}

/// Checks the children that are ordered under a category that is still to be created.
pub fn validate_deferred_child_order(
    parent: &ChannelLogicalId,
    requested: &Vec<ChannelLogicalId>,
    definition: &DefinitionFile,
    state: &StateFile,
    channels: &Vec<ChannelSnapshot>,
) -> (result: Result<(), ManagementError>)
    ensures
        seen(result) == accepted(
            deferred_children_fault(
                parent.deep_view(),
                requested.deep_view(),
                0,
                definition.deep_view(),
                state.deep_view(),
                channels.deep_view(),
            ),
        ),
{
    let mut i: usize = 0;
    while i < requested.len()
        invariant
            i <= requested@.len(),
            deferred_children_fault(
                parent.deep_view(),
                requested.deep_view(),
                0,
                definition.deep_view(),
                state.deep_view(),
                channels.deep_view(),
            ) == deferred_children_fault(
                parent.deep_view(),
                requested.deep_view(),
                i as int,
                definition.deep_view(),
                state.deep_view(),
                channels.deep_view(),
            ),
        decreases requested@.len() - i,
    {
        validate_deferred_child(parent, &requested[i], definition, state, channels)?;
        i += 1;
    }
    Ok(())
}

/// The category under which channels are ordered, none where it is still to be
/// created, or why it is not known.
pub open spec fn order_parent(
    id: Seq<char>,
    definition: DefinitionView,
    state: StateView,
    channels: Seq<ChannelSnapshotView>,
) -> Result<Option<u64>, ErrorView> {
    let declared = lookup(definition.channels, id);
    match lookup(state.channels, id) {
        None => if declared is Some && declared->0 is Reference {
            Err(
                ErrorView::InvalidState(
                    "order.children の参照専用親 Channel "@ + id + " の対応がありません"@,
                ),
            )
        } else {
            Ok(None)
        },
        Some(discord_id) => match first_channel_with_id(channels, discord_id) {
            None => Err(
                ErrorView::InvalidState(
                    "order の親 Channel "@ + id + " の Snowflake "@ + decimal(discord_id as nat)
                        + " が Guild から予期せず消失しています"@,
                ),
            ),
            Some(channel) => if channel.kind != ChannelKind::Category {
                Err(
                    ErrorView::InvalidDefinition(
                        "order.children の親 Channel "@ + id + " は Category ではありません"@,
                    ),
                )
            } else {
                Ok(Some(discord_id))
            },
        },
    }
}

/// The category under which channels are ordered.
pub fn resolve_channel_order_id(
    logical_id: &ChannelLogicalId,
    definition: &DefinitionFile,
    state: &StateFile,
    channels: &Vec<ChannelSnapshot>,
) -> (result: Result<Option<ChannelId>, ManagementError>)
    ensures
        seen(result) == order_parent(
            logical_id.deep_view(),
            definition.deep_view(),
            state.deep_view(),
            channels.deep_view(),
        ),
{
    let id: &str = logical_id.as_str();
    let is_reference: bool = match definition.channels.get(logical_id) {
        Some(declared) => declared.is_reference(),
        None => false,
    };
    let discord_id: ChannelId = match state.channels.get(logical_id) {
        None => {
            if is_reference {
                return Err(
                    ManagementError::InvalidState(
                        text3("order.children の参照専用親 Channel ", id, " の対応がありません"),
                    ),
                );
            }
            return Ok(None);
        },
        Some(discord_id) => *discord_id,
    };
    match find_first_channel(channels, discord_id.get()) {
        None => Err(
            ManagementError::InvalidState(
                text5(
                    "order の親 Channel ",
                    id,
                    " の Snowflake ",
                    discord_id.to_text().as_str(),
                    " が Guild から予期せず消失しています",
                ),
            ),
        ),
        Some(channel) => if channel.kind != ChannelKind::Category {
            Err(
                ManagementError::InvalidDefinition(
                    text3("order.children の親 Channel ", id, " は Category ではありません"),
                ),
            )
        } else {
            Ok(Some(discord_id))
        },
    }
}

/// Stand-ins for channels that are still to be created.
pub open spec fn is_free(id: u64, channels: Seq<ChannelSnapshotView>, taken: Seq<u64>) -> bool {
    !is_listed(channels, id) && !taken.contains(id)
}

/// The first free identifier from `next` down, and the one to go on with.
pub open spec fn stand_in(
    next: u64,
    channels: Seq<ChannelSnapshotView>,
    taken: Seq<u64>,
) -> Result<(u64, u64), ErrorView>
    decreases next,
{
    if next == 0 {
        Err(ErrorView::InvalidDefinition("order の未作成 Channel を投影する ID を確保できません"@))
    } else if is_free(next, channels, taken) {
        Ok((next, (next - 1) as u64))
    } else {
        stand_in((next - 1) as u64, channels, taken)
    }
}

fn find_stand_in(next: u64, channels: &Vec<ChannelSnapshot>, taken: &Vec<ChannelId>) -> (result: Result<
    (u64, u64),
    ManagementError,
>)
    ensures
        seen(result) == stand_in(next, channels.deep_view(), taken.deep_view()),
{
    let mut candidate: u64 = next;
    while candidate > 0
        invariant
            candidate <= next,
            stand_in(next, channels.deep_view(), taken.deep_view()) == stand_in(
                candidate,
                channels.deep_view(),
                taken.deep_view(),
            ),
        decreases candidate,
    {
        if !has_channel(channels, candidate) && !has_id(taken, candidate) {
            return Ok((candidate, candidate - 1));
        }
        candidate -= 1;
    }
    Err(
        ManagementError::InvalidDefinition(
            "order の未作成 Channel を投影する ID を確保できません".to_owned(),
        ),
    )
}

/// What the channels that an order names come to: their identifiers, those of
/// them that are fixed, and the stand-ins of those that are still to be created.
pub struct NamedChannelsView {
    pub ids: Seq<u64>,
    pub fixed: Seq<u64>,
    pub missing: Seq<u64>,
    pub next: u64,
}

/// What the channels that an order names come to, from a place on.
pub open spec fn named_channels(
    names: Seq<Seq<char>>,
    i: int,
    kind: ChannelKind,
    definition: DefinitionView,
    state: StateView,
    channels: Seq<ChannelSnapshotView>,
    siblings: Seq<ChannelSnapshotView>,
    gathered: NamedChannelsView,
) -> Result<NamedChannelsView, ErrorView>
    decreases names.len() - i,
{
    if i < 0 || i >= names.len() {
        Ok(gathered)
    } else {
        let name = names[i];
        let declared = lookup(definition.channels, name);
        let is_reference = declared is Some && declared->0 is Reference;
        let is_managed = declared is Some && declared->0 is Managed;
        match lookup(state.channels, name) {
            None => if is_reference {
                Err(
                    ErrorView::InvalidState(
                        "order の参照専用 Channel "@ + name + " の対応がありません"@,
                    ),
                )
            } else {
                match stand_in(gathered.next, channels, gathered.missing) {
                    Err(error) => Err(error),
                    Ok((id, next)) => named_channels(
                        names,
                        i + 1,
                        kind,
                        definition,
                        state,
                        channels,
                        siblings,
                        NamedChannelsView {
                            ids: gathered.ids.push(id),
                            fixed: gathered.fixed,
                            missing: gathered.missing.push(id),
                            next,
                        },
                    ),
                }
            },
            Some(id) => match channel_with_id(siblings, id) {
                None => Err(
                    ErrorView::InvalidState(
                        "order の Channel "@ + name + " の Snowflake "@ + decimal(id as nat)
                            + " が対象の兄弟一覧にありません"@,
                    ),
                ),
                Some(channel) => if channel.kind != kind {
                    Err(
                        ErrorView::InvalidDefinition(
                            "order の Channel "@ + name + " は "@ + kind.chars()
                                + " の兄弟として指定できません"@,
                        ),
                    )
                } else if is_managed && !channel.manageable {
                    Err(
                        ErrorView::InvalidState(
                            "order の Channel "@ + name + " の Snowflake "@ + decimal(id as nat)
                                + " は Bot が管理できません"@,
                        ),
                    )
                } else {
                    named_channels(
                        names,
                        i + 1,
                        kind,
                        definition,
                        state,
                        channels,
                        siblings,
                        NamedChannelsView {
                            ids: gathered.ids.push(id),
                            fixed: if is_reference {
                                gathered.fixed.push(id)
                            } else {
                                gathered.fixed
                            },
                            missing: gathered.missing,
                            next: gathered.next,
                        },
                    )
                },
            },
        }
    }
}

/// The channels among siblings that a definition only refers to.
pub open spec fn referenced_channels(
    declared: Seq<(Seq<char>, ChannelDefinitionView)>,
    state: StateView,
    siblings: Seq<ChannelSnapshotView>,
) -> Seq<u64>
    decreases declared.len(),
{
    if declared.len() == 0 {
        Seq::empty()
    } else {
        let rest = referenced_channels(declared.drop_last(), state, siblings);
        match lookup(state.channels, declared.last().0) {
            Some(id) => if declared.last().1 is Reference && is_listed(siblings, id) {
                rest.push(id)
            } else {
                rest
            },
            None => rest,
        }
    }
}

/// The places of a whole list of channels.
pub open spec fn all_positions(order: Seq<u64>) -> Seq<ChannelPositionUpdateView> {
    Seq::new(
        order.len(),
        |i: int| ChannelPositionUpdateView { channel_id: order[i], position: i as u64 },
    )
}

/// The new order that a definition wants for siblings, given what its names come to.
pub open spec fn order_of_named(
    requested: Seq<Seq<char>>,
    current: Seq<u64>,
    named: NamedChannelsView,
    referenced: Seq<u64>,
) -> Result<Option<OrderGroupPlanView>, ErrorView> {
    match relative_order(current + named.missing, named.ids, named.fixed + referenced) {
        None => Err(
            ErrorView::InvalidDefinition("order の Channel は参照専用対象の固定位置と両立しません"@),
        ),
        Some(desired) => if named.missing.len() > 0 {
            Ok(Some(deferred_group(requested)))
        } else if desired == current {
            Ok(None)
        } else {
            Ok(
                Some(
                    OrderGroupPlanView { requested, updates: all_positions(desired), expected_order: desired },
                ),
            )
        },
    }
}

/// The new order that a definition wants for siblings, if it differs from the
/// order they have. Channels that are still to be created come last.
pub open spec fn group_order(
    names: Seq<Seq<char>>,
    group: Siblings,
    kind: ChannelKind,
    definition: DefinitionView,
    state: StateView,
    channels: Seq<ChannelSnapshotView>,
) -> Result<Option<OrderGroupPlanView>, ErrorView> {
    let siblings = siblings_in(channels, group);
    let start = NamedChannelsView {
        ids: Seq::empty(),
        fixed: Seq::empty(),
        missing: Seq::empty(),
        next: (u64::MAX - 1) as u64,
    };
    match named_channels(names, 0, kind, definition, state, channels, siblings, start) {
        Err(error) => Err(error),
        Ok(named) => order_of_named(
            names,
            channel_order(siblings),
            named,
            referenced_channels(definition.channels, state, siblings),
        ),
    }
}

struct NamedChannels {
    ids: Vec<ChannelId>,
    fixed: Vec<ChannelId>,
    missing: Vec<ChannelId>,
    next: u64,
}

impl DeepView for NamedChannels {
    type V = NamedChannelsView;

    closed spec fn deep_view(&self) -> NamedChannelsView {
        NamedChannelsView {
            ids: self.ids.deep_view(),
            fixed: self.fixed.deep_view(),
            missing: self.missing.deep_view(),
            next: self.next,
        }
    }
}

#[verifier::loop_isolation(false)]
fn resolve_named(
    names: &Vec<ChannelLogicalId>,
    kind: ChannelKind,
    definition: &DefinitionFile,
    state: &StateFile,
    channels: &Vec<ChannelSnapshot>,
    siblings: &Vec<ChannelSnapshot>,
) -> (result: Result<NamedChannels, ManagementError>)
    ensures
        seen(result) == named_channels(
            names.deep_view(),
            0,
            kind,
            definition.deep_view(),
            state.deep_view(),
            channels.deep_view(),
            siblings.deep_view(),
            NamedChannelsView {
                ids: Seq::empty(),
                fixed: Seq::empty(),
                missing: Seq::empty(),
                next: (u64::MAX - 1) as u64,
            },
        ),
{
    let ghost start = NamedChannelsView {
        ids: Seq::empty(),
        fixed: Seq::empty(),
        missing: Seq::empty(),
        next: (u64::MAX - 1) as u64,
    };
    let ghost def = definition.deep_view();
    let ghost st = state.deep_view();
    let ghost all = channels.deep_view();
    let ghost sib = siblings.deep_view();
    let mut ids: Vec<ChannelId> = Vec::new();
    let mut fixed: Vec<ChannelId> = Vec::new();
    let mut missing: Vec<ChannelId> = Vec::new();
    let mut next: u64 = u64::MAX - 1;
    let mut i: usize = 0;
    assert(ids.deep_view() =~= Seq::empty());
    assert(fixed.deep_view() =~= Seq::empty());
    assert(missing.deep_view() =~= Seq::empty());
    while i < names.len()
        invariant
            i <= names@.len(),
            next < u64::MAX,
            named_channels(names.deep_view(), 0, kind, def, st, all, sib, start) == named_channels(
                names.deep_view(),
                i as int,
                kind,
                def,
                st,
                all,
                sib,
                NamedChannelsView {
                    ids: ids.deep_view(),
                    fixed: fixed.deep_view(),
                    missing: missing.deep_view(),
                    next,
                },
            ),
        decreases names@.len() - i,
    {
        let name: &ChannelLogicalId = &names[i];
        let declared: Option<&ChannelDefinition> = definition.channels.get(name);
        let is_reference: bool = match declared {
            Some(channel) => channel.is_reference(),
            None => false,
        };
        let is_managed: bool = match declared {
            Some(channel) => channel.is_managed(),
            None => false,
        };
        let ghost ids_before = ids.deep_view();
        let ghost fixed_before = fixed.deep_view();
        let ghost missing_before = missing.deep_view();
        match state.channels.get(name) {
            None => {
                if is_reference {
                    return Err(
                        ManagementError::InvalidState(
                            text3("order の参照専用 Channel ", name.as_str(), " の対応がありません"),
                        ),
                    );
                }
                let (id, rest) = find_stand_in(next, channels, &missing)?;
                proof {
                    stand_in_is_below(next, all, missing_before);
                }
                next = rest;
                ids.push(ChannelId::new(id));
                missing.push(ChannelId::new(id));
                assert(ids.deep_view() =~= ids_before.push(id));
                assert(missing.deep_view() =~= missing_before.push(id));
            },
            Some(id) => match find_channel(siblings, id.get()) {
                None => {
                    return Err(
                        ManagementError::InvalidState(
                            text5(
                                "order の Channel ",
                                name.as_str(),
                                " の Snowflake ",
                                id.to_text().as_str(),
                                " が対象の兄弟一覧にありません",
                            ),
                        ),
                    );
                },
                Some(channel) => {
                    if channel.kind != kind {
                        return Err(
                            ManagementError::InvalidDefinition(
                                text5(
                                    "order の Channel ",
                                    name.as_str(),
                                    " は ",
                                    kind.as_str(),
                                    " の兄弟として指定できません",
                                ),
                            ),
                        );
                    }
                    if is_managed && !channel.manageable {
                        return Err(
                            ManagementError::InvalidState(
                                text5(
                                    "order の Channel ",
                                    name.as_str(),
                                    " の Snowflake ",
                                    id.to_text().as_str(),
                                    " は Bot が管理できません",
                                ),
                            ),
                        );
                    }
                    if is_reference {
                        fixed.push(*id);
                        assert(fixed.deep_view() =~= fixed_before.push(id.deep_view()));
                    }
                    ids.push(*id);
                    assert(ids.deep_view() =~= ids_before.push(id.deep_view()));
                },
            },
        }
        i += 1;
    }
    Ok(NamedChannels { ids, fixed, missing, next })
}

proof fn stand_in_is_below(next: u64, channels: Seq<ChannelSnapshotView>, taken: Seq<u64>)
    ensures
        stand_in(next, channels, taken) is Ok ==> stand_in(next, channels, taken)->Ok_0.0 <= next && stand_in(
            next,
            channels,
            taken,
        )->Ok_0.1 < next,
    decreases next,
{
    if next > 0 && !is_free(next, channels, taken) {
        stand_in_is_below((next - 1) as u64, channels, taken);
    }
}

fn find_referenced(
    declared: &OrderedMap<ChannelLogicalId, ChannelDefinition>,
    state: &StateFile,
    siblings: &Vec<ChannelSnapshot>,
) -> (ids: Vec<ChannelId>)
    ensures
        ids.deep_view() == referenced_channels(declared.deep_view(), state.deep_view(), siblings.deep_view()),
{
    let ghost all = declared.deep_view();
    let ghost st = state.deep_view();
    let ghost sib = siblings.deep_view();
    let mut ids: Vec<ChannelId> = Vec::new();
    let mut i: usize = 0;
    assert(all.take(0) =~= Seq::empty());
    assert(ids.deep_view() =~= referenced_channels(all.take(0), st, sib));
    while i < declared.len()
        invariant
            i <= all.len(),
            all == declared.deep_view(),
            st == state.deep_view(),
            sib == siblings.deep_view(),
            ids.deep_view() == referenced_channels(all.take(i as int), st, sib),
        decreases all.len() - i,
    {
        let ghost before = ids.deep_view();
        proof {
            assert(all.take(i + 1).drop_last() =~= all.take(i as int));
            assert(all.take(i + 1).last() == all[i as int]);
        }
        match state.channels.get(declared.key_at(i)) {
            Some(id) => {
                if declared.value_at(i).is_reference() && has_channel(siblings, id.get()) {
                    ids.push(*id);
                    assert(ids.deep_view() =~= before.push(id.deep_view()));
                }
            },
            None => {},
        }
        i += 1;
    }
    assert(all.take(i as int) =~= all);
    ids
}

fn position_all(order: &Vec<ChannelId>) -> (updates: Vec<ChannelPositionUpdate>)
    ensures
        updates.deep_view() == all_positions(order.deep_view()),
{
    let mut updates: Vec<ChannelPositionUpdate> = Vec::new();
    let mut i: usize = 0;
    while i < order.len()
        invariant
            i <= order@.len(),
            updates@.len() == i,
            forall|k: int| 0 <= k < i ==> (#[trigger] updates@[k]).deep_view() == all_positions(order.deep_view())[k],
        decreases order@.len() - i,
    {
        updates.push(ChannelPositionUpdate { channel_id: order[i], position: i as u64 });
        i += 1;
    }
    assert(updates.deep_view() =~= all_positions(order.deep_view()));
    updates
}

/// The new order that a definition wants for siblings, if it differs from the order they have.
pub fn build_order_group(
    requested: &Vec<ChannelLogicalId>,
    group: Siblings,
    expected_kind: ChannelKind,
    definition: &DefinitionFile,
    state: &StateFile,
    channels: &Vec<ChannelSnapshot>,
) -> (result: Result<Option<OrderGroupPlan>, ManagementError>)
    ensures
        seen(result) == group_order(
            requested.deep_view(),
            group,
            expected_kind,
            definition.deep_view(),
            state.deep_view(),
            channels.deep_view(),
        ),
{
    let siblings: Vec<ChannelSnapshot> = take_siblings(channels, group);
    let named: NamedChannels = resolve_named(requested, expected_kind, definition, state, channels, &siblings)?;
    let current: Vec<ChannelId> = order_channels(&siblings);
    let mut fixed: Vec<ChannelId> = named.fixed;
    let mut referenced: Vec<ChannelId> = find_referenced(&definition.channels, state, &siblings);
    let ghost fixed_view = fixed.deep_view() + referenced.deep_view();
    fixed.append(&mut referenced);
    assert(fixed.deep_view() =~= fixed_view);
    let deferred: bool = !named.missing.is_empty();
    let mut projected: Vec<ChannelId> = current.copy();
    let mut missing: Vec<ChannelId> = named.missing;
    let ghost projected_view = projected.deep_view() + missing.deep_view();
    projected.append(&mut missing);
    assert(projected.deep_view() =~= projected_view);
    let desired: Vec<ChannelId> = match stable_relative_order(&projected, &named.ids, &fixed) {
        Err(()) => {
            return Err(
                ManagementError::InvalidDefinition(
                    "order の Channel は参照専用対象の固定位置と両立しません".to_owned(),
                ),
            );
        },
        Ok(desired) => desired,
    };
    if deferred {
        return Ok(Some(defer_group(requested)));
    }
    if desired.same(&current) {
        return Ok(None);
    }
    Ok(
        Some(
            OrderGroupPlan {
                requested: requested.copy(),
                updates: position_all(&desired),
                expected_order: desired,
            },
        ),
    )
}

/// The new orders of children, from a place on, that a definition wants, after
/// those that were found before.
pub open spec fn children_orders(
    children: Seq<(Seq<char>, Seq<Seq<char>>)>,
    i: int,
    definition: DefinitionView,
    state: StateView,
    channels: Seq<ChannelSnapshotView>,
    groups: Seq<OrderGroupPlanView>,
) -> Result<Seq<OrderGroupPlanView>, ErrorView>
    decreases children.len() - i,
{
    if i < 0 || i >= children.len() {
        Ok(groups)
    } else if children[i].1.len() == 0 {
        children_orders(children, i + 1, definition, state, channels, groups)
    } else {
        match order_parent(children[i].0, definition, state, channels) {
            Err(error) => Err(error),
            Ok(None) => match deferred_children_fault(
                children[i].0,
                children[i].1,
                0,
                definition,
                state,
                channels,
            ) {
                Some(error) => Err(error),
                None => children_orders(
                    children,
                    i + 1,
                    definition,
                    state,
                    channels,
                    groups.push(deferred_group(children[i].1)),
                ),
            },
            Ok(Some(parent)) => match group_order(
                children[i].1,
                Siblings::Under(parent),
                ChannelKind::Text,
                definition,
                state,
                channels,
            ) {
                Err(error) => Err(error),
                Ok(None) => children_orders(children, i + 1, definition, state, channels, groups),
                Ok(Some(group)) => children_orders(
                    children,
                    i + 1,
                    definition,
                    state,
                    channels,
                    groups.push(group),
                ),
            },
        }
    }
}

/// The new order of categories that a definition wants, if there is one.
pub open spec fn categories_order(
    categories: Seq<Seq<char>>,
    definition: DefinitionView,
    state: StateView,
    channels: Seq<ChannelSnapshotView>,
) -> Result<Seq<OrderGroupPlanView>, ErrorView> {
    if categories.len() == 0 {
        Ok(Seq::empty())
    } else {
        match group_order(categories, Siblings::Top, ChannelKind::Category, definition, state, channels) {
            Err(error) => Err(error),
            Ok(None) => Ok(Seq::empty()),
            Ok(Some(group)) => Ok(seq![group]),
        }
    }
}

/// The new orders that a definition wants for channels, if there are any.
pub open spec fn channel_order_plan(
    definition: DefinitionView,
    state: StateView,
    catalog: ChannelCatalogView,
) -> Result<Option<Seq<OrderGroupPlanView>>, ErrorView> {
    match definition.order {
        None => Ok(None),
        Some(order) => {
            let channels = with_wanted_parents(catalog.channels, definition.channels, 0, state);
            match categories_order(order.categories, definition, state, channels) {
                Err(error) => Err(error),
                Ok(groups) => match children_orders(order.children, 0, definition, state, channels, groups) {
                    Err(error) => Err(error),
                    Ok(groups) => Ok(
                        if groups.len() == 0 {
                            None
                        } else {
                            Some(groups)
                        },
                    ),
                },
            }
        },
    }
}

/// The new orders that a definition wants for channels, if there are any.
#[verifier::loop_isolation(false)]
pub fn build_order_plan(
    definition: &DefinitionFile,
    state: &StateFile,
    catalog: &ChannelCatalog,
) -> (result: Result<Option<OrderPlan>, ManagementError>)
    ensures
        seen(result) == channel_order_plan(definition.deep_view(), state.deep_view(), catalog.deep_view()),
{
    let order: &RawOrderDefinition = match &definition.order {
        None => {
            return Ok(None);
        },
        Some(order) => order,
    };
    let channels: Vec<ChannelSnapshot> = project_channel_parents_for_order(definition, state, catalog);
    let ghost def = definition.deep_view();
    let ghost st = state.deep_view();
    let ghost all = channels.deep_view();
    let ghost children = order.children.deep_view();
    let mut groups: Vec<OrderGroupPlan> = Vec::new();
    assert(groups.deep_view() =~= Seq::empty());
    if !order.categories.is_empty() {
        match build_order_group(
            &order.categories,
            Siblings::Top,
            ChannelKind::Category,
            definition,
            state,
            &channels,
        )? {
            Some(group) => {
                groups.push(group);
                assert(groups.deep_view() =~= seq![group.deep_view()]);
            },
            None => {},
        }
    }
    let ghost found = groups.deep_view();
    assert(categories_order(order.categories.deep_view(), def, st, all) == Ok::<
        Seq<OrderGroupPlanView>,
        ErrorView,
    >(found));
    let mut i: usize = 0;
    while i < order.children.len()
        invariant
            i <= children.len(),
            children_orders(children, 0, def, st, all, found) == children_orders(
                children,
                i as int,
                def,
                st,
                all,
                groups.deep_view(),
            ),
        decreases children.len() - i,
    {
        let parent: &ChannelLogicalId = order.children.key_at(i);
        let requested: &Vec<ChannelLogicalId> = order.children.value_at(i);
        let ghost before = groups.deep_view();
        if !requested.is_empty() {
            match resolve_channel_order_id(parent, definition, state, &channels)? {
                None => {
                    validate_deferred_child_order(parent, requested, definition, state, &channels)?;
                    groups.push(defer_group(requested));
                    assert(groups.deep_view() =~= before.push(deferred_group(requested.deep_view())));
                },
                Some(parent_id) => match build_order_group(
                    requested,
                    Siblings::Under(parent_id.get()),
                    ChannelKind::Text,
                    definition,
                    state,
                    &channels,
                )? {
                    Some(group) => {
                        groups.push(group);
                        assert(groups.deep_view() =~= before.push(group.deep_view()));
                    },
                    None => {},
                },
            }
        }
        i += 1;
    }
    if groups.is_empty() {
        Ok(None)
    } else {
        Ok(Some(OrderPlan { groups }))
    }
}

} // verus!
