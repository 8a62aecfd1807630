//! The order of a definition, held against the roles and channels it declares.

use vstd::prelude::*;

use crate::configuration::channel::{given_value, ChannelDefinition, ChannelDefinitionView, ChannelKind, ChannelValue};
use crate::configuration::definition::{OrderView, RawOrderDefinition};
use crate::configuration::role::{RoleDefinition, RoleDefinitionView};
use crate::domain::{ErrorView, ManagementError};
use crate::ids::{shown_channel_name, ChannelLogicalId, RoleLogicalId};
use crate::ordered::{lookup, put, OrderedMap};
use crate::text::{text3, text5, text7};
use crate::value::{seen, Plain};

verus! {

/// Declared channels by name.
pub type ChannelsView = Seq<(Seq<char>, ChannelDefinitionView)>;

/// The channels that an order has placed so far, each with the parent it was
/// placed under.
pub type PlacedView = Seq<(Seq<char>, Option<Seq<char>>)>;

/// Why a definition is refused.
pub open spec fn refused(text: Seq<char>) -> Option<ErrorView> {
    Some(ErrorView::InvalidDefinition(text))
}

/// What is wrong with an ordered role.
pub open spec fn order_role_fault(roles: Seq<(Seq<char>, RoleDefinitionView)>, id: Seq<char>) -> Option<ErrorView> {
    match lookup(roles, id) {
        None => refused("order.roles の Role "@ + id + " が宣言されていません"@),
        Some(RoleDefinitionView::Absent) => refused(
            "order.roles の Role "@ + id + " は削除宣言のため順序指定できません"@,
        ),
        _ => None,
    }
}

/// What is wrong with a channel that is ordered as a category.
pub open spec fn order_category_fault(id: Seq<char>, channel: ChannelDefinitionView) -> Option<ErrorView> {
    match channel {
        ChannelDefinitionView::Absent => refused(
            "order の Category "@ + id + " は削除宣言のため順序指定できません"@,
        ),
        ChannelDefinitionView::Reference => None,
        ChannelDefinitionView::Managed { attributes } => match attributes.kind {
            Some(ChannelKind::Category) => None,
            Some(ChannelKind::Text) => refused(
                "order の Category "@ + id + " に Text Channel を指定できません"@,
            ),
            _ => refused("order の Category "@ + id + " には type = \"category\" が必要です"@),
        },
    }
}

/// What is wrong with a channel that is ordered outside of categories.
pub open spec fn order_uncategorized_fault(id: Seq<char>, channel: ChannelDefinitionView) -> Option<ErrorView> {
    match channel {
        ChannelDefinitionView::Absent => refused(
            "order.uncategorized の Channel "@ + id + " は削除宣言のため指定できません"@,
        ),
        ChannelDefinitionView::Reference => None,
        ChannelDefinitionView::Managed { attributes } => if attributes.kind != Some(ChannelKind::Text) {
            refused(
                "order.uncategorized の Channel "@ + id
                    + " には type = \"text\" または \"announcement\" が必要です"@,
            )
        } else if !(attributes.parent is Some && attributes.parent->0 is Clear) {
            refused(
                "order.uncategorized の Channel "@ + id + " には parent = { clear = true } が必要です"@,
            )
        } else {
            None
        },
    }
}

/// What is wrong with a channel that is ordered under a parent.
pub open spec fn order_child_fault(
    parent: Seq<char>,
    id: Seq<char>,
    channel: ChannelDefinitionView,
) -> Option<ErrorView> {
    match channel {
        ChannelDefinitionView::Absent => refused(
            "order.children の子 Channel "@ + id + " は削除宣言のため指定できません"@,
        ),
        ChannelDefinitionView::Reference => None,
        ChannelDefinitionView::Managed { attributes } => match attributes.kind {
            Some(ChannelKind::Category) => refused(
                "order.children の子 Channel "@ + id + " は Category のため指定できません"@,
            ),
            Some(ChannelKind::Text) => if given_value(attributes.parent) != Some(parent) {
                refused(
                    "order.children の子 Channel "@ + id + " の親が "@ + parent + " と一致しません"@,
                )
            } else {
                None
            },
            _ => refused("order.children の子 Channel "@ + id + " には type が必要です"@),
        },
    }
}

/// What is wrong with the ordered roles, from a place on.
pub open spec fn order_roles_fault(
    ids: Seq<Seq<char>>,
    roles: Seq<(Seq<char>, RoleDefinitionView)>,
    i: int,
) -> Option<ErrorView>
    decreases ids.len() - i,
{
    if i < 0 || i >= ids.len() {
        None
    } else {
        match order_role_fault(roles, ids[i]) {
            Some(error) => Some(error),
            None => order_roles_fault(ids, roles, i + 1),
        }
    }
}

/// What is wrong with the ordered categories, from a place on.
pub open spec fn order_categories_fault(
    ids: Seq<Seq<char>>,
    channels: ChannelsView,
    i: int,
) -> Option<ErrorView>
    decreases ids.len() - i,
{
    if i < 0 || i >= ids.len() {
        None
    } else {
        match lookup(channels, ids[i]) {
            None => refused("order.categories の Channel "@ + ids[i] + " が宣言されていません"@),
            Some(channel) => match order_category_fault(ids[i], channel) {
                Some(error) => Some(error),
                None => order_categories_fault(ids, channels, i + 1),
            },
        }
    }
}

/// The channels that are placed outside of categories, from a place on, or what
/// is wrong with them.
pub open spec fn placed_uncategorized(
    ids: Seq<Seq<char>>,
    channels: ChannelsView,
    i: int,
    placed: PlacedView,
) -> Result<PlacedView, ErrorView>
    decreases ids.len() - i,
{
    if i < 0 || i >= ids.len() {
        Ok(placed)
    } else {
        match lookup(channels, ids[i]) {
            None => Err(
                ErrorView::InvalidDefinition(
                    "order.uncategorized の Channel "@ + ids[i] + " が宣言されていません"@,
                ),
            ),
            Some(channel) => match order_uncategorized_fault(ids[i], channel) {
                Some(error) => Err(error),
                None => placed_uncategorized(
                    ids,
                    channels,
                    i + 1,
                    put::<ChannelLogicalId, Option<Seq<char>>>(placed, ids[i], None),
                ),
            },
        }
    }
}

/// How a channel's earlier place is named.
pub open spec fn place_chars(parent: Option<Seq<char>>) -> Seq<char> {
    match parent {
        None => "None"@,
        Some(parent) => "Some("@ + shown_channel_name(parent) + ")"@,
    }
}

/// The channels that are placed under a parent, from a place on, or what is
/// wrong with them.
pub open spec fn placed_children(
    parent: Seq<char>,
    children: Seq<Seq<char>>,
    channels: ChannelsView,
    j: int,
    placed: PlacedView,
) -> Result<PlacedView, ErrorView>
    decreases children.len() - j,
{
    if j < 0 || j >= children.len() {
        Ok(placed)
    } else if children[j] == parent {
        Err(
            ErrorView::InvalidDefinition(
                "order.children の Channel "@ + children[j] + " は自身を親にできません"@,
            ),
        )
    } else {
        match lookup(placed, children[j]) {
            Some(earlier) => Err(
                ErrorView::InvalidDefinition(
                    "order の Channel "@ + children[j] + " が親 "@ + place_chars(earlier) + " と "@ + parent
                        + " に重複指定されています"@,
                ),
            ),
            None => match lookup(channels, children[j]) {
                None => Err(
                    ErrorView::InvalidDefinition(
                        "order.children の子 Channel "@ + children[j] + " が宣言されていません"@,
                    ),
                ),
                Some(channel) => match order_child_fault(parent, children[j], channel) {
                    Some(error) => Err(error),
                    None => placed_children(
                        parent,
                        children,
                        channels,
                        j + 1,
                        put::<ChannelLogicalId, Option<Seq<char>>>(placed, children[j], Some(parent)),
                    ),
                },
            },
        }
    }
}

/// What is wrong with the parents and their children, from a place on.
pub open spec fn order_children_fault(
    groups: Seq<(Seq<char>, Seq<Seq<char>>)>,
    channels: ChannelsView,
    i: int,
    placed: PlacedView,
) -> Option<ErrorView>
    decreases groups.len() - i,
{
    if i < 0 || i >= groups.len() {
        None
    } else {
        match lookup(channels, groups[i].0) {
            None => refused("order.children の親 Channel "@ + groups[i].0 + " が宣言されていません"@),
            Some(channel) => match order_category_fault(groups[i].0, channel) {
                Some(error) => Some(error),
                None => match placed_children(groups[i].0, groups[i].1, channels, 0, placed) {
                    Err(error) => Some(error),
                    Ok(placed) => order_children_fault(groups, channels, i + 1, placed),
                },
            },
        }
    }
}

/// What is wrong with an order, given the declared roles and channels.
pub open spec fn order_fault(
    order: Option<OrderView>,
    roles: Seq<(Seq<char>, RoleDefinitionView)>,
    channels: ChannelsView,
) -> Option<ErrorView> {
    match order {
        None => None,
        Some(order) => match order_roles_fault(order.roles, roles, 0) {
            Some(error) => Some(error),
            None => match order_categories_fault(order.categories, channels, 0) {
                Some(error) => Some(error),
                None => match placed_uncategorized(order.uncategorized, channels, 0, Seq::empty()) {
                    Err(error) => Some(error),
                    Ok(placed) => order_children_fault(order.children, channels, 0, placed),
                },
            },
        },
    }
}

/// The result of a check that found an error or none.
pub open spec fn accepted(found: Option<ErrorView>) -> Result<(), ErrorView> {
    match found {
        Some(error) => Err(error),
        None => Ok(()),
    }
}

/// Checks a channel that is ordered as a category.
pub fn validate_order_category(logical_id: &ChannelLogicalId, channel: &ChannelDefinition) -> (result: Result<
    (),
    ManagementError,
>)
    ensures
        seen(result) == accepted(order_category_fault(logical_id.deep_view(), channel.deep_view())),
{
    let id: &str = logical_id.as_str();
    match channel {
        ChannelDefinition::Absent => Err(
            ManagementError::InvalidDefinition(
                text3("order の Category ", id, " は削除宣言のため順序指定できません"),
            ),
        ),
        ChannelDefinition::Reference => Ok(()),
        ChannelDefinition::Managed { attributes } => match attributes.kind {
            Some(ChannelKind::Category) => Ok(()),
            Some(ChannelKind::Text) => Err(
                ManagementError::InvalidDefinition(
                    text3("order の Category ", id, " に Text Channel を指定できません"),
                ),
            ),
            _ => Err(
                ManagementError::InvalidDefinition(
                    text3("order の Category ", id, " には type = \"category\" が必要です"),
                ),
            ),
        },
    }
}

/// Checks a channel that is ordered outside of categories.
pub fn validate_order_uncategorized(logical_id: &ChannelLogicalId, channel: &ChannelDefinition) -> (result: Result<
    (),
    ManagementError,
>)
    ensures
        seen(result) == accepted(order_uncategorized_fault(logical_id.deep_view(), channel.deep_view())),
{
    let id: &str = logical_id.as_str();
    match channel {
        ChannelDefinition::Absent => Err(
            ManagementError::InvalidDefinition(
                text3("order.uncategorized の Channel ", id, " は削除宣言のため指定できません"),
            ),
        ),
        ChannelDefinition::Reference => Ok(()),
        ChannelDefinition::Managed { attributes } => {
            if !matches!(attributes.kind, Some(ChannelKind::Text)) {
                return Err(
                    ManagementError::InvalidDefinition(
                        text3(
                            "order.uncategorized の Channel ",
                            id,
                            " には type = \"text\" または \"announcement\" が必要です",
                        ),
                    ),
                );
            }
            if !matches!(attributes.parent, Some(ChannelValue::Clear)) {
                return Err(
                    ManagementError::InvalidDefinition(
                        text3(
                            "order.uncategorized の Channel ",
                            id,
                            " には parent = { clear = true } が必要です",
                        ),
                    ),
                );
            }
            Ok(())
        },
    }
}

/// Checks a channel that is ordered under a parent.
pub fn validate_order_child(
    parent_id: &ChannelLogicalId,
    child_id: &ChannelLogicalId,
    child: &ChannelDefinition,
) -> (result: Result<(), ManagementError>)
    ensures
        seen(result) == accepted(
            order_child_fault(parent_id.deep_view(), child_id.deep_view(), child.deep_view()),
        ),
{
    let id: &str = child_id.as_str();
    match child {
        ChannelDefinition::Absent => Err(
            ManagementError::InvalidDefinition(
                text3("order.children の子 Channel ", id, " は削除宣言のため指定できません"),
            ),
        ),
        ChannelDefinition::Reference => Ok(()),
        ChannelDefinition::Managed { attributes } => match attributes.kind {
            Some(ChannelKind::Category) => Err(
                ManagementError::InvalidDefinition(
                    text3("order.children の子 Channel ", id, " は Category のため指定できません"),
                ),
            ),
            Some(ChannelKind::Text) => {
                let belongs: bool = match &attributes.parent {
                    Some(ChannelValue::Value(parent)) => parent.same(parent_id),
                    _ => false,
                };
                if belongs {
                    Ok(())
                } else {
                    Err(
                        ManagementError::InvalidDefinition(
                            text5(
                                "order.children の子 Channel ",
                                id,
                                " の親が ",
                                parent_id.as_str(),
                                " と一致しません",
                            ),
                        ),
                    )
                }
            },
            _ => Err(
                ManagementError::InvalidDefinition(
                    text3("order.children の子 Channel ", id, " には type が必要です"),
                ),
            ),
        },
    }
}

fn validate_order_roles(ids: &Vec<RoleLogicalId>, roles: &OrderedMap<RoleLogicalId, RoleDefinition>) -> (result: Result<
    (),
    ManagementError,
>)
    ensures
        seen(result) == accepted(order_roles_fault(ids.deep_view(), roles.deep_view(), 0)),
{
    let mut i: usize = 0;
    while i < ids.len()
        invariant
            i <= ids@.len(),
            order_roles_fault(ids.deep_view(), roles.deep_view(), 0) == order_roles_fault(
                ids.deep_view(),
                roles.deep_view(),
                i as int,
            ),
        decreases ids@.len() - i,
    {
        match roles.get(&ids[i]) {
            None => {
                return Err(
                    ManagementError::InvalidDefinition(
                        text3("order.roles の Role ", ids[i].as_str(), " が宣言されていません"),
                    ),
                );
            },
            Some(role) => {
                if role.is_absent() {
                    return Err(
                        ManagementError::InvalidDefinition(
                            text3(
                                "order.roles の Role ",
                                ids[i].as_str(),
                                " は削除宣言のため順序指定できません",
                            ),
                        ),
                    );
                }
            },
        }
        i += 1;
    }
    Ok(())
}

fn validate_order_categories(
    ids: &Vec<ChannelLogicalId>,
    channels: &OrderedMap<ChannelLogicalId, ChannelDefinition>,
) -> (result: Result<(), ManagementError>)
    ensures
        seen(result) == accepted(order_categories_fault(ids.deep_view(), channels.deep_view(), 0)),
{
    let mut i: usize = 0;
    while i < ids.len()
        invariant
            i <= ids@.len(),
            order_categories_fault(ids.deep_view(), channels.deep_view(), 0) == order_categories_fault(
                ids.deep_view(),
                channels.deep_view(),
                i as int,
            ),
        decreases ids@.len() - i,
    {
        match channels.get(&ids[i]) {
            None => {
                return Err(
                    ManagementError::InvalidDefinition(
                        text3("order.categories の Channel ", ids[i].as_str(), " が宣言されていません"),
                    ),
                );
            },
            Some(channel) => validate_order_category(&ids[i], channel)?,
        }
        i += 1;
    }
    Ok(())
}

fn place_uncategorized(
    ids: &Vec<ChannelLogicalId>,
    channels: &OrderedMap<ChannelLogicalId, ChannelDefinition>,
) -> (result: Result<OrderedMap<ChannelLogicalId, Option<ChannelLogicalId>>, ManagementError>)
    ensures
        seen(result) == placed_uncategorized(ids.deep_view(), channels.deep_view(), 0, Seq::empty()),
{
    let mut placed: OrderedMap<ChannelLogicalId, Option<ChannelLogicalId>> = OrderedMap::new();
    let mut i: usize = 0;
    while i < ids.len()
        invariant
            i <= ids@.len(),
            placed_uncategorized(ids.deep_view(), channels.deep_view(), 0, Seq::empty()) == placed_uncategorized(
                ids.deep_view(),
                channels.deep_view(),
                i as int,
                placed.deep_view(),
            ),
        decreases ids@.len() - i,
    {
        match channels.get(&ids[i]) {
            None => {
                return Err(
                    ManagementError::InvalidDefinition(
                        text3("order.uncategorized の Channel ", ids[i].as_str(), " が宣言されていません"),
                    ),
                );
            },
            Some(channel) => validate_order_uncategorized(&ids[i], channel)?,
        }
        placed.insert(ids[i].copy(), None);
        i += 1;
    }
    Ok(placed)
}

fn place_text(parent: &Option<ChannelLogicalId>) -> (text: String)
    ensures
        text@ == place_chars(parent.deep_view()),
{
    match parent {
        None => "None".to_owned(),
        Some(parent) => text3("Some(", parent.to_shown_text().as_str(), ")"),
    }
}

#[verifier::loop_isolation(false)]
fn place_children(
    parent_id: &ChannelLogicalId,
    children: &Vec<ChannelLogicalId>,
    channels: &OrderedMap<ChannelLogicalId, ChannelDefinition>,
    placed: OrderedMap<ChannelLogicalId, Option<ChannelLogicalId>>,
) -> (result: Result<OrderedMap<ChannelLogicalId, Option<ChannelLogicalId>>, ManagementError>)
    ensures
        seen(result) == placed_children(
            parent_id.deep_view(),
            children.deep_view(),
            channels.deep_view(),
            0,
            placed.deep_view(),
        ),
{
    let ghost wanted = placed_children(
        parent_id.deep_view(),
        children.deep_view(),
        channels.deep_view(),
        0,
        placed.deep_view(),
    );
    let mut placed: OrderedMap<ChannelLogicalId, Option<ChannelLogicalId>> = placed;
    let mut j: usize = 0;
    while j < children.len()
        invariant
            j <= children@.len(),
            wanted == placed_children(
                parent_id.deep_view(),
                children.deep_view(),
                channels.deep_view(),
                j as int,
                placed.deep_view(),
            ),
        decreases children@.len() - j,
    {
        let child_id: &ChannelLogicalId = &children[j];
        if child_id.same(parent_id) {
            return Err(
                ManagementError::InvalidDefinition(
                    text3("order.children の Channel ", child_id.as_str(), " は自身を親にできません"),
                ),
            );
        }
        match placed.get(child_id) {
            None => {},
            Some(earlier) => {
                return Err(
                    ManagementError::InvalidDefinition(
                        text7(
                            "order の Channel ",
                            child_id.as_str(),
                            " が親 ",
                            place_text(earlier).as_str(),
                            " と ",
                            parent_id.as_str(),
                            " に重複指定されています",
                        ),
                    ),
                );
            },
        }
        match channels.get(child_id) {
            None => {
                return Err(
                    ManagementError::InvalidDefinition(
                        text3("order.children の子 Channel ", child_id.as_str(), " が宣言されていません"),
                    ),
                );
            },
            Some(child) => validate_order_child(parent_id, child_id, child)?,
        }
        placed.insert(child_id.copy(), Some(parent_id.copy()));
        j += 1;
    }
    Ok(placed)
}

/// Checks an order against the declared roles and channels.
#[verifier::loop_isolation(false)]
pub fn validate_order(
    order: &Option<RawOrderDefinition>,
    roles: &OrderedMap<RoleLogicalId, RoleDefinition>,
    channels: &OrderedMap<ChannelLogicalId, ChannelDefinition>,
) -> (result: Result<(), ManagementError>)
    ensures
        seen(result) == accepted(order_fault(order.deep_view(), roles.deep_view(), channels.deep_view())),
{
    let order: &RawOrderDefinition = match order {
        None => {
            return Ok(());
        },
        Some(order) => order,
    };
    validate_order_roles(&order.roles, roles)?;
    validate_order_categories(&order.categories, channels)?;
    let mut placed: OrderedMap<ChannelLogicalId, Option<ChannelLogicalId>> = place_uncategorized(
        &order.uncategorized,
        channels,
    )?;
    let ghost wanted = order_children_fault(order.children.deep_view(), channels.deep_view(), 0, placed.deep_view());
    let mut i: usize = 0;
    while i < order.children.len()
        invariant
            i <= order.children.deep_view().len(),
            wanted == order_children_fault(
                order.children.deep_view(),
                channels.deep_view(),
                i as int,
                placed.deep_view(),
            ),
        decreases order.children.deep_view().len() - i,
    {
        let parent_id: &ChannelLogicalId = order.children.key_at(i);
        match channels.get(parent_id) {
            None => {
                return Err(
                    ManagementError::InvalidDefinition(
                        text3("order.children の親 Channel ", parent_id.as_str(), " が宣言されていません"),
                    ),
                );
            },
            Some(parent) => validate_order_category(parent_id, parent)?,
        }
        placed = place_children(parent_id, order.children.value_at(i), channels, placed)?;
        i += 1;
    }
    Ok(())
}

} // verus!
