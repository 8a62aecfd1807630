//! The plan of all changes of channels.

use vstd::prelude::*;
use vstd::string::*;

use crate::configuration::channel::{
    given_value, ChannelAttributes, ChannelAttributesView, ChannelDefinition, ChannelDefinitionView, ChannelKind,
    ChannelValue, OverwriteValue,
};
use crate::configuration::definition::{DefinitionFile, DefinitionView};
use crate::configuration::order::accepted;
use crate::configuration::permission::KnownPermission;
use crate::configuration::state::{find_holder, holder, MappingsView, StateFile, StateView};
use crate::domain::{ErrorView, ManagementError};
use crate::ids::{ChannelId, ChannelLogicalId};
use crate::ordered::{first_in, first_in_step, has_key, lookup, put, without, OrderedMap};
use crate::port::{
    ChannelCatalog, ChannelCatalogView, ChannelCreate, ChannelOverwrites, ChannelOverwritesView, ChannelSnapshot,
    ChannelSnapshotView,
};
use crate::resource::change::{
    display_nullable_string, display_quoted_string, join, joined, json_quoted, nullable_text_chars,
};
use crate::resource::channel::attributes::{
    attribute_changes, display_overwrite_value, nullable_number_chars, overwrite_value_chars, widened, AttributeChanges,
    AttributeChangesView,
};
use crate::resource::channel::create::{
    created_channel, desired_channel_create_with_catalog, parent_fault, validate_channel_parent, CreateDesired,
    CreateDesiredView,
};
use crate::resource::channel::order::{
    build_order_plan, channel_order_plan, OrderGroupPlan, OrderGroupPlanView, OrderPlan,
};
use crate::resource::channel::overwrites::{
    by_id, channels_by_id, desired_synced_overwrites, synced_overwrites, ActualChannels, ActualChannelsView,
};
use crate::resource::role::plan::texts_of;
use crate::text::{bool_chars, bool_text, decimal, decimal_text, text3, text4, text5};
use crate::value::{seen, Plain};

verus! {

/// What shall be done with a channel.
pub enum Change {
    Create,
    Update { discord_id: ChannelId, attributes: AttributeChanges },
    Release { discord_id: ChannelId },
    Delete { discord_id: ChannelId },
}

/// What a change of a channel holds.
pub enum ChangeView {
    Create,
    Update { discord_id: u64, attributes: AttributeChangesView },
    Release { discord_id: u64 },
    Delete { discord_id: u64 },
}

impl DeepView for Change {
    type V = ChangeView;

    open spec fn deep_view(&self) -> ChangeView {
        match self {
            Change::Create => ChangeView::Create,
            Change::Update { discord_id, attributes } => ChangeView::Update {
                discord_id: discord_id.deep_view(),
                attributes: attributes.deep_view(),
            },
            Change::Release { discord_id } => ChangeView::Release { discord_id: discord_id.deep_view() },
            Change::Delete { discord_id } => ChangeView::Delete { discord_id: discord_id.deep_view() },
        }
    }
}

impl Plain for Change {
    fn copy(&self) -> (copied: Self) {
        match self {
            Change::Create => Change::Create,
            Change::Update { discord_id, attributes } => Change::Update {
                discord_id: *discord_id,
                attributes: attributes.copy(),
            },
            Change::Release { discord_id } => Change::Release { discord_id: *discord_id },
            Change::Delete { discord_id } => Change::Delete { discord_id: *discord_id },
        }
    }

    fn same(&self, other: &Self) -> (equal: bool) {
        match (self, other) {
            (Change::Create, Change::Create) => true,
            (
                Change::Update { discord_id, attributes },
                Change::Update { discord_id: other_id, attributes: other_attributes },
            ) => discord_id.get() == other_id.get() && attributes.same(other_attributes),
            (Change::Release { discord_id }, Change::Release { discord_id: other_id }) => discord_id.get()
                == other_id.get(),
            (Change::Delete { discord_id }, Change::Delete { discord_id: other_id }) => discord_id.get()
                == other_id.get(),
            _ => false,
        }
    }
}

impl Change {
    /// Whether attributes are changed.
    pub fn is_update(&self) -> (answer: bool)
        ensures
            answer == (self.deep_view() is Update),
    {
        matches!(self, Change::Update { .. })
    }

    /// Whether the channel is deleted.
    pub fn is_delete(&self) -> (answer: bool)
        ensures
            answer == (self.deep_view() is Delete),
    {
        matches!(self, Change::Delete { .. })
    }

    /// The channel that is changed, unless it is still to be created.
    pub fn discord_id(&self) -> (id: Option<ChannelId>)
        ensures
            id.deep_view() == match self.deep_view() {
                ChangeView::Create => None,
                ChangeView::Update { discord_id, .. } => Some(discord_id),
                ChangeView::Release { discord_id } => Some(discord_id),
                ChangeView::Delete { discord_id } => Some(discord_id),
            },
    {
        match self {
            Change::Create => None,
            Change::Update { discord_id, .. } => Some(*discord_id),
            Change::Release { discord_id } => Some(*discord_id),
            Change::Delete { discord_id } => Some(*discord_id),
        }
    }

    /// The changes of attributes, if they are changed.
    pub fn attributes(&self) -> (attributes: Option<&AttributeChanges>)
        ensures
            attributes.deep_view() == match self.deep_view() {
                ChangeView::Update { attributes, .. } => Some(attributes),
                _ => None,
            },
    {
        match self {
            Change::Update { attributes, .. } => Some(attributes),
            _ => None,
        }
    }
}

/// All changes of channels.
pub struct Plan {
    pub changes: OrderedMap<ChannelLogicalId, Change>,
    pub create_desired: OrderedMap<ChannelLogicalId, CreateDesired>,
    pub order: Option<OrderPlan>,
}

/// What a plan holds.
pub struct PlanView {
    pub changes: Seq<(Seq<char>, ChangeView)>,
    pub create_desired: Seq<(Seq<char>, CreateDesiredView)>,
    pub order: Option<Seq<OrderGroupPlanView>>,
}

impl DeepView for Plan {
    type V = PlanView;

    open spec fn deep_view(&self) -> PlanView {
        PlanView {
            changes: self.changes.deep_view(),
            create_desired: self.create_desired.deep_view(),
            order: self.order.deep_view(),
        }
    }
}

impl Plain for Plan {
    fn copy(&self) -> (copied: Self) {
        Plan { changes: self.changes.copy(), create_desired: self.create_desired.copy(), order: self.order.copy() }
    }

    fn same(&self, other: &Self) -> (equal: bool) {
        self.changes.same(&other.changes) && self.create_desired.same(&other.create_desired) && self.order.same(
            &other.order,
        )
    }
}

/// Whether a change of some kind is among changes.
pub open spec fn has_deletion(changes: Seq<(Seq<char>, ChangeView)>) -> bool {
    exists|i: int| 0 <= i < changes.len() && (#[trigger] changes[i]).1 is Delete
}

/// Whether all changes are changes of attributes.
pub open spec fn only_updates(changes: Seq<(Seq<char>, ChangeView)>) -> bool {
    forall|i: int| 0 <= i < changes.len() ==> (#[trigger] changes[i]).1 is Update
}

impl PlanView {
    /// A plan without changes.
    pub open spec fn none() -> PlanView {
        PlanView { changes: Seq::empty(), create_desired: Seq::empty(), order: None }
    }

    /// Whether nothing changes.
    pub open spec fn is_empty(self) -> bool {
        self.changes.len() == 0 && self.order is None
    }

    /// The plan with one more change.
    pub open spec fn with(self, id: Seq<char>, change: ChangeView) -> PlanView {
        PlanView { changes: put::<ChannelLogicalId, ChangeView>(self.changes, id, change), ..self }
    }

    /// The plan with one more channel to be created.
    pub open spec fn with_create(self, id: Seq<char>, desired: CreateDesiredView) -> PlanView {
        PlanView {
            changes: put::<ChannelLogicalId, ChangeView>(self.changes, id, ChangeView::Create),
            create_desired: put::<ChannelLogicalId, CreateDesiredView>(self.create_desired, id, desired),
            order: self.order,
        }
    }

    /// The plan without the change of a channel.
    pub open spec fn without(self, id: Seq<char>) -> PlanView {
        PlanView {
            changes: without(self.changes, id),
            create_desired: without(self.create_desired, id),
            order: self.order,
        }
    }

    /// The plan as it is shown.
    pub open spec fn chars(self) -> Seq<char> {
        if self.is_empty() {
            "変更はありません。\n"@
        } else {
            "Channel の変更計画\n\n"@ + changes_chars(self.changes, self.create_desired) + match self.order {
                None => Seq::empty(),
                Some(groups) => groups_chars(groups),
            }
        }
    }
}

/// How new orders of channels are shown.
pub open spec fn groups_chars(groups: Seq<OrderGroupPlanView>) -> Seq<char>
    decreases groups.len(),
{
    if groups.len() == 0 {
        Seq::empty()
    } else {
        groups_chars(groups.drop_last()) + "- Channel の相対順序: "@ + joined(groups.last().requested, " -> "@)
            + "\n"@
    }
}

/// The known permissions of an overwrite, each as it is shown.
pub open spec fn value_texts(known: Seq<(Seq<char>, OverwriteValue)>) -> Seq<Seq<char>> {
    known.map_values(
        |entry: (Seq<char>, OverwriteValue)| entry.0 + ": "@ + overwrite_value_chars(entry.1),
    )
}

/// The overwrites of a channel, each as it is shown. One without known permissions is not shown.
pub open spec fn overwrite_texts(overwrites: ChannelOverwritesView) -> Seq<Seq<char>>
    decreases overwrites.len(),
{
    if overwrites.len() == 0 {
        Seq::empty()
    } else {
        let rest = overwrite_texts(overwrites.drop_last());
        let last = overwrites.last();
        if last.1.known.len() == 0 {
            rest
        } else {
            rest.push(last.0.chars() + ": {"@ + joined(value_texts(last.1.known), ", "@) + "}"@)
        }
    }
}

/// How the parent of a channel that shall be created is shown.
pub open spec fn parent_chars(desired: CreateDesiredView) -> Seq<char> {
    match (desired.parent_logical_id, desired.payload.parent_id) {
        (Some(logical_id), Some(discord_id)) => logical_id + " ("@ + decimal(discord_id as nat) + ")"@,
        (Some(logical_id), None) => logical_id,
        (None, Some(discord_id)) => decimal(discord_id as nat),
        (None, None) => "None"@,
    }
}

/// How the attributes of a text channel that shall be created are shown.
pub open spec fn text_attributes_chars(desired: CreateDesiredView) -> Seq<char> {
    "    parent: "@ + parent_chars(desired) + "\n    topic: "@ + nullable_text_chars(desired.payload.topic)
        + "\n    nsfw: "@ + bool_chars(desired.payload.nsfw) + "\n    slowmode_seconds: "@ + decimal(
        desired.payload.slowmode_seconds as nat,
    ) + "\n    default_auto_archive_minutes: "@ + nullable_number_chars(
        widened(desired.payload.default_auto_archive_minutes),
    ) + "\n    default_thread_slowmode_seconds: "@ + decimal(
        desired.payload.default_thread_slowmode_seconds as nat,
    ) + "\n"@
}

/// How a channel that shall be created is shown.
pub open spec fn create_chars(desired: CreateDesiredView) -> Seq<char> {
    let texts = overwrite_texts(desired.payload.overwrites);
    "  desired:\n    type: "@ + desired.payload.kind.chars() + "\n    name: "@ + json_quoted(desired.payload.name)
        + "\n"@ + (if desired.payload.kind == ChannelKind::Text {
        text_attributes_chars(desired)
    } else {
        Seq::empty()
    }) + (if texts.len() == 0 {
        Seq::empty()
    } else {
        "    overwrites: {"@ + joined(texts, ", "@) + "}\n"@
    })
}

/// How a change of a channel is shown.
pub open spec fn change_chars(
    id: Seq<char>,
    change: ChangeView,
    create_desired: Seq<(Seq<char>, CreateDesiredView)>,
) -> Seq<char> {
    match change {
        ChangeView::Create => "- 新規作成: "@ + id + "\n"@ + match lookup(create_desired, id) {
            Some(desired) => create_chars(desired),
            None => Seq::empty(),
        },
        ChangeView::Update { discord_id, attributes } => attributes.lines(id, decimal(discord_id as nat)),
        ChangeView::Release { discord_id } => "- 管理解除: "@ + id + " ("@ + decimal(discord_id as nat) + ")\n"@,
        ChangeView::Delete { discord_id } => "- 削除: "@ + id + " ("@ + decimal(discord_id as nat)
            + ")\n  影響: Channel と配下の投稿・Thread が失われる可能性があります。\n"@,
    }
}

/// How changes of channels are shown.
pub open spec fn changes_chars(
    changes: Seq<(Seq<char>, ChangeView)>,
    create_desired: Seq<(Seq<char>, CreateDesiredView)>,
) -> Seq<char>
    decreases changes.len(),
{
    if changes.len() == 0 {
        Seq::empty()
    } else {
        changes_chars(changes.drop_last(), create_desired) + change_chars(
            changes.last().0,
            changes.last().1,
            create_desired,
        )
    }
}

fn render_groups(groups: &Vec<OrderGroupPlan>) -> (text: String)
    ensures
        text@ == groups_chars(groups.deep_view()),
{
    let ghost all = groups.deep_view();
    let mut text: String = String::new();
    let mut i: usize = 0;
    assert(all.take(0) =~= Seq::empty());
    while i < groups.len()
        invariant
            i <= groups@.len(),
            all == groups.deep_view(),
            text@ == groups_chars(all.take(i as int)),
        decreases groups@.len() - i,
    {
        text.append("- Channel の相対順序: ");
        text.append(join(&texts_of(&groups[i].requested), " -> ").as_str());
        text.append("\n");
        proof {
            let next = all.take(i + 1);
            assert(next.drop_last() =~= all.take(i as int));
            assert(next.last() == groups@[i as int].deep_view());
        }
        i += 1;
    }
    assert(all.take(i as int) =~= all);
    text
}

fn list_values(known: &OrderedMap<KnownPermission, OverwriteValue>) -> (texts: Vec<String>)
    ensures
        texts.deep_view() == value_texts(known.deep_view()),
{
    let mut texts: Vec<String> = Vec::new();
    let mut i: usize = 0;
    while i < known.len()
        invariant
            i <= known.deep_view().len(),
            texts@.len() == i,
            forall|k: int| 0 <= k < i ==> (#[trigger] texts@[k])@ == value_texts(known.deep_view())[k],
        decreases known.deep_view().len() - i,
    {
        texts.push(text3(known.key_at(i).as_str(), ": ", display_overwrite_value(*known.value_at(i))));
        i += 1;
    }
    assert(texts.deep_view() =~= value_texts(known.deep_view()));
    texts
}

fn list_overwrites(overwrites: &ChannelOverwrites) -> (texts: Vec<String>)
    ensures
        texts.deep_view() == overwrite_texts(overwrites.deep_view()),
{
    let ghost all = overwrites.deep_view();
    let mut texts: Vec<String> = Vec::new();
    let mut i: usize = 0;
    assert(all.take(0) =~= Seq::empty());
    assert(texts.deep_view() =~= overwrite_texts(all.take(0)));
    while i < overwrites.len()
        invariant
            i <= all.len(),
            all == overwrites.deep_view(),
            texts.deep_view() == overwrite_texts(all.take(i as int)),
        decreases all.len() - i,
    {
        let ghost before = texts.deep_view();
        proof {
            assert(all.take(i + 1).drop_last() =~= all.take(i as int));
            assert(all.take(i + 1).last() == all[i as int]);
        }
        let values: Vec<String> = list_values(&overwrites.value_at(i).known);
        if !overwrites.value_at(i).known.is_empty() {
            let text: String = text4(
                overwrites.key_at(i).to_text().as_str(),
                ": {",
                join(&values, ", ").as_str(),
                "}",
            );
            texts.push(text);
            assert(texts.deep_view() =~= before.push(text@));
        }
        i += 1;
    }
    assert(all.take(i as int) =~= all);
    texts
}

fn render_text_attributes(desired: &CreateDesired) -> (text: String)
    ensures
        text@ == text_attributes_chars(desired.deep_view()),
{
    let payload: &ChannelCreate = &desired.payload;
    let parent: String = match (&desired.parent_logical_id, payload.parent_id) {
        (Some(logical_id), Some(discord_id)) => text4(
            logical_id.as_str(),
            " (",
            discord_id.to_text().as_str(),
            ")",
        ),
        (Some(logical_id), None) => logical_id.as_str().to_owned(),
        (None, Some(discord_id)) => discord_id.to_text(),
        (None, None) => "None".to_owned(),
    };
    let minutes: String = match payload.default_auto_archive_minutes {
        Some(minutes) => decimal_text(minutes as u64),
        None => "None".to_owned(),
    };
    let mut text: String = text5(
        "    parent: ",
        parent.as_str(),
        "\n    topic: ",
        display_nullable_string(payload.topic.as_ref()).as_str(),
        "\n    nsfw: ",
    );
    text.append(bool_text(payload.nsfw));
    text.append("\n    slowmode_seconds: ");
    text.append(decimal_text(payload.slowmode_seconds as u64).as_str());
    text.append("\n    default_auto_archive_minutes: ");
    text.append(minutes.as_str());
    text.append("\n    default_thread_slowmode_seconds: ");
    text.append(decimal_text(payload.default_thread_slowmode_seconds as u64).as_str());
    text.append("\n");
    text
}

fn render_create_attributes(desired: &CreateDesired) -> (text: String)
    ensures
        text@ == create_chars(desired.deep_view()),
{
    let payload: &ChannelCreate = &desired.payload;
    let mut text: String = text5(
        "  desired:\n    type: ",
        payload.kind.as_str(),
        "\n    name: ",
        display_quoted_string(payload.name.as_str()).as_str(),
        "\n",
    );
    let attributes: String = if payload.kind == ChannelKind::Text {
        render_text_attributes(desired)
    } else {
        String::new()
    };
    text.append(attributes.as_str());
    let overwrites: Vec<String> = list_overwrites(&payload.overwrites);
    let shown: String = if overwrites.is_empty() {
        String::new()
    } else {
        text3("    overwrites: {", join(&overwrites, ", ").as_str(), "}\n")
    };
    text.append(shown.as_str());
    text
}

fn render_change(
    logical_id: &ChannelLogicalId,
    change: &Change,
    create_desired: &OrderedMap<ChannelLogicalId, CreateDesired>,
) -> (text: String)
    ensures
        text@ == change_chars(logical_id.deep_view(), change.deep_view(), create_desired.deep_view()),
{
    let id: &str = logical_id.as_str();
    match change {
        Change::Create => {
            let mut text: String = text3("- 新規作成: ", id, "\n");
            let desired: String = match create_desired.get(logical_id) {
                Some(desired) => render_create_attributes(desired),
                None => String::new(),
            };
            text.append(desired.as_str());
            text
        },
        Change::Update { discord_id, attributes } => {
            let mut text: String = String::new();
            attributes.render(id, discord_id.to_text().as_str(), &mut text);
            assert(text@ =~= attributes.deep_view().lines(id@, decimal(discord_id.deep_view() as nat)));
            text
        },
        Change::Release { discord_id } => text5("- 管理解除: ", id, " (", discord_id.to_text().as_str(), ")\n"),
        Change::Delete { discord_id } => text5(
            "- 削除: ",
            id,
            " (",
            discord_id.to_text().as_str(),
            ")\n  影響: Channel と配下の投稿・Thread が失われる可能性があります。\n",
        ),
    }
}

fn render_changes(
    changes: &OrderedMap<ChannelLogicalId, Change>,
    create_desired: &OrderedMap<ChannelLogicalId, CreateDesired>,
) -> (text: String)
    ensures
        text@ == changes_chars(changes.deep_view(), create_desired.deep_view()),
{
    let ghost all = changes.deep_view();
    let mut text: String = String::new();
    let mut i: usize = 0;
    assert(all.take(0) =~= Seq::empty());
    while i < changes.len()
        invariant
            i <= all.len(),
            all == changes.deep_view(),
            text@ == changes_chars(all.take(i as int), create_desired.deep_view()),
        decreases all.len() - i,
    {
        text.append(render_change(changes.key_at(i), changes.value_at(i), create_desired).as_str());
        proof {
            let next = all.take(i + 1);
            assert(next.drop_last() =~= all.take(i as int));
            assert(next.last() == all[i as int]);
        }
        i += 1;
    }
    assert(all.take(i as int) =~= all);
    text
}

impl Plan {
    /// A plan without changes.
    pub fn none() -> (plan: Self)
        ensures
            plan.deep_view() == PlanView::none(),
    {
        Plan { changes: OrderedMap::new(), create_desired: OrderedMap::new(), order: None }
    }

    /// The number of changes, without the order.
    pub fn len(&self) -> (n: usize)
        ensures
            n == self.deep_view().changes.len(),
    {
        self.changes.len()
    }

    /// Whether nothing changes.
    pub fn is_empty(&self) -> (empty: bool)
        ensures
            empty == self.deep_view().is_empty(),
    {
        self.changes.is_empty() && self.order.is_none()
    }

    /// The new order, if there is one.
    pub fn order(&self) -> (order: Option<&OrderPlan>)
        ensures
            order.deep_view() == self.deep_view().order,
    {
        self.order.as_ref()
    }

    /// Whether there is a new order.
    pub fn has_order(&self) -> (answer: bool)
        ensures
            answer == (self.deep_view().order is Some),
    {
        self.order.is_some()
    }

    /// The change of a channel, if there is one.
    pub fn get(&self, logical_id: &ChannelLogicalId) -> (change: Option<&Change>)
        ensures
            change.deep_view() == lookup(self.deep_view().changes, logical_id.deep_view()),
    {
        self.changes.get(logical_id)
    }

    /// Whether a channel is deleted.
    pub fn contains_deletions(&self) -> (answer: bool)
        ensures
            answer == has_deletion(self.deep_view().changes),
    {
        let ghost all = self.changes.deep_view();
        let mut i: usize = 0;
        while i < self.changes.len()
            invariant
                i <= all.len(),
                all == self.changes.deep_view(),
                forall|k: int| 0 <= k < i ==> !((#[trigger] all[k]).1 is Delete),
            decreases all.len() - i,
        {
            if self.changes.value_at(i).is_delete() {
                assert(all[i as int].1 is Delete);
                return true;
            }
            i += 1;
        }
        false
    }

    /// Whether all changes are changes of attributes.
    pub fn only_updates(&self) -> (answer: bool)
        ensures
            answer == only_updates(self.deep_view().changes),
    {
        let ghost all = self.changes.deep_view();
        let mut i: usize = 0;
        while i < self.changes.len()
            invariant
                i <= all.len(),
                all == self.changes.deep_view(),
                forall|k: int| 0 <= k < i ==> (#[trigger] all[k]).1 is Update,
            decreases all.len() - i,
        {
            if !self.changes.value_at(i).is_update() {
                assert(!(all[i as int].1 is Update));
                return false;
            }
            i += 1;
        }
        true
    }

    /// Adds a change.
    pub fn insert(&mut self, logical_id: ChannelLogicalId, change: Change)
        ensures
            final(self).deep_view() == old(self).deep_view().with(logical_id.deep_view(), change.deep_view()),
    {
        self.changes.insert(logical_id, change);
    }

    /// Adds a channel to be created.
    pub fn insert_create(&mut self, logical_id: ChannelLogicalId, desired: CreateDesired)
        ensures
            final(self).deep_view() == old(self).deep_view().with_create(
                logical_id.deep_view(),
                desired.deep_view(),
            ),
    {
        self.changes.insert(logical_id.copy(), Change::Create);
        self.create_desired.insert(logical_id, desired);
    }

    /// Takes out the change of a channel.
    pub fn remove(&mut self, logical_id: &ChannelLogicalId)
        ensures
            final(self).deep_view() == old(self).deep_view().without(logical_id.deep_view()),
    {
        self.create_desired.remove(logical_id);
        self.changes.remove(logical_id);
    }

    /// The plan as it is shown.
    pub fn render(&self) -> (text: String)
        ensures
            text@ == self.deep_view().chars(),
    {
        if self.is_empty() {
            return "変更はありません。\n".to_owned();
        }
        let order: String = match &self.order {
            None => String::new(),
            Some(order) => render_groups(&order.groups),
        };
        text3(
            "Channel の変更計画\n\n",
            render_changes(&self.changes, &self.create_desired).as_str(),
            order.as_str(),
        )
    }
}

/// What shall be done with a declared channel.
pub enum ChannelStep {
    Nothing,
    Create(CreateDesired),
    Do(Change),
}

/// What the handling of a declared channel holds.
pub enum ChannelStepView {
    Nothing,
    Create(CreateDesiredView),
    Do(ChangeView),
}

impl DeepView for ChannelStep {
    type V = ChannelStepView;

    open spec fn deep_view(&self) -> ChannelStepView {
        match self {
            ChannelStep::Nothing => ChannelStepView::Nothing,
            ChannelStep::Create(desired) => ChannelStepView::Create(desired.deep_view()),
            ChannelStep::Do(change) => ChannelStepView::Do(change.deep_view()),
        }
    }
}

/// What is wrong with a channel in a category that shall be deleted: it is not
/// managed, or would stay there.
pub open spec fn category_child_fault(
    category: Seq<char>,
    child_id: u64,
    definition: DefinitionView,
    state: StateView,
) -> Option<ErrorView> {
    match holder(state.channels, child_id) {
        None => Some(
            ErrorView::InvalidState(
                "Category "@ + category + " の削除前に、管理外の子 Channel "@ + decimal(child_id as nat)
                    + " の移動または親解除を明示してください"@,
            ),
        ),
        Some(child) => match lookup(definition.channels, child) {
            None => Some(
                ErrorView::InvalidDefinition(
                    "Category "@ + category + " の削除前に子 Channel "@ + child
                        + " の移動または削除を明示してください"@,
                ),
            ),
            Some(ChannelDefinitionView::Absent) => None,
            Some(ChannelDefinitionView::Reference) => Some(
                ErrorView::InvalidDefinition(
                    "Category "@ + category + " の削除時、参照専用の子 Channel "@ + child
                        + " の移動または親解除が必要です"@,
                ),
            ),
            Some(ChannelDefinitionView::Managed { attributes }) => match attributes.parent {
                Some(ChannelValue::Clear) => None,
                Some(ChannelValue::Value(parent)) => if parent == category {
                    Some(stays_in_category(category, child))
                } else {
                    None
                },
                _ => Some(stays_in_category(category, child)),
            },
        },
    }
}

/// Why a category cannot be deleted: a channel would stay in it.
pub open spec fn stays_in_category(category: Seq<char>, child: Seq<char>) -> ErrorView {
    ErrorView::InvalidDefinition(
        "Category "@ + category + " の削除時、子 Channel "@ + child
            + " の parent を変更または clear してください"@,
    )
}

/// What is wrong with a channel of the guild, if it is in a category that shall be deleted.
pub open spec fn inside_category_fault(
    category: Seq<char>,
    category_id: u64,
    channel: ChannelSnapshotView,
    definition: DefinitionView,
    state: StateView,
) -> Option<ErrorView> {
    if channel.parent_id == Some(category_id) {
        category_child_fault(category, channel.id, definition, state)
    } else {
        None
    }
}

/// What is wrong with the channels in a category that shall be deleted.
pub open spec fn category_fault(
    category: Seq<char>,
    category_id: u64,
    definition: DefinitionView,
    state: StateView,
    actual: ActualChannelsView,
) -> Option<ErrorView> {
    first_in(
        actual,
        |id: u64, channel: ChannelSnapshotView|
            inside_category_fault(category, category_id, channel, definition, state),
    )
}

/// What shall be done with a channel that a definition wants to be deleted.
pub open spec fn absent_step(
    id: Seq<char>,
    definition: DefinitionView,
    state: StateView,
    actual: ActualChannelsView,
) -> Result<ChannelStepView, ErrorView> {
    match lookup(state.channels, id) {
        None => Ok(ChannelStepView::Nothing),
        Some(discord_id) => match lookup(actual, discord_id) {
            None => Ok(ChannelStepView::Do(ChangeView::Delete { discord_id })),
            Some(current) => if !current.manageable {
                Err(
                    ErrorView::InvalidState(
                        "Channel "@ + id + " の Snowflake "@ + decimal(discord_id as nat)
                            + " は Bot が管理できないため削除できません"@,
                    ),
                )
            } else if current.kind == ChannelKind::Category {
                match category_fault(id, discord_id, definition, state, actual) {
                    Some(error) => Err(error),
                    None => Ok(ChannelStepView::Do(ChangeView::Delete { discord_id })),
                }
            } else {
                Ok(ChannelStepView::Do(ChangeView::Delete { discord_id }))
            },
        },
    }
}

/// Why a channel that is bound is missed.
pub open spec fn vanished(id: Seq<char>, discord_id: u64) -> ErrorView {
    ErrorView::InvalidState(
        "Channel "@ + id + " の Snowflake "@ + decimal(discord_id as nat)
            + " が Guild から予期せず消失しています"@,
    )
}

/// What shall be done with a channel that is not bound yet.
pub open spec fn create_step(
    id: Seq<char>,
    attributes: ChannelAttributesView,
    definition: DefinitionView,
    state: StateView,
    actual: ActualChannelsView,
    can_manage_roles: bool,
) -> Result<ChannelStepView, ErrorView> {
    match created_channel(id, attributes, definition, state, actual) {
        Err(error) => Err(error),
        Ok(payload) => if !can_manage_roles && payload.overwrites.len() > 0 {
            Err(
                ErrorView::ChannelPermissionDenied(
                    "Channel の権限上書きには Bot の MANAGE_ROLES 権限が必要です"@,
                ),
            )
        } else {
            Ok(
                ChannelStepView::Create(
                    CreateDesiredView { payload, parent_logical_id: given_value(attributes.parent) },
                ),
            )
        },
    }
}

/// What shall be done with a channel that is bound.
pub open spec fn update_step(
    id: Seq<char>,
    discord_id: u64,
    kind: ChannelKind,
    attributes: ChannelAttributesView,
    definition: DefinitionView,
    state: StateView,
    actual: ActualChannelsView,
    can_manage_roles: bool,
) -> Result<ChannelStepView, ErrorView> {
    match lookup(actual, discord_id) {
        None => Err(vanished(id, discord_id)),
        Some(current) => if current.kind != kind {
            Err(
                ErrorView::InvalidDefinition(
                    "Channel "@ + id + " の種類変更はサポートしていません（"@ + current.kind.chars() + " -> "@
                        + kind.chars() + "）"@,
                ),
            )
        } else if !current.manageable {
            Err(
                ErrorView::InvalidState(
                    "Channel "@ + id + " の Snowflake "@ + decimal(discord_id as nat)
                        + " は Bot が管理できません"@,
                ),
            )
        } else {
            match synced_overwrites(id, attributes, definition, state, actual) {
                Err(error) => Err(error),
                Ok(synced) => match attribute_changes(
                    id,
                    current,
                    attributes,
                    definition,
                    state,
                    can_manage_roles,
                    synced,
                ) {
                    Err(error) => Err(error),
                    Ok(None) => Ok(ChannelStepView::Nothing),
                    Ok(Some(changes)) => Ok(
                        ChannelStepView::Do(ChangeView::Update { discord_id, attributes: changes }),
                    ),
                },
            }
        },
    }
}

/// What shall be done with a declared channel, or why it cannot be.
pub open spec fn channel_step(
    id: Seq<char>,
    channel: ChannelDefinitionView,
    definition: DefinitionView,
    state: StateView,
    actual: ActualChannelsView,
    can_manage_roles: bool,
) -> Result<ChannelStepView, ErrorView> {
    match channel {
        ChannelDefinitionView::Absent => absent_step(id, definition, state, actual),
        ChannelDefinitionView::Reference => match lookup(state.channels, id) {
            None => Err(ErrorView::InvalidState("Channel "@ + id + " の対応がありません"@)),
            Some(discord_id) => if has_key(actual, discord_id) {
                Ok(ChannelStepView::Nothing)
            } else {
                Err(vanished(id, discord_id))
            },
        },
        ChannelDefinitionView::Managed { attributes } => match attributes.kind {
            None => Err(
                ErrorView::InvalidDefinition("管理対象 Channel "@ + id + " には type が必要です"@),
            ),
            Some(kind) => match attributes.kind_fault(id) {
                Some(error) => Err(error),
                None => match parent_fault(id, kind, attributes.parent, definition, state, actual) {
                    Some(error) => Err(error),
                    None => match lookup(state.channels, id) {
                        None => create_step(id, attributes, definition, state, actual, can_manage_roles),
                        Some(discord_id) => update_step(
                            id,
                            discord_id,
                            kind,
                            attributes,
                            definition,
                            state,
                            actual,
                            can_manage_roles,
                        ),
                    },
                },
            },
        },
    }
}

impl PlanView {
    /// The plan after a declared channel was handled.
    pub open spec fn after(self, id: Seq<char>, step: ChannelStepView) -> PlanView {
        match step {
            ChannelStepView::Nothing => self,
            ChannelStepView::Create(desired) => self.with_create(id, desired),
            ChannelStepView::Do(change) => self.with(id, change),
        }
    }
}

/// The plan after the declared channels from a place on were handled.
pub open spec fn with_declared(
    plan: PlanView,
    channels: Seq<(Seq<char>, ChannelDefinitionView)>,
    i: int,
    definition: DefinitionView,
    state: StateView,
    actual: ActualChannelsView,
    can_manage_roles: bool,
) -> Result<PlanView, ErrorView>
    decreases channels.len() - i,
{
    if i < 0 || i >= channels.len() {
        Ok(plan)
    } else {
        match channel_step(channels[i].0, channels[i].1, definition, state, actual, can_manage_roles) {
            Err(error) => Err(error),
            Ok(step) => with_declared(
                plan.after(channels[i].0, step),
                channels,
                i + 1,
                definition,
                state,
                actual,
                can_manage_roles,
            ),
        }
    }
}

/// The plan with the bound channels from a place on released that are not declared any more.
pub open spec fn with_released(
    plan: PlanView,
    bound: MappingsView,
    i: int,
    declared: Seq<(Seq<char>, ChannelDefinitionView)>,
) -> PlanView
    decreases bound.len() - i,
{
    if i < 0 || i >= bound.len() {
        plan
    } else if has_key(declared, bound[i].0) {
        with_released(plan, bound, i + 1, declared)
    } else {
        with_released(
            plan.with(bound[i].0, ChangeView::Release { discord_id: bound[i].1 }),
            bound,
            i + 1,
            declared,
        )
    }
}

/// The plan that a definition and a state ask for in a guild, or why there is none.
pub open spec fn channel_plan(
    definition: DefinitionView,
    state: StateView,
    catalog: ChannelCatalogView,
    can_manage_roles: bool,
) -> Result<PlanView, ErrorView> {
    match with_declared(
        PlanView::none(),
        definition.channels,
        0,
        definition,
        state,
        by_id(catalog.channels),
        can_manage_roles,
    ) {
        Err(error) => Err(error),
        Ok(plan) => match channel_order_plan(definition, state, catalog) {
            Err(error) => Err(error),
            Ok(order) => Ok(
                PlanView { order, ..with_released(plan, state.channels, 0, definition.channels) },
            ),
        },
    }
}

fn validate_category_child(
    category: &ChannelLogicalId,
    child_id: ChannelId,
    definition: &DefinitionFile,
    state: &StateFile,
) -> (result: Result<(), ManagementError>)
    ensures
        seen(result) == accepted(
            category_child_fault(
                category.deep_view(),
                child_id.deep_view(),
                definition.deep_view(),
                state.deep_view(),
            ),
        ),
{
    proof {
        assert(state.channels.deep_view().take(state.channels.deep_view().len() as int)
            =~= state.channels.deep_view());
    }
    let child: &ChannelLogicalId = match find_holder(&state.channels, child_id.get(), state.channels.len()) {
        None => {
            return Err(
                ManagementError::InvalidState(
                    text5(
                        "Category ",
                        category.as_str(),
                        " の削除前に、管理外の子 Channel ",
                        child_id.to_text().as_str(),
                        " の移動または親解除を明示してください",
                    ),
                ),
            );
        },
        Some(child) => child,
    };
    let declared: &ChannelDefinition = match definition.channels.get(child) {
        None => {
            return Err(
                ManagementError::InvalidDefinition(
                    text5(
                        "Category ",
                        category.as_str(),
                        " の削除前に子 Channel ",
                        child.as_str(),
                        " の移動または削除を明示してください",
                    ),
                ),
            );
        },
        Some(declared) => declared,
    };
    let leaves: bool = match declared {
        ChannelDefinition::Absent => true,
        ChannelDefinition::Reference => {
            return Err(
                ManagementError::InvalidDefinition(
                    text5(
                        "Category ",
                        category.as_str(),
                        " の削除時、参照専用の子 Channel ",
                        child.as_str(),
                        " の移動または親解除が必要です",
                    ),
                ),
            );
        },
        ChannelDefinition::Managed { attributes } => match &attributes.parent {
            Some(ChannelValue::Clear) => true,
            Some(ChannelValue::Value(parent)) => !parent.same(category),
            _ => false,
        },
    };
    if leaves {
        Ok(())
    } else {
        Err(
            ManagementError::InvalidDefinition(
                text5(
                    "Category ",
                    category.as_str(),
                    " の削除時、子 Channel ",
                    child.as_str(),
                    " の parent を変更または clear してください",
                ),
            ),
        )
    }
}

/// Checks the channels in a category that shall be deleted.
#[verifier::loop_isolation(false)]
pub fn validate_category_children(
    category: &ChannelLogicalId,
    category_id: ChannelId,
    definition: &DefinitionFile,
    state: &StateFile,
    actual: &ActualChannels,
) -> (result: Result<(), ManagementError>)
    ensures
        seen(result) == accepted(
            category_fault(
                category.deep_view(),
                category_id.deep_view(),
                definition.deep_view(),
                state.deep_view(),
                actual.deep_view(),
            ),
        ),
{
    let ghost name = category.deep_view();
    let ghost id = category_id.deep_view();
    let ghost def = definition.deep_view();
    let ghost st = state.deep_view();
    let ghost all = actual.deep_view();
    let ghost check = |key: u64, channel: ChannelSnapshotView| inside_category_fault(name, id, channel, def, st);
    let mut i: usize = 0;
    assert(all.skip(0) =~= all);
    while i < actual.len()
        invariant
            i <= all.len(),
            first_in(all, check) == first_in(all.skip(i as int), check),
        decreases all.len() - i,
    {
        proof {
            first_in_step(all, check, i as int);
        }
        let channel: &ChannelSnapshot = actual.value_at(i);
        let inside: bool = match channel.parent_id {
            Some(parent_id) => parent_id.get() == category_id.get(),
            None => false,
        };
        if inside {
            validate_category_child(category, channel.id, definition, state)?;
        }
        i += 1;
    }
    Ok(())
}

/// What shall be done with a channel that a definition wants to be deleted.
pub fn plan_absent_channel(
    logical_id: &ChannelLogicalId,
    state: &StateFile,
    actual: &ActualChannels,
    definition: &DefinitionFile,
) -> (result: Result<ChannelStep, ManagementError>)
    ensures
        seen(result) == absent_step(
            logical_id.deep_view(),
            definition.deep_view(),
            state.deep_view(),
            actual.deep_view(),
        ),
{
    let discord_id: ChannelId = match state.channels.get(logical_id) {
        None => {
            return Ok(ChannelStep::Nothing);
        },
        Some(discord_id) => *discord_id,
    };
    match actual.get(&discord_id) {
        None => {},
        Some(current) => {
            if !current.manageable {
                return Err(
                    ManagementError::InvalidState(
                        text5(
                            "Channel ",
                            logical_id.as_str(),
                            " の Snowflake ",
                            discord_id.to_text().as_str(),
                            " は Bot が管理できないため削除できません",
                        ),
                    ),
                );
            }
            if current.kind == ChannelKind::Category {
                validate_category_children(logical_id, discord_id, definition, state, actual)?;
            }
        },
    }
    Ok(ChannelStep::Do(Change::Delete { discord_id }))
}

fn vanished_error(logical_id: &ChannelLogicalId, discord_id: ChannelId) -> (error: ManagementError)
    ensures
        error.deep_view() == vanished(logical_id.deep_view(), discord_id.deep_view()),
{
    ManagementError::InvalidState(
        text5(
            "Channel ",
            logical_id.as_str(),
            " の Snowflake ",
            discord_id.to_text().as_str(),
            " が Guild から予期せず消失しています",
        ),
    )
}

fn plan_create(
    logical_id: &ChannelLogicalId,
    attributes: &ChannelAttributes,
    definition: &DefinitionFile,
    state: &StateFile,
    actual: &ActualChannels,
    can_manage_roles: bool,
) -> (result: Result<ChannelStep, ManagementError>)
    ensures
        seen(result) == create_step(
            logical_id.deep_view(),
            attributes.deep_view(),
            definition.deep_view(),
            state.deep_view(),
            actual.deep_view(),
            can_manage_roles,
        ),
{
    let payload: ChannelCreate = desired_channel_create_with_catalog(
        attributes,
        logical_id,
        state,
        definition,
        actual,
    )?;
    if !can_manage_roles && !payload.overwrites.is_empty() {
        return Err(
            ManagementError::ChannelPermissionDenied(
                "Channel の権限上書きには Bot の MANAGE_ROLES 権限が必要です".to_owned(),
            ),
        );
    }
    let parent_logical_id: Option<ChannelLogicalId> = match &attributes.parent {
        Some(ChannelValue::Value(parent)) => Some(parent.copy()),
        _ => None,
    };
    Ok(ChannelStep::Create(CreateDesired { payload, parent_logical_id }))
}

fn plan_update(
    logical_id: &ChannelLogicalId,
    discord_id: ChannelId,
    kind: ChannelKind,
    attributes: &ChannelAttributes,
    definition: &DefinitionFile,
    state: &StateFile,
    actual: &ActualChannels,
    can_manage_roles: bool,
) -> (result: Result<ChannelStep, ManagementError>)
    ensures
        seen(result) == update_step(
            logical_id.deep_view(),
            discord_id.deep_view(),
            kind,
            attributes.deep_view(),
            definition.deep_view(),
            state.deep_view(),
            actual.deep_view(),
            can_manage_roles,
        ),
{
    let current: &ChannelSnapshot = match actual.get(&discord_id) {
        None => {
            return Err(vanished_error(logical_id, discord_id));
        },
        Some(current) => current,
    };
    if current.kind != kind {
        let mut text: String = text5(
            "Channel ",
            logical_id.as_str(),
            " の種類変更はサポートしていません（",
            current.kind.as_str(),
            " -> ",
        );
        text.append(kind.as_str());
        text.append("）");
        return Err(ManagementError::InvalidDefinition(text));
    }
    if !current.manageable {
        return Err(
            ManagementError::InvalidState(
                text5(
                    "Channel ",
                    logical_id.as_str(),
                    " の Snowflake ",
                    discord_id.to_text().as_str(),
                    " は Bot が管理できません",
                ),
            ),
        );
    }
    let synced: Option<ChannelOverwrites> = desired_synced_overwrites(
        logical_id,
        attributes,
        definition,
        state,
        actual,
    )?;
    match AttributeChanges::between(
        logical_id,
        current,
        attributes,
        definition,
        state,
        can_manage_roles,
        synced,
    )? {
        None => Ok(ChannelStep::Nothing),
        Some(attributes) => Ok(ChannelStep::Do(Change::Update { discord_id, attributes })),
    }
}

/// What shall be done with a declared channel.
pub fn plan_channel(
    logical_id: &ChannelLogicalId,
    channel: &ChannelDefinition,
    definition: &DefinitionFile,
    state: &StateFile,
    actual: &ActualChannels,
    can_manage_roles: bool,
) -> (result: Result<ChannelStep, ManagementError>)
    ensures
        seen(result) == channel_step(
            logical_id.deep_view(),
            channel.deep_view(),
            definition.deep_view(),
            state.deep_view(),
            actual.deep_view(),
            can_manage_roles,
        ),
{
    let id: &str = logical_id.as_str();
    match channel {
        ChannelDefinition::Absent => plan_absent_channel(logical_id, state, actual, definition),
        ChannelDefinition::Reference => match state.channels.get(logical_id) {
            None => Err(ManagementError::InvalidState(text3("Channel ", id, " の対応がありません"))),
            Some(discord_id) => if actual.contains_key(discord_id) {
                Ok(ChannelStep::Nothing)
            } else {
                Err(vanished_error(logical_id, *discord_id))
            },
        },
        ChannelDefinition::Managed { attributes } => {
            let kind: ChannelKind = match attributes.kind {
                None => {
                    return Err(
                        ManagementError::InvalidDefinition(
                            text3("管理対象 Channel ", id, " には type が必要です"),
                        ),
                    );
                },
                Some(kind) => kind,
            };
            attributes.validate_for_kind(logical_id)?;
            validate_channel_parent(logical_id, kind, &attributes.parent, definition, state, actual)?;
            match state.channels.get(logical_id) {
                None => plan_create(logical_id, attributes, definition, state, actual, can_manage_roles),
                Some(discord_id) => plan_update(
                    logical_id,
                    *discord_id,
                    kind,
                    attributes,
                    definition,
                    state,
                    actual,
                    can_manage_roles,
                ),
            }
        },
    }
}

/// The plan that a definition and a state ask for in a guild.
#[verifier::loop_isolation(false)]
pub fn build_channel_plan_with_capabilities(
    definition: &DefinitionFile,
    state: &StateFile,
    catalog: &ChannelCatalog,
    can_manage_roles: bool,
) -> (result: Result<Plan, ManagementError>)
    ensures
        seen(result) == channel_plan(
            definition.deep_view(),
            state.deep_view(),
            catalog.deep_view(),
            can_manage_roles,
        ),
{
    let actual: ActualChannels = channels_by_id(catalog);
    let ghost def = definition.deep_view();
    let ghost st = state.deep_view();
    let ghost present = actual.deep_view();
    let mut plan: Plan = Plan::none();
    let mut i: usize = 0;
    while i < definition.channels.len()
        invariant
            i <= def.channels.len(),
            with_declared(PlanView::none(), def.channels, 0, def, st, present, can_manage_roles) == with_declared(
                plan.deep_view(),
                def.channels,
                i as int,
                def,
                st,
                present,
                can_manage_roles,
            ),
        decreases def.channels.len() - i,
    {
        let logical_id: &ChannelLogicalId = definition.channels.key_at(i);
        match plan_channel(
            logical_id,
            definition.channels.value_at(i),
            definition,
            state,
            &actual,
            can_manage_roles,
        )? {
            ChannelStep::Nothing => {},
            ChannelStep::Create(desired) => plan.insert_create(logical_id.copy(), desired),
            ChannelStep::Do(change) => plan.insert(logical_id.copy(), change),
        }
        i += 1;
    }
    let ghost declared = plan.deep_view();
    let mut k: usize = 0;
    while k < state.channels.len()
        invariant
            k <= st.channels.len(),
            with_released(declared, st.channels, 0, def.channels) == with_released(
                plan.deep_view(),
                st.channels,
                k as int,
                def.channels,
            ),
        decreases st.channels.len() - k,
    {
        let logical_id: &ChannelLogicalId = state.channels.key_at(k);
        if !definition.channels.contains_key(logical_id) {
            plan.insert(logical_id.copy(), Change::Release { discord_id: *state.channels.value_at(k) });
        }
        k += 1;
    }
    plan.order = build_order_plan(definition, state, catalog)?;
    Ok(plan)
}

} // verus!
