//! The plan of all changes of roles.

use vstd::prelude::*;
use vstd::string::*;

use crate::configuration::definition::{DefinitionFile, DefinitionView};
use crate::configuration::permission::KnownPermission;
use crate::configuration::role::{RoleAttributes, RoleDefinition, RoleDefinitionView};
use crate::configuration::state::{role_id_of, MappingsView, StateFile, StateView};
use crate::domain::{ErrorView, ManagementError};
use crate::ids::{everyone, RoleId, RoleLogicalId};
use crate::ordered::{has_key, lookup, put, without, OrderedMap};
use crate::port::{RoleCatalog, RoleCatalogView, RoleCreate, RoleCreateView, RoleSnapshot, RoleSnapshotView};
use crate::resource::change::{display_quoted_string, join, joined, json_quoted};
use crate::resource::role::attributes::{
    attribute_changes, build_role_create, compose_attributes, composed, created_role, AttributeChanges,
    AttributeChangesView,
};
use crate::resource::role::order::{
    build_order_plan, find_role, role_order_plan, role_with_id, OrderPlan, OrderPlanView,
};
use crate::text::{bool_chars, bool_text, decimal, decimal_text, text3, text5};
use crate::value::{seen, Plain};

verus! {

/// What shall be done with a role.
pub enum Change {
    Create,
    Update { discord_id: RoleId, attributes: AttributeChanges },
    Release { discord_id: RoleId },
    Delete { discord_id: RoleId },
}

/// What a change of a role holds.
pub enum ChangeView {
    Create,
    Update { discord_id: u64, attributes: AttributeChangesView },
    Release { discord_id: u64 },
    Delete { discord_id: u64 },
}

impl DeepView for Change {
    type V = ChangeView;

    open spec fn deep_view(&self) -> ChangeView {
        match self {
            Change::Create => ChangeView::Create,
            Change::Update { discord_id, attributes } => ChangeView::Update {
                discord_id: discord_id.deep_view(),
                attributes: attributes.deep_view(),
            },
            Change::Release { discord_id } => ChangeView::Release { discord_id: discord_id.deep_view() },
            Change::Delete { discord_id } => ChangeView::Delete { discord_id: discord_id.deep_view() },
        }
    }
}

impl Plain for Change {
    fn copy(&self) -> (copied: Self) {
        match self {
            Change::Create => Change::Create,
            Change::Update { discord_id, attributes } => Change::Update {
                discord_id: *discord_id,
                attributes: attributes.copy(),
            },
            Change::Release { discord_id } => Change::Release { discord_id: *discord_id },
            Change::Delete { discord_id } => Change::Delete { discord_id: *discord_id },
        }
    }

    fn same(&self, other: &Self) -> (equal: bool) {
        match (self, other) {
            (Change::Create, Change::Create) => true,
            (
                Change::Update { discord_id, attributes },
                Change::Update { discord_id: other_id, attributes: other_attributes },
            ) => discord_id.get() == other_id.get() && attributes.same(other_attributes),
            (Change::Release { discord_id }, Change::Release { discord_id: other_id }) => discord_id.get()
                == other_id.get(),
            (Change::Delete { discord_id }, Change::Delete { discord_id: other_id }) => discord_id.get()
                == other_id.get(),
            _ => false,
        }
    }
}

impl Change {
    /// Whether attributes are changed.
    pub fn is_update(&self) -> (answer: bool)
        ensures
            answer == (self.deep_view() is Update),
    {
        matches!(self, Change::Update { .. })
    }

    /// Whether the role is deleted.
    pub fn is_delete(&self) -> (answer: bool)
        ensures
            answer == (self.deep_view() is Delete),
    {
        matches!(self, Change::Delete { .. })
    }

    /// The role that is changed, unless it is still to be created.
    pub fn discord_id(&self) -> (id: Option<RoleId>)
        ensures
            id.deep_view() == match self.deep_view() {
                ChangeView::Create => None,
                ChangeView::Update { discord_id, .. } => Some(discord_id),
                ChangeView::Release { discord_id } => Some(discord_id),
                ChangeView::Delete { discord_id } => Some(discord_id),
            },
    {
        match self {
            Change::Create => None,
            Change::Update { discord_id, .. } => Some(*discord_id),
            Change::Release { discord_id } => Some(*discord_id),
            Change::Delete { discord_id } => Some(*discord_id),
        }
    }

    /// The changes of attributes, if they are changed.
    pub fn attributes(&self) -> (attributes: Option<&AttributeChanges>)
        ensures
            attributes.deep_view() == match self.deep_view() {
                ChangeView::Update { attributes, .. } => Some(attributes),
                _ => None,
            },
    {
        match self {
            Change::Update { attributes, .. } => Some(attributes),
            _ => None,
        }
    }
}

/// All changes of roles.
pub struct Plan {
    pub changes: OrderedMap<RoleLogicalId, Change>,
    pub create_desired: OrderedMap<RoleLogicalId, RoleCreate>,
    pub order: Option<OrderPlan>,
}

/// What a plan holds.
pub struct PlanView {
    pub changes: Seq<(Seq<char>, ChangeView)>,
    pub create_desired: Seq<(Seq<char>, RoleCreateView)>,
    pub order: Option<OrderPlanView>,
}

impl DeepView for Plan {
    type V = PlanView;

    open spec fn deep_view(&self) -> PlanView {
        PlanView {
            changes: self.changes.deep_view(),
            create_desired: self.create_desired.deep_view(),
            order: self.order.deep_view(),
        }
    }
}

impl Plain for Plan {
    fn copy(&self) -> (copied: Self) {
        Plan { changes: self.changes.copy(), create_desired: self.create_desired.copy(), order: self.order.copy() }
    }

    fn same(&self, other: &Self) -> (equal: bool) {
        self.changes.same(&other.changes) && self.create_desired.same(&other.create_desired) && self.order.same(
            &other.order,
        )
    }
}

/// Whether a change of some kind is among changes.
pub open spec fn has_deletion(changes: Seq<(Seq<char>, ChangeView)>) -> bool {
    exists|i: int| 0 <= i < changes.len() && (#[trigger] changes[i]).1 is Delete
}

/// Whether all changes are changes of attributes.
pub open spec fn only_updates(changes: Seq<(Seq<char>, ChangeView)>) -> bool {
    forall|i: int| 0 <= i < changes.len() ==> (#[trigger] changes[i]).1 is Update
}

impl PlanView {
    /// A plan without changes.
    pub open spec fn none() -> PlanView {
        PlanView { changes: Seq::empty(), create_desired: Seq::empty(), order: None }
    }

    /// Whether nothing changes.
    pub open spec fn is_empty(self) -> bool {
        self.changes.len() == 0 && self.order is None
    }

    /// The plan with one more change.
    pub open spec fn with(self, id: Seq<char>, change: ChangeView) -> PlanView {
        PlanView { changes: put::<RoleLogicalId, ChangeView>(self.changes, id, change), ..self }
    }

    /// The plan with one more role to be created.
    pub open spec fn with_create(self, id: Seq<char>, desired: RoleCreateView) -> PlanView {
        PlanView {
            changes: put::<RoleLogicalId, ChangeView>(self.changes, id, ChangeView::Create),
            create_desired: put::<RoleLogicalId, RoleCreateView>(self.create_desired, id, desired),
            order: self.order,
        }
    }

    /// The plan without the change of a role.
    pub open spec fn without(self, id: Seq<char>) -> PlanView {
        PlanView {
            changes: without(self.changes, id),
            create_desired: without(self.create_desired, id),
            order: self.order,
        }
    }

    /// The plan as it is shown.
    pub open spec fn chars(self) -> Seq<char> {
        if self.is_empty() {
            "変更はありません。\n"@
        } else {
            "Role の変更計画\n\n"@ + changes_chars(self.changes, self.create_desired) + match self.order {
                None => Seq::empty(),
                Some(order) => "- Role の相対順序: "@ + joined(order.requested, " -> "@) + "\n"@,
            }
        }
    }
}

/// Permissions and their values as they are shown in one line.
pub open spec fn permission_values_chars(permissions: Seq<(Seq<char>, bool)>) -> Seq<char>
    decreases permissions.len(),
{
    if permissions.len() == 0 {
        Seq::empty()
    } else {
        permission_values_chars(permissions.drop_last()) + (if permissions.len() == 1 {
            Seq::empty()
        } else {
            ", "@
        }) + permissions.last().0 + ": "@ + bool_chars(permissions.last().1)
    }
}

/// How a role that shall be created is shown.
pub open spec fn create_chars(desired: RoleCreateView) -> Seq<char> {
    "  desired:\n    name: "@ + json_quoted(desired.name) + "\n    color: "@ + decimal(desired.color as nat)
        + "\n    hoist: "@ + bool_chars(desired.hoist) + "\n    mentionable: "@ + bool_chars(desired.mentionable)
        + "\n"@ + if desired.permissions.len() == 0 {
        Seq::empty()
    } else {
        "    permissions: {"@ + permission_values_chars(desired.permissions) + "}\n"@
    }
}

/// How a change of a role is shown.
pub open spec fn change_chars(
    id: Seq<char>,
    change: ChangeView,
    create_desired: Seq<(Seq<char>, RoleCreateView)>,
) -> Seq<char> {
    match change {
        ChangeView::Create => "- 新規作成: "@ + id + "\n"@ + match lookup(create_desired, id) {
            Some(desired) => create_chars(desired),
            None => Seq::empty(),
        },
        ChangeView::Update { discord_id, attributes } => attributes.lines(id, decimal(discord_id as nat)),
        ChangeView::Release { discord_id } => "- 管理解除: "@ + id + " ("@ + decimal(discord_id as nat) + ")\n"@,
        ChangeView::Delete { discord_id } => "- 削除: "@ + id + " ("@ + decimal(discord_id as nat)
            + ")\n  影響: Guild から Role が削除され、付与済みの割り当ても失われます。\n"@,
    }
}

/// How changes of roles are shown.
pub open spec fn changes_chars(
    changes: Seq<(Seq<char>, ChangeView)>,
    create_desired: Seq<(Seq<char>, RoleCreateView)>,
) -> Seq<char>
    decreases changes.len(),
{
    if changes.len() == 0 {
        Seq::empty()
    } else {
        changes_chars(changes.drop_last(), create_desired) + change_chars(
            changes.last().0,
            changes.last().1,
            create_desired,
        )
    }
}

fn permission_values_text(permissions: &OrderedMap<KnownPermission, bool>) -> (text: String)
    ensures
        text@ == permission_values_chars(permissions.deep_view()),
{
    let ghost all = permissions.deep_view();
    let mut text: String = String::new();
    let mut i: usize = 0;
    assert(all.take(0) =~= Seq::empty());
    while i < permissions.len()
        invariant
            i <= all.len(),
            all == permissions.deep_view(),
            text@ == permission_values_chars(all.take(i as int)),
        decreases all.len() - i,
    {
        let ghost before = text@;
        if i != 0 {
            text.append(", ");
        }
        text.append(permissions.key_at(i).as_str());
        text.append(": ");
        text.append(bool_text(*permissions.value_at(i)));
        proof {
            let next = all.take(i + 1);
            assert(next.drop_last() =~= all.take(i as int));
            assert(next.last() == all[i as int]);
            if i == 0 {
                assert(before + Seq::<char>::empty() =~= before);
            }
        }
        i += 1;
    }
    assert(all.take(i as int) =~= all);
    text
}

fn render_create_attributes(attributes: &RoleCreate) -> (text: String)
    ensures
        text@ == create_chars(attributes.deep_view()),
{
    let mut text: String = text5(
        "  desired:\n    name: ",
        display_quoted_string(attributes.name.as_str()).as_str(),
        "\n    color: ",
        decimal_text(attributes.color.get() as u64).as_str(),
        "\n    hoist: ",
    );
    text.append(bool_text(attributes.hoist));
    text.append("\n    mentionable: ");
    text.append(bool_text(attributes.mentionable));
    text.append("\n");
    let permissions: String = if attributes.permissions.is_empty() {
        String::new()
    } else {
        text3("    permissions: {", permission_values_text(&attributes.permissions).as_str(), "}\n")
    };
    text.append(permissions.as_str());
    text
}

fn render_change(
    logical_id: &RoleLogicalId,
    change: &Change,
    create_desired: &OrderedMap<RoleLogicalId, RoleCreate>,
) -> (text: String)
    ensures
        text@ == change_chars(logical_id.deep_view(), change.deep_view(), create_desired.deep_view()),
{
    let id: &str = logical_id.as_str();
    match change {
        Change::Create => {
            let mut text: String = text3("- 新規作成: ", id, "\n");
            let desired: String = match create_desired.get(logical_id) {
                Some(desired) => render_create_attributes(desired),
                None => String::new(),
            };
            text.append(desired.as_str());
            text
        },
        Change::Update { discord_id, attributes } => {
            let mut text: String = String::new();
            attributes.render(id, discord_id.to_text().as_str(), &mut text);
            assert(text@ =~= attributes.deep_view().lines(id@, decimal(discord_id.deep_view() as nat)));
            text
        },
        Change::Release { discord_id } => text5("- 管理解除: ", id, " (", discord_id.to_text().as_str(), ")\n"),
        Change::Delete { discord_id } => text5(
            "- 削除: ",
            id,
            " (",
            discord_id.to_text().as_str(),
            ")\n  影響: Guild から Role が削除され、付与済みの割り当ても失われます。\n",
        ),
    }
}

fn render_changes(
    changes: &OrderedMap<RoleLogicalId, Change>,
    create_desired: &OrderedMap<RoleLogicalId, RoleCreate>,
) -> (text: String)
    ensures
        text@ == changes_chars(changes.deep_view(), create_desired.deep_view()),
{
    let ghost all = changes.deep_view();
    let mut text: String = String::new();
    let mut i: usize = 0;
    assert(all.take(0) =~= Seq::empty());
    while i < changes.len()
        invariant
            i <= all.len(),
            all == changes.deep_view(),
            text@ == changes_chars(all.take(i as int), create_desired.deep_view()),
        decreases all.len() - i,
    {
        text.append(render_change(changes.key_at(i), changes.value_at(i), create_desired).as_str());
        proof {
            let next = all.take(i + 1);
            assert(next.drop_last() =~= all.take(i as int));
            assert(next.last() == all[i as int]);
        }
        i += 1;
    }
    assert(all.take(i as int) =~= all);
    text
}

/// The texts of names.
pub fn texts_of<Tag>(names: &Vec<crate::ids::LogicalId<Tag>>) -> (texts: Vec<String>)
    ensures
        texts.deep_view() == names.deep_view(),
{
    let mut texts: Vec<String> = Vec::new();
    let mut i: usize = 0;
    while i < names.len()
        invariant
            i <= names@.len(),
            texts@.len() == i,
            forall|k: int| 0 <= k < i ==> (#[trigger] texts@[k])@ == names.deep_view()[k],
        decreases names@.len() - i,
    {
        texts.push(names[i].as_str().to_owned());
        i += 1;
    }
    assert(texts.deep_view() =~= names.deep_view());
    texts
}

impl Plan {
    /// A plan without changes.
    pub fn none() -> (plan: Self)
        ensures
            plan.deep_view() == PlanView::none(),
    {
        Plan { changes: OrderedMap::new(), create_desired: OrderedMap::new(), order: None }
    }

    /// The number of changes, without the order.
    pub fn len(&self) -> (n: usize)
        ensures
            n == self.deep_view().changes.len(),
    {
        self.changes.len()
    }

    /// Whether nothing changes.
    pub fn is_empty(&self) -> (empty: bool)
        ensures
            empty == self.deep_view().is_empty(),
    {
        self.changes.is_empty() && self.order.is_none()
    }

    /// The new order, if there is one.
    pub fn order(&self) -> (order: Option<&OrderPlan>)
        ensures
            order.deep_view() == self.deep_view().order,
    {
        self.order.as_ref()
    }

    /// Whether there is a new order.
    pub fn has_order(&self) -> (answer: bool)
        ensures
            answer == (self.deep_view().order is Some),
    {
        self.order.is_some()
    }

    /// The change of a role, if there is one.
    pub fn get(&self, logical_id: &RoleLogicalId) -> (change: Option<&Change>)
        ensures
            change.deep_view() == lookup(self.deep_view().changes, logical_id.deep_view()),
    {
        self.changes.get(logical_id)
    }

    /// Whether a role is deleted.
    pub fn contains_deletions(&self) -> (answer: bool)
        ensures
            answer == has_deletion(self.deep_view().changes),
    {
        let ghost all = self.changes.deep_view();
        let mut i: usize = 0;
        while i < self.changes.len()
            invariant
                i <= all.len(),
                all == self.changes.deep_view(),
                forall|k: int| 0 <= k < i ==> !((#[trigger] all[k]).1 is Delete),
            decreases all.len() - i,
        {
            if self.changes.value_at(i).is_delete() {
                assert(all[i as int].1 is Delete);
                return true;
            }
            i += 1;
        }
        false
    }

    /// Whether all changes are changes of attributes.
    pub fn only_updates(&self) -> (answer: bool)
        ensures
            answer == only_updates(self.deep_view().changes),
    {
        let ghost all = self.changes.deep_view();
        let mut i: usize = 0;
        while i < self.changes.len()
            invariant
                i <= all.len(),
                all == self.changes.deep_view(),
                forall|k: int| 0 <= k < i ==> (#[trigger] all[k]).1 is Update,
            decreases all.len() - i,
        {
            if !self.changes.value_at(i).is_update() {
                assert(!(all[i as int].1 is Update));
                return false;
            }
            i += 1;
        }
        true
    }

    /// Adds a change.
    pub fn insert(&mut self, logical_id: RoleLogicalId, change: Change)
        ensures
            final(self).deep_view() == old(self).deep_view().with(logical_id.deep_view(), change.deep_view()),
    {
        self.changes.insert(logical_id, change);
    }

    /// Adds a role to be created.
    pub fn insert_create(&mut self, logical_id: RoleLogicalId, desired: RoleCreate)
        ensures
            final(self).deep_view() == old(self).deep_view().with_create(
                logical_id.deep_view(),
                desired.deep_view(),
            ),
    {
        self.changes.insert(logical_id.copy(), Change::Create);
        self.create_desired.insert(logical_id, desired);
    }

    /// Takes out the change of a role.
    pub fn remove(&mut self, logical_id: &RoleLogicalId)
        ensures
            final(self).deep_view() == old(self).deep_view().without(logical_id.deep_view()),
    {
        self.create_desired.remove(logical_id);
        self.changes.remove(logical_id);
    }

    /// The plan as it is shown.
    pub fn render(&self) -> (text: String)
        ensures
            text@ == self.deep_view().chars(),
    {
        if self.is_empty() {
            return "変更はありません。\n".to_owned();
        }
        let order: String = match &self.order {
            None => String::new(),
            Some(order) => text3(
                "- Role の相対順序: ",
                join(&texts_of(&order.requested), " -> ").as_str(),
                "\n",
            ),
        };
        text3(
            "Role の変更計画\n\n",
            render_changes(&self.changes, &self.create_desired).as_str(),
            order.as_str(),
        )
    }
}

/// What shall be done with a declared role.
pub enum RoleStep {
    Nothing,
    Create(RoleCreate),
    Do(Change),
}

/// What the handling of a declared role holds.
pub enum RoleStepView {
    Nothing,
    Create(RoleCreateView),
    Do(ChangeView),
}

impl DeepView for RoleStep {
    type V = RoleStepView;

    open spec fn deep_view(&self) -> RoleStepView {
        match self {
            RoleStep::Nothing => RoleStepView::Nothing,
            RoleStep::Create(desired) => RoleStepView::Create(desired.deep_view()),
            RoleStep::Do(change) => RoleStepView::Do(change.deep_view()),
        }
    }
}

/// Why a role that is bound is missed.
pub open spec fn vanished(id: Seq<char>, discord_id: u64) -> ErrorView {
    ErrorView::InvalidState(
        "Role "@ + id + " の Snowflake "@ + decimal(discord_id as nat)
            + " が Guild から予期せず消失しています"@,
    )
}

/// The update of a role, if its attributes differ.
pub open spec fn update_step(
    id: Seq<char>,
    actual: RoleSnapshotView,
    desired: crate::configuration::role::RoleAttributesView,
    discord_id: u64,
    catalog: RoleCatalogView,
) -> Result<RoleStepView, ErrorView> {
    match attribute_changes(id, actual, desired, catalog.default_permissions, catalog.grantable_permissions) {
        Err(error) => Err(error),
        Ok(None) => Ok(RoleStepView::Nothing),
        Ok(Some(attributes)) => Ok(RoleStepView::Do(ChangeView::Update { discord_id, attributes })),
    }
}

/// What shall be done with a declared role, or why it cannot be.
pub open spec fn role_step(
    id: Seq<char>,
    role: RoleDefinitionView,
    definition: DefinitionView,
    state: StateView,
    catalog: RoleCatalogView,
) -> Result<RoleStepView, ErrorView> {
    let desired = composed(role, definition.settings_sets.role);
    if role is Absent {
        if id == everyone() {
            Err(ErrorView::InvalidDefinition("@everyone Role は削除できません"@))
        } else {
            match lookup(state.roles, id) {
                None => Ok(RoleStepView::Nothing),
                Some(discord_id) => match role_with_id(catalog.roles, discord_id) {
                    Some(actual) => if actual.manageable {
                        Ok(RoleStepView::Do(ChangeView::Delete { discord_id }))
                    } else {
                        Err(
                            ErrorView::InvalidState(
                                "Role "@ + id + " の Snowflake "@ + decimal(discord_id as nat)
                                    + " は Bot が管理できないため削除できません"@,
                            ),
                        )
                    },
                    None => Ok(RoleStepView::Do(ChangeView::Delete { discord_id })),
                },
            }
        }
    } else {
        match role_id_of(state, id) {
            None => if role is Reference {
                Err(ErrorView::InvalidState("参照専用 Role "@ + id + " の対応がありません"@))
            } else {
                match created_role(
                    id,
                    desired,
                    catalog.permission_names,
                    catalog.default_permissions,
                    catalog.grantable_permissions,
                ) {
                    Err(error) => Err(error),
                    Ok(create) => Ok(RoleStepView::Create(create)),
                }
            },
            Some(discord_id) => match role_with_id(catalog.roles, discord_id) {
                None => Err(vanished(id, discord_id)),
                Some(actual) => if id == everyone() {
                    if desired.has_non_permission_attributes() {
                        Err(ErrorView::InvalidDefinition("@everyone Role では権限だけを管理できます"@))
                    } else {
                        update_step(id, actual, desired, discord_id, catalog)
                    }
                } else if role is Managed && !actual.manageable {
                    Err(
                        ErrorView::InvalidState(
                            "Role "@ + id + " の Snowflake "@ + decimal(discord_id as nat)
                                + " は Bot が管理できません"@,
                        ),
                    )
                } else {
                    update_step(id, actual, desired, discord_id, catalog)
                },
            },
        }
    }
}

impl PlanView {
    /// The plan after a declared role was handled.
    pub open spec fn after(self, id: Seq<char>, step: RoleStepView) -> PlanView {
        match step {
            RoleStepView::Nothing => self,
            RoleStepView::Create(desired) => self.with_create(id, desired),
            RoleStepView::Do(change) => self.with(id, change),
        }
    }
}

/// The plan after the declared roles from a place on were handled.
pub open spec fn with_declared(
    plan: PlanView,
    roles: Seq<(Seq<char>, RoleDefinitionView)>,
    i: int,
    definition: DefinitionView,
    state: StateView,
    catalog: RoleCatalogView,
) -> Result<PlanView, ErrorView>
    decreases roles.len() - i,
{
    if i < 0 || i >= roles.len() {
        Ok(plan)
    } else {
        match role_step(roles[i].0, roles[i].1, definition, state, catalog) {
            Err(error) => Err(error),
            Ok(step) => with_declared(
                plan.after(roles[i].0, step),
                roles,
                i + 1,
                definition,
                state,
                catalog,
            ),
        }
    }
}

/// The plan with the bound roles from a place on released that are not declared any more.
pub open spec fn with_released(
    plan: PlanView,
    bound: MappingsView,
    i: int,
    declared: Seq<(Seq<char>, RoleDefinitionView)>,
) -> PlanView
    decreases bound.len() - i,
{
    if i < 0 || i >= bound.len() {
        plan
    } else if bound[i].0 == everyone() || has_key(declared, bound[i].0) {
        with_released(plan, bound, i + 1, declared)
    } else {
        with_released(
            plan.with(bound[i].0, ChangeView::Release { discord_id: bound[i].1 }),
            bound,
            i + 1,
            declared,
        )
    }
}

/// The plan that a definition and a state ask for in a guild, or why there is none.
pub open spec fn role_plan(
    definition: DefinitionView,
    state: StateView,
    catalog: RoleCatalogView,
) -> Result<PlanView, ErrorView> {
    match with_declared(PlanView::none(), definition.roles, 0, definition, state, catalog) {
        Err(error) => Err(error),
        Ok(plan) => match role_order_plan(definition, state, catalog) {
            Err(error) => Err(error),
            Ok(order) => Ok(
                PlanView { order, ..with_released(plan, state.roles, 0, definition.roles) },
            ),
        },
    }
}

fn plan_update(
    logical_id: &RoleLogicalId,
    discord_id: RoleId,
    actual: &RoleSnapshot,
    desired: &RoleAttributes,
    catalog: &RoleCatalog,
) -> (result: Result<RoleStep, ManagementError>)
    ensures
        seen(result) == update_step(
            logical_id.deep_view(),
            actual.deep_view(),
            desired.deep_view(),
            discord_id.deep_view(),
            catalog.deep_view(),
        ),
{
    match AttributeChanges::between(
        logical_id,
        actual,
        desired,
        &catalog.default_permissions,
        &catalog.grantable_permissions,
    )? {
        None => Ok(RoleStep::Nothing),
        Some(attributes) => Ok(RoleStep::Do(Change::Update { discord_id, attributes })),
    }
}

fn plan_absent_role(logical_id: &RoleLogicalId, state: &StateFile, catalog: &RoleCatalog) -> (result: Result<
    RoleStep,
    ManagementError,
>)
    ensures
        forall|definition: DefinitionView|
            seen(result) == #[trigger] role_step(
                logical_id.deep_view(),
                RoleDefinitionView::Absent,
                definition,
                state.deep_view(),
                catalog.deep_view(),
            ),
{
    if logical_id.is_everyone() {
        return Err(ManagementError::InvalidDefinition("@everyone Role は削除できません".to_owned()));
    }
    let discord_id: RoleId = match state.roles.get(logical_id) {
        None => {
            return Ok(RoleStep::Nothing);
        },
        Some(discord_id) => *discord_id,
    };
    match find_role(&catalog.roles, discord_id.get()) {
        None => {},
        Some(actual) => {
            if !actual.manageable {
                return Err(
                    ManagementError::InvalidState(
                        text5(
                            "Role ",
                            logical_id.as_str(),
                            " の Snowflake ",
                            discord_id.to_text().as_str(),
                            " は Bot が管理できないため削除できません",
                        ),
                    ),
                );
            }
        },
    }
    Ok(RoleStep::Do(Change::Delete { discord_id }))
}

/// What shall be done with a declared role.
pub fn plan_role(
    logical_id: &RoleLogicalId,
    role: &RoleDefinition,
    definition: &DefinitionFile,
    state: &StateFile,
    catalog: &RoleCatalog,
) -> (result: Result<RoleStep, ManagementError>)
    ensures
        seen(result) == role_step(
            logical_id.deep_view(),
            role.deep_view(),
            definition.deep_view(),
            state.deep_view(),
            catalog.deep_view(),
        ),
{
    if role.is_absent() {
        return plan_absent_role(logical_id, state, catalog);
    }
    let id: &str = logical_id.as_str();
    let desired: RoleAttributes = compose_attributes(role, &definition.settings_sets.role);
    let discord_id: RoleId = match crate::resource::role::order::find_role_id(logical_id, state) {
        None => {
            if role.is_reference() {
                return Err(
                    ManagementError::InvalidState(text3("参照専用 Role ", id, " の対応がありません")),
                );
            }
            let create: RoleCreate = build_role_create(
                &desired,
                &catalog.permission_names,
                &catalog.default_permissions,
                &catalog.grantable_permissions,
                logical_id,
            )?;
            return Ok(RoleStep::Create(create));
        },
        Some(discord_id) => discord_id,
    };
    let actual: &RoleSnapshot = match find_role(&catalog.roles, discord_id.get()) {
        None => {
            return Err(
                ManagementError::InvalidState(
                    text5(
                        "Role ",
                        id,
                        " の Snowflake ",
                        discord_id.to_text().as_str(),
                        " が Guild から予期せず消失しています",
                    ),
                ),
            );
        },
        Some(actual) => actual,
    };
    if logical_id.is_everyone() {
        if desired.has_non_permission_attributes() {
            return Err(
                ManagementError::InvalidDefinition("@everyone Role では権限だけを管理できます".to_owned()),
            );
        }
    } else if role.is_managed() && !actual.manageable {
        return Err(
            ManagementError::InvalidState(
                text5(
                    "Role ",
                    id,
                    " の Snowflake ",
                    discord_id.to_text().as_str(),
                    " は Bot が管理できません",
                ),
            ),
        );
    }
    plan_update(logical_id, discord_id, actual, &desired, catalog)
}

/// The plan that a definition and a state ask for in a guild.
#[verifier::loop_isolation(false)]
pub fn build_plan(definition: &DefinitionFile, state: &StateFile, catalog: &RoleCatalog) -> (result: Result<
    Plan,
    ManagementError,
>)
    ensures
        seen(result) == role_plan(definition.deep_view(), state.deep_view(), catalog.deep_view()),
{
    let ghost def = definition.deep_view();
    let ghost st = state.deep_view();
    let ghost cat = catalog.deep_view();
    let mut plan: Plan = Plan::none();
    let mut i: usize = 0;
    while i < definition.roles.len()
        invariant
            i <= def.roles.len(),
            with_declared(PlanView::none(), def.roles, 0, def, st, cat) == with_declared(
                plan.deep_view(),
                def.roles,
                i as int,
                def,
                st,
                cat,
            ),
        decreases def.roles.len() - i,
    {
        let logical_id: &RoleLogicalId = definition.roles.key_at(i);
        match plan_role(logical_id, definition.roles.value_at(i), definition, state, catalog)? {
            RoleStep::Nothing => {},
            RoleStep::Create(desired) => plan.insert_create(logical_id.copy(), desired),
            RoleStep::Do(change) => plan.insert(logical_id.copy(), change),
        }
        i += 1;
    }
    let ghost declared = plan.deep_view();
    let mut k: usize = 0;
    while k < state.roles.len()
        invariant
            k <= st.roles.len(),
            with_released(declared, st.roles, 0, def.roles) == with_released(
                plan.deep_view(),
                st.roles,
                k as int,
                def.roles,
            ),
        decreases st.roles.len() - k,
    {
        let logical_id: &RoleLogicalId = state.roles.key_at(k);
        if !logical_id.is_everyone() && !definition.roles.contains_key(logical_id) {
            plan.insert(logical_id.copy(), Change::Release { discord_id: *state.roles.value_at(k) });
        }
        k += 1;
    }
    plan.order = build_order_plan(definition, state, catalog)?;
    Ok(plan)
}

} // verus!
