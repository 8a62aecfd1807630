//! Plans of changes of roles, attribute by attribute.

use vstd::prelude::*;

use crate::configuration::channel::ChannelDefinitionView;
use crate::configuration::definition::{DefinitionFile, DefinitionView};
use crate::configuration::order::accepted;
use crate::configuration::permission::{first_unknown, KnownPermission};
use crate::configuration::role::{
    managed_if_given, Color, ManagedValue, OptionalManagedValueExt, RoleAttributes, RoleAttributesView, RoleDefinition,
    RoleDefinitionView,
};
use crate::configuration::state::MappingsView;
use crate::domain::{ErrorView, ManagementError};
use crate::ids::{everyone, RoleId, RoleLogicalId};
use crate::ordered::{
    entry_is_found, first_in, first_in_step, has_key, lookup, sorted, sorted_entries, OrderedKey, OrderedMap,
};
use crate::port::{RoleCatalog, RoleCatalogView, RoleSnapshot, RoleSnapshotView};
use crate::resource::change::{change_line, render_change_line};
use crate::resource::role::attributes::{compose_attributes, composed, want_permission, wanted_permission};
use crate::resource::role::order::{find_role, role_with_id};
use crate::resource::role::plan::vanished;
use crate::service::state::{TrackedState, TrackedView};
use crate::text::{bool_chars, bool_text, decimal, decimal_text, text2, text3, text5};
use crate::value::{seen, Plain};

verus! {

/// A change of one attribute of a role, with its values as they are shown.
pub struct AttributeChange {
    pub logical_id: RoleLogicalId,
    pub discord_id: RoleId,
    pub attribute: String,
    pub current: String,
    pub desired: String,
}

/// What a change of one attribute holds.
pub struct AttributeChangeView {
    pub logical_id: Seq<char>,
    pub discord_id: u64,
    pub attribute: Seq<char>,
    pub current: Seq<char>,
    pub desired: Seq<char>,
}

impl DeepView for AttributeChange {
    type V = AttributeChangeView;

    open spec fn deep_view(&self) -> AttributeChangeView {
        AttributeChangeView {
            logical_id: self.logical_id.deep_view(),
            discord_id: self.discord_id.deep_view(),
            attribute: self.attribute@,
            current: self.current@,
            desired: self.desired@,
        }
    }
}

impl Plain for AttributeChange {
    fn copy(&self) -> (copied: Self) {
        AttributeChange {
            logical_id: self.logical_id.copy(),
            discord_id: self.discord_id,
            attribute: self.attribute.copy(),
            current: self.current.copy(),
            desired: self.desired.copy(),
        }
    }

    fn same(&self, other: &Self) -> (equal: bool) {
        self.logical_id.same(&other.logical_id) && self.discord_id.get() == other.discord_id.get()
            && self.attribute.same(&other.attribute) && self.current.same(&other.current)
            && self.desired.same(&other.desired)
    }
}

/// A change of whether a role is there or managed.
pub enum RoleLifecycleChange {
    Create { logical_id: RoleLogicalId, recreated: bool },
    Release { logical_id: RoleLogicalId, discord_id: RoleId },
    Delete { logical_id: RoleLogicalId, discord_id: RoleId },
}

/// What a change of whether a role is there or managed holds.
pub enum LifecycleView {
    Create { logical_id: Seq<char>, recreated: bool },
    Release { logical_id: Seq<char>, discord_id: u64 },
    Delete { logical_id: Seq<char>, discord_id: u64 },
}

impl DeepView for RoleLifecycleChange {
    type V = LifecycleView;

    open spec fn deep_view(&self) -> LifecycleView {
        match self {
            RoleLifecycleChange::Create { logical_id, recreated } => LifecycleView::Create {
                logical_id: logical_id.deep_view(),
                recreated: *recreated,
            },
            RoleLifecycleChange::Release { logical_id, discord_id } => LifecycleView::Release {
                logical_id: logical_id.deep_view(),
                discord_id: discord_id.deep_view(),
            },
            RoleLifecycleChange::Delete { logical_id, discord_id } => LifecycleView::Delete {
                logical_id: logical_id.deep_view(),
                discord_id: discord_id.deep_view(),
            },
        }
    }
}

impl Plain for RoleLifecycleChange {
    fn copy(&self) -> (copied: Self) {
        match self {
            RoleLifecycleChange::Create { logical_id, recreated } => RoleLifecycleChange::Create {
                logical_id: logical_id.copy(),
                recreated: *recreated,
            },
            RoleLifecycleChange::Release { logical_id, discord_id } => RoleLifecycleChange::Release {
                logical_id: logical_id.copy(),
                discord_id: *discord_id,
            },
            RoleLifecycleChange::Delete { logical_id, discord_id } => RoleLifecycleChange::Delete {
                logical_id: logical_id.copy(),
                discord_id: *discord_id,
            },
        }
    }

    fn same(&self, other: &Self) -> (equal: bool) {
        match (self, other) {
            (
                RoleLifecycleChange::Create { logical_id, recreated },
                RoleLifecycleChange::Create { logical_id: other_id, recreated: other_recreated },
            ) => logical_id.same(other_id) && *recreated == *other_recreated,
            (
                RoleLifecycleChange::Release { logical_id, discord_id },
                RoleLifecycleChange::Release { logical_id: other_id, discord_id: other_discord_id },
            ) => logical_id.same(other_id) && discord_id.get() == other_discord_id.get(),
            (
                RoleLifecycleChange::Delete { logical_id, discord_id },
                RoleLifecycleChange::Delete { logical_id: other_id, discord_id: other_discord_id },
            ) => logical_id.same(other_id) && discord_id.get() == other_discord_id.get(),
            _ => false,
        }
    }
}

impl LifecycleView {
    /// The name of the role that is changed.
    pub open spec fn logical_id(self) -> Seq<char> {
        match self {
            LifecycleView::Create { logical_id, .. } => logical_id,
            LifecycleView::Release { logical_id, .. } => logical_id,
            LifecycleView::Delete { logical_id, .. } => logical_id,
        }
    }

    /// How the change is shown.
    pub open spec fn chars(self) -> Seq<char> {
        match self {
            LifecycleView::Create { logical_id, recreated } => "- "@ + (if recreated {
                "再作成"@
            } else {
                "新規作成"@
            }) + ": "@ + logical_id + "\n"@,
            LifecycleView::Release { logical_id, discord_id } => "- 管理解除: "@ + logical_id + " ("@ + decimal(
                discord_id as nat,
            ) + ")\n"@,
            LifecycleView::Delete { logical_id, discord_id } => "- 削除: "@ + logical_id + " ("@ + decimal(
                discord_id as nat,
            ) + ")\n  影響: Guild から Role が削除され、付与済みの割り当ても失われます。\n"@,
        }
    }
}

impl RoleLifecycleChange {
    /// The name of the role that is changed.
    pub fn logical_id(&self) -> (id: &RoleLogicalId)
        ensures
            id.deep_view() == self.deep_view().logical_id(),
    {
        match self {
            RoleLifecycleChange::Create { logical_id, .. } => logical_id,
            RoleLifecycleChange::Release { logical_id, .. } => logical_id,
            RoleLifecycleChange::Delete { logical_id, .. } => logical_id,
        }
    }

    /// How the change is shown.
    pub fn to_text(&self) -> (text: String)
        ensures
            text@ == self.deep_view().chars(),
    {
        match self {
            RoleLifecycleChange::Create { logical_id, recreated } => {
                let action: &str = if *recreated {
                    "再作成"
                } else {
                    "新規作成"
                };
                text5("- ", action, ": ", logical_id.as_str(), "\n")
            },
            RoleLifecycleChange::Release { logical_id, discord_id } => text5(
                "- 管理解除: ",
                logical_id.as_str(),
                " (",
                discord_id.to_text().as_str(),
                ")\n",
            ),
            RoleLifecycleChange::Delete { logical_id, discord_id } => text5(
                "- 削除: ",
                logical_id.as_str(),
                " (",
                discord_id.to_text().as_str(),
                ")\n  影響: Guild から Role が削除され、付与済みの割り当ても失われます。\n",
            ),
        }
    }
}

/// All changes of roles.
pub struct RolePlan {
    pub changes: Vec<AttributeChange>,
    pub lifecycle: Vec<RoleLifecycleChange>,
}

/// What all changes of roles hold.
pub struct RolePlanView {
    pub changes: Seq<AttributeChangeView>,
    pub lifecycle: Seq<LifecycleView>,
}

impl DeepView for RolePlan {
    type V = RolePlanView;

    open spec fn deep_view(&self) -> RolePlanView {
        RolePlanView { changes: self.changes.deep_view(), lifecycle: self.lifecycle.deep_view() }
    }
}

impl Plain for RolePlan {
    fn copy(&self) -> (copied: Self) {
        RolePlan { changes: self.changes.copy(), lifecycle: self.lifecycle.copy() }
    }

    fn same(&self, other: &Self) -> (equal: bool) {
        self.changes.same(&other.changes) && self.lifecycle.same(&other.lifecycle)
    }
}

/// How changes of attributes are shown.
pub open spec fn change_lines(changes: Seq<AttributeChangeView>) -> Seq<char>
    decreases changes.len(),
{
    if changes.len() == 0 {
        Seq::empty()
    } else {
        let last = changes.last();
        change_lines(changes.drop_last()) + change_line(
            last.logical_id,
            decimal(last.discord_id as nat),
            last.attribute,
            last.current,
            last.desired,
        )
    }
}

/// How creations, releases and deletions are shown.
pub open spec fn lifecycle_lines(lifecycle: Seq<LifecycleView>) -> Seq<char>
    decreases lifecycle.len(),
{
    if lifecycle.len() == 0 {
        Seq::empty()
    } else {
        lifecycle_lines(lifecycle.drop_last()) + lifecycle.last().chars()
    }
}

impl RolePlanView {
    /// Whether nothing changes.
    pub open spec fn is_empty(self) -> bool {
        self.changes.len() == 0 && self.lifecycle.len() == 0
    }

    /// The plan as it is shown.
    pub open spec fn chars(self) -> Seq<char> {
        if self.is_empty() {
            "変更はありません。\n"@
        } else {
            "Role の変更計画\n\n"@ + lifecycle_lines(self.lifecycle) + change_lines(self.changes)
        }
    }
}

impl RolePlan {
    /// The plan as it is shown.
    pub fn render(&self) -> (text: String)
        ensures
            text@ == self.deep_view().chars(),
    {
        if self.changes.is_empty() && self.lifecycle.is_empty() {
            return "変更はありません。\n".to_owned();
        }
        let ghost view = self.deep_view();
        let mut text: String = "Role の変更計画\n\n".to_owned();
        let ghost head = text@;
        let mut i: usize = 0;
        assert(view.lifecycle.take(0) =~= Seq::empty());
        assert(head + Seq::<char>::empty() =~= head);
        while i < self.lifecycle.len()
            invariant
                i <= self.lifecycle@.len(),
                view == self.deep_view(),
                text@ == head + lifecycle_lines(view.lifecycle.take(i as int)),
            decreases self.lifecycle@.len() - i,
        {
            proof {
                let next = view.lifecycle.take(i + 1);
                assert(next.drop_last() =~= view.lifecycle.take(i as int));
                assert(next.last() == self.lifecycle@[i as int].deep_view());
                assert(head + (lifecycle_lines(next.drop_last()) + next.last().chars()) =~= head + lifecycle_lines(
                    next.drop_last(),
                ) + next.last().chars());
            }
            text.append(self.lifecycle[i].to_text().as_str());
            i += 1;
        }
        assert(view.lifecycle.take(i as int) =~= view.lifecycle);
        let ghost head = text@;
        let mut k: usize = 0;
        assert(view.changes.take(0) =~= Seq::empty());
        assert(head + Seq::<char>::empty() =~= head);
        while k < self.changes.len()
            invariant
                k <= self.changes@.len(),
                view == self.deep_view(),
                text@ == head + change_lines(view.changes.take(k as int)),
            decreases self.changes@.len() - k,
        {
            let change: &AttributeChange = &self.changes[k];
            proof {
                let next = view.changes.take(k + 1);
                assert(next.drop_last() =~= view.changes.take(k as int));
                assert(next.last() == self.changes@[k as int].deep_view());
                let line = change_line(
                    next.last().logical_id,
                    decimal(next.last().discord_id as nat),
                    next.last().attribute,
                    next.last().current,
                    next.last().desired,
                );
                assert(head + (change_lines(next.drop_last()) + line) =~= head + change_lines(next.drop_last()) + line);
            }
            render_change_line(
                &mut text,
                change.logical_id.as_str(),
                change.discord_id.to_text().as_str(),
                change.attribute.as_str(),
                change.current.as_str(),
                change.desired.as_str(),
            );
            k += 1;
        }
        assert(view.changes.take(k as int) =~= view.changes);
        text
    }
}

/// Changes with one more, if its values differ.
pub open spec fn with_change(
    changes: Seq<AttributeChangeView>,
    id: Seq<char>,
    discord_id: u64,
    attribute: Seq<char>,
    current: Seq<char>,
    desired: Seq<char>,
) -> Seq<AttributeChangeView> {
    if current == desired {
        changes
    } else {
        changes.push(AttributeChangeView { logical_id: id, discord_id, attribute, current, desired })
    }
}

/// Adds a change, if its values differ.
pub fn push_change(
    changes: &mut Vec<AttributeChange>,
    logical_id: &RoleLogicalId,
    discord_id: RoleId,
    attribute: String,
    current: String,
    desired: String,
)
    ensures
        final(changes).deep_view() == with_change(
            old(changes).deep_view(),
            logical_id.deep_view(),
            discord_id.deep_view(),
            attribute@,
            current@,
            desired@,
        ),
{
    if !current.same(&desired) {
        let ghost before = changes.deep_view();
        let change = AttributeChange { logical_id: logical_id.copy(), discord_id, attribute, current, desired };
        let ghost added = change.deep_view();
        changes.push(change);
        assert(changes.deep_view() =~= before.push(added));
    }
}

/// Changes with one more, if a value is wanted and it differs.
pub open spec fn with_wanted(
    changes: Seq<AttributeChangeView>,
    id: Seq<char>,
    discord_id: u64,
    attribute: Seq<char>,
    current: Seq<char>,
    desired: Option<Seq<char>>,
) -> Seq<AttributeChangeView> {
    match desired {
        None => changes,
        Some(desired) => with_change(changes, id, discord_id, attribute, current, desired),
    }
}

/// How a number that may be wanted is shown.
pub open spec fn number_shown(value: Option<u32>) -> Option<Seq<char>> {
    match value {
        None => None,
        Some(value) => Some(decimal(value as nat)),
    }
}

/// How a truth value that may be wanted is shown.
pub open spec fn bool_shown(value: Option<bool>) -> Option<Seq<char>> {
    match value {
        None => None,
        Some(value) => Some(bool_chars(value)),
    }
}

/// Changes with those of permissions that a definition wants, or why there are none.
pub open spec fn with_permissions(
    changes: Seq<AttributeChangeView>,
    id: Seq<char>,
    discord_id: u64,
    wanted: Seq<(Seq<char>, ManagedValue<bool>)>,
    actual: Seq<(Seq<char>, bool)>,
    defaults: Seq<(Seq<char>, bool)>,
    grantable: Seq<(Seq<char>, ())>,
) -> Result<Seq<AttributeChangeView>, ErrorView>
    decreases wanted.len(),
{
    if wanted.len() == 0 {
        Ok(changes)
    } else {
        let permission = wanted[0].0;
        match lookup(actual, permission) {
            None => Err(unknown_permission(id, permission)),
            Some(current) => match wanted_permission(id, permission, wanted[0].1, current, defaults, grantable) {
                Err(error) => Err(error),
                Ok(desired) => with_permissions(
                    with_change(
                        changes,
                        id,
                        discord_id,
                        "permissions."@ + permission,
                        bool_chars(current),
                        bool_chars(desired),
                    ),
                    id,
                    discord_id,
                    wanted.drop_first(),
                    actual,
                    defaults,
                    grantable,
                ),
            },
        }
    }
}

/// Why a permission cannot be wanted: the role does not know it.
pub open spec fn unknown_permission(id: Seq<char>, permission: Seq<char>) -> ErrorView {
    ErrorView::InvalidDefinition("Role "@ + id + " に未知の権限 "@ + permission + " が指定されています"@)
}

/// Makes the error for a permission that the role does not know.
pub fn unknown_permission_error(id: &str, permission: &str) -> (error: ManagementError)
    ensures
        error.deep_view() == unknown_permission(id@, permission@),
{
    ManagementError::InvalidDefinition(
        text5("Role ", id, " に未知の権限 ", permission, " が指定されています"),
    )
}

/// Changes with those of the attributes of a role that a definition wants, or why
/// there are none.
pub open spec fn with_attributes(
    changes: Seq<AttributeChangeView>,
    id: Seq<char>,
    discord_id: u64,
    actual: RoleSnapshotView,
    desired: RoleAttributesView,
    catalog: RoleCatalogView,
) -> Result<Seq<AttributeChangeView>, ErrorView> {
    let named = with_wanted(
        changes,
        id,
        discord_id,
        "name"@,
        actual.name,
        managed_if_given(desired.name, "new role"@),
    );
    let colored = with_wanted(
        named,
        id,
        discord_id,
        "color"@,
        decimal(actual.color as nat),
        number_shown(managed_if_given(desired.color, 0)),
    );
    let hoisted = with_wanted(
        colored,
        id,
        discord_id,
        "hoist"@,
        bool_chars(actual.hoist),
        bool_shown(managed_if_given(desired.hoist, false)),
    );
    let mentioned = with_wanted(
        hoisted,
        id,
        discord_id,
        "mentionable"@,
        bool_chars(actual.mentionable),
        bool_shown(managed_if_given(desired.mentionable, false)),
    );
    with_permissions(
        mentioned,
        id,
        discord_id,
        desired.permissions,
        actual.permissions,
        catalog.default_permissions,
        catalog.grantable_permissions,
    )
}

fn push_bool_change(
    changes: &mut Vec<AttributeChange>,
    logical_id: &RoleLogicalId,
    discord_id: RoleId,
    attribute: &str,
    current: bool,
    desired: Option<bool>,
)
    ensures
        final(changes).deep_view() == with_wanted(
            old(changes).deep_view(),
            logical_id.deep_view(),
            discord_id.deep_view(),
            attribute@,
            bool_chars(current),
            bool_shown(desired),
        ),
{
    match desired {
        None => {},
        Some(desired) => push_change(
            changes,
            logical_id,
            discord_id,
            attribute.to_owned(),
            bool_text(current).to_owned(),
            bool_text(desired).to_owned(),
        ),
    }
}

/// Adds the changes of the attributes of a role that a definition wants. Where
/// there are none, what was added is of no use.
#[verifier::loop_isolation(false)]
pub fn compare_attributes(
    logical_id: &RoleLogicalId,
    discord_id: RoleId,
    actual: &RoleSnapshot,
    desired: &RoleAttributes,
    catalog: &RoleCatalog,
    changes: &mut Vec<AttributeChange>,
) -> (result: Result<(), ManagementError>)
    ensures
        match with_attributes(
            old(changes).deep_view(),
            logical_id.deep_view(),
            discord_id.deep_view(),
            actual.deep_view(),
            desired.deep_view(),
            catalog.deep_view(),
        ) {
            Ok(after) => result is Ok && final(changes).deep_view() == after,
            Err(error) => seen(result) == Err::<(), ErrorView>(error),
        },
{
    match desired.name.resolve_optional("new role".to_owned()) {
        None => {},
        Some(name) => push_change(changes, logical_id, discord_id, "name".to_owned(), actual.name.copy(), name),
    }
    match desired.color.resolve_optional(Color::default()) {
        None => {},
        Some(color) => push_change(
            changes,
            logical_id,
            discord_id,
            "color".to_owned(),
            decimal_text(actual.color.get() as u64),
            decimal_text(color.get() as u64),
        ),
    }
    push_bool_change(changes, logical_id, discord_id, "hoist", actual.hoist, desired.hoist.resolve_optional(false));
    push_bool_change(
        changes,
        logical_id,
        discord_id,
        "mentionable",
        actual.mentionable,
        desired.mentionable.resolve_optional(false),
    );
    let ghost id = logical_id.deep_view();
    let ghost all = desired.deep_view().permissions;
    let ghost cat = catalog.deep_view();
    let ghost start = changes.deep_view();
    let mut i: usize = 0;
    assert(all.skip(0) =~= all);
    while i < desired.permissions.len()
        invariant
            i <= all.len(),
            with_permissions(
                start,
                id,
                discord_id.deep_view(),
                all,
                actual.deep_view().permissions,
                cat.default_permissions,
                cat.grantable_permissions,
            ) == with_permissions(
                changes.deep_view(),
                id,
                discord_id.deep_view(),
                all.skip(i as int),
                actual.deep_view().permissions,
                cat.default_permissions,
                cat.grantable_permissions,
            ),
        decreases all.len() - i,
    {
        assert(all.skip(i as int)[0] == all[i as int]);
        assert(all.skip(i as int).drop_first() =~= all.skip(i + 1));
        let permission: &KnownPermission = desired.permissions.key_at(i);
        let current: bool = match actual.permissions.get(permission) {
            None => {
                return Err(unknown_permission_error(logical_id.as_str(), permission.as_str()));
            },
            Some(current) => *current,
        };
        let value: bool = want_permission(
            logical_id.as_str(),
            permission,
            desired.permissions.value_at(i),
            current,
            &catalog.default_permissions,
            &catalog.grantable_permissions,
        )?;
        push_change(
            changes,
            logical_id,
            discord_id,
            text2("permissions.", permission.as_str()),
            bool_text(current).to_owned(),
            bool_text(value).to_owned(),
        );
        i += 1;
    }
    assert(all.skip(i as int) =~= Seq::empty());
    Ok(())
}

/// What is wrong with the permissions of a settings set or a role: one of them is not known.
pub open spec fn unknown_fault(
    context: Seq<char>,
    attributes: RoleAttributesView,
    known: Seq<(Seq<char>, ())>,
) -> Option<ErrorView> {
    match first_unknown(attributes.permissions, known) {
        Some(permission) => Some(
            ErrorView::InvalidDefinition(context + " に未知の権限 "@ + permission + " が指定されています"@),
        ),
        None => None,
    }
}

/// What is wrong with the permissions that a definition names: one of them is not known.
pub open spec fn permission_names_fault(definition: DefinitionView, known: Seq<(Seq<char>, ())>) -> Option<ErrorView> {
    let sets = first_in(
        definition.settings_sets.role,
        |name: Seq<char>, attributes: RoleAttributesView| unknown_fault("Role 設定セット "@ + name, attributes, known),
    );
    let roles = first_in(
        definition.roles,
        |id: Seq<char>, role: RoleDefinitionView| unknown_fault("Role "@ + id, role.attributes(), known),
    );
    if sets is Some {
        sets
    } else {
        roles
    }
}

/// Checks the permissions of a settings set or a role.
pub fn validate_attribute_permission_names(
    attributes: &RoleAttributes,
    known_permissions: &OrderedMap<KnownPermission, ()>,
    context: &str,
) -> (result: Result<(), ManagementError>)
    ensures
        seen(result) == accepted(
            unknown_fault(context@, attributes.deep_view(), known_permissions.deep_view()),
        ),
{
    let ghost all = attributes.deep_view().permissions;
    let ghost known = known_permissions.deep_view();
    let mut i: usize = 0;
    assert(all.skip(0) =~= all);
    while i < attributes.permissions.len()
        invariant
            i <= all.len(),
            all == attributes.deep_view().permissions,
            known == known_permissions.deep_view(),
            first_unknown(all, known) == first_unknown(all.skip(i as int), known),
        decreases all.len() - i,
    {
        assert(all.skip(i as int)[0] == all[i as int]);
        assert(all.skip(i as int).drop_first() =~= all.skip(i + 1));
        let permission: &KnownPermission = attributes.permissions.key_at(i);
        if !known_permissions.contains_key(permission) {
            return Err(
                ManagementError::InvalidDefinition(
                    text2(
                        text3(context, " に未知の権限 ", permission.as_str()).as_str(),
                        " が指定されています",
                    ),
                ),
            );
        }
        i += 1;
    }
    Ok(())
}

/// Checks the permissions that a definition names.
#[verifier::loop_isolation(false)]
pub fn validate_permission_names(
    definition: &DefinitionFile,
    known_permissions: &OrderedMap<KnownPermission, ()>,
) -> (result: Result<(), ManagementError>)
    ensures
        seen(result) == accepted(
            permission_names_fault(definition.deep_view(), known_permissions.deep_view()),
        ),
{
    let ghost known = known_permissions.deep_view();
    let ghost sets = definition.deep_view().settings_sets.role;
    let ghost check_set = |name: Seq<char>, attributes: RoleAttributesView|
        unknown_fault("Role 設定セット "@ + name, attributes, known);
    let mut i: usize = 0;
    assert(sets.skip(0) =~= sets);
    while i < definition.settings_sets.role.len()
        invariant
            i <= sets.len(),
            first_in(sets, check_set) == first_in(sets.skip(i as int), check_set),
        decreases sets.len() - i,
    {
        proof {
            first_in_step(sets, check_set, i as int);
        }
        let context: String = text2("Role 設定セット ", definition.settings_sets.role.key_at(i).as_str());
        validate_attribute_permission_names(
            definition.settings_sets.role.value_at(i),
            known_permissions,
            context.as_str(),
        )?;
        i += 1;
    }
    let ghost roles = definition.deep_view().roles;
    let ghost check = |id: Seq<char>, role: RoleDefinitionView| unknown_fault("Role "@ + id, role.attributes(), known);
    let mut k: usize = 0;
    assert(roles.skip(0) =~= roles);
    while k < definition.roles.len()
        invariant
            k <= roles.len(),
            first_in(roles, check) == first_in(roles.skip(k as int), check),
        decreases roles.len() - k,
    {
        proof {
            first_in_step(roles, check, k as int);
        }
        let context: String = text2("Role ", definition.roles.key_at(k).as_str());
        let attributes: RoleAttributes = definition.roles.value_at(k).attributes();
        validate_attribute_permission_names(&attributes, known_permissions, context.as_str())?;
        k += 1;
    }
    Ok(())
}

/// What is wrong with the permissions of a role that shall be created.
pub open spec fn ungrantable_fault(
    id: Seq<char>,
    wanted: Seq<(Seq<char>, ManagedValue<bool>)>,
    catalog: RoleCatalogView,
) -> Option<ErrorView> {
    first_in(
        wanted,
        |permission: Seq<char>, value: ManagedValue<bool>|
            match wanted_permission(
                id,
                permission,
                value,
                false,
                catalog.default_permissions,
                catalog.grantable_permissions,
            ) {
                Err(error) => Some(error),
                Ok(_) => None,
            },
    )
}

/// What is wrong with a role that shall be created: it has no name or an empty one,
/// or a permission that cannot be granted.
pub open spec fn role_creation_fault(
    id: Seq<char>,
    attributes: RoleAttributesView,
    catalog: RoleCatalogView,
) -> Option<ErrorView> {
    match managed_if_given(attributes.name, "new role"@) {
        None => Some(ErrorView::InvalidDefinition("新しい Role "@ + id + " には name が必要です"@)),
        Some(name) => if name.len() == 0 {
            Some(ErrorView::InvalidDefinition("新しい Role "@ + id + " の name は空にできません"@))
        } else {
            ungrantable_fault(id, attributes.permissions, catalog)
        },
    }
}

/// Checks a role that shall be created.
#[verifier::loop_isolation(false)]
pub fn validate_role_creation(logical_id: &RoleLogicalId, attributes: &RoleAttributes, catalog: &RoleCatalog) -> (result:
    Result<(), ManagementError>)
    ensures
        seen(result) == accepted(
            role_creation_fault(logical_id.deep_view(), attributes.deep_view(), catalog.deep_view()),
        ),
{
    match attributes.name.resolve_optional("new role".to_owned()) {
        None => {
            return Err(
                ManagementError::InvalidDefinition(
                    text3("新しい Role ", logical_id.as_str(), " には name が必要です"),
                ),
            );
        },
        Some(name) => {
            if name.as_str().unicode_len() == 0 {
                return Err(
                    ManagementError::InvalidDefinition(
                        text3("新しい Role ", logical_id.as_str(), " の name は空にできません"),
                    ),
                );
            }
        },
    }
    let ghost id = logical_id.deep_view();
    let ghost cat = catalog.deep_view();
    let ghost all = attributes.deep_view().permissions;
    let ghost check = |permission: Seq<char>, value: ManagedValue<bool>|
        match wanted_permission(
            id,
            permission,
            value,
            false,
            cat.default_permissions,
            cat.grantable_permissions,
        ) {
            Err(error) => Some(error),
            Ok(_) => None,
        };
    let mut i: usize = 0;
    assert(all.skip(0) =~= all);
    while i < attributes.permissions.len()
        invariant
            i <= all.len(),
            first_in(all, check) == first_in(all.skip(i as int), check),
        decreases all.len() - i,
    {
        proof {
            first_in_step(all, check, i as int);
        }
        want_permission(
            logical_id.as_str(),
            attributes.permissions.key_at(i),
            attributes.permissions.value_at(i),
            false,
            &catalog.default_permissions,
            &catalog.grantable_permissions,
        )?;
        i += 1;
    }
    Ok(())
}

/// Why a deletion that is under way stops a plan.
pub open spec fn unsettled_deletion(id: Seq<char>) -> ErrorView {
    ErrorView::InvalidState("Role "@ + id + " の削除意図が未解決です"@)
}

/// What is wrong with a role whose deletion is under way: it is not to be deleted any more.
pub open spec fn unsettled_fault(id: Seq<char>, roles: Seq<(Seq<char>, RoleDefinitionView)>) -> Option<ErrorView> {
    match lookup(roles, id) {
        None => Some(
            ErrorView::InvalidState("Role "@ + id + " の削除意図が未解決のため、定義を変更できません"@),
        ),
        Some(role) => if role is Absent {
            None
        } else {
            Some(unsettled_deletion(id))
        },
    }
}

impl RolePlanView {
    /// A plan without changes.
    pub open spec fn none() -> RolePlanView {
        RolePlanView { changes: Seq::empty(), lifecycle: Seq::empty() }
    }

    /// The plan with one more creation, release or deletion.
    pub open spec fn with(self, change: LifecycleView) -> RolePlanView {
        RolePlanView { lifecycle: self.lifecycle.push(change), ..self }
    }

    /// The plan with the changes of the attributes of a role, or why there are none.
    pub open spec fn with_update(
        self,
        id: Seq<char>,
        discord_id: u64,
        actual: RoleSnapshotView,
        desired: RoleAttributesView,
        catalog: RoleCatalogView,
    ) -> Result<RolePlanView, ErrorView> {
        match with_attributes(self.changes, id, discord_id, actual, desired, catalog) {
            Err(error) => Err(error),
            Ok(changes) => Ok(RolePlanView { changes, ..self }),
        }
    }

    /// The plan with the creation of a role, or why it cannot be created.
    pub open spec fn with_creation(
        self,
        id: Seq<char>,
        desired: RoleAttributesView,
        catalog: RoleCatalogView,
        recreated: bool,
    ) -> Result<RolePlanView, ErrorView> {
        match role_creation_fault(id, desired, catalog) {
            Some(error) => Err(error),
            None => Ok(self.with(LifecycleView::Create { logical_id: id, recreated })),
        }
    }

    /// The plan after a role that shall not be there.
    pub open spec fn after_absent(self, id: Seq<char>, state: TrackedView, catalog: RoleCatalogView) -> Result<
        RolePlanView,
        ErrorView,
    > {
        if id == everyone() {
            Err(ErrorView::InvalidDefinition("@everyone Role は削除できません"@))
        } else {
            match lookup(state.bindings.roles, id) {
                None => Ok(self),
                Some(discord_id) => {
                    let actual = role_with_id(catalog.roles, discord_id);
                    if has_key(state.deleted_roles, id) {
                        Ok(self)
                    } else if !has_key(state.pending_deletions, id) && actual is None {
                        Err(vanished(id, discord_id))
                    } else if actual is Some && !actual->0.manageable {
                        Err(
                            ErrorView::InvalidState(
                                "Role "@ + id + " の Snowflake "@ + decimal(discord_id as nat)
                                    + " は Bot が管理できないため削除できません"@,
                            ),
                        )
                    } else {
                        Ok(self.with(LifecycleView::Delete { logical_id: id, discord_id }))
                    }
                },
            }
        }
    }

    /// The plan after a role that is there, bound to an identifier.
    pub open spec fn after_bound(
        self,
        id: Seq<char>,
        discord_id: u64,
        role: RoleDefinitionView,
        desired: RoleAttributesView,
        catalog: RoleCatalogView,
    ) -> Result<RolePlanView, ErrorView> {
        match role_with_id(catalog.roles, discord_id) {
            None => Err(vanished(id, discord_id)),
            Some(actual) => if id == everyone() && desired.has_non_permission_attributes() {
                Err(ErrorView::InvalidDefinition("@everyone Role では権限だけを管理できます"@))
            } else if role is Managed && !actual.manageable {
                Err(
                    ErrorView::InvalidState(
                        "Role "@ + id + " の Snowflake "@ + decimal(discord_id as nat)
                            + " は Bot が管理できません"@,
                    ),
                )
            } else {
                self.with_update(id, discord_id, actual, desired, catalog)
            },
        }
    }

    /// The plan after a declared role, or why there is none.
    pub open spec fn after_role(
        self,
        id: Seq<char>,
        role: RoleDefinitionView,
        definition: DefinitionView,
        state: TrackedView,
        catalog: RoleCatalogView,
    ) -> Result<RolePlanView, ErrorView> {
        let desired = composed(role, definition.settings_sets.role);
        if role is Absent {
            self.after_absent(id, state, catalog)
        } else if id == everyone() {
            self.after_bound(id, state.bindings.guild_id, role, desired, catalog)
        } else if has_key(state.deleted_roles, id) {
            if role is Reference {
                Err(
                    ErrorView::InvalidState("削除済みの Role "@ + id + " は参照専用として利用できません"@),
                )
            } else {
                self.with_creation(id, desired, catalog, true)
            }
        } else {
            match lookup(state.bindings.roles, id) {
                None => if role is Reference {
                    Err(ErrorView::InvalidState("参照専用 Role "@ + id + " の対応がありません"@))
                } else {
                    self.with_creation(id, desired, catalog, false)
                },
                Some(discord_id) => if has_key(state.pending_deletions, id) {
                    Err(unsettled_deletion(id))
                } else {
                    self.after_bound(id, discord_id, role, desired, catalog)
                },
            }
        }
    }

    /// The plan after the declared roles from a place on.
    pub open spec fn after_roles(
        self,
        i: int,
        definition: DefinitionView,
        state: TrackedView,
        catalog: RoleCatalogView,
    ) -> Result<RolePlanView, ErrorView>
        decreases definition.roles.len() - i,
    {
        if i < 0 || i >= definition.roles.len() {
            Ok(self)
        } else {
            match self.after_role(definition.roles[i].0, definition.roles[i].1, definition, state, catalog) {
                Err(error) => Err(error),
                Ok(plan) => plan.after_roles(i + 1, definition, state, catalog),
            }
        }
    }

    /// The plan with the bound roles from a place on released that are not declared any more.
    pub open spec fn with_released(
        self,
        bound: MappingsView,
        i: int,
        declared: Seq<(Seq<char>, RoleDefinitionView)>,
    ) -> RolePlanView
        decreases bound.len() - i,
    {
        if i < 0 || i >= bound.len() {
            self
        } else if bound[i].0 == everyone() || has_key(declared, bound[i].0) {
            self.with_released(bound, i + 1, declared)
        } else {
            self.with(
                LifecycleView::Release { logical_id: bound[i].0, discord_id: bound[i].1 },
            ).with_released(bound, i + 1, declared)
        }
    }
}

/// What stands in the way of any plan: a creation or a deletion that is not settled.
pub open spec fn unsettled(definition: DefinitionView, state: TrackedView) -> Option<ErrorView> {
    if state.pending_creations.len() > 0 {
        Some(
            ErrorView::InvalidState(
                "Role "@ + state.pending_creations[0].0
                    + " は作成結果不明のため、同じ定義で状態を確認する必要があります"@,
            ),
        )
    } else {
        first_in(state.pending_deletions, |id: Seq<char>, _u: ()| unsettled_fault(id, definition.roles))
    }
}

/// The plan that a definition and a state ask for in a guild, or why there is none.
pub open spec fn tracked_plan(
    definition: DefinitionView,
    state: TrackedView,
    catalog: RoleCatalogView,
) -> Result<RolePlanView, ErrorView> {
    match permission_names_fault(definition, catalog.permission_names) {
        Some(error) => Err(error),
        None => match unsettled(definition, state) {
            Some(error) => Err(error),
            None => match RolePlanView::none().after_roles(0, definition, state, catalog) {
                Err(error) => Err(error),
                Ok(plan) => Ok(plan.with_released(state.bindings.roles, 0, definition.roles)),
            },
        },
    }
}

fn check_settled(definition: &DefinitionFile, state: &TrackedState) -> (result: Result<(), ManagementError>)
    ensures
        seen(result) == accepted(unsettled(definition.deep_view(), state.deep_view())),
{
    if state.pending_creations.len() > 0 {
        return Err(
            ManagementError::InvalidState(
                text3(
                    "Role ",
                    state.pending_creations.key_at(0).as_str(),
                    " は作成結果不明のため、同じ定義で状態を確認する必要があります",
                ),
            ),
        );
    }
    let ghost all = state.deep_view().pending_deletions;
    let ghost roles = definition.deep_view().roles;
    let ghost check = |id: Seq<char>, _u: ()| unsettled_fault(id, roles);
    let mut i: usize = 0;
    assert(all.skip(0) =~= all);
    while i < state.pending_deletions.len()
        invariant
            i <= all.len(),
            all == state.deep_view().pending_deletions,
            roles == definition.deep_view().roles,
            check == (|id: Seq<char>, _u: ()| unsettled_fault(id, roles)),
            first_in(all, check) == first_in(all.skip(i as int), check),
            state.deep_view().pending_creations.len() == 0,
        decreases all.len() - i,
    {
        proof {
            first_in_step(all, check, i as int);
        }
        let id: &RoleLogicalId = state.pending_deletions.key_at(i);
        match definition.roles.get(id) {
            None => {
                return Err(
                    ManagementError::InvalidState(
                        text3("Role ", id.as_str(), " の削除意図が未解決のため、定義を変更できません"),
                    ),
                );
            },
            Some(role) => {
                if !role.is_absent() {
                    return Err(unsettled_error(id.as_str()));
                }
            },
        }
        i += 1;
    }
    Ok(())
}

fn unsettled_error(id: &str) -> (error: ManagementError)
    ensures
        error.deep_view() == unsettled_deletion(id@),
{
    ManagementError::InvalidState(text3("Role ", id, " の削除意図が未解決です"))
}

fn vanished_error(id: &str, discord_id: RoleId) -> (error: ManagementError)
    ensures
        error.deep_view() == vanished(id@, discord_id.deep_view()),
{
    ManagementError::InvalidState(
        text5(
            "Role ",
            id,
            " の Snowflake ",
            discord_id.to_text().as_str(),
            " が Guild から予期せず消失しています",
        ),
    )
}

impl RolePlan {
    /// A plan without changes.
    pub fn none() -> (plan: Self)
        ensures
            plan.deep_view() == RolePlanView::none(),
    {
        let changes: Vec<AttributeChange> = Vec::new();
        let lifecycle: Vec<RoleLifecycleChange> = Vec::new();
        assert(changes.deep_view() =~= Seq::empty());
        assert(lifecycle.deep_view() =~= Seq::empty());
        RolePlan { changes, lifecycle }
    }

    fn push(&mut self, change: RoleLifecycleChange)
        ensures
            final(self).deep_view() == old(self).deep_view().with(change.deep_view()),
    {
        let ghost before = self.lifecycle.deep_view();
        let ghost added = change.deep_view();
        self.lifecycle.push(change);
        assert(self.lifecycle.deep_view() =~= before.push(added));
    }

    fn add_creation(
        &mut self,
        logical_id: &RoleLogicalId,
        desired: &RoleAttributes,
        catalog: &RoleCatalog,
        recreated: bool,
    ) -> (result: Result<(), ManagementError>)
        ensures
            match old(self).deep_view().with_creation(
                logical_id.deep_view(),
                desired.deep_view(),
                catalog.deep_view(),
                recreated,
            ) {
                Ok(after) => result is Ok && final(self).deep_view() == after,
                Err(error) => seen(result) == Err::<(), ErrorView>(error),
            },
    {
        validate_role_creation(logical_id, desired, catalog)?;
        self.push(RoleLifecycleChange::Create { logical_id: logical_id.copy(), recreated });
        Ok(())
    }

    fn add_absent(&mut self, logical_id: &RoleLogicalId, state: &TrackedState, catalog: &RoleCatalog) -> (result: Result<
        (),
        ManagementError,
    >)
        ensures
            match old(self).deep_view().after_absent(
                logical_id.deep_view(),
                state.deep_view(),
                catalog.deep_view(),
            ) {
                Ok(after) => result is Ok && final(self).deep_view() == after,
                Err(error) => seen(result) == Err::<(), ErrorView>(error),
            },
    {
        if logical_id.is_everyone() {
            return Err(ManagementError::InvalidDefinition("@everyone Role は削除できません".to_owned()));
        }
        let discord_id: RoleId = match state.bindings.roles.get(logical_id) {
            None => {
                return Ok(());
            },
            Some(discord_id) => *discord_id,
        };
        if state.deleted_roles.contains_key(logical_id) {
            return Ok(());
        }
        match find_role(&catalog.roles, discord_id.get()) {
            None => {
                if !state.pending_deletions.contains_key(logical_id) {
                    return Err(vanished_error(logical_id.as_str(), discord_id));
                }
            },
            Some(actual) => {
                if !actual.manageable {
                    return Err(
                        ManagementError::InvalidState(
                            text5(
                                "Role ",
                                logical_id.as_str(),
                                " の Snowflake ",
                                discord_id.to_text().as_str(),
                                " は Bot が管理できないため削除できません",
                            ),
                        ),
                    );
                }
            },
        }
        self.push(RoleLifecycleChange::Delete { logical_id: logical_id.copy(), discord_id });
        Ok(())
    }

    fn add_bound(
        &mut self,
        logical_id: &RoleLogicalId,
        discord_id: RoleId,
        role: &RoleDefinition,
        desired: &RoleAttributes,
        catalog: &RoleCatalog,
    ) -> (result: Result<(), ManagementError>)
        ensures
            match old(self).deep_view().after_bound(
                logical_id.deep_view(),
                discord_id.deep_view(),
                role.deep_view(),
                desired.deep_view(),
                catalog.deep_view(),
            ) {
                Ok(after) => result is Ok && final(self).deep_view() == after,
                Err(error) => seen(result) == Err::<(), ErrorView>(error),
            },
    {
        let actual: &RoleSnapshot = match find_role(&catalog.roles, discord_id.get()) {
            None => {
                return Err(vanished_error(logical_id.as_str(), discord_id));
            },
            Some(actual) => actual,
        };
        if logical_id.is_everyone() && desired.has_non_permission_attributes() {
            return Err(
                ManagementError::InvalidDefinition("@everyone Role では権限だけを管理できます".to_owned()),
            );
        }
        if role.is_managed() && !actual.manageable {
            return Err(
                ManagementError::InvalidState(
                    text5(
                        "Role ",
                        logical_id.as_str(),
                        " の Snowflake ",
                        discord_id.to_text().as_str(),
                        " は Bot が管理できません",
                    ),
                ),
            );
        }
        compare_attributes(logical_id, discord_id, actual, desired, catalog, &mut self.changes)
    }

    fn add_role(
        &mut self,
        logical_id: &RoleLogicalId,
        role: &RoleDefinition,
        definition: &DefinitionFile,
        state: &TrackedState,
        catalog: &RoleCatalog,
    ) -> (result: Result<(), ManagementError>)
        ensures
            match old(self).deep_view().after_role(
                logical_id.deep_view(),
                role.deep_view(),
                definition.deep_view(),
                state.deep_view(),
                catalog.deep_view(),
            ) {
                Ok(after) => result is Ok && final(self).deep_view() == after,
                Err(error) => seen(result) == Err::<(), ErrorView>(error),
            },
    {
        if role.is_absent() {
            return self.add_absent(logical_id, state, catalog);
        }
        let desired: RoleAttributes = compose_attributes(role, &definition.settings_sets.role);
        if logical_id.is_everyone() {
            let discord_id: RoleId = RoleId::new(state.bindings.guild_id.get());
            return self.add_bound(logical_id, discord_id, role, &desired, catalog);
        }
        if state.deleted_roles.contains_key(logical_id) {
            if role.is_reference() {
                return Err(
                    ManagementError::InvalidState(
                        text3(
                            "削除済みの Role ",
                            logical_id.as_str(),
                            " は参照専用として利用できません",
                        ),
                    ),
                );
            }
            return self.add_creation(logical_id, &desired, catalog, true);
        }
        match state.bindings.roles.get(logical_id) {
            None => {
                if role.is_reference() {
                    return Err(
                        ManagementError::InvalidState(
                            text3("参照専用 Role ", logical_id.as_str(), " の対応がありません"),
                        ),
                    );
                }
                self.add_creation(logical_id, &desired, catalog, false)
            },
            Some(discord_id) => {
                if state.pending_deletions.contains_key(logical_id) {
                    return Err(unsettled_error(logical_id.as_str()));
                }
                self.add_bound(logical_id, *discord_id, role, &desired, catalog)
            },
        }
    }
}

/// The plan that a definition and a state ask for in a guild.
#[verifier::loop_isolation(false)]
pub fn build_plan(definition: &DefinitionFile, state: &TrackedState, catalog: &RoleCatalog) -> (result: Result<
    RolePlan,
    ManagementError,
>)
    ensures
        seen(result) == tracked_plan(definition.deep_view(), state.deep_view(), catalog.deep_view()),
{
    validate_permission_names(definition, &catalog.permission_names)?;
    check_settled(definition, state)?;
    let ghost def = definition.deep_view();
    let ghost st = state.deep_view();
    let ghost cat = catalog.deep_view();
    let mut plan: RolePlan = RolePlan::none();
    let mut i: usize = 0;
    while i < definition.roles.len()
        invariant
            i <= def.roles.len(),
            RolePlanView::none().after_roles(0, def, st, cat) == plan.deep_view().after_roles(
                i as int,
                def,
                st,
                cat,
            ),
        decreases def.roles.len() - i,
    {
        plan.add_role(definition.roles.key_at(i), definition.roles.value_at(i), definition, state, catalog)?;
        i += 1;
    }
    let ghost declared = plan.deep_view();
    let mut k: usize = 0;
    while k < state.bindings.roles.len()
        invariant
            k <= st.bindings.roles.len(),
            declared.with_released(st.bindings.roles, 0, def.roles) == plan.deep_view().with_released(
                st.bindings.roles,
                k as int,
                def.roles,
            ),
        decreases st.bindings.roles.len() - k,
    {
        let logical_id: &RoleLogicalId = state.bindings.roles.key_at(k);
        if !logical_id.is_everyone() && !definition.roles.contains_key(logical_id) {
            plan.push(
                RoleLifecycleChange::Release {
                    logical_id: logical_id.copy(),
                    discord_id: *state.bindings.roles.value_at(k),
                },
            );
        }
        k += 1;
    }
    Ok(plan)
}

/// What keeps a declared channel out of a plan of roles: it is more than referred to.
pub open spec fn scope_fault(id: Seq<char>, channel: ChannelDefinitionView) -> Option<ErrorView> {
    if channel is Reference {
        None
    } else {
        Some(
            ErrorView::InvalidDefinition(
                "Channel "@ + id
                    + " の属性管理は Channel plan の対象外です。参照専用として宣言してください"@,
            ),
        )
    }
}

/// Checks that a definition only refers to channels.
#[verifier::loop_isolation(false)]
pub fn validate_role_plan_scope(definition: &DefinitionFile) -> (result: Result<(), ManagementError>)
    ensures
        seen(result) == accepted(
            first_in(
                definition.deep_view().channels,
                |id: Seq<char>, channel: ChannelDefinitionView| scope_fault(id, channel),
            ),
        ),
{
    let ghost all = definition.deep_view().channels;
    let ghost check = |id: Seq<char>, channel: ChannelDefinitionView| scope_fault(id, channel);
    let mut i: usize = 0;
    assert(all.skip(0) =~= all);
    while i < definition.channels.len()
        invariant
            i <= all.len(),
            first_in(all, check) == first_in(all.skip(i as int), check),
        decreases all.len() - i,
    {
        proof {
            first_in_step(all, check, i as int);
        }
        if !definition.channels.value_at(i).is_reference() {
            return Err(
                ManagementError::InvalidDefinition(
                    text3(
                        "Channel ",
                        definition.channels.key_at(i).as_str(),
                        " の属性管理は Channel plan の対象外です。参照専用として宣言してください",
                    ),
                ),
            );
        }
        i += 1;
    }
    Ok(())
}

/// Whether no role is named twice.
pub open spec fn roles_differ(lifecycle: Seq<LifecycleView>) -> bool {
    forall|i: int, j: int|
        0 <= i < j < lifecycle.len() ==> (#[trigger] lifecycle[i]).logical_id() != (#[trigger] lifecycle[j]).logical_id()
}

/// Whether a role is named.
pub open spec fn names_role(lifecycle: Seq<LifecycleView>, id: Seq<char>) -> bool {
    exists|i: int| 0 <= i < lifecycle.len() && (#[trigger] lifecycle[i]).logical_id() == id
}

pub(crate) proof fn one_more_role(lifecycle: Seq<LifecycleView>, change: LifecycleView)
    requires
        roles_differ(lifecycle),
        !names_role(lifecycle, change.logical_id()),
    ensures
        roles_differ(lifecycle.push(change)),
        forall|id: Seq<char>| #[trigger]
            names_role(lifecycle.push(change), id) ==> id == change.logical_id() || names_role(lifecycle, id),
{
    let all = lifecycle.push(change);
    assert forall|i: int, j: int| 0 <= i < j < all.len() implies (#[trigger] all[i]).logical_id() != (
    #[trigger] all[j]).logical_id() by {
        assert(lifecycle[i].logical_id() == all[i].logical_id());
        if j < lifecycle.len() {
            assert(lifecycle[j].logical_id() == all[j].logical_id());
        }
    }
    assert forall|id: Seq<char>| #[trigger] names_role(all, id) implies id == change.logical_id() || names_role(
        lifecycle,
        id,
    ) by {
        let i = choose|i: int| 0 <= i < all.len() && (#[trigger] all[i]).logical_id() == id;
        if i < lifecycle.len() {
            assert(lifecycle[i].logical_id() == id);
        }
    }
}

proof fn declared_are_named_once(
    plan: RolePlanView,
    i: int,
    definition: DefinitionView,
    state: TrackedView,
    catalog: RoleCatalogView,
)
    requires
        0 <= i <= definition.roles.len(),
        sorted::<RoleLogicalId, RoleDefinitionView>(definition.roles),
        roles_differ(plan.lifecycle),
        forall|k: int| i <= k < definition.roles.len() ==> !names_role(plan.lifecycle, (#[trigger] definition.roles[k]).0),
        forall|id: Seq<char>| #[trigger] names_role(plan.lifecycle, id) ==> has_key(definition.roles, id),
        plan.after_roles(i, definition, state, catalog) is Ok,
    ensures
        ({
            let after = plan.after_roles(i, definition, state, catalog)->Ok_0.lifecycle;
            &&& roles_differ(after)
            &&& forall|id: Seq<char>| #[trigger] names_role(after, id) ==> has_key(definition.roles, id)
        }),
    decreases definition.roles.len() - i,
{
    if i < definition.roles.len() {
        let (id, role) = definition.roles[i];
        let next = plan.after_role(id, role, definition, state, catalog)->Ok_0;
        entry_is_found(definition.roles, i);
        assert(!names_role(plan.lifecycle, definition.roles[i].0));
        if next.lifecycle != plan.lifecycle {
            let change = next.lifecycle.last();
            assert(next.lifecycle == plan.lifecycle.push(change));
            assert(change.logical_id() == id);
            one_more_role(plan.lifecycle, change);
        }
        assert forall|k: int| i + 1 <= k < definition.roles.len() implies !names_role(
            next.lifecycle,
            (#[trigger] definition.roles[k]).0,
        ) by {
            sorted_entries::<RoleLogicalId, RoleDefinitionView>(definition.roles, i, k);
            RoleLogicalId::order_is_total(definition.roles[i].0, definition.roles[k].0);
            assert(!names_role(plan.lifecycle, definition.roles[k].0));
        }
        declared_are_named_once(next, i + 1, definition, state, catalog);
    }
}

proof fn released_are_named_once(
    plan: RolePlanView,
    bound: MappingsView,
    i: int,
    declared: Seq<(Seq<char>, RoleDefinitionView)>,
)
    requires
        0 <= i <= bound.len(),
        sorted::<RoleLogicalId, u64>(bound),
        roles_differ(plan.lifecycle),
        forall|k: int|
            i <= k < bound.len() && !has_key(declared, (#[trigger] bound[k]).0) ==> !names_role(
                plan.lifecycle,
                bound[k].0,
            ),
    ensures
        roles_differ(plan.with_released(bound, i, declared).lifecycle),
    decreases bound.len() - i,
{
    if i < bound.len() {
        if bound[i].0 == everyone() || has_key(declared, bound[i].0) {
            released_are_named_once(plan, bound, i + 1, declared);
        } else {
            let change = LifecycleView::Release { logical_id: bound[i].0, discord_id: bound[i].1 };
            assert(!names_role(plan.lifecycle, bound[i].0));
            one_more_role(plan.lifecycle, change);
            assert forall|k: int| i + 1 <= k < bound.len() && !has_key(declared, (#[trigger] bound[k]).0) implies
                !names_role(plan.with(change).lifecycle, bound[k].0) by {
                sorted_entries::<RoleLogicalId, u64>(bound, i, k);
                RoleLogicalId::order_is_total(bound[i].0, bound[k].0);
                assert(!names_role(plan.lifecycle, bound[k].0));
            }
            released_are_named_once(plan.with(change), bound, i + 1, declared);
        }
    }
}

/// A plan creates, releases or deletes no role twice.
pub proof fn plans_name_each_role_once(definition: DefinitionView, state: TrackedView, catalog: RoleCatalogView)
    requires
        sorted::<RoleLogicalId, RoleDefinitionView>(definition.roles),
        sorted::<RoleLogicalId, u64>(state.bindings.roles),
        tracked_plan(definition, state, catalog) is Ok,
    ensures
        roles_differ(tracked_plan(definition, state, catalog)->Ok_0.lifecycle),
{
    let none = RolePlanView::none();
    declared_are_named_once(none, 0, definition, state, catalog);
    let plan = none.after_roles(0, definition, state, catalog)->Ok_0;
    assert forall|k: int|
        0 <= k < state.bindings.roles.len() && !has_key(definition.roles, (#[trigger] state.bindings.roles[k]).0) implies
        !names_role(plan.lifecycle, state.bindings.roles[k].0) by {}
    released_are_named_once(plan, state.bindings.roles, 0, definition.roles);
}

} // verus!
