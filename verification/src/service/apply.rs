//! Applying a plan of roles, with a record of what is under way.
//!
//! A session decides what to ask of Discord next, and what a reply means. Whoever
//! runs it does what [`RoleApplySession::action`] says and hands the reply to
//! [`RoleApplySession::step`], until the action is to finish.

use vstd::prelude::*;

use crate::apply::{refresh_deadline, refresh_until, Reply, ReplyView};
use crate::configuration::definition::{DefinitionFile, DefinitionView};
use crate::configuration::permission::KnownPermission;
use crate::configuration::role::{
    managed, managed_if_given, Color, ManagedValue, OptionalManagedValueExt, RoleAttributes, RoleAttributesView,
    RoleDefinitionView,
};
use crate::configuration::state::{holder, resolve_role_id, role_id_of, StateView};
use crate::domain::{ErrorView, ManagementError};
use crate::export::role::find_name;
use crate::ids::{RoleId, RoleLogicalId};
use crate::ordered::{lookup, put, sorted, without, OrderedMap};
use crate::port::{
    RoleCatalog, RoleCatalogView, RoleCreate, RoleCreateOutcome, RoleCreateOutcomeView, RoleCreateView,
    RoleDeleteOutcome, RoleSnapshot, RoleSnapshotView, RoleUpdate, RoleUpdateOutcome, RoleUpdateView,
};
use crate::resource::change::{change_if_wanted, desired_of, desired_value, ValueChange};
use crate::resource::role::apply::{has_values, role_matches_update, RoleAction, RoleActionView, RoleApplyOptions};
use crate::resource::role::attributes::{compose_attributes, composed};
use crate::resource::role::order::{find_first_role, first_role_with_id};
use crate::service::plan::{
    build_plan, plans_name_each_role_once, tracked_plan, unknown_permission, unknown_permission_error, AttributeChange,
    AttributeChangeView, LifecycleView, RoleLifecycleChange, RolePlan, RolePlanView,
};
use crate::service::state::{serialize_state, tracked_text, TrackedState, TrackedView};
use crate::text::{decimal, text3, text5};
use crate::value::{seen, Plain};

verus! {

/// How an application of a plan ended.
#[derive(Clone, Debug)]
pub enum RoleApplyStatus {
    Complete,
    GuildBusy,
    ReplanRequired,
    DeadlineExceeded,
    DeletionPermissionRequired,
    DeletionPermissionDenied(String),
    DeletionVerificationPermissionDenied(String),
    CreationResponseUnknown,
    DeletionResponseUnknown,
    DeletionVerificationIndeterminate(String),
    Failed(String),
    ResponseUnknown,
}

/// How an application of a plan ended.
pub enum RoleStatusView {
    Complete,
    GuildBusy,
    ReplanRequired,
    DeadlineExceeded,
    DeletionPermissionRequired,
    DeletionPermissionDenied(Seq<char>),
    DeletionVerificationPermissionDenied(Seq<char>),
    CreationResponseUnknown,
    DeletionResponseUnknown,
    DeletionVerificationIndeterminate(Seq<char>),
    Failed(Seq<char>),
    ResponseUnknown,
}

impl DeepView for RoleApplyStatus {
    type V = RoleStatusView;

    open spec fn deep_view(&self) -> RoleStatusView {
        match self {
            RoleApplyStatus::Complete => RoleStatusView::Complete,
            RoleApplyStatus::GuildBusy => RoleStatusView::GuildBusy,
            RoleApplyStatus::ReplanRequired => RoleStatusView::ReplanRequired,
            RoleApplyStatus::DeadlineExceeded => RoleStatusView::DeadlineExceeded,
            RoleApplyStatus::DeletionPermissionRequired => RoleStatusView::DeletionPermissionRequired,
            RoleApplyStatus::DeletionPermissionDenied(text) => RoleStatusView::DeletionPermissionDenied(text@),
            RoleApplyStatus::DeletionVerificationPermissionDenied(text) =>
                RoleStatusView::DeletionVerificationPermissionDenied(text@),
            RoleApplyStatus::CreationResponseUnknown => RoleStatusView::CreationResponseUnknown,
            RoleApplyStatus::DeletionResponseUnknown => RoleStatusView::DeletionResponseUnknown,
            RoleApplyStatus::DeletionVerificationIndeterminate(text) =>
                RoleStatusView::DeletionVerificationIndeterminate(text@),
            RoleApplyStatus::Failed(text) => RoleStatusView::Failed(text@),
            RoleApplyStatus::ResponseUnknown => RoleStatusView::ResponseUnknown,
        }
    }
}

/// What came of applying a plan.
pub struct RoleApplyResult {
    pub status: RoleApplyStatus,
    pub applied: Vec<AttributeChange>,
    pub pending: Vec<AttributeChange>,
    pub applied_lifecycle: Vec<RoleLifecycleChange>,
    pub pending_lifecycle: Vec<RoleLifecycleChange>,
    pub state_json: String,
}

/// What the result of applying a plan holds.
pub struct RoleApplyResultView {
    pub status: RoleStatusView,
    pub applied: RolePlanView,
    pub pending: RolePlanView,
    pub state_json: Seq<char>,
}

impl DeepView for RoleApplyResult {
    type V = RoleApplyResultView;

    open spec fn deep_view(&self) -> RoleApplyResultView {
        RoleApplyResultView {
            status: self.status.deep_view(),
            applied: RolePlanView {
                changes: self.applied.deep_view(),
                lifecycle: self.applied_lifecycle.deep_view(),
            },
            pending: RolePlanView {
                changes: self.pending.deep_view(),
                lifecycle: self.pending_lifecycle.deep_view(),
            },
            state_json: self.state_json@,
        }
    }
}

/// Every permission, none of them granted.
pub open spec fn nothing_granted(names: Seq<(Seq<char>, ())>) -> Seq<(Seq<char>, bool)>
    decreases names.len(),
{
    if names.len() == 0 {
        Seq::empty()
    } else {
        put::<KnownPermission, bool>(nothing_granted(names.drop_last()), names.last().0, false)
    }
}

/// Why the default of a permission cannot be used: it is not known.
pub open spec fn default_unknown(permission: Seq<char>) -> ErrorView {
    ErrorView::RoleSource("権限 "@ + permission + " の Guild 既定値を取得できません"@)
}

fn default_unknown_error(permission: &KnownPermission) -> (error: ManagementError)
    ensures
        error.deep_view() == default_unknown(permission.deep_view()),
{
    ManagementError::RoleSource(text3("権限 ", permission.as_str(), " の Guild 既定値を取得できません"))
}

/// Permissions with those that a definition wants for a new role.
pub open spec fn with_granted(
    permissions: Seq<(Seq<char>, bool)>,
    wanted: Seq<(Seq<char>, ManagedValue<bool>)>,
    defaults: Seq<(Seq<char>, bool)>,
) -> Result<Seq<(Seq<char>, bool)>, ErrorView>
    decreases wanted.len(),
{
    if wanted.len() == 0 {
        Ok(permissions)
    } else {
        match lookup(defaults, wanted[0].0) {
            None => Err(default_unknown(wanted[0].0)),
            Some(default) => with_granted(
                put::<KnownPermission, bool>(permissions, wanted[0].0, managed(wanted[0].1, default)),
                wanted.drop_first(),
                defaults,
            ),
        }
    }
}

/// The role that is created for a definition, or why it cannot be. Permissions that
/// the definition does not name are not granted.
pub open spec fn new_role(id: Seq<char>, desired: RoleAttributesView, catalog: RoleCatalogView) -> Result<
    RoleCreateView,
    ErrorView,
> {
    match managed_if_given(desired.name, "new role"@) {
        None => Err(ErrorView::InvalidDefinition("新しい Role "@ + id + " には name が必要です"@)),
        Some(name) => match with_granted(
            nothing_granted(catalog.permission_names),
            desired.permissions,
            catalog.default_permissions,
        ) {
            Err(error) => Err(error),
            Ok(permissions) => Ok(
                RoleCreateView {
                    name,
                    color: crate::port::replaced(0, managed_if_given(desired.color, 0)),
                    hoist: managed_if_given(desired.hoist, false) == Some(true),
                    mentionable: managed_if_given(desired.mentionable, false) == Some(true),
                    permissions,
                },
            ),
        },
    }
}

/// The role that is created for a definition.
#[verifier::loop_isolation(false)]
pub fn build_role_create(desired: &RoleAttributes, catalog: &RoleCatalog, logical_id: &RoleLogicalId) -> (result: Result<
    RoleCreate,
    ManagementError,
>)
    ensures
        seen(result) == new_role(logical_id.deep_view(), desired.deep_view(), catalog.deep_view()),
{
    let name: String = match desired.name.resolve_optional("new role".to_owned()) {
        None => {
            return Err(
                ManagementError::InvalidDefinition(
                    text3("新しい Role ", logical_id.as_str(), " には name が必要です"),
                ),
            );
        },
        Some(name) => name,
    };
    let ghost names = catalog.deep_view().permission_names;
    let mut permissions: OrderedMap<KnownPermission, bool> = OrderedMap::new();
    let mut i: usize = 0;
    assert(names.take(0) =~= Seq::empty());
    while i < catalog.permission_names.len()
        invariant
            i <= names.len(),
            permissions.deep_view() == nothing_granted(names.take(i as int)),
        decreases names.len() - i,
    {
        proof {
            assert(names.take(i + 1).drop_last() =~= names.take(i as int));
            assert(names.take(i + 1).last() == names[i as int]);
        }
        permissions.insert(catalog.permission_names.key_at(i).copy(), false);
        i += 1;
    }
    assert(names.take(i as int) =~= names);
    let ghost wanted = desired.deep_view().permissions;
    let ghost defaults = catalog.deep_view().default_permissions;
    let mut k: usize = 0;
    assert(wanted.skip(0) =~= wanted);
    while k < desired.permissions.len()
        invariant
            k <= wanted.len(),
            with_granted(nothing_granted(names), wanted, defaults) == with_granted(
                permissions.deep_view(),
                wanted.skip(k as int),
                defaults,
            ),
        decreases wanted.len() - k,
    {
        assert(wanted.skip(k as int)[0] == wanted[k as int]);
        assert(wanted.skip(k as int).drop_first() =~= wanted.skip(k + 1));
        let permission: &KnownPermission = desired.permissions.key_at(k);
        match catalog.default_permissions.get(permission) {
            None => {
                return Err(default_unknown_error(permission));
            },
            Some(default) => permissions.insert(
                permission.copy(),
                desired.permissions.value_at(k).resolve(*default),
            ),
        }
        k += 1;
    }
    assert(wanted.skip(k as int) =~= Seq::empty());
    Ok(
        RoleCreate {
            name,
            color: match desired.color.resolve_optional(Color::default()) {
                Some(color) => color,
                None => Color::default(),
            },
            hoist: match desired.hoist.resolve_optional(false) {
                Some(hoist) => hoist,
                None => false,
            },
            mentionable: match desired.mentionable.resolve_optional(false) {
                Some(mentionable) => mentionable,
                None => false,
            },
            permissions,
        },
    )
}

/// Permissions with those changed that a definition wants to be different.
pub open spec fn with_changed(
    permissions: Seq<(Seq<char>, bool)>,
    id: Seq<char>,
    wanted: Seq<(Seq<char>, ManagedValue<bool>)>,
    actual: Seq<(Seq<char>, bool)>,
    defaults: Seq<(Seq<char>, bool)>,
) -> Result<Seq<(Seq<char>, bool)>, ErrorView>
    decreases wanted.len(),
{
    if wanted.len() == 0 {
        Ok(permissions)
    } else {
        match lookup(actual, wanted[0].0) {
            None => Err(unknown_permission(id, wanted[0].0)),
            Some(current) => match lookup(defaults, wanted[0].0) {
                None => Err(default_unknown(wanted[0].0)),
                Some(default) => {
                    let value = managed(wanted[0].1, default);
                    with_changed(
                        if value == current {
                            permissions
                        } else {
                            put::<KnownPermission, bool>(permissions, wanted[0].0, value)
                        },
                        id,
                        wanted.drop_first(),
                        actual,
                        defaults,
                    )
                },
            },
        }
    }
}

/// The update that gives a role the attributes that a definition wants, or why there is none.
pub open spec fn role_update(
    id: Seq<char>,
    actual: RoleSnapshotView,
    desired: RoleAttributesView,
    defaults: Seq<(Seq<char>, bool)>,
) -> Result<RoleUpdateView, ErrorView> {
    match with_changed(actual.permissions, id, desired.permissions, actual.permissions, defaults) {
        Err(error) => Err(error),
        Ok(permissions) => Ok(
            RoleUpdateView {
                name: desired_of(change_if_wanted(actual.name, managed_if_given(desired.name, "new role"@))),
                color: desired_of(change_if_wanted(actual.color, managed_if_given(desired.color, 0))),
                hoist: desired_of(change_if_wanted(actual.hoist, managed_if_given(desired.hoist, false))),
                mentionable: desired_of(
                    change_if_wanted(actual.mentionable, managed_if_given(desired.mentionable, false)),
                ),
                permissions: if permissions == actual.permissions {
                    None
                } else {
                    Some(permissions)
                },
            },
        ),
    }
}

/// The update that gives a role the attributes that a definition wants.
#[verifier::loop_isolation(false)]
pub fn build_role_update(
    actual: &RoleSnapshot,
    desired: &RoleAttributes,
    default_permissions: &OrderedMap<KnownPermission, bool>,
    logical_id: &RoleLogicalId,
) -> (result: Result<RoleUpdate, ManagementError>)
    ensures
        seen(result) == role_update(
            logical_id.deep_view(),
            actual.deep_view(),
            desired.deep_view(),
            default_permissions.deep_view(),
        ),
{
    let mut permissions: OrderedMap<KnownPermission, bool> = actual.permissions.copy();
    let ghost id = logical_id.deep_view();
    let ghost wanted = desired.deep_view().permissions;
    let ghost current_permissions = actual.deep_view().permissions;
    let ghost defaults = default_permissions.deep_view();
    let mut k: usize = 0;
    assert(wanted.skip(0) =~= wanted);
    while k < desired.permissions.len()
        invariant
            k <= wanted.len(),
            with_changed(current_permissions, id, wanted, current_permissions, defaults) == with_changed(
                permissions.deep_view(),
                id,
                wanted.skip(k as int),
                current_permissions,
                defaults,
            ),
        decreases wanted.len() - k,
    {
        assert(wanted.skip(k as int)[0] == wanted[k as int]);
        assert(wanted.skip(k as int).drop_first() =~= wanted.skip(k + 1));
        let permission: &KnownPermission = desired.permissions.key_at(k);
        let current: bool = match actual.permissions.get(permission) {
            None => {
                return Err(unknown_permission_error(logical_id.as_str(), permission.as_str()));
            },
            Some(current) => *current,
        };
        let value: bool = match default_permissions.get(permission) {
            None => {
                return Err(default_unknown_error(permission));
            },
            Some(default) => desired.permissions.value_at(k).resolve(*default),
        };
        if value != current {
            permissions.insert(permission.copy(), value);
        }
        k += 1;
    }
    assert(wanted.skip(k as int) =~= Seq::empty());
    let name: Option<ValueChange<String>> = ValueChange::if_wanted(
        &actual.name,
        desired.name.resolve_optional("new role".to_owned()),
    );
    let color: Option<ValueChange<Color>> = ValueChange::if_wanted(
        &actual.color,
        desired.color.resolve_optional(Color::default()),
    );
    let hoist: Option<ValueChange<bool>> = ValueChange::if_wanted(
        &actual.hoist,
        desired.hoist.resolve_optional(false),
    );
    let mentionable: Option<ValueChange<bool>> = ValueChange::if_wanted(
        &actual.mentionable,
        desired.mentionable.resolve_optional(false),
    );
    Ok(
        RoleUpdate {
            name: desired_value(&name),
            color: desired_value(&color),
            hoist: desired_value(&hoist),
            mentionable: desired_value(&mentionable),
            permissions: if permissions.same(&actual.permissions) {
                None
            } else {
                Some(permissions)
            },
        },
    )
}

/// The declared roles with the attributes they should have.
pub open spec fn desired_roles(definition: DefinitionView) -> Seq<(Seq<char>, RoleAttributesView)> {
    definition.roles.map_values(
        |entry: (Seq<char>, crate::configuration::role::RoleDefinitionView)|
            (entry.0, composed(entry.1, definition.settings_sets.role)),
    )
}

/// The declared roles with the attributes they should have.
pub fn desired_role_attributes(definition: &DefinitionFile) -> (desired: Vec<(RoleLogicalId, RoleAttributes)>)
    ensures
        desired.deep_view() == desired_roles(definition.deep_view()),
{
    let ghost all = desired_roles(definition.deep_view());
    let mut desired: Vec<(RoleLogicalId, RoleAttributes)> = Vec::new();
    let mut i: usize = 0;
    while i < definition.roles.len()
        invariant
            i <= definition.deep_view().roles.len(),
            all == desired_roles(definition.deep_view()),
            desired@.len() == i,
            forall|k: int| 0 <= k < i ==> (#[trigger] desired@[k]).deep_view() == all[k],
        decreases definition.deep_view().roles.len() - i,
    {
        let attributes: RoleAttributes = compose_attributes(
            definition.roles.value_at(i),
            &definition.settings_sets.role,
        );
        desired.push((definition.roles.key_at(i).copy(), attributes));
        i += 1;
    }
    assert(desired.deep_view() =~= all);
    desired
}

/// The changes of one role.
pub open spec fn changes_of(changes: Seq<AttributeChangeView>, id: Seq<char>) -> Seq<AttributeChangeView> {
    changes.filter(|change: AttributeChangeView| change.logical_id == id)
}

/// The changes of all other roles.
pub open spec fn changes_besides(changes: Seq<AttributeChangeView>, id: Seq<char>) -> Seq<AttributeChangeView> {
    changes.filter(|change: AttributeChangeView| change.logical_id != id)
}

/// The creations, releases and deletions besides one.
pub open spec fn lifecycle_besides(lifecycle: Seq<LifecycleView>, done: LifecycleView) -> Seq<LifecycleView> {
    lifecycle.filter(|change: LifecycleView| change != done)
}

/// The first creation, release or deletion of a role.
pub open spec fn lifecycle_of(lifecycle: Seq<LifecycleView>, id: Seq<char>) -> Option<LifecycleView>
    decreases lifecycle.len(),
{
    if lifecycle.len() == 0 {
        None
    } else if lifecycle[0].logical_id() == id {
        Some(lifecycle[0])
    } else {
        lifecycle_of(lifecycle.drop_first(), id)
    }
}

/// Whether a role shall be deleted.
pub open spec fn has_deletion(lifecycle: Seq<LifecycleView>) -> bool {
    exists|i: int| 0 <= i < lifecycle.len() && (#[trigger] lifecycle[i]) is Delete
}

fn split_changes(changes: &Vec<AttributeChange>, id: &RoleLogicalId) -> (split: (
    Vec<AttributeChange>,
    Vec<AttributeChange>,
))
    ensures
        split.0.deep_view() == changes_of(changes.deep_view(), id.deep_view()),
        split.1.deep_view() == changes_besides(changes.deep_view(), id.deep_view()),
{
    let ghost all = changes.deep_view();
    let ghost name = id.deep_view();
    let mut of_role: Vec<AttributeChange> = Vec::new();
    let mut besides: Vec<AttributeChange> = Vec::new();
    let mut i: usize = 0;
    proof {
        reveal(Seq::filter);
        assert(all.take(0) =~= Seq::empty());
        assert(of_role.deep_view() =~= changes_of(all.take(0), name));
        assert(besides.deep_view() =~= changes_besides(all.take(0), name));
    }
    while i < changes.len()
        invariant
            i <= changes@.len(),
            all == changes.deep_view(),
            name == id.deep_view(),
            of_role.deep_view() == changes_of(all.take(i as int), name),
            besides.deep_view() == changes_besides(all.take(i as int), name),
        decreases changes@.len() - i,
    {
        let ghost before = of_role.deep_view();
        let ghost before_besides = besides.deep_view();
        proof {
            reveal(Seq::filter);
            assert(all.take(i + 1).drop_last() =~= all.take(i as int));
            assert(all.take(i + 1).last() == changes@[i as int].deep_view());
        }
        if changes[i].logical_id.same(id) {
            of_role.push(changes[i].copy());
            assert(of_role.deep_view() =~= before.push(changes@[i as int].deep_view()));
        } else {
            besides.push(changes[i].copy());
            assert(besides.deep_view() =~= before_besides.push(changes@[i as int].deep_view()));
        }
        i += 1;
    }
    assert(all.take(i as int) =~= all);
    (of_role, besides)
}

fn remove_lifecycle(lifecycle: &Vec<RoleLifecycleChange>, done: &RoleLifecycleChange) -> (besides: Vec<
    RoleLifecycleChange,
>)
    ensures
        besides.deep_view() == lifecycle_besides(lifecycle.deep_view(), done.deep_view()),
{
    let ghost all = lifecycle.deep_view();
    let mut besides: Vec<RoleLifecycleChange> = Vec::new();
    let mut i: usize = 0;
    proof {
        reveal(Seq::filter);
        assert(all.take(0) =~= Seq::empty());
        assert(besides.deep_view() =~= lifecycle_besides(all.take(0), done.deep_view()));
    }
    while i < lifecycle.len()
        invariant
            i <= lifecycle@.len(),
            all == lifecycle.deep_view(),
            besides.deep_view() == lifecycle_besides(all.take(i as int), done.deep_view()),
        decreases lifecycle@.len() - i,
    {
        let ghost before = besides.deep_view();
        proof {
            reveal(Seq::filter);
            assert(all.take(i + 1).drop_last() =~= all.take(i as int));
            assert(all.take(i + 1).last() == lifecycle@[i as int].deep_view());
        }
        if !lifecycle[i].same(done) {
            besides.push(lifecycle[i].copy());
            assert(besides.deep_view() =~= before.push(lifecycle@[i as int].deep_view()));
        }
        i += 1;
    }
    assert(all.take(i as int) =~= all);
    besides
}

fn find_lifecycle(lifecycle: &Vec<RoleLifecycleChange>, id: &RoleLogicalId) -> (found: Option<RoleLifecycleChange>)
    ensures
        found.deep_view() == lifecycle_of(lifecycle.deep_view(), id.deep_view()),
{
    let ghost all = lifecycle.deep_view();
    let mut i: usize = 0;
    assert(all.skip(0) =~= all);
    while i < lifecycle.len()
        invariant
            i <= lifecycle@.len(),
            all == lifecycle.deep_view(),
            lifecycle_of(all, id.deep_view()) == lifecycle_of(all.skip(i as int), id.deep_view()),
        decreases lifecycle@.len() - i,
    {
        assert(all.skip(i as int)[0] == lifecycle@[i as int].deep_view());
        assert(all.skip(i as int).drop_first() =~= all.skip(i + 1));
        if lifecycle[i].logical_id().same(id) {
            return Some(lifecycle[i].copy());
        }
        i += 1;
    }
    None
}

fn contains_deletion(lifecycle: &Vec<RoleLifecycleChange>) -> (answer: bool)
    ensures
        answer == has_deletion(lifecycle.deep_view()),
{
    let ghost all = lifecycle.deep_view();
    let mut i: usize = 0;
    while i < lifecycle.len()
        invariant
            i <= lifecycle@.len(),
            all == lifecycle.deep_view(),
            forall|k: int| 0 <= k < i ==> !((#[trigger] all[k]) is Delete),
        decreases lifecycle@.len() - i,
    {
        if matches!(lifecycle[i], RoleLifecycleChange::Delete { .. }) {
            assert(all[i as int] is Delete);
            return true;
        }
        assert(!(all[i as int] is Delete));
        i += 1;
    }
    false
}

/// What a session waits for. Replies concern the role that was taken up last.
pub enum RolePhase {
    /// For the roles of the guild, before anything is changed.
    Opening,
    /// To take up the next role.
    Ready,
    /// To go on with the attributes of a role.
    Attributes,
    /// For the reply to an update.
    Updating { role_id: RoleId, update: RoleUpdate },
    /// For the roles after an update, whose reply may not have come.
    CheckingUpdate { role_id: RoleId, update: RoleUpdate, acknowledged: bool },
    /// For the reply to a creation.
    Creating { create: RoleCreate, change: RoleLifecycleChange },
    /// For the reply to a deletion.
    Deleting { role_id: RoleId, change: RoleLifecycleChange },
    /// For the roles after a deletion whose reply did not come.
    CheckingDeletion { role_id: RoleId, change: RoleLifecycleChange },
    /// For the roles after a creation or a deletion.
    Refreshing,
    /// For nothing: the application has ended.
    Finished(RoleApplyStatus),
    /// For nothing: the application has failed without a result.
    Broken(ManagementError),
}

/// What a session waits for.
pub enum RolePhaseView {
    Opening,
    Ready,
    Attributes,
    Updating { role_id: u64, update: RoleUpdateView },
    CheckingUpdate { role_id: u64, update: RoleUpdateView, acknowledged: bool },
    Creating { create: RoleCreateView, change: LifecycleView },
    Deleting { role_id: u64, change: LifecycleView },
    CheckingDeletion { role_id: u64, change: LifecycleView },
    Refreshing,
    Finished(RoleStatusView),
    Broken(ErrorView),
}

impl DeepView for RolePhase {
    type V = RolePhaseView;

    open spec fn deep_view(&self) -> RolePhaseView {
        match self {
            RolePhase::Opening => RolePhaseView::Opening,
            RolePhase::Ready => RolePhaseView::Ready,
            RolePhase::Attributes => RolePhaseView::Attributes,
            RolePhase::Updating { role_id, update } => RolePhaseView::Updating {
                role_id: role_id.deep_view(),
                update: update.deep_view(),
            },
            RolePhase::CheckingUpdate { role_id, update, acknowledged } => RolePhaseView::CheckingUpdate {
                role_id: role_id.deep_view(),
                update: update.deep_view(),
                acknowledged: *acknowledged,
            },
            RolePhase::Creating { create, change } => RolePhaseView::Creating {
                create: create.deep_view(),
                change: change.deep_view(),
            },
            RolePhase::Deleting { role_id, change } => RolePhaseView::Deleting {
                role_id: role_id.deep_view(),
                change: change.deep_view(),
            },
            RolePhase::CheckingDeletion { role_id, change } => RolePhaseView::CheckingDeletion {
                role_id: role_id.deep_view(),
                change: change.deep_view(),
            },
            RolePhase::Refreshing => RolePhaseView::Refreshing,
            RolePhase::Finished(status) => RolePhaseView::Finished(status.deep_view()),
            RolePhase::Broken(error) => RolePhaseView::Broken(error.deep_view()),
        }
    }
}

/// What a session is told.
pub enum RoleEvent {
    Proceed,
    Updated(Reply<RoleUpdateOutcome>),
    Created(Reply<RoleCreateOutcome>),
    Deleted(Reply<RoleDeleteOutcome>),
    Catalog(Reply<RoleCatalog>),
}

/// What a session is told.
pub enum RoleEventView {
    Proceed,
    Updated(ReplyView<RoleUpdateOutcome>),
    Created(ReplyView<RoleCreateOutcomeView>),
    Deleted(ReplyView<RoleDeleteOutcome>),
    Catalog(ReplyView<RoleCatalogView>),
}

impl DeepView for RoleEvent {
    type V = RoleEventView;

    open spec fn deep_view(&self) -> RoleEventView {
        match self {
            RoleEvent::Proceed => RoleEventView::Proceed,
            RoleEvent::Updated(reply) => RoleEventView::Updated(reply.deep_view()),
            RoleEvent::Created(reply) => RoleEventView::Created(reply.deep_view()),
            RoleEvent::Deleted(reply) => RoleEventView::Deleted(reply.deep_view()),
            RoleEvent::Catalog(reply) => RoleEventView::Catalog(reply.deep_view()),
        }
    }
}

/// An application of a plan that is under way.
pub struct RoleApplySession {
    pub definition: DefinitionFile,
    pub state: TrackedState,
    pub catalog: RoleCatalog,
    pub applied: RolePlan,
    pub pending: RolePlan,
    /// The declared roles with the attributes they should have.
    pub desired: Vec<(RoleLogicalId, RoleAttributes)>,
    /// How many of the declared roles are done.
    pub done: usize,
    /// What is allowed, or `None` where only attributes may change.
    pub lifecycle: Option<RoleApplyOptions>,
    pub deadline: u64,
    pub phase: RolePhase,
}

/// What a session holds.
pub struct RoleSessionView {
    pub definition: DefinitionView,
    pub state: TrackedView,
    pub catalog: RoleCatalogView,
    pub applied: RolePlanView,
    pub pending: RolePlanView,
    pub desired: Seq<(Seq<char>, RoleAttributesView)>,
    pub done: int,
    pub lifecycle: Option<RoleApplyOptions>,
    pub deadline: u64,
    pub phase: RolePhaseView,
}

impl DeepView for RoleApplySession {
    type V = RoleSessionView;

    open spec fn deep_view(&self) -> RoleSessionView {
        RoleSessionView {
            definition: self.definition.deep_view(),
            state: self.state.deep_view(),
            catalog: self.catalog.deep_view(),
            applied: self.applied.deep_view(),
            pending: self.pending.deep_view(),
            desired: self.desired.deep_view(),
            done: self.done as int,
            lifecycle: self.lifecycle,
            deadline: self.deadline,
            phase: self.phase.deep_view(),
        }
    }
}

/// The state after a role was created.
pub open spec fn state_created(state: TrackedView, id: Seq<char>, role_id: u64) -> TrackedView {
    TrackedView {
        bindings: StateView {
            roles: put::<RoleLogicalId, u64>(state.bindings.roles, id, role_id),
            ..state.bindings
        },
        deleted_roles: without(state.deleted_roles, id),
        pending_creations: without(state.pending_creations, id),
        pending_deletions: state.pending_deletions,
    }
}

/// The state after a role was deleted.
pub open spec fn state_deleted(state: TrackedView, id: Seq<char>) -> TrackedView {
    TrackedView {
        deleted_roles: put::<RoleLogicalId, ()>(state.deleted_roles, id, ()),
        pending_deletions: without(state.pending_deletions, id),
        ..state
    }
}

/// The state after a role is managed no more.
pub open spec fn state_released(state: TrackedView, id: Seq<char>) -> TrackedView {
    TrackedView {
        bindings: StateView { roles: without(state.bindings.roles, id), ..state.bindings },
        deleted_roles: without(state.deleted_roles, id),
        pending_creations: without(state.pending_creations, id),
        pending_deletions: without(state.pending_deletions, id),
    }
}

impl RoleSessionView {
    /// The session in another phase.
    pub open spec fn to(self, phase: RolePhaseView) -> RoleSessionView {
        RoleSessionView { phase, ..self }
    }

    /// The session, ended.
    pub open spec fn finished(self, status: RoleStatusView) -> RoleSessionView {
        self.to(RolePhaseView::Finished(status))
    }

    /// The name of the role that was taken up.
    pub open spec fn current(self) -> Seq<char> {
        self.desired[self.done].0
    }

    /// The session after the role that was taken up is done.
    pub open spec fn next(self) -> RoleSessionView {
        RoleSessionView { done: self.done + 1, ..self }.to(RolePhaseView::Ready)
    }

    /// The session after the changes of the attributes of a role were made.
    pub open spec fn updated_role(self, id: Seq<char>) -> RoleSessionView {
        RoleSessionView {
            applied: RolePlanView {
                changes: self.applied.changes + changes_of(self.pending.changes, id),
                ..self.applied
            },
            pending: RolePlanView { changes: changes_besides(self.pending.changes, id), ..self.pending },
            ..self
        }
    }

    /// The session after a creation, release or deletion was made.
    pub open spec fn settled(self, change: LifecycleView) -> RoleSessionView {
        RoleSessionView {
            applied: self.applied.with(change),
            pending: RolePlanView {
                lifecycle: lifecycle_besides(self.pending.lifecycle, change),
                ..self.pending
            },
            ..self
        }
    }

    /// The session after the role that was taken up was deleted.
    pub open spec fn deleted_role(self, change: LifecycleView) -> RoleSessionView {
        RoleSessionView { state: state_deleted(self.state, self.current()), ..self }.settled(change)
    }

    /// The session after the given releases, from a place on, were made.
    pub open spec fn released(self, lifecycle: Seq<LifecycleView>, i: int) -> RoleSessionView
        decreases lifecycle.len() - i,
    {
        if i < 0 || i >= lifecycle.len() {
            self
        } else if lifecycle[i] is Release {
            RoleSessionView { state: state_released(self.state, lifecycle[i].logical_id()), ..self }.settled(
                lifecycle[i],
            ).released(lifecycle, i + 1)
        } else {
            self.released(lifecycle, i + 1)
        }
    }

    /// The session once it is known what roles there are.
    pub open spec fn opened(self, reply: ReplyView<RoleCatalogView>) -> RoleSessionView {
        match reply {
            ReplyView::Refused(error) => self.finished(RoleStatusView::Failed(error.chars())),
            ReplyView::TimedOut => self.finished(RoleStatusView::DeadlineExceeded),
            ReplyView::Answered(catalog) => match tracked_plan(self.definition, self.state, catalog) {
                Err(error) => self.to(RolePhaseView::Broken(error)),
                Ok(plan) => if plan != self.pending {
                    RoleSessionView { pending: plan, ..self }.finished(RoleStatusView::ReplanRequired)
                } else {
                    let opened = RoleSessionView {
                        catalog,
                        desired: desired_roles(self.definition),
                        done: 0,
                        ..self
                    };
                    match self.lifecycle {
                        None => if plan.lifecycle.len() > 0 {
                            opened.to(RolePhaseView::Broken(lifecycle_not_allowed()))
                        } else {
                            opened.to(RolePhaseView::Ready)
                        },
                        Some(options) => if !options.allow_deletions && has_deletion(plan.lifecycle) {
                            opened.finished(RoleStatusView::DeletionPermissionRequired)
                        } else {
                            opened.to(RolePhaseView::Ready)
                        },
                    }
                },
            },
        }
    }

    /// The session after it took up the attributes of a role.
    pub open spec fn taken_attributes(self, now: u64) -> RoleSessionView {
        let (id, desired) = self.desired[self.done];
        match role_id_of(self.state.bindings, id) {
            None => self.to(
                RolePhaseView::Broken(ErrorView::InvalidState("Role "@ + id + " の対応がありません"@)),
            ),
            Some(role_id) => if changes_of(self.pending.changes, id).len() == 0 {
                self.next()
            } else if now >= self.deadline {
                self.finished(RoleStatusView::DeadlineExceeded)
            } else {
                match first_role_with_id(self.catalog.roles, role_id) {
                    None => self.to(
                        RolePhaseView::Broken(
                            ErrorView::InvalidState(
                                "Role "@ + id + " の Snowflake "@ + decimal(role_id as nat)
                                    + " が Guild に存在しません"@,
                            ),
                        ),
                    ),
                    Some(actual) => match role_update(id, actual, desired, self.catalog.default_permissions) {
                        Err(error) => self.to(RolePhaseView::Broken(error)),
                        Ok(update) => if update.is_empty() {
                            self.next()
                        } else {
                            self.to(RolePhaseView::Updating { role_id, update })
                        },
                    },
                }
            },
        }
    }

    /// The session after it took up a creation.
    pub open spec fn taken_create(self, change: LifecycleView, now: u64) -> RoleSessionView {
        let (id, desired) = self.desired[self.done];
        if now >= self.deadline {
            self.finished(RoleStatusView::DeadlineExceeded)
        } else {
            match new_role(id, desired, self.catalog) {
                Err(error) => self.to(RolePhaseView::Broken(error)),
                Ok(create) => RoleSessionView {
                    state: TrackedView {
                        pending_creations: put::<RoleLogicalId, ()>(self.state.pending_creations, id, ()),
                        ..self.state
                    },
                    ..self
                }.to(RolePhaseView::Creating { create, change }),
            }
        }
    }

    /// The session after it took up a deletion.
    pub open spec fn taken_delete(self, change: LifecycleView, role_id: u64, now: u64) -> RoleSessionView {
        if !(self.lifecycle is Some && self.lifecycle->0.allow_deletions) {
            self.finished(RoleStatusView::DeletionPermissionRequired)
        } else if now >= self.deadline {
            self.finished(RoleStatusView::DeadlineExceeded)
        } else {
            let deleting = RoleSessionView {
                state: TrackedView {
                    pending_deletions: put::<RoleLogicalId, ()>(
                        self.state.pending_deletions,
                        self.current(),
                        (),
                    ),
                    ..self.state
                },
                ..self
            };
            if first_role_with_id(self.catalog.roles, role_id) is None {
                deleting.deleted_role(change).next()
            } else {
                deleting.to(RolePhaseView::Deleting { role_id, change })
            }
        }
    }

    /// The session after it went on.
    pub open spec fn proceeded(self, now: u64) -> RoleSessionView {
        if self.done < self.desired.len() {
            let change = if self.lifecycle is None {
                None
            } else {
                lifecycle_of(self.pending.lifecycle, self.current())
            };
            match change {
                Some(change) => match change {
                    LifecycleView::Create { .. } => self.taken_create(change, now),
                    LifecycleView::Delete { discord_id, .. } => self.taken_delete(change, discord_id, now),
                    LifecycleView::Release { .. } => self.taken_attributes(now),
                },
                None => self.taken_attributes(now),
            }
        } else if self.lifecycle is Some {
            self.released(self.pending.lifecycle, 0).finished(RoleStatusView::Complete)
        } else {
            self.finished(RoleStatusView::Complete)
        }
    }

    /// The session after the reply to an update. Without an answer the roles are read
    /// to see whether it was made.
    pub open spec fn updated(
        self,
        role_id: u64,
        update: RoleUpdateView,
        reply: ReplyView<RoleUpdateOutcome>,
    ) -> RoleSessionView {
        match reply {
            ReplyView::Refused(error) => self.finished(RoleStatusView::Failed(error.chars())),
            ReplyView::Answered(RoleUpdateOutcome::Applied) => self.updated_role(self.current()).to(
                RolePhaseView::CheckingUpdate { role_id, update, acknowledged: true },
            ),
            _ => self.to(RolePhaseView::CheckingUpdate { role_id, update, acknowledged: false }),
        }
    }

    /// The session after the roles were read after an update.
    pub open spec fn checked_update(
        self,
        role_id: u64,
        update: RoleUpdateView,
        acknowledged: bool,
        reply: ReplyView<RoleCatalogView>,
    ) -> RoleSessionView {
        match reply {
            ReplyView::Refused(error) => self.finished(RoleStatusView::Failed(error.chars())),
            ReplyView::TimedOut => self.finished(
                if acknowledged {
                    RoleStatusView::DeadlineExceeded
                } else {
                    RoleStatusView::ResponseUnknown
                },
            ),
            ReplyView::Answered(catalog) => {
                let refreshed = RoleSessionView { catalog, ..self };
                let role = first_role_with_id(catalog.roles, role_id);
                if role is Some && has_values(role->0, update) {
                    if acknowledged {
                        refreshed.next()
                    } else {
                        refreshed.updated_role(self.current()).next()
                    }
                } else {
                    refreshed.finished(
                        if acknowledged {
                            RoleStatusView::Failed(
                                "Role "@ + self.current() + " の更新後の値が希望値と一致しません"@,
                            )
                        } else {
                            RoleStatusView::ResponseUnknown
                        },
                    )
                }
            },
        }
    }

    /// The session after the reply to a creation. Without an answer the creation stays
    /// recorded as under way.
    pub open spec fn created(self, change: LifecycleView, reply: ReplyView<RoleCreateOutcomeView>) -> RoleSessionView {
        let id = self.current();
        match reply {
            ReplyView::Refused(error) => RoleSessionView {
                state: TrackedView {
                    pending_creations: without(self.state.pending_creations, id),
                    ..self.state
                },
                ..self
            }.finished(RoleStatusView::Failed(error.chars())),
            ReplyView::Answered(RoleCreateOutcomeView::Created(role_id)) => if holder(
                self.state.bindings.roles,
                role_id,
            ) is Some {
                self.to(
                    RolePhaseView::Broken(
                        ErrorView::InvalidState(
                            "新しく作成した Role "@ + decimal(role_id as nat)
                                + " は既存の対応と衝突しています"@,
                        ),
                    ),
                )
            } else {
                RoleSessionView { state: state_created(self.state, id, role_id), ..self }.settled(change).to(
                    RolePhaseView::Refreshing,
                )
            },
            _ => self.finished(RoleStatusView::CreationResponseUnknown),
        }
    }

    /// The session after the reply to a deletion. Without an answer the roles are read
    /// to see whether it was made.
    pub open spec fn deleted(
        self,
        role_id: u64,
        change: LifecycleView,
        reply: ReplyView<RoleDeleteOutcome>,
    ) -> RoleSessionView {
        match reply {
            ReplyView::Refused(ErrorView::RolePermissionDenied(message)) => self.finished(
                RoleStatusView::DeletionPermissionDenied(message),
            ),
            ReplyView::Refused(error) => self.finished(RoleStatusView::Failed(error.chars())),
            ReplyView::Answered(RoleDeleteOutcome::Deleted) => self.deleted_role(change).to(
                RolePhaseView::Refreshing,
            ),
            _ => self.to(RolePhaseView::CheckingDeletion { role_id, change }),
        }
    }

    /// The session after the roles were read after a deletion whose reply did not come.
    pub open spec fn checked_deletion(
        self,
        role_id: u64,
        change: LifecycleView,
        reply: ReplyView<RoleCatalogView>,
    ) -> RoleSessionView {
        match reply {
            ReplyView::Refused(ErrorView::RoleCatalogPermissionDenied(message)) => self.finished(
                RoleStatusView::DeletionVerificationPermissionDenied(message),
            ),
            ReplyView::Refused(error) => self.finished(
                RoleStatusView::DeletionVerificationIndeterminate(error.chars()),
            ),
            ReplyView::TimedOut => self.finished(
                RoleStatusView::DeletionVerificationIndeterminate(
                    "削除後の Role 存在確認が期限内に完了しませんでした"@,
                ),
            ),
            ReplyView::Answered(catalog) => {
                let refreshed = RoleSessionView { catalog, ..self };
                if first_role_with_id(catalog.roles, role_id) is Some {
                    refreshed.finished(RoleStatusView::DeletionResponseUnknown)
                } else {
                    refreshed.deleted_role(change).to(RolePhaseView::Attributes)
                }
            },
        }
    }

    /// The session after the roles were read once more.
    pub open spec fn refreshed(self, reply: ReplyView<RoleCatalogView>) -> RoleSessionView {
        match reply {
            ReplyView::Refused(error) => self.finished(RoleStatusView::Failed(error.chars())),
            ReplyView::TimedOut => self.finished(RoleStatusView::DeadlineExceeded),
            ReplyView::Answered(catalog) => RoleSessionView { catalog, ..self }.to(RolePhaseView::Attributes),
        }
    }

    /// The session after it was told something. What it does not wait for leaves it as it is.
    pub open spec fn after(self, event: RoleEventView, now: u64) -> RoleSessionView {
        match (self.phase, event) {
            (RolePhaseView::Opening, RoleEventView::Catalog(reply)) => self.opened(reply),
            (RolePhaseView::Ready, RoleEventView::Proceed) => self.proceeded(now),
            (RolePhaseView::Attributes, RoleEventView::Proceed) => if self.done < self.desired.len() {
                self.taken_attributes(now)
            } else {
                self
            },
            (RolePhaseView::Updating { role_id, update }, RoleEventView::Updated(reply)) => self.updated(
                role_id,
                update,
                reply,
            ),
            (
                RolePhaseView::CheckingUpdate { role_id, update, acknowledged },
                RoleEventView::Catalog(reply),
            ) => self.checked_update(role_id, update, acknowledged, reply),
            (RolePhaseView::Creating { change, .. }, RoleEventView::Created(reply)) => self.created(change, reply),
            (RolePhaseView::Deleting { role_id, change }, RoleEventView::Deleted(reply)) => self.deleted(
                role_id,
                change,
                reply,
            ),
            (RolePhaseView::CheckingDeletion { role_id, change }, RoleEventView::Catalog(reply)) =>
                self.checked_deletion(role_id, change, reply),
            (RolePhaseView::Refreshing, RoleEventView::Catalog(reply)) => self.refreshed(reply),
            _ => self,
        }
    }

    /// What the session asks for.
    pub open spec fn action(self) -> RoleActionView {
        match self.phase {
            RolePhaseView::Opening => RoleActionView::ReadCatalog { until: self.deadline },
            RolePhaseView::Ready | RolePhaseView::Attributes => RoleActionView::Proceed,
            RolePhaseView::Updating { role_id, update } => RoleActionView::Update {
                role_id,
                update,
                until: self.deadline,
            },
            RolePhaseView::Creating { create, .. } => RoleActionView::Create { create, until: self.deadline },
            RolePhaseView::Deleting { role_id, .. } => RoleActionView::Delete { role_id, until: self.deadline },
            RolePhaseView::CheckingUpdate { .. } | RolePhaseView::CheckingDeletion { .. }
            | RolePhaseView::Refreshing => RoleActionView::ReadCatalog { until: refresh_until(self.deadline) },
            RolePhaseView::Finished(_) | RolePhaseView::Broken(_) => RoleActionView::Finish,
        }
    }

    /// Whether the role that was taken up is one of the declared ones, in every phase
    /// that concerns it.
    pub open spec fn is_consistent(self) -> bool {
        &&& 0 <= self.done <= self.desired.len()
        &&& (self.phase is Opening || self.phase is Ready || self.phase is Finished || self.phase is Broken || self.done
            < self.desired.len())
    }

    /// The result of the session, once it has ended.
    pub open spec fn result(self) -> Result<RoleApplyResultView, ErrorView> {
        match self.phase {
            RolePhaseView::Finished(status) => Ok(
                RoleApplyResultView {
                    status,
                    applied: self.applied,
                    pending: self.pending,
                    state_json: tracked_text(self.state),
                },
            ),
            RolePhaseView::Broken(error) => Err(error),
            _ => arbitrary(),
        }
    }
}

/// Why an application that only changes attributes has no result: another change is in the plan.
pub open spec fn lifecycle_not_allowed() -> ErrorView {
    ErrorView::InvalidState("属性更新専用の apply_role_updates には lifecycle 変更を含められません"@)
}

/// What an application of a plan starts with: a result where it cannot be started,
/// or a session.
pub enum RoleApplyStart {
    Finished(RoleApplyResult),
    Started(RoleApplySession),
}

/// What an application of a plan starts with.
pub enum RoleStartView {
    Finished(RoleApplyResultView),
    Started(RoleSessionView),
}

impl DeepView for RoleApplyStart {
    type V = RoleStartView;

    open spec fn deep_view(&self) -> RoleStartView {
        match self {
            RoleApplyStart::Finished(result) => RoleStartView::Finished(result.deep_view()),
            RoleApplyStart::Started(session) => RoleStartView::Started(session.deep_view()),
        }
    }
}

/// A session at its start.
pub open spec fn new_session(
    definition: DefinitionView,
    state: TrackedView,
    plan: RolePlanView,
    lifecycle: Option<RoleApplyOptions>,
    deadline: u64,
) -> RoleSessionView {
    RoleSessionView {
        definition,
        state,
        catalog: RoleCatalogView::none(),
        applied: RolePlanView::none(),
        pending: plan,
        desired: Seq::empty(),
        done: 0,
        lifecycle,
        deadline,
        phase: RolePhaseView::Opening,
    }
}

/// How an application of a plan starts, or why it fails without a result. The
/// definition only counts where the guild was free and time is left.
pub open spec fn started(
    state: TrackedView,
    definition: Result<DefinitionView, ErrorView>,
    plan: RolePlanView,
    lifecycle: Option<RoleApplyOptions>,
    acquired: bool,
    now: u64,
    deadline: u64,
) -> Result<RoleStartView, ErrorView> {
    if !acquired || now >= deadline {
        Ok(
            RoleStartView::Finished(
                RoleApplyResultView {
                    status: if acquired {
                        RoleStatusView::DeadlineExceeded
                    } else {
                        RoleStatusView::GuildBusy
                    },
                    applied: RolePlanView::none(),
                    pending: plan,
                    state_json: tracked_text(state),
                },
            ),
        )
    } else {
        match definition {
            Err(error) => Err(error),
            Ok(definition) => Ok(RoleStartView::Started(new_session(definition, state, plan, lifecycle, deadline))),
        }
    }
}

fn failure(error: &ManagementError) -> (status: RoleApplyStatus)
    ensures
        status.deep_view() == RoleStatusView::Failed(error.deep_view().chars()),
{
    RoleApplyStatus::Failed(error.to_text())
}

/// Starts to apply a plan.
pub fn prepare_apply(
    state: TrackedState,
    definition: Result<DefinitionFile, ManagementError>,
    confirmed_plan: &RolePlan,
    lifecycle: Option<RoleApplyOptions>,
    acquired: bool,
    now: u64,
    deadline: u64,
) -> (result: Result<RoleApplyStart, ManagementError>)
    ensures
        seen(result) == started(
            state.deep_view(),
            seen(definition),
            confirmed_plan.deep_view(),
            lifecycle,
            acquired,
            now,
            deadline,
        ),
        result is Ok && result->Ok_0 is Started ==> result->Ok_0->Started_0.deep_view().is_consistent(),
{
    let none: RolePlan = RolePlan::none();
    let pending: RolePlan = confirmed_plan.copy();
    if !acquired || now >= deadline {
        let status: RoleApplyStatus = if acquired {
            RoleApplyStatus::DeadlineExceeded
        } else {
            RoleApplyStatus::GuildBusy
        };
        let state_json: String = serialize_state(&state)?;
        return Ok(
            RoleApplyStart::Finished(
                RoleApplyResult {
                    status,
                    applied: none.changes,
                    pending: pending.changes,
                    applied_lifecycle: none.lifecycle,
                    pending_lifecycle: pending.lifecycle,
                    state_json,
                },
            ),
        );
    }
    let definition: DefinitionFile = definition?;
    let desired: Vec<(RoleLogicalId, RoleAttributes)> = Vec::new();
    assert(desired.deep_view() =~= Seq::empty());
    Ok(
        RoleApplyStart::Started(
            RoleApplySession {
                definition,
                state,
                catalog: RoleCatalog::none(),
                applied: none,
                pending,
                desired,
                done: 0,
                lifecycle,
                deadline,
                phase: RolePhase::Opening,
            },
        ),
    )
}

pub(crate) proof fn releases_keep_place(session: RoleSessionView, lifecycle: Seq<LifecycleView>, i: int)
    ensures
        session.released(lifecycle, i).done == session.done,
        session.released(lifecycle, i).desired == session.desired,
    decreases lifecycle.len() - i,
{
    if 0 <= i < lifecycle.len() {
        if lifecycle[i] is Release {
            let released = RoleSessionView {
                state: state_released(session.state, lifecycle[i].logical_id()),
                ..session
            }.settled(lifecycle[i]);
            releases_keep_place(released, lifecycle, i + 1);
        } else {
            releases_keep_place(session, lifecycle, i + 1);
        }
    }
}

impl RoleApplySession {
    fn finish(&mut self, status: RoleApplyStatus)
        ensures
            final(self).deep_view() == old(self).deep_view().finished(status.deep_view()),
    {
        self.phase = RolePhase::Finished(status);
    }

    fn fail(&mut self, error: ManagementError)
        ensures
            final(self).deep_view() == old(self).deep_view().to(RolePhaseView::Broken(error.deep_view())),
    {
        self.phase = RolePhase::Broken(error);
    }

    fn current(&self) -> (id: RoleLogicalId)
        requires
            self.deep_view().done < self.deep_view().desired.len(),
        ensures
            id.deep_view() == self.deep_view().current(),
    {
        let id: RoleLogicalId = self.desired[self.done].0.copy();
        assert(self.deep_view().desired[self.done as int] == self.desired@[self.done as int].deep_view());
        id
    }

    fn advance(&mut self)
        requires
            old(self).deep_view().done < old(self).deep_view().desired.len(),
        ensures
            final(self).deep_view() == old(self).deep_view().next(),
            final(self).deep_view().is_consistent(),
    {
        let _n: usize = self.desired.len();
        self.done += 1;
        self.phase = RolePhase::Ready;
    }

    fn mark_updated(&mut self, id: &RoleLogicalId)
        ensures
            final(self).deep_view() == old(self).deep_view().updated_role(id.deep_view()),
    {
        let ghost before = self.applied.changes.deep_view();
        let (mut of_role, besides): (Vec<AttributeChange>, Vec<AttributeChange>) = split_changes(
            &self.pending.changes,
            id,
        );
        let ghost added = of_role.deep_view();
        self.applied.changes.append(&mut of_role);
        assert(self.applied.changes.deep_view() =~= before + added);
        self.pending.changes = besides;
    }

    fn settle(&mut self, change: &RoleLifecycleChange)
        ensures
            final(self).deep_view() == old(self).deep_view().settled(change.deep_view()),
    {
        let ghost before = self.applied.lifecycle.deep_view();
        self.pending.lifecycle = remove_lifecycle(&self.pending.lifecycle, change);
        self.applied.lifecycle.push(change.copy());
        assert(self.applied.lifecycle.deep_view() =~= before.push(change.deep_view()));
    }

    fn mark_deleted(&mut self, change: &RoleLifecycleChange)
        requires
            old(self).deep_view().done < old(self).deep_view().desired.len(),
        ensures
            final(self).deep_view() == old(self).deep_view().deleted_role(change.deep_view()),
    {
        let id: RoleLogicalId = self.current();
        self.state.pending_deletions.remove(&id);
        self.state.deleted_roles.insert(id, ());
        self.settle(change);
    }

    fn release_all(&mut self)
        ensures
            final(self).deep_view() == old(self).deep_view().released(old(self).deep_view().pending.lifecycle, 0),
    {
        let lifecycle: Vec<RoleLifecycleChange> = self.pending.lifecycle.copy();
        let ghost all = lifecycle.deep_view();
        let ghost start = self.deep_view();
        let mut i: usize = 0;
        while i < lifecycle.len()
            invariant
                i <= lifecycle@.len(),
                all == lifecycle.deep_view(),
                start.released(all, 0) == self.deep_view().released(all, i as int),
            decreases lifecycle@.len() - i,
        {
            assert(all[i as int] == lifecycle@[i as int].deep_view());
            let change: &RoleLifecycleChange = &lifecycle[i];
            if matches!(change, RoleLifecycleChange::Release { .. }) {
                let id: &RoleLogicalId = change.logical_id();
                self.state.bindings.roles.remove(id);
                self.state.deleted_roles.remove(id);
                self.state.pending_deletions.remove(id);
                self.state.pending_creations.remove(id);
                self.settle(change);
            }
            i += 1;
        }
    }

    fn open(&mut self, reply: Reply<RoleCatalog>)
        ensures
            final(self).deep_view() == old(self).deep_view().opened(reply.deep_view()),
            old(self).deep_view().is_consistent() ==> final(self).deep_view().is_consistent(),
    {
        let catalog: RoleCatalog = match reply {
            Reply::Refused(error) => {
                self.finish(failure(&error));
                return;
            },
            Reply::TimedOut => {
                self.finish(RoleApplyStatus::DeadlineExceeded);
                return;
            },
            Reply::Answered(catalog) => catalog,
        };
        let plan: RolePlan = match build_plan(&self.definition, &self.state, &catalog) {
            Err(error) => {
                self.fail(error);
                return;
            },
            Ok(plan) => plan,
        };
        if !plan.same(&self.pending) {
            self.pending = plan;
            self.finish(RoleApplyStatus::ReplanRequired);
            return;
        }
        self.catalog = catalog;
        self.desired = desired_role_attributes(&self.definition);
        self.done = 0;
        match self.lifecycle {
            None => if !plan.lifecycle.is_empty() {
                self.fail(
                    ManagementError::InvalidState(
                        "属性更新専用の apply_role_updates には lifecycle 変更を含められません".to_owned(),
                    ),
                );
            } else {
                self.phase = RolePhase::Ready;
            },
            Some(options) => if !options.allow_deletions && contains_deletion(&plan.lifecycle) {
                self.finish(RoleApplyStatus::DeletionPermissionRequired);
            } else {
                self.phase = RolePhase::Ready;
            },
        }
    }

    fn take_attributes(&mut self, now: u64)
        requires
            old(self).deep_view().done < old(self).deep_view().desired.len(),
        ensures
            final(self).deep_view() == old(self).deep_view().taken_attributes(now),
            final(self).deep_view().is_consistent(),
    {
        let id: RoleLogicalId = self.current();
        assert(self.deep_view().desired[self.done as int] == self.desired@[self.done as int].deep_view());
        let role_id: RoleId = match resolve_role_id(&id, &self.state.bindings) {
            Err(error) => {
                self.fail(error);
                return;
            },
            Ok(role_id) => role_id,
        };
        let (of_role, _): (Vec<AttributeChange>, Vec<AttributeChange>) = split_changes(&self.pending.changes, &id);
        if of_role.is_empty() {
            self.advance();
            return;
        }
        if now >= self.deadline {
            self.finish(RoleApplyStatus::DeadlineExceeded);
            return;
        }
        let result: Result<RoleUpdate, ManagementError> = match find_first_role(&self.catalog.roles, role_id.get()) {
            None => Err(
                ManagementError::InvalidState(
                    text5(
                        "Role ",
                        id.as_str(),
                        " の Snowflake ",
                        role_id.to_text().as_str(),
                        " が Guild に存在しません",
                    ),
                ),
            ),
            Some(actual) => build_role_update(
                actual,
                &self.desired[self.done].1,
                &self.catalog.default_permissions,
                &id,
            ),
        };
        match result {
            Err(error) => self.fail(error),
            Ok(update) => if update.is_empty() {
                self.advance();
            } else {
                self.phase = RolePhase::Updating { role_id, update };
            },
        }
    }

    fn take_create(&mut self, change: RoleLifecycleChange, now: u64)
        requires
            old(self).deep_view().done < old(self).deep_view().desired.len(),
        ensures
            final(self).deep_view() == old(self).deep_view().taken_create(change.deep_view(), now),
            final(self).deep_view().is_consistent(),
    {
        if now >= self.deadline {
            self.finish(RoleApplyStatus::DeadlineExceeded);
            return;
        }
        let id: RoleLogicalId = self.current();
        assert(self.deep_view().desired[self.done as int] == self.desired@[self.done as int].deep_view());
        match build_role_create(&self.desired[self.done].1, &self.catalog, &id) {
            Err(error) => self.fail(error),
            Ok(create) => {
                self.state.pending_creations.insert(id, ());
                self.phase = RolePhase::Creating { create, change };
            },
        }
    }

    fn take_delete(&mut self, change: RoleLifecycleChange, role_id: RoleId, now: u64)
        requires
            old(self).deep_view().done < old(self).deep_view().desired.len(),
        ensures
            final(self).deep_view() == old(self).deep_view().taken_delete(
                change.deep_view(),
                role_id.deep_view(),
                now,
            ),
            final(self).deep_view().is_consistent(),
    {
        let allowed: bool = match self.lifecycle {
            Some(options) => options.allow_deletions,
            None => false,
        };
        if !allowed {
            self.finish(RoleApplyStatus::DeletionPermissionRequired);
            return;
        }
        if now >= self.deadline {
            self.finish(RoleApplyStatus::DeadlineExceeded);
            return;
        }
        self.state.pending_deletions.insert(self.current(), ());
        if find_first_role(&self.catalog.roles, role_id.get()).is_none() {
            self.mark_deleted(&change);
            self.advance();
        } else {
            self.phase = RolePhase::Deleting { role_id, change };
        }
    }

    fn proceed(&mut self, now: u64)
        requires
            old(self).deep_view().is_consistent(),
        ensures
            final(self).deep_view() == old(self).deep_view().proceeded(now),
            final(self).deep_view().is_consistent(),
    {
        if self.done < self.desired.len() {
            let change: Option<RoleLifecycleChange> = if self.lifecycle.is_none() {
                None
            } else {
                find_lifecycle(&self.pending.lifecycle, &self.current())
            };
            match change {
                Some(change) => {
                    match &change {
                        RoleLifecycleChange::Create { .. } => self.take_create(change, now),
                        RoleLifecycleChange::Delete { discord_id, .. } => {
                            let role_id: RoleId = *discord_id;
                            self.take_delete(change, role_id, now);
                        },
                        RoleLifecycleChange::Release { .. } => self.take_attributes(now),
                    }
                },
                None => self.take_attributes(now),
            }
        } else {
            if self.lifecycle.is_some() {
                proof {
                    releases_keep_place(self.deep_view(), self.deep_view().pending.lifecycle, 0);
                }
                self.release_all();
            }
            self.finish(RoleApplyStatus::Complete);
        }
    }

    fn receive_update(&mut self, role_id: RoleId, update: RoleUpdate, reply: Reply<RoleUpdateOutcome>)
        requires
            old(self).deep_view().done < old(self).deep_view().desired.len(),
        ensures
            final(self).deep_view() == old(self).deep_view().updated(
                role_id.deep_view(),
                update.deep_view(),
                reply.deep_view(),
            ),
    {
        match reply {
            Reply::Refused(error) => self.finish(failure(&error)),
            Reply::Answered(RoleUpdateOutcome::Applied) => {
                let id: RoleLogicalId = self.current();
                self.mark_updated(&id);
                self.phase = RolePhase::CheckingUpdate { role_id, update, acknowledged: true };
            },
            Reply::Answered(RoleUpdateOutcome::ResponseUnknown) => {
                self.phase = RolePhase::CheckingUpdate { role_id, update, acknowledged: false };
            },
            Reply::TimedOut => {
                self.phase = RolePhase::CheckingUpdate { role_id, update, acknowledged: false };
            },
        }
    }

    fn check_update(&mut self, role_id: RoleId, update: RoleUpdate, acknowledged: bool, reply: Reply<RoleCatalog>)
        requires
            old(self).deep_view().done < old(self).deep_view().desired.len(),
        ensures
            final(self).deep_view() == old(self).deep_view().checked_update(
                role_id.deep_view(),
                update.deep_view(),
                acknowledged,
                reply.deep_view(),
            ),
    {
        let catalog: RoleCatalog = match reply {
            Reply::Refused(error) => {
                self.finish(failure(&error));
                return;
            },
            Reply::TimedOut => {
                self.finish(
                    if acknowledged {
                        RoleApplyStatus::DeadlineExceeded
                    } else {
                        RoleApplyStatus::ResponseUnknown
                    },
                );
                return;
            },
            Reply::Answered(catalog) => catalog,
        };
        let id: RoleLogicalId = self.current();
        self.catalog = catalog;
        let matches: bool = match find_first_role(&self.catalog.roles, role_id.get()) {
            Some(role) => role_matches_update(role, &update),
            None => false,
        };
        if matches {
            if !acknowledged {
                self.mark_updated(&id);
            }
            self.advance();
        } else if acknowledged {
            self.finish(
                RoleApplyStatus::Failed(text3("Role ", id.as_str(), " の更新後の値が希望値と一致しません")),
            );
        } else {
            self.finish(RoleApplyStatus::ResponseUnknown);
        }
    }

    fn receive_creation(&mut self, change: RoleLifecycleChange, reply: Reply<RoleCreateOutcome>)
        requires
            old(self).deep_view().done < old(self).deep_view().desired.len(),
        ensures
            final(self).deep_view() == old(self).deep_view().created(change.deep_view(), reply.deep_view()),
    {
        let id: RoleLogicalId = self.current();
        match reply {
            Reply::Refused(error) => {
                self.state.pending_creations.remove(&id);
                self.finish(failure(&error));
            },
            Reply::Answered(RoleCreateOutcome::Created(role_id)) => {
                if find_name(&self.state.bindings.roles, role_id.get()).is_some() {
                    self.fail(
                        ManagementError::InvalidState(
                            text3(
                                "新しく作成した Role ",
                                role_id.to_text().as_str(),
                                " は既存の対応と衝突しています",
                            ),
                        ),
                    );
                } else {
                    self.state.deleted_roles.remove(&id);
                    self.state.pending_creations.remove(&id);
                    self.state.bindings.roles.insert(id, role_id);
                    self.settle(&change);
                    self.phase = RolePhase::Refreshing;
                }
            },
            Reply::Answered(RoleCreateOutcome::ResponseUnknown) => self.finish(
                RoleApplyStatus::CreationResponseUnknown,
            ),
            Reply::TimedOut => self.finish(RoleApplyStatus::CreationResponseUnknown),
        }
    }

    fn receive_deletion(&mut self, role_id: RoleId, change: RoleLifecycleChange, reply: Reply<RoleDeleteOutcome>)
        requires
            old(self).deep_view().done < old(self).deep_view().desired.len(),
        ensures
            final(self).deep_view() == old(self).deep_view().deleted(
                role_id.deep_view(),
                change.deep_view(),
                reply.deep_view(),
            ),
    {
        match reply {
            Reply::Refused(error) => match error {
                ManagementError::RolePermissionDenied(message) => self.finish(
                    RoleApplyStatus::DeletionPermissionDenied(message),
                ),
                error => self.finish(failure(&error)),
            },
            Reply::Answered(RoleDeleteOutcome::Deleted) => {
                self.mark_deleted(&change);
                self.phase = RolePhase::Refreshing;
            },
            Reply::Answered(RoleDeleteOutcome::ResponseUnknown) => {
                self.phase = RolePhase::CheckingDeletion { role_id, change };
            },
            Reply::TimedOut => {
                self.phase = RolePhase::CheckingDeletion { role_id, change };
            },
        }
    }

    fn check_deletion(&mut self, role_id: RoleId, change: RoleLifecycleChange, reply: Reply<RoleCatalog>)
        requires
            old(self).deep_view().done < old(self).deep_view().desired.len(),
        ensures
            final(self).deep_view() == old(self).deep_view().checked_deletion(
                role_id.deep_view(),
                change.deep_view(),
                reply.deep_view(),
            ),
    {
        match reply {
            Reply::Refused(error) => match error {
                ManagementError::RoleCatalogPermissionDenied(message) => self.finish(
                    RoleApplyStatus::DeletionVerificationPermissionDenied(message),
                ),
                error => self.finish(RoleApplyStatus::DeletionVerificationIndeterminate(error.to_text())),
            },
            Reply::TimedOut => self.finish(
                RoleApplyStatus::DeletionVerificationIndeterminate(
                    "削除後の Role 存在確認が期限内に完了しませんでした".to_owned(),
                ),
            ),
            Reply::Answered(catalog) => {
                self.catalog = catalog;
                if find_first_role(&self.catalog.roles, role_id.get()).is_some() {
                    self.finish(RoleApplyStatus::DeletionResponseUnknown);
                } else {
                    self.mark_deleted(&change);
                    self.phase = RolePhase::Attributes;
                }
            },
        }
    }

    fn refresh(&mut self, reply: Reply<RoleCatalog>)
        ensures
            final(self).deep_view() == old(self).deep_view().refreshed(reply.deep_view()),
    {
        match reply {
            Reply::Refused(error) => self.finish(failure(&error)),
            Reply::TimedOut => self.finish(RoleApplyStatus::DeadlineExceeded),
            Reply::Answered(catalog) => {
                self.catalog = catalog;
                self.phase = RolePhase::Attributes;
            },
        }
    }

    /// Tells the session something.
    pub fn step(&mut self, event: RoleEvent, now: u64)
        requires
            old(self).deep_view().is_consistent(),
        ensures
            final(self).deep_view() == old(self).deep_view().after(event.deep_view(), now),
            final(self).deep_view().is_consistent(),
    {
        match event {
            RoleEvent::Proceed => {
                if matches!(self.phase, RolePhase::Ready) {
                    self.proceed(now);
                } else if matches!(self.phase, RolePhase::Attributes) {
                    self.take_attributes(now);
                }
            },
            RoleEvent::Updated(reply) => {
                let (role_id, update): (RoleId, RoleUpdate) = match &self.phase {
                    RolePhase::Updating { role_id, update } => (*role_id, update.copy()),
                    _ => {
                        return;
                    },
                };
                self.receive_update(role_id, update, reply);
            },
            RoleEvent::Created(reply) => {
                let change: RoleLifecycleChange = match &self.phase {
                    RolePhase::Creating { change, .. } => change.copy(),
                    _ => {
                        return;
                    },
                };
                self.receive_creation(change, reply);
            },
            RoleEvent::Deleted(reply) => {
                let (role_id, change): (RoleId, RoleLifecycleChange) = match &self.phase {
                    RolePhase::Deleting { role_id, change } => (*role_id, change.copy()),
                    _ => {
                        return;
                    },
                };
                self.receive_deletion(role_id, change, reply);
            },
            RoleEvent::Catalog(reply) => self.step_with_catalog(reply, now),
        }
    }

    fn step_with_catalog(&mut self, reply: Reply<RoleCatalog>, now: u64)
        requires
            old(self).deep_view().is_consistent(),
        ensures
            final(self).deep_view() == old(self).deep_view().after(RoleEventView::Catalog(reply.deep_view()), now),
            final(self).deep_view().is_consistent(),
    {
        if matches!(self.phase, RolePhase::Opening) {
            self.open(reply);
            return;
        }
        if matches!(self.phase, RolePhase::Refreshing) {
            self.refresh(reply);
            return;
        }
        let update: Option<(RoleId, RoleUpdate, bool)> = match &self.phase {
            RolePhase::CheckingUpdate { role_id, update, acknowledged } => Some(
                (*role_id, update.copy(), *acknowledged),
            ),
            _ => None,
        };
        match update {
            Some((role_id, update, acknowledged)) => {
                self.check_update(role_id, update, acknowledged, reply);
                return;
            },
            None => {},
        }
        let (role_id, change): (RoleId, RoleLifecycleChange) = match &self.phase {
            RolePhase::CheckingDeletion { role_id, change } => (*role_id, change.copy()),
            _ => {
                return;
            },
        };
        self.check_deletion(role_id, change, reply);
    }

    /// What the session asks for.
    pub fn action(&self) -> (action: RoleAction)
        ensures
            action.deep_view() == self.deep_view().action(),
    {
        let until: u64 = self.deadline;
        match &self.phase {
            RolePhase::Opening => RoleAction::ReadCatalog { until },
            RolePhase::Ready => RoleAction::Proceed,
            RolePhase::Attributes => RoleAction::Proceed,
            RolePhase::Updating { role_id, update } => RoleAction::Update {
                role_id: *role_id,
                update: update.copy(),
                until,
            },
            RolePhase::Creating { create, .. } => RoleAction::Create { create: create.copy(), until },
            RolePhase::Deleting { role_id, .. } => RoleAction::Delete { role_id: *role_id, until },
            RolePhase::CheckingUpdate { .. } => RoleAction::ReadCatalog { until: refresh_deadline(until) },
            RolePhase::CheckingDeletion { .. } => RoleAction::ReadCatalog { until: refresh_deadline(until) },
            RolePhase::Refreshing => RoleAction::ReadCatalog { until: refresh_deadline(until) },
            RolePhase::Finished(_) => RoleAction::Finish,
            RolePhase::Broken(_) => RoleAction::Finish,
        }
    }

    /// The result of the session.
    pub fn into_result(self) -> (result: Result<RoleApplyResult, ManagementError>)
        requires
            self.deep_view().action() is Finish,
        ensures
            seen(result) == self.deep_view().result(),
    {
        match self.phase {
            RolePhase::Finished(status) => {
                let state_json: String = serialize_state(&self.state)?;
                Ok(
                    RoleApplyResult {
                        status,
                        applied: self.applied.changes,
                        pending: self.pending.changes,
                        applied_lifecycle: self.applied.lifecycle,
                        pending_lifecycle: self.pending.lifecycle,
                        state_json,
                    },
                )
            },
            RolePhase::Broken(error) => Err(error),
            _ => {
                assert(false);
                Err(ManagementError::InvalidState(String::new()))
            },
        }
    }
}

impl RoleSessionView {
    /// The changes of attributes that were made or are still to be made.
    pub open spec fn all_changes(self) -> vstd::multiset::Multiset<AttributeChangeView> {
        self.applied.changes.to_multiset().add(self.pending.changes.to_multiset())
    }

    /// The creations, releases and deletions that were made or are still to be made.
    pub open spec fn all_lifecycle(self) -> vstd::multiset::Multiset<LifecycleView> {
        self.applied.lifecycle.to_multiset().add(self.pending.lifecycle.to_multiset())
    }

    /// Whether none of them is there twice.
    pub open spec fn holds_each_once(self) -> bool {
        forall|change: LifecycleView| #[trigger] self.all_lifecycle().count(change) <= 1
    }

    /// Whether the one that is under way is still to be made.
    pub open spec fn takes_up_pending(self) -> bool {
        match self.phase {
            RolePhaseView::Creating { change, .. } | RolePhaseView::Deleting { change, .. }
            | RolePhaseView::CheckingDeletion { change, .. } => self.pending.lifecycle.contains(change),
            _ => true,
        }
    }

    /// Whether a creation, release or deletion was made or is still to be made.
    pub open spec fn has_lifecycle(self, change: LifecycleView) -> bool {
        self.applied.lifecycle.contains(change) || self.pending.lifecycle.contains(change)
    }

    /// Whether the session has ended.
    pub open spec fn is_over(self) -> bool {
        self.phase is Finished || self.phase is Broken
    }

    /// Whether deletions are allowed.
    pub open spec fn may_delete(self) -> bool {
        self.lifecycle is Some && self.lifecycle->0.allow_deletions
    }

    /// How many replies may still be needed once the roles were read.
    pub open spec fn steps_left(self) -> int {
        let roles = 8 * (self.desired.len() - self.done);
        match self.phase {
            RolePhaseView::Opening => 0,
            RolePhaseView::Ready => roles + 6,
            RolePhaseView::Creating { .. } | RolePhaseView::Deleting { .. } => roles + 5,
            RolePhaseView::CheckingDeletion { .. } | RolePhaseView::Refreshing => roles + 4,
            RolePhaseView::Attributes => roles + 3,
            RolePhaseView::Updating { .. } => roles + 2,
            RolePhaseView::CheckingUpdate { .. } => roles + 1,
            RolePhaseView::Finished(_) | RolePhaseView::Broken(_) => 0,
        }
    }
}

/// Whether an event is a reply to what was asked for.
pub open spec fn answers(event: RoleEventView, action: RoleActionView) -> bool {
    match action {
        RoleActionView::Proceed => event is Proceed,
        RoleActionView::Update { .. } => event is Updated,
        RoleActionView::Create { .. } => event is Created,
        RoleActionView::Delete { .. } => event is Deleted,
        RoleActionView::Move { .. } => false,
        RoleActionView::ReadCatalog { .. } => event is Catalog,
        RoleActionView::Finish => false,
    }
}

proof fn split_holds_all(changes: Seq<AttributeChangeView>, id: Seq<char>)
    ensures
        changes_of(changes, id).to_multiset().add(changes_besides(changes, id).to_multiset())
            == changes.to_multiset(),
    decreases changes.len(),
{
    broadcast use vstd::seq_lib::group_to_multiset_ensures;

    reveal(Seq::filter);
    let of_role = changes_of(changes, id).to_multiset();
    let besides = changes_besides(changes, id).to_multiset();
    if changes.len() > 0 {
        split_holds_all(changes.drop_last(), id);
        assert(changes.drop_last().push(changes.last()) =~= changes);
        let last = changes.last();
        let of_rest = changes_of(changes.drop_last(), id).to_multiset();
        let besides_rest = changes_besides(changes.drop_last(), id).to_multiset();
        if last.logical_id == id {
            assert(of_rest.insert(last).add(besides_rest) =~= of_rest.add(besides_rest).insert(last));
        } else {
            assert(of_rest.add(besides_rest.insert(last)) =~= of_rest.add(besides_rest).insert(last));
        }
    } else {
        assert(of_role.add(besides) =~= changes.to_multiset());
    }
}

proof fn updated_role_holds_all(session: RoleSessionView, id: Seq<char>)
    ensures
        session.updated_role(id).all_changes() == session.all_changes(),
{
    let pending = session.pending.changes;
    split_holds_all(pending, id);
    vstd::seq_lib::lemma_multiset_commutative(session.applied.changes, changes_of(pending, id));
    assert(session.updated_role(id).all_changes() =~= session.all_changes());
}

proof fn settled_holds_all(session: RoleSessionView, done: LifecycleView, change: LifecycleView)
    ensures
        session.has_lifecycle(change) ==> session.settled(done).has_lifecycle(change),
        session.settled(done).all_changes() == session.all_changes(),
{
    broadcast use vstd::seq_lib::group_filter_ensures;

    let after = session.settled(done);
    if change == done {
        assert(after.applied.lifecycle.last() == done);
        assert(after.applied.lifecycle.contains(done));
    } else if session.applied.lifecycle.contains(change) {
        let i = session.applied.lifecycle.index_of(change);
        assert(after.applied.lifecycle[i] == change);
    } else if session.pending.lifecycle.contains(change) {
        let i = session.pending.lifecycle.index_of(change);
        assert(after.pending.lifecycle.contains(session.pending.lifecycle[i]));
    }
}

proof fn released_holds_all(session: RoleSessionView, lifecycle: Seq<LifecycleView>, i: int, change: LifecycleView)
    ensures
        session.has_lifecycle(change) ==> session.released(lifecycle, i).has_lifecycle(change),
        session.released(lifecycle, i).all_changes() == session.all_changes(),
    decreases lifecycle.len() - i,
{
    if 0 <= i < lifecycle.len() {
        if lifecycle[i] is Release {
            let released = RoleSessionView {
                state: state_released(session.state, lifecycle[i].logical_id()),
                ..session
            };
            settled_holds_all(released, lifecycle[i], change);
            released_holds_all(released.settled(lifecycle[i]), lifecycle, i + 1, change);
        } else {
            released_holds_all(session, lifecycle, i + 1, change);
        }
    }
}

/// No step loses a change: what was made and what is still to be made add up to the
/// plan. Only where the plan is out of date, the new plan takes its place.
pub proof fn steps_account_for_the_plan(
    session: RoleSessionView,
    event: RoleEventView,
    now: u64,
    change: LifecycleView,
)
    requires
        session.phase is Opening ==> session.after(event, now).phase != RolePhaseView::Finished(
            RoleStatusView::ReplanRequired,
        ),
    ensures
        session.after(event, now).all_changes() == session.all_changes(),
        session.has_lifecycle(change) ==> session.after(event, now).has_lifecycle(change),
{
    let current = session.current();
    updated_role_holds_all(session, current);
    match (session.phase, event) {
        (RolePhaseView::Ready, RoleEventView::Proceed) => {
            released_holds_all(session, session.pending.lifecycle, 0, change);
            if let Some(taken) = lifecycle_of(session.pending.lifecycle, current) {
                let deleting = RoleSessionView {
                    state: TrackedView {
                        pending_deletions: put::<RoleLogicalId, ()>(session.state.pending_deletions, current, ()),
                        ..session.state
                    },
                    ..session
                };
                let deleted = RoleSessionView { state: state_deleted(deleting.state, current), ..deleting };
                settled_holds_all(deleted, taken, change);
            }
        },
        (RolePhaseView::CheckingUpdate { .. }, RoleEventView::Catalog(ReplyView::Answered(catalog))) => {
            updated_role_holds_all(RoleSessionView { catalog, ..session }, current);
        },
        (
            RolePhaseView::Creating { change: taken, .. },
            RoleEventView::Created(ReplyView::Answered(RoleCreateOutcomeView::Created(role_id))),
        ) => {
            let created = RoleSessionView { state: state_created(session.state, current, role_id), ..session };
            settled_holds_all(created, taken, change);
        },
        (RolePhaseView::Deleting { change: taken, .. }, RoleEventView::Deleted(_)) => {
            let deleted = RoleSessionView { state: state_deleted(session.state, current), ..session };
            settled_holds_all(deleted, taken, change);
        },
        (
            RolePhaseView::CheckingDeletion { change: taken, .. },
            RoleEventView::Catalog(ReplyView::Answered(catalog)),
        ) => {
            let deleted = RoleSessionView { catalog, state: state_deleted(session.state, current), ..session };
            settled_holds_all(deleted, taken, change);
        },
        _ => {},
    }
}

/// Nothing is deleted unless deletions are allowed: no deletion is asked for, and
/// with a plan that deletes something not a single change is made.
pub proof fn deletions_need_permission(session: RoleSessionView, event: RoleEventView, now: u64)
    requires
        !session.may_delete(),
        !(session.phase is Deleting),
    ensures
        !(session.after(event, now).phase is Deleting),
        session.phase is Opening && has_deletion(session.pending.lifecycle) ==> session.after(event, now).is_over()
            || session.after(event, now) == session,
{
    releases_keep_place(session, session.pending.lifecycle, 0);
}

/// A creation without an answer stays recorded, and no plan is made while it is.
pub proof fn unknown_creations_stop_plans(
    session: RoleSessionView,
    now: u64,
    later: u64,
    definition: DefinitionView,
    catalog: RoleCatalogView,
)
    requires
        session.phase is Ready,
        0 <= session.done < session.desired.len(),
        session.after(RoleEventView::Proceed, now).phase is Creating,
    ensures
        ({
            let asked = session.after(RoleEventView::Proceed, now);
            let ended = asked.after(RoleEventView::Created(ReplyView::TimedOut), later);
            &&& ended.phase == RolePhaseView::Finished(RoleStatusView::CreationResponseUnknown)
            &&& crate::ordered::has_key(ended.state.pending_creations, session.current())
            &&& tracked_plan(definition, ended.state, catalog) is Err
        }),
{
    let asked = session.after(RoleEventView::Proceed, now);
    crate::ordered::put_then_lookup::<RoleLogicalId, ()>(
        session.state.pending_creations,
        session.current(),
        (),
        session.current(),
    );
    let i = crate::ordered::lookup_has_entry(asked.state.pending_creations, session.current());
}

/// Every reply brings a session nearer to its end, and a session that has ended stays as it is.
pub proof fn replies_lead_to_the_end(session: RoleSessionView, event: RoleEventView, now: u64)
    requires
        session.is_consistent(),
    ensures
        session.is_over() ==> session.after(event, now) == session,
        session.is_over() <==> session.action() is Finish,
        session.after(event, now).is_consistent(),
        answers(event, session.action()) && !(session.phase is Opening) ==> 0 <= session.after(
            event,
            now,
        ).steps_left() < session.steps_left(),
        answers(event, session.action()) && session.phase is Opening ==> !(session.after(event, now).phase is Opening),
{
    releases_keep_place(session, session.pending.lifecycle, 0);
}

proof fn besides_counts(lifecycle: Seq<LifecycleView>, done: LifecycleView, change: LifecycleView)
    ensures
        lifecycle_besides(lifecycle, done).to_multiset().count(change) == if change == done {
            0
        } else {
            lifecycle.to_multiset().count(change)
        },
    decreases lifecycle.len(),
{
    broadcast use vstd::seq_lib::group_to_multiset_ensures;

    reveal(Seq::filter);
    if lifecycle.len() > 0 {
        besides_counts(lifecycle.drop_last(), done, change);
        assert(lifecycle.drop_last().push(lifecycle.last()) =~= lifecycle);
    } else {
        assert(lifecycle_besides(lifecycle, done) =~= Seq::empty());
    }
}

proof fn settled_holds_each_once(session: RoleSessionView, done: LifecycleView)
    requires
        session.holds_each_once(),
        session.pending.lifecycle.contains(done),
    ensures
        session.settled(done).all_lifecycle() == session.all_lifecycle(),
        session.settled(done).holds_each_once(),
        forall|change: LifecycleView|
            change != done && session.pending.lifecycle.contains(change) ==> #[trigger] session.settled(
                done,
            ).pending.lifecycle.contains(change),
{
    broadcast use vstd::seq_lib::group_to_multiset_ensures;

    let after = session.settled(done);
    assert(session.pending.lifecycle.to_multiset().count(done) > 0);
    assert forall|change: LifecycleView| #[trigger] after.all_lifecycle().count(change)
        == session.all_lifecycle().count(change) by {
        besides_counts(session.pending.lifecycle, done, change);
        assert(session.all_lifecycle().count(change) <= 1);
    }
    assert(after.all_lifecycle() =~= session.all_lifecycle());
    assert forall|change: LifecycleView| change != done && session.pending.lifecycle.contains(change) implies
        #[trigger] after.pending.lifecycle.contains(change) by {
        besides_counts(session.pending.lifecycle, done, change);
        assert(session.pending.lifecycle.to_multiset().count(change) > 0);
    }
}

proof fn released_holds_each_once(session: RoleSessionView, lifecycle: Seq<LifecycleView>, i: int)
    requires
        0 <= i <= lifecycle.len(),
        lifecycle.no_duplicates(),
        session.holds_each_once(),
        forall|k: int| i <= k < lifecycle.len() ==> session.pending.lifecycle.contains(#[trigger] lifecycle[k]),
    ensures
        session.released(lifecycle, i).all_lifecycle() == session.all_lifecycle(),
        session.released(lifecycle, i).holds_each_once(),
    decreases lifecycle.len() - i,
{
    if i < lifecycle.len() {
        if lifecycle[i] is Release {
            let released = RoleSessionView {
                state: state_released(session.state, lifecycle[i].logical_id()),
                ..session
            };
            assert(released.all_lifecycle() == session.all_lifecycle());
            assert(released.holds_each_once()) by {
                assert forall|change: LifecycleView| #[trigger] released.all_lifecycle().count(change) <= 1 by {
                    assert(session.all_lifecycle().count(change) <= 1);
                }
            }
            settled_holds_each_once(released, lifecycle[i]);
            assert forall|k: int| i + 1 <= k < lifecycle.len() implies released.settled(
                lifecycle[i],
            ).pending.lifecycle.contains(#[trigger] lifecycle[k]) by {
                assert(session.pending.lifecycle.contains(lifecycle[k]));
                assert(lifecycle[k] != lifecycle[i]);
            }
            released_holds_each_once(released.settled(lifecycle[i]), lifecycle, i + 1);
        } else {
            released_holds_each_once(session, lifecycle, i + 1);
        }
    }
}

pub(crate) proof fn taken_up_is_pending(lifecycle: Seq<LifecycleView>, id: Seq<char>)
    ensures
        lifecycle_of(lifecycle, id) is Some ==> lifecycle.contains(lifecycle_of(lifecycle, id)->0),
    decreases lifecycle.len(),
{
    if lifecycle.len() > 0 {
        if lifecycle[0].logical_id() == id {
            assert(lifecycle.contains(lifecycle[0]));
        } else {
            taken_up_is_pending(lifecycle.drop_first(), id);
            if lifecycle_of(lifecycle, id) is Some {
                let i = lifecycle.drop_first().index_of(lifecycle_of(lifecycle, id)->0);
                assert(lifecycle[i + 1] == lifecycle_of(lifecycle, id)->0);
            }
        }
    }
}

proof fn pending_is_there_once(session: RoleSessionView)
    requires
        session.holds_each_once(),
    ensures
        session.pending.lifecycle.no_duplicates(),
{
    let pending = session.pending.lifecycle;
    assert forall|change: LifecycleView| pending.to_multiset().contains(change) implies #[trigger] pending.to_multiset().count(
        change,
    ) == 1 by {
        assert(session.all_lifecycle().count(change) <= 1);
    }
    pending.lemma_multiset_has_no_duplicates_conv();
}

/// No step loses or repeats a creation, release or deletion: those that were made and
/// those that are still to be made hold each one of the plan once. Only where the plan is
/// out of date, the new plan takes its place.
pub proof fn steps_hold_each_lifecycle_change_once(session: RoleSessionView, event: RoleEventView, now: u64)
    requires
        session.holds_each_once(),
        session.takes_up_pending(),
        session.phase is Opening ==> session.after(event, now).phase != RolePhaseView::Finished(
            RoleStatusView::ReplanRequired,
        ),
    ensures
        session.after(event, now).all_lifecycle() == session.all_lifecycle(),
        session.after(event, now).holds_each_once(),
        session.after(event, now).takes_up_pending(),
{
    let current = session.current();
    let after = session.after(event, now);
    match (session.phase, event) {
        (RolePhaseView::Ready, RoleEventView::Proceed) => {
            pending_is_there_once(session);
            assert forall|k: int| 0 <= k < session.pending.lifecycle.len() implies session.pending.lifecycle.contains(
                #[trigger] session.pending.lifecycle[k],
            ) by {}
            released_holds_each_once(session, session.pending.lifecycle, 0);
            taken_up_is_pending(session.pending.lifecycle, current);
            if let Some(taken) = lifecycle_of(session.pending.lifecycle, current) {
                let deleting = RoleSessionView {
                    state: TrackedView {
                        pending_deletions: put::<RoleLogicalId, ()>(session.state.pending_deletions, current, ()),
                        ..session.state
                    },
                    ..session
                };
                let deleted = RoleSessionView { state: state_deleted(deleting.state, current), ..deleting };
                same_changes_hold_once(session, deleted);
                settled_holds_each_once(deleted, taken);
                same_changes_hold_once(deleted.settled(taken), deleted.settled(taken).next());
            }
            if session.done >= session.desired.len() && session.lifecycle is Some {
                same_changes_hold_once(session.released(session.pending.lifecycle, 0), after);
            }
        },
        (
            RolePhaseView::Creating { change: taken, .. },
            RoleEventView::Created(ReplyView::Answered(RoleCreateOutcomeView::Created(role_id))),
        ) => {
            let created = RoleSessionView { state: state_created(session.state, current, role_id), ..session };
            same_changes_hold_once(session, created);
            settled_holds_each_once(created, taken);
        },
        (RolePhaseView::Deleting { change: taken, .. }, RoleEventView::Deleted(_)) => {
            let deleted = RoleSessionView { state: state_deleted(session.state, current), ..session };
            same_changes_hold_once(session, deleted);
            settled_holds_each_once(deleted, taken);
        },
        (
            RolePhaseView::CheckingDeletion { change: taken, .. },
            RoleEventView::Catalog(ReplyView::Answered(catalog)),
        ) => {
            let deleted = RoleSessionView { catalog, state: state_deleted(session.state, current), ..session };
            same_changes_hold_once(session, deleted);
            settled_holds_each_once(deleted, taken);
        },
        _ => {},
    }
    assert(after.all_lifecycle() == session.all_lifecycle());
    assert forall|change: LifecycleView| #[trigger] after.all_lifecycle().count(change) <= 1 by {
        assert(session.all_lifecycle().count(change) <= 1);
    }
}

proof fn same_changes_hold_once(session: RoleSessionView, other: RoleSessionView)
    requires
        session.holds_each_once(),
        session.applied.lifecycle == other.applied.lifecycle,
        session.pending.lifecycle == other.pending.lifecycle,
    ensures
        other.all_lifecycle() == session.all_lifecycle(),
        other.holds_each_once(),
{
    assert forall|change: LifecycleView| #[trigger] other.all_lifecycle().count(change) <= 1 by {
        assert(session.all_lifecycle().count(change) <= 1);
    }
}

/// Once the roles of the guild are known and the plan is still the right one, it holds
/// each creation, release and deletion once.
pub proof fn accepted_plans_hold_each_lifecycle_change_once(
    session: RoleSessionView,
    reply: ReplyView<RoleCatalogView>,
    now: u64,
)
    requires
        session.phase is Opening,
        session.applied.lifecycle.len() == 0,
        sorted::<RoleLogicalId, RoleDefinitionView>(session.definition.roles),
        sorted::<RoleLogicalId, u64>(session.state.bindings.roles),
        session.after(RoleEventView::Catalog(reply), now).phase is Ready,
    ensures
        session.after(RoleEventView::Catalog(reply), now).holds_each_once(),
        session.after(RoleEventView::Catalog(reply), now).takes_up_pending(),
        session.after(RoleEventView::Catalog(reply), now).all_lifecycle() == session.all_lifecycle(),
{
    broadcast use vstd::seq_lib::group_to_multiset_ensures;

    let after = session.after(RoleEventView::Catalog(reply), now);
    let pending = after.pending.lifecycle;
    plans_name_each_role_once(session.definition, session.state, reply->Answered_0);
    assert(pending.no_duplicates()) by {
        assert forall|i: int, j: int| 0 <= i < pending.len() && 0 <= j < pending.len() && i != j implies pending[i]
            != pending[j] by {
            if i < j {
                assert(pending[i].logical_id() != pending[j].logical_id());
            } else {
                assert(pending[j].logical_id() != pending[i].logical_id());
            }
        }
    }
    pending.lemma_multiset_has_no_duplicates();
    assert forall|change: LifecycleView| #[trigger] after.all_lifecycle().count(change) <= 1 by {
        assert(after.applied.lifecycle =~= Seq::empty());
        if pending.to_multiset().count(change) > 0 {
            assert(pending.to_multiset().contains(change));
        }
    }
}

} // verus!
