//! The attributes of roles: how they are composed, and how they differ.

use vstd::prelude::*;
use vstd::string::*;

use crate::configuration::permission::KnownPermission;
use crate::configuration::role::{
    managed, managed_if_given, Color, ManagedValue, OptionalManagedValueExt, RoleAttributes, RoleAttributesView,
    RoleDefinition, RoleDefinitionView,
};
use crate::domain::{ErrorView, ManagementError};
use crate::ids::{RoleLogicalId, RoleSettingsSetId};
use crate::ordered::{has_key, lookup, put, OrderedMap};
use crate::port::{RoleCreate, RoleCreateView, RoleSnapshot, RoleSnapshotView, RoleUpdate, RoleUpdateView};
use crate::resource::change::{
    change_between, change_if_wanted, change_line, desired_of, desired_value, display_quoted_string, json_quoted,
    render_change_line, ValueChange,
};
use crate::text::{bool_chars, bool_text, decimal, decimal_text, text2, text3, text5};
use crate::value::{seen, Plain};

verus! {

/// Attributes with those of settings sets added in order, from a place on.
pub open spec fn with_sets(
    attributes: RoleAttributesView,
    sets: Seq<Seq<char>>,
    declared: Seq<(Seq<char>, RoleAttributesView)>,
    i: int,
) -> RoleAttributesView
    decreases sets.len() - i,
{
    if i < 0 || i >= sets.len() {
        attributes
    } else {
        match lookup(declared, sets[i]) {
            Some(settings) => with_sets(attributes.merged(settings), sets, declared, i + 1),
            None => with_sets(attributes, sets, declared, i + 1),
        }
    }
}

/// The attributes of a declared role: those of its settings sets in order, then its own.
pub open spec fn composed(
    role: RoleDefinitionView,
    declared: Seq<(Seq<char>, RoleAttributesView)>,
) -> RoleAttributesView {
    with_sets(RoleAttributesView::none(), role.settings_sets(), declared, 0).merged(role.attributes())
}

/// The attributes of a declared role: those of its settings sets in order, then its own.
pub fn compose_attributes(
    definition: &RoleDefinition,
    settings_sets: &OrderedMap<RoleSettingsSetId, RoleAttributes>,
) -> (attributes: RoleAttributes)
    ensures
        attributes.deep_view() == composed(definition.deep_view(), settings_sets.deep_view()),
{
    let sets: Vec<RoleSettingsSetId> = definition.settings_sets();
    let mut attributes: RoleAttributes = RoleAttributes::none();
    let mut i: usize = 0;
    while i < sets.len()
        invariant
            i <= sets@.len(),
            with_sets(RoleAttributesView::none(), sets.deep_view(), settings_sets.deep_view(), 0) == with_sets(
                attributes.deep_view(),
                sets.deep_view(),
                settings_sets.deep_view(),
                i as int,
            ),
        decreases sets@.len() - i,
    {
        match settings_sets.get(&sets[i]) {
            Some(settings) => attributes.merge(settings),
            None => {},
        }
        i += 1;
    }
    attributes.merge(&definition.attributes());
    attributes
}

/// What a definition wants a permission of a role to be, or why it cannot be:
/// the permission is not known, its default is not known, or the bot cannot grant it.
pub open spec fn wanted_permission(
    id: Seq<char>,
    permission: Seq<char>,
    value: ManagedValue<bool>,
    granted: bool,
    defaults: Seq<(Seq<char>, bool)>,
    grantable: Seq<(Seq<char>, ())>,
) -> Result<bool, ErrorView> {
    match lookup(defaults, permission) {
        None => Err(ErrorView::RoleSource("権限 "@ + permission + " の Guild 既定値を取得できません"@)),
        Some(default) => if managed(value, default) && !granted && !has_key(grantable, permission) {
            Err(
                ErrorView::InvalidDefinition(
                    "Role "@ + id + " に権限 "@ + permission
                        + " を付与できません。Bot 自身がこの権限を持っていません"@,
                ),
            )
        } else {
            Ok(managed(value, default))
        },
    }
}

/// The changes of permissions that a definition wants, in order, or why there are none.
pub open spec fn permission_changes(
    id: Seq<char>,
    wanted: Seq<(Seq<char>, ManagedValue<bool>)>,
    actual: Seq<(Seq<char>, bool)>,
    defaults: Seq<(Seq<char>, bool)>,
    grantable: Seq<(Seq<char>, ())>,
    changes: Seq<(Seq<char>, ValueChange<bool>)>,
) -> Result<Seq<(Seq<char>, ValueChange<bool>)>, ErrorView>
    decreases wanted.len(),
{
    if wanted.len() == 0 {
        Ok(changes)
    } else {
        let permission = wanted[0].0;
        match lookup(actual, permission) {
            None => Err(
                ErrorView::InvalidDefinition(
                    "Role "@ + id + " に未知の権限 "@ + permission + " が指定されています"@,
                ),
            ),
            Some(current) => match wanted_permission(id, permission, wanted[0].1, current, defaults, grantable) {
                Err(error) => Err(error),
                Ok(desired) => permission_changes(
                    id,
                    wanted.drop_first(),
                    actual,
                    defaults,
                    grantable,
                    match change_between(current, desired) {
                        Some(change) => put::<KnownPermission, ValueChange<bool>>(changes, permission, change),
                        None => changes,
                    },
                ),
            },
        }
    }
}

/// How the attributes of a role differ from what they should be.
pub struct AttributeChanges {
    pub name: Option<ValueChange<String>>,
    pub color: Option<ValueChange<Color>>,
    pub hoist: Option<ValueChange<bool>>,
    pub mentionable: Option<ValueChange<bool>>,
    pub permissions: OrderedMap<KnownPermission, ValueChange<bool>>,
}

/// What changes of the attributes of a role hold.
pub struct AttributeChangesView {
    pub name: Option<ValueChange<Seq<char>>>,
    pub color: Option<ValueChange<u32>>,
    pub hoist: Option<ValueChange<bool>>,
    pub mentionable: Option<ValueChange<bool>>,
    pub permissions: Seq<(Seq<char>, ValueChange<bool>)>,
}

impl DeepView for AttributeChanges {
    type V = AttributeChangesView;

    open spec fn deep_view(&self) -> AttributeChangesView {
        AttributeChangesView {
            name: self.name.deep_view(),
            color: self.color.deep_view(),
            hoist: self.hoist.deep_view(),
            mentionable: self.mentionable.deep_view(),
            permissions: self.permissions.deep_view(),
        }
    }
}

impl Plain for AttributeChanges {
    fn copy(&self) -> (copied: Self) {
        AttributeChanges {
            name: self.name.copy(),
            color: self.color.copy(),
            hoist: self.hoist.copy(),
            mentionable: self.mentionable.copy(),
            permissions: self.permissions.copy(),
        }
    }

    fn same(&self, other: &Self) -> (equal: bool) {
        self.name.same(&other.name) && self.color.same(&other.color) && self.hoist.same(&other.hoist)
            && self.mentionable.same(&other.mentionable) && self.permissions.same(&other.permissions)
    }
}

/// How the attributes of a role differ from what a definition wants, if they do.
pub open spec fn attribute_changes(
    id: Seq<char>,
    actual: RoleSnapshotView,
    desired: RoleAttributesView,
    defaults: Seq<(Seq<char>, bool)>,
    grantable: Seq<(Seq<char>, ())>,
) -> Result<Option<AttributeChangesView>, ErrorView> {
    match permission_changes(id, desired.permissions, actual.permissions, defaults, grantable, Seq::empty()) {
        Err(error) => Err(error),
        Ok(permissions) => {
            let changes = AttributeChangesView {
                name: change_if_wanted(actual.name, managed_if_given(desired.name, "new role"@)),
                color: change_if_wanted(actual.color, managed_if_given(desired.color, 0)),
                hoist: change_if_wanted(actual.hoist, managed_if_given(desired.hoist, false)),
                mentionable: change_if_wanted(actual.mentionable, managed_if_given(desired.mentionable, false)),
                permissions,
            };
            Ok(
                if changes.is_empty() {
                    None
                } else {
                    Some(changes)
                },
            )
        },
    }
}

/// Permissions with the changes made.
pub open spec fn changed_permissions(
    permissions: Seq<(Seq<char>, bool)>,
    changes: Seq<(Seq<char>, ValueChange<bool>)>,
) -> Seq<(Seq<char>, bool)>
    decreases changes.len(),
{
    if changes.len() == 0 {
        permissions
    } else {
        changed_permissions(
            put::<KnownPermission, bool>(permissions, changes[0].0, changes[0].1.desired),
            changes.drop_first(),
        )
    }
}

/// The lines that show changes of permissions.
pub open spec fn permission_lines(
    logical_id: Seq<char>,
    discord_id: Seq<char>,
    changes: Seq<(Seq<char>, ValueChange<bool>)>,
) -> Seq<char>
    decreases changes.len(),
{
    if changes.len() == 0 {
        Seq::empty()
    } else {
        permission_lines(logical_id, discord_id, changes.drop_last()) + change_line(
            logical_id,
            discord_id,
            "permissions."@ + changes.last().0,
            bool_chars(changes.last().1.current),
            bool_chars(changes.last().1.desired),
        )
    }
}

/// The line that shows a change of a truth value, if there is one.
pub open spec fn bool_line(
    logical_id: Seq<char>,
    discord_id: Seq<char>,
    attribute: Seq<char>,
    change: Option<ValueChange<bool>>,
) -> Seq<char> {
    match change {
        None => Seq::empty(),
        Some(change) => change_line(
            logical_id,
            discord_id,
            attribute,
            bool_chars(change.current),
            bool_chars(change.desired),
        ),
    }
}

impl AttributeChangesView {
    /// Whether nothing differs.
    pub open spec fn is_empty(self) -> bool {
        &&& self.name is None
        &&& self.color is None
        &&& self.hoist is None
        &&& self.mentionable is None
        &&& self.permissions.len() == 0
    }

    /// The update that makes the changes. Permissions are always given in full.
    pub open spec fn update(self, permissions: Seq<(Seq<char>, bool)>) -> RoleUpdateView {
        RoleUpdateView {
            name: desired_of(self.name),
            color: desired_of(self.color),
            hoist: desired_of(self.hoist),
            mentionable: desired_of(self.mentionable),
            permissions: if self.permissions.len() == 0 {
                None
            } else {
                Some(changed_permissions(permissions, self.permissions))
            },
        }
    }

    /// The lines that show the changes.
    pub open spec fn lines(self, logical_id: Seq<char>, discord_id: Seq<char>) -> Seq<char> {
        let name = match self.name {
            None => Seq::empty(),
            Some(change) => change_line(
                logical_id,
                discord_id,
                "name"@,
                json_quoted(change.current),
                json_quoted(change.desired),
            ),
        };
        let color = match self.color {
            None => Seq::empty(),
            Some(change) => change_line(
                logical_id,
                discord_id,
                "color"@,
                decimal(change.current as nat),
                decimal(change.desired as nat),
            ),
        };
        name + color + bool_line(logical_id, discord_id, "hoist"@, self.hoist) + bool_line(
            logical_id,
            discord_id,
            "mentionable"@,
            self.mentionable,
        ) + permission_lines(logical_id, discord_id, self.permissions)
    }
}

pub(crate) fn want_permission(
    id: &str,
    permission: &KnownPermission,
    value: &ManagedValue<bool>,
    granted: bool,
    defaults: &OrderedMap<KnownPermission, bool>,
    grantable: &OrderedMap<KnownPermission, ()>,
) -> (result: Result<bool, ManagementError>)
    ensures
        seen(result) == wanted_permission(
            id@,
            permission.deep_view(),
            value.deep_view(),
            granted,
            defaults.deep_view(),
            grantable.deep_view(),
        ),
{
    match defaults.get(permission) {
        None => Err(
            ManagementError::RoleSource(
                text3("権限 ", permission.as_str(), " の Guild 既定値を取得できません"),
            ),
        ),
        Some(default) => {
            let desired: bool = value.resolve(*default);
            if desired && !granted && !grantable.contains_key(permission) {
                Err(
                    ManagementError::InvalidDefinition(
                        text5(
                            "Role ",
                            id,
                            " に権限 ",
                            permission.as_str(),
                            " を付与できません。Bot 自身がこの権限を持っていません",
                        ),
                    ),
                )
            } else {
                Ok(desired)
            }
        },
    }
}

fn change_permissions(
    id: &str,
    wanted: &OrderedMap<KnownPermission, ManagedValue<bool>>,
    actual: &OrderedMap<KnownPermission, bool>,
    defaults: &OrderedMap<KnownPermission, bool>,
    grantable: &OrderedMap<KnownPermission, ()>,
) -> (result: Result<OrderedMap<KnownPermission, ValueChange<bool>>, ManagementError>)
    ensures
        seen(result) == permission_changes(
            id@,
            wanted.deep_view(),
            actual.deep_view(),
            defaults.deep_view(),
            grantable.deep_view(),
            Seq::empty(),
        ),
{
    let ghost all = wanted.deep_view();
    let mut changes: OrderedMap<KnownPermission, ValueChange<bool>> = OrderedMap::new();
    let mut i: usize = 0;
    assert(all.skip(0) =~= all);
    while i < wanted.len()
        invariant
            i <= all.len(),
            all == wanted.deep_view(),
            permission_changes(
                id@,
                all,
                actual.deep_view(),
                defaults.deep_view(),
                grantable.deep_view(),
                Seq::empty(),
            ) == permission_changes(
                id@,
                all.skip(i as int),
                actual.deep_view(),
                defaults.deep_view(),
                grantable.deep_view(),
                changes.deep_view(),
            ),
        decreases all.len() - i,
    {
        assert(all.skip(i as int)[0] == all[i as int]);
        assert(all.skip(i as int).drop_first() =~= all.skip(i + 1));
        let permission: &KnownPermission = wanted.key_at(i);
        let current: bool = match actual.get(permission) {
            None => {
                return Err(
                    ManagementError::InvalidDefinition(
                        text5("Role ", id, " に未知の権限 ", permission.as_str(), " が指定されています"),
                    ),
                );
            },
            Some(current) => *current,
        };
        let desired: bool = want_permission(id, permission, wanted.value_at(i), current, defaults, grantable)?;
        match ValueChange::between(current, desired) {
            Some(change) => changes.insert(permission.copy(), change),
            None => {},
        }
        i += 1;
    }
    assert(all.skip(i as int) =~= Seq::empty());
    Ok(changes)
}

fn render_bool(
    output: &mut String,
    logical_id: &str,
    discord_id: &str,
    attribute: &str,
    change: &Option<ValueChange<bool>>,
)
    ensures
        final(output)@ == old(output)@ + bool_line(logical_id@, discord_id@, attribute@, change.deep_view()),
{
    match change {
        None => {
            assert(output@ + Seq::<char>::empty() =~= output@);
        },
        Some(change) => render_change_line(
            output,
            logical_id,
            discord_id,
            attribute,
            bool_text(change.current),
            bool_text(change.desired),
        ),
    }
}

fn render_permissions(
    output: &mut String,
    logical_id: &str,
    discord_id: &str,
    changes: &OrderedMap<KnownPermission, ValueChange<bool>>,
)
    ensures
        final(output)@ == old(output)@ + permission_lines(logical_id@, discord_id@, changes.deep_view()),
{
    let ghost all = changes.deep_view();
    let ghost start = output@;
    let mut i: usize = 0;
    assert(all.take(0) =~= Seq::empty());
    assert(start + Seq::<char>::empty() =~= start);
    while i < changes.len()
        invariant
            i <= all.len(),
            all == changes.deep_view(),
            output@ == start + permission_lines(logical_id@, discord_id@, all.take(i as int)),
        decreases all.len() - i,
    {
        let change: &ValueChange<bool> = changes.value_at(i);
        render_change_line(
            output,
            logical_id,
            discord_id,
            text2("permissions.", changes.key_at(i).as_str()).as_str(),
            bool_text(change.current),
            bool_text(change.desired),
        );
        proof {
            let next = all.take(i + 1);
            assert(next.drop_last() =~= all.take(i as int));
            assert(next.last() == all[i as int]);
            assert(output@ =~= start + permission_lines(logical_id@, discord_id@, next));
        }
        i += 1;
    }
    assert(all.take(i as int) =~= all);
}

impl AttributeChanges {
    /// How the attributes of a role differ from what a definition wants, if they do.
    pub fn between(
        logical_id: &RoleLogicalId,
        actual: &RoleSnapshot,
        desired: &RoleAttributes,
        default_permissions: &OrderedMap<KnownPermission, bool>,
        grantable_permissions: &OrderedMap<KnownPermission, ()>,
    ) -> (result: Result<Option<Self>, ManagementError>)
        ensures
            seen(result) == attribute_changes(
                logical_id.deep_view(),
                actual.deep_view(),
                desired.deep_view(),
                default_permissions.deep_view(),
                grantable_permissions.deep_view(),
            ),
    {
        let permissions: OrderedMap<KnownPermission, ValueChange<bool>> = change_permissions(
            logical_id.as_str(),
            &desired.permissions,
            &actual.permissions,
            default_permissions,
            grantable_permissions,
        )?;
        let changes = AttributeChanges {
            name: ValueChange::if_wanted(&actual.name, desired.name.resolve_optional("new role".to_owned())),
            color: ValueChange::if_wanted(&actual.color, desired.color.resolve_optional(Color::default())),
            hoist: ValueChange::if_wanted(&actual.hoist, desired.hoist.resolve_optional(false)),
            mentionable: ValueChange::if_wanted(&actual.mentionable, desired.mentionable.resolve_optional(false)),
            permissions,
        };
        if changes.is_empty() {
            Ok(None)
        } else {
            Ok(Some(changes))
        }
    }

    /// Whether nothing differs.
    pub fn is_empty(&self) -> (empty: bool)
        ensures
            empty == self.deep_view().is_empty(),
    {
        self.name.is_none() && self.color.is_none() && self.hoist.is_none() && self.mentionable.is_none()
            && self.permissions.is_empty()
    }

    /// The update that makes the changes, given the permissions the role has.
    pub fn to_update(&self, actual_permissions: &OrderedMap<KnownPermission, bool>) -> (update: RoleUpdate)
        ensures
            update.deep_view() == self.deep_view().update(actual_permissions.deep_view()),
    {
        let permissions: Option<OrderedMap<KnownPermission, bool>> = if self.permissions.is_empty() {
            None
        } else {
            let mut permissions: OrderedMap<KnownPermission, bool> = actual_permissions.copy();
            let ghost all = self.permissions.deep_view();
            let mut i: usize = 0;
            assert(all.skip(0) =~= all);
            while i < self.permissions.len()
                invariant
                    i <= all.len(),
                    all == self.permissions.deep_view(),
                    changed_permissions(permissions.deep_view(), all.skip(i as int)) == changed_permissions(
                        actual_permissions.deep_view(),
                        all,
                    ),
                decreases all.len() - i,
            {
                assert(all.skip(i as int)[0] == all[i as int]);
                assert(all.skip(i as int).drop_first() =~= all.skip(i + 1));
                permissions.insert(self.permissions.key_at(i).copy(), self.permissions.value_at(i).desired);
                i += 1;
            }
            assert(all.skip(i as int) =~= Seq::empty());
            Some(permissions)
        };
        RoleUpdate {
            name: desired_value(&self.name),
            color: desired_value(&self.color),
            hoist: desired_value(&self.hoist),
            mentionable: desired_value(&self.mentionable),
            permissions,
        }
    }

    /// Adds the lines that show the changes.
    pub fn render(&self, logical_id: &str, discord_id: &str, output: &mut String)
        ensures
            final(output)@ == old(output)@ + self.deep_view().lines(logical_id@, discord_id@),
    {
        let ghost start = output@;
        let mut lines: String = String::new();
        match &self.name {
            None => {},
            Some(change) => render_change_line(
                &mut lines,
                logical_id,
                discord_id,
                "name",
                display_quoted_string(change.current.as_str()).as_str(),
                display_quoted_string(change.desired.as_str()).as_str(),
            ),
        }
        match &self.color {
            None => {},
            Some(change) => render_change_line(
                &mut lines,
                logical_id,
                discord_id,
                "color",
                decimal_text(change.current.get() as u64).as_str(),
                decimal_text(change.desired.get() as u64).as_str(),
            ),
        }
        render_bool(&mut lines, logical_id, discord_id, "hoist", &self.hoist);
        render_bool(&mut lines, logical_id, discord_id, "mentionable", &self.mentionable);
        render_permissions(&mut lines, logical_id, discord_id, &self.permissions);
        output.append(lines.as_str());
        assert(output@ =~= start + self.deep_view().lines(logical_id@, discord_id@));
    }
}

/// Every permission with its default, from a place on, or why there is none.
pub open spec fn default_for_all(
    names: Seq<(Seq<char>, ())>,
    defaults: Seq<(Seq<char>, bool)>,
    gathered: Seq<(Seq<char>, bool)>,
) -> Result<Seq<(Seq<char>, bool)>, ErrorView>
    decreases names.len(),
{
    if names.len() == 0 {
        Ok(gathered)
    } else {
        match lookup(defaults, names[0].0) {
            None => Err(ErrorView::RoleSource("権限 "@ + names[0].0 + " の Guild 既定値を取得できません"@)),
            Some(default) => default_for_all(
                names.drop_first(),
                defaults,
                put::<KnownPermission, bool>(gathered, names[0].0, default),
            ),
        }
    }
}

/// Permissions with those that a definition wants for a new role, or why there are none.
pub open spec fn created_permissions(
    id: Seq<char>,
    wanted: Seq<(Seq<char>, ManagedValue<bool>)>,
    defaults: Seq<(Seq<char>, bool)>,
    grantable: Seq<(Seq<char>, ())>,
    gathered: Seq<(Seq<char>, bool)>,
) -> Result<Seq<(Seq<char>, bool)>, ErrorView>
    decreases wanted.len(),
{
    if wanted.len() == 0 {
        Ok(gathered)
    } else {
        match wanted_permission(id, wanted[0].0, wanted[0].1, false, defaults, grantable) {
            Err(error) => Err(error),
            Ok(desired) => created_permissions(
                id,
                wanted.drop_first(),
                defaults,
                grantable,
                put::<KnownPermission, bool>(gathered, wanted[0].0, desired),
            ),
        }
    }
}

/// The role that a definition wants to be created, or why it cannot be.
pub open spec fn created_role(
    id: Seq<char>,
    desired: RoleAttributesView,
    names: Seq<(Seq<char>, ())>,
    defaults: Seq<(Seq<char>, bool)>,
    grantable: Seq<(Seq<char>, ())>,
) -> Result<RoleCreateView, ErrorView> {
    match managed_if_given(desired.name, "new role"@) {
        None => Err(ErrorView::InvalidDefinition("新しい Role "@ + id + " には name が必要です"@)),
        Some(name) => match default_for_all(names, defaults, Seq::empty()) {
            Err(error) => Err(error),
            Ok(permissions) => match created_permissions(
                id,
                desired.permissions,
                defaults,
                grantable,
                permissions,
            ) {
                Err(error) => Err(error),
                Ok(permissions) => Ok(
                    RoleCreateView {
                        name,
                        color: crate::port::replaced(0, managed_if_given(desired.color, 0)),
                        hoist: managed_if_given(desired.hoist, false) == Some(true),
                        mentionable: managed_if_given(desired.mentionable, false) == Some(true),
                        permissions,
                    },
                ),
            },
        },
    }
}

fn take_defaults(
    names: &OrderedMap<KnownPermission, ()>,
    defaults: &OrderedMap<KnownPermission, bool>,
) -> (result: Result<OrderedMap<KnownPermission, bool>, ManagementError>)
    ensures
        seen(result) == default_for_all(names.deep_view(), defaults.deep_view(), Seq::empty()),
{
    let ghost all = names.deep_view();
    let mut gathered: OrderedMap<KnownPermission, bool> = OrderedMap::new();
    let mut i: usize = 0;
    assert(all.skip(0) =~= all);
    while i < names.len()
        invariant
            i <= all.len(),
            all == names.deep_view(),
            default_for_all(all, defaults.deep_view(), Seq::empty()) == default_for_all(
                all.skip(i as int),
                defaults.deep_view(),
                gathered.deep_view(),
            ),
        decreases all.len() - i,
    {
        assert(all.skip(i as int)[0] == all[i as int]);
        assert(all.skip(i as int).drop_first() =~= all.skip(i + 1));
        let name: &KnownPermission = names.key_at(i);
        match defaults.get(name) {
            None => {
                return Err(
                    ManagementError::RoleSource(
                        text3("権限 ", name.as_str(), " の Guild 既定値を取得できません"),
                    ),
                );
            },
            Some(default) => gathered.insert(name.copy(), *default),
        }
        i += 1;
    }
    assert(all.skip(i as int) =~= Seq::empty());
    Ok(gathered)
}

/// The role that a definition wants to be created.
#[verifier::loop_isolation(false)]
pub fn build_role_create(
    desired: &RoleAttributes,
    permission_names: &OrderedMap<KnownPermission, ()>,
    default_permissions: &OrderedMap<KnownPermission, bool>,
    grantable_permissions: &OrderedMap<KnownPermission, ()>,
    logical_id: &RoleLogicalId,
) -> (result: Result<RoleCreate, ManagementError>)
    ensures
        seen(result) == created_role(
            logical_id.deep_view(),
            desired.deep_view(),
            permission_names.deep_view(),
            default_permissions.deep_view(),
            grantable_permissions.deep_view(),
        ),
{
    let id: &str = logical_id.as_str();
    let name: String = match desired.name.resolve_optional("new role".to_owned()) {
        None => {
            return Err(
                ManagementError::InvalidDefinition(text3("新しい Role ", id, " には name が必要です")),
            );
        },
        Some(name) => name,
    };
    let mut permissions: OrderedMap<KnownPermission, bool> = take_defaults(permission_names, default_permissions)?;
    let ghost all = desired.permissions.deep_view();
    let ghost defaults = default_permissions.deep_view();
    let ghost grantable = grantable_permissions.deep_view();
    let ghost wanted = created_permissions(id@, all, defaults, grantable, permissions.deep_view());
    let mut i: usize = 0;
    assert(all.skip(0) =~= all);
    while i < desired.permissions.len()
        invariant
            i <= all.len(),
            wanted == created_permissions(
                id@,
                all.skip(i as int),
                defaults,
                grantable,
                permissions.deep_view(),
            ),
        decreases all.len() - i,
    {
        assert(all.skip(i as int)[0] == all[i as int]);
        assert(all.skip(i as int).drop_first() =~= all.skip(i + 1));
        let permission: &KnownPermission = desired.permissions.key_at(i);
        let resolved: bool = want_permission(
            id,
            permission,
            desired.permissions.value_at(i),
            false,
            default_permissions,
            grantable_permissions,
        )?;
        permissions.insert(permission.copy(), resolved);
        i += 1;
    }
    assert(all.skip(i as int) =~= Seq::empty());
    let color: Color = match desired.color.resolve_optional(Color::default()) {
        Some(color) => color,
        None => Color::default(),
    };
    Ok(
        RoleCreate {
            name,
            color,
            hoist: matches!(desired.hoist.resolve_optional(false), Some(true)),
            mentionable: matches!(desired.mentionable.resolve_optional(false), Some(true)),
            permissions,
        },
    )
}

} // verus!
