//! The definition file: what a guild should have.

use vstd::prelude::*;
use vstd::string::*;

use crate::configuration::channel::{
    ChannelAttributes, ChannelAttributesView, ChannelDefinition, ChannelDefinitionView, Ensure, MemberDefinition,
    RawChannelAttributes, RawChannelDefinition, RawChannelDefinitionView,
};
use crate::configuration::order::{order_fault, validate_order};
use crate::configuration::permission::PermissionVocabulary;
use crate::configuration::report::{
    entries_report, entry_path, fault_of, join_lines, lines, part, part_path, place_report, report_entries,
    report_place, Reported,
};
use crate::configuration::role::{
    RawRoleAttributes, RawRoleDefinition, RawRoleDefinitionView, RoleAttributes, RoleAttributesView, RoleDefinition,
    RoleDefinitionView, RoleMode,
};
use crate::configuration::validation::{checked, fault, first_repeated, stands_before, Fault, ValidationError};
use crate::domain::{ErrorView, ManagementError, SCHEMA_VERSION};
use crate::ids::{
    check_logical_id, is_id_char, is_logical_id, ChannelLogicalId, ChannelSettingsSetId, LogicalId, MemberLogicalId,
    MessageLogicalId, RoleLogicalId, RoleSettingsSetId,
};
use crate::ordered::{first_in, first_in_step, has_key, lookup, put_at_end, OrderedMap};
use crate::text::{text2, text3, text4, text5};
use crate::value::{seen, Plain};

verus! {

/// A message that a definition posts.
pub struct RawMessageDefinition {
    pub id: MessageLogicalId,
    pub body: String,
}

impl DeepView for RawMessageDefinition {
    type V = (Seq<char>, Seq<char>);

    open spec fn deep_view(&self) -> (Seq<char>, Seq<char>) {
        (self.id.deep_view(), self.body@)
    }
}

/// A set of messages that a definition posts into a channel.
pub struct RawMessageSetDefinition {
    pub ensure: Option<Ensure>,
    pub channel: Option<ChannelLogicalId>,
    pub body: Option<Vec<RawMessageDefinition>>,
}

/// What a set of messages holds.
pub struct MessageSetView {
    pub ensure: Option<Ensure>,
    pub channel: Option<Seq<char>>,
    pub body: Option<Seq<(Seq<char>, Seq<char>)>>,
}

impl DeepView for RawMessageSetDefinition {
    type V = MessageSetView;

    open spec fn deep_view(&self) -> MessageSetView {
        MessageSetView { ensure: self.ensure, channel: self.channel.deep_view(), body: self.body.deep_view() }
    }
}

/// A thread that a definition posts into a channel.
pub struct RawThreadDefinition {
    pub ensure: Option<Ensure>,
    pub channel: Option<ChannelLogicalId>,
    pub name: Option<String>,
    pub body: Option<Vec<RawMessageDefinition>>,
}

/// What a thread holds.
pub struct ThreadView {
    pub ensure: Option<Ensure>,
    pub channel: Option<Seq<char>>,
    pub name: Option<Seq<char>>,
    pub body: Option<Seq<(Seq<char>, Seq<char>)>>,
}

impl DeepView for RawThreadDefinition {
    type V = ThreadView;

    open spec fn deep_view(&self) -> ThreadView {
        ThreadView {
            ensure: self.ensure,
            channel: self.channel.deep_view(),
            name: self.name.deep_view(),
            body: self.body.deep_view(),
        }
    }
}

/// What is wrong with a single message.
pub open spec fn message_fault(body: Seq<char>) -> Option<Fault> {
    if body.len() == 0 {
        Some(fault("length"@, "body は1文字以上で指定してください"@))
    } else {
        None
    }
}

/// What is said of a single message.
pub open spec fn message_report(body: Seq<char>, path: Seq<char>) -> Seq<char> {
    place_report(part(path, "body"@), message_fault(body))
}

/// What is said of single messages.
pub open spec fn messages_report(body: Option<Seq<(Seq<char>, Seq<char>)>>, path: Seq<char>) -> Seq<char> {
    match body {
        Some(messages) => entries_report(
            path,
            messages,
            0,
            |body: Seq<char>, place: Seq<char>| message_report(body, place),
        ),
        None => Seq::empty(),
    }
}

/// What is wrong with the names of messages, from a place on.
pub open spec fn message_ids_fault(messages: Seq<(Seq<char>, Seq<char>)>, i: int) -> Option<Fault>
    decreases messages.len() - i,
{
    if i < 0 || i >= messages.len() {
        None
    } else if has_key(messages.take(i), messages[i].0) {
        Some(fault("duplicate"@, "body の message id "@ + messages[i].0 + " が重複しています"@))
    } else {
        message_ids_fault(messages, i + 1)
    }
}

fn has_message_before(messages: &Vec<RawMessageDefinition>, i: usize) -> (answer: bool)
    requires
        i < messages@.len(),
    ensures
        answer == has_key(messages.deep_view().take(i as int), messages.deep_view()[i as int].0),
{
    let ghost head = messages.deep_view().take(i as int);
    let ghost id = messages.deep_view()[i as int].0;
    let mut k: usize = 0;
    assert(head.skip(0) =~= head);
    while k < i
        invariant
            k <= i < messages@.len(),
            head == messages.deep_view().take(i as int),
            id == messages.deep_view()[i as int].0,
            lookup(head, id) == lookup(head.skip(k as int), id),
        decreases i - k,
    {
        assert(head.skip(k as int)[0] == messages@[k as int].deep_view());
        assert(head.skip(k as int).drop_first() =~= head.skip(k + 1));
        if messages[k].id.same(&messages[i].id) {
            return true;
        }
        k += 1;
    }
    assert(head.skip(i as int) =~= Seq::empty());
    false
}

/// Checks that the names of messages are different.
pub fn validate_message_ids(messages: &Vec<RawMessageDefinition>) -> (result: Result<(), ValidationError>)
    ensures
        seen(result) == checked(message_ids_fault(messages.deep_view(), 0)),
{
    let mut i: usize = 0;
    while i < messages.len()
        invariant
            i <= messages@.len(),
            message_ids_fault(messages.deep_view(), 0) == message_ids_fault(messages.deep_view(), i as int),
        decreases messages@.len() - i,
    {
        if has_message_before(messages, i) {
            return Err(
                ValidationError::new(
                    "duplicate",
                    text3("body の message id ", messages[i].id.as_str(), " が重複しています").as_str(),
                ),
            );
        }
        i += 1;
    }
    Ok(())
}

fn validate_body(body: &String) -> (result: Result<(), ValidationError>)
    ensures
        seen(result) == checked(message_fault(body@)),
{
    if body.as_str().unicode_len() == 0 {
        Err(ValidationError::new("length", "body は1文字以上で指定してください"))
    } else {
        Ok(())
    }
}

fn report_messages(body: &Option<Vec<RawMessageDefinition>>, path: &str) -> (report: String)
    ensures
        report@ == messages_report(body.deep_view(), path@),
{
    match body {
        None => String::new(),
        Some(messages) => {
            let ghost all = messages.deep_view();
            let ghost said = |body: Seq<char>, place: Seq<char>| message_report(body, place);
            let mut report: String = String::new();
            let mut i: usize = 0;
            assert(report@ + entries_report(path@, all, 0, said) =~= entries_report(path@, all, 0, said));
            while i < messages.len()
                invariant
                    i <= messages@.len(),
                    body.deep_view() == Some(all),
                    all == messages.deep_view(),
                    said == (|body: Seq<char>, place: Seq<char>| message_report(body, place)),
                    entries_report(path@, all, 0, said) == report@ + entries_report(path@, all, i as int, said),
                decreases messages@.len() - i,
            {
                assert(all[i as int] == messages@[i as int].deep_view());
                let place: String = entry_path(path, i);
                let here: String = report_place(
                    part_path(place.as_str(), "body").as_str(),
                    validate_body(&messages[i].body),
                );
                proof {
                    assert(report@ + (here@ + entries_report(path@, all, i + 1, said)) =~= (report@ + here@)
                        + entries_report(path@, all, i + 1, said));
                }
                report = text2(report.as_str(), here.as_str());
                i += 1;
            }
            assert(report@ + Seq::<char>::empty() =~= report@);
            report
        },
    }
}

/// What is said of parts, and of how they go together where nothing is said of them.
pub open spec fn whole_report(parts: Seq<char>, path: Seq<char>, together: Option<Fault>) -> Seq<char> {
    if parts.len() > 0 {
        parts
    } else {
        place_report(part(path, "__all__"@), together)
    }
}

fn report_whole(parts: String, path: &str, together: Result<(), ValidationError>) -> (report: String)
    ensures
        report@ == whole_report(parts@, path@, fault_of(seen(together))),
{
    if parts.as_str().unicode_len() > 0 {
        parts
    } else {
        report_place(part_path(path, "__all__").as_str(), together)
    }
}

impl MessageSetView {
    /// What is said of the set of messages.
    pub open spec fn report(self, path: Seq<char>) -> Seq<char> {
        whole_report(messages_report(self.body, part(path, "body"@)), path, self.parts_fault())
    }

    /// What is wrong with the parts of the set together.
    pub open spec fn parts_fault(self) -> Option<Fault> {
        if self.ensure == Some(Ensure::Absent) {
            if self.channel is Some || self.body is Some {
                Some(
                    fault(
                        "exclusive"@,
                        "ensure = \"absent\" の管理メッセージ群には channel、body を指定できません"@,
                    ),
                )
            } else {
                None
            }
        } else if self.channel is None {
            Some(fault("required"@, "管理メッセージ群には channel が必要です"@))
        } else {
            match self.body {
                None => Some(fault("required"@, "管理メッセージ群には body が必要です"@)),
                Some(messages) => message_ids_fault(messages, 0),
            }
        }
    }
}

impl ThreadView {
    /// What is wrong with the name of the thread.
    pub open spec fn name_fault(self) -> Option<Fault> {
        match self.name {
            Some(name) => if 1 <= name.len() <= 100 {
                None
            } else {
                Some(fault("length"@, "name は1文字以上100文字以内で指定してください"@))
            },
            None => None,
        }
    }

    /// What is said of the thread.
    pub open spec fn report(self, path: Seq<char>) -> Seq<char> {
        whole_report(
            place_report(part(path, "name"@), self.name_fault()) + messages_report(self.body, part(path, "body"@)),
            path,
            self.parts_fault(),
        )
    }

    /// What is wrong with the parts of the thread together.
    pub open spec fn parts_fault(self) -> Option<Fault> {
        if self.ensure == Some(Ensure::Absent) {
            if self.channel is Some || self.name is Some || self.body is Some {
                Some(
                    fault(
                        "exclusive"@,
                        "ensure = \"absent\" の管理スレッドには channel、name、body を指定できません"@,
                    ),
                )
            } else {
                None
            }
        } else if self.ensure == Some(Ensure::Present) {
            Some(fault("exclusive"@, "管理スレッドの present には ensure を指定できません"@))
        } else if self.channel is None {
            Some(fault("required"@, "管理スレッドには channel が必要です"@))
        } else if self.name is None {
            Some(fault("required"@, "管理スレッドには name が必要です"@))
        } else {
            match self.body {
                None => Some(fault("required"@, "管理スレッドには body が必要です"@)),
                Some(messages) => message_ids_fault(messages, 0),
            }
        }
    }
}

impl RawMessageSetDefinition {
    /// Whether the set should be deleted.
    pub fn is_absent(&self) -> (answer: bool)
        ensures
            answer == (self.deep_view().ensure == Some(Ensure::Absent)),
    {
        matches!(self.ensure, Some(Ensure::Absent))
    }

    /// Checks how the parts of the set go together.
    pub fn validate_parts(&self) -> (result: Result<(), ValidationError>)
        ensures
            seen(result) == checked(self.deep_view().parts_fault()),
    {
        if self.is_absent() {
            if self.channel.is_some() || self.body.is_some() {
                return Err(
                    ValidationError::new(
                        "exclusive",
                        "ensure = \"absent\" の管理メッセージ群には channel、body を指定できません",
                    ),
                );
            }
            return Ok(());
        }
        if self.channel.is_none() {
            return Err(ValidationError::new("required", "管理メッセージ群には channel が必要です"));
        }
        match &self.body {
            None => Err(ValidationError::new("required", "管理メッセージ群には body が必要です")),
            Some(messages) => validate_message_ids(messages),
        }
    }
}

impl RawThreadDefinition {
    /// Whether the thread should be deleted.
    pub fn is_absent(&self) -> (answer: bool)
        ensures
            answer == (self.deep_view().ensure == Some(Ensure::Absent)),
    {
        matches!(self.ensure, Some(Ensure::Absent))
    }

    fn validate_name(&self) -> (result: Result<(), ValidationError>)
        ensures
            seen(result) == checked(self.deep_view().name_fault()),
    {
        match &self.name {
            None => {},
            Some(name) => {
                let length: usize = name.as_str().unicode_len();
                if length < 1 || length > 100 {
                    return Err(
                        ValidationError::new("length", "name は1文字以上100文字以内で指定してください"),
                    );
                }
            },
        }
        Ok(())
    }

    /// Checks how the parts of the thread go together.
    pub fn validate_parts(&self) -> (result: Result<(), ValidationError>)
        ensures
            seen(result) == checked(self.deep_view().parts_fault()),
    {
        if self.is_absent() {
            if self.channel.is_some() || self.name.is_some() || self.body.is_some() {
                return Err(
                    ValidationError::new(
                        "exclusive",
                        "ensure = \"absent\" の管理スレッドには channel、name、body を指定できません",
                    ),
                );
            }
            return Ok(());
        }
        if matches!(self.ensure, Some(Ensure::Present)) {
            return Err(
                ValidationError::new("exclusive", "管理スレッドの present には ensure を指定できません"),
            );
        }
        if self.channel.is_none() {
            return Err(ValidationError::new("required", "管理スレッドには channel が必要です"));
        }
        if self.name.is_none() {
            return Err(ValidationError::new("required", "管理スレッドには name が必要です"));
        }
        match &self.body {
            None => Err(ValidationError::new("required", "管理スレッドには body が必要です")),
            Some(messages) => validate_message_ids(messages),
        }
    }
}

impl Reported for RawMessageSetDefinition {
    open spec fn said(value: MessageSetView, path: Seq<char>) -> Seq<char> {
        value.report(path)
    }

    fn say(&self, path: &str) -> (report: String) {
        report_whole(
            report_messages(&self.body, part_path(path, "body").as_str()),
            path,
            self.validate_parts(),
        )
    }
}

impl Reported for RawThreadDefinition {
    open spec fn said(value: ThreadView, path: Seq<char>) -> Seq<char> {
        value.report(path)
    }

    fn say(&self, path: &str) -> (report: String) {
        let name: String = report_place(part_path(path, "name").as_str(), self.validate_name());
        let body: String = report_messages(&self.body, part_path(path, "body").as_str());
        report_whole(text2(name.as_str(), body.as_str()), path, self.validate_parts())
    }
}

/// What is wrong with the name of a set of messages or of a thread.
pub open spec fn resource_name_fault(name: Seq<char>) -> Option<Fault> {
    if is_logical_id(name) {
        None
    } else {
        Some(
            fault(
                "format"@,
                "管理リソース名 "@ + name
                    + " は英数字、ハイフン、アンダースコアだけで指定してください"@,
            ),
        )
    }
}

/// Checks the names of sets of messages or of threads.
pub fn validate_resource_names<W: DeepView>(resources: &OrderedMap<String, W>) -> (result: Result<
    (),
    ValidationError,
>)
    ensures
        seen(result) == checked(
            first_in(resources.deep_view(), |name: Seq<char>, value: W::V| resource_name_fault(name)),
        ),
{
    let ghost all = resources.deep_view();
    let ghost check = |name: Seq<char>, value: W::V| resource_name_fault(name);
    let mut i: usize = 0;
    assert(all.skip(0) =~= all);
    while i < resources.len()
        invariant
            i <= all.len(),
            all == resources.deep_view(),
            check == (|name: Seq<char>, value: W::V| resource_name_fault(name)),
            first_in(all, check) == first_in(all.skip(i as int), check),
        decreases all.len() - i,
    {
        proof {
            first_in_step(all, check, i as int);
        }
        let name: &String = resources.key_at(i);
        if !check_logical_id(name.as_str()) {
            return Err(
                ValidationError::new(
                    "format",
                    text3(
                        "管理リソース名 ",
                        name.as_str(),
                        " は英数字、ハイフン、アンダースコアだけで指定してください",
                    ).as_str(),
                ),
            );
        }
        i += 1;
    }
    Ok(())
}

/// The order that a definition gives to roles and channels.
pub struct RawOrderDefinition {
    pub roles: Vec<RoleLogicalId>,
    pub categories: Vec<ChannelLogicalId>,
    pub uncategorized: Vec<ChannelLogicalId>,
    pub children: OrderedMap<ChannelLogicalId, Vec<ChannelLogicalId>>,
}

/// What an order holds.
pub struct OrderView {
    pub roles: Seq<Seq<char>>,
    pub categories: Seq<Seq<char>>,
    pub uncategorized: Seq<Seq<char>>,
    pub children: Seq<(Seq<char>, Seq<Seq<char>>)>,
}

impl DeepView for RawOrderDefinition {
    type V = OrderView;

    open spec fn deep_view(&self) -> OrderView {
        OrderView {
            roles: self.roles.deep_view(),
            categories: self.categories.deep_view(),
            uncategorized: self.uncategorized.deep_view(),
            children: self.children.deep_view(),
        }
    }
}

impl Plain for RawOrderDefinition {
    fn copy(&self) -> (copied: Self) {
        RawOrderDefinition {
            roles: self.roles.copy(),
            categories: self.categories.copy(),
            uncategorized: self.uncategorized.copy(),
            children: self.children.copy(),
        }
    }

    fn same(&self, other: &Self) -> (equal: bool) {
        self.roles.same(&other.roles) && self.categories.same(&other.categories) && self.uncategorized.same(
            &other.uncategorized,
        ) && self.children.same(&other.children)
    }
}

/// What is wrong with names that should be different.
pub open spec fn repeated_fault(kind: Seq<char>, values: Seq<Seq<char>>) -> Option<Fault> {
    match first_repeated(values, 0) {
        Some(value) => Some(
            fault("duplicate"@, "order の "@ + kind + " "@ + value + " が重複しています"@),
        ),
        None => None,
    }
}

/// Checks that names are different.
pub fn validate_unique_order<Tag>(values: &Vec<LogicalId<Tag>>, resource_kind: &str) -> (result: Result<
    (),
    ValidationError,
>)
    ensures
        seen(result) == checked(repeated_fault(resource_kind@, values.deep_view())),
{
    let mut i: usize = 0;
    while i < values.len()
        invariant
            i <= values@.len(),
            first_repeated(values.deep_view(), 0) == first_repeated(values.deep_view(), i as int),
        decreases values@.len() - i,
    {
        if stands_before(values, i) {
            return Err(
                ValidationError::new(
                    "duplicate",
                    text5(
                        "order の ",
                        resource_kind,
                        " ",
                        values[i].as_str(),
                        " が重複しています",
                    ).as_str(),
                ),
            );
        }
        i += 1;
    }
    Ok(())
}

/// What is wrong with the children of a parent.
pub open spec fn children_names_fault(parent: Seq<char>, children: Seq<Seq<char>>) -> Option<Fault> {
    repeated_fault("Channel "@ + parent + " の子"@, children)
}

impl OrderView {
    /// What is wrong with the children of each parent.
    pub open spec fn children_fault(self) -> Option<Fault> {
        first_in(
            self.children,
            |parent: Seq<char>, children: Seq<Seq<char>>| children_names_fault(parent, children),
        )
    }

    /// What is said of the order by itself: something is named twice.
    pub open spec fn report(self, path: Seq<char>) -> Seq<char> {
        place_report(part(path, "roles"@), repeated_fault("Role"@, self.roles)) + place_report(
            part(path, "categories"@),
            repeated_fault("Channel"@, self.categories),
        ) + place_report(part(path, "uncategorized"@), repeated_fault("Channel"@, self.uncategorized))
            + place_report(part(path, "children"@), self.children_fault())
    }
}

impl RawOrderDefinition {
    /// Checks that the children of each parent are named once.
    #[verifier::loop_isolation(false)]
    pub fn validate_children(&self) -> (result: Result<(), ValidationError>)
        ensures
            seen(result) == checked(self.deep_view().children_fault()),
    {
        let ghost all = self.children.deep_view();
        let ghost check = |parent: Seq<char>, children: Seq<Seq<char>>| children_names_fault(parent, children);
        let mut i: usize = 0;
        assert(all.skip(0) =~= all);
        while i < self.children.len()
            invariant
                i <= all.len(),
                all == self.children.deep_view(),
                check == (|parent: Seq<char>, children: Seq<Seq<char>>| children_names_fault(parent, children)),
                first_in(all, check) == first_in(all.skip(i as int), check),
            decreases all.len() - i,
        {
            proof {
                first_in_step(all, check, i as int);
            }
            validate_unique_order(
                self.children.value_at(i),
                text3("Channel ", self.children.key_at(i).as_str(), " の子").as_str(),
            )?;
            i += 1;
        }
        Ok(())
    }

    /// Checks the order by itself.
    pub fn report(&self, path: &str) -> (report: String)
        ensures
            report@ == self.deep_view().report(path@),
    {
        let roles: String = report_place(
            part_path(path, "roles").as_str(),
            validate_unique_order(&self.roles, "Role"),
        );
        let categories: String = report_place(
            part_path(path, "categories").as_str(),
            validate_unique_order(&self.categories, "Channel"),
        );
        let uncategorized: String = report_place(
            part_path(path, "uncategorized").as_str(),
            validate_unique_order(&self.uncategorized, "Channel"),
        );
        let children: String = report_place(part_path(path, "children").as_str(), self.validate_children());
        text4(roles.as_str(), categories.as_str(), uncategorized.as_str(), children.as_str())
    }
}

/// Attributes that several roles or channels share.
pub struct RawSettingsSets {
    pub role: OrderedMap<RoleSettingsSetId, RawRoleAttributes>,
    pub channel: OrderedMap<ChannelSettingsSetId, RawChannelAttributes>,
}

/// Attributes that several roles or channels share, with known permissions.
pub struct SettingsSets {
    pub role: OrderedMap<RoleSettingsSetId, RoleAttributes>,
    pub channel: OrderedMap<ChannelSettingsSetId, ChannelAttributes>,
}

/// What settings sets hold.
pub struct SettingsSetsView {
    pub role: Seq<(Seq<char>, RoleAttributesView)>,
    pub channel: Seq<(Seq<char>, ChannelAttributesView)>,
}

impl DeepView for RawSettingsSets {
    type V = SettingsSetsView;

    open spec fn deep_view(&self) -> SettingsSetsView {
        SettingsSetsView { role: self.role.deep_view(), channel: self.channel.deep_view() }
    }
}

impl DeepView for SettingsSets {
    type V = SettingsSetsView;

    open spec fn deep_view(&self) -> SettingsSetsView {
        SettingsSetsView { role: self.role.deep_view(), channel: self.channel.deep_view() }
    }
}

/// The name under which the references of a channel settings set are reported.
pub open spec fn settings_set_channel(name: Seq<char>) -> Seq<char> {
    "settings_set_"@ + name
}

/// What is wrong with the permissions of a role settings set.
pub open spec fn role_set_error(
    name: Seq<char>,
    attributes: RoleAttributesView,
    known: Seq<(Seq<char>, ())>,
) -> Option<ErrorView> {
    match attributes.resolved(known, "Role 設定セット "@ + name) {
        Err(error) => Some(error),
        Ok(_) => None,
    }
}

/// What is wrong with the permissions of a channel settings set.
pub open spec fn channel_set_error(
    name: Seq<char>,
    attributes: ChannelAttributesView,
    known: Seq<(Seq<char>, ())>,
) -> Option<ErrorView> {
    match attributes.resolved(known, settings_set_channel(name)) {
        Err(error) => Some(error),
        Ok(_) => None,
    }
}

impl SettingsSetsView {
    /// The settings sets with known permissions.
    pub open spec fn resolved(self, known: Seq<(Seq<char>, ())>) -> Result<SettingsSetsView, ErrorView> {
        match first_in(
            self.role,
            |name: Seq<char>, attributes: RoleAttributesView| role_set_error(name, attributes, known),
        ) {
            Some(error) => Err(error),
            None => match first_in(
                self.channel,
                |name: Seq<char>, attributes: ChannelAttributesView| channel_set_error(name, attributes, known),
            ) {
                Some(error) => Err(error),
                None => Ok(self),
            },
        }
    }
}

#[verifier::loop_isolation(false)]
fn resolve_role_sets(
    sets: OrderedMap<RoleSettingsSetId, RawRoleAttributes>,
    vocabulary: &PermissionVocabulary,
) -> (result: Result<OrderedMap<RoleSettingsSetId, RoleAttributes>, ManagementError>)
    ensures
        seen(result) == match first_in(
            sets.deep_view(),
            |name: Seq<char>, attributes: RoleAttributesView|
                role_set_error(name, attributes, vocabulary.deep_view()),
        ) {
            Some(error) => Err(error),
            None => Ok(sets.deep_view()),
        },
{
    let ghost all = sets.deep_view();
    let ghost known = vocabulary.deep_view();
    let ghost check = |name: Seq<char>, attributes: RoleAttributesView| role_set_error(name, attributes, known);
    let mut resolved: OrderedMap<RoleSettingsSetId, RoleAttributes> = OrderedMap::new();
    let entries: Vec<(RoleSettingsSetId, RawRoleAttributes)> = sets.into_entries();
    assert(all.skip(0) =~= all);
    assert(all.take(0) =~= Seq::empty());
    for entry in iter: entries
        invariant
            entries.deep_view() == all,
            iter.seq() == entries@,
            known == vocabulary.deep_view(),
            crate::ordered::sorted::<RoleSettingsSetId, RoleAttributesView>(all),
            check == (|name: Seq<char>, attributes: RoleAttributesView| role_set_error(name, attributes, known)),
            first_in(all, check) == first_in(all.skip(iter.index() as int), check),
            resolved.deep_view() == all.take(iter.index() as int),
    {
        let ghost i = iter.index() as int;
        proof {
            first_in_step(all, check, i);
            assert(all[i] == entries@[i].deep_view());
        }
        let (name, attributes) = entry;
        let attributes: RoleAttributes = attributes.resolve(
            vocabulary,
            text2("Role 設定セット ", name.as_str()).as_str(),
        )?;
        proof {
            put_at_end::<RoleSettingsSetId, RoleAttributesView>(all.take(i), all[i].0, all[i].1);
            assert(all.take(i + 1) =~= all.take(i).push(all[i]));
        }
        resolved.insert(name, attributes);
    }
    assert(all.take(all.len() as int) =~= all);
    assert(all.skip(all.len() as int) =~= Seq::empty());
    Ok(resolved)
}

/// The name under which the references of a channel settings set are reported.
pub fn settings_set_logical_id(name: &ChannelSettingsSetId) -> (id: ChannelLogicalId)
    ensures
        id.deep_view() == settings_set_channel(name.deep_view()),
{
    let text: String = text2("settings_set_", name.as_str());
    proof {
        reveal_strlit("settings_set_");
        assert forall|i: int| 0 <= i < text@.len() implies is_id_char(#[trigger] text@[i]) by {
            if i >= "settings_set_"@.len() {
                assert(text@[i] == name.deep_view()[i - "settings_set_"@.len()]);
            }
        }
    }
    match ChannelLogicalId::parse(text.as_str()) {
        Ok(id) => id,
        Err(_) => {
            assert(false);
            ChannelLogicalId::generated("settings_set_", 0)
        },
    }
}

#[verifier::loop_isolation(false)]
fn resolve_channel_sets(
    sets: OrderedMap<ChannelSettingsSetId, RawChannelAttributes>,
    vocabulary: &PermissionVocabulary,
) -> (result: Result<OrderedMap<ChannelSettingsSetId, ChannelAttributes>, ManagementError>)
    ensures
        seen(result) == match first_in(
            sets.deep_view(),
            |name: Seq<char>, attributes: ChannelAttributesView|
                channel_set_error(name, attributes, vocabulary.deep_view()),
        ) {
            Some(error) => Err(error),
            None => Ok(sets.deep_view()),
        },
{
    let ghost all = sets.deep_view();
    let ghost known = vocabulary.deep_view();
    let ghost check = |name: Seq<char>, attributes: ChannelAttributesView| channel_set_error(name, attributes, known);
    let mut resolved: OrderedMap<ChannelSettingsSetId, ChannelAttributes> = OrderedMap::new();
    let entries: Vec<(ChannelSettingsSetId, RawChannelAttributes)> = sets.into_entries();
    assert(all.skip(0) =~= all);
    assert(all.take(0) =~= Seq::empty());
    for entry in iter: entries
        invariant
            entries.deep_view() == all,
            iter.seq() == entries@,
            known == vocabulary.deep_view(),
            crate::ordered::sorted::<ChannelSettingsSetId, ChannelAttributesView>(all),
            check == (|name: Seq<char>, attributes: ChannelAttributesView| channel_set_error(name, attributes, known)),
            first_in(all, check) == first_in(all.skip(iter.index() as int), check),
            resolved.deep_view() == all.take(iter.index() as int),
    {
        let ghost i = iter.index() as int;
        proof {
            first_in_step(all, check, i);
            assert(all[i] == entries@[i].deep_view());
        }
        let (name, attributes) = entry;
        proof {
            reveal_strlit("settings_set_");
        }
        let channel: ChannelLogicalId = settings_set_logical_id(&name);
        let attributes: ChannelAttributes = attributes.resolve(&channel, vocabulary)?;
        proof {
            put_at_end::<ChannelSettingsSetId, ChannelAttributesView>(all.take(i), all[i].0, all[i].1);
            assert(all.take(i + 1) =~= all.take(i).push(all[i]));
        }
        resolved.insert(name, attributes);
    }
    assert(all.take(all.len() as int) =~= all);
    assert(all.skip(all.len() as int) =~= Seq::empty());
    Ok(resolved)
}


impl RawSettingsSets {
    /// Whether there is no settings set.
    pub fn is_empty(&self) -> (empty: bool)
        ensures
            empty == (self.deep_view().role.len() == 0 && self.deep_view().channel.len() == 0),
    {
        self.role.is_empty() && self.channel.is_empty()
    }

    /// The settings sets with known permissions.
    pub fn resolve(self, vocabulary: &PermissionVocabulary) -> (result: Result<SettingsSets, ManagementError>)
        ensures
            seen(result) == self.deep_view().resolved(vocabulary.deep_view()),
    {
        let role: OrderedMap<RoleSettingsSetId, RoleAttributes> = resolve_role_sets(self.role, vocabulary)?;
        let channel: OrderedMap<ChannelSettingsSetId, ChannelAttributes> = resolve_channel_sets(
            self.channel,
            vocabulary,
        )?;
        Ok(SettingsSets { role, channel })
    }
}

/// A definition as it is written.
pub struct RawDefinitionFile {
    pub schema_version: u32,
    pub settings_sets: RawSettingsSets,
    pub roles: OrderedMap<RoleLogicalId, RawRoleDefinition>,
    pub channels: OrderedMap<ChannelLogicalId, RawChannelDefinition>,
    pub members: OrderedMap<MemberLogicalId, MemberDefinition>,
    pub message_sets: OrderedMap<String, RawMessageSetDefinition>,
    pub threads: OrderedMap<String, RawThreadDefinition>,
    pub order: Option<RawOrderDefinition>,
}

/// What a written definition holds.
pub struct RawDefinitionView {
    pub schema_version: u32,
    pub settings_sets: SettingsSetsView,
    pub roles: Seq<(Seq<char>, RawRoleDefinitionView)>,
    pub channels: Seq<(Seq<char>, RawChannelDefinitionView)>,
    pub members: Seq<(Seq<char>, RoleMode)>,
    pub message_sets: Seq<(Seq<char>, MessageSetView)>,
    pub threads: Seq<(Seq<char>, ThreadView)>,
    pub order: Option<OrderView>,
}

impl DeepView for RawDefinitionFile {
    type V = RawDefinitionView;

    open spec fn deep_view(&self) -> RawDefinitionView {
        RawDefinitionView {
            schema_version: self.schema_version,
            settings_sets: self.settings_sets.deep_view(),
            roles: self.roles.deep_view(),
            channels: self.channels.deep_view(),
            members: self.members.deep_view(),
            message_sets: self.message_sets.deep_view(),
            threads: self.threads.deep_view(),
            order: self.order.deep_view(),
        }
    }
}

/// A definition that was accepted.
pub struct DefinitionFile {
    pub settings_sets: SettingsSets,
    pub roles: OrderedMap<RoleLogicalId, RoleDefinition>,
    pub channels: OrderedMap<ChannelLogicalId, ChannelDefinition>,
    pub members: OrderedMap<MemberLogicalId, MemberDefinition>,
    pub message_sets: OrderedMap<String, RawMessageSetDefinition>,
    pub threads: OrderedMap<String, RawThreadDefinition>,
    pub order: Option<RawOrderDefinition>,
}

/// What an accepted definition holds.
pub struct DefinitionView {
    pub settings_sets: SettingsSetsView,
    pub roles: Seq<(Seq<char>, RoleDefinitionView)>,
    pub channels: Seq<(Seq<char>, ChannelDefinitionView)>,
    pub members: Seq<(Seq<char>, RoleMode)>,
    pub message_sets: Seq<(Seq<char>, MessageSetView)>,
    pub threads: Seq<(Seq<char>, ThreadView)>,
    pub order: Option<OrderView>,
}

impl DeepView for DefinitionFile {
    type V = DefinitionView;

    open spec fn deep_view(&self) -> DefinitionView {
        DefinitionView {
            settings_sets: self.settings_sets.deep_view(),
            roles: self.roles.deep_view(),
            channels: self.channels.deep_view(),
            members: self.members.deep_view(),
            message_sets: self.message_sets.deep_view(),
            threads: self.threads.deep_view(),
            order: self.order.deep_view(),
        }
    }
}

/// What is said of resources that have names: of their names, and where nothing is
/// said of these, of each resource.
pub open spec fn named_report<W>(
    path: Seq<char>,
    resources: Seq<(Seq<char>, W)>,
    said: spec_fn(W, Seq<char>) -> Seq<char>,
) -> Seq<char> {
    match first_in(resources, |name: Seq<char>, value: W| resource_name_fault(name)) {
        Some(fault) => place_report(path, Some(fault)),
        None => entries_report(path, resources, 0, said),
    }
}

/// What is wrong with the version of a file.
pub open spec fn version_fault(version: u32) -> Option<Fault> {
    if version == SCHEMA_VERSION {
        None
    } else {
        Some(fault("range"@, "対応していない schema_version です"@))
    }
}

/// Checks the version of a file.
pub fn validate_version(version: u32) -> (result: Result<(), ValidationError>)
    ensures
        seen(result) == checked(version_fault(version)),
{
    if version == SCHEMA_VERSION {
        Ok(())
    } else {
        Err(ValidationError::new("range", "対応していない schema_version です"))
    }
}

impl SettingsSetsView {
    /// What is said of settings sets.
    pub open spec fn report(self, path: Seq<char>) -> Seq<char> {
        entries_report(
            part(path, "role"@),
            self.role,
            0,
            |attributes: RoleAttributesView, place: Seq<char>| RawRoleAttributes::said(attributes, place),
        ) + entries_report(
            part(path, "channel"@),
            self.channel,
            0,
            |attributes: ChannelAttributesView, place: Seq<char>| RawChannelAttributes::said(attributes, place),
        )
    }
}

impl RawDefinitionView {
    /// What is said of declared roles, channels and members.
    pub open spec fn declared_report(self) -> Seq<char> {
        lines(
            entries_report(
                "roles"@,
                self.roles,
                0,
                |role: RawRoleDefinitionView, place: Seq<char>| RawRoleDefinition::said(role, place),
            ),
            lines(
                entries_report(
                    "channels"@,
                    self.channels,
                    0,
                    |channel: RawChannelDefinitionView, place: Seq<char>| RawChannelDefinition::said(channel, place),
                ),
                entries_report(
                    "members"@,
                    self.members,
                    0,
                    |mode: RoleMode, place: Seq<char>| MemberDefinition::said(mode, place),
                ),
            ),
        )
    }

    /// What is said of sets of messages, threads and the order.
    pub open spec fn resources_report(self) -> Seq<char> {
        lines(
            named_report(
                "message_sets"@,
                self.message_sets,
                |set: MessageSetView, place: Seq<char>| RawMessageSetDefinition::said(set, place),
            ),
            lines(
                named_report(
                    "threads"@,
                    self.threads,
                    |thread: ThreadView, place: Seq<char>| RawThreadDefinition::said(thread, place),
                ),
                match self.order {
                    Some(order) => order.report("order"@),
                    None => Seq::empty(),
                },
            ),
        )
    }

    /// What is said of the written definition: each rule that it breaks, with the place.
    pub open spec fn report(self) -> Seq<char> {
        lines(
            place_report("schema_version"@, version_fault(self.schema_version)),
            lines(
                self.settings_sets.report("settings_sets"@),
                lines(self.declared_report(), self.resources_report()),
            ),
        )
    }
}

fn report_named<W: Reported>(path: &str, resources: &OrderedMap<String, W>) -> (report: String)
    ensures
        report@ == named_report(
            path@,
            resources.deep_view(),
            |value: W::V, place: Seq<char>| W::said(value, place),
        ),
{
    match validate_resource_names(resources) {
        Err(error) => report_place(path, Err(error)),
        Ok(()) => report_entries(path, resources),
    }
}

impl RawSettingsSets {
    /// Checks settings sets.
    pub fn report(&self, path: &str) -> (report: String)
        ensures
            report@ == self.deep_view().report(path@),
    {
        let role: String = report_entries(part_path(path, "role").as_str(), &self.role);
        let channel: String = report_entries(part_path(path, "channel").as_str(), &self.channel);
        text2(role.as_str(), channel.as_str())
    }
}

impl RawDefinitionFile {
    fn report_declared(&self) -> (report: String)
        ensures
            report@ == self.deep_view().declared_report(),
    {
        let channels: String = report_entries("channels", &self.channels);
        let members: String = report_entries("members", &self.members);
        join_lines(report_entries("roles", &self.roles), join_lines(channels, members))
    }

    fn report_resources(&self) -> (report: String)
        ensures
            report@ == self.deep_view().resources_report(),
    {
        let order: String = match &self.order {
            Some(order) => order.report("order"),
            None => String::new(),
        };
        let threads: String = report_named("threads", &self.threads);
        join_lines(report_named("message_sets", &self.message_sets), join_lines(threads, order))
    }

    /// Checks the written definition, part by part.
    pub fn validate(&self) -> (result: Result<(), String>)
        ensures
            result is Ok <==> self.deep_view().report().len() == 0,
            result is Err ==> result->Err_0@ == self.deep_view().report(),
    {
        let version: String = report_place("schema_version", validate_version(self.schema_version));
        let settings_sets: String = self.settings_sets.report("settings_sets");
        let declared: String = self.report_declared();
        let resources: String = self.report_resources();
        let report: String = join_lines(version, join_lines(settings_sets, join_lines(declared, resources)));
        if report.as_str().unicode_len() == 0 {
            Ok(())
        } else {
            Err(report)
        }
    }
}

/// What the written roles declare, or what is wrong with the first that is refused.
pub open spec fn parsed_roles(
    roles: Seq<(Seq<char>, RawRoleDefinitionView)>,
    settings_sets: Seq<(Seq<char>, RoleAttributesView)>,
    known: Seq<(Seq<char>, ())>,
    parsed: Seq<(Seq<char>, RoleDefinitionView)>,
) -> Result<Seq<(Seq<char>, RoleDefinitionView)>, ErrorView>
    decreases roles.len(),
{
    if roles.len() == 0 {
        Ok(parsed)
    } else {
        match roles[0].1.parsed(roles[0].0, settings_sets, known) {
            Err(error) => Err(error),
            Ok(role) => parsed_roles(roles.drop_first(), settings_sets, known, parsed.push((roles[0].0, role))),
        }
    }
}

/// What the written channels declare, or what is wrong with the first that is refused.
pub open spec fn parsed_channels(
    channels: Seq<(Seq<char>, RawChannelDefinitionView)>,
    settings_sets: Seq<(Seq<char>, ChannelAttributesView)>,
    known: Seq<(Seq<char>, ())>,
    parsed: Seq<(Seq<char>, ChannelDefinitionView)>,
) -> Result<Seq<(Seq<char>, ChannelDefinitionView)>, ErrorView>
    decreases channels.len(),
{
    if channels.len() == 0 {
        Ok(parsed)
    } else {
        match channels[0].1.parsed(channels[0].0, settings_sets, known) {
            Err(error) => Err(error),
            Ok(channel) => parsed_channels(
                channels.drop_first(),
                settings_sets,
                known,
                parsed.push((channels[0].0, channel)),
            ),
        }
    }
}

impl RawDefinitionView {
    /// What the written definition means.
    pub open spec fn parsed(self, known: Seq<(Seq<char>, ())>) -> Result<DefinitionView, ErrorView> {
        if self.report().len() > 0 {
            Err(ErrorView::InvalidDefinition(self.report()))
        } else {
            match self.settings_sets.resolved(known) {
                Err(error) => Err(error),
                Ok(settings_sets) => match parsed_roles(self.roles, settings_sets.role, known, Seq::empty()) {
                    Err(error) => Err(error),
                    Ok(roles) => match parsed_channels(
                        self.channels,
                        settings_sets.channel,
                        known,
                        Seq::empty(),
                    ) {
                        Err(error) => Err(error),
                        Ok(channels) => match order_fault(self.order, roles, channels) {
                            Some(error) => Err(error),
                            None => Ok(
                                DefinitionView {
                                    settings_sets,
                                    roles,
                                    channels,
                                    members: self.members,
                                    message_sets: self.message_sets,
                                    threads: self.threads,
                                    order: self.order,
                                },
                            ),
                        },
                    },
                },
            }
        }
    }
}

#[verifier::loop_isolation(false)]
fn parse_roles(
    roles: OrderedMap<RoleLogicalId, RawRoleDefinition>,
    settings_sets: &OrderedMap<RoleSettingsSetId, RoleAttributes>,
    vocabulary: &PermissionVocabulary,
) -> (result: Result<OrderedMap<RoleLogicalId, RoleDefinition>, ManagementError>)
    ensures
        seen(result) == parsed_roles(
            roles.deep_view(),
            settings_sets.deep_view(),
            vocabulary.deep_view(),
            Seq::empty(),
        ),
{
    let ghost all = roles.deep_view();
    let ghost sets = settings_sets.deep_view();
    let ghost known = vocabulary.deep_view();
    let mut parsed: OrderedMap<RoleLogicalId, RoleDefinition> = OrderedMap::new();
    let entries: Vec<(RoleLogicalId, RawRoleDefinition)> = roles.into_entries();
    assert(all.skip(0) =~= all);
    for entry in iter: entries
        invariant
            iter.seq() == entries@,
            parsed.deep_view().len() == iter.index(),
            forall|k: int| 0 <= k < iter.index() ==> (#[trigger] parsed.deep_view()[k]).0 == all[k].0,
            parsed_roles(all, sets, known, Seq::empty()) == parsed_roles(
                all.skip(iter.index() as int),
                sets,
                known,
                parsed.deep_view(),
            ),
    {
        let ghost i = iter.index() as int;
        let (logical_id, raw) = entry;
        proof {
            assert(all[i] == entries@[i].deep_view());
            assert(all.skip(i)[0] == all[i]);
            assert(all.skip(i).drop_first() =~= all.skip(i + 1));
        }
        let role: RoleDefinition = RoleDefinition::parse(&logical_id, raw, settings_sets, vocabulary)?;
        proof {
            put_at_end::<RoleLogicalId, RoleDefinitionView>(parsed.deep_view(), all[i].0, role.deep_view());
        }
        parsed.insert(logical_id, role);
    }
    assert(all.skip(all.len() as int) =~= Seq::empty());
    Ok(parsed)
}

#[verifier::loop_isolation(false)]
fn parse_channels(
    channels: OrderedMap<ChannelLogicalId, RawChannelDefinition>,
    settings_sets: &OrderedMap<ChannelSettingsSetId, ChannelAttributes>,
    vocabulary: &PermissionVocabulary,
) -> (result: Result<OrderedMap<ChannelLogicalId, ChannelDefinition>, ManagementError>)
    ensures
        seen(result) == parsed_channels(
            channels.deep_view(),
            settings_sets.deep_view(),
            vocabulary.deep_view(),
            Seq::empty(),
        ),
{
    let ghost all = channels.deep_view();
    let ghost sets = settings_sets.deep_view();
    let ghost known = vocabulary.deep_view();
    let mut parsed: OrderedMap<ChannelLogicalId, ChannelDefinition> = OrderedMap::new();
    let entries: Vec<(ChannelLogicalId, RawChannelDefinition)> = channels.into_entries();
    assert(all.skip(0) =~= all);
    for entry in iter: entries
        invariant
            iter.seq() == entries@,
            parsed.deep_view().len() == iter.index(),
            forall|k: int| 0 <= k < iter.index() ==> (#[trigger] parsed.deep_view()[k]).0 == all[k].0,
            parsed_channels(all, sets, known, Seq::empty()) == parsed_channels(
                all.skip(iter.index() as int),
                sets,
                known,
                parsed.deep_view(),
            ),
    {
        let ghost i = iter.index() as int;
        let (logical_id, raw) = entry;
        proof {
            assert(all[i] == entries@[i].deep_view());
            assert(all.skip(i)[0] == all[i]);
            assert(all.skip(i).drop_first() =~= all.skip(i + 1));
        }
        let channel: ChannelDefinition = ChannelDefinition::parse(&logical_id, raw, settings_sets, vocabulary)?;
        proof {
            put_at_end::<ChannelLogicalId, ChannelDefinitionView>(
                parsed.deep_view(),
                all[i].0,
                channel.deep_view(),
            );
        }
        parsed.insert(logical_id, channel);
    }
    assert(all.skip(all.len() as int) =~= Seq::empty());
    Ok(parsed)
}

impl DefinitionFile {
    /// What a written definition means.
    pub fn parse(raw: RawDefinitionFile, vocabulary: &PermissionVocabulary) -> (result: Result<
        Self,
        ManagementError,
    >)
        ensures
            seen(result) == raw.deep_view().parsed(vocabulary.deep_view()),
    {
        match raw.validate() {
            Err(report) => {
                return Err(ManagementError::InvalidDefinition(report));
            },
            Ok(()) => {},
        }
        let settings_sets: SettingsSets = raw.settings_sets.resolve(vocabulary)?;
        let roles: OrderedMap<RoleLogicalId, RoleDefinition> = parse_roles(
            raw.roles,
            &settings_sets.role,
            vocabulary,
        )?;
        let channels: OrderedMap<ChannelLogicalId, ChannelDefinition> = parse_channels(
            raw.channels,
            &settings_sets.channel,
            vocabulary,
        )?;
        validate_order(&raw.order, &roles, &channels)?;
        Ok(
            DefinitionFile {
                settings_sets,
                roles,
                channels,
                members: raw.members,
                message_sets: raw.message_sets,
                threads: raw.threads,
                order: raw.order,
            },
        )
    }
}

} // verus!
