//! Identifiers: Discord's numbers, and the names that a definition gives.

use std::marker::PhantomData;

use vstd::prelude::*;

use crate::ordered::OrderedKey;
use crate::text::{
    chars_of, decimal, decimal_has_only_digits, decimal_round_trip, decimal_text, is_text_before, number, parse_number,
    text2, text3, text_before, text_order_is_total, text_order_is_transitive,
};
use crate::value::{seen, Plain};

verus! {

/// A Discord identifier (a snowflake): any 64 bit number but the greatest.
#[derive(Debug)]
pub struct DiscordId<Tag> {
    value: u64,
    tag: PhantomData<Tag>,
}

/// Marks identifiers of guilds.
#[derive(Clone, Copy, Debug)]
pub struct GuildIdTag;

/// Marks identifiers of roles.
#[derive(Clone, Copy, Debug)]
pub struct RoleIdTag;

/// Marks identifiers of channels.
#[derive(Clone, Copy, Debug)]
pub struct ChannelIdTag;

/// Marks identifiers of members.
#[derive(Clone, Copy, Debug)]
pub struct MemberIdTag;

pub type GuildId = DiscordId<GuildIdTag>;

pub type RoleId = DiscordId<RoleIdTag>;

pub type ChannelId = DiscordId<ChannelIdTag>;

pub type MemberId = DiscordId<MemberIdTag>;

impl<Tag> DeepView for DiscordId<Tag> {
    type V = u64;

    closed spec fn deep_view(&self) -> u64 {
        self.value
    }
}

/// What is said of a text that is no snowflake.
pub open spec fn snowflake(text: Seq<char>) -> Result<u64, Seq<char>> {
    match number(text) {
        Err(_) => Err("Snowflake は整数文字列である必要があります"@),
        Ok(value) => if value == u64::MAX {
            Err("u64::MAX は Snowflake として使用できません"@)
        } else {
            Ok(value)
        },
    }
}

impl<Tag> DiscordId<Tag> {
    #[verifier::type_invariant]
    spec fn is_not_greatest(&self) -> bool {
        self.value != u64::MAX
    }

    /// The identifier with the given number.
    pub fn new(value: u64) -> (id: Self)
        requires
            value != u64::MAX,
        ensures
            id.deep_view() == value,
    {
        DiscordId { value, tag: PhantomData }
    }

    /// The identifier with the given number, unless it is the greatest one.
    pub fn try_new(value: u64) -> (id: Option<Self>)
        ensures
            id.deep_view() == if value == u64::MAX { None } else { Some(value) },
    {
        if value == u64::MAX {
            None
        } else {
            Some(DiscordId { value, tag: PhantomData })
        }
    }

    /// The number of the identifier, which is never the greatest one.
    pub fn get(&self) -> (value: u64)
        ensures
            value == self.deep_view(),
            value != u64::MAX,
    {
        proof {
            use_type_invariant(self);
        }
        self.value
    }

    /// The number in decimal.
    pub fn to_text(&self) -> (text: String)
        ensures
            text@ == decimal(self.deep_view() as nat),
    {
        decimal_text(self.value)
    }

    /// Reads an identifier from its decimal text.
    pub fn parse(text: &str) -> (result: Result<Self, &'static str>)
        ensures
            seen(result) == snowflake(text@),
    {
        match parse_number(text) {
            Err(_) => Err("Snowflake は整数文字列である必要があります"),
            Ok(value) => match Self::try_new(value) {
                Some(id) => Ok(id),
                None => Err("u64::MAX は Snowflake として使用できません"),
            },
        }
    }
}

/// The identifier that a labelled text stands for, or what is said of it.
pub open spec fn labelled_snowflake(label: Seq<char>, text: Seq<char>) -> Result<u64, Seq<char>> {
    match snowflake(text) {
        Ok(id) => Ok(id),
        Err(fault) => Err(label + " が不正です: "@ + fault),
    }
}

impl<Tag> DiscordId<Tag> {
    /// Reads an identifier from its decimal text. What is wrong with it is told with a label.
    pub fn parse_labelled(label: &str, text: &str) -> (result: Result<Self, String>)
        ensures
            seen(result) == labelled_snowflake(label@, text@),
    {
        match Self::parse(text) {
            Ok(id) => Ok(id),
            Err(fault) => Err(text3(label, " が不正です: ", fault)),
        }
    }
}

/// How the identifier of a channel is shown where its type is shown with it: the fields, and
/// the tag by its path.
pub open spec fn shown_channel_id(id: u64) -> Seq<char> {
    "DiscordId { value: "@ + decimal(id as nat)
        + ", tag: PhantomData<fn() -> discord_management::ids::ChannelIdTag> }"@
}

impl DiscordId<ChannelIdTag> {
    /// The identifier together with its type.
    pub fn to_shown_text(&self) -> (text: String)
        ensures
            text@ == shown_channel_id(self.deep_view()),
    {
        text3(
            "DiscordId { value: ",
            self.to_text().as_str(),
            ", tag: PhantomData<fn() -> discord_management::ids::ChannelIdTag> }",
        )
    }
}

/// The text of an identifier reads back as that identifier.
pub proof fn snowflake_round_trip(value: u64)
    requires
        value != u64::MAX,
    ensures
        snowflake(decimal(value as nat)) == Ok::<u64, Seq<char>>(value),
{
    decimal_round_trip(value as nat);
}

impl<Tag> Plain for DiscordId<Tag> {
    fn copy(&self) -> (copied: Self) {
        proof {
            use_type_invariant(self);
        }
        DiscordId { value: self.value, tag: PhantomData }
    }

    fn same(&self, other: &Self) -> (equal: bool) {
        self.value == other.value
    }
}

impl<Tag> Clone for DiscordId<Tag> {
    fn clone(&self) -> (copied: Self)
        ensures
            copied == *self,
    {
        proof {
            use_type_invariant(self);
        }
        DiscordId { value: self.value, tag: self.tag }
    }
}

impl<Tag> Copy for DiscordId<Tag> {

}

impl<Tag> OrderedKey for DiscordId<Tag> {
    open spec fn before(a: u64, b: u64) -> bool {
        a < b
    }

    fn is_before(&self, other: &Self) -> (answer: bool) {
        self.value < other.value
    }

    proof fn order_is_total(a: u64, b: u64) {
    }

    proof fn order_is_transitive(a: u64, b: u64, c: u64) {
    }
}

/// Whether a character may stand in a logical identifier.
pub open spec fn is_id_char(c: char) -> bool {
    ||| 'a' <= c <= 'z'
    ||| 'A' <= c <= 'Z'
    ||| '0' <= c <= '9'
    ||| c == '_'
    ||| c == '-'
}

/// Whether a text is a logical identifier: at least one character, all of them
/// letters, digits, hyphens or underscores.
pub open spec fn is_logical_id(text: Seq<char>) -> bool {
    &&& text.len() > 0
    &&& forall|i: int| 0 <= i < text.len() ==> is_id_char(#[trigger] text[i])
}

/// Whether a text is a logical identifier.
pub fn check_logical_id(text: &str) -> (valid: bool)
    ensures
        valid == is_logical_id(text@),
{
    let chars: Vec<char> = chars_of(text);
    if chars.len() == 0 {
        return false;
    }
    let mut i: usize = 0;
    while i < chars.len()
        invariant
            i <= chars@.len(),
            chars@ == text@,
            forall|k: int| 0 <= k < i ==> is_id_char(#[trigger] text@[k]),
        decreases chars@.len() - i,
    {
        let c: char = chars[i];
        if !(('a' <= c && c <= 'z') || ('A' <= c && c <= 'Z') || ('0' <= c && c <= '9') || c == '_' || c == '-') {
            assert(!is_id_char(text@[i as int]));
            return false;
        }
        i += 1;
    }
    true
}

/// The name that a definition gives to a role, a channel, a member, a message
/// or a settings set.
#[derive(Debug)]
pub struct LogicalId<Tag> {
    value: String,
    tag: PhantomData<Tag>,
}

/// Marks names of roles.
#[derive(Clone, Copy, Debug)]
pub struct RoleLogicalIdTag;

/// Marks names of channels.
#[derive(Clone, Copy, Debug)]
pub struct ChannelLogicalIdTag;

/// Marks names of members.
#[derive(Clone, Copy, Debug)]
pub struct MemberLogicalIdTag;

/// Marks names of role settings sets.
#[derive(Clone, Copy, Debug)]
pub struct RoleSettingsSetIdTag;

/// Marks names of channel settings sets.
#[derive(Clone, Copy, Debug)]
pub struct ChannelSettingsSetIdTag;

/// Marks names of messages.
#[derive(Clone, Copy, Debug)]
pub struct MessageLogicalIdTag;

pub type RoleLogicalId = LogicalId<RoleLogicalIdTag>;

pub type ChannelLogicalId = LogicalId<ChannelLogicalIdTag>;

pub type MemberLogicalId = LogicalId<MemberLogicalIdTag>;

pub type MessageLogicalId = LogicalId<MessageLogicalIdTag>;

pub type RoleSettingsSetId = LogicalId<RoleSettingsSetIdTag>;

pub type ChannelSettingsSetId = LogicalId<ChannelSettingsSetIdTag>;

/// A text is no logical identifier.
#[derive(Clone, Copy, Debug, PartialEq, Eq, Structural)]
pub struct LogicalIdError;

impl DeepView for LogicalIdError {
    type V = LogicalIdError;

    open spec fn deep_view(&self) -> LogicalIdError {
        *self
    }
}

/// What is said of a text that is no logical identifier.
pub open spec fn logical_id_fault() -> Seq<char> {
    "論理 ID は英数字、ハイフン、アンダースコアだけで指定してください"@
}

impl LogicalIdError {
    /// What is said of the text.
    pub fn as_str(self) -> (text: &'static str)
        ensures
            text@ == logical_id_fault(),
    {
        "論理 ID は英数字、ハイフン、アンダースコアだけで指定してください"
    }
}

impl<Tag> DeepView for LogicalId<Tag> {
    type V = Seq<char>;

    closed spec fn deep_view(&self) -> Seq<char> {
        self.value@
    }
}

/// The identifier that a text is, if it is one.
pub open spec fn parsed_logical_id(text: Seq<char>) -> Result<Seq<char>, LogicalIdError> {
    if is_logical_id(text) {
        Ok(text)
    } else {
        Err(LogicalIdError)
    }
}

impl<Tag> LogicalId<Tag> {
    #[verifier::type_invariant]
    spec fn is_valid(&self) -> bool {
        is_logical_id(self.value@)
    }

    /// Takes a text as an identifier, if it is one.
    pub fn parse(value: &str) -> (result: Result<Self, LogicalIdError>)
        ensures
            seen(result) == parsed_logical_id(value@),
    {
        if check_logical_id(value) {
            Ok(LogicalId { value: value.to_owned(), tag: PhantomData })
        } else {
            Err(LogicalIdError)
        }
    }

    /// The text of the identifier, which is always a valid one.
    pub fn as_str(&self) -> (text: &str)
        ensures
            text@ == self.deep_view(),
            is_logical_id(text@),
    {
        proof {
            use_type_invariant(self);
        }
        self.value.as_str()
    }
}

/// How the name of a channel is shown where its type is shown with it. No character of a
/// name has to be escaped between the quotes.
pub open spec fn shown_channel_name(id: Seq<char>) -> Seq<char> {
    "LogicalId(TaggedLogicalId { value: \""@ + id
        + "\", tag: PhantomData<fn() -> discord_management::ids::ChannelLogicalIdTag> })"@
}

impl LogicalId<ChannelLogicalIdTag> {
    /// The name together with its type.
    pub fn to_shown_text(&self) -> (text: String)
        ensures
            text@ == shown_channel_name(self.deep_view()),
    {
        text3(
            "LogicalId(TaggedLogicalId { value: \"",
            self.as_str(),
            "\", tag: PhantomData<fn() -> discord_management::ids::ChannelLogicalIdTag> })",
        )
    }
}

impl<Tag> Plain for LogicalId<Tag> {
    fn copy(&self) -> (copied: Self) {
        proof {
            use_type_invariant(self);
        }
        LogicalId { value: self.value.clone(), tag: PhantomData }
    }

    fn same(&self, other: &Self) -> (equal: bool) {
        self.value == other.value
    }
}

impl<Tag> OrderedKey for LogicalId<Tag> {
    open spec fn before(a: Seq<char>, b: Seq<char>) -> bool {
        text_before(a, b)
    }

    fn is_before(&self, other: &Self) -> (answer: bool) {
        is_text_before(self.value.as_str(), other.value.as_str())
    }

    proof fn order_is_total(a: Seq<char>, b: Seq<char>) {
        text_order_is_total(a, b);
    }

    proof fn order_is_transitive(a: Seq<char>, b: Seq<char>, c: Seq<char>) {
        text_order_is_transitive(a, b, c);
    }
}

/// The name of the role that every member of a guild has.
pub open spec fn everyone() -> Seq<char> {
    "everyone"@
}

/// The identifier that is reserved for the role that every member has.
pub fn everyone_logical_id() -> (id: RoleLogicalId)
    ensures
        id.deep_view() == everyone(),
{
    let value: String = "everyone".to_owned();
    proof {
        reveal_strlit("everyone");
    }
    LogicalId { value, tag: PhantomData }
}

impl LogicalId<RoleLogicalIdTag> {
    /// Whether this is the name of the role that every member has.
    pub fn is_everyone(&self) -> (answer: bool)
        ensures
            answer == (self.deep_view() == everyone()),
    {
        let name: String = "everyone".to_owned();
        self.value == name
    }
}

/// A prefix and a number in decimal make a logical identifier.
pub proof fn generated_id_is_valid(prefix: Seq<char>, n: nat)
    requires
        forall|i: int| 0 <= i < prefix.len() ==> is_id_char(#[trigger] prefix[i]),
    ensures
        is_logical_id(prefix + decimal(n)),
{
    let text = prefix + decimal(n);
    crate::text::decimal_starts_with_digit(n);
    assert forall|i: int| 0 <= i < text.len() implies is_id_char(#[trigger] text[i]) by {
        if i < prefix.len() {
            assert(text[i] == prefix[i]);
        } else {
            decimal_has_only_digits(n, i - prefix.len());
        }
    }
}

impl<Tag> LogicalId<Tag> {
    /// The identifier made of a prefix and a number in decimal.
    pub fn generated(prefix: &str, number: u64) -> (id: Self)
        requires
            forall|i: int| 0 <= i < prefix@.len() ==> is_id_char(#[trigger] prefix@[i]),
        ensures
            id.deep_view() == prefix@ + decimal(number as nat),
    {
        let value: String = text2(prefix, decimal_text(number).as_str());
        proof {
            generated_id_is_valid(prefix@, number as nat);
        }
        LogicalId { value, tag: PhantomData }
    }
}

} // verus!
