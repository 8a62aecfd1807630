//! Changes of single values, and how they are shown.

use vstd::prelude::*;
use vstd::string::*;

use crate::text::{text3, text7};
use crate::value::Plain;

verus! {

/// A value that differs from what it should be.
#[derive(Debug)]
pub struct ValueChange<T> {
    pub current: T,
    pub desired: T,
}

impl<T: DeepView> DeepView for ValueChange<T> {
    type V = ValueChange<T::V>;

    open spec fn deep_view(&self) -> ValueChange<T::V> {
        ValueChange { current: self.current.deep_view(), desired: self.desired.deep_view() }
    }
}

impl<T: Plain> Plain for ValueChange<T> {
    fn copy(&self) -> (copied: Self) {
        ValueChange { current: self.current.copy(), desired: self.desired.copy() }
    }

    fn same(&self, other: &Self) -> (equal: bool) {
        self.current.same(&other.current) && self.desired.same(&other.desired)
    }
}

/// The change from one value to another, if they differ.
pub open spec fn change_between<W>(current: W, desired: W) -> Option<ValueChange<W>> {
    if current == desired {
        None
    } else {
        Some(ValueChange { current, desired })
    }
}

/// The change from a value to another, if one is wanted and they differ.
pub open spec fn change_if_wanted<W>(current: W, desired: Option<W>) -> Option<ValueChange<W>> {
    match desired {
        None => None,
        Some(desired) => change_between(current, desired),
    }
}

/// The value that a change leads to.
pub open spec fn desired_of<W>(change: Option<ValueChange<W>>) -> Option<W> {
    match change {
        None => None,
        Some(change) => Some(change.desired),
    }
}

impl<T: Plain> ValueChange<T> {
    /// The change from one value to another, if they differ.
    pub fn between(current: T, desired: T) -> (change: Option<Self>)
        ensures
            change.deep_view() == change_between(current.deep_view(), desired.deep_view()),
    {
        if current.same(&desired) {
            None
        } else {
            Some(ValueChange { current, desired })
        }
    }

    /// The change from a value to another, if one is wanted and they differ.
    pub fn if_wanted(current: &T, desired: Option<T>) -> (change: Option<Self>)
        ensures
            change.deep_view() == change_if_wanted(current.deep_view(), desired.deep_view()),
    {
        match desired {
            None => None,
            Some(desired) => Self::between(current.copy(), desired),
        }
    }

    /// The value as it is.
    pub fn current(&self) -> (value: &T)
        ensures
            value.deep_view() == self.deep_view().current,
    {
        &self.current
    }

    /// The value as it should be.
    pub fn desired(&self) -> (value: &T)
        ensures
            value.deep_view() == self.deep_view().desired,
    {
        &self.desired
    }
}

/// The value that a change leads to.
pub fn desired_value<T: Plain>(change: &Option<ValueChange<T>>) -> (value: Option<T>)
    ensures
        value.deep_view() == desired_of(change.deep_view()),
{
    match change {
        None => None,
        Some(change) => Some(change.desired.copy()),
    }
}

/// A value that may be absent, and differs from what it should be.
#[derive(Debug)]
pub enum NullableValueChange<T> {
    Replace { current: Option<T>, desired: T },
    Clear { current: Option<T> },
}

impl<T: DeepView> DeepView for NullableValueChange<T> {
    type V = NullableValueChange<T::V>;

    open spec fn deep_view(&self) -> NullableValueChange<T::V> {
        match self {
            NullableValueChange::Replace { current, desired } => NullableValueChange::Replace {
                current: current.deep_view(),
                desired: desired.deep_view(),
            },
            NullableValueChange::Clear { current } => NullableValueChange::Clear { current: current.deep_view() },
        }
    }
}

impl<T: Plain> Plain for NullableValueChange<T> {
    fn copy(&self) -> (copied: Self) {
        match self {
            NullableValueChange::Replace { current, desired } => NullableValueChange::Replace {
                current: current.copy(),
                desired: desired.copy(),
            },
            NullableValueChange::Clear { current } => NullableValueChange::Clear { current: current.copy() },
        }
    }

    fn same(&self, other: &Self) -> (equal: bool) {
        match (self, other) {
            (
                NullableValueChange::Replace { current, desired },
                NullableValueChange::Replace { current: other_current, desired: other_desired },
            ) => current.same(other_current) && desired.same(other_desired),
            (
                NullableValueChange::Clear { current },
                NullableValueChange::Clear { current: other_current },
            ) => current.same(other_current),
            _ => false,
        }
    }
}

/// The change from one value to another, either of which may be absent.
pub open spec fn nullable_change_between<W>(
    current: Option<W>,
    desired: Option<W>,
) -> Option<NullableValueChange<W>> {
    match desired {
        Some(desired) => if current == Some(desired) {
            None
        } else {
            Some(NullableValueChange::Replace { current, desired })
        },
        None => if current is Some {
            Some(NullableValueChange::Clear { current })
        } else {
            None
        },
    }
}

/// The value before a change, if there was one.
pub open spec fn nullable_current<W>(change: NullableValueChange<W>) -> Option<W> {
    match change {
        NullableValueChange::Replace { current, .. } => current,
        NullableValueChange::Clear { current } => current,
    }
}

/// The value after a change, if there is one.
pub open spec fn nullable_desired<W>(change: NullableValueChange<W>) -> Option<W> {
    match change {
        NullableValueChange::Replace { desired, .. } => Some(desired),
        NullableValueChange::Clear { .. } => None,
    }
}

impl<T: Plain> NullableValueChange<T> {
    /// The change from one value to another, either of which may be absent.
    pub fn between(current: Option<T>, desired: Option<T>) -> (change: Option<Self>)
        ensures
            change.deep_view() == nullable_change_between(current.deep_view(), desired.deep_view()),
    {
        match desired {
            Some(desired) => {
                let kept: bool = match &current {
                    Some(current) => current.same(&desired),
                    None => false,
                };
                if kept {
                    None
                } else {
                    Some(NullableValueChange::Replace { current, desired })
                }
            },
            None => if current.is_some() {
                Some(NullableValueChange::Clear { current })
            } else {
                None
            },
        }
    }

    /// The value before the change, if there was one.
    pub fn current(&self) -> (value: &Option<T>)
        ensures
            value.deep_view() == nullable_current(self.deep_view()),
    {
        match self {
            NullableValueChange::Replace { current, .. } => current,
            NullableValueChange::Clear { current } => current,
        }
    }

    /// The value after the change, if there is one.
    pub fn desired(&self) -> (value: Option<&T>)
        ensures
            value.deep_view() == nullable_desired(self.deep_view()),
    {
        match self {
            NullableValueChange::Replace { desired, .. } => Some(desired),
            NullableValueChange::Clear { .. } => None,
        }
    }
}

/// The line that shows a change.
pub open spec fn change_line(
    logical_id: Seq<char>,
    discord_id: Seq<char>,
    attribute: Seq<char>,
    current: Seq<char>,
    desired: Seq<char>,
) -> Seq<char> {
    "- "@ + logical_id + " ("@ + discord_id + ") "@ + attribute + ": "@ + current + " -> "@ + desired + "\n"@
}

/// Adds the line that shows a change.
pub fn render_change_line(
    output: &mut String,
    logical_id: &str,
    discord_id: &str,
    attribute: &str,
    current: &str,
    desired: &str,
)
    ensures
        final(output)@ == old(output)@ + change_line(logical_id@, discord_id@, attribute@, current@, desired@),
{
    let mut line: String = text7("- ", logical_id, " (", discord_id, ") ", attribute, ": ");
    line.append(current);
    line.append(" -> ");
    line.append(desired);
    line.append("\n");
    output.append(line.as_str());
}

/// The lower case hexadecimal digit of a number below sixteen.
pub open spec fn hex_char(digit: int) -> char {
    if digit == 10 { 'a' } else if digit == 11 { 'b' } else if digit == 12 { 'c' } else if digit == 13 { 'd' }
    else if digit == 14 { 'e' } else if digit == 15 { 'f' } else { crate::text::digit_char(digit as nat) }
}

/// A character as it stands in a JSON string.
pub open spec fn json_escape(c: char) -> Seq<char> {
    if c == '"' || c == '\\' {
        seq!['\\', c]
    } else if c == '\n' {
        seq!['\\', 'n']
    } else if c == '\r' {
        seq!['\\', 'r']
    } else if c == '\t' {
        seq!['\\', 't']
    } else if c == '\u{8}' {
        seq!['\\', 'b']
    } else if c == '\u{c}' {
        seq!['\\', 'f']
    } else if ' ' > c {
        seq!['\\', 'u', '0', '0', hex_char(c as int / 16), hex_char(c as int % 16)]
    } else {
        seq![c]
    }
}

/// A text as it stands between the quotes of a JSON string.
pub open spec fn json_escaped(text: Seq<char>) -> Seq<char>
    decreases text.len(),
{
    if text.len() == 0 {
        Seq::empty()
    } else {
        json_escaped(text.drop_last()) + json_escape(text.last())
    }
}

/// A text as a JSON string.
pub open spec fn json_quoted(text: Seq<char>) -> Seq<char> {
    seq!['"'] + json_escaped(text) + seq!['"']
}

/// Calls `serde_json::to_string` on a string, which writes it as a JSON string:
/// in double quotes, with quotes, backslashes and control characters escaped,
/// and every other character as it is. Writing a string does not fail.
#[verifier::external_body]
pub(crate) fn display_quoted(value: &str) -> (quoted: String)
    ensures
        quoted@ == json_quoted(value@),
{
    serde_json::to_string(value).expect("文字列は JSON へ直列化できます")
}

/// A text as a JSON string, so that line breaks and quotes in it are shown.
pub fn display_quoted_string(value: &str) -> (quoted: String)
    ensures
        quoted@ == json_quoted(value@),
{
    display_quoted(value)
}

/// How a value that may be absent is shown, given how it is shown itself.
pub open spec fn nullable_chars(value: Option<Seq<char>>) -> Seq<char> {
    match value {
        None => "None"@,
        Some(value) => value,
    }
}

/// How a text that may be absent is shown.
pub open spec fn nullable_text_chars(value: Option<Seq<char>>) -> Seq<char> {
    match value {
        None => "None"@,
        Some(value) => "Some("@ + json_quoted(value) + ")"@,
    }
}

/// How a value that may be absent is shown, given how it is shown itself.
pub fn display_nullable(value: Option<String>) -> (text: String)
    ensures
        text@ == nullable_chars(value.deep_view()),
{
    match value {
        None => "None".to_owned(),
        Some(value) => value,
    }
}

/// How a text that may be absent is shown.
pub fn display_nullable_string(value: Option<&String>) -> (text: String)
    ensures
        text@ == nullable_text_chars(value.deep_view()),
{
    match value {
        None => "None".to_owned(),
        Some(value) => text3("Some(", display_quoted_string(value.as_str()).as_str(), ")"),
    }
}

/// Texts joined with another text between each two.
pub open spec fn joined(parts: Seq<Seq<char>>, between: Seq<char>) -> Seq<char>
    decreases parts.len(),
{
    if parts.len() == 0 {
        Seq::empty()
    } else if parts.len() == 1 {
        parts[0]
    } else {
        joined(parts.drop_last(), between) + between + parts.last()
    }
}

/// Joins texts with another text between each two.
pub fn join(parts: &Vec<String>, between: &str) -> (text: String)
    ensures
        text@ == joined(parts.deep_view(), between@),
{
    let mut text: String = String::new();
    let mut i: usize = 0;
    assert(parts.deep_view().take(0) =~= Seq::empty());
    while i < parts.len()
        invariant
            i <= parts@.len(),
            text@ == joined(parts.deep_view().take(i as int), between@),
        decreases parts@.len() - i,
    {
        proof {
            let next = parts.deep_view().take(i + 1);
            assert(next.drop_last() =~= parts.deep_view().take(i as int));
            assert(next.last() == parts@[i as int]@);
            if i == 0 {
                assert(next[0] == parts@[0]@);
                assert(Seq::<char>::empty() + parts@[0]@ =~= parts@[0]@);
            }
        }
        if i != 0 {
            text.append(between);
        }
        text.append(parts[i].as_str());
        i += 1;
    }
    assert(parts.deep_view().take(i as int) =~= parts.deep_view());
    text
}

} // verus!
