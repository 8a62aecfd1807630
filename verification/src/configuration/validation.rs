//! Checks that several parts of a definition share.

use vstd::prelude::*;

use crate::domain::{ErrorView, ManagementError};
use crate::ids::LogicalId;
use crate::ordered::{has_key, OrderedMap};
use crate::text::text5;
use crate::value::{seen, Plain};

verus! {

/// A rule that a definition or a state breaks.
#[derive(Debug)]
pub struct ValidationError {
    /// The rule.
    pub code: String,
    /// What is said of it.
    pub message: String,
}

/// What a broken rule holds.
pub struct Fault {
    pub code: Seq<char>,
    pub message: Seq<char>,
}

impl DeepView for ValidationError {
    type V = Fault;

    open spec fn deep_view(&self) -> Fault {
        Fault { code: self.code@, message: self.message@ }
    }
}

/// A broken rule, and what is said of it.
pub open spec fn fault(code: Seq<char>, message: Seq<char>) -> Fault {
    Fault { code, message }
}

impl ValidationError {
    /// A broken rule, and what is said of it.
    pub fn new(code: &str, message: &str) -> (error: Self)
        ensures
            error.deep_view() == fault(code@, message@),
    {
        ValidationError { code: code.to_owned(), message: message.to_owned() }
    }
}

/// The result of a check that found a fault or none.
pub open spec fn checked(found: Option<Fault>) -> Result<(), Fault> {
    match found {
        Some(fault) => Err(fault),
        None => Ok(()),
    }
}

/// The first place at which a value stands that stood earlier already.
pub open spec fn first_repeated<W>(values: Seq<W>, i: int) -> Option<W>
    decreases values.len() - i,
{
    if i < 0 || i >= values.len() {
        None
    } else if values.take(i).contains(values[i]) {
        Some(values[i])
    } else {
        first_repeated(values, i + 1)
    }
}

/// Whether a value stands before a place.
pub fn stands_before<T: Plain>(values: &Vec<T>, i: usize) -> (answer: bool)
    requires
        i < values@.len(),
    ensures
        answer == values.deep_view().take(i as int).contains(values.deep_view()[i as int]),
{
    let mut k: usize = 0;
    while k < i
        invariant
            k <= i < values@.len(),
            forall|j: int| 0 <= j < k ==> (#[trigger] values.deep_view()[j]) != values.deep_view()[i as int],
        decreases i - k,
    {
        if values[k].same(&values[i]) {
            assert(values.deep_view().take(i as int)[k as int] == values.deep_view()[i as int]);
            return true;
        }
        k += 1;
    }
    false
}

/// What is wrong with the settings sets from a place on: one is named twice, or
/// is not declared.
pub open spec fn settings_set_fault<W>(
    kind: Seq<char>,
    id: Seq<char>,
    sets: Seq<Seq<char>>,
    declared: Seq<(Seq<char>, W)>,
    i: int,
) -> Option<ErrorView>
    decreases sets.len() - i,
{
    if i < 0 || i >= sets.len() {
        None
    } else if sets.take(i).contains(sets[i]) {
        Some(
            ErrorView::InvalidDefinition(
                kind + id + " で設定セット "@ + sets[i] + " が重複しています"@,
            ),
        )
    } else if !has_key(declared, sets[i]) {
        Some(
            ErrorView::InvalidDefinition(
                kind + id + " が未知の設定セット "@ + sets[i] + " を参照しています"@,
            ),
        )
    } else {
        settings_set_fault(kind, id, sets, declared, i + 1)
    }
}

/// Checks that each settings set is declared, and named once.
pub fn check_settings_sets<Tag, W: DeepView>(
    kind: &str,
    id: &str,
    sets: &Vec<LogicalId<Tag>>,
    declared: &OrderedMap<LogicalId<Tag>, W>,
) -> (result: Result<(), ManagementError>)
    ensures
        seen(result) == match settings_set_fault(kind@, id@, sets.deep_view(), declared.deep_view(), 0) {
            Some(error) => Err(error),
            None => Ok(()),
        },
{
    let mut i: usize = 0;
    while i < sets.len()
        invariant
            i <= sets@.len(),
            settings_set_fault(kind@, id@, sets.deep_view(), declared.deep_view(), 0) == settings_set_fault(
                kind@,
                id@,
                sets.deep_view(),
                declared.deep_view(),
                i as int,
            ),
        decreases sets@.len() - i,
    {
        if stands_before(sets, i) {
            return Err(
                ManagementError::InvalidDefinition(
                    text5(kind, id, " で設定セット ", sets[i].as_str(), " が重複しています"),
                ),
            );
        }
        if !declared.contains_key(&sets[i]) {
            return Err(
                ManagementError::InvalidDefinition(
                    text5(kind, id, " が未知の設定セット ", sets[i].as_str(), " を参照しています"),
                ),
            );
        }
        i += 1;
    }
    Ok(())
}

} // verus!
