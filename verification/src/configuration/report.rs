//! What is said of the rules that a file breaks: each with the place where it is broken.

use vstd::prelude::*;
use vstd::string::*;

use crate::configuration::validation::{Fault, ValidationError};
use crate::ordered::{OrderedKey, OrderedMap};
use crate::text::{decimal, decimal_text, text2, text3, text4};
use crate::value::seen;

verus! {

/// What is said of a place, nothing where no rule is broken there.
pub open spec fn place_report(path: Seq<char>, found: Option<Fault>) -> Seq<char> {
    match found {
        Some(fault) => path + ": "@ + fault.message,
        None => Seq::empty(),
    }
}

/// The fault that a check found, if any.
pub open spec fn fault_of(result: Result<(), Fault>) -> Option<Fault> {
    match result {
        Ok(_) => None,
        Err(fault) => Some(fault),
    }
}

/// What is said of a place, given what a check found there.
pub fn report_place(path: &str, result: Result<(), ValidationError>) -> (report: String)
    ensures
        report@ == place_report(path@, fault_of(seen(result))),
{
    match result {
        Ok(()) => String::new(),
        Err(error) => text3(path, ": ", error.message.as_str()),
    }
}

/// Nothing is said of a place exactly where no rule is broken there.
pub proof fn silent_place(path: Seq<char>, found: Option<Fault>)
    ensures
        place_report(path, found).len() == 0 <==> found is None,
{
    reveal_strlit(": ");
}

/// The place of a part.
pub open spec fn part(path: Seq<char>, name: Seq<char>) -> Seq<char> {
    path + "."@ + name
}

/// The place of a part.
pub fn part_path(path: &str, name: &str) -> (joined: String)
    ensures
        joined@ == part(path@, name@),
{
    text3(path, ".", name)
}

/// The place of an entry.
pub open spec fn entry(path: Seq<char>, i: int) -> Seq<char> {
    path + "["@ + decimal(i as nat) + "]"@
}

/// The place of an entry.
pub fn entry_path(path: &str, i: usize) -> (joined: String)
    ensures
        joined@ == entry(path@, i as int),
{
    text4(path, "[", decimal_text(i as u64).as_str(), "]")
}

/// What is said of two parts, line by line.
pub open spec fn lines(first: Seq<char>, second: Seq<char>) -> Seq<char> {
    if first.len() == 0 {
        second
    } else if second.len() == 0 {
        first
    } else {
        first + "\n"@ + second
    }
}

/// What is said of two parts, line by line.
pub fn join_lines(first: String, second: String) -> (joined: String)
    ensures
        joined@ == lines(first@, second@),
{
    if first.as_str().unicode_len() == 0 {
        second
    } else if second.as_str().unicode_len() == 0 {
        first
    } else {
        text3(first.as_str(), "\n", second.as_str())
    }
}

/// Something of which can be said what rules it breaks, at a place.
pub trait Reported: DeepView {
    /// What is said of it.
    spec fn said(value: Self::V, path: Seq<char>) -> Seq<char>;

    /// What is said of it.
    fn say(&self, path: &str) -> (report: String)
        ensures
            report@ == Self::said(self.deep_view(), path@),
    ;
}

/// What is said of entries, from a place on.
pub open spec fn entries_report<K, W>(
    path: Seq<char>,
    entries: Seq<(K, W)>,
    i: int,
    said: spec_fn(W, Seq<char>) -> Seq<char>,
) -> Seq<char>
    decreases entries.len() - i,
{
    if i < 0 || i >= entries.len() {
        Seq::empty()
    } else {
        said(entries[i].1, entry(path, i)) + entries_report(path, entries, i + 1, said)
    }
}

/// Nothing is said of entries of each of which nothing is said.
pub proof fn silent_entries<K, W>(
    path: Seq<char>,
    entries: Seq<(K, W)>,
    i: int,
    said: spec_fn(W, Seq<char>) -> Seq<char>,
)
    requires
        0 <= i <= entries.len(),
        forall|k: int| i <= k < entries.len() ==> said((#[trigger] entries[k]).1, entry(path, k)).len() == 0,
    ensures
        entries_report(path, entries, i, said).len() == 0,
    decreases entries.len() - i,
{
    if i < entries.len() {
        silent_entries(path, entries, i + 1, said);
    }
}

/// What is said of the entries of a map.
pub fn report_entries<K: OrderedKey, W: Reported>(path: &str, entries: &OrderedMap<K, W>) -> (report: String)
    ensures
        report@ == entries_report(path@, entries.deep_view(), 0, |value: W::V, place: Seq<char>| W::said(value, place)),
{
    let ghost all = entries.deep_view();
    let ghost said = |value: W::V, place: Seq<char>| W::said(value, place);
    let mut report: String = String::new();
    let mut i: usize = 0;
    assert(report@ + entries_report(path@, all, 0, said) =~= entries_report(path@, all, 0, said));
    while i < entries.len()
        invariant
            i <= all.len(),
            all == entries.deep_view(),
            said == (|value: W::V, place: Seq<char>| W::said(value, place)),
            entries_report(path@, all, 0, said) == report@ + entries_report(path@, all, i as int, said),
        decreases all.len() - i,
    {
        let here: String = entries.value_at(i).say(entry_path(path, i).as_str());
        proof {
            assert(report@ + (here@ + entries_report(path@, all, i + 1, said)) =~= (report@ + here@) + entries_report(
                path@,
                all,
                i + 1,
                said,
            ));
        }
        report = text2(report.as_str(), here.as_str());
        i += 1;
    }
    assert(report@ + Seq::<char>::empty() =~= report@);
    report
}

} // verus!
