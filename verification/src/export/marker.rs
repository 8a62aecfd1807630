//! Tables of a definition file that only say that a value is the default, or cleared.

use vstd::prelude::*;

verus! {

/// What a marker says of a value.
#[derive(Clone, Copy, Debug, PartialEq, Eq, Structural)]
pub enum Marker {
    Default,
    Clear,
}

impl Marker {
    /// The key under which a marker stands.
    pub open spec fn chars(self) -> Seq<char> {
        match self {
            Marker::Default => "default"@,
            Marker::Clear => "clear"@,
        }
    }

    /// The key under which a marker stands.
    pub fn key(self) -> (key: &'static str)
        ensures
            key@ == self.chars(),
    {
        match self {
            Marker::Default => "default",
            Marker::Clear => "clear",
        }
    }
}

/// What stands in a definition file under a key.
#[derive(Debug)]
pub enum TomlItem {
    /// A value in one line, with its truth value where it has one.
    Value(Option<bool>),
    /// A table with its entries.
    Table(Vec<(String, TomlItem)>),
    /// Tables that stand under one key.
    Tables(Vec<Vec<(String, TomlItem)>>),
    /// A marker in one line.
    Inline(Marker),
}

/// What stands in a definition file under a key.
pub enum TomlItemView {
    Value(Option<bool>),
    Table(Seq<(Seq<char>, TomlItemView)>),
    Tables(Seq<Seq<(Seq<char>, TomlItemView)>>),
    Inline(Marker),
}

/// The entries of a table.
pub type EntriesView = Seq<(Seq<char>, TomlItemView)>;

/// What an item holds.
pub open spec fn item_view(item: TomlItem) -> TomlItemView
    decreases item,
{
    match item {
        TomlItem::Value(truth) => TomlItemView::Value(truth),
        TomlItem::Table(entries) => TomlItemView::Table(entries_view(entries@)),
        TomlItem::Tables(tables) => TomlItemView::Tables(tables_view(tables@)),
        TomlItem::Inline(marker) => TomlItemView::Inline(marker),
    }
}

/// What entries hold.
pub open spec fn entries_view(entries: Seq<(String, TomlItem)>) -> EntriesView
    decreases entries,
{
    if entries.len() == 0 {
        Seq::empty()
    } else {
        entries_view(entries.drop_last()).push((entries.last().0@, item_view(entries.last().1)))
    }
}

/// What tables hold.
pub open spec fn tables_view(tables: Seq<Vec<(String, TomlItem)>>) -> Seq<EntriesView>
    decreases tables,
{
    if tables.len() == 0 {
        Seq::empty()
    } else {
        tables_view(tables.drop_last()).push(entries_view(tables.last()@))
    }
}

impl DeepView for TomlItem {
    type V = TomlItemView;

    open spec fn deep_view(&self) -> TomlItemView {
        item_view(*self)
    }
}

/// The marker that a table with these entries is.
pub open spec fn marker_of(entries: EntriesView) -> Option<Marker> {
    if entries.len() == 1 && entries[0].1 == TomlItemView::Value(Some(true)) {
        if entries[0].0 == Marker::Default.chars() {
            Some(Marker::Default)
        } else if entries[0].0 == Marker::Clear.chars() {
            Some(Marker::Clear)
        } else {
            None
        }
    } else {
        None
    }
}

/// An item with each table in it that is a marker written in one line. Of tables that
/// stand under one key, only what stands in them is.
pub open spec fn inlined(item: TomlItemView) -> TomlItemView
    decreases item,
{
    match item {
        TomlItemView::Table(entries) => match marker_of(inlined_entries(entries)) {
            Some(marker) => TomlItemView::Inline(marker),
            None => TomlItemView::Table(inlined_entries(entries)),
        },
        TomlItemView::Tables(tables) => TomlItemView::Tables(inlined_tables(tables)),
        _ => item,
    }
}

/// Entries with what stands in them inlined.
pub open spec fn inlined_entries(entries: EntriesView) -> EntriesView
    decreases entries,
{
    if entries.len() == 0 {
        Seq::empty()
    } else {
        inlined_entries(entries.drop_last()).push((entries.last().0, inlined(entries.last().1)))
    }
}

/// Tables with what stands in them inlined.
pub open spec fn inlined_tables(tables: Seq<EntriesView>) -> Seq<EntriesView>
    decreases tables,
{
    if tables.len() == 0 {
        Seq::empty()
    } else {
        inlined_tables(tables.drop_last()).push(inlined_entries(tables.last()))
    }
}

proof fn entries_in_order(entries: Seq<(String, TomlItem)>, i: int)
    requires
        0 <= i < entries.len(),
    ensures
        entries_view(entries).len() == entries.len(),
        entries_view(entries)[i] == (entries[i].0@, item_view(entries[i].1)),
    decreases entries.len(),
{
    if i < entries.len() - 1 {
        entries_in_order(entries.drop_last(), i);
    } else if entries.len() > 1 {
        entries_in_order(entries.drop_last(), 0);
    } else {
        assert(entries_view(entries.drop_last()).len() == 0);
    }
}

/// The marker that a table with these entries is: one that has a single entry, which is
/// true and stands under the key of a marker.
fn find_marker(entries: &Vec<(String, TomlItem)>) -> (marker: Option<Marker>)
    ensures
        marker == marker_of(entries_view(entries@)),
{
    if entries.len() != 1 {
        proof {
            if entries@.len() > 0 {
                entries_in_order(entries@, 0);
            }
        }
        return None;
    }
    proof {
        entries_in_order(entries@, 0);
    }
    let default: String = "default".to_owned();
    let clear: String = "clear".to_owned();
    let key: &String = &entries[0].0;
    match &entries[0].1 {
        TomlItem::Value(Some(true)) => if *key == default {
            Some(Marker::Default)
        } else if *key == clear {
            Some(Marker::Clear)
        } else {
            None
        },
        _ => None,
    }
}

/// Writes each table in an item that only says that a value is the default, or cleared, in
/// one line.
pub fn inline_markers(item: TomlItem) -> (result: TomlItem)
    ensures
        result.deep_view() == inlined(item.deep_view()),
{
    inline_item(&item)
}

fn inline_item(item: &TomlItem) -> (result: TomlItem)
    ensures
        item_view(result) == inlined(item_view(*item)),
    decreases item,
{
    match item {
        TomlItem::Value(truth) => TomlItem::Value(*truth),
        TomlItem::Inline(marker) => TomlItem::Inline(*marker),
        TomlItem::Table(entries) => {
            let inner: Vec<(String, TomlItem)> = inline_entries(entries);
            match find_marker(&inner) {
                Some(marker) => TomlItem::Inline(marker),
                None => TomlItem::Table(inner),
            }
        },
        TomlItem::Tables(tables) => TomlItem::Tables(inline_tables(tables)),
    }
}

fn inline_tables(tables: &Vec<Vec<(String, TomlItem)>>) -> (inner: Vec<Vec<(String, TomlItem)>>)
    ensures
        tables_view(inner@) == inlined_tables(tables_view(tables@)),
    decreases tables,
{
    let mut inner: Vec<Vec<(String, TomlItem)>> = Vec::new();
    let mut i: usize = 0;
    assert(tables@.take(0) =~= Seq::empty());
    while i < tables.len()
        invariant
            i <= tables@.len(),
            tables_view(inner@) == inlined_tables(tables_view(tables@.take(i as int))),
        decreases tables@.len() - i,
    {
        let ghost before = inner@;
        let entries: &Vec<(String, TomlItem)> = &tables[i];
        inner.push(inline_entries(entries));
        proof {
            assert(inner@.drop_last() =~= before);
            assert(tables@.take(i + 1).drop_last() =~= tables@.take(i as int));
            let seen = tables_view(tables@.take(i + 1));
            assert(seen.drop_last() =~= tables_view(tables@.take(i as int)));
        }
        i += 1;
    }
    assert(tables@.take(i as int) =~= tables@);
    inner
}

fn inline_entries(entries: &Vec<(String, TomlItem)>) -> (inner: Vec<(String, TomlItem)>)
    ensures
        entries_view(inner@) == inlined_entries(entries_view(entries@)),
    decreases entries,
{
    let mut inner: Vec<(String, TomlItem)> = Vec::new();
    let mut i: usize = 0;
    assert(entries@.take(0) =~= Seq::empty());
    while i < entries.len()
        invariant
            i <= entries@.len(),
            entries_view(inner@) == inlined_entries(entries_view(entries@.take(i as int))),
        decreases entries@.len() - i,
    {
        let ghost before = inner@;
        let entry: &(String, TomlItem) = &entries[i];
        inner.push((entry.0.clone(), inline_item(&entry.1)));
        proof {
            assert(inner@.drop_last() =~= before);
            assert(entries@.take(i + 1).drop_last() =~= entries@.take(i as int));
            let seen = entries_view(entries@.take(i + 1));
            assert(seen.drop_last() =~= entries_view(entries@.take(i as int)));
        }
        i += 1;
    }
    assert(entries@.take(i as int) =~= entries@);
    inner
}

/// Nothing is left to be written in one line once it was done.
pub proof fn inlining_again_changes_nothing(item: TomlItemView)
    ensures
        inlined(inlined(item)) == inlined(item),
    decreases item,
{
    match item {
        TomlItemView::Table(entries) => inlining_entries_again_changes_nothing(entries),
        TomlItemView::Tables(tables) => inlining_tables_again_changes_nothing(tables),
        _ => {},
    }
}

proof fn inlining_entries_again_changes_nothing(entries: EntriesView)
    ensures
        inlined_entries(inlined_entries(entries)) == inlined_entries(entries),
    decreases entries,
{
    if entries.len() > 0 {
        inlining_entries_again_changes_nothing(entries.drop_last());
        inlining_again_changes_nothing(entries.last().1);
        assert(inlined_entries(entries).drop_last() =~= inlined_entries(entries.drop_last()));
    }
}

proof fn inlining_tables_again_changes_nothing(tables: Seq<EntriesView>)
    ensures
        inlined_tables(inlined_tables(tables)) == inlined_tables(tables),
    decreases tables,
{
    if tables.len() > 0 {
        inlining_tables_again_changes_nothing(tables.drop_last());
        inlining_entries_again_changes_nothing(tables.last());
        assert(inlined_tables(tables).drop_last() =~= inlined_tables(tables.drop_last()));
    }
}

} // verus!
