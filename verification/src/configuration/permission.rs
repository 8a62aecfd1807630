//! Names of permissions, and the names that are known.

use vstd::prelude::*;

use crate::ordered::{has_key, put, put_at_end, OrderedKey, OrderedMap};
use crate::text::{chars_of, is_text_before, text3, text_before, text_order_is_total, text_order_is_transitive};
use crate::value::{seen, Plain};

verus! {

/// Whether a text has the form of a permission name: an upper case letter, then
/// upper case letters, digits and underscores.
pub open spec fn is_permission_name(text: Seq<char>) -> bool {
    &&& text.len() > 0
    &&& 'A' <= text[0] <= 'Z'
    &&& forall|i: int|
        0 < i < text.len() ==> ('A' <= #[trigger] text[i] <= 'Z' || '0' <= text[i] <= '9' || text[i] == '_')
}

/// Whether a text has the form of a permission name.
pub fn check_permission_name(text: &str) -> (valid: bool)
    ensures
        valid == is_permission_name(text@),
{
    let chars: Vec<char> = chars_of(text);
    if chars.len() == 0 || !('A' <= chars[0] && chars[0] <= 'Z') {
        return false;
    }
    let mut i: usize = 1;
    while i < chars.len()
        invariant
            1 <= i <= chars@.len(),
            chars@ == text@,
            forall|k: int|
                0 < k < i ==> ('A' <= #[trigger] text@[k] <= 'Z' || '0' <= text@[k] <= '9' || text@[k] == '_'),
        decreases chars@.len() - i,
    {
        let c: char = chars[i];
        if !(('A' <= c && c <= 'Z') || ('0' <= c && c <= '9') || c == '_') {
            assert(text@[i as int] == c);
            return false;
        }
        i += 1;
    }
    true
}

/// The name of a permission as a definition may write it.
#[derive(Debug)]
pub struct PermissionName {
    value: String,
}

/// What is said of a text that is no permission name.
pub open spec fn permission_name_fault(text: Seq<char>) -> Seq<char> {
    "不正な権限名 "@ + text + " が指定されています"@
}

/// The permission name that a text is, if it is one.
pub open spec fn parsed_permission_name(text: Seq<char>) -> Result<Seq<char>, Seq<char>> {
    if is_permission_name(text) {
        Ok(text)
    } else {
        Err(permission_name_fault(text))
    }
}

impl DeepView for PermissionName {
    type V = Seq<char>;

    closed spec fn deep_view(&self) -> Seq<char> {
        self.value@
    }
}

impl PermissionName {
    #[verifier::type_invariant]
    spec fn is_valid(&self) -> bool {
        is_permission_name(self.value@)
    }

    /// Takes a text as a permission name, if it is one.
    pub fn parse(value: &str) -> (result: Result<Self, String>)
        ensures
            seen(result) == parsed_permission_name(value@),
    {
        if check_permission_name(value) {
            Ok(PermissionName { value: value.to_owned() })
        } else {
            Err(text3("不正な権限名 ", value, " が指定されています"))
        }
    }

    /// The text of the name, which has the form of a permission name.
    pub fn as_str(&self) -> (text: &str)
        ensures
            text@ == self.deep_view(),
            is_permission_name(text@),
    {
        proof {
            use_type_invariant(self);
        }
        self.value.as_str()
    }
}

impl Plain for PermissionName {
    fn copy(&self) -> (copied: Self) {
        proof {
            use_type_invariant(self);
        }
        PermissionName { value: self.value.clone() }
    }

    fn same(&self, other: &Self) -> (equal: bool) {
        self.value == other.value
    }
}

impl OrderedKey for PermissionName {
    open spec fn before(a: Seq<char>, b: Seq<char>) -> bool {
        text_before(a, b)
    }

    fn is_before(&self, other: &Self) -> (answer: bool) {
        is_text_before(self.value.as_str(), other.value.as_str())
    }

    proof fn order_is_total(a: Seq<char>, b: Seq<char>) {
        text_order_is_total(a, b);
    }

    proof fn order_is_transitive(a: Seq<char>, b: Seq<char>, c: Seq<char>) {
        text_order_is_transitive(a, b, c);
    }
}

/// The name of a permission that Discord has.
#[derive(Debug)]
pub struct KnownPermission {
    value: String,
}

impl DeepView for KnownPermission {
    type V = Seq<char>;

    closed spec fn deep_view(&self) -> Seq<char> {
        self.value@
    }
}

impl KnownPermission {
    #[verifier::type_invariant]
    spec fn is_valid(&self) -> bool {
        is_permission_name(self.value@)
    }

    fn from_name(name: &PermissionName) -> (known: Self)
        ensures
            known.deep_view() == name.deep_view(),
    {
        KnownPermission { value: name.as_str().to_owned() }
    }

    /// The text of the name, which has the form of a permission name.
    pub fn as_str(&self) -> (text: &str)
        ensures
            text@ == self.deep_view(),
            is_permission_name(text@),
    {
        proof {
            use_type_invariant(self);
        }
        self.value.as_str()
    }

    /// The name as a definition writes it.
    pub fn to_name(&self) -> (name: PermissionName)
        ensures
            name.deep_view() == self.deep_view(),
    {
        proof {
            use_type_invariant(self);
        }
        PermissionName { value: self.value.clone() }
    }
}

impl Plain for KnownPermission {
    fn copy(&self) -> (copied: Self) {
        proof {
            use_type_invariant(self);
        }
        KnownPermission { value: self.value.clone() }
    }

    fn same(&self, other: &Self) -> (equal: bool) {
        self.value == other.value
    }
}

impl OrderedKey for KnownPermission {
    open spec fn before(a: Seq<char>, b: Seq<char>) -> bool {
        text_before(a, b)
    }

    fn is_before(&self, other: &Self) -> (answer: bool) {
        is_text_before(self.value.as_str(), other.value.as_str())
    }

    proof fn order_is_total(a: Seq<char>, b: Seq<char>) {
        text_order_is_total(a, b);
    }

    proof fn order_is_transitive(a: Seq<char>, b: Seq<char>, c: Seq<char>) {
        text_order_is_transitive(a, b, c);
    }
}

/// The permission names that can be resolved.
pub struct PermissionVocabulary {
    names: OrderedMap<PermissionName, ()>,
}

impl DeepView for PermissionVocabulary {
    type V = Seq<(Seq<char>, ())>;

    closed spec fn deep_view(&self) -> Seq<(Seq<char>, ())> {
        self.names.deep_view()
    }
}

/// The vocabulary of the given names, or what is said of the first that has
/// not the form of a permission name.
pub open spec fn vocabulary_of(
    names: Seq<Seq<char>>,
    gathered: Seq<(Seq<char>, ())>,
) -> Result<Seq<(Seq<char>, ())>, Seq<char>>
    decreases names.len(),
{
    if names.len() == 0 {
        Ok(gathered)
    } else if !is_permission_name(names[0]) {
        Err(permission_name_fault(names[0]))
    } else {
        vocabulary_of(names.drop_first(), put::<PermissionName, ()>(gathered, names[0], ()))
    }
}

impl PermissionVocabulary {
    /// The vocabulary of the given names.
    pub fn from_names(names: &Vec<String>) -> (result: Result<Self, String>)
        ensures
            seen(result) == vocabulary_of(names.deep_view(), Seq::empty()),
    {
        let mut gathered: OrderedMap<PermissionName, ()> = OrderedMap::new();
        let mut i: usize = 0;
        assert(names.deep_view().skip(0) =~= names.deep_view());
        while i < names.len()
            invariant
                i <= names@.len(),
                vocabulary_of(names.deep_view(), Seq::empty()) == vocabulary_of(
                    names.deep_view().skip(i as int),
                    gathered.deep_view(),
                ),
            decreases names@.len() - i,
        {
            assert(names.deep_view().skip(i as int)[0] == names@[i as int]@);
            assert(names.deep_view().skip(i as int).drop_first() =~= names.deep_view().skip(i + 1));
            match PermissionName::parse(names[i].as_str()) {
                Ok(name) => gathered.insert(name, ()),
                Err(fault) => {
                    return Err(fault);
                },
            }
            i += 1;
        }
        Ok(PermissionVocabulary { names: gathered })
    }

    /// The known permission of a name, if the vocabulary has the name.
    pub fn resolve(&self, name: &PermissionName) -> (known: Option<KnownPermission>)
        ensures
            known.deep_view() == if has_key(self.deep_view(), name.deep_view()) {
                Some(name.deep_view())
            } else {
                None
            },
    {
        if self.names.contains_key(name) {
            Some(KnownPermission::from_name(name))
        } else {
            None
        }
    }

    /// The names of all known permissions.
    pub fn known_names(&self) -> (known: OrderedMap<KnownPermission, ()>)
        ensures
            known.deep_view() == self.deep_view(),
    {
        let ghost all = self.names.deep_view();
        let mut known: OrderedMap<KnownPermission, ()> = OrderedMap::new();
        let mut i: usize = 0;
        assert(all.take(0) =~= Seq::empty());
        while i < self.names.len()
            invariant
                i <= all.len(),
                all == self.names.deep_view(),
                known.deep_view() == all.take(i as int),
            decreases all.len() - i,
        {
            let _n: usize = self.names.len();
            proof {
                put_at_end::<KnownPermission, ()>(all.take(i as int), all[i as int].0, all[i as int].1);
                assert(all.take(i + 1) =~= all.take(i as int).push(all[i as int]));
            }
            known.insert(KnownPermission::from_name(self.names.key_at(i)), ());
            i += 1;
        }
        assert(all.take(i as int) =~= all);
        known
    }

    /// All known permissions, in the order of their names.
    pub fn known_permissions(&self) -> (known: Vec<KnownPermission>)
        ensures
            known.deep_view() == self.deep_view().map_values(|entry: (Seq<char>, ())| entry.0),
    {
        let mut known: Vec<KnownPermission> = Vec::new();
        let mut i: usize = 0;
        while i < self.names.len()
            invariant
                i <= self.names.deep_view().len(),
                known@.len() == i,
                forall|k: int| 0 <= k < i ==> (#[trigger] known@[k]).deep_view() == self.names.deep_view()[k].0,
            decreases self.names.deep_view().len() - i,
        {
            known.push(KnownPermission::from_name(self.names.key_at(i)));
            i += 1;
        }
        assert(known.deep_view() =~= self.deep_view().map_values(|entry: (Seq<char>, ())| entry.0));
        known
    }
}

/// The first name that is not in the vocabulary.
pub open spec fn first_unknown<W>(entries: Seq<(Seq<char>, W)>, known: Seq<(Seq<char>, ())>) -> Option<Seq<char>>
    decreases entries.len(),
{
    if entries.len() == 0 {
        None
    } else if !has_key(known, entries[0].0) {
        Some(entries[0].0)
    } else {
        first_unknown(entries.drop_first(), known)
    }
}

/// The same entries under known permissions, or the first name that is not known.
pub fn known_entries<W: Plain>(
    entries: &OrderedMap<PermissionName, W>,
    vocabulary: &PermissionVocabulary,
) -> (result: Result<OrderedMap<KnownPermission, W>, String>)
    ensures
        seen(result) == match first_unknown(entries.deep_view(), vocabulary.deep_view()) {
            Some(name) => Err(name),
            None => Ok(entries.deep_view()),
        },
{
    let mut known: OrderedMap<KnownPermission, W> = OrderedMap::new();
    let mut i: usize = 0;
    let ghost all = entries.deep_view();
    assert(all.skip(0) =~= all);
    assert(all.take(0) =~= Seq::empty());
    while i < entries.len()
        invariant
            i <= all.len(),
            all == entries.deep_view(),
            known.deep_view() == all.take(i as int),
            first_unknown(all, vocabulary.deep_view()) == first_unknown(all.skip(i as int), vocabulary.deep_view()),
        decreases all.len() - i,
    {
        assert(all.skip(i as int)[0] == all[i as int]);
        assert(all.skip(i as int).drop_first() =~= all.skip(i + 1));
        let name: &PermissionName = entries.key_at(i);
        match vocabulary.resolve(name) {
            None => {
                return Err(name.as_str().to_owned());
            },
            Some(permission) => {
                let _n: usize = entries.len();
                proof {
                    put_at_end::<KnownPermission, W::V>(all.take(i as int), all[i as int].0, all[i as int].1);
                    assert(all.take(i + 1) =~= all.take(i as int).push(all[i as int]));
                }
                known.insert(permission, entries.value_at(i).copy());
            },
        }
        i += 1;
    }
    assert(all.take(i as int) =~= all);
    Ok(known)
}

} // verus!
