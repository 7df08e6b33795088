//! Attribute values and items: the attribute set that is stored under one key.

use crate::text::text_eq;
use vstd::prelude::*;

verus! {

/// The value of one attribute. Only text and numbers are told apart; every other
/// kind of value that a table can hold is `Other`.
#[derive(Debug, PartialEq, Eq)]
pub enum AttributeValue {
    /// A text value.
    S(String),
    /// A number, in its decimal rendering.
    N(String),
    /// Any value that is neither text nor a number.
    Other,
}

/// The mathematical value of an [`AttributeValue`].
pub enum AttributeValueView {
    S(Seq<char>),
    N(Seq<char>),
    Other,
}

impl View for AttributeValue {
    type V = AttributeValueView;

    open spec fn view(&self) -> AttributeValueView {
        match self {
            AttributeValue::S(text) => AttributeValueView::S(text@),
            AttributeValue::N(digits) => AttributeValueView::N(digits@),
            AttributeValue::Other => AttributeValueView::Other,
        }
    }
}

impl Clone for AttributeValue {
    fn clone(&self) -> (copy: AttributeValue)
        ensures
            copy@ == self@,
    {
        match self {
            AttributeValue::S(text) => AttributeValue::S(text.clone()),
            AttributeValue::N(digits) => AttributeValue::N(digits.clone()),
            AttributeValue::Other => AttributeValue::Other,
        }
    }
}

/// One named attribute.
#[derive(Debug, PartialEq, Eq)]
pub struct Attribute {
    pub name: String,
    pub value: AttributeValue,
}

/// An item: a finite mapping from attribute names to values. No name occurs
/// twice among its entries.
#[derive(Debug)]
pub struct Item {
    entries: Vec<Attribute>,
}

/// True when no two entries carry the same name.
pub open spec fn distinct_names(entries: Seq<Attribute>) -> bool {
    forall|i: int, j: int|
        0 <= i < entries.len() && 0 <= j < entries.len() && entries[i].name@ == entries[j].name@
            ==> i == j
}

/// True when `i` is the first entry that carries `name`.
pub open spec fn first_named(entries: Seq<Attribute>, name: Seq<char>, i: int) -> bool {
    &&& 0 <= i < entries.len()
    &&& entries[i].name@ == name
    &&& forall|j: int| 0 <= j < i ==> entries[j].name@ != name
}

/// The mapping that a list of entries stands for: each name that occurs maps to
/// the value of the first entry that carries it.
pub open spec fn entries_map(entries: Seq<Attribute>) -> Map<Seq<char>, AttributeValueView> {
    Map::new(
        |name: Seq<char>| exists|i: int| first_named(entries, name, i),
        |name: Seq<char>| entries[choose|i: int| first_named(entries, name, i)].value@,
    )
}

/// Replacing the value of the first entry named `name`, or appending an entry
/// where none carries that name, sets `name` in the mapping and nothing else,
/// and keeps the names distinct.
proof fn lemma_entries_map_set(
    before: Seq<Attribute>,
    after: Seq<Attribute>,
    entry: Attribute,
    at: Option<int>,
)
    requires
        distinct_names(before),
        match at {
            Some(i) => first_named(before, entry.name@, i) && after == before.update(i, entry),
            None => (forall|i: int| !first_named(before, entry.name@, i)) && after == before.push(
                entry,
            ),
        },
    ensures
        distinct_names(after),
        entries_map(after) == entries_map(before).insert(entry.name@, entry.value@),
{
    let name = entry.name@;
    let slot = match at {
        Some(i) => i,
        None => before.len() as int,
    };
    if at.is_none() {
        assert forall|j: int| 0 <= j < before.len() implies before[j].name@ != name by {
            if before[j].name@ == name {
                lemma_first_exists(before, name, j);
            }
        }
    }
    assert forall|i: int, j: int|
        0 <= i < after.len() && 0 <= j < after.len() && after[i].name@ == after[j].name@ implies i
            == j by {
        if i != slot {
            assert(after[i] == before[i]);
        }
        if j != slot {
            assert(after[j] == before[j]);
        }
    }
    assert(first_named(after, name, slot));
    assert forall|k: Seq<char>, j: int| k != name implies first_named(after, k, j) == first_named(
        before,
        k,
        j,
    ) by {
        if first_named(before, k, j) {
            assert(first_named(after, k, j));
        }
        if first_named(after, k, j) {
            assert(j != slot);
            assert(before[j] == after[j]);
            assert forall|l: int| 0 <= l < j implies before[l].name@ != k by {
                if l != slot {
                    assert(before[l] == after[l]);
                }
            }
        }
    }
    let target = entries_map(before).insert(name, entry.value@);
    assert forall|k: Seq<char>| #[trigger]
        entries_map(after).contains_key(k) == target.contains_key(k) by {
        if k != name {
            if entries_map(before).contains_key(k) {
                let j = choose|j: int| first_named(before, k, j);
                assert(first_named(after, k, j));
            }
            if entries_map(after).contains_key(k) {
                let j = choose|j: int| first_named(after, k, j);
                assert(first_named(before, k, j));
            }
        }
    }
    assert forall|k: Seq<char>| #[trigger] entries_map(after).contains_key(k) implies entries_map(
        after,
    )[k] == target[k] by {
        let j = choose|j: int| first_named(after, k, j);
        if k == name {
            lemma_first_unique(after, k, j, slot);
        } else {
            assert(first_named(before, k, j));
            let j0 = choose|j0: int| first_named(before, k, j0);
            lemma_first_unique(before, k, j, j0);
        }
    }
    assert(entries_map(after) =~= target);
}

/// Two first entries of one name are the same entry.
proof fn lemma_first_unique(entries: Seq<Attribute>, name: Seq<char>, i: int, j: int)
    requires
        first_named(entries, name, i),
        first_named(entries, name, j),
    ensures
        i == j,
{
}

/// A name that some entry carries has a first entry.
proof fn lemma_first_exists(entries: Seq<Attribute>, name: Seq<char>, at: int)
    requires
        0 <= at < entries.len(),
        entries[at].name@ == name,
    ensures
        exists|i: int| first_named(entries, name, i),
    decreases at,
{
    if exists|j: int| 0 <= j < at && entries[j].name@ == name {
        let j = choose|j: int| 0 <= j < at && entries[j].name@ == name;
        lemma_first_exists(entries, name, j);
    } else {
        assert(first_named(entries, name, at));
    }
}

/// True when two lists of entries hold the same names and values, place by place.
pub open spec fn same_entries(left: Seq<Attribute>, right: Seq<Attribute>) -> bool {
    &&& left.len() == right.len()
    &&& forall|i: int|
        0 <= i < left.len() ==> left[i].name@ == right[i].name@ && left[i].value@ == right[i].value@
}

/// Lists that hold the same names and values stand for the same mapping.
proof fn lemma_same_entries(left: Seq<Attribute>, right: Seq<Attribute>)
    requires
        same_entries(left, right),
    ensures
        entries_map(left) == entries_map(right),
{
    assert forall|name: Seq<char>, i: int| first_named(left, name, i) == first_named(
        right,
        name,
        i,
    ) by {}
    assert forall|name: Seq<char>| #[trigger]
        entries_map(left).contains_key(name) == entries_map(right).contains_key(name) by {
        if entries_map(left).contains_key(name) {
            let i = choose|i: int| first_named(left, name, i);
            assert(first_named(right, name, i));
        }
        if entries_map(right).contains_key(name) {
            let i = choose|i: int| first_named(right, name, i);
            assert(first_named(left, name, i));
        }
    }
    assert forall|name: Seq<char>| #[trigger]
        entries_map(left).contains_key(name) implies entries_map(left)[name] == entries_map(
        right,
    )[name] by {
        let i = choose|i: int| first_named(left, name, i);
        let j = choose|j: int| first_named(right, name, j);
        assert(first_named(right, name, i));
        lemma_first_unique(right, name, i, j);
    }
    assert(entries_map(left) =~= entries_map(right));
}

impl View for Item {
    type V = Map<Seq<char>, AttributeValueView>;

    closed spec fn view(&self) -> Map<Seq<char>, AttributeValueView> {
        entries_map(self.entries@)
    }
}

impl Clone for Item {
    fn clone(&self) -> (copy: Item)
        ensures
            copy@ == self@,
    {
        let mut entries: Vec<Attribute> = Vec::new();
        let mut i: usize = 0;
        while i < self.entries.len()
            invariant
                i <= self.entries.len(),
                same_entries(entries@, self.entries@.take(i as int)),
            decreases self.entries.len() - i,
        {
            let entry = &self.entries[i];
            entries.push(Attribute { name: entry.name.clone(), value: entry.value.clone() });
            i += 1;
        }
        proof {
            use_type_invariant(self);
            assert(self.entries@.take(i as int) =~= self.entries@);
            lemma_same_entries(entries@, self.entries@);
        }
        Item { entries }
    }
}

impl Item {
    #[verifier::type_invariant]
    spec fn names_are_distinct(self) -> bool {
        distinct_names(self.entries@)
    }

    /// The index of the first entry that carries `name`, if there is one.
    fn position(&self, name: &str) -> (found: Option<usize>)
        ensures
            match found {
                Some(i) => first_named(self.entries@, name@, i as int),
                None => forall|i: int| !first_named(self.entries@, name@, i),
            },
    {
        let mut i: usize = 0;
        while i < self.entries.len()
            invariant
                i <= self.entries.len(),
                forall|j: int| 0 <= j < i ==> self.entries@[j].name@ != name@,
            decreases self.entries.len() - i,
        {
            if text_eq(self.entries[i].name.as_str(), name) {
                return Some(i);
            }
            i += 1;
        }
        None
    }

    /// An item without attributes.
    pub fn new() -> (item: Item)
        ensures
            item@ == Map::<Seq<char>, AttributeValueView>::empty(),
    {
        let item = Item { entries: Vec::new() };
        assert(item@ =~= Map::<Seq<char>, AttributeValueView>::empty());
        item
    }

    /// Sets the attribute `name` to `value`, whether or not the item had it.
    pub fn insert(&mut self, name: String, value: AttributeValue)
        ensures
            final(self)@ == old(self)@.insert(name@, value@),
    {
        proof {
            use_type_invariant(&*self);
        }
        let found = self.position(name.as_str());
        let entry = Attribute { name, value };
        let mut entries: Vec<Attribute> = Vec::new();
        std::mem::swap(&mut entries, &mut self.entries);
        let ghost before = entries@;
        match found {
            Some(i) => {
                proof {
                    lemma_entries_map_set(
                        before,
                        before.update(i as int, entry),
                        entry,
                        Some(i as int),
                    );
                }
                entries.set(i, entry);
            },
            None => {
                proof {
                    lemma_entries_map_set(before, before.push(entry), entry, None);
                }
                entries.push(entry);
            },
        }
        self.entries = entries;
    }

    /// Looks the attribute `name` up.
    pub fn get(&self, name: &str) -> (found: Option<&AttributeValue>)
        ensures
            match found {
                Some(value) => self@.contains_key(name@) && self@[name@] == value@,
                None => !self@.contains_key(name@),
            },
    {
        match self.position(name) {
            Some(i) => {
                proof {
                    let j = choose|j: int| first_named(self.entries@, name@, j);
                    lemma_first_unique(self.entries@, name@, j, i as int);
                }
                Some(&self.entries[i].value)
            },
            None => None,
        }
    }

    /// Hands the attributes out as a list. Each name that the item holds occurs
    /// in it once, with its value.
    pub fn into_entries(self) -> (entries: Vec<Attribute>)
        ensures
            distinct_names(entries@),
            entries_map(entries@) == self@,
    {
        proof {
            use_type_invariant(&self);
        }
        self.entries
    }
}

} // verus!
