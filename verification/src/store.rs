//! A storage that lives in memory. It answers at once and the same way every
//! time, and it can be told to fail on one key, so that a handler can be run
//! against it without a backend.

use crate::item::{AttributeValue, AttributeValueView, Item};
use crate::storage::{
    counted_view, fetched_view, stored_view, BackendError, GetError, GetErrorView, Storage,
    StorageCall, StorageCallView, StorageReply, StorageReplyView,
};
use crate::text::text_eq;
use vstd::prelude::*;
use vstd::string::*;

verus! {

/// One record: the table and the key that it is stored under, and its item.
#[derive(Debug)]
pub struct StoredRecord {
    pub table: String,
    pub key: String,
    pub item: Item,
}

/// A table and a key in it.
pub type Place = (Seq<char>, Seq<char>);

/// The mathematical value of an [`InMemoryStore`].
pub struct StoreView {
    /// The item stored at each place that holds one.
    pub records: Map<Place, Map<Seq<char>, AttributeValueView>>,
    /// The key on which every call fails, if there is one.
    pub failing_key: Option<Seq<char>>,
}

/// The words of the failure on the failing key.
pub open spec fn failure_message() -> Seq<char> {
    "the storage was told to fail on this key"@
}

/// What a put does to a store, and what it answers: on the failing key it fails
/// and changes nothing; on any other key it sets the item of the place.
pub open spec fn put_model(
    store: StoreView,
    table: Seq<char>,
    key: Seq<char>,
    item: Map<Seq<char>, AttributeValueView>,
) -> (StoreView, Result<(), Seq<char>>) {
    if store.failing_key == Some(key) {
        (store, Err(failure_message()))
    } else {
        (
            StoreView {
                records: store.records.insert((table, key), item),
                failing_key: store.failing_key,
            },
            Ok(()),
        )
    }
}

/// What a get answers: a failure on the failing key, the item of the place where
/// it holds one, and otherwise that there is none.
pub open spec fn get_model(store: StoreView, table: Seq<char>, key: Seq<char>) -> Result<
    Map<Seq<char>, AttributeValueView>,
    GetErrorView,
> {
    if store.failing_key == Some(key) {
        Err(GetErrorView::Backend(failure_message()))
    } else if store.records.contains_key((table, key)) {
        Ok(store.records[(table, key)])
    } else {
        Err(GetErrorView::NotFound)
    }
}

/// True when `item` carries the text `value` under `field`.
pub open spec fn carries(
    item: Map<Seq<char>, AttributeValueView>,
    field: Seq<char>,
    value: Seq<char>,
) -> bool {
    item.contains_key(field) && item[field] == AttributeValueView::S(value)
}

/// The places of `table` whose item carries `value` under `field`.
pub open spec fn matching_places(
    records: Map<Place, Map<Seq<char>, AttributeValueView>>,
    table: Seq<char>,
    field: Seq<char>,
    value: Seq<char>,
) -> Set<Place> {
    Set::new(
        |place: Place|
            records.contains_key(place) && place.0 == table && carries(
                records[place],
                field,
                value,
            ),
    )
}

/// What a query answers: a failure where the value is the failing key, and
/// otherwise the number of matching places, or `limit` where there are more.
pub open spec fn query_model(
    store: StoreView,
    table: Seq<char>,
    field: Seq<char>,
    value: Seq<char>,
    limit: u64,
) -> Result<u64, Seq<char>> {
    if store.failing_key == Some(value) {
        Err(failure_message())
    } else {
        let found = matching_places(store.records, table, field, value).len();
        if found <= limit {
            Ok(found as u64)
        } else {
            Ok(limit)
        }
    }
}

/// What a call does to a store, and what the store answers. Only a put changes
/// the store.
pub open spec fn answer_model(store: StoreView, call: StorageCallView) -> (
    StoreView,
    StorageReplyView,
) {
    match call {
        StorageCallView::Put { table, key, item } => {
            let put = put_model(store, table, key, item);
            (put.0, StorageReplyView::Stored(put.1))
        },
        StorageCallView::Get { table, key } => (
            store,
            StorageReplyView::Fetched(get_model(store, table, key)),
        ),
        StorageCallView::Query { table, field, value, limit } => (
            store,
            StorageReplyView::Counted(query_model(store, table, field, value, limit)),
        ),
    }
}

/// True when the record at `i` is stored at `place`.
pub open spec fn placed_at(records: Seq<StoredRecord>, place: Place, i: int) -> bool {
    0 <= i < records.len() && records[i].table@ == place.0 && records[i].key@ == place.1
}

/// True when no two records are stored at the same place.
pub open spec fn distinct_places(records: Seq<StoredRecord>) -> bool {
    forall|i: int, j: int|
        0 <= i < records.len() && 0 <= j < records.len() && records[i].table@ == records[j].table@
            && records[i].key@ == records[j].key@ ==> i == j
}

/// The mapping that a list of records at distinct places stands for.
pub open spec fn records_map(records: Seq<StoredRecord>) -> Map<
    Place,
    Map<Seq<char>, AttributeValueView>,
> {
    Map::new(
        |place: Place| exists|i: int| placed_at(records, place, i),
        |place: Place| records[choose|i: int| placed_at(records, place, i)].item@,
    )
}

/// Among records at distinct places, the record at a place is the one that the
/// mapping shows there.
proof fn lemma_record_at(records: Seq<StoredRecord>, place: Place, i: int)
    requires
        distinct_places(records),
        placed_at(records, place, i),
    ensures
        records_map(records).contains_key(place),
        records_map(records)[place] == records[i].item@,
{
    let j = choose|j: int| placed_at(records, place, j);
    assert(j == i);
}

/// Putting a record in the slot of its place, or behind all others where the
/// place was empty, keeps the places distinct and sets that place in the mapping.
proof fn lemma_records_map_set(
    before: Seq<StoredRecord>,
    after: Seq<StoredRecord>,
    record: StoredRecord,
    at: Option<int>,
)
    requires
        distinct_places(before),
        match at {
            Some(i) => placed_at(before, (record.table@, record.key@), i) && after
                == before.update(i, record),
            None => (forall|i: int| !placed_at(before, (record.table@, record.key@), i)) && after
                == before.push(record),
        },
    ensures
        distinct_places(after),
        records_map(after) == records_map(before).insert(
            (record.table@, record.key@),
            record.item@,
        ),
{
    let place = (record.table@, record.key@);
    let slot = match at {
        Some(i) => i,
        None => before.len() as int,
    };
    assert(placed_at(after, place, slot));
    assert forall|other: Place, j: int| other != place implies placed_at(after, other, j)
        == placed_at(before, other, j) by {
        if placed_at(after, other, j) {
            assert(j != slot);
            assert(after[j] == before[j]);
        }
        if placed_at(before, other, j) {
            assert(after[j] == before[j]);
        }
    }
    assert forall|i: int, j: int|
        0 <= i < after.len() && 0 <= j < after.len() && after[i].table@ == after[j].table@
            && after[i].key@ == after[j].key@ implies i == j by {
        let at_i = (after[i].table@, after[i].key@);
        if at_i == place {
            if i != slot {
                assert(after[i] == before[i]);
                assert(placed_at(before, place, i));
            }
            if j != slot {
                assert(after[j] == before[j]);
                assert(placed_at(before, place, j));
            }
        } else {
            assert(placed_at(after, at_i, i));
            assert(placed_at(after, at_i, j));
            assert(placed_at(before, at_i, i));
            assert(placed_at(before, at_i, j));
        }
    }
    let target = records_map(before).insert(place, record.item@);
    assert forall|other: Place| #[trigger]
        records_map(after).contains_key(other) == target.contains_key(other) by {
        if other != place {
            if records_map(before).contains_key(other) {
                let j = choose|j: int| placed_at(before, other, j);
                assert(placed_at(after, other, j));
            }
            if records_map(after).contains_key(other) {
                let j = choose|j: int| placed_at(after, other, j);
                assert(placed_at(before, other, j));
            }
        }
    }
    assert forall|other: Place| #[trigger]
        records_map(after).contains_key(other) implies records_map(after)[other]
        == target[other] by {
        let j = choose|j: int| placed_at(after, other, j);
        lemma_record_at(after, other, j);
        if other != place {
            assert(placed_at(before, other, j));
            lemma_record_at(before, other, j);
            assert(after[j] == before[j]);
        } else {
            assert(j == slot);
        }
    }
    assert(records_map(after) =~= target);
}

/// The places among the first `upto` records that match a query.
spec fn matches_among(
    records: Seq<StoredRecord>,
    upto: int,
    table: Seq<char>,
    field: Seq<char>,
    value: Seq<char>,
) -> Set<Place> {
    Set::new(
        |place: Place|
            exists|i: int|
                placed_at(records, place, i) && i < upto && place.0 == table && carries(
                    records[i].item@,
                    field,
                    value,
                ),
    )
}

/// Counting goes record by record: the next record adds its place where it
/// matches, and nothing where it does not.
proof fn lemma_matches_step(
    records: Seq<StoredRecord>,
    upto: int,
    table: Seq<char>,
    field: Seq<char>,
    value: Seq<char>,
)
    requires
        distinct_places(records),
        0 <= upto < records.len(),
        matches_among(records, upto, table, field, value).finite(),
    ensures
        matches_among(records, upto + 1, table, field, value).finite(),
        matches_among(records, upto + 1, table, field, value).len() == matches_among(
            records,
            upto,
            table,
            field,
            value,
        ).len() + (if records[upto].table@ == table && carries(records[upto].item@, field, value) {
            1nat
        } else {
            0nat
        }),
{
    let before = matches_among(records, upto, table, field, value);
    let after = matches_among(records, upto + 1, table, field, value);
    let place = (records[upto].table@, records[upto].key@);
    if records[upto].table@ == table && carries(records[upto].item@, field, value) {
        assert(placed_at(records, place, upto));
        assert(!before.contains(place)) by {
            if before.contains(place) {
                let i = choose|i: int|
                    placed_at(records, place, i) && i < upto && place.0 == table && carries(
                        records[i].item@,
                        field,
                        value,
                    );
                assert(i == upto);
            }
        }
        assert(after =~= before.insert(place)) by {
            assert forall|other: Place| after.contains(other) == before.insert(place).contains(
                other,
            ) by {
                if after.contains(other) {
                    let i = choose|i: int|
                        placed_at(records, other, i) && i < upto + 1 && other.0 == table
                            && carries(records[i].item@, field, value);
                    if i < upto {
                        assert(before.contains(other));
                    }
                }
                if before.contains(other) {
                    let i = choose|i: int|
                        placed_at(records, other, i) && i < upto && other.0 == table && carries(
                            records[i].item@,
                            field,
                            value,
                        );
                    assert(placed_at(records, other, i) && i < upto + 1);
                }
            }
        }
    } else {
        assert(after =~= before) by {
            assert forall|other: Place| after.contains(other) == before.contains(other) by {
                if after.contains(other) {
                    let i = choose|i: int|
                        placed_at(records, other, i) && i < upto + 1 && other.0 == table
                            && carries(records[i].item@, field, value);
                    assert(i != upto);
                    assert(before.contains(other));
                }
                if before.contains(other) {
                    let i = choose|i: int|
                        placed_at(records, other, i) && i < upto && other.0 == table && carries(
                            records[i].item@,
                            field,
                            value,
                        );
                    assert(placed_at(records, other, i) && i < upto + 1);
                }
            }
        }
    }
}

/// Once every record is counted, the places counted are the matching places of
/// the mapping.
proof fn lemma_matches_all(
    records: Seq<StoredRecord>,
    table: Seq<char>,
    field: Seq<char>,
    value: Seq<char>,
)
    requires
        distinct_places(records),
    ensures
        matches_among(records, records.len() as int, table, field, value) == matching_places(
            records_map(records),
            table,
            field,
            value,
        ),
{
    let counted = matches_among(records, records.len() as int, table, field, value);
    let wanted = matching_places(records_map(records), table, field, value);
    assert forall|place: Place| counted.contains(place) == wanted.contains(place) by {
        if counted.contains(place) {
            let i = choose|i: int|
                placed_at(records, place, i) && i < records.len() && place.0 == table && carries(
                    records[i].item@,
                    field,
                    value,
                );
            lemma_record_at(records, place, i);
        }
        if wanted.contains(place) {
            let i = choose|i: int| placed_at(records, place, i);
            lemma_record_at(records, place, i);
        }
    }
    assert(counted =~= wanted);
}

/// A storage in memory.
#[derive(Debug)]
pub struct InMemoryStore {
    records: Vec<StoredRecord>,
    failing_key: Option<String>,
}

impl View for InMemoryStore {
    type V = StoreView;

    closed spec fn view(&self) -> StoreView {
        StoreView {
            records: records_map(self.records@),
            failing_key: match self.failing_key {
                Some(key) => Some(key@),
                None => None,
            },
        }
    }
}

impl InMemoryStore {
    #[verifier::type_invariant]
    spec fn places_are_distinct(self) -> bool {
        distinct_places(self.records@)
    }

    /// An empty store that fails on no key.
    pub fn new() -> (store: InMemoryStore)
        ensures
            store@.records == Map::<Place, Map<Seq<char>, AttributeValueView>>::empty(),
            store@.failing_key.is_none(),
    {
        let store = InMemoryStore { records: Vec::new(), failing_key: None };
        assert(store@.records =~= Map::<Place, Map<Seq<char>, AttributeValueView>>::empty());
        store
    }

    /// An empty store that fails every call on `key`.
    pub fn failing_on(key: &str) -> (store: InMemoryStore)
        ensures
            store@.records == Map::<Place, Map<Seq<char>, AttributeValueView>>::empty(),
            store@.failing_key == Some(key@),
    {
        let store = InMemoryStore { records: Vec::new(), failing_key: Some(String::from_str(key)) };
        assert(store@.records =~= Map::<Place, Map<Seq<char>, AttributeValueView>>::empty());
        store
    }

    /// Makes `call` on the store.
    pub fn answer(&mut self, call: StorageCall) -> (reply: StorageReply)
        ensures
            (final(self)@, reply@) == answer_model(old(self)@, call@),
    {
        match call {
            StorageCall::Put { table, key, item } => StorageReply::Stored(
                self.put(table.as_str(), key.as_str(), item),
            ),
            StorageCall::Get { table, key } => StorageReply::Fetched(
                self.get(table.as_str(), key.as_str()),
            ),
            StorageCall::Query { table, field, value, limit } => StorageReply::Counted(
                self.query(table.as_str(), field.as_str(), value.as_str(), limit),
            ),
        }
    }

    /// True when the store fails on `key`.
    fn fails_on(&self, key: &str) -> (fails: bool)
        ensures
            fails == (self@.failing_key == Some(key@)),
    {
        match &self.failing_key {
            Some(failing) => text_eq(failing.as_str(), key),
            None => false,
        }
    }

    /// The failure on the failing key.
    fn failure() -> (error: BackendError)
        ensures
            error@ == failure_message(),
    {
        BackendError { message: String::from_str("the storage was told to fail on this key") }
    }

    /// The index of the record at the place, if there is one.
    fn position(&self, table: &str, key: &str) -> (found: Option<usize>)
        ensures
            match found {
                Some(i) => placed_at(self.records@, (table@, key@), i as int),
                None => forall|i: int| !placed_at(self.records@, (table@, key@), i),
            },
    {
        let mut i: usize = 0;
        while i < self.records.len()
            invariant
                i <= self.records.len(),
                forall|j: int| 0 <= j < i ==> !placed_at(self.records@, (table@, key@), j),
            decreases self.records.len() - i,
        {
            if text_eq(self.records[i].table.as_str(), table) && text_eq(
                self.records[i].key.as_str(),
                key,
            ) {
                return Some(i);
            }
            i += 1;
        }
        None
    }
}

impl Storage for InMemoryStore {
    fn put(&mut self, table: &str, key: &str, item: Item) -> (stored: Result<(), BackendError>)
        ensures
            (final(self)@, stored_view(stored)) == put_model(old(self)@, table@, key@, item@),
    {
        proof {
            use_type_invariant(&*self);
        }
        if self.fails_on(key) {
            return Err(Self::failure());
        }
        let found = self.position(table, key);
        let record = StoredRecord {
            table: String::from_str(table),
            key: String::from_str(key),
            item,
        };
        let mut records: Vec<StoredRecord> = Vec::new();
        std::mem::swap(&mut records, &mut self.records);
        let ghost before = records@;
        match found {
            Some(i) => {
                proof {
                    lemma_records_map_set(
                        before,
                        before.update(i as int, record),
                        record,
                        Some(i as int),
                    );
                }
                records.set(i, record);
            },
            None => {
                proof {
                    lemma_records_map_set(before, before.push(record), record, None);
                }
                records.push(record);
            },
        }
        self.records = records;
        Ok(())
    }

    fn get(&self, table: &str, key: &str) -> (fetched: Result<Item, GetError>)
        ensures
            fetched_view(fetched) == get_model(self@, table@, key@),
    {
        proof {
            use_type_invariant(self);
        }
        if self.fails_on(key) {
            return Err(GetError::Backend(Self::failure()));
        }
        match self.position(table, key) {
            Some(i) => {
                proof {
                    lemma_record_at(self.records@, (table@, key@), i as int);
                }
                Ok(self.records[i].item.clone())
            },
            None => Err(GetError::NotFound),
        }
    }

    fn query(&self, table: &str, field: &str, value: &str, limit: u64) -> (counted: Result<
        u64,
        BackendError,
    >)
        ensures
            counted_view(counted) == query_model(self@, table@, field@, value@, limit),
    {
        proof {
            use_type_invariant(self);
        }
        if self.fails_on(value) {
            return Err(Self::failure());
        }
        let mut count: u64 = 0;
        let mut i: usize = 0;
        assert(matches_among(self.records@, 0, table@, field@, value@) =~= Set::<Place>::empty());
        while i < self.records.len()
            invariant
                i <= self.records.len(),
                distinct_places(self.records@),
                matches_among(self.records@, i as int, table@, field@, value@).finite(),
                matches_among(self.records@, i as int, table@, field@, value@).len() <= i,
                count as nat == if matches_among(
                    self.records@,
                    i as int,
                    table@,
                    field@,
                    value@,
                ).len() <= limit {
                    matches_among(self.records@, i as int, table@, field@, value@).len()
                } else {
                    limit as nat
                },
            decreases self.records.len() - i,
        {
            proof {
                lemma_matches_step(self.records@, i as int, table@, field@, value@);
            }
            let record = &self.records[i];
            let hit = text_eq(record.table.as_str(), table) && match record.item.get(field) {
                Some(AttributeValue::S(text)) => text_eq(text.as_str(), value),
                _ => false,
            };
            if hit && count < limit {
                count += 1;
            }
            i += 1;
        }
        proof {
            lemma_matches_all(self.records@, table@, field@, value@);
        }
        Ok(count)
    }
}

} // verus!
