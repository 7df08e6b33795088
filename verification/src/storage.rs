//! The storage interface: what a handler needs of the table behind it, and the
//! calls and replies that pass between the two.

use crate::item::{AttributeValueView, Item};
use vstd::prelude::*;

verus! {

/// A failure of the backend, with the backend's own words.
#[derive(Debug, PartialEq, Eq)]
pub struct BackendError {
    pub message: String,
}

impl View for BackendError {
    type V = Seq<char>;

    open spec fn view(&self) -> Seq<char> {
        self.message@
    }
}

/// Why a record could not be fetched.
#[derive(Debug, PartialEq, Eq)]
pub enum GetError {
    /// The table holds no record under the key.
    NotFound,
    /// The backend failed.
    Backend(BackendError),
}

/// The mathematical value of a [`GetError`].
pub enum GetErrorView {
    NotFound,
    Backend(Seq<char>),
}

impl View for GetError {
    type V = GetErrorView;

    open spec fn view(&self) -> GetErrorView {
        match self {
            GetError::NotFound => GetErrorView::NotFound,
            GetError::Backend(error) => GetErrorView::Backend(error@),
        }
    }
}

/// What a handler needs of the table behind it. Nothing is promised of the
/// answers: a backend may fail at any call.
pub trait Storage {
    /// Stores `item` under `key`, in place of whatever the table held there.
    fn put(&mut self, table: &str, key: &str, item: Item) -> Result<(), BackendError>;

    /// Fetches the item stored under `key`.
    fn get(&self, table: &str, key: &str) -> Result<Item, GetError>;

    /// Counts the records whose attribute `field` is the text `value`, up to
    /// `limit`.
    fn query(&self, table: &str, field: &str, value: &str, limit: u64) -> Result<u64, BackendError>;
}

/// One call on the storage interface.
#[derive(Debug)]
pub enum StorageCall {
    Put { table: String, key: String, item: Item },
    Get { table: String, key: String },
    Query { table: String, field: String, value: String, limit: u64 },
}

/// The mathematical value of a [`StorageCall`].
pub enum StorageCallView {
    Put { table: Seq<char>, key: Seq<char>, item: Map<Seq<char>, AttributeValueView> },
    Get { table: Seq<char>, key: Seq<char> },
    Query { table: Seq<char>, field: Seq<char>, value: Seq<char>, limit: u64 },
}

impl View for StorageCall {
    type V = StorageCallView;

    open spec fn view(&self) -> StorageCallView {
        match self {
            StorageCall::Put { table, key, item } => StorageCallView::Put {
                table: table@,
                key: key@,
                item: item@,
            },
            StorageCall::Get { table, key } => StorageCallView::Get { table: table@, key: key@ },
            StorageCall::Query { table, field, value, limit } => StorageCallView::Query {
                table: table@,
                field: field@,
                value: value@,
                limit: *limit,
            },
        }
    }
}

/// The answer to one call on the storage interface.
#[derive(Debug)]
pub enum StorageReply {
    Stored(Result<(), BackendError>),
    Fetched(Result<Item, GetError>),
    Counted(Result<u64, BackendError>),
}

/// The mathematical value of a [`StorageReply`].
pub enum StorageReplyView {
    Stored(Result<(), Seq<char>>),
    Fetched(Result<Map<Seq<char>, AttributeValueView>, GetErrorView>),
    Counted(Result<u64, Seq<char>>),
}

/// The mathematical value of the answer to a put.
pub open spec fn stored_view(stored: Result<(), BackendError>) -> Result<(), Seq<char>> {
    match stored {
        Ok(_) => Ok(()),
        Err(error) => Err(error@),
    }
}

/// The mathematical value of the answer to a get.
pub open spec fn fetched_view(fetched: Result<Item, GetError>) -> Result<
    Map<Seq<char>, AttributeValueView>,
    GetErrorView,
> {
    match fetched {
        Ok(item) => Ok(item@),
        Err(error) => Err(error@),
    }
}

/// The mathematical value of the answer to a query.
pub open spec fn counted_view(counted: Result<u64, BackendError>) -> Result<u64, Seq<char>> {
    match counted {
        Ok(count) => Ok(count),
        Err(error) => Err(error@),
    }
}

impl View for StorageReply {
    type V = StorageReplyView;

    open spec fn view(&self) -> StorageReplyView {
        match self {
            StorageReply::Stored(stored) => StorageReplyView::Stored(stored_view(*stored)),
            StorageReply::Fetched(fetched) => StorageReplyView::Fetched(fetched_view(*fetched)),
            StorageReply::Counted(counted) => StorageReplyView::Counted(counted_view(*counted)),
        }
    }
}

/// True when `reply` is of the kind that answers `call`.
pub open spec fn answers(call: StorageCallView, reply: StorageReplyView) -> bool {
    match call {
        StorageCallView::Put { .. } => reply is Stored,
        StorageCallView::Get { .. } => reply is Fetched,
        StorageCallView::Query { .. } => reply is Counted,
    }
}

/// Makes `call` on `storage` and hands back what the storage answered.
pub fn perform<S: Storage>(storage: &mut S, call: StorageCall) -> (reply: StorageReply)
    ensures
        answers(call@, reply@),
{
    match call {
        StorageCall::Put { table, key, item } => StorageReply::Stored(
            storage.put(table.as_str(), key.as_str(), item),
        ),
        StorageCall::Get { table, key } => StorageReply::Fetched(
            storage.get(table.as_str(), key.as_str()),
        ),
        StorageCall::Query { table, field, value, limit } => StorageReply::Counted(
            storage.query(table.as_str(), field.as_str(), value.as_str(), limit),
        ),
    }
}

} // verus!
