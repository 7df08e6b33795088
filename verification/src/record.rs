//! Records as items: which attributes a write stores, and what a read takes from
//! the item that it fetched.

use crate::item::{AttributeValue, AttributeValueView, Item};
use crate::text::{decimal, decimal_text};
use vstd::prelude::*;
use vstd::string::*;

verus! {

/// Name of the attribute that holds the payload of a record.
pub open spec fn payload_attribute() -> Seq<char> {
    "payload"@
}

/// Name of the attribute that holds the expiry of a record.
pub open spec fn expiry_attribute() -> Seq<char> {
    "expiry"@
}

/// The item that a write stores: the key under `id_field`, the content under
/// `content_field` and, where the record expires, the expiry in decimal under
/// [`expiry_attribute`].
pub open spec fn record_item(
    id_field: Seq<char>,
    key: Seq<char>,
    content_field: Seq<char>,
    content: Seq<char>,
    expiry: Option<u64>,
) -> Map<Seq<char>, AttributeValueView> {
    let plain = Map::<Seq<char>, AttributeValueView>::empty().insert(
        id_field,
        AttributeValueView::S(key),
    ).insert(content_field, AttributeValueView::S(content));
    match expiry {
        Some(at) => plain.insert(
            expiry_attribute(),
            AttributeValueView::N(decimal_text(at as nat)),
        ),
        None => plain,
    }
}

/// Builds the item that a write stores.
pub fn build_record(
    id_field: &str,
    key: &str,
    content_field: &str,
    content: &str,
    expiry: Option<u64>,
) -> (item: Item)
    ensures
        item@ == record_item(id_field@, key@, content_field@, content@, expiry),
{
    let mut item = Item::new();
    item.insert(String::from_str(id_field), AttributeValue::S(String::from_str(key)));
    item.insert(String::from_str(content_field), AttributeValue::S(String::from_str(content)));
    match expiry {
        Some(at) => {
            item.insert(String::from_str("expiry"), AttributeValue::N(decimal(at)));
        },
        None => {},
    }
    item
}

/// The payload that an item carries: the text under [`payload_attribute`], the
/// empty object where the attribute holds something that is no text, and nothing
/// where the item has no such attribute.
pub open spec fn stored_payload(item: Map<Seq<char>, AttributeValueView>) -> Option<Seq<char>> {
    if item.contains_key(payload_attribute()) {
        match item[payload_attribute()] {
            AttributeValueView::S(text) => Some(text),
            _ => Some("{}"@),
        }
    } else {
        None
    }
}

/// Takes the payload from a fetched item.
pub fn payload_of(item: &Item) -> (payload: Option<String>)
    ensures
        match payload {
            Some(text) => stored_payload(item@) == Some(text@),
            None => stored_payload(item@).is_none(),
        },
{
    match item.get("payload") {
        Some(AttributeValue::S(text)) => Some(text.clone()),
        Some(_) => Some(String::from_str("{}")),
        None => None,
    }
}

} // verus!
