//! Laws of the handlers: what holds of every configuration, request and store.
//! The laws on requests speak of [`served`], which says what
//! [`crate::handler::serve`] returns and what it leaves in the store.

use crate::config::{HandlerConfig, WriteMode};
use crate::expiry::expiry_after;
use crate::handler::{
    expiry_of_write, finish_spec, handles, served, write_step, FailureView, StepView,
};
use crate::item::AttributeValueView;
use crate::json::{document, json_text, object_at, pick, skip_space, value_end, Pick};
use crate::payload::{free_form_payload, shaped_text, storable};
use crate::record::{expiry_attribute, payload_attribute, record_item, stored_payload};
use crate::request::Method;
use crate::response::{
    content_type, found_body, invalid_body, missing_body, written_body, ResponseView,
};
use crate::router::key_after;
use crate::storage::{GetErrorView, StorageCallView, StorageReplyView};
use crate::store::{get_model, put_model, StoreView};
use crate::text::decimal_text;
use vstd::prelude::*;
use vstd::utf8::*;

verus! {

/// A response with the content type that every response has.
pub open spec fn reply(status: u16, body: Seq<char>) -> ResponseView {
    ResponseView { status, content_type: content_type(), body }
}

/// A key under which nothing was written is not found, and a read of it is
/// answered with status 404 and a body that says that it does not exist.
pub proof fn law_unwritten_key_is_missing(
    config: HandlerConfig,
    store: StoreView,
    table: Seq<char>,
    key: Seq<char>,
)
    requires
        !store.records.contains_key((table, key)),
    ensures
        store.failing_key != Some(key) ==> get_model(store, table, key) == Err::<
            Map<Seq<char>, AttributeValueView>,
            GetErrorView,
        >(GetErrorView::NotFound),
        finish_spec(config, StorageReplyView::Fetched(get_model(store, table, key))) == Ok::<
            ResponseView,
            FailureView,
        >(reply(404, missing_body(config.id_field@))),
{
}

/// A read request for a key under which nothing was written is answered with
/// status 404 and a body that says that the key does not exist, and leaves the
/// store as it was.
pub proof fn law_read_of_unwritten_key(
    config: HandlerConfig,
    store: StoreView,
    path: Seq<char>,
    body: Seq<u8>,
    now: u64,
    key: Seq<char>,
)
    requires
        !(config.read_mode is Count),
        key_after(path, config.read_prefix_len as int) == Some(key),
        !store.records.contains_key((config.table_name@, key)),
    ensures
        served(config, store, Method::Get, path, body, now) == (
            store,
            Ok::<ResponseView, FailureView>(reply(404, missing_body(config.id_field@))),
        ),
{
    law_unwritten_key_is_missing(config, store, config.table_name@, key);
}

/// A get that follows a put on the same place answers with the item that was
/// put, unless the store was told to fail on the key.
pub proof fn law_put_then_get(
    store: StoreView,
    table: Seq<char>,
    key: Seq<char>,
    item: Map<Seq<char>, AttributeValueView>,
)
    requires
        store.failing_key != Some(key),
    ensures
        get_model(put_model(store, table, key, item).0, table, key) == Ok::<
            Map<Seq<char>, AttributeValueView>,
            GetErrorView,
        >(item),
{
}

/// The record that a write stores carries its payload unchanged.
pub proof fn law_record_carries_payload(
    id_field: Seq<char>,
    key: Seq<char>,
    payload: Seq<char>,
    expiry: Option<u64>,
)
    ensures
        stored_payload(record_item(id_field, key, payload_attribute(), payload, expiry)) == Some(
            payload,
        ),
{
    reveal_strlit("payload");
    reveal_strlit("expiry");
    assert(payload_attribute() != expiry_attribute()) by {
        assert(payload_attribute().len() != expiry_attribute().len());
    }
}

/// The payload that a free-form write stores is a JSON text, whatever the body
/// of the request was.
pub proof fn law_stored_payload_is_json(body: Seq<u8>)
    ensures
        json_text(encode_utf8(free_form_payload(body))),
{
    if storable(body) {
        decode_utf8_encode_utf8(body);
    } else {
        reveal_strlit("{}");
        let bytes = encode_utf8("{}"@);
        is_ascii_chars_encode_utf8("{}"@);
        assert(bytes.len() == 2 && bytes[0] == 0x7B && bytes[1] == 0x7D);
        assert(skip_space(bytes, 0) == 0);
        assert(skip_space(bytes, 1) == 1);
        assert(skip_space(bytes, 2) == 2);
        assert(object_at(bytes, 0, 128).is_some() && object_at(bytes, 0, 128).unwrap().1 == 2);
        assert(value_end(bytes, 0, 128) == Some(2int));
    }
}

/// Round trip: a write of a payload under a key is answered with status 200,
/// and a read of the key that follows it is answered with status 200 and the
/// payload that was written, unchanged. The payload must be a JSON text, the
/// store must not have been told to fail on the key, and the expiry must fit in
/// 64 bits.
pub proof fn law_write_then_read(
    config: HandlerConfig,
    store: StoreView,
    key: Seq<char>,
    payload: Seq<char>,
    write_path: Seq<char>,
    now: u64,
    read_path: Seq<char>,
    read_body: Seq<u8>,
    later: u64,
)
    requires
        config.write_mode is FreeForm,
        config.read_mode is Payload,
        storable(encode_utf8(payload)),
        key_after(write_path, config.write_prefix_len as int) == Some(key),
        key_after(read_path, config.read_prefix_len as int) == Some(key),
        store.failing_key != Some(key),
        config.expiring ==> expiry_after(now as int) <= u64::MAX,
    ensures
        ({
            let written = served(
                config,
                store,
                Method::Post,
                write_path,
                encode_utf8(payload),
                now,
            );
            &&& written.1 == Ok::<ResponseView, FailureView>(
                reply(200, written_body(config.backend@)),
            )
            &&& served(config, written.0, Method::Get, read_path, read_body, later) == (
                written.0,
                Ok::<ResponseView, FailureView>(
                    reply(200, found_body(config.id_field@, payload)),
                ),
            )
        }),
{
    encode_utf8_decode_utf8(payload);
    law_record_carries_payload(config.id_field@, key, payload, expiry_of_write(config, now));
}

/// Writing the same item to the same place twice leaves the store as writing it
/// once does, and is answered the same way.
pub proof fn law_put_is_idempotent(
    store: StoreView,
    table: Seq<char>,
    key: Seq<char>,
    item: Map<Seq<char>, AttributeValueView>,
)
    ensures
        put_model(put_model(store, table, key, item).0, table, key, item) == put_model(
            store,
            table,
            key,
            item,
        ),
{
    let once = put_model(store, table, key, item).0;
    let twice = put_model(once, table, key, item).0;
    assert(twice.records =~= once.records);
}

/// A write request that is repeated, with the same body at the same time, is
/// answered as it was the first time and leaves the store as the first left it.
pub proof fn law_write_twice(
    config: HandlerConfig,
    store: StoreView,
    path: Seq<char>,
    body: Seq<u8>,
    now: u64,
)
    ensures
        ({
            let once = served(config, store, Method::Post, path, body, now);
            served(config, once.0, Method::Post, path, body, now) == once
        }),
{
    match write_step(config, path, body, now) {
        StepView::Call(StorageCallView::Put { table, key, item }) => {
            law_put_is_idempotent(store, table, key, item);
        },
        _ => {},
    }
}

/// A put changes nothing at any other place.
pub proof fn law_put_leaves_other_places(
    store: StoreView,
    table: Seq<char>,
    key: Seq<char>,
    item: Map<Seq<char>, AttributeValueView>,
    other_table: Seq<char>,
    other_key: Seq<char>,
)
    requires
        (other_table, other_key) != (table, key),
    ensures
        get_model(put_model(store, table, key, item).0, other_table, other_key) == get_model(
            store,
            other_table,
            other_key,
        ),
{
}

/// A read request changes nothing in the store, and neither does a request
/// with a method that is not served.
pub proof fn law_read_changes_nothing(
    config: HandlerConfig,
    store: StoreView,
    method: Method,
    path: Seq<char>,
    body: Seq<u8>,
    now: u64,
)
    requires
        method != Method::Post,
    ensures
        served(config, store, method, path, body, now).0 == store,
{
}

/// Every response carries one of the three status codes 200, 400 and 404.
pub proof fn law_status_codes(
    config: HandlerConfig,
    store: StoreView,
    method: Method,
    path: Seq<char>,
    body: Seq<u8>,
    now: u64,
)
    ensures
        served(config, store, method, path, body, now).1 matches Ok(response) ==> response.status
            == 200 || response.status == 400 || response.status == 404,
{
}

/// True when `body` does not have the shape that a handler with one expected
/// member `field` asks for: it is no text, or the text is no JSON document made
/// of one object, or the object does not hold exactly one member `field` with a
/// string for its value.
pub open spec fn misshapen(body: Seq<u8>, field: Seq<char>) -> bool {
    ||| !valid_utf8(body)
    ||| document(body).is_none()
    ||| !(pick(document(body).unwrap(), encode_utf8(field)) matches Pick::One(Some(_)))
}

/// A write whose body does not have the expected shape is answered with
/// status 400 and the body `Invalid payload`, whatever the path, the time, the
/// store and the rest of the configuration are. Nothing is stored.
pub proof fn law_misshapen_body_is_invalid(
    config: HandlerConfig,
    store: StoreView,
    path: Seq<char>,
    body: Seq<u8>,
    now: u64,
)
    requires
        config.write_mode matches WriteMode::Shaped { field } && misshapen(body, field@),
    ensures
        write_step(config, path, body, now) == StepView::Reply(reply(400, invalid_body())),
        served(config, store, Method::Post, path, body, now) == (
            store,
            Ok::<ResponseView, FailureView>(reply(400, invalid_body())),
        ),
        forall|result: Result<ResponseView, FailureView>| #[trigger]
            handles(config, Method::Post, path, body, now, result) ==> result == Ok::<
                ResponseView,
                FailureView,
            >(reply(400, invalid_body())),
{
}

/// A body fails the validation of its shape exactly where it is misshapen.
pub proof fn law_shape_is_validated(body: Seq<u8>, field: Seq<char>)
    ensures
        shaped_text(body, field).is_none() == misshapen(body, field),
{
}

/// Where records expire, the record that a write stores expires one window
/// after the moment of the write, whatever the key and the payload are, and
/// that is later than the write.
pub proof fn law_expiry_is_write_time_plus_window(
    config: HandlerConfig,
    path: Seq<char>,
    body: Seq<u8>,
    now: u64,
)
    requires
        config.expiring,
        write_step(config, path, body, now) is Call,
    ensures
        expiry_after(now as int) == now + 600,
        expiry_of_write(config, now) == Some((now + 600) as u64),
        now < now + 600 <= u64::MAX,
        write_step(config, path, body, now) matches StepView::Call(
            StorageCallView::Put { item, .. },
        ) && item.contains_key(expiry_attribute()) && item[expiry_attribute()]
            == AttributeValueView::N(decimal_text((now + 600) as nat)),
{
}

} // verus!
