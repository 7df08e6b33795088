use kv_handlers::config::HandlerConfig;
use kv_handlers::handler::{handle_at, serve, Failure};
use kv_handlers::item::{AttributeValue, Item};
use kv_handlers::record::build_record;
use kv_handlers::request::{Method, Request};
use kv_handlers::storage::{perform, BackendError, GetError, Storage, StorageCall, StorageReply};
use kv_handlers::store::InMemoryStore;

fn record(key: &str, payload: &str) -> Item {
    build_record("client_id", key, "payload", payload, Some(1_000))
}

fn project(key: &str, project: &str) -> Item {
    let mut item = Item::new();
    item.insert("client_id".to_string(), AttributeValue::S(key.to_string()));
    item.insert("project_id".to_string(), AttributeValue::S(project.to_string()));
    item
}

fn failure() -> BackendError {
    BackendError { message: "the storage was told to fail on this key".to_string() }
}

#[test]
fn unwritten_key_is_not_found() {
    let mut store = InMemoryStore::new();
    assert_eq!(store.get("t", "k").err(), Some(GetError::NotFound));
    store.put("t", "k", record("k", "{}")).unwrap();
    assert_eq!(store.get("t", "other").err(), Some(GetError::NotFound));
    assert_eq!(store.get("t", "").err(), Some(GetError::NotFound));
    assert_eq!(store.get("other", "k").err(), Some(GetError::NotFound));
}

#[test]
fn put_then_get_returns_the_item() {
    let mut store = InMemoryStore::new();
    assert_eq!(store.put("t", "k", record("k", "{\"a\": 1}")), Ok(()));
    let item = store.get("t", "k").unwrap();
    assert_eq!(item.get("payload"), Some(&AttributeValue::S("{\"a\": 1}".to_string())));
    assert_eq!(item.get("client_id"), Some(&AttributeValue::S("k".to_string())));
    assert_eq!(item.get("expiry"), Some(&AttributeValue::N("1000".to_string())));
    assert_eq!(item.into_entries().len(), 3);
}

#[test]
fn put_overwrites_and_does_not_merge() {
    let mut store = InMemoryStore::new();
    store.put("t", "k", record("k", "first")).unwrap();
    let mut second = Item::new();
    second.insert("payload".to_string(), AttributeValue::S("second".to_string()));
    store.put("t", "k", second).unwrap();
    let item = store.get("t", "k").unwrap();
    assert_eq!(item.get("payload"), Some(&AttributeValue::S("second".to_string())));
    assert_eq!(item.get("expiry"), None);
    assert_eq!(item.get("client_id"), None);
}

#[test]
fn put_twice_is_put_once() {
    let mut once = InMemoryStore::new();
    once.put("t", "a", project("a", "p")).unwrap();
    once.put("t", "k", project("k", "p")).unwrap();
    let mut twice = InMemoryStore::new();
    twice.put("t", "a", project("a", "p")).unwrap();
    twice.put("t", "k", project("k", "p")).unwrap();
    twice.put("t", "k", project("k", "p")).unwrap();
    for key in ["a", "k", "z"] {
        assert_eq!(
            once.get("t", key).map(Item::into_entries),
            twice.get("t", key).map(Item::into_entries)
        );
    }
    assert_eq!(once.query("t", "project_id", "p", 100), Ok(2));
    assert_eq!(twice.query("t", "project_id", "p", 100), Ok(2));
}

#[test]
fn put_leaves_other_places_alone() {
    let mut store = InMemoryStore::new();
    store.put("t", "a", record("a", "1")).unwrap();
    store.put("u", "a", record("a", "2")).unwrap();
    store.put("t", "b", record("b", "3")).unwrap();
    store.put("t", "a", record("a", "4")).unwrap();
    let payload = |item: Item| item.get("payload").cloned();
    assert_eq!(store.get("t", "a").ok().and_then(payload), Some(AttributeValue::S("4".to_string())));
    assert_eq!(store.get("u", "a").ok().and_then(payload), Some(AttributeValue::S("2".to_string())));
    assert_eq!(store.get("t", "b").ok().and_then(payload), Some(AttributeValue::S("3".to_string())));
}

#[test]
fn failing_key_fails_every_call() {
    let mut store = InMemoryStore::failing_on("client_id-not-existing");
    assert_eq!(store.put("t", "client_id-not-existing", record("x", "{}")), Err(failure()));
    assert_eq!(store.get("t", "client_id-not-existing").err(), Some(GetError::Backend(failure())));
    assert_eq!(store.query("t", "project_id", "client_id-not-existing", 5), Err(failure()));
    assert_eq!(store.put("t", "fine", record("fine", "{}")), Ok(()));
    assert!(store.get("t", "fine").is_ok());
    assert_eq!(store.query("t", "project_id", "fine", 5), Ok(0));
}

#[test]
fn failing_key_through_the_handler() {
    let config = HandlerConfig::client_payloads("t");
    let mut store = InMemoryStore::failing_on("client_id-not-existing");
    let read = Request {
        method: Method::Get,
        path: "/client_id-not-existing".to_string(),
        body: Vec::new(),
    };
    let response = handle_at(&config, &read, &mut store, 0).unwrap();
    assert_eq!(response.status, 404);
    assert_eq!(response.body, "{\"client_id\": \"doesn't exist\"}");
}

#[test]
fn query_counts_the_matching_records() {
    let mut store = InMemoryStore::new();
    assert_eq!(store.query("t", "project_id", "p1", 5), Ok(0));
    store.put("t", "a", project("a", "p1")).unwrap();
    store.put("t", "b", project("b", "p2")).unwrap();
    store.put("t", "c", project("c", "p1")).unwrap();
    store.put("u", "d", project("d", "p1")).unwrap();
    store.put("t", "e", record("e", "p1")).unwrap();
    let mut number = Item::new();
    number.insert("project_id".to_string(), AttributeValue::N("p1".to_string()));
    store.put("t", "f", number).unwrap();
    assert_eq!(store.query("t", "project_id", "p1", 5), Ok(2));
    assert_eq!(store.query("t", "project_id", "p2", 5), Ok(1));
    assert_eq!(store.query("t", "project_id", "p3", 5), Ok(0));
    assert_eq!(store.query("u", "project_id", "p1", 5), Ok(1));
    assert_eq!(store.query("t", "client_id", "a", 5), Ok(1));
    store.put("t", "a", project("a", "p2")).unwrap();
    assert_eq!(store.query("t", "project_id", "p1", 5), Ok(1));
    assert_eq!(store.query("t", "project_id", "p2", 5), Ok(2));
}

#[test]
fn query_stops_at_the_limit() {
    let mut store = InMemoryStore::new();
    for i in 0..8 {
        store.put("t", &format!("k{}", i), project("k", "p")).unwrap();
    }
    assert_eq!(store.query("t", "project_id", "p", 5), Ok(5));
    assert_eq!(store.query("t", "project_id", "p", 8), Ok(8));
    assert_eq!(store.query("t", "project_id", "p", 9), Ok(8));
    assert_eq!(store.query("t", "project_id", "p", 0), Ok(0));
    assert_eq!(store.query("t", "project_id", "p", u64::MAX), Ok(8));
}

#[test]
fn perform_makes_the_call_that_it_is_given() {
    let mut store = InMemoryStore::new();
    let put = StorageCall::Put {
        table: "t".to_string(),
        key: "k".to_string(),
        item: project("k", "p"),
    };
    assert!(matches!(perform(&mut store, put), StorageReply::Stored(Ok(()))));
    let get = StorageCall::Get { table: "t".to_string(), key: "k".to_string() };
    match perform(&mut store, get) {
        StorageReply::Fetched(Ok(item)) => {
            assert_eq!(item.get("project_id"), Some(&AttributeValue::S("p".to_string())));
        },
        other => panic!("unexpected reply {:?}", other),
    }
    let missing = StorageCall::Get { table: "t".to_string(), key: "none".to_string() };
    assert!(matches!(perform(&mut store, missing), StorageReply::Fetched(Err(GetError::NotFound))));
    let query = StorageCall::Query {
        table: "t".to_string(),
        field: "project_id".to_string(),
        value: "p".to_string(),
        limit: 5,
    };
    assert!(matches!(perform(&mut store, query), StorageReply::Counted(Ok(1))));
}

#[test]
fn serve_runs_a_request_on_the_store() {
    let config = HandlerConfig::client_payloads("clients");
    let mut store = InMemoryStore::new();
    let read = Request { method: Method::Get, path: "/k".to_string(), body: Vec::new() };
    let write = Request {
        method: Method::Post,
        path: "/payload/k".to_string(),
        body: b"{\"n\": 1}".to_vec(),
    };

    let missing = serve(&config, &read, &mut store, 10).unwrap();
    assert_eq!((missing.status, missing.body.as_str()), (404, "{\"client_id\": \"doesn't exist\"}"));

    let written = serve(&config, &write, &mut store, 10).unwrap();
    assert_eq!((written.status, written.body.as_str()), (200, "{\"result\": \"posted result on DDB\"}"));

    let found = serve(&config, &read, &mut store, 11).unwrap();
    assert_eq!(
        (found.status, found.body.as_str()),
        (200, "{\"client_id\": \"exists\", \"payload\": {\"n\": 1}}")
    );

    let again = serve(&config, &write, &mut store, 10).unwrap();
    assert_eq!(again, written);
    assert_eq!(serve(&config, &read, &mut store, 12).unwrap(), found);
    assert_eq!(store.query("clients", "client_id", "k", 5), Ok(1));

    let other = Request { method: Method::Other, path: "/k".to_string(), body: Vec::new() };
    assert_eq!(serve(&config, &other, &mut store, 0), Err(Failure::UnsupportedMethod));
}

#[test]
fn serve_fails_a_write_on_the_failing_key() {
    let config = HandlerConfig::client_payloads("clients");
    let mut store = InMemoryStore::failing_on("bad");
    let write = Request { method: Method::Post, path: "/payload/bad".to_string(), body: Vec::new() };
    assert_eq!(serve(&config, &write, &mut store, 0), Err(Failure::Backend(failure())));
    let read = Request { method: Method::Get, path: "/bad".to_string(), body: Vec::new() };
    assert_eq!(serve(&config, &read, &mut store, 0).unwrap().status, 404);
}

#[test]
fn answer_makes_the_call_on_the_store() {
    let mut store = InMemoryStore::new();
    let put = StorageCall::Put {
        table: "t".to_string(),
        key: "k".to_string(),
        item: project("k", "p"),
    };
    assert!(matches!(store.answer(put), StorageReply::Stored(Ok(()))));
    let get = StorageCall::Get { table: "t".to_string(), key: "k".to_string() };
    assert!(matches!(store.answer(get), StorageReply::Fetched(Ok(_))));
    let query = StorageCall::Query {
        table: "t".to_string(),
        field: "project_id".to_string(),
        value: "p".to_string(),
        limit: 5,
    };
    assert!(matches!(store.answer(query), StorageReply::Counted(Ok(1))));
}
