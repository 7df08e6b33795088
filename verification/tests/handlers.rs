use kv_handlers::config::{HandlerConfig, ReadMode, WriteMode};
use kv_handlers::handler::{
    begin_read, begin_write, finish, function_handler, get_client_id, handle_at, post_client_id,
    write_time, Failure, Step,
};
use kv_handlers::item::{AttributeValue, Item};
use kv_handlers::request::{Method, Request};
use kv_handlers::storage::{BackendError, GetError, Storage, StorageCall, StorageReply};
use kv_handlers::store::InMemoryStore;

struct MockDynamoDbClient {}

impl Storage for MockDynamoDbClient {
    fn put(&mut self, _table: &str, key: &str, _item: Item) -> Result<(), BackendError> {
        println!("client_id {}", key);
        if key.eq("client_id-not-existing") {
            Err(BackendError { message: "Boom".to_string() })
        } else {
            Ok(())
        }
    }

    fn get(&self, _table: &str, key: &str) -> Result<Item, GetError> {
        println!("client_id {}", key);
        if key.eq("client_id-not-existing") {
            Err(GetError::Backend(BackendError { message: "Boom".to_string() }))
        } else {
            Ok(Item::new())
        }
    }

    fn query(
        &self,
        _table: &str,
        _field: &str,
        _value: &str,
        _limit: u64,
    ) -> Result<u64, BackendError> {
        Ok(5)
    }
}

fn request(method: Method, path: &str, body: &[u8]) -> Request {
    Request { method, path: path.to_string(), body: body.to_vec() }
}

fn existence_config(table: &str) -> HandlerConfig {
    let mut config = HandlerConfig::client_payloads(table);
    config.read_mode = ReadMode::Existence;
    config
}

fn topic_config(table: &str) -> HandlerConfig {
    let mut config = HandlerConfig::client_payloads(table);
    config.write_mode = WriteMode::Shaped { field: "topic".to_string() };
    config
}

fn count_config(table: &str) -> HandlerConfig {
    let mut config = HandlerConfig::client_payloads(table);
    config.id_field = "project_id".to_string();
    config.read_mode = ReadMode::Count { field: "project_id".to_string(), limit: 5 };
    config
}

#[test]
fn test_post_nominal() {
    let request = request(Method::Post, "/payload/some-client", b"{\"colour\": \"red\"}");
    let config = HandlerConfig::client_payloads("test_table_name");
    let mut mock_ddb_client = MockDynamoDbClient {};
    let response = post_client_id(&config, &request, &mut mock_ddb_client, 1_700_000_000)
        .expect("failed to handle request");

    assert_eq!(response.status, 200);
    assert_eq!(response.body, "{\"result\": \"posted result on DDB\"}");
}

#[test]
fn test_get_nominal() {
    let request = request(Method::Get, "/some-client", b"");
    let config = existence_config("test_table_name");
    let mut mock_ddb_client = MockDynamoDbClient {};
    let response = get_client_id(&config, &request, &mut mock_ddb_client)
        .expect("failed to handle request");

    assert_eq!(response.status, 200);
    assert_eq!(response.body, "{\"client_id\": \"exists\"}");
}

#[test]
fn test_get_client_id_does_not_exist() {
    let request = request(Method::Get, "/client_id-not-existing", b"");
    let config = HandlerConfig::client_payloads("test_table_name");
    let mut mock_ddb_client = MockDynamoDbClient {};
    let response = get_client_id(&config, &request, &mut mock_ddb_client)
        .expect("failed to handle request");

    assert_eq!(response.status, 404);
}

#[test]
fn get_of_failing_key_says_it_does_not_exist() {
    let request = request(Method::Get, "/client_id-not-existing", b"");
    let config = existence_config("test_table_name");
    let mut mock = MockDynamoDbClient {};
    let response = get_client_id(&config, &request, &mut mock).unwrap();
    assert_eq!(response.status, 404);
    assert_eq!(response.body, "{\"client_id\": \"doesn't exist\"}");
    assert_eq!(response.content_type, "text/json");
}

#[test]
fn topic_write_with_valid_body_is_posted() {
    let request = request(Method::Post, "/payload/abc", b"{\"topic\": \"foo\"}");
    let config = topic_config("topics");
    let mut mock = MockDynamoDbClient {};
    let response = handle_at(&config, &request, &mut mock, 10).unwrap();
    assert_eq!(response.status, 200);
    assert_eq!(response.body, "{\"result\": \"posted result on DDB\"}");
}

#[test]
fn topic_write_with_invalid_body_is_rejected() {
    let config = topic_config("topics");
    let mut store = InMemoryStore::new();
    let bodies: Vec<&[u8]> = vec![
        b"",
        b"not json",
        b"{\"topic\": \"foo\"",
        b"{\"other\": \"foo\"}",
        b"{\"topic\": 7}",
        b"[\"topic\"]",
        b"{\"topic\": \"foo\"} trailing",
        b"\xff\xfe",
    ];
    for body in bodies {
        let request = request(Method::Post, "/payload/abc", body);
        let response = handle_at(&config, &request, &mut store, 10).unwrap();
        assert_eq!(response.status, 400);
        assert_eq!(response.body, "Invalid payload");
    }
    let probe = request(Method::Get, "/abc", b"");
    let response = handle_at(&config, &probe, &mut store, 10).unwrap();
    assert_eq!(response.status, 404);
}

#[test]
fn invalid_body_is_rejected_before_the_path_is_looked_at() {
    let config = topic_config("topics");
    let request = request(Method::Post, "/", b"{}");
    match begin_write(&config, &request, 10) {
        Step::Reply(response) => {
            assert_eq!(response.status, 400);
            assert_eq!(response.body, "Invalid payload");
        },
        other => panic!("unexpected step {:?}", other),
    }
}

#[test]
fn count_query_reports_the_count() {
    let request = request(Method::Get, "/project-7", b"");
    let config = count_config("projects");
    let mut mock = MockDynamoDbClient {};
    let response = handle_at(&config, &request, &mut mock, 0).unwrap();
    assert_eq!(response.status, 200);
    assert_eq!(response.body, "{\"stats\": \"5\"}");
}

#[test]
fn unsupported_method_fails_the_invocation() {
    let request = request(Method::Other, "/abc", b"");
    let config = HandlerConfig::client_payloads("t");
    let mut store = InMemoryStore::new();
    assert_eq!(handle_at(&config, &request, &mut store, 0), Err(Failure::UnsupportedMethod));
    assert_eq!(function_handler(&config, &request, &mut store), Err(Failure::UnsupportedMethod));
}

#[test]
fn path_shorter_than_the_prefix_fails_the_invocation() {
    let config = HandlerConfig::client_payloads("t");
    let mut store = InMemoryStore::new();
    let short = request(Method::Post, "/payload", b"{}");
    assert_eq!(post_client_id(&config, &short, &mut store, 0), Err(Failure::KeyNotInPath));
    let empty = request(Method::Get, "", b"");
    assert_eq!(get_client_id(&config, &empty, &mut store), Err(Failure::KeyNotInPath));
    let exact = request(Method::Post, "/payload/", b"{}");
    assert_eq!(post_client_id(&config, &exact, &mut store, 0).unwrap().status, 200);
}

#[test]
fn write_then_read_returns_the_payload_unchanged() {
    let config = HandlerConfig::client_payloads("clients");
    let mut store = InMemoryStore::new();
    let payload = "{\"name\": \"caf\u{e9}\",  \"n\": [1, 2]}";
    let write = request(Method::Post, "/payload/client-1", payload.as_bytes());
    let written = handle_at(&config, &write, &mut store, 1_700_000_000).unwrap();
    assert_eq!(written.status, 200);
    let read = request(Method::Get, "/client-1", b"");
    let response = handle_at(&config, &read, &mut store, 1_700_000_100).unwrap();
    assert_eq!(response.status, 200);
    assert_eq!(
        response.body,
        format!("{{\"client_id\": \"exists\", \"payload\": {}}}", payload)
    );
    assert_eq!(response.content_type, "text/json");
}

#[test]
fn read_of_unwritten_key_is_not_found() {
    let config = HandlerConfig::client_payloads("clients");
    let mut store = InMemoryStore::new();
    let write = request(Method::Post, "/payload/client-1", b"{}");
    handle_at(&config, &write, &mut store, 5).unwrap();
    let read = request(Method::Get, "/client-2", b"");
    let response = handle_at(&config, &read, &mut store, 5).unwrap();
    assert_eq!(response.status, 404);
    assert_eq!(response.body, "{\"client_id\": \"doesn't exist\"}");
}

#[test]
fn body_that_is_no_text_is_stored_as_empty_object() {
    let config = HandlerConfig::client_payloads("clients");
    let mut store = InMemoryStore::new();
    let write = request(Method::Post, "/payload/k", &[0xff, 0x00, 0x80]);
    assert_eq!(handle_at(&config, &write, &mut store, 5).unwrap().status, 200);
    let read = request(Method::Get, "/k", b"");
    let response = handle_at(&config, &read, &mut store, 5).unwrap();
    assert_eq!(response.body, "{\"client_id\": \"exists\", \"payload\": {}}");
}

#[test]
fn write_stores_key_payload_and_expiry() {
    let config = HandlerConfig::client_payloads("clients");
    let write = request(Method::Post, "/payload/client-9", b"{\"a\": 1}");
    match begin_write(&config, &write, 1_700_000_000) {
        Step::Call(StorageCall::Put { table, key, item }) => {
            assert_eq!(table, "clients");
            assert_eq!(key, "client-9");
            assert_eq!(item.get("client_id"), Some(&AttributeValue::S("client-9".to_string())));
            assert_eq!(item.get("payload"), Some(&AttributeValue::S("{\"a\": 1}".to_string())));
            assert_eq!(item.get("expiry"), Some(&AttributeValue::N("1700000600".to_string())));
            assert_eq!(item.into_entries().len(), 3);
        },
        other => panic!("unexpected step {:?}", other),
    }
}

#[test]
fn expiry_does_not_depend_on_key_or_payload() {
    let config = HandlerConfig::client_payloads("clients");
    let mut seen: Vec<AttributeValue> = Vec::new();
    for (path, body) in [("/payload/a", "{}"), ("/payload/another-key", "{\"x\": [1, 2, 3]}")] {
        let write = request(Method::Post, path, body.as_bytes());
        match begin_write(&config, &write, 42) {
            Step::Call(StorageCall::Put { item, .. }) => {
                seen.push(item.get("expiry").unwrap().clone());
            },
            other => panic!("unexpected step {:?}", other),
        }
    }
    assert_eq!(seen, vec![AttributeValue::N("642".to_string()), AttributeValue::N("642".to_string())]);
}

#[test]
fn write_without_expiry_stores_no_expiry() {
    let mut config = HandlerConfig::client_payloads("clients");
    config.expiring = false;
    let write = request(Method::Post, "/payload/k", b"{}");
    match begin_write(&config, &write, u64::MAX) {
        Step::Call(StorageCall::Put { item, .. }) => {
            assert_eq!(item.get("expiry"), None);
            assert_eq!(item.into_entries().len(), 2);
        },
        other => panic!("unexpected step {:?}", other),
    }
}

#[test]
fn expiry_out_of_range_fails_the_invocation() {
    let config = HandlerConfig::client_payloads("clients");
    let write = request(Method::Post, "/payload/k", b"{}");
    match begin_write(&config, &write, u64::MAX - 599) {
        Step::Fail(failure) => assert_eq!(failure, Failure::ExpiryOutOfRange),
        other => panic!("unexpected step {:?}", other),
    }
    match begin_write(&config, &write, u64::MAX - 600) {
        Step::Call(StorageCall::Put { item, .. }) => {
            assert_eq!(
                item.get("expiry"),
                Some(&AttributeValue::N("18446744073709551615".to_string()))
            );
        },
        other => panic!("unexpected step {:?}", other),
    }
}

#[test]
fn shaped_write_stores_the_member_under_its_name() {
    let config = topic_config("topics");
    let write = request(Method::Post, "/payload/k", b" { \"n\": 1, \"topic\" : \"f\\u00f6o\" } ");
    match begin_write(&config, &write, 0) {
        Step::Call(StorageCall::Put { key, item, .. }) => {
            assert_eq!(key, "k");
            assert_eq!(item.get("topic"), Some(&AttributeValue::S("f\u{f6}o".to_string())));
            assert_eq!(item.get("payload"), None);
            assert_eq!(item.get("expiry"), Some(&AttributeValue::N("600".to_string())));
        },
        other => panic!("unexpected step {:?}", other),
    }
}

#[test]
fn read_steps_name_the_call() {
    let config = HandlerConfig::client_payloads("clients");
    let read = request(Method::Get, "/client-1", b"ignored");
    match begin_read(&config, &read) {
        Step::Call(StorageCall::Get { table, key }) => {
            assert_eq!(table, "clients");
            assert_eq!(key, "client-1");
        },
        other => panic!("unexpected step {:?}", other),
    }
    let counting = count_config("projects");
    let count = request(Method::Get, "/p-1", b"");
    match begin_read(&counting, &count) {
        Step::Call(StorageCall::Query { table, field, value, limit }) => {
            assert_eq!(table, "projects");
            assert_eq!(field, "project_id");
            assert_eq!(value, "p-1");
            assert_eq!(limit, 5);
        },
        other => panic!("unexpected step {:?}", other),
    }
}

#[test]
fn finish_maps_every_reply() {
    let config = HandlerConfig::client_payloads("clients");
    let boom = || BackendError { message: "Boom".to_string() };

    let stored = finish(&config, StorageReply::Stored(Ok(()))).unwrap();
    assert_eq!((stored.status, stored.body.as_str()), (200, "{\"result\": \"posted result on DDB\"}"));

    assert_eq!(finish(&config, StorageReply::Stored(Err(boom()))), Err(Failure::Backend(boom())));

    let mut item = Item::new();
    item.insert("payload".to_string(), AttributeValue::S("[1]".to_string()));
    let found = finish(&config, StorageReply::Fetched(Ok(item))).unwrap();
    assert_eq!((found.status, found.body.as_str()), (200, "{\"client_id\": \"exists\", \"payload\": [1]}"));

    let mut number = Item::new();
    number.insert("payload".to_string(), AttributeValue::N("12".to_string()));
    let defaulted = finish(&config, StorageReply::Fetched(Ok(number))).unwrap();
    assert_eq!(defaulted.body, "{\"client_id\": \"exists\", \"payload\": {}}");

    let bare = finish(&config, StorageReply::Fetched(Ok(Item::new()))).unwrap();
    assert_eq!((bare.status, bare.body.as_str()), (404, "{\"client_id\": \"doesn't exist\"}"));

    let missing = finish(&config, StorageReply::Fetched(Err(GetError::NotFound))).unwrap();
    assert_eq!((missing.status, missing.body.as_str()), (404, "{\"client_id\": \"doesn't exist\"}"));

    let failed = finish(&config, StorageReply::Fetched(Err(GetError::Backend(boom())))).unwrap();
    assert_eq!((failed.status, failed.body.as_str()), (404, "{\"client_id\": \"doesn't exist\"}"));

    let counted = finish(&config, StorageReply::Counted(Ok(12))).unwrap();
    assert_eq!((counted.status, counted.body.as_str()), (200, "{\"stats\": \"12\"}"));

    let uncounted = finish(&config, StorageReply::Counted(Err(boom()))).unwrap();
    assert_eq!(uncounted.status, 404);

    let existence = existence_config("clients");
    let exists = finish(&existence, StorageReply::Fetched(Ok(Item::new()))).unwrap();
    assert_eq!((exists.status, exists.body.as_str()), (200, "{\"client_id\": \"exists\"}"));
}

#[test]
fn failed_write_fails_the_invocation() {
    let config = HandlerConfig::client_payloads("clients");
    let mut mock = MockDynamoDbClient {};
    let write = request(Method::Post, "/payload/client_id-not-existing", b"{}");
    assert_eq!(
        post_client_id(&config, &write, &mut mock, 0),
        Err(Failure::Backend(BackendError { message: "Boom".to_string() }))
    );
}

#[test]
fn function_handler_stamps_the_write_with_the_clock() {
    let config = HandlerConfig::client_payloads("clients");
    let mut store = InMemoryStore::new();
    let before = write_time().unwrap();
    let write = request(Method::Post, "/payload/k", b"{}");
    assert_eq!(function_handler(&config, &write, &mut store).unwrap().status, 200);
    let after = write_time().unwrap();
    assert!(before > 1_600_000_000);
    let item = store.get("clients", "k").unwrap();
    match item.get("expiry") {
        Some(AttributeValue::N(digits)) => {
            let expiry: u64 = digits.parse().unwrap();
            assert!(before + 600 <= expiry && expiry <= after + 600);
        },
        other => panic!("unexpected expiry {:?}", other),
    }
    let read = request(Method::Get, "/k", b"");
    let response = function_handler(&config, &read, &mut store).unwrap();
    assert_eq!(response.body, "{\"client_id\": \"exists\", \"payload\": {}}");
}
