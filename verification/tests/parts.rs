use kv_handlers::config::{HandlerConfig, ReadMode, WriteMode};
use kv_handlers::expiry::{expiry_at, EXPIRY_WINDOW_SECS};
use kv_handlers::item::{Attribute, AttributeValue, Item};
use kv_handlers::record::{build_record, payload_of};
use kv_handlers::request::Method;
use kv_handlers::response::{respond, Outcome, Response};
use kv_handlers::router::{resource_key, route, Operation};
use kv_handlers::text::{decimal, text_eq};

fn text(value: &str) -> AttributeValue {
    AttributeValue::S(value.to_string())
}

#[test]
fn post_writes_and_get_reads() {
    assert_eq!(route(Method::Post), Some(Operation::Write));
    assert_eq!(route(Method::Get), Some(Operation::Read));
    assert_eq!(route(Method::Other), None);
}

#[test]
fn key_is_the_path_without_its_prefix() {
    assert_eq!(resource_key("/abc", 1), Some("abc"));
    assert_eq!(resource_key("/client_id/abc", 11), Some("abc"));
    assert_eq!(resource_key("/payload/client-1", 9), Some("client-1"));
    assert_eq!(resource_key("/a/b/c?x=1", 1), Some("a/b/c?x=1"));
    assert_eq!(resource_key("/a%20b", 1), Some("a%20b"));
    assert_eq!(resource_key("/abc", 0), Some("/abc"));
}

#[test]
fn key_may_be_empty() {
    assert_eq!(resource_key("/", 1), Some(""));
    assert_eq!(resource_key("", 0), Some(""));
    assert_eq!(resource_key("/payload/", 9), Some(""));
}

#[test]
fn path_shorter_than_the_prefix_has_no_key() {
    assert_eq!(resource_key("", 1), None);
    assert_eq!(resource_key("/payload", 9), None);
    assert_eq!(resource_key("/abc", usize::MAX), None);
}

#[test]
fn prefix_that_ends_inside_a_character_has_no_key() {
    assert_eq!(resource_key("/\u{e9}t\u{e9}", 2), None);
    assert_eq!(resource_key("/\u{e9}t\u{e9}", 3), Some("t\u{e9}"));
    assert_eq!(resource_key("/\u{1f600}", 1), Some("\u{1f600}"));
    assert_eq!(resource_key("/\u{1f600}", 4), None);
    assert_eq!(resource_key("/\u{1f600}", 5), Some(""));
}

#[test]
fn expiry_is_ten_minutes_after_the_write() {
    assert_eq!(EXPIRY_WINDOW_SECS, 600);
    assert_eq!(expiry_at(0), Some(600));
    assert_eq!(expiry_at(1), Some(601));
    assert_eq!(expiry_at(1_700_000_000), Some(1_700_000_600));
}

#[test]
fn expiry_that_does_not_fit_is_none() {
    assert_eq!(expiry_at(u64::MAX - 600), Some(u64::MAX));
    assert_eq!(expiry_at(u64::MAX - 599), None);
    assert_eq!(expiry_at(u64::MAX), None);
}

#[test]
fn decimal_renders_numbers() {
    assert_eq!(decimal(0), "0");
    assert_eq!(decimal(7), "7");
    assert_eq!(decimal(9), "9");
    assert_eq!(decimal(10), "10");
    assert_eq!(decimal(605), "605");
    assert_eq!(decimal(1_700_000_600), "1700000600");
    assert_eq!(decimal(1_234_567_890), "1234567890");
    assert_eq!(decimal(u64::MAX), "18446744073709551615");
}

#[test]
fn text_eq_compares_texts() {
    assert!(text_eq("", ""));
    assert!(text_eq("payload", "payload"));
    assert!(text_eq("gr\u{fc}n", "gr\u{fc}n"));
    assert!(!text_eq("payload", "payloae"));
    assert!(!text_eq("payload", "payloa"));
    assert!(!text_eq("", "a"));
    assert!(!text_eq("gr\u{fc}n", "gr\u{fb}n"));
}

#[test]
fn item_holds_what_was_inserted() {
    let mut item = Item::new();
    assert_eq!(item.get("a"), None);
    item.insert("a".to_string(), text("1"));
    item.insert("b".to_string(), AttributeValue::N("2".to_string()));
    item.insert("c".to_string(), AttributeValue::Other);
    assert_eq!(item.get("a"), Some(&text("1")));
    assert_eq!(item.get("b"), Some(&AttributeValue::N("2".to_string())));
    assert_eq!(item.get("c"), Some(&AttributeValue::Other));
    assert_eq!(item.get("d"), None);
    assert_eq!(item.get(""), None);
}

#[test]
fn item_insert_replaces_the_value() {
    let mut item = Item::new();
    item.insert("a".to_string(), text("1"));
    item.insert("b".to_string(), text("2"));
    item.insert("a".to_string(), text("3"));
    assert_eq!(item.get("a"), Some(&text("3")));
    assert_eq!(item.get("b"), Some(&text("2")));
    assert_eq!(
        item.into_entries(),
        vec![
            Attribute { name: "a".to_string(), value: text("3") },
            Attribute { name: "b".to_string(), value: text("2") },
        ]
    );
}

#[test]
fn item_clone_holds_the_same() {
    let mut item = Item::new();
    item.insert("a".to_string(), text("1"));
    item.insert("b".to_string(), AttributeValue::Other);
    let mut copy = item.clone();
    copy.insert("a".to_string(), text("changed"));
    assert_eq!(item.get("a"), Some(&text("1")));
    assert_eq!(copy.get("a"), Some(&text("changed")));
    assert_eq!(copy.get("b"), Some(&AttributeValue::Other));
    assert_eq!(AttributeValue::N("5".to_string()).clone(), AttributeValue::N("5".to_string()));
}

#[test]
fn record_holds_key_content_and_expiry() {
    let item = build_record("client_id", "k1", "payload", "{\"a\": 1}", Some(1_700_000_600));
    assert_eq!(item.get("client_id"), Some(&text("k1")));
    assert_eq!(item.get("payload"), Some(&text("{\"a\": 1}")));
    assert_eq!(item.get("expiry"), Some(&AttributeValue::N("1700000600".to_string())));
    assert_eq!(item.into_entries().len(), 3);

    let plain = build_record("topic_id", "k2", "topic", "foo", None);
    assert_eq!(plain.get("topic_id"), Some(&text("k2")));
    assert_eq!(plain.get("topic"), Some(&text("foo")));
    assert_eq!(plain.get("expiry"), None);
}

#[test]
fn record_fields_that_share_a_name_keep_the_later_value() {
    let item = build_record("payload", "the-key", "payload", "the-content", None);
    assert_eq!(item.get("payload"), Some(&text("the-content")));
    let item = build_record("expiry", "the-key", "payload", "p", Some(1));
    assert_eq!(item.get("expiry"), Some(&AttributeValue::N("1".to_string())));
}

#[test]
fn payload_is_taken_from_the_item() {
    let item = build_record("client_id", "k", "payload", "[1, 2]", Some(9));
    assert_eq!(payload_of(&item), Some("[1, 2]".to_string()));

    let mut number = Item::new();
    number.insert("payload".to_string(), AttributeValue::N("12".to_string()));
    assert_eq!(payload_of(&number), Some("{}".to_string()));

    let mut other = Item::new();
    other.insert("payload".to_string(), AttributeValue::Other);
    assert_eq!(payload_of(&other), Some("{}".to_string()));

    assert_eq!(payload_of(&Item::new()), None);
    let unrelated = build_record("client_id", "k", "topic", "foo", None);
    assert_eq!(payload_of(&unrelated), None);
}

fn reply(status: u16, body: &str) -> Response {
    Response { status, content_type: "text/json".to_string(), body: body.to_string() }
}

#[test]
fn every_outcome_has_its_response() {
    assert_eq!(
        respond("client_id", "DDB", &Outcome::Written),
        reply(200, "{\"result\": \"posted result on DDB\"}")
    );
    assert_eq!(
        respond("client_id", "DDB", &Outcome::Found("{\"a\": [1]}".to_string())),
        reply(200, "{\"client_id\": \"exists\", \"payload\": {\"a\": [1]}}")
    );
    assert_eq!(
        respond("client_id", "DDB", &Outcome::Exists),
        reply(200, "{\"client_id\": \"exists\"}")
    );
    assert_eq!(
        respond("client_id", "DDB", &Outcome::Missing),
        reply(404, "{\"client_id\": \"doesn't exist\"}")
    );
    assert_eq!(respond("client_id", "DDB", &Outcome::Invalid), reply(400, "Invalid payload"));
    assert_eq!(
        respond("client_id", "DDB", &Outcome::Counted(5)),
        reply(200, "{\"stats\": \"5\"}")
    );
    assert_eq!(
        respond("client_id", "DDB", &Outcome::Counted(0)),
        reply(200, "{\"stats\": \"0\"}")
    );
}

#[test]
fn responses_name_the_identifier_and_the_backend() {
    assert_eq!(
        respond("topic_id", "S3", &Outcome::Written),
        reply(200, "{\"result\": \"posted result on S3\"}")
    );
    assert_eq!(
        respond("topic_id", "S3", &Outcome::Exists),
        reply(200, "{\"topic_id\": \"exists\"}")
    );
    assert_eq!(
        respond("topic_id", "S3", &Outcome::Missing),
        reply(404, "{\"topic_id\": \"doesn't exist\"}")
    );
    assert_eq!(
        respond("topic_id", "S3", &Outcome::Found(String::new())),
        reply(200, "{\"topic_id\": \"exists\", \"payload\": }")
    );
}

#[test]
fn client_payloads_configuration() {
    let config = HandlerConfig::client_payloads("some_table");
    assert_eq!(config.table_name, "some_table");
    assert_eq!(config.id_field, "client_id");
    assert_eq!(config.backend, "DDB");
    assert_eq!(config.write_prefix_len, 9);
    assert_eq!(config.read_prefix_len, 1);
    assert!(matches!(config.write_mode, WriteMode::FreeForm));
    assert!(matches!(config.read_mode, ReadMode::Payload));
    assert!(config.expiring);
}
