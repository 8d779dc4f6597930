use feature_toggles::filters::{list_flags, render, ListOptions};
use feature_toggles::storage::{Flag, MemStore, StorageError, Store};
use feature_toggles::wire::{encode_batch, encode_flag, encode_text, frame_batch, frame_flag};

fn flag(name: &str, service: &str, raw: &str, value: bool) -> Flag {
    Flag::new(name.to_string(), service.to_string(), raw.to_string(), value)
}

fn object(name: &str, service: &str, raw: &str, value: bool) -> serde_json::Value {
    let mut fields = serde_json::Map::new();
    fields.insert("name".to_string(), serde_json::Value::String(name.to_string()));
    fields.insert("serviceName".to_string(), serde_json::Value::String(service.to_string()));
    fields.insert("rawValue".to_string(), serde_json::Value::String(raw.to_string()));
    fields.insert("value".to_string(), serde_json::Value::Bool(value));
    serde_json::Value::Object(fields)
}

#[test]
fn text_becomes_a_json_string_literal() {
    assert_eq!(encode_text("beta").unwrap(), "\"beta\"");
    assert_eq!(encode_text("").unwrap(), "\"\"");
    assert_eq!(encode_text("a\"b").unwrap(), "\"a\\\"b\"");
    assert_eq!(encode_text("a\\b").unwrap(), "\"a\\\\b\"");
    assert_eq!(encode_text("line\nbreak\ttab").unwrap(), "\"line\\nbreak\\ttab\"");
    assert_eq!(encode_text("\u{1}").unwrap(), "\"\\u0001\"");
    assert_eq!(encode_text("caf\u{e9}").unwrap(), "\"caf\u{e9}\"");
}

#[test]
fn flag_object_is_framed_in_field_order() {
    assert_eq!(
        frame_flag("\"a\"", "\"x\"", "\"r\"", true),
        "{\"name\":\"a\",\"serviceName\":\"x\",\"rawValue\":\"r\",\"value\":true}"
    );
    assert_eq!(
        frame_flag("\"a\"", "\"\"", "\"\"", false),
        "{\"name\":\"a\",\"serviceName\":\"\",\"rawValue\":\"\",\"value\":false}"
    );
}

#[test]
fn batch_is_framed_as_an_array() {
    assert_eq!(frame_batch(&vec![]), "[]");
    assert_eq!(frame_batch(&vec!["{}".to_string()]), "[{}]");
    assert_eq!(
        frame_batch(&vec!["1".to_string(), "2".to_string(), "3".to_string()]),
        "[1,2,3]"
    );
}

#[test]
fn one_flag_as_json() {
    assert_eq!(
        encode_flag(&flag("beta", "", "true", true)).unwrap(),
        "{\"name\":\"beta\",\"serviceName\":\"\",\"rawValue\":\"true\",\"value\":true}"
    );
}

#[test]
fn flag_texts_are_escaped() {
    assert_eq!(
        encode_flag(&flag("a\"b", "x\\y", "p > 50%\n", false)).unwrap(),
        "{\"name\":\"a\\\"b\",\"serviceName\":\"x\\\\y\",\"rawValue\":\"p > 50%\\n\",\"value\":false}"
    );
}

#[test]
fn batch_as_json() {
    assert_eq!(encode_batch(&vec![]).unwrap(), "[]");
    assert_eq!(
        encode_batch(&vec![flag("a", "x", "true", true), flag("b", "", "false", false)]).unwrap(),
        "[{\"name\":\"a\",\"serviceName\":\"x\",\"rawValue\":\"true\",\"value\":true},\
         {\"name\":\"b\",\"serviceName\":\"\",\"rawValue\":\"false\",\"value\":false}]"
    );
}

#[test]
fn batch_json_reads_back_as_the_same_flags() {
    let text = encode_batch(&vec![
        flag("a \"quoted\" name", "svc", "{\"rule\": [1, 2]}", true),
        flag("b", "", "\u{7}\r\n", false),
    ])
    .unwrap();
    let read: serde_json::Value = serde_json::from_str(&text).unwrap();
    let wanted = serde_json::Value::Array(vec![
        object("a \"quoted\" name", "svc", "{\"rule\": [1, 2]}", true),
        object("b", "", "\u{7}\r\n", false),
    ]);
    assert_eq!(read, wanted);
}

#[test]
fn response_body_of_a_read() {
    let ok: Result<Vec<Flag>, StorageError> = Ok(vec![flag("beta", "", "true", true)]);
    assert_eq!(
        render(&ok).unwrap(),
        "[{\"name\":\"beta\",\"serviceName\":\"\",\"rawValue\":\"true\",\"value\":true}]"
    );
    let none: Result<Vec<Flag>, StorageError> = Ok(vec![]);
    assert_eq!(render(&none).unwrap(), "[]");
}

#[test]
fn response_body_of_a_failure_is_a_json_string() {
    let failed: Result<Vec<Flag>, StorageError> =
        Err(StorageError::Unreachable("connection \"refused\"".to_string()));
    assert_eq!(render(&failed).unwrap(), "\"connection \\\"refused\\\"\"");
    let malformed: Result<Vec<Flag>, StorageError> =
        Err(StorageError::Decode("missing field".to_string()));
    assert_eq!(render(&malformed).unwrap(), "\"missing field\"");
}

#[test]
fn request_scope() {
    assert_eq!(ListOptions { service_name: None }.into_service_name(), None);
    assert_eq!(ListOptions { service_name: Some(String::new()) }.into_service_name(), None);
    assert_eq!(
        ListOptions { service_name: Some("checkout".to_string()) }.into_service_name(),
        Some("checkout".to_string())
    );
}

#[test]
fn listing_request_is_answered_from_the_store() {
    let mut store = MemStore::new();
    store
        .store(vec![flag("a", "x", "true", true), flag("b", "", "false", false)], false)
        .unwrap();

    let for_y = list_flags(&store, ListOptions { service_name: Some("y".to_string()) }).unwrap();
    assert_eq!(
        for_y,
        "[{\"name\":\"b\",\"serviceName\":\"\",\"rawValue\":\"false\",\"value\":false}]"
    );

    let unscoped = list_flags(&store, ListOptions { service_name: None }).unwrap();
    let read: serde_json::Value = serde_json::from_str(&unscoped).unwrap();
    assert_eq!(read.as_array().unwrap().len(), 2);

    let empty_name = list_flags(&store, ListOptions { service_name: Some(String::new()) }).unwrap();
    let read: serde_json::Value = serde_json::from_str(&empty_name).unwrap();
    assert_eq!(read.as_array().unwrap().len(), 2);

    let for_x = list_flags(&store, ListOptions { service_name: Some("x".to_string()) }).unwrap();
    let read: serde_json::Value = serde_json::from_str(&for_x).unwrap();
    let listed = read.as_array().unwrap();
    assert_eq!(listed.len(), 2);
    assert!(listed.contains(&object("a", "x", "true", true)));
    assert!(listed.contains(&object("b", "", "false", false)));
}
