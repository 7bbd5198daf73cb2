use livekit_monitor::json::{is_json_default, mark_disconnected, merge_room_json};
use livekit_monitor::session_store::SessionStore;

#[test]
fn defaults_are_zero_empty_false_and_null() {
    for v in ["0", "0.0", "-0.0", "\"\"", "false", "null"] {
        assert!(is_json_default(v), "{v}");
    }
    for v in ["1", "0.5", "\" \"", "true", "{}", "[]"] {
        assert!(!is_json_default(v), "{v}");
    }
}

#[test]
fn merge_keeps_stored_fields_that_arrive_as_defaults() {
    let stored = "{\"a\":1,\"b\":\"x\",\"c\":true}";
    let incoming = "{\"a\":0,\"b\":\"\",\"c\":false,\"d\":2}";
    assert_eq!(merge_room_json(Some(stored), incoming).unwrap(), "{\"a\":1,\"b\":\"x\",\"c\":true,\"d\":2}");
}

#[test]
fn merge_replaces_stored_fields_with_given_ones() {
    let stored = "{\"a\":1,\"b\":\"x\"}";
    let incoming = "{\"a\":5,\"b\":null}";
    assert_eq!(merge_room_json(Some(stored), incoming).unwrap(), "{\"a\":5,\"b\":\"x\"}");
}

#[test]
fn zero_floats_count_as_defaults() {
    let stored = "{\"a\":1}";
    assert_eq!(merge_room_json(Some(stored), "{\"a\":0.0}").unwrap(), "{\"a\":1}");
    assert_eq!(merge_room_json(Some(stored), "{\"a\":-0}").unwrap(), "{\"a\":1}");
    assert_eq!(merge_room_json(Some(stored), "{\"a\":1e-400}").unwrap(), "{\"a\":1}");
    assert_eq!(merge_room_json(Some(stored), "{\"a\":0.25}").unwrap(), "{\"a\":0.25}");
}

#[test]
fn merge_without_readable_stored_value_takes_incoming() {
    assert_eq!(merge_room_json(None, "{ \"a\" : 0 }").unwrap(), "{\"a\":0}");
    assert_eq!(merge_room_json(Some("not json"), "{\"a\":0}").unwrap(), "{\"a\":0}");
}

#[test]
fn merge_keeps_stored_value_when_either_is_not_an_object() {
    assert_eq!(merge_room_json(Some("[1, 2]"), "{\"a\":1}").unwrap(), "[1,2]");
    assert_eq!(merge_room_json(Some("{\"a\":1}"), "[3]").unwrap(), "{\"a\":1}");
}

#[test]
fn merge_refuses_incoming_text_that_is_not_json() {
    match merge_room_json(Some("{\"a\":1}"), "{oops") {
        Err(m) => assert!(m.starts_with("failed to parse incoming room json: "), "{m}"),
        Ok(j) => panic!("unexpected {j}"),
    }
}

#[test]
fn store_refuses_room_detail_that_is_not_json() {
    let mut store = SessionStore::new();
    store.save_room_detail_at("demo", "{\"a\":1}", 10).unwrap();
    assert!(store.save_room_detail_at("demo", "nope", 20).is_err());
    assert_eq!(store.get_room_detail("demo"), Some("{\"a\":1}".to_string()));
    store.save_room_detail_at("demo", "{\"a\":0,\"b\":2}", 30).unwrap();
    assert_eq!(store.get_room_detail("demo"), Some("{\"a\":1,\"b\":2}".to_string()));
}

#[test]
fn disconnected_participants_get_state_three() {
    assert_eq!(mark_disconnected("{\"identity\":\"a\",\"state\":2}").unwrap(), "{\"identity\":\"a\",\"state\":3}");
    assert_eq!(mark_disconnected("{\"identity\":\"a\"}").unwrap(), "{\"identity\":\"a\",\"state\":3}");
    assert_eq!(mark_disconnected("[1]").unwrap(), "[1]");
    assert_eq!(mark_disconnected("bad"), None);
}
