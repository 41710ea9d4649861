use chat_core::event::{encode_event, EventKind};

fn s(text: &str) -> String {
    text.to_string()
}

#[test]
fn join_event_exact_text() {
    let out = encode_event(EventKind::Join, None, &s("alice"));
    assert_eq!(out, "{\"type\":\"join\",\"username\":\"alice\"}");
}

#[test]
fn leave_event_exact_text() {
    let out = encode_event(EventKind::Leave, None, &s("bob"));
    assert_eq!(out, "{\"type\":\"leave\",\"username\":\"bob\"}");
}

#[test]
fn message_event_exact_text() {
    let out = encode_event(EventKind::Message, Some(&s("Hello, Bob!")), &s("alice"));
    assert_eq!(
        out,
        "{\"type\":\"message\",\"value\":\"Hello, Bob!\",\"username\":\"alice\"}"
    );
}

#[test]
fn error_event_omits_empty_username() {
    let out = encode_event(EventKind::Error, Some(&s("Invalid JSON")), &s(""));
    assert_eq!(out, "{\"type\":\"error\",\"value\":\"Invalid JSON\"}");
}

#[test]
fn rooms_update_event_carries_only_its_tag() {
    let out = encode_event(EventKind::UpdateRoomsList, None, &s(""));
    assert_eq!(out, "{\"type\":\"update-rooms-list\"}");
}

#[test]
fn empty_value_is_kept_distinct_from_no_value() {
    let with_empty = encode_event(EventKind::Message, Some(&s("")), &s("Server"));
    assert_eq!(
        with_empty,
        "{\"type\":\"message\",\"value\":\"\",\"username\":\"Server\"}"
    );
    let without = encode_event(EventKind::Message, None, &s("Server"));
    assert_eq!(without, "{\"type\":\"message\",\"username\":\"Server\"}");
}

#[test]
fn escaping_quotes_backslashes_and_controls() {
    let tricky = s("say \"hi\"\\\n\tdone\u{8}\u{c}\r\u{1f}");
    let out = encode_event(EventKind::Message, Some(&tricky), &s("a"));
    assert_eq!(
        out,
        "{\"type\":\"message\",\"value\":\"say \\\"hi\\\"\\\\\\n\\tdone\\b\\f\\r\\u001f\",\"username\":\"a\"}"
    );
}

#[test]
fn encoded_events_parse_back_with_the_same_fields() {
    let value = s("quote \" backslash \\ newline \n unicode \u{1b} text é😀");
    let username = s("alice");
    let out = encode_event(EventKind::Message, Some(&value), &username);
    let parsed: serde_json::Value = serde_json::from_str(&out).expect("encoder must emit valid JSON");
    assert_eq!(parsed.get("type").and_then(|v| v.as_str()), Some("message"));
    assert_eq!(
        parsed.get("value").and_then(|v| v.as_str()),
        Some(value.as_str())
    );
    assert_eq!(
        parsed.get("username").and_then(|v| v.as_str()),
        Some(username.as_str())
    );
}
