use glia_sdk::json::JsonNumber;
use glia_sdk::{GliaEvent, GliaOptions, Json, PhoenixFrame};

/// The `serde_json` value that a `Json` stands for.
fn to_value(j: &Json) -> serde_json::Value {
    match j {
        Json::Null => serde_json::Value::Null,
        Json::Bool(b) => serde_json::Value::Bool(*b),
        Json::Number(n) => serde_json::Value::Number(n.as_str().parse().expect("number text")),
        Json::Str(s) => serde_json::Value::String(s.clone()),
        Json::Array(items) => serde_json::Value::Array(items.iter().map(to_value).collect()),
        Json::Object(entries) => serde_json::Value::Object(
            entries.iter().map(|(k, v)| (k.clone(), to_value(v))).collect(),
        ),
    }
}

/// The `Json` that a `serde_json` value stands for.
fn from_value(v: serde_json::Value) -> Json {
    match v {
        serde_json::Value::Null => Json::Null,
        serde_json::Value::Bool(b) => Json::Bool(b),
        serde_json::Value::Number(n) => Json::Number(JsonNumber::parse(&n.to_string()).expect("number text")),
        serde_json::Value::String(s) => Json::Str(s),
        serde_json::Value::Array(items) => Json::Array(items.into_iter().map(from_value).collect()),
        serde_json::Value::Object(map) => {
            Json::Object(map.into_iter().map(|(k, v)| (k, from_value(v))).collect())
        }
    }
}

fn frame_text(frame: &PhoenixFrame) -> String {
    serde_json::to_string(&to_value(&frame.to_wire())).expect("Frame must serialize")
}

fn frame_of_text(text: &str) -> PhoenixFrame {
    let value: serde_json::Value = serde_json::from_str(text).expect("Frame must deserialize");
    PhoenixFrame::from_wire(from_value(value)).expect("Frame must deserialize")
}

fn object(entries: Vec<(&str, Json)>) -> Json {
    Json::Object(entries.into_iter().map(|(k, v)| (k.to_string(), v)).collect())
}

fn text(s: &str) -> Json {
    Json::Str(s.to_string())
}

#[test]
fn test_phoenix_frame_serialization() {
    let frame = PhoenixFrame::join("session:demo_app:user_123", "1");
    let json_str = frame_text(&frame);

    assert_eq!(
        json_str,
        r#"["1","1","session:demo_app:user_123","phx_join",{}]"#
    );
}

#[test]
fn test_phoenix_frame_deserialization() {
    let raw = r#"["1","1","session:demo_app:user_123","phx_reply",{"response":{},"status":"ok"}]"#;
    let frame = frame_of_text(raw);

    assert_eq!(frame.join_ref, Some("1".to_string()));
    assert_eq!(frame.reference, Some("1".to_string()));
    assert_eq!(frame.topic, "session:demo_app:user_123");
    assert_eq!(frame.event, "phx_reply");
    assert_eq!(frame.payload.get("status").unwrap(), &text("ok"));
}

#[test]
fn test_heartbeat_frame() {
    let hb = PhoenixFrame::heartbeat("42");
    let json_str = frame_text(&hb);
    assert_eq!(json_str, r#"[null,"42","phoenix","heartbeat",{}]"#);
}

#[test]
fn test_event_parsing() {
    let thinking_payload = object(vec![("content", text("Analyzing Kotlin AST..."))]);
    let event = GliaEvent::parse("thinking_delta", &thinking_payload).unwrap();
    assert_eq!(
        event,
        GliaEvent::ThinkingDelta {
            content: "Analyzing Kotlin AST...".to_string()
        }
    );

    let done_payload = object(vec![("text", text("package cl.zea\nclass SecureClient"))]);
    let event = GliaEvent::parse("done", &done_payload).unwrap();
    assert_eq!(
        event,
        GliaEvent::Done {
            text: "package cl.zea\nclass SecureClient".to_string()
        }
    );
}

#[test]
fn test_glia_options_url_builder() {
    let options = GliaOptions::new("ws://localhost:4003/socket/websocket", "mobile", "dev")
        .with_token("test_jwt_123");

    let url = options.build_url().unwrap();
    assert_eq!(url.scheme(), "ws");
    assert_eq!(url.host_str(), Some("localhost"));
    assert_eq!(url.port(), Some(4003));
    assert_eq!(url.path(), "/socket/websocket");

    let query: std::collections::HashMap<_, _> = url.query_pairs().into_owned().collect();
    assert_eq!(query.get("vsn").unwrap(), "2.0.0");
    assert_eq!(query.get("token").unwrap(), "test_jwt_123");
    assert_eq!(options.session_topic(), "session:mobile:dev");
}

#[test]
fn objects_compare_as_maps() {
    let a = object(vec![("b", text("2")), ("a", text("1"))]);
    let b = object(vec![("a", text("1")), ("b", text("2"))]);
    assert_eq!(a, b);
    let repeated = object(vec![("a", text("0")), ("b", text("2")), ("a", text("1"))]);
    assert_eq!(repeated, b);
    assert_eq!(repeated.get("a"), Some(&text("1")));
    let other = object(vec![("a", text("1")), ("b", text("3"))]);
    assert_ne!(a, other);
    let wider = object(vec![("a", text("1")), ("b", text("2")), ("c", Json::Null)]);
    assert_ne!(a, wider);
    assert_ne!(wider, a);
    assert_ne!(Json::Array(vec![text("1"), text("2")]), Json::Array(vec![text("2"), text("1")]));
}

#[test]
fn frame_text_round_trip_keeps_out_of_order_payload() {
    let payload = object(vec![("z", text("last")), ("a", Json::Array(vec![Json::Null, Json::Bool(true)]))]);
    let frame = PhoenixFrame::push("session:a:b", "run", "3", payload);
    let back = frame_of_text(&frame_text(&frame));
    assert_eq!(back, frame);
}
