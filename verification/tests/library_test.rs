use glia_sdk::client::{GliaClient, JoinStep, RunStep};
use glia_sdk::events::{DynamicTool, GliaEvent, RunPayload};
use glia_sdk::error::UrlError;
use glia_sdk::json::{Json, JsonNumber};
use glia_sdk::options::GliaOptions;
use glia_sdk::protocol::frame::{FrameError, PhoenixFrame};
use glia_sdk::text::{decimal, same_text};
use glia_sdk::transport::{on_message, MessageKind, MessageStep};
use glia_sdk::GliaError;

fn object(entries: Vec<(&str, Json)>) -> Json {
    Json::Object(entries.into_iter().map(|(k, v)| (k.to_string(), v)).collect())
}

fn num(s: &str) -> Json {
    Json::Number(JsonNumber::parse(s).unwrap())
}

fn text(s: &str) -> Json {
    Json::Str(s.to_string())
}

fn joined_client() -> GliaClient {
    let mut client = GliaClient::new(GliaOptions::new("ws://localhost:4003/socket/websocket", "app", "me"));
    let _ = client.join_frame();
    let reply = PhoenixFrame::new(
        Some("1".to_string()),
        Some("1".to_string()),
        "session:app:me",
        "phx_reply",
        object(vec![("status", text("ok"))]),
    );
    assert_eq!(client.accept_join_reply(&reply), JoinStep::Joined);
    client
}

#[test]
fn wire_roundtrip_gives_the_frame_back() {
    let frame = PhoenixFrame::push(
        "session:a:b",
        "run",
        "7",
        object(vec![("message", text("hi")), ("n", num("3"))]),
    );
    let copy = frame.clone();
    assert_eq!(PhoenixFrame::from_wire(frame.into_wire()), Ok(copy));

    let join = PhoenixFrame::join("t", "9");
    assert_eq!(PhoenixFrame::from_wire(join.to_wire()), Ok(join));
}

#[test]
fn wire_form_is_a_five_element_array() {
    let wire = PhoenixFrame::heartbeat("42").into_wire();
    assert_eq!(
        wire,
        Json::Array(vec![Json::Null, text("42"), text("phoenix"), text("heartbeat"), Json::Object(vec![])])
    );
}

#[test]
fn canonical_wire_is_given_back() {
    let wire = Json::Array(vec![Json::Null, text("3"), text("topic"), text("event"), Json::Bool(true)]);
    let frame = PhoenixFrame::from_wire(wire.clone()).unwrap();
    assert_eq!(frame.into_wire(), wire);
}

#[test]
fn wrong_length_is_refused() {
    let wire = Json::Array(vec![Json::Null, Json::Null, text("t")]);
    let err = PhoenixFrame::from_wire(wire).unwrap_err();
    assert_eq!(err, FrameError::WrongLength(3));
    assert_eq!(err.message(), "Expected 5-element Phoenix v2 array, got 3 elements");
    let err = PhoenixFrame::from_wire(Json::Array(vec![])).unwrap_err();
    assert_eq!(err.message(), "Expected 5-element Phoenix v2 array, got 0 elements");
}

#[test]
fn non_array_is_refused() {
    let err = PhoenixFrame::from_wire(text("x")).unwrap_err();
    assert_eq!(err, FrameError::NotAnArray);
    assert_eq!(err.message(), "Expected 5-element Phoenix v2 array");
}

#[test]
fn non_text_parts_decode_as_absent_or_empty() {
    let wire = Json::Array(vec![
        num("1"),
        Json::Bool(false),
        Json::Null,
        Json::Array(vec![]),
        Json::Null,
    ]);
    let frame = PhoenixFrame::from_wire(wire).unwrap();
    assert_eq!(frame.join_ref, None);
    assert_eq!(frame.reference, None);
    assert_eq!(frame.topic, "");
    assert_eq!(frame.event, "");
    assert_eq!(frame.payload, Json::Null);
}

#[test]
fn event_fields_and_defaults() {
    let p = object(vec![("status", text("idle"))]);
    assert_eq!(GliaEvent::parse("status", &p), Some(GliaEvent::Status { status: "idle".to_string() }));
    assert_eq!(GliaEvent::parse("status", &object(vec![])), None);
    assert_eq!(GliaEvent::parse("status", &object(vec![("status", num("1"))])), None);
    assert_eq!(GliaEvent::parse("unknown", &p), None);
    assert_eq!(GliaEvent::parse("done", &Json::Null), Some(GliaEvent::Done { text: String::new() }));
    assert_eq!(
        GliaEvent::parse("error", &object(vec![])),
        Some(GliaEvent::Error { message: "Unknown error".to_string() })
    );
    assert_eq!(
        GliaEvent::parse("error", &object(vec![("message", text("boom"))])),
        Some(GliaEvent::Error { message: "boom".to_string() })
    );
    assert_eq!(
        GliaEvent::parse("message_delta", &object(vec![("content", text("#"))])),
        Some(GliaEvent::MessageDelta { content: "#".to_string() })
    );
    assert_eq!(
        GliaEvent::parse("tool_call", &object(vec![("name", text("grep"))])),
        Some(GliaEvent::ToolCall { name: "grep".to_string(), args: Json::Null })
    );
    assert_eq!(
        GliaEvent::parse("tool_result", &object(vec![("name", text("grep")), ("result", Json::Bool(true))])),
        Some(GliaEvent::ToolResult { name: "grep".to_string(), result: Json::Bool(true) })
    );
    assert_eq!(GliaEvent::parse("tool_result", &object(vec![("result", Json::Bool(true))])), None);
}

#[test]
fn terminal_events() {
    assert!(GliaEvent::Done { text: String::new() }.is_terminal());
    assert!(GliaEvent::Error { message: String::new() }.is_terminal());
    assert!(!GliaEvent::Status { status: String::new() }.is_terminal());
}

#[test]
fn json_get_takes_the_last_entry() {
    let j = object(vec![("a", text("1")), ("b", Json::Null), ("a", text("2"))]);
    assert_eq!(j.get("a"), Some(&text("2")));
    assert_eq!(j.get("b"), Some(&Json::Null));
    assert_eq!(j.get("c"), None);
    assert_eq!(text("x").get("a"), None);
    assert_eq!(text("x").as_str(), Some("x"));
    assert_eq!(Json::Null.as_str(), None);
    let nested = object(vec![("k", Json::Array(vec![Json::Null, object(vec![("z", Json::Bool(true))])]))]);
    assert_eq!(nested.clone(), nested);
}

#[test]
fn option_defaults_and_builders() {
    let d = GliaOptions::default();
    assert_eq!(d.gateway_url, "ws://localhost:4003/socket/websocket");
    assert_eq!(d.app_id, "default");
    assert_eq!(d.user_id, "system");
    assert_eq!(d.token, None);
    assert_eq!(d.vsn, "2.0.0");
    assert_eq!(d.default_system_prompt, None);
    assert!(d.params.is_empty());
    assert_eq!(d.heartbeat_secs, 30);
    let o = GliaOptions::new("ws://x", "a", "b").with_system_prompt("be brief").with_token("t");
    assert_eq!(o.default_system_prompt, Some("be brief".to_string()));
    assert_eq!(o.token, Some("t".to_string()));
    assert_eq!(o.gateway_url, "ws://x");
    assert_eq!(o.session_topic(), "session:a:b");
}

#[test]
fn url_query_keeps_existing_pairs_and_order() {
    let mut o = GliaOptions::new("wss://gw.example/socket?lang=fr#frag", "a", "b");
    o.params.push(("k".to_string(), "a b&c".to_string()));
    o.params.push(("z".to_string(), "1".to_string()));
    let url = o.build_url().unwrap();
    let pairs: Vec<(String, String)> = url.query_pairs().into_owned().collect();
    assert_eq!(
        pairs,
        vec![
            ("lang".to_string(), "fr".to_string()),
            ("vsn".to_string(), "2.0.0".to_string()),
            ("k".to_string(), "a b&c".to_string()),
            ("z".to_string(), "1".to_string()),
        ]
    );
    assert_eq!(url.fragment(), Some("frag"));
    assert_eq!(url.as_str(), "wss://gw.example/socket?lang=fr&vsn=2.0.0&k=a+b%26c&z=1#frag");
}

#[test]
fn url_query_separators() {
    let empty_query = GliaOptions::new("ws://h.example/p?#f", "a", "b").build_url().unwrap();
    assert_eq!(empty_query.as_str(), "ws://h.example/p?vsn=2.0.0#f");
    let no_query = GliaOptions::new("ws://h.example/p#f", "a", "b").with_token("é ~").build_url().unwrap();
    assert_eq!(no_query.as_str(), "ws://h.example/p?vsn=2.0.0&token=%C3%A9+%7E#f");
}

#[test]
fn inserting_a_parameter_replaces_one_of_the_same_name() {
    let mut o = GliaOptions::new("ws://gw.example/socket", "a", "b");
    assert_eq!(o.insert_param("k", "1"), None);
    assert_eq!(o.insert_param("m", "2"), None);
    assert_eq!(o.insert_param("k", "3"), Some("1".to_string()));
    assert_eq!(
        o.params,
        vec![("k".to_string(), "3".to_string()), ("m".to_string(), "2".to_string())]
    );
    let url = o.build_url().unwrap();
    assert_eq!(url.as_str(), "ws://gw.example/socket?vsn=2.0.0&k=3&m=2");
}

#[test]
fn invalid_gateway_url_is_refused() {
    let o = GliaOptions::new("not a url", "a", "b");
    assert_eq!(o.build_url().unwrap_err(), UrlError::RelativeUrlWithoutBase);
    let o = GliaOptions::new("ws://host:99999/", "a", "b");
    assert_eq!(o.build_url().unwrap_err(), UrlError::InvalidPort);
}

#[test]
fn join_frames_use_successive_references() {
    let mut client = GliaClient::new(GliaOptions::new("ws://x", "mobile", "dev"));
    assert_eq!(client.topic(), "session:mobile:dev");
    assert!(!client.is_joined());
    let first = client.join_frame();
    assert_eq!(first, PhoenixFrame::join("session:mobile:dev", "1"));
    let second = client.join_frame();
    assert_eq!(second.reference, Some("2".to_string()));
    assert_eq!(second.join_ref, Some("2".to_string()));
}

#[test]
fn join_replies() {
    let mut client = GliaClient::new(GliaOptions::new("ws://x", "a", "b"));
    let other_topic = PhoenixFrame::new(None, None, "session:x:y", "phx_reply", object(vec![("status", text("ok"))]));
    assert_eq!(client.accept_join_reply(&other_topic), JoinStep::Pending);
    let no_status = PhoenixFrame::new(None, None, "session:a:b", "phx_reply", object(vec![]));
    assert_eq!(client.accept_join_reply(&no_status), JoinStep::Pending);
    let other_event = PhoenixFrame::new(None, None, "session:a:b", "status", object(vec![("status", text("ok"))]));
    assert_eq!(client.accept_join_reply(&other_event), JoinStep::Pending);
    assert!(!client.is_joined());
    let refused = PhoenixFrame::new(None, None, "session:a:b", "phx_reply", object(vec![("status", text("error"))]));
    assert_eq!(client.accept_join_reply(&refused), JoinStep::Rejected { status: "error".to_string() });
    assert!(!client.is_joined());
    let ok = PhoenixFrame::new(None, None, "session:a:b", "phx_reply", object(vec![("status", text("ok"))]));
    assert_eq!(client.accept_join_reply(&ok), JoinStep::Joined);
    assert!(client.is_joined());
}

#[test]
fn join_errors() {
    match GliaClient::join_closed_error() {
        GliaError::ConnectionError(m) => assert_eq!(m, "Connection closed during channel join"),
        other => panic!("unexpected {:?}", other),
    }
    match GliaClient::join_rejected_error("error", "Object {}") {
        GliaError::JoinRejected(m) => assert_eq!(m, "Join rejected with status 'error': Object {}"),
        other => panic!("unexpected {:?}", other),
    }
}

#[test]
fn run_needs_a_joined_channel() {
    let mut client = GliaClient::new(GliaOptions::new("ws://x", "a", "b"));
    let r = client.begin_run("hello", None, vec![]);
    assert!(matches!(r, Err(GliaError::NotConnected)));
    // the reference was used up all the same
    assert_eq!(client.join_frame().reference, Some("2".to_string()));
}

#[test]
fn run_frame_payload() {
    let mut client = joined_client();
    let frame = client.begin_run("Fix it", Some("You are a security engineer"), vec![]).unwrap();
    assert_eq!(frame.join_ref, None);
    assert_eq!(frame.reference, Some("2".to_string()));
    assert_eq!(frame.topic, "session:app:me");
    assert_eq!(frame.event, "run");
    assert_eq!(
        frame.payload,
        object(vec![("message", text("Fix it")), ("system_prompt", text("You are a security engineer"))])
    );
}

#[test]
fn run_uses_the_default_prompt_and_tools() {
    let mut client = GliaClient::new(
        GliaOptions::new("ws://x", "app", "me").with_system_prompt("default prompt"),
    );
    let _ = client.join_frame();
    let ok = PhoenixFrame::new(None, None, "session:app:me", "phx_reply", object(vec![("status", text("ok"))]));
    let _ = client.accept_join_reply(&ok);
    let tool = DynamicTool {
        name: "scan".to_string(),
        description: "Scans".to_string(),
        parameters: object(vec![]),
        webhook_url: None,
    };
    let frame = client.begin_run("go", None, vec![tool]).unwrap();
    assert_eq!(
        frame.payload,
        object(vec![
            ("message", text("go")),
            ("system_prompt", text("default prompt")),
            (
                "tools",
                Json::Array(vec![object(vec![
                    ("name", text("scan")),
                    ("description", text("Scans")),
                    ("parameters", object(vec![])),
                ])])
            ),
        ])
    );
}

#[test]
fn payload_objects_leave_out_absent_fields() {
    let payload = RunPayload {
        message: "m".to_string(),
        system_prompt: None,
        tools: vec![],
        provider: Some("p".to_string()),
        model: Some("x".to_string()),
    };
    assert_eq!(
        payload.to_json(),
        object(vec![("message", text("m")), ("provider", text("p")), ("model", text("x"))])
    );
    let tool = DynamicTool {
        name: "n".to_string(),
        description: "d".to_string(),
        parameters: Json::Null,
        webhook_url: Some("https://hook".to_string()),
    };
    assert_eq!(
        tool.to_json(),
        object(vec![
            ("name", text("n")),
            ("description", text("d")),
            ("parameters", Json::Null),
            ("webhook_url", text("https://hook")),
        ])
    );
}

#[test]
fn run_frames_are_classified() {
    let client = joined_client();
    let delta = PhoenixFrame::new(None, None, "session:app:me", "thinking_delta", object(vec![("content", text("..."))]));
    assert_eq!(
        client.accept_run_frame(&delta),
        RunStep::Emit(GliaEvent::ThinkingDelta { content: "...".to_string() })
    );
    let done = PhoenixFrame::new(None, None, "session:app:me", "done", object(vec![("text", text("answer"))]));
    assert_eq!(client.accept_run_frame(&done), RunStep::Finish(GliaEvent::Done { text: "answer".to_string() }));
    let foreign = PhoenixFrame::new(None, None, "session:x:y", "done", object(vec![]));
    assert_eq!(client.accept_run_frame(&foreign), RunStep::Skip);
    let unknown = PhoenixFrame::new(None, None, "session:app:me", "presence_diff", object(vec![]));
    assert_eq!(client.accept_run_frame(&unknown), RunStep::Skip);
}

#[test]
fn run_outcome_of_events() {
    let events = vec![
        GliaEvent::ThinkingDelta { content: "a".to_string() },
        GliaEvent::Done { text: "// Secure refactored code\nclass SecureGliaOptions".to_string() },
        GliaEvent::Error { message: "late".to_string() },
    ];
    assert_eq!(
        GliaClient::run_outcome(&events).unwrap(),
        "// Secure refactored code\nclass SecureGliaOptions"
    );
    let failing = vec![GliaEvent::Error { message: "boom".to_string() }];
    match GliaClient::run_outcome(&failing) {
        Err(GliaError::ExecutionError(m)) => assert_eq!(m, "boom"),
        other => panic!("unexpected {:?}", other),
    }
    assert_eq!(GliaClient::run_outcome(&vec![]).unwrap(), "");
}

#[test]
fn decimal_text() {
    assert_eq!(decimal(0), "0");
    assert_eq!(decimal(42), "42");
    assert_eq!(decimal(u64::MAX), u64::MAX.to_string());
    assert!(same_text("ab", "ab"));
    assert!(!same_text("ab", "abc"));
}

#[test]
fn session_exchange_with_a_gateway() {
    let mut client = GliaClient::new(GliaOptions::new("ws://127.0.0.1:9/socket/websocket", "security", "microglia"));
    let join = client.join_frame();
    assert_eq!(join.event, "phx_join");

    let reply = PhoenixFrame::new(
        join.join_ref.clone(),
        join.reference.clone(),
        &join.topic,
        "phx_reply",
        object(vec![("status", text("ok")), ("response", object(vec![]))]),
    );
    assert_eq!(client.accept_join_reply(&reply), JoinStep::Joined);

    let run = client.begin_run("Fix OWASP M1 in GliaOptions.kt", Some("You are a security engineer"), vec![]).unwrap();
    assert_eq!(run.event, "run");

    let delta = PhoenixFrame::new(
        None,
        None,
        &run.topic,
        "thinking_delta",
        object(vec![("content", text("Analyzing security vulnerability in Kotlin..."))]),
    );
    let done = PhoenixFrame::new(
        None,
        None,
        &run.topic,
        "done",
        object(vec![("text", text("// Secure refactored code\nclass SecureGliaOptions"))]),
    );
    let mut events = Vec::new();
    for frame in [delta, done] {
        match client.accept_run_frame(&frame) {
            RunStep::Skip => {}
            RunStep::Emit(e) => events.push(e),
            RunStep::Finish(e) => {
                events.push(e);
                break;
            }
        }
    }
    assert_eq!(
        GliaClient::run_outcome(&events).unwrap(),
        "// Secure refactored code\nclass SecureGliaOptions"
    );
}

#[test]
fn url_keeps_scheme_authority_path_and_fragment() {
    let o = GliaOptions::new("wss://user@gw.example:8443/a/b#top", "x", "y").with_token("t k");
    let url = o.build_url().unwrap();
    assert_eq!(url.as_str(), "wss://user@gw.example:8443/a/b?vsn=2.0.0&token=t+k#top");
}

#[test]
fn json_number_grammar() {
    for ok in ["0", "-0", "12", "-3.25", "1e300", "1E+2", "2.5e-7", "10"] {
        let n = JsonNumber::parse(ok).unwrap();
        assert_eq!(n.as_str(), ok);
    }
    for bad in ["", "-", "01", "1.", ".5", "1e", "1e+", "+1", "0x10", "1.5.2", "NaN", " 1", "1 "] {
        assert!(JsonNumber::parse(bad).is_none(), "{}", bad);
    }
    assert_eq!(num("7").clone(), num("7"));
}

#[test]
fn heartbeats_when_idle_and_joined() {
    let mut fresh = GliaClient::new(GliaOptions::new("ws://x", "app", "me"));
    assert_eq!(fresh.on_idle(100), None);
    let mut client = joined_client();
    assert_eq!(client.on_idle(29), None);
    let hb = client.on_idle(30).unwrap();
    assert_eq!(hb, PhoenixFrame::heartbeat("2"));
    let hb = client.on_idle(31).unwrap();
    assert_eq!(hb.reference, Some("3".to_string()));
    let mut off = GliaOptions::new("ws://x", "app", "me");
    off.heartbeat_secs = 0;
    let mut quiet = GliaClient::new(off);
    let _ = quiet.join_frame();
    let ok = PhoenixFrame::new(None, None, "session:app:me", "phx_reply", object(vec![("status", text("ok"))]));
    let _ = quiet.accept_join_reply(&ok);
    assert_eq!(quiet.on_idle(1000), None);
}

#[test]
fn references_count_up_from_one() {
    let mut client = joined_client();
    let run = client.begin_run("a", None, vec![]).unwrap();
    let hb = client.on_idle(30).unwrap();
    let run2 = client.begin_run("b", None, vec![]).unwrap();
    assert_eq!(run.reference, Some("2".to_string()));
    assert_eq!(hb.reference, Some("3".to_string()));
    assert_eq!(run2.reference, Some("4".to_string()));
}

#[test]
fn repeated_parameter_names_send_the_last_value_once() {
    let mut o = GliaOptions::new("ws://gw.example/socket", "a", "b");
    o.params.push(("k".to_string(), "1".to_string()));
    o.params.push(("m".to_string(), "2".to_string()));
    o.params.push(("k".to_string(), "3".to_string()));
    let url = o.build_url().unwrap();
    assert_eq!(url.as_str(), "ws://gw.example/socket?vsn=2.0.0&m=2&k=3");
    let sent = o.handshake_params();
    assert_eq!(sent.len(), 3);
}

#[test]
fn transport_reads_each_message_kind() {
    assert_eq!(on_message(MessageKind::Text), MessageStep::Decode);
    assert_eq!(on_message(MessageKind::Close), MessageStep::Closed);
    assert_eq!(on_message(MessageKind::Ping), MessageStep::AnswerPing);
    assert_eq!(on_message(MessageKind::Pong), MessageStep::Ignore);
    assert_eq!(on_message(MessageKind::Binary), MessageStep::Ignore);
    assert_eq!(on_message(MessageKind::Raw), MessageStep::Ignore);
}
