use pcurl::json::JsonValue;
use pcurl::mcp::build_request_body;
use pcurl::mcp::{
    build_json_rpc_body, build_session_url, choose_session, generate_session_id, is_post_accepted,
    match_response, mcp_curl_args, session_from_endpoint, session_id_from_nanos, RequestIds,
    SseEvent, SseParser,
};

#[test]
fn test_build_json_rpc_body() {
    let body = build_json_rpc_body("tools/call", r#"{"name":"test"}"#);
    assert_eq!(
        body,
        r#"{"jsonrpc":"2.0","id":1,"method":"tools/call","params":{"name":"test"}}"#
    );
}

#[test]
fn test_build_json_rpc_body_empty_params() {
    let body = build_json_rpc_body("resources/list", "{}");
    assert_eq!(
        body,
        r#"{"jsonrpc":"2.0","id":1,"method":"resources/list","params":{}}"#
    );
}

#[test]
fn test_generate_session_id_is_non_empty() {
    let id = generate_session_id().unwrap();
    assert!(!id.is_empty());
    assert!(id.starts_with("pcurl-"));
}

#[test]
fn test_session_id_is_persistent() {
    let id1 = generate_session_id().unwrap();
    let id2 = generate_session_id().unwrap();
    assert_ne!(id1, id2, "Each call should generate a unique ID");
}

#[test]
fn session_id_is_hex_of_time() {
    assert_eq!(session_id_from_nanos(0), "pcurl-0");
    assert_eq!(session_id_from_nanos(255), "pcurl-ff");
    assert_eq!(session_id_from_nanos(0x1a2b3c), "pcurl-1a2b3c");
    assert_eq!(
        session_id_from_nanos(u128::MAX),
        format!("pcurl-{:x}", u128::MAX)
    );
    assert_ne!(session_id_from_nanos(16), session_id_from_nanos(1));
}

#[test]
fn session_choice_prefers_given_then_stored() {
    assert_eq!(
        choose_session(Some("given".to_string()), Some("stored".to_string())),
        Some("given".to_string())
    );
    assert_eq!(
        choose_session(None, Some("  stored\n".to_string())),
        Some("stored".to_string())
    );
    assert_eq!(choose_session(None, Some(" \n".to_string())), None);
    assert_eq!(choose_session(None, None), None);
    let id = session_id_from_nanos(12345);
    assert_eq!(choose_session(None, Some(id.clone())), Some(id));
}

#[test]
fn session_url_and_args() {
    let url = build_session_url("http://localhost:8080/mcp/message//", "abc");
    assert_eq!(url, "http://localhost:8080/mcp/message?session_id=abc");
    let args = mcp_curl_args("{}", &url);
    assert_eq!(
        args,
        vec![
            "-s",
            "-N",
            "-i",
            "-X",
            "POST",
            "-H",
            "Content-Type: application/json",
            "-d",
            "{}",
            "http://localhost:8080/mcp/message?session_id=abc"
        ]
    );
}

#[test]
fn sse_parser_yields_events_on_blank_lines() {
    let mut p = SseParser::new();
    assert!(p.feed("event: endpoint\n").is_none());
    assert!(p.feed("data: first\n").is_none());
    assert!(p.feed("data: /mcp/message?session_id=xyz\r\n").is_none());
    let ev = p.feed("\n").expect("an event");
    assert_eq!(ev.event_type, "endpoint");
    assert_eq!(ev.data, "/mcp/message?session_id=xyz");
    assert!(p.feed("\n").is_none());
    assert!(p.feed(": comment\n").is_none());
}

#[test]
fn endpoint_session_extraction() {
    assert_eq!(
        session_from_endpoint("endpoint", "/mcp/message?session_id=abc&x=1"),
        Some("abc".to_string())
    );
    assert_eq!(
        session_from_endpoint("endpoint", "  0123456789ab  "),
        Some("0123456789ab".to_string())
    );
    assert_eq!(session_from_endpoint("endpoint", "0123456789"), None);
    assert_eq!(session_from_endpoint("endpoint", "session_id=&"), Some("session_id=&".to_string()));
    assert_eq!(session_from_endpoint("message", "session_id=abc"), None);
}

#[test]
fn responses_are_matched_by_id() {
    let ev = SseEvent {
        event_type: "message".to_string(),
        data: r#"{"jsonrpc":"2.0","id":2,"result":{}}"#.to_string(),
    };
    assert!(match_response(&ev, 2).is_some());
    assert!(match_response(&ev, 1).is_none());
    let untyped = SseEvent { event_type: String::new(), data: r#"{"id":7}"#.to_string() };
    assert!(match_response(&untyped, 7).is_some());
    let other = SseEvent { event_type: "ping".to_string(), data: r#"{"id":7}"#.to_string() };
    assert!(match_response(&other, 7).is_none());
    let bad = SseEvent { event_type: "message".to_string(), data: "not json".to_string() };
    assert!(match_response(&bad, 7).is_none());
    let float_id = SseEvent { event_type: "message".to_string(), data: r#"{"id":7.0}"#.to_string() };
    assert!(match_response(&float_id, 7).is_none());
}

#[test]
fn post_status_and_request_ids() {
    assert!(is_post_accepted(200));
    assert!(is_post_accepted(202));
    assert!(!is_post_accepted(204));
    let mut ids = RequestIds::new();
    assert_eq!(ids.take(), 1);
    assert_eq!(ids.take(), 2);
    assert_eq!(ids.peek(), 3);
}

#[test]
fn sse_url_replaces_message_path() {
    assert_eq!(pcurl::mcp::sse_url("http://h:8080/mcp/message"), "http://h:8080/mcp/sse");
    assert_eq!(pcurl::mcp::sse_url("http://h/other"), "http://h/other");
    assert_eq!(pcurl::mcp::sse_url("/mcp/message/mcp/message"), "/mcp/sse/mcp/sse");
}

#[test]
fn request_body_with_id() {
    let params = JsonValue::Object(vec![
        ("name".to_string(), JsonValue::Str("te\"st\n".to_string())),
        (
            "args".to_string(),
            JsonValue::Array(vec![
                JsonValue::Number { text: "1".to_string(), as_u64: Some(1) },
                JsonValue::Bool(true),
                JsonValue::Null,
                JsonValue::Object(vec![]),
            ]),
        ),
    ]);
    let body = build_request_body(7, "tools/call", &params);
    assert_eq!(
        body,
        r#"{"id":7,"jsonrpc":"2.0","method":"tools/call","params":{"name":"te\"st\n","args":[1,true,null,{}]}}"#
    );
    assert_eq!(
        build_request_body(1, "a\\b\u{1}", &JsonValue::Array(vec![])),
        "{\"id\":1,\"jsonrpc\":\"2.0\",\"method\":\"a\\\\b\\u0001\",\"params\":[]}"
    );
}

#[test]
fn request_body_matches_serde_json() {
    let params = JsonValue::Object(vec![("k".to_string(), JsonValue::Str("\t\u{7f}é\u{1f}".to_string()))]);
    let mut m = serde_json::Map::new();
    m.insert("k".to_string(), serde_json::Value::from("\t\u{7f}é\u{1f}"));
    let mut obj = serde_json::Map::new();
    obj.insert("jsonrpc".to_string(), serde_json::Value::from("2.0"));
    obj.insert("id".to_string(), serde_json::Value::from(3u64));
    obj.insert("method".to_string(), serde_json::Value::from("x\u{8}\u{c}\r"));
    obj.insert("params".to_string(), serde_json::Value::Object(m));
    let expected = serde_json::Value::Object(obj).to_string();
    assert_eq!(build_request_body(3, "x\u{8}\u{c}\r", &params), expected);
}

#[test]
fn session_is_stable_across_calls() {
    let fresh = generate_session_id().unwrap();
    let first = choose_session(None, Some("  kept-id \n".to_string())).unwrap();
    assert_eq!(first, "kept-id");
    assert_eq!(choose_session(None, Some(first.clone())), Some(first));
    assert_eq!(choose_session(None, Some("   ".to_string())), None);
    assert_eq!(choose_session(None, Some(fresh.clone())), Some(fresh));
}
