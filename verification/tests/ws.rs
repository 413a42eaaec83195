use pcurl::render::{to_plain, Span, Style};
use pcurl::ws::{
    extract_ws_url, input_action, ws_connected, ws_frame, ws_incoming_text, ws_incoming_text_with,
    ws_opening, ws_opening_with, ws_outgoing_text, InputAction, WsFrame,
};

fn plain(v: &Vec<Span>) -> String {
    to_plain(v)
}

fn rule() -> String {
    "─".repeat(64)
}

#[test]
fn extract_ws_url_after_connect_flag() {
    assert_eq!(
        extract_ws_url("wscat -c wss://echo.websocket.org/path"),
        Some("wss://echo.websocket.org/path".to_string())
    );
    assert_eq!(
        extract_ws_url("wscat --connect ws://localhost:8080"),
        Some("ws://localhost:8080".to_string())
    );
}

#[test]
fn extract_ws_url_bare_word() {
    assert_eq!(
        extract_ws_url("  ws://host:9000/socket  "),
        Some("ws://host:9000/socket".to_string())
    );
    assert_eq!(
        extract_ws_url("connect to wss://a.example then"),
        Some("wss://a.example".to_string())
    );
}

#[test]
fn extract_ws_url_none() {
    assert_eq!(extract_ws_url("curl https://example.com"), None);
    assert_eq!(extract_ws_url(""), None);
    // the word after -c is not a WebSocket URL: the search goes on
    assert_eq!(extract_ws_url("wscat -c http://x ws://y"), Some("ws://y".to_string()));
    assert_eq!(extract_ws_url("wscat -c"), None);
}

#[test]
fn ws_opening_valid_url() {
    let out = ws_opening("wss://echo.example.org/ws").expect("valid url");
    let expected = format!("\n↔ wss://echo.example.org/ws\n{}\n", rule());
    assert_eq!(plain(&out), expected);
    assert_eq!(out[1].style, Style::CyanBold);
    assert_eq!(out[3].style, Style::WhiteBold);
}

#[test]
fn ws_opening_invalid_url_reports_parser_error() {
    let out = ws_opening("not a url").expect_err("invalid url");
    assert_eq!(plain(&out), "✗ Invalid URL: relative URL without a base\n");
    assert_eq!(out[0].style, Style::RedBold);
}

#[test]
fn ws_opening_with_given_error() {
    let out = ws_opening_with("ws://", &Some("empty host".to_string())).expect_err("error given");
    assert_eq!(plain(&out), "✗ Invalid URL: empty host\n");
    let ok = ws_opening_with("ws://h", &None).expect("no error");
    assert_eq!(plain(&ok), format!("\n↔ ws://h\n{}\n", rule()));
}

#[test]
fn ws_connected_lines() {
    let out = ws_connected(101);
    let expected = format!(
        "✓ Connected! (HTTP 101)\n{}\nType messages and press Enter. /quit to exit.\n\n",
        rule()
    );
    assert_eq!(plain(&out), expected);
    assert_eq!(out[0].style, Style::GreenBold);
}

#[test]
fn input_action_cases() {
    assert!(matches!(input_action("/quit\n"), InputAction::Quit));
    assert!(matches!(input_action("   /quit  "), InputAction::Quit));
    assert!(matches!(input_action("   \n"), InputAction::Skip));
    assert!(matches!(input_action(""), InputAction::Skip));
    match input_action("  hello world \n") {
        InputAction::Send(m) => assert_eq!(m, "hello world"),
        _ => panic!("expected Send"),
    }
    match input_action("/quitting") {
        InputAction::Send(m) => assert_eq!(m, "/quitting"),
        _ => panic!("expected Send"),
    }
}

#[test]
fn incoming_text_plain_and_json() {
    let out = ws_incoming_text("hello");
    assert_eq!(plain(&out), "← hello\n");
    assert_eq!(out[0].style, Style::GreenBold);
    assert_eq!(out[2].style, Style::Green);
    let out = ws_incoming_text("{\"a\": 1}");
    // scalars end their own line and the value then ends with a blank line
    assert_eq!(plain(&out), "← \n{\n  \"a\": 1\n\n}\n");
    let out = ws_incoming_text_with("{\"a\": 1}", &None);
    assert_eq!(plain(&out), "← {\"a\": 1}\n");
}

#[test]
fn outgoing_text_is_trimmed() {
    let out = ws_outgoing_text("  ping  \n");
    assert_eq!(plain(&out), "→ ping\n");
    assert_eq!(out[0].style, Style::CyanBold);
    assert_eq!(out[2].style, Style::Cyan);
    let out = ws_outgoing_text(" [1, 2] ");
    assert_eq!(plain(&out), "→ \n[\n  1\n\n  2\n\n]\n");
}

#[test]
fn frames() {
    assert_eq!(plain(&ws_frame(&WsFrame::Binary { len: 42 }, false)), "← 42 bytes\n");
    assert_eq!(
        plain(&ws_frame(&WsFrame::Close { reason: Some("bye".to_string()) }, false)),
        "← Connection closed: bye\n"
    );
    assert_eq!(
        plain(&ws_frame(&WsFrame::Close { reason: None }, false)),
        "← Connection closed\n"
    );
    assert_eq!(plain(&ws_frame(&WsFrame::Ping { len: 3 }, false)), "");
    assert_eq!(plain(&ws_frame(&WsFrame::Ping { len: 3 }, true)), "← Ping 3 bytes\n");
    assert_eq!(plain(&ws_frame(&WsFrame::Pong { len: 0 }, true)), "← Pong 0 bytes\n");
    assert_eq!(plain(&ws_frame(&WsFrame::Raw, true)), "");
}

#[test]
fn found_url_is_one_of_the_words() {
    let cmd = "wscat -c wss://x.y/z --no-color";
    let u = extract_ws_url(cmd).unwrap();
    assert!(u.starts_with("ws://") || u.starts_with("wss://"));
    assert!(cmd.split_whitespace().any(|w| w == u));
}
