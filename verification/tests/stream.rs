use pcurl::cli::OutputMode;
use pcurl::display::{display_body_section, display_status_and_headers};
use pcurl::render::{to_plain, Span, Style};
use pcurl::stream::{keep_stderr_line, StreamState};

fn mode() -> OutputMode {
    OutputMode { body_only: false, headers_only: false, no_color: false }
}

fn feed(s: &mut StreamState, lines: &[&str], ms: u128, m: &OutputMode) -> Vec<String> {
    lines.iter().map(|l| to_plain(&s.step(l, ms, m))).collect()
}

#[test]
fn headers_are_shown_when_their_block_ends() {
    let m = mode();
    let mut s = StreamState::new();
    let outs = feed(
        &mut s,
        &["HTTP/1.1 200 OK\r\n", "Content-Type: application/json\r\n"],
        12,
        &m,
    );
    assert_eq!(outs, vec![String::new(), String::new()]);
    assert_eq!(s.status, 200);
    let shown = s.step("\r\n", 12, &m);
    let expected = display_status_and_headers("HTTP/1.1 200 OK\nContent-Type: application/json", 12, &m);
    assert_eq!(to_plain(&shown), to_plain(&expected));
    assert!(to_plain(&shown).contains("200 OK"));
    assert!(!to_plain(&shown).contains("BODY"));
    assert!(s.headers_displayed);
    assert!(!s.is_sse);
    // body lines are collected, nothing printed
    assert_eq!(to_plain(&s.step("{\"status\": \"ok\", \"key\": 1}", 15, &m)), "");
    let (out, err) = s.finish(15, &m);
    assert!(err.is_empty());
    let text = to_plain(&out);
    assert_eq!(text, to_plain(&display_body_section("{\"status\": \"ok\", \"key\": 1}", &m)));
    assert!(text.contains("BODY"));
    assert!(text.contains("\"status\":"));
    assert!(text.contains("\"key\":"));
}

#[test]
fn sse_events_are_echoed_as_they_come() {
    let m = mode();
    let mut s = StreamState::new();
    feed(&mut s, &["HTTP/1.1 200 OK\r\n", "Content-Type: text/event-stream\r\n"], 5, &m);
    let head = to_plain(&s.step("\r\n", 5, &m));
    assert!(head.contains("200 OK"));
    assert!(head.contains("text/event-stream"));
    assert!(s.is_sse);
    let outs = feed(
        &mut s,
        &[
            "data: {\"event\": \"connected\"}\n",
            "\n",
            "data: {\"event\": \"message\", \"text\": \"hello\"}\n",
            "\n",
            "event: ping\n",
            "data: {\"event\": \"close\"}\n",
        ],
        9,
        &m,
    );
    assert_eq!(
        outs,
        vec![
            "← {\"event\": \"connected\"}\n".to_string(),
            String::new(),
            "← {\"event\": \"message\", \"text\": \"hello\"}\n".to_string(),
            String::new(),
            "  event: ping\n".to_string(),
            "← {\"event\": \"close\"}\n".to_string(),
        ]
    );
    let (out, err) = s.finish(9, &m);
    assert_eq!(to_plain(&out), "\n");
    assert!(err.is_empty());
    assert!(!to_plain(&out).contains("BODY"));
}

#[test]
fn sse_events_hidden_with_headers_only() {
    let m = OutputMode { body_only: false, headers_only: true, no_color: false };
    let mut s = StreamState::new();
    feed(&mut s, &["HTTP/2 200\n", "content-type: text/event-stream; charset=utf-8\n", "\n"], 0, &m);
    assert!(s.is_sse);
    assert_eq!(to_plain(&s.step("data: x\n", 0, &m)), "");
}

#[test]
fn redirect_is_replaced_by_final_response() {
    let m = mode();
    let mut s = StreamState::new();
    let outs = feed(
        &mut s,
        &[
            "HTTP/1.1 301 Moved Permanently\r\n",
            "Location: /new-url\r\n",
            "\r\n",
            "HTTP/1.1 200 OK\r\n",
            "Content-Type: application/json\r\n",
        ],
        7,
        &m,
    );
    assert!(outs.iter().all(|o| o.is_empty()));
    assert!(!s.has_saved_redirect);
    let head = to_plain(&s.step("\r\n", 7, &m));
    assert!(head.contains("200 OK"));
    assert!(!head.contains("301"));
    s.step("{\"success\": true, \"redirected\": true}", 7, &m);
    let (out, _) = s.finish(7, &m);
    let text = to_plain(&out);
    assert!(text.contains("\"success\":"));
    assert!(text.contains("\"redirected\":"));
}

#[test]
fn redirect_without_following_response_is_shown_at_the_end() {
    let m = mode();
    let mut s = StreamState::new();
    feed(&mut s, &["HTTP/1.1 302 Found\r\n", "Location: /x\r\n", "\r\n", "moved here\n"], 3, &m);
    assert!(s.has_saved_redirect);
    assert_eq!(s.saved_redirect_headers, "HTTP/1.1 302 Found\nLocation: /x");
    assert_eq!(s.saved_redirect_body, "moved here\n");
    let (out, err) = s.finish(3, &m);
    assert!(err.is_empty());
    let text = to_plain(&out);
    let head = to_plain(&display_status_and_headers("HTTP/1.1 302 Found\nLocation: /x", 3, &m));
    assert!(text.starts_with(&head));
    assert!(text.contains("moved here"));
    assert_eq!(out[1].style, Style::YellowBold);
}

#[test]
fn empty_body_is_announced() {
    let m = mode();
    let mut s = StreamState::new();
    feed(&mut s, &["HTTP/1.1 204 No Content\r\n", "\r\n"], 1, &m);
    let (out, _) = s.finish(1, &m);
    assert!(to_plain(&out).contains("(empty response body)"));
}

#[test]
fn no_response_is_an_error() {
    let m = mode();
    let s = StreamState::new();
    let (out, err) = s.finish(0, &m);
    assert!(out.is_empty());
    assert_eq!(to_plain(&err), "✗ No response received. Check the URL.\n");
    assert_eq!(err[0].style, Style::RedBold);
}

#[test]
fn body_only_and_headers_only_modes() {
    let bo = OutputMode { body_only: true, headers_only: false, no_color: false };
    let mut s = StreamState::new();
    let outs = feed(&mut s, &["HTTP/1.1 200 OK\n", "A: b\n", "\n", "hello\n"], 4, &bo);
    assert!(outs.iter().all(|o| o.is_empty()));
    let (out, _) = s.finish(4, &bo);
    assert!(to_plain(&out).contains("hello"));
    assert!(!to_plain(&out).contains("200"));

    let ho = OutputMode { body_only: false, headers_only: true, no_color: false };
    let mut s = StreamState::new();
    let outs = feed(&mut s, &["HTTP/1.1 200 OK\n", "A: b\n", "\n", "hello\n"], 4, &ho);
    assert!(outs[2].contains("200 OK"));
    let (out, _) = s.finish(4, &ho);
    assert_eq!(to_plain(&out), "\n");
}

#[test]
fn headers_shown_once_only() {
    let m = mode();
    let mut s = StreamState::new();
    feed(&mut s, &["HTTP/1.1 200 OK\n", "\n"], 2, &m);
    // a later status line is body text
    let later: Vec<Span> = s.step("HTTP/1.1 500 Oops\n", 2, &m);
    assert!(later.is_empty());
    assert!(s.headers_displayed);
    assert_eq!(s.body, "HTTP/1.1 500 Oops\n");
}

#[test]
fn stderr_lines_filtered() {
    assert!(keep_stderr_line("curl: (6) Could not resolve host: nope\n"));
    assert!(!keep_stderr_line("   \n"));
    assert!(!keep_stderr_line("  % Total    % Received % Xferd  Average Speed"));
    assert!(!keep_stderr_line("                                 Dload  Upload"));
}

#[test]
fn interim_continue_block_is_not_the_response() {
    let m = mode();
    let mut s = StreamState::new();
    let outs = feed(
        &mut s,
        &["HTTP/1.1 100 Continue\r\n", "\r\n", "HTTP/1.1 200 OK\r\n", "Content-Type: text/plain\r\n"],
        3,
        &m,
    );
    assert!(outs.iter().all(|o| o.is_empty()));
    assert!(!s.headers_displayed);
    let head = to_plain(&s.step("\r\n", 3, &m));
    let expected = display_status_and_headers("HTTP/1.1 200 OK\nContent-Type: text/plain", 3, &m);
    assert_eq!(head, to_plain(&expected));
    assert!(!head.contains("100"));
    s.step("hi", 3, &m);
    let (out, err) = s.finish(3, &m);
    assert!(err.is_empty());
    assert_eq!(to_plain(&out), to_plain(&display_body_section("hi", &m)));
}
