use pcurl::cli::OutputMode;
use pcurl::display::{
    display_body, display_response, display_sse_line, display_status, display_status_and_headers,
    is_sse_content_type, parse_status_code, split_response,
};
use pcurl::render::{to_plain, Style};

fn mode() -> OutputMode {
    OutputMode {
        body_only: false,
        headers_only: false,
        no_color: false,
    }
}

fn plain(v: &Vec<pcurl::render::Span>) -> String {
    to_plain(v)
}

#[test]
fn test_parse_status_code() {
    assert_eq!(parse_status_code("HTTP/1.1 200 OK"), 200);
    assert_eq!(parse_status_code("HTTP/2 404 Not Found"), 404);
    assert_eq!(parse_status_code("HTTP/1.1 500 Internal Server Error"), 500);
    assert_eq!(parse_status_code(""), 0);
    assert_eq!(parse_status_code("invalid"), 0);
}

#[test]
fn test_display_response_json() {
    let json_response = "HTTP/1.1 200 OK\r\nContent-Type: application/json\r\n\r\n{\"id\": 1, \"name\": \"test\"}";
    display_response(
        json_response,
        123,
        &OutputMode {
            body_only: false,
            headers_only: false,
            no_color: false,
        },
    );
}

#[test]
fn test_display_response_xml() {
    let xml_response = "HTTP/1.1 200 OK\r\nContent-Type: application/xml\r\n\r\n<?xml version=\"1.0\"?><root><item>test</item></root>";
    display_response(
        xml_response,
        456,
        &OutputMode {
            body_only: false,
            headers_only: false,
            no_color: false,
        },
    );
}

#[test]
fn test_display_response_plain_text() {
    let text_response = "HTTP/1.1 200 OK\r\nContent-Type: text/plain\r\n\r\nHello, World!";
    display_response(
        text_response,
        789,
        &OutputMode {
            body_only: false,
            headers_only: false,
            no_color: false,
        },
    );
}

#[test]
fn test_display_response_no_headers() {
    let body_only = "{\"message\": \"no headers\"}";
    display_response(
        body_only,
        0,
        &OutputMode {
            body_only: false,
            headers_only: false,
            no_color: false,
        },
    );
}

#[test]
fn test_display_response_empty_body() {
    let empty_response = "HTTP/1.1 204 No Content\r\n\r\n";
    display_response(
        empty_response,
        100,
        &OutputMode {
            body_only: false,
            headers_only: false,
            no_color: false,
        },
    );
}

#[test]
fn test_display_response_with_redirects() {
    let redirect_response = "HTTP/1.1 301 Moved Permanently\r\nLocation: /new-url\r\n\r\nHTTP/1.1 200 OK\r\nContent-Type: application/json\r\n\r\n{\"success\": true}";
    display_response(
        redirect_response,
        250,
        &OutputMode {
            body_only: false,
            headers_only: false,
            no_color: false,
        },
    );
}

// ---------------------------------------------------------------------------
// Exact views
// ---------------------------------------------------------------------------

#[test]
fn status_code_edge_cases() {
    assert_eq!(parse_status_code("HTTP/1.1 +201 Created"), 201);
    assert_eq!(parse_status_code("HTTP/1.1 65536 Big"), 0);
    assert_eq!(parse_status_code("HTTP/1.1 65535"), 65535);
    assert_eq!(parse_status_code("HTTP/1.1 -2"), 0);
    assert_eq!(parse_status_code("  HTTP/1.1\t007  "), 7);
    assert_eq!(parse_status_code("HTTP/1.1 +"), 0);
}

#[test]
fn status_row_with_elapsed_time() {
    let out = display_status("HTTP/1.1 200 OK", 200, 142);
    assert_eq!(plain(&out), "  ✓  HTTP/1.1 200 OK   142 ms\n");
    assert_eq!(out[3].style, Style::BadgeSuccess);
    let out = display_status("HTTP/1.1 503 Busy", 503, 0);
    assert_eq!(plain(&out), "  ✗  HTTP/1.1 503 Busy \n");
    assert_eq!(out[3].style, Style::BadgeServerError);
    assert_eq!(display_status("x", 0, 0)[1].text, "?");
    assert_eq!(display_status("x", 302, 0)[1].text, "↝");
}

#[test]
fn pipe_json_response_view() {
    let raw = "HTTP/1.1 200 OK\r\nContent-Type: application/json\r\n\r\n{\"id\": 1, \"tags\": [\"a\", {}], \"ok\": true, \"n\": null}";
    let text = plain(&display_response(raw, 0, &mode()));
    let expected = [
        "\n",
        "  ✓  HTTP/1.1 200 OK \n",
        "\n",
        "  HEADERS\n",
        "  ──────────────────────────────────────────────────────\n",
        "  Content-Type                   application/json\n",
        "\n",
        "  BODY\n",
        "  ──────────────────────────────────────────────────────\n",
        "{\n",
        "  \"id\": 1,\n",
        "  \"n\": null,\n",
        "  \"ok\": true,\n",
        "  \"tags\": [\n",
        "    \"a\",\n",
        "    {}\n",
        "  ]\n",
        "}\n",
        "\n",
        "\n",
    ]
    .concat();
    assert_eq!(text, expected);
}

#[test]
fn pipe_redirect_shows_final_response() {
    let raw = "HTTP/1.1 301 Moved Permanently\r\nLocation: /new-url\r\n\r\nHTTP/1.1 200 OK\r\nContent-Type: application/json\r\n\r\n{\"success\": true, \"redirected\": true}";
    let text = plain(&display_response(raw, 0, &mode()));
    assert!(text.contains("200 OK"));
    assert!(!text.contains("301"));
    assert!(text.contains("\"success\":"));
    assert!(text.contains("\"redirected\":"));
}

#[test]
fn pipe_empty_body_note() {
    let text = plain(&display_response("HTTP/1.1 204 No Content\r\n\r\n", 0, &mode()));
    assert!(text.contains("204 No Content"));
    assert!(text.contains("(empty response body)"));
}

#[test]
fn pipe_xml_view() {
    let raw = "HTTP/1.1 200 OK\r\nContent-Type: application/xml\r\n\r\n<?xml version=\"1.0\"?><root><item>test</item><br/></root>";
    let text = plain(&display_response(raw, 0, &mode()));
    assert!(text.contains(
        "  <?xml version=\"1.0\"?>\n  <root>\n    <item>\n      test\n    </item>\n    <br/>\n  </root>\n"
    ));
}

#[test]
fn pipe_plain_text_lines() {
    let raw = "HTTP/1.1 200 OK\r\nContent-Type: text/plain\r\n\r\nHello, World!\nThis is plain text.";
    let text = plain(&display_response(raw, 0, &mode()));
    assert!(text.contains("  Hello, World!\n  This is plain text.\n"));
}

#[test]
fn pipe_modes() {
    let raw = "HTTP/1.1 404 Not Found\nX: 1\n\n{\"error\": \"Not found\"}";
    let body_only = OutputMode { body_only: true, headers_only: false, no_color: false };
    let text = plain(&display_response(raw, 0, &body_only));
    assert!(!text.contains("404"));
    assert!(!text.contains("BODY"));
    assert!(text.contains("\"error\":"));
    let headers_only = OutputMode { body_only: false, headers_only: true, no_color: false };
    let text = plain(&display_response(raw, 0, &headers_only));
    assert!(text.contains("404 Not Found"));
    assert!(!text.contains("error"));
}

#[test]
fn split_without_separator_is_all_body() {
    let (h, b) = split_response("{\"message\": \"no headers\"}");
    assert!(h.is_empty());
    assert_eq!(b.iter().collect::<String>(), "{\"message\": \"no headers\"}");
}

#[test]
fn split_keeps_separators_inside_body() {
    let (h, b) = split_response("HTTP/1.1 200 OK\n\nline1\n\nline2");
    assert_eq!(h.iter().collect::<String>(), "HTTP/1.1 200 OK");
    assert_eq!(b.iter().collect::<String>(), "line1\n\nline2");
}

#[test]
fn body_rendering_falls_back_to_text() {
    assert_eq!(plain(&display_body("not json")), "  not json\n");
    assert_eq!(plain(&display_body("42")), "42\n\n");
}

#[test]
fn status_and_headers_pads_names() {
    let out = display_status_and_headers("HTTP/2 200\nServer: x\n\nnoise", 0, &mode());
    let text = plain(&out);
    assert!(text.contains("  Server                         x\n"));
}

#[test]
fn sse_detection_and_lines() {
    assert!(is_sse_content_type("HTTP/1.1 200 OK\ncontent-type: text/event-stream; charset=utf-8"));
    assert!(!is_sse_content_type("HTTP/1.1 200 OK\nContent-Type: application/json"));
    assert_eq!(plain(&display_sse_line("data: {\"event\": \"connected\"}\r\n")), "← {\"event\": \"connected\"}\n");
    assert_eq!(plain(&display_sse_line("data:x\n")), "← x\n");
    assert_eq!(plain(&display_sse_line("event: ping\n")), "  event: ping\n");
    assert_eq!(plain(&display_sse_line("\r\n")), "");
}

#[test]
fn earlier_header_block_does_not_change_view() {
    let raw = "HTTP/1.1 200 OK\r\nContent-Type: text/plain\r\n\r\nfinal body";
    let front = "HTTP/1.1 302 Found\r\nLocation: /next";
    let whole = format!("{}\r\n\r\n{}", front, raw);
    let m = mode();
    assert_eq!(plain(&display_response(&whole, 5, &m)), plain(&display_response(raw, 5, &m)));
    let lf_raw = "HTTP/2 404\nx-a: 1\n\n{\"e\": 1}";
    let lf_whole = format!("HTTP/2 301\nlocation: /y\n\n{}", lf_raw);
    assert_eq!(plain(&display_response(&lf_whole, 0, &m)), plain(&display_response(lf_raw, 0, &m)));
}

#[test]
fn body_only_and_headers_only_views() {
    let raw = "HTTP/1.1 200 OK\r\nX-A: 1\r\n\r\nhello";
    let bo = OutputMode { body_only: true, headers_only: false, no_color: false };
    assert_eq!(plain(&display_response(raw, 0, &bo)), "\n  hello\n\n");
    let ho = OutputMode { body_only: false, headers_only: true, no_color: false };
    let text = plain(&display_response(raw, 0, &ho));
    assert!(text.starts_with("\n  ✓  HTTP/1.1 200 OK \n\n  HEADERS\n"));
    assert!(!text.contains("hello"));
    assert!(!text.contains("BODY"));
    let empty = "HTTP/1.1 204 No Content\r\n\r\n";
    assert_eq!(plain(&display_response(empty, 0, &bo)), "\n  (empty response body)\n\n");
}

#[test]
fn empty_members_stand_on_their_own_lines() {
    let text = plain(&display_body("{\"a\": {}, \"b\": 1, \"c\": []}"));
    assert_eq!(text, "{\n  \"a\": {},\n  \"b\": 1,\n  \"c\": []\n}\n\n");
    let text = plain(&display_body("[[], {}]"));
    assert_eq!(text, "[\n  [],\n  {}\n]\n\n");
}

#[test]
fn pipe_mode_skips_interim_response() {
    let raw = "HTTP/1.1 100 Continue\r\n\r\nHTTP/1.1 200 OK\r\nContent-Type: text/plain\r\n\r\nhi";
    let text = plain(&display_response(raw, 0, &mode()));
    assert!(text.contains("HTTP/1.1 200 OK"));
    assert!(!text.contains("100 Continue"));
    assert!(text.contains("hi"));
}
