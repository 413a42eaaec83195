use pcurl::cli::{
    checks_for_update, is_safe_url, normalize_curl_command, plan, plan_http, request_banner, Action,
    Cli, Commands, OutputMode,
};
use pcurl::render::{to_plain, Style};

fn cli() -> Cli {
    Cli {
        command: None,
        curl_command: None,
        body_only: false,
        headers_only: false,
        no_color: false,
        doctor: false,
        update: false,
    }
}

#[test]
fn normalize_bare_url_and_curl_command() {
    assert_eq!(normalize_curl_command("https://x.io".to_string()), "curl -si https://x.io");
    assert_eq!(normalize_curl_command("curl https://x.io".to_string()), "curl https://x.io");
    assert_eq!(normalize_curl_command("  curl -v https://x.io".to_string()), "  curl -v https://x.io");
}

#[test]
fn plan_order_of_actions() {
    let mut c = cli();
    c.doctor = true;
    c.update = true;
    assert!(matches!(plan(c, false, false).0, Action::Doctor));
    let mut c = cli();
    c.update = true;
    c.curl_command = Some("https://x".to_string());
    assert!(matches!(plan(c, false, false).0, Action::Update));
    let mut c = cli();
    c.command = Some(Commands::Wscat { connect: "ws://h".to_string(), verbose: true });
    match plan(c, false, false).0 {
        Action::WebSocket { url, verbose } => {
            assert_eq!(url, "ws://h");
            assert!(verbose);
        }
        _ => panic!("expected WebSocket"),
    }
    let mut c = cli();
    c.curl_command = Some("example.com".to_string());
    match plan(c, false, true).0 {
        Action::Http { command } => assert_eq!(command, "curl -si example.com"),
        _ => panic!("expected Http"),
    }
    assert!(matches!(plan(cli(), false, true).0, Action::Pipe));
    assert!(matches!(plan(cli(), false, false).0, Action::NoInput));
}

#[test]
fn plan_output_mode() {
    let mut c = cli();
    c.body_only = true;
    let (_, m) = plan(c, true, false);
    assert_eq!(m, OutputMode { body_only: true, headers_only: false, no_color: true });
    let (_, m) = plan(cli(), false, false);
    assert_eq!(m, OutputMode { body_only: false, headers_only: false, no_color: false });
}

#[test]
fn plan_mcp_passes_fields() {
    let mut c = cli();
    c.command = Some(Commands::Mcp {
        url: "http://h/mcp".to_string(),
        method: "tools/list".to_string(),
        params: "{}".to_string(),
        session_id: Some("s1".to_string()),
        verbose: false,
    });
    match plan(c, false, false).0 {
        Action::Mcp { url, method, params, session_id, verbose } => {
            assert_eq!(url, "http://h/mcp");
            assert_eq!(method, "tools/list");
            assert_eq!(params, "{}");
            assert_eq!(session_id, Some("s1".to_string()));
            assert!(!verbose);
        }
        _ => panic!("expected Mcp"),
    }
}

#[test]
fn update_check_follows_most_actions() {
    assert!(!checks_for_update(&Action::Doctor));
    assert!(!checks_for_update(&Action::Update));
    assert!(!checks_for_update(&Action::NoInput));
    assert!(checks_for_update(&Action::Pipe));
    assert!(checks_for_update(&Action::Http { command: "curl x".to_string() }));
}

#[test]
fn safe_url_schemes() {
    for u in ["http://a", "https://a", "ws://a", "wss://a", "ftp://a", "file:///etc/hosts"] {
        assert!(is_safe_url(u), "{}", u);
    }
    for u in ["gopher://a", "javascript:alert(1)", "HTTP://a", "", "dict://x"] {
        assert!(!is_safe_url(u), "{}", u);
    }
}

#[test]
fn plan_http_refuses_other_schemes() {
    match plan_http("curl gopher://evil.example/x") {
        Err(scheme) => assert_eq!(scheme, "gopher"),
        Ok(_) => panic!("expected refusal"),
    }
    match plan_http("curl nocolon") {
        Err(scheme) => assert_eq!(scheme, "nocolon"),
        Ok(_) => panic!("expected refusal"),
    }
}

#[test]
fn plan_http_builds_arguments() {
    let p = plan_http("curl -d '{\"a\":1}' https://api.example.com/x").expect("allowed");
    assert_eq!(p.url, "https://api.example.com/x");
    assert_eq!(p.method_label, "POST");
    assert!(p.args.contains(&"https://api.example.com/x".to_string()));
    assert!(p.args.contains(&"Content-Type: application/json".to_string()));
    let p = plan_http("curl -X DELETE https://a.b/c").expect("allowed");
    assert_eq!(p.method_label, "DELETE");
    let p = plan_http("curl -si https://a.b/").expect("allowed");
    assert_eq!(p.method_label, "GET");
    // an empty URL is let through to curl
    let p = plan_http("curl").expect("allowed");
    assert_eq!(p.url, "");
}

#[test]
fn banner_line() {
    let out = request_banner("GET", "https://a.b/");
    assert_eq!(to_plain(&out), format!("\nGET → https://a.b/\n{}\n", "─".repeat(64)));
    assert_eq!(out[1].style, Style::CyanBold);
    assert_eq!(out[5].style, Style::WhiteBold);
}
