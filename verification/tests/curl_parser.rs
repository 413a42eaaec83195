use pcurl::curl_parser::{tokenize, CurlCommand};

#[test]
fn test_tokenize_simple() {
    let input = "curl https://example.com";
    let tokens = tokenize(input);
    assert_eq!(tokens, vec!["curl", "https://example.com"]);
}

#[test]
fn test_tokenize_with_quotes() {
    let input = "curl -H \"Content-Type: application/json\" https://example.com";
    let tokens = tokenize(input);
    assert_eq!(
        tokens,
        vec![
            "curl",
            "-H",
            "Content-Type: application/json",
            "https://example.com"
        ]
    );
}

#[test]
fn test_tokenize_single_quotes() {
    let input = "curl -H 'Authorization: Bearer token' https://example.com";
    let tokens = tokenize(input);
    assert_eq!(
        tokens,
        vec![
            "curl",
            "-H",
            "Authorization: Bearer token",
            "https://example.com"
        ]
    );
}

#[test]
fn test_tokenize_mixed_quotes() {
    let input = "curl -d '{\"name\":\"test\"}' -H \"X-Custom: value\" https://example.com";
    let tokens = tokenize(input);
    assert_eq!(
        tokens,
        vec![
            "curl",
            "-d",
            "{\"name\":\"test\"}",
            "-H",
            "X-Custom: value",
            "https://example.com"
        ]
    );
}

#[test]
fn test_curl_parse_simple_get() {
    let cmd = CurlCommand::parse("curl https://api.example.com/users");
    assert_eq!(cmd.url, "https://api.example.com/users");
    assert_eq!(cmd.method, None);
    assert!(cmd.headers.is_empty());
    assert!(cmd.data.is_none());
}

#[test]
fn test_curl_parse_with_method() {
    let cmd = CurlCommand::parse("curl -X POST https://api.example.com/users");
    assert_eq!(cmd.url, "https://api.example.com/users");
    assert_eq!(cmd.method, Some("POST".to_string()));
    assert!(cmd.headers.is_empty());
    assert!(cmd.data.is_none());
}

#[test]
fn test_curl_parse_with_headers() {
    let cmd = CurlCommand::parse("curl -H \"Content-Type: application/json\" -H \"Authorization: Bearer token\" https://api.example.com/users");
    assert_eq!(cmd.url, "https://api.example.com/users");
    assert_eq!(cmd.headers.len(), 2);
    assert_eq!(
        cmd.headers[0],
        ("Content-Type".to_string(), "application/json".to_string())
    );
    assert_eq!(
        cmd.headers[1],
        ("Authorization".to_string(), "Bearer token".to_string())
    );
}

#[test]
fn test_curl_parse_with_data() {
    let cmd = CurlCommand::parse("curl -d '{\"name\":\"test\"}' https://api.example.com/users");
    assert_eq!(cmd.url, "https://api.example.com/users");
    assert_eq!(cmd.data, Some("{\"name\":\"test\"}".to_string()));
}

#[test]
fn test_curl_parse_complex() {
    let cmd = CurlCommand::parse("curl -X POST -H \"Content-Type: application/json\" -d '{\"name\":\"test\"}' -k -L https://api.example.com/users");
    assert_eq!(cmd.url, "https://api.example.com/users");
    assert_eq!(cmd.method, Some("POST".to_string()));
    assert_eq!(cmd.headers.len(), 1);
    assert_eq!(cmd.data, Some("{\"name\":\"test\"}".to_string()));
    assert_eq!(cmd.extra_args.len(), 2); // -k and -L
}

#[test]
fn test_to_args_with_headers() {
    let cmd = CurlCommand::parse(
        "curl -X POST -H \"Content-Type: application/json\" https://api.example.com/users",
    );
    let args = cmd.to_args_with_headers();

    // Should include -i and -s automatically
    assert!(args.contains(&"-i".to_string()));
    assert!(args.contains(&"-s".to_string()));
    assert!(args.contains(&"-X".to_string()));
    assert!(args.contains(&"POST".to_string()));
    assert!(args.contains(&"-H".to_string()));
    assert!(args.contains(&"Content-Type: application/json".to_string()));
    assert!(args.contains(&"https://api.example.com/users".to_string()));
}

#[test]
fn test_auto_content_type_injection() {
    let cmd = CurlCommand::parse("curl -d '{\"name\":\"test\"}' https://api.example.com/users");
    let args = cmd.to_args_with_headers();

    // Should auto-inject Content-Type for JSON data
    assert!(args.contains(&"Content-Type: application/json".to_string()));
}

#[test]
fn test_no_auto_content_type_when_exists() {
    let cmd = CurlCommand::parse("curl -H \"Content-Type: text/plain\" -d '{\"name\":\"test\"}' https://api.example.com/users");
    let args = cmd.to_args_with_headers();

    // Should not duplicate Content-Type
    let content_type_count = args
        .iter()
        .filter(|arg| arg.contains("Content-Type"))
        .count();
    assert_eq!(content_type_count, 1);
}

// ---------------------------------------------------------------------------
// Further cases
// ---------------------------------------------------------------------------

#[test]
fn tokenize_backslash_escapes_inside_double_quotes() {
    let tokens = tokenize("curl -d \"a\\\"b\" x");
    assert_eq!(tokens, vec!["curl", "-d", "a\"b", "x"]);
}

#[test]
fn tokenize_never_yields_empty_tokens() {
    let tokens = tokenize("  curl   ''  \"\"  \t\n https://a.b  ");
    assert_eq!(tokens, vec!["curl", "https://a.b"]);
    assert!(tokens.iter().all(|t| !t.is_empty()));
}

#[test]
fn tokenize_spaced_plain_words_round_trip() {
    let words = vec!["curl", "-L", "https://example.com/a?b=c", "--compressed"];
    let line = words.join(" ");
    assert_eq!(tokenize(&line), words);
}

#[test]
fn parse_without_leading_curl() {
    let cmd = CurlCommand::parse("-X DELETE https://api.example.com/users/42");
    assert_eq!(cmd.url, "https://api.example.com/users/42");
    assert_eq!(cmd.method, Some("DELETE".to_string()));
}

#[test]
fn parse_drops_pcurl_own_flags_and_keeps_others() {
    let cmd = CurlCommand::parse("curl -s -i -v -u user:pw --weird https://x.io stray");
    assert_eq!(cmd.url, "https://x.io");
    assert_eq!(cmd.extra_args, vec!["-u", "user:pw", "--weird"]);
}

#[test]
fn parse_header_without_colon_is_ignored() {
    let cmd = CurlCommand::parse("curl -H NoColon -H ' A :  b ' https://x.io");
    assert_eq!(cmd.headers, vec![("A".to_string(), "b".to_string())]);
}

#[test]
fn parse_flag_missing_its_value_is_ignored() {
    let cmd = CurlCommand::parse("curl https://x.io -X");
    assert_eq!(cmd.url, "https://x.io");
    assert_eq!(cmd.method, None);
    let cmd = CurlCommand::parse("curl https://x.io -o");
    assert!(cmd.extra_args.is_empty());
}

#[test]
fn parse_scheme_url_replaces_earlier_bare_word() {
    let cmd = CurlCommand::parse("curl example.com https://real.example.com");
    assert_eq!(cmd.url, "https://real.example.com");
}

#[test]
fn to_args_exact_order() {
    let cmd = CurlCommand::parse(
        "curl -X PUT -H 'A: 1' -d ' {\"k\":1}' -k https://x.io",
    );
    assert_eq!(
        cmd.to_args_with_headers(),
        vec![
            "-i",
            "-s",
            "-X",
            "PUT",
            "-H",
            "A: 1",
            "-d",
            " {\"k\":1}",
            "-H",
            "Content-Type: application/json",
            "-k",
            "https://x.io"
        ]
    );
}

#[test]
fn to_args_no_content_type_for_non_json_body() {
    let cmd = CurlCommand::parse("curl -d 'a=1' https://x.io");
    assert_eq!(cmd.to_args_with_headers(), vec!["-i", "-s", "-d", "a=1", "https://x.io"]);
}

#[test]
fn to_args_content_type_check_ignores_case() {
    let cmd = CurlCommand::parse("curl -H 'CONTENT-type: text/x' -d '{}' https://x.io");
    let args = cmd.to_args_with_headers();
    assert!(!args.contains(&"Content-Type: application/json".to_string()));
}

#[test]
fn args_start_with_include_silent_and_end_with_url() {
    for cmd in [
        "curl https://a.b/c",
        "curl -X PUT -H 'A: b' -d '{}' -k --max-time 5 https://a.b/c",
        "",
        "curl -i -s -v http://x",
    ] {
        let parsed = CurlCommand::parse(cmd);
        let args = parsed.to_args_with_headers();
        assert!(args.len() >= 3);
        assert_eq!(args[0], "-i");
        assert_eq!(args[1], "-s");
        assert_eq!(args.last().unwrap(), &parsed.url);
    }
}

fn same(a: &CurlCommand, b: &CurlCommand) -> bool {
    a.url == b.url && a.method == b.method && a.headers == b.headers && a.data == b.data
        && a.extra_args == b.extra_args
}

#[test]
fn leading_curl_is_optional() {
    for cmd in [
        "https://a.b/c -X POST -H 'A: b' -d x",
        "-k --max-time 5 http://x",
        "",
        "'quoted url' -L",
    ] {
        let a = CurlCommand::parse(cmd);
        let b = CurlCommand::parse(&format!("curl {}", cmd));
        assert!(same(&a, &b), "{}", cmd);
    }
}

fn dq(x: &str) -> String {
    let mut s = String::from("\"");
    for c in x.chars() {
        if c == '\\' || c == '"' {
            s.push('\\');
        }
        s.push(c);
    }
    s.push('"');
    s
}

#[test]
fn arguments_parse_back_to_the_command() {
    for cmd in [
        "curl -X POST -H 'Accept: text/html' -d '{\"a\": \"b\\\\c\"}' -o out.txt -k --weird https://a.b/c",
        "curl -H 'Content-Type: text/plain' -d '{}' http://x",
        "curl -v -i -s example.com",
    ] {
        let c = CurlCommand::parse(cmd);
        let args = c.to_args_with_headers();
        let line = format!("curl {}", args.iter().map(|a| dq(a)).collect::<Vec<_>>().join(" "));
        let r = CurlCommand::parse(&line);
        assert_eq!(r.url, c.url);
        assert_eq!(r.method, c.method);
        assert_eq!(r.data, c.data);
        assert_eq!(r.extra_args, c.extra_args);
        let injected = c.data.as_deref().map_or(false, |d| d.trim_start().starts_with('{'))
            && !c.headers.iter().any(|(k, _)| k.to_lowercase() == "content-type");
        let mut expected = c.headers.clone();
        if injected {
            expected.push(("Content-Type".to_string(), "application/json".to_string()));
        }
        assert_eq!(r.headers, expected, "{}", cmd);
    }
}
