use pcurl::doctor::{install_paths, path_has_local_bin, render_doctor, DoctorFacts};
use pcurl::render::{to_plain, Style};

#[test]
fn install_paths_in_order() {
    assert_eq!(
        install_paths("/home/ana"),
        vec![
            "/home/ana/.local/bin/pcurl".to_string(),
            "/usr/local/bin/pcurl".to_string(),
            "/usr/bin/pcurl".to_string(),
        ]
    );
}

#[test]
fn local_bin_in_path() {
    assert!(path_has_local_bin("/home/ana", "/usr/bin:/home/ana/.local/bin:/bin"));
    assert!(!path_has_local_bin("/home/ana", "/usr/bin:/bin"));
    assert!(!path_has_local_bin("/home/bob", "/home/ana/.local/bin"));
}

fn header() -> String {
    format!("\n  pcurl  —  Installation Diagnostic\n  {}\n\n", "─".repeat(54))
}

#[test]
fn doctor_report_all_good() {
    let f = DoctorFacts {
        home: "/home/ana".to_string(),
        exe_path: Some("/home/ana/.local/bin/pcurl".to_string()),
        found_paths: vec!["/home/ana/.local/bin/pcurl".to_string()],
        path_var: "/home/ana/.local/bin:/usr/bin".to_string(),
        curl_version: Some("curl 8.5.0 (x86_64-pc-linux-gnu)\nRelease-Date: 2023-12-06\n".to_string()),
        probe_code: Some("200\n".to_string()),
    };
    let out = render_doctor(&f);
    let expected = [
        header().as_str(),
        "  BINARY LOCATION\n\n",
        "  ✅  Running from: /home/ana/.local/bin/pcurl\n",
        "  ✅  Found at: /home/ana/.local/bin/pcurl\n",
        "\n",
        "  PATH CONFIGURATION\n\n",
        "  ✅  /home/ana/.local/bin is in PATH\n",
        "\n",
        "  DEPENDENCIES\n\n",
        "  ✅  curl: curl 8.5.0 (x86_64-pc-linux-gnu)\n",
        "\n",
        "  CONNECTIVITY TEST\n\n",
        "  ✅  Internet connection: OK\n",
        "\n",
        "  SUMMARY\n\n",
        "  ✅  Everything is properly configured!\n",
        "\n",
        "  Try running:\n",
        "  pcurl 'curl https://httpbin.org/get'\n",
        "\n",
    ]
    .concat();
    assert_eq!(to_plain(&out), expected);
    assert_eq!(out[2].style, Style::CyanBold);
}

#[test]
fn doctor_report_with_issues() {
    let f = DoctorFacts {
        home: "/root".to_string(),
        exe_path: None,
        found_paths: vec![],
        path_var: "/usr/bin".to_string(),
        curl_version: None,
        probe_code: Some(" 503 ".to_string()),
    };
    let text = to_plain(&render_doctor(&f));
    let expected = [
        header().as_str(),
        "  BINARY LOCATION\n\n",
        "  ❌  Not found in standard locations\n",
        "\n",
        "  PATH CONFIGURATION\n\n",
        "  ⚠️  /root/.local/bin is NOT in PATH\n",
        "\n",
        "  FIX:\n",
        "  Add this to your ~/.bashrc or ~/.zshrc:\n",
        "  export PATH=\"$HOME/.local/bin:$PATH\"\n",
        "\n",
        "  Then reload your config:\n",
        "  source ~/.zshrc  # or source ~/.bashrc\n",
        "\n",
        "  DEPENDENCIES\n\n",
        "  ❌  curl: Not found (required for HTTP mode)\n",
        "\n",
        "  CONNECTIVITY TEST\n\n",
        "  ⚠️  HTTP status: 503\n",
        "\n",
        "  SUMMARY\n\n",
        "  ⚠️  Found some issues. See the fixes above.\n",
        "\n",
    ]
    .concat();
    assert_eq!(text, expected);
}

#[test]
fn doctor_report_no_connection_and_empty_curl_version() {
    let f = DoctorFacts {
        home: "/h".to_string(),
        exe_path: None,
        found_paths: vec!["/usr/bin/pcurl".to_string(), "/usr/local/bin/pcurl".to_string()],
        path_var: "/h/.local/bin".to_string(),
        curl_version: Some(String::new()),
        probe_code: None,
    };
    let text = to_plain(&render_doctor(&f));
    assert!(text.contains("  ✅  Found at: /usr/bin/pcurl\n  ✅  Found at: /usr/local/bin/pcurl\n"));
    assert!(text.contains("  ✅  curl: curl found\n"));
    assert!(text.contains("  ❌  Could not connect to the internet\n"));
    assert!(text.contains("Everything is properly configured!"));
}
