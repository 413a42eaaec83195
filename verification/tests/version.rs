use pcurl::render::{to_plain, Style};
use pcurl::version::{latest_tag_from, newer_version, update_notice};

#[test]
fn latest_tag_from_api_answer() {
    let text = "{\n  \"url\": \"https://api.github.com/x\",\n  \"tag_name\": \"v1.4.0\",\n  \"name\": \"Release\"\n}";
    assert_eq!(latest_tag_from(text), Some("v1.4.0".to_string()));
    let text = "{\n  \"tag_name\": \"v1.2.0\",\n  \"name\": \"Release\"\n}";
    assert_eq!(latest_tag_from(text), Some("v1.2.0".to_string()));
}

#[test]
fn latest_tag_from_first_matching_line() {
    let text = "\"tag_name\": \"v2\",\n\"tag_name\": \"v3\",";
    assert_eq!(latest_tag_from(text), Some("v2".to_string()));
}

#[test]
fn latest_tag_from_compact_json() {
    let text = "{\"url\":\"https://x\",\"tag_name\":\"v9\",\"html_url\":\"https://y\"}";
    assert_eq!(latest_tag_from(text), Some("v9".to_string()));
}

#[test]
fn latest_tag_from_missing() {
    assert_eq!(latest_tag_from(""), None);
    assert_eq!(latest_tag_from("{\"message\": \"Not Found\"}"), None);
}

#[test]
fn latest_tag_from_line_without_comma_or_colon() {
    assert_eq!(latest_tag_from("  \"tag_name\" :  \"v1.0\"  "), Some("v1.0".to_string()));
    // only the first line that mentions the key is read
    assert_eq!(latest_tag_from("x\n\"tag_name\" v1\n\"tag_name\": \"v2\""), None);
    assert_eq!(latest_tag_from("\"tag_name\": v3"), None);
    assert_eq!(latest_tag_from("\"tag_name\": \"v3"), None);
}

#[test]
fn version_comparison() {
    assert!(newer_version("v0.2.0", "0.1.0"));
    assert!(newer_version("1.10.0", "1.9.9"));
    assert!(newer_version("1.0.1", "1.0"));
    assert!(!newer_version("v0.1.0", "0.1.0"));
    assert!(!newer_version("1.0", "1.0.0"));
    assert!(!newer_version("0.0.9", "0.1.0"));
    assert!(!newer_version("2.0.0-beta", "1.0.0"));
    assert!(!newer_version("", "1.0.0"));
}

#[test]
fn update_notice_when_newer() {
    let out = update_notice("0.1.0", "v0.2.0").expect("newer");
    assert_eq!(
        to_plain(&out),
        "⚠️ New version available: 0.1.0 → v0.2.0 (run pcurl --update to update)\n\n"
    );
    assert_eq!(out[0].style, Style::Yellow);
    assert_eq!(out[2].style, Style::Green);
    assert_eq!(out[2].text, "v0.2.0");
}

#[test]
fn update_notice_when_same_or_older() {
    assert!(update_notice("0.1.0", "0.1.0").is_none());
    assert!(update_notice("0.1.0", "v0.1.0").is_none());
    assert!(update_notice("0.2.0", "v0.1.5").is_none());
}
