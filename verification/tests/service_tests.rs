use shuaforge_core::json::{string_at, JsonValue};
use shuaforge_core::logging::{
    redact_json_text, redact_json_value, redact_text, redact_url, summarize_text,
};
use shuaforge_core::self_update::{
    build_download_urls, detect_platform_keywords, file_sha256, get_accelerated_url,
    verify_download,
};
use shuaforge_core::userscript_server::{tampermonkey_install_url, BridgeState};

#[test]
fn redacts_sensitive_url_parts() {
    assert_eq!(
        redact_url("https://example.test/path?api_key=abc#token"),
        "https://example.test/path?<redacted>#<redacted>"
    );
}

#[test]
fn bearer_tokens_are_redacted() {
    assert_eq!(redact_text("Authorization: Bearer secret123"), "Authorization: Bearer <redacted>");
    assert_eq!(redact_text("x?token=abc&y=1"), "x?token=<redacted>&y=1");
}

#[test]
fn summaries_are_redacted_and_cut() {
    let s = summarize_text("key=abcdef and more text", 10);
    assert_eq!(s, "key=<redac…<truncated>");
    assert_eq!(summarize_text("short", 10), "short");
}

#[test]
fn accelerated_url_maps_github_release_path() {
    let original = "https://github.com/zhongbai2333/ShuaForge/releases/download/v0.1.1/ShuaForge-Windows-x64-v0.1.1.zip";
    assert_eq!(
        get_accelerated_url(original),
        "https://dl.zhongbai233.com/release/v0.1.1/ShuaForge-Windows-x64-v0.1.1.zip"
    );
}

#[test]
fn download_urls_include_github_fallback() {
    let original = "https://github.com/zhongbai2333/ShuaForge/releases/download/v0.1.1/ShuaForge-Linux-x64-v0.1.1.zip";
    let urls = build_download_urls(original, false);
    assert!(urls.iter().any(|url| url == original));
    assert_eq!(urls.len(), 2);
    assert_eq!(urls.last().map(String::as_str), Some(original));
    assert_eq!(build_download_urls(original, true), vec![original.to_string()]);
}

#[test]
fn platform_keywords_are_not_empty() {
    assert!(!detect_platform_keywords("linux", "x86_64").is_empty());
    assert_eq!(detect_platform_keywords("linux", "x86_64"), vec!["Linux-x64"]);
    assert_eq!(detect_platform_keywords("plan9", "mips"), vec!["plan9-mips"]);
}

#[test]
fn download_hash_is_checked() {
    let digest = file_sha256(b"abc");
    assert_eq!(digest, "ba7816bf8f01cfea414140de5dae2223b00361a396177a9cb410ff61f20015ad");
    assert!(verify_download(b"abc", None).is_ok());
    assert!(verify_download(b"abc", Some(&digest.to_uppercase())).is_ok());
    assert!(verify_download(b"abd", Some(&digest)).is_err());
}

#[test]
fn userscript_server_official_install_url_wraps_local_userscript_url() {
    let url = tampermonkey_install_url("http://127.0.0.1:5339/shuaforge-question-exporter.user.js");

    assert_eq!(
        url,
        "https://www.tampermonkey.net/script_installation.php#url=http://127.0.0.1:5339/shuaforge-question-exporter.user.js"
    );
}

#[test]
fn ping_registers_browser_clients_for_auto_connection() {
    let mut bridge = BridgeState::new();
    bridge.register_client("auto-client-a".into(), 1_000);
    bridge.register_client("auto-client-b".into(), 1_000);

    let clients = bridge.registered_client_ids(2_000);

    assert!(clients.contains(&"auto-client-a".to_owned()));
    assert!(clients.contains(&"auto-client-b".to_owned()));
}

#[test]
fn snapshot_requests_are_targeted_to_each_registered_client() {
    let mut bridge = BridgeState::new();
    bridge.register_client("target-client-a".into(), 1_000);
    bridge.register_client("target-client-b".into(), 1_000);

    let expected = bridge.request_page_snapshot(2_000, "batch").expect("snapshot receiver");
    let first = bridge.next_bridge_command_json(Some("target-client-a"));
    let second = bridge.next_bridge_command_json(Some("target-client-b"));
    let none_left = bridge.next_bridge_command_json(Some("target-client-a"));

    assert_eq!(expected, 2);
    assert!(first.contains("\"command\":\"snapshot\""));
    assert!(second.contains("\"command\":\"snapshot\""));
    assert_eq!(none_left, "{\"command\":\"none\"}");
}

#[test]
fn snapshot_request_without_pages_is_refused() {
    let mut bridge = BridgeState::new();
    let err = bridge.request_page_snapshot(0, "batch").unwrap_err();
    assert!(err.contains("未发现已打开的题库页面"));
}

#[test]
fn json_secrets_are_redacted_by_key_and_in_text() {
    let doc = JsonValue::Object(vec![
        ("api_key".into(), JsonValue::Str("secret".into())),
        ("model".into(), JsonValue::Str("demo".into())),
        (
            "nested".into(),
            JsonValue::Array(vec![
                JsonValue::Str("Bearer abc".into()),
                JsonValue::Number("42".into()),
                JsonValue::Object(vec![("Client_Secret".into(), JsonValue::Bool(true))]),
            ]),
        ),
    ]);
    let clean = redact_json_value(&doc);
    let JsonValue::Object(members) = clean else { panic!("object expected") };
    assert!(matches!(&members[0].1, JsonValue::Str(s) if s == "<redacted>"));
    assert!(matches!(&members[1].1, JsonValue::Str(s) if s == "demo"));
    let JsonValue::Array(items) = &members[2].1 else { panic!("array expected") };
    assert!(matches!(&items[0], JsonValue::Str(s) if s == "Bearer <redacted>"));
    assert!(matches!(&items[1], JsonValue::Number(n) if n == "42"));
    let JsonValue::Object(inner) = &items[2] else { panic!("object expected") };
    assert!(matches!(&inner[0].1, JsonValue::Str(s) if s == "<redacted>"));
}

#[test]
fn official_install_url_wraps_local_userscript_url() {
    let url = tampermonkey_install_url("http://127.0.0.1:5339/shuaforge-question-exporter.user.js");

    assert_eq!(
        url,
        "https://www.tampermonkey.net/script_installation.php#url=http://127.0.0.1:5339/shuaforge-question-exporter.user.js"
    );
}

#[test]
fn redacts_bearer_tokens_and_json_secrets() {
    assert_eq!(
        redact_text("Authorization: Bearer secret123"),
        "Authorization: Bearer <redacted>"
    );
    let redacted = redact_json_text(r#"{"api_key":"secret","model":"demo"}"#, 200);
    assert!(redacted.contains("<redacted>"));
    assert!(!redacted.contains("secret"));
    assert!(redacted.contains("demo"));
}

#[test]
fn json_log_entries_are_rewritten_compactly_and_cut() {
    assert_eq!(
        redact_json_text("{ \"token\": \"abc\", \"n\": [1, 2.5, true, null] }", 200),
        "{\"n\":[1,2.5,true,null],\"token\":\"<redacted>\"}"
    );
    assert_eq!(redact_json_text("not json token=abc", 200), "not json token=<redacted>");
    assert_eq!(redact_json_text("{\"model\":\"demo\"}", 5), "{\"mod…<truncated>");
}

#[test]
fn strings_are_found_by_pointer_tokens() {
    let text = r#"{"choices":[{"message":{"content":"答复"}}],"n":1,"arr":{"0":"键"}}"#;
    assert_eq!(string_at(text, &["choices", "0", "message", "content"]).as_deref(), Some("答复"));
    assert_eq!(string_at(text, &["arr", "0"]).as_deref(), Some("键"));
    assert_eq!(string_at(text, &["n"]), None);
    assert_eq!(string_at(text, &["choices", "00", "message", "content"]), None);
    assert_eq!(string_at(text, &["choices", "1"]), None);
    assert_eq!(string_at("not json", &[]), None);
    assert_eq!(string_at("\"整段\"", &[]).as_deref(), Some("整段"));
}
