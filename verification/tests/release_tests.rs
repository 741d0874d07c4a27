use pandora_site::classify::{classify, unmatched_names, DownloadCategory};
use pandora_site::release::{
    parse_release, resolve_response, FetchError, FetchState,
};

fn b(s: &str) -> Vec<u8> {
    s.as_bytes().to_vec()
}

#[test]
fn parses_a_single_asset_payload() {
    let body = b(
        r#"{ "assets": [ { "name": "Pandora.dmg", "browser_download_url": "https://example.invalid/Pandora.dmg" } ] }"#,
    );
    let snap = parse_release(&body).expect("payload should parse");
    assert_eq!(snap.assets.len(), 1);
    assert_eq!(snap.assets[0].name, b("Pandora.dmg"));
    assert_eq!(
        snap.assets[0].download_url,
        b("https://example.invalid/Pandora.dmg")
    );
}

#[test]
fn parses_without_any_whitespace() {
    let body = b(r#"{"assets":[{"name":"a.deb","browser_download_url":"u"}]}"#);
    let snap = parse_release(&body).expect("payload should parse");
    assert_eq!(snap.assets.len(), 1);
    assert_eq!(snap.assets[0].name, b("a.deb"));
    assert_eq!(snap.assets[0].download_url, b("u"));
}

#[test]
fn parses_pretty_printed_payload() {
    let body = b("{\n  \"assets\": [\n    {\n      \"name\": \"a.exe\",\n      \"browser_download_url\": \"u1\"\n    },\n    {\n      \"name\": \"b.dmg\",\n      \"browser_download_url\": \"u2\"\n    }\n  ]\n}\n");
    let snap = parse_release(&body).expect("payload should parse");
    assert_eq!(snap.assets.len(), 2);
    assert_eq!(snap.assets[0].name, b("a.exe"));
    assert_eq!(snap.assets[1].name, b("b.dmg"));
    assert_eq!(snap.assets[1].download_url, b("u2"));
}

#[test]
fn parses_an_empty_asset_list() {
    let body = b(r#"{ "assets": [] }"#);
    let snap = parse_release(&body).expect("payload should parse");
    assert_eq!(snap.assets.len(), 0);
}

#[test]
fn rejects_an_empty_body() {
    assert!(parse_release(&b("")).is_none());
}

#[test]
fn rejects_a_wrong_top_level_key() {
    let body = b(r#"{ "items": [] }"#);
    assert!(parse_release(&body).is_none());
}

#[test]
fn rejects_a_truncated_payload() {
    let body = b(r#"{ "assets": [ { "name": "a.deb", "browser_download_url": "u""#);
    assert!(parse_release(&body).is_none());
}

#[test]
fn rejects_trailing_garbage() {
    let body = b(r#"{ "assets": [] } extra"#);
    assert!(parse_release(&body).is_none());
}

#[test]
fn decodes_escapes_in_extracted_strings() {
    let body = b(r#"{ "assets": [ { "name": "a\"b\\c\/d.deb", "browser_download_url": "u\n" } ] }"#);
    let snap = parse_release(&body).expect("payload should parse");
    assert_eq!(snap.assets[0].name, b("a\"b\\c/d.deb"));
    assert_eq!(snap.assets[0].download_url, b("u\n"));
}

#[test]
fn rejects_a_unicode_escape_in_an_extracted_string() {
    let body = b(r#"{ "assets": [ { "name": "a\u0041.deb", "browser_download_url": "u" } ] }"#);
    assert!(parse_release(&body).is_none());
}

#[test]
fn ignores_unknown_members_and_key_order() {
    // The shape of a real release payload: many other members besides
    // "assets", and asset members in any order.
    let body = b(
        r#"{
            "url": "https://example.invalid/releases/1",
            "id": 171293866,
            "tag_name": "v0.1.2",
            "draft": false,
            "author": { "login": "someone", "ids": [1, 2.5e3, null] },
            "assets": [
                {
                    "size": 123456,
                    "browser_download_url": "https://example.invalid/Pandora.dmg",
                    "content_type": "application/octet-stream",
                    "name": "Pandora.dmg",
                    "uploader": { "login": "someone", "site_admin": false }
                }
            ],
            "body": "Release notes\r\nwith \"escapes\" and more text"
        }"#,
    );
    let snap = parse_release(&body).expect("payload should parse");
    assert_eq!(snap.assets.len(), 1);
    assert_eq!(snap.assets[0].name, b("Pandora.dmg"));
    assert_eq!(
        snap.assets[0].download_url,
        b("https://example.invalid/Pandora.dmg")
    );
}

#[test]
fn later_value_wins_when_a_key_repeats() {
    let body = b(r#"{ "assets": [ { "name": "old.deb", "browser_download_url": "u", "name": "new.deb" } ] }"#);
    let snap = parse_release(&body).expect("payload should parse");
    assert_eq!(snap.assets[0].name, b("new.deb"));
}

#[test]
fn rejects_an_asset_missing_a_required_member() {
    let only_name = b(r#"{ "assets": [ { "name": "a.deb" } ] }"#);
    assert!(parse_release(&only_name).is_none());
    let empty_asset = b(r#"{ "assets": [ { } ] }"#);
    assert!(parse_release(&empty_asset).is_none());
}

#[test]
fn rejects_a_payload_without_an_assets_member() {
    assert!(parse_release(&b(r#"{ }"#)).is_none());
    assert!(parse_release(&b(r#"{ "tag_name": "v1" }"#)).is_none());
}

#[test]
fn rejects_a_non_object_body() {
    assert!(parse_release(&b("[1, 2, 3]")).is_none());
    assert!(parse_release(&b("null")).is_none());
}

#[test]
fn success_status_with_good_body_resolves_ok() {
    let body = b(r#"{ "assets": [ { "name": "a.deb", "browser_download_url": "u" } ] }"#);
    let snap = resolve_response(200, &body).expect("should resolve");
    assert_eq!(snap.assets.len(), 1);
    assert!(resolve_response(299, &body).is_ok());
}

#[test]
fn http_error_status_resolves_to_network_error() {
    let body = b(r#"{ "assets": [] }"#);
    assert_eq!(
        resolve_response(500, &body),
        Err(FetchError::NetworkError)
    );
    assert_eq!(
        resolve_response(404, &body),
        Err(FetchError::NetworkError)
    );
    assert_eq!(
        resolve_response(199, &body),
        Err(FetchError::NetworkError)
    );
    assert_eq!(
        resolve_response(300, &body),
        Err(FetchError::NetworkError)
    );
}

#[test]
fn bad_body_resolves_to_parse_error() {
    assert_eq!(
        resolve_response(200, &b("not json")),
        Err(FetchError::ParseError)
    );
}

#[test]
fn initial_state_is_loading() {
    assert!(matches!(FetchState::initial(), FetchState::Loading));
}

#[test]
fn simulated_http_500_gives_failure_state_and_no_entries() {
    let body = b(r#"{ "assets": [ { "name": "Pandora.dmg", "browser_download_url": "u" } ] }"#);
    let result = resolve_response(500, &body);
    let state = FetchState::from_result(result);
    assert!(matches!(state, FetchState::Failure));
    // A failed fetch leaves no snapshot, so every download slot stays empty.
    let no_assets = Vec::new();
    let map = classify(&no_assets);
    assert_eq!(map.get(DownloadCategory::WindowsInstaller), None);
    assert_eq!(map.get(DownloadCategory::MacInstaller), None);
}

#[test]
fn end_to_end_mocked_release_payload() {
    let body = b(
        r#"{ "assets": [
            { "name": "Foo-Setup.exe", "browser_download_url": "u1" },
            { "name": "Foo.AppImage", "browser_download_url": "u2" },
            { "name": "Foo.deb", "browser_download_url": "u3" },
            { "name": "Foo-macOS", "browser_download_url": "u4" },
            { "name": "Foo.dmg", "browser_download_url": "u5" },
            { "name": "unknown.bin", "browser_download_url": "u6" }
        ] }"#,
    );
    let snap = match FetchState::from_result(resolve_response(200, &body)) {
        FetchState::Success(snap) => snap,
        _ => panic!("expected a successful fetch"),
    };
    assert_eq!(snap.assets.len(), 6);
    let map = classify(&snap.assets);
    // Exactly five categories are filled.
    assert_eq!(map.get(DownloadCategory::WindowsInstaller), Some(&b("u1")));
    assert_eq!(map.get(DownloadCategory::LinuxAppImage), Some(&b("u2")));
    assert_eq!(
        map.get(DownloadCategory::LinuxDebianInstaller),
        Some(&b("u3"))
    );
    assert_eq!(map.get(DownloadCategory::MacPortable), Some(&b("u4")));
    assert_eq!(map.get(DownloadCategory::MacInstaller), Some(&b("u5")));
    assert_eq!(map.get(DownloadCategory::WindowsPortable), None);
    assert_eq!(map.get(DownloadCategory::LinuxPortable), None);
    // The unrecognized asset produces a diagnostic and no entry.
    assert_eq!(unmatched_names(&snap.assets), vec![b("unknown.bin")]);
}
