use pandora_site::detect::{detect_platform, Platform};

fn b(s: &str) -> Vec<u8> {
    s.as_bytes().to_vec()
}

#[test]
fn macintosh_user_agent_is_macos() {
    assert_eq!(
        detect_platform(&b("Mozilla/5.0 (Macintosh; Intel Mac OS X 10_15_7)")),
        Platform::MacOS
    );
}

#[test]
fn windows_user_agent_is_windows() {
    assert_eq!(
        detect_platform(&b("Mozilla/5.0 (Windows NT 10.0; Win64; x64)")),
        Platform::Windows
    );
}

#[test]
fn linux_user_agent_is_linux() {
    assert_eq!(
        detect_platform(&b("Mozilla/5.0 (X11; Linux x86_64)")),
        Platform::Linux
    );
}

#[test]
fn empty_user_agent_is_unknown() {
    assert_eq!(detect_platform(&b("")), Platform::Unknown);
}

#[test]
fn unrecognized_user_agent_is_unknown() {
    assert_eq!(detect_platform(&b("curl/8.0.1")), Platform::Unknown);
}

#[test]
fn mac_is_checked_before_windows() {
    // "Mac" wins even when "Win" occurs too, as in a spoofed agent string.
    assert_eq!(
        detect_platform(&b("Windows Macintosh")),
        Platform::MacOS
    );
}
