use pandora_site::bytes::{bytes_eq, contains_seq, ends_with};

fn b(s: &str) -> Vec<u8> {
    s.as_bytes().to_vec()
}

#[test]
fn ends_with_finds_a_suffix() {
    assert!(ends_with(&b("Pandora.dmg"), &b(".dmg")));
    assert!(!ends_with(&b("Pandora.dmg"), &b(".exe")));
    assert!(!ends_with(&b("g"), &b(".dmg")));
    assert!(ends_with(&b("anything"), &b("")));
}

#[test]
fn contains_finds_a_substring_anywhere() {
    assert!(contains_seq(&b("Pandora-macOS-arm64"), &b("-macOS")));
    assert!(contains_seq(&b("-macOS"), &b("-macOS")));
    assert!(!contains_seq(&b("Pandora-Linux"), &b("-macOS")));
    assert!(contains_seq(&b(""), &b("")));
    assert!(!contains_seq(&b(""), &b("x")));
}

#[test]
fn bytes_eq_compares_contents() {
    assert!(bytes_eq(&b("abc"), &b("abc")));
    assert!(!bytes_eq(&b("abc"), &b("abd")));
    assert!(!bytes_eq(&b("abc"), &b("ab")));
    assert!(bytes_eq(&b(""), &b("")));
}
