use webhound::fingerprint::sanitize_filename;

fn char_ok(c: char) -> bool {
    c.is_ascii_alphanumeric() || c == '_' || c == '.' || c == '-'
}

#[test]
fn fingerprint_is_deterministic() {
    let a = sanitize_filename("http://example.com/index.html");
    let b = sanitize_filename("http://example.com/index.html");
    assert_eq!(a, b);
}

#[test]
fn fingerprint_shape_for_plain_url() {
    let name = sanitize_filename("http://example.com/a.html");
    // host + path with slashes replaced, then the separator and 12 hex chars
    assert!(name.starts_with("example.com_a.html__"));
    assert_eq!(name.len(), "example.com_a.html__".len() + 12);
    let tail: String = name.chars().skip("example.com_a.html__".len()).collect();
    assert!(tail.chars().all(|c| c.is_ascii_hexdigit() && !c.is_ascii_uppercase()));
}

#[test]
fn fingerprint_charset_and_length() {
    let name = sanitize_filename("https://sub.example.com/some/deep/path/file.txt?q=1&x=2");
    assert!(name.len() <= 100);
    assert!(name.chars().all(char_ok));
}

#[test]
fn fingerprint_replaces_problem_characters() {
    let name = sanitize_filename("http://example.com/a b:c*d.txt");
    assert!(!name.contains(' '));
    assert!(!name.contains(':'));
    assert!(!name.contains('*'));
    assert!(!name.contains('/'));
}

#[test]
fn fingerprint_uses_digest_not_identity() {
    // same host and path, different query: only the SHA-256 suffix differs
    let a = sanitize_filename("http://example.com/p?a=1");
    let b = sanitize_filename("http://example.com/p?a=2");
    assert_ne!(a, b);
    assert_eq!(a.len(), b.len());
}

#[test]
fn fingerprint_unparseable_url_uses_unknown_host() {
    let name = sanitize_filename("not a url at all");
    assert!(name.starts_with("unknown_"));
}

#[test]
fn fingerprint_truncates_long_paths() {
    let long = format!("http://example.com/{}", "x".repeat(500));
    let name = sanitize_filename(&long);
    assert!(name.len() <= 100);
}
