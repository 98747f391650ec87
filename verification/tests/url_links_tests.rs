use webhound::urlparse::{normalize_host, detect_ext, root_of};
use webhound::links::{extract_links, normalize_link_exec};

#[test]
fn normalize_host_strips_scheme_and_slashes() {
    assert_eq!(normalize_host(" https://example.com/ "), "example.com");
    assert_eq!(normalize_host("http://example.com"), "example.com");
    assert_eq!(normalize_host("example.com"), "example.com");
    assert_eq!(normalize_host("//example.com//"), "example.com");
}

#[test]
fn detect_ext_lowers_and_takes_last_segment() {
    assert_eq!(detect_ext("http://x.com/a/B.TXT"), Some("txt".to_string()));
    assert_eq!(detect_ext("http://x.com/a/b"), None);
    assert_eq!(detect_ext("http://x.com/d/.env"), Some("env".to_string()));
    assert_eq!(detect_ext("http://x.com/a.tar.gz"), Some("gz".to_string()));
    assert_eq!(detect_ext("not a url"), None);
}

#[test]
fn parsing_feeds_the_fingerprint_host_and_path() {
    // the host and the path of the parsed URL reach the safe name
    let name = webhound::fingerprint::sanitize_filename("https://sub.example.com/a/b.html?q=1");
    assert!(name.starts_with("sub.example.com_a_b.html__"));
}

#[test]
fn root_of_builds_scheme_and_host() {
    assert_eq!(root_of("https://a.example/x/y"), Some("https://a.example".to_string()));
    assert_eq!(root_of("mailto:joe@example.com"), None);
}

#[test]
fn normalize_link_joins_relative_references() {
    let r = normalize_link_exec("http://ex.test/a.html", "b.txt");
    assert_eq!(r, Some("http://ex.test/b.txt".to_string()));
    let abs = normalize_link_exec("http://ex.test/a.html", "https://other.test/z");
    assert_eq!(abs, Some("https://other.test/z".to_string()));
}

#[test]
fn normalize_link_skips_non_fetchable_schemes() {
    let base = "http://ex.test/a.html";
    assert_eq!(normalize_link_exec(base, "mailto:x@y"), None);
    assert_eq!(normalize_link_exec(base, "javascript:void(0)"), None);
    assert_eq!(normalize_link_exec(base, "#frag"), None);
    assert_eq!(normalize_link_exec(base, "data:text/plain,hi"), None);
    assert_eq!(normalize_link_exec(base, "   "), None);
}

#[test]
fn extract_links_collects_href_and_src() {
    let html = "<a href=\"b.txt\">x</a><img src=\"i.png\"><a href=\"b.txt\">again</a>";
    let links = extract_links(html, "http://ex.test/a.html");
    assert_eq!(links.len(), 2);
    assert!(links.contains(&"http://ex.test/b.txt".to_string()));
    assert!(links.contains(&"http://ex.test/i.png".to_string()));
}

#[test]
fn extract_links_skips_mailto_javascript_fragment_data() {
    let html = "<a href=\"mailto:x@y\">m</a><a href=\"javascript:void(0)\">j</a>\
                <a href=\"#frag\">f</a><a href=\"data:text/plain,hi\">d</a>";
    let links = extract_links(html, "http://ex.test/a.html");
    assert_eq!(links.len(), 0);
}

#[test]
fn extract_links_with_unparseable_base_is_empty() {
    assert_eq!(extract_links("<a href=\"b.txt\">x</a>", "::junk::").len(), 0);
}
