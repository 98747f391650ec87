use webhound::serve::{mime_for, resolve_request_path};
use webhound::vision::{Labels, csv_header, is_image_name};
use webhound::screenshot::{screenshot_path, should_retry_tab_error, tab_attempts};
use webhound::fingerprint::sanitize_filename;

#[test]
fn request_path_strips_query_and_fragment() {
    assert_eq!(resolve_request_path("/a/b.html?q=1#frag"), "a/b.html");
}

#[test]
fn bare_and_directory_requests_get_index() {
    assert_eq!(resolve_request_path("/"), "index.html");
    assert_eq!(resolve_request_path(""), "index.html");
    assert_eq!(resolve_request_path("/dir/"), "dir/index.html");
}

#[test]
fn traversal_is_collapsed_before_joining() {
    // the cut runs from the slash before the segment through the traversal,
    // so both separators go with it
    assert_eq!(resolve_request_path("/a/b/../c.html"), "ac.html");
    assert!(!resolve_request_path("/a/b/../../c.html").contains("/../"));
}

#[test]
fn traversal_past_the_root_is_neutralized() {
    let path = resolve_request_path("/../../etc/passwd");
    assert!(!path.contains(".."));
    assert!(!path.starts_with('/'));
}

#[test]
fn leading_up_reference_stays_under_the_root() {
    // what still points upward after collapsing is dropped, not honoured
    assert_eq!(resolve_request_path("../shot.png"), "shot.png");
    assert_eq!(resolve_request_path("../../shot.png"), "shot.png");
}

#[test]
fn mime_table() {
    assert_eq!(mime_for("index.html"), Some("text/html".to_string()));
    assert_eq!(mime_for("data.csv"), Some("text/csv".to_string()));
    assert_eq!(mime_for("app.js"), Some("application/javascript".to_string()));
    assert_eq!(mime_for("style.css"), Some("text/css".to_string()));
    assert_eq!(mime_for("shot.png"), Some("image/png".to_string()));
    assert_eq!(mime_for("photo.jpg"), Some("image/jpeg".to_string()));
    assert_eq!(mime_for("photo.jpeg"), Some("image/jpeg".to_string()));
    assert_eq!(mime_for("pic.webp"), Some("image/webp".to_string()));
    assert_eq!(mime_for("archive.zip"), None);
}

#[test]
fn eyeballer_labels_in_order() {
    let labels = Labels::eyeballer_default();
    assert_eq!(labels.0, vec!["boring", "interesting", "login", "error", "other"]);
}

#[test]
fn csv_header_lists_probability_columns() {
    let labels = Labels::eyeballer_default();
    let header = csv_header(&labels);
    assert_eq!(
        header,
        vec![
            "file", "top_label", "top_prob", "p_boring", "p_interesting", "p_login", "p_error",
            "p_other",
        ]
    );
}

#[test]
fn image_names_by_extension() {
    assert!(is_image_name("shot.PNG"));
    assert!(is_image_name("a.b.webp"));
    assert!(!is_image_name("notes.txt"));
    assert!(!is_image_name(".png"));
    assert!(!is_image_name("png"));
}

#[test]
fn screenshot_retry_only_once_on_connection_loss() {
    assert!(should_retry_tab_error(1, "WebSocket handshake failed"));
    assert!(should_retry_tab_error(1, "the connection is closed"));
    assert!(!should_retry_tab_error(2, "WebSocket handshake failed"));
    assert!(!should_retry_tab_error(1, "tab crashed"));
    assert_eq!(tab_attempts(), 2);
}

#[test]
fn screenshot_path_is_fingerprinted_png() {
    let url = "http://ex.test/a.html";
    let path = screenshot_path("ws/screenshots", url);
    assert_eq!(path, format!("ws/screenshots/{}.png", sanitize_filename(url)));
}
