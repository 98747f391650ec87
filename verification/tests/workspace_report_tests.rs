use webhound::workspace::{
    Paths, PathsLike, asset_path_for, asset_path_from_dirs, is_archive_ext, is_html_ext,
    is_text_ext,
};
use webhound::report::{findings_block, format_centi};
use webhound::fingerprint::sanitize_filename;

#[test]
fn paths_layout_under_domain() {
    let p = Paths::new("ex.test");
    assert_eq!(p.base, "ex.test");
    assert_eq!(p.out_txt, "ex.test/out.txt");
    assert_eq!(p.subdomains_txt, "ex.test/subdomains.txt");
    assert_eq!(p.screenshots_dir, "ex.test/screenshots");
    assert_eq!(p.jsscripts_dir, "ex.test/JSscripts");
    assert_eq!(p.sensitive_info_txt, "ex.test/sensitive_info.txt");
    assert_eq!(p.assets_dir, "ex.test/assets");
    assert_eq!(PathsLike::assets_dir(&p), "ex.test/assets");
}

#[test]
fn ext_classification() {
    assert!(is_html_ext("html") && is_html_ext("php") && !is_html_ext("txt"));
    assert!(is_text_ext("sql") && is_text_ext("env") && !is_text_ext("zip"));
    assert!(is_archive_ext("tgz") && is_archive_ext("xz") && !is_archive_ext("html"));
}

#[test]
fn js_goes_to_the_scripts_bucket() {
    let p = Paths::new("ws");
    let url = "http://ex.test/app.js";
    let path = asset_path_for(url, "js", &p);
    let safe = sanitize_filename(url);
    assert_eq!(path, format!("ws/JSscripts/{}.js", safe));
}

#[test]
fn known_ext_gets_its_own_bucket_and_unknown_goes_to_bin() {
    let p = Paths::new("ws");
    let html = asset_path_for("http://ex.test/a.html", "html", &p);
    assert!(html.starts_with("ws/assets/html/"));
    assert!(html.ends_with(".html"));
    let weird = asset_path_for("http://ex.test/a.xyz", "xyz", &p);
    assert!(weird.starts_with("ws/assets/bin/"));
    assert!(weird.ends_with(".xyz"));
}

#[test]
fn routed_paths_stay_under_the_workspace() {
    let p = Paths::new("ws");
    for (url, ext) in [
        ("http://ex.test/../../etc/passwd", "bin"),
        ("http://ex.test/a.html", "html"),
        ("http://ex.test/x.js", "js"),
        ("::junk::", "zip"),
    ] {
        let path = asset_path_for(url, ext, &p);
        assert!(
            path.starts_with("ws/assets/") || path.starts_with("ws/JSscripts/"),
            "escaped: {path}"
        );
        let rest = path.split('/').skip(2).collect::<Vec<_>>();
        assert!(rest.iter().all(|seg| *seg != ".." && *seg != "." && !seg.is_empty()));
    }
}

#[test]
fn routing_from_plain_dirs_honours_the_scripts_bucket() {
    let js = asset_path_from_dirs("http://x/a.zip!m.js", "js", "ws/JSscripts", "ws/assets");
    assert!(js.starts_with("ws/JSscripts/"));
    assert!(js.ends_with(".js"));
    let txt = asset_path_from_dirs("http://x/a.zip!m.txt", "txt", "ws/JSscripts", "ws/assets");
    assert!(txt.starts_with("ws/assets/txt/"));
}

#[test]
fn centi_formatting_two_decimals() {
    assert_eq!(format_centi(0), "0.00");
    assert_eq!(format_centi(100), "1.00");
    assert_eq!(format_centi(358), "3.58");
    assert_eq!(format_centi(800), "8.00");
    assert_eq!(format_centi(1234567), "12345.67");
}

#[test]
fn findings_block_grammar() {
    let hits = vec![
        ("rule_a".to_string(), "aaaa".to_string()),
        ("rule_b".to_string(), "ab".to_string()),
    ];
    let block = findings_block("http://ex.test/f.txt", &hits);
    let lines: Vec<&str> = block.lines().collect();
    assert_eq!(lines.len(), 3);
    assert_eq!(lines[0], "http://ex.test/f.txt");
    assert_eq!(lines[1], "  - [rule_a] Найдено: aaaa | len=4 | H≈0.00 bits/char | total≈0.00 bits");
    assert_eq!(lines[2], "  - [rule_b] Найдено: ab | len=2 | H≈1.00 bits/char | total≈2.00 bits");
    assert!(block.ends_with('\n'));
}

#[test]
fn findings_block_one_header_line_per_block() {
    let hits = vec![("r".to_string(), "v".to_string())];
    let block = findings_block("http://u.test/a", &hits);
    assert_eq!(block.matches('\n').count(), 2);
    assert!(block.starts_with("http://u.test/a\n"));
}
