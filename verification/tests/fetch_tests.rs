use webhound::fetch::{
    FetchAction, FetchError, FetchFlow, FetchPhase, HttpResult, cdx_domain_query,
    cdx_snapshot_query, cdx_timestamp, live_timeout_secs, snapshot_url, user_agent,
};

fn ok(status: u16, body: &[u8]) -> HttpResult {
    HttpResult { ok: true, status, body: body.to_vec() }
}

fn transport_error() -> HttpResult {
    HttpResult { ok: false, status: 0, body: Vec::new() }
}

#[test]
fn cdx_timestamp_reads_second_row() {
    let body = b"[[\"timestamp\",\"original\"],[\"20240101000000\",\"http://x\"]]";
    assert_eq!(cdx_timestamp(body), Some("20240101000000".to_string()));
}

#[test]
fn cdx_timestamp_missing_row_or_schema() {
    assert_eq!(cdx_timestamp(b"[[\"timestamp\",\"original\"]]"), None);
    assert_eq!(cdx_timestamp(b"[]"), None);
    assert_eq!(cdx_timestamp(b"{\"rows\": 1}"), None);
    assert_eq!(cdx_timestamp(b"not json"), None);
    assert_eq!(cdx_timestamp(b"[[1,2],[3,4]]"), None);
}

#[test]
fn query_urls_have_the_wire_shape() {
    assert_eq!(
        cdx_snapshot_query("http://e.test/a"),
        "https://web.archive.org/cdx/search/cdx?url=http://e.test/a&output=json&fl=timestamp,original&filter=statuscode:200&limit=1&sort=descending"
    );
    assert_eq!(
        cdx_domain_query("e.test"),
        "https://web.archive.org/cdx/search/cdx?url=e.test/*&matchType=domain&collapse=urlkey&output=txt&fl=original"
    );
    assert_eq!(
        snapshot_url("20240101000000", "http://e.test/a"),
        "https://web.archive.org/web/20240101000000id_/http://e.test/a"
    );
    assert_eq!(user_agent(), "curl/8.4.0");
    assert_eq!(live_timeout_secs(), 15);
}

#[test]
fn live_success_finishes_with_original_url() {
    let (mut flow, first) = FetchFlow::start("http://ex.test/a.html");
    match first {
        FetchAction::Request { url, timeout_secs } => {
            assert_eq!(url, "http://ex.test/a.html");
            assert_eq!(timeout_secs, Some(15));
        },
        _ => panic!("expected a request"),
    }
    let action = flow.on_response(ok(200, b"<a href=\"b.txt\">"));
    match action {
        FetchAction::Succeed { body, effective_url, from_archive } => {
            assert_eq!(body, b"<a href=\"b.txt\">".to_vec());
            assert_eq!(effective_url, "http://ex.test/a.html");
            assert!(!from_archive);
        },
        _ => panic!("expected success"),
    }
    assert!(matches!(flow.phase, FetchPhase::Finished));
}

#[test]
fn live_timeout_falls_back_to_archive() {
    let seed = "http://ex.test/a.html";
    let (mut flow, _) = FetchFlow::start(seed);
    // the live GET times out
    let action = flow.on_response(transport_error());
    match action {
        FetchAction::Request { url, timeout_secs } => {
            assert_eq!(url, cdx_snapshot_query(seed));
            assert_eq!(timeout_secs, None);
        },
        _ => panic!("expected the CDX request"),
    }
    // CDX answers with a snapshot timestamp
    let cdx_body = b"[[\"timestamp\",\"original\"],[\"20240101000000\",\"http://ex.test/a.html\"]]";
    let action = flow.on_response(ok(200, cdx_body));
    let expected = "https://web.archive.org/web/20240101000000id_/http://ex.test/a.html";
    match action {
        FetchAction::Request { url, timeout_secs } => {
            assert_eq!(url, expected);
            assert_eq!(timeout_secs, None);
        },
        _ => panic!("expected the snapshot request"),
    }
    // the snapshot body comes back: the effective URL is the archive URL
    let action = flow.on_response(ok(200, b"archived bytes"));
    match action {
        FetchAction::Succeed { body, effective_url, from_archive } => {
            assert_eq!(body, b"archived bytes".to_vec());
            assert_eq!(effective_url, expected);
            assert!(from_archive);
        },
        _ => panic!("expected success"),
    }
}

#[test]
fn non_2xx_live_status_also_falls_back() {
    let (mut flow, _) = FetchFlow::start("http://ex.test/x");
    let action = flow.on_response(ok(404, b""));
    assert!(matches!(action, FetchAction::Request { .. }));
    assert!(matches!(flow.phase, FetchPhase::CdxWait));
}

#[test]
fn cdx_failure_modes() {
    let (mut flow, _) = FetchFlow::start("http://ex.test/x");
    flow.on_response(transport_error());
    let action = flow.on_response(ok(503, b""));
    assert!(matches!(action, FetchAction::Fail { error: FetchError::CdxStatus }));

    let (mut flow2, _) = FetchFlow::start("http://ex.test/x");
    flow2.on_response(transport_error());
    let action = flow2.on_response(ok(200, b"[[\"timestamp\",\"original\"]]"));
    assert!(matches!(action, FetchAction::Fail { error: FetchError::NoTimestamp }));
}

#[test]
fn snapshot_failure_fails_the_fetch() {
    let (mut flow, _) = FetchFlow::start("http://ex.test/x");
    flow.on_response(transport_error());
    let cdx_body = b"[[\"timestamp\",\"original\"],[\"19990101000000\",\"http://ex.test/x\"]]";
    flow.on_response(ok(200, cdx_body));
    let action = flow.on_response(ok(500, b""));
    assert!(matches!(action, FetchAction::Fail { error: FetchError::SnapshotStatus }));
}
