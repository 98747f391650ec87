//! The live-or-archive fetch sequence, as a state machine over plain values.
//!
//! The machine decides which request to send next and what the outcome of a
//! fetch is; the caller performs the HTTP requests and feeds each response
//! back. Steps: a live GET with a hard timeout; on failure, the archive's
//! CDX index is asked for the newest good snapshot; on a hit, the snapshot
//! itself is fetched. CDX rows are decoded by `serde_json` behind a trusted
//! wrapper; timestamp selection and URL construction are verified.

use vstd::prelude::*;
use vstd::string::StringExecFns;

verus! {

/// The CDX response parsed as rows of strings, `None` when the bytes are not
/// JSON of that shape.
pub uninterp spec fn json_string_rows(body: Seq<u8>) -> Option<Seq<Seq<Seq<char>>>>;

/// Relies on serde_json::from_slice deserializing into nested vectors of
/// strings: acceptance and the rows are pure functions of the bytes.
#[verifier::external_body]
fn parse_string_rows(body: &[u8]) -> (r: Option<Vec<Vec<String>>>)
    ensures
        r is Some <==> json_string_rows(body@) is Some,
        r matches Some(v) ==> json_string_rows(body@) == Some(v.deep_view()),
{
    match serde_json::from_slice::<Vec<Vec<String>>>(body) {
        Ok(v) => Some(v),
        Err(_) => None,
    }
}

/// The snapshot timestamp a CDX answer carries: the first column of its
/// second row (the first row is the header).
pub open spec fn cdx_timestamp_spec(body: Seq<u8>) -> Option<Seq<char>> {
    match json_string_rows(body) {
        None => None,
        Some(rows) => if rows.len() >= 2 && rows[1].len() >= 1 {
            Some(rows[1][0])
        } else {
            None
        },
    }
}

/// Extract the snapshot timestamp from a CDX JSON body.
pub fn cdx_timestamp(body: &[u8]) -> (r: Option<String>)
    ensures
        r is Some <==> cdx_timestamp_spec(body@) is Some,
        r matches Some(t) ==> cdx_timestamp_spec(body@) == Some(t@),
{
    match parse_string_rows(body) {
        None => None,
        Some(rows) => {
            if rows.len() >= 2 {
                let row = &rows[1];
                if row.len() >= 1 {
                    let mut out = String::new();
                    out.append(row[0].as_str());
                    proof {
                        assert(out@ =~= rows.deep_view()[1][0]);
                    }
                    Some(out)
                } else {
                    None
                }
            } else {
                None
            }
        },
    }
}

/// The CDX query asking for the newest good snapshot of one URL.
pub open spec fn cdx_snapshot_query_spec(url: Seq<char>) -> Seq<char> {
    "https://web.archive.org/cdx/search/cdx?url="@ + url
        + "&output=json&fl=timestamp,original&filter=statuscode:200&limit=1&sort=descending"@
}

pub fn cdx_snapshot_query(url: &str) -> (r: String)
    ensures
        r@ == cdx_snapshot_query_spec(url@),
{
    let mut out = String::new();
    out.append("https://web.archive.org/cdx/search/cdx?url=");
    out.append(url);
    out.append("&output=json&fl=timestamp,original&filter=statuscode:200&limit=1&sort=descending");
    proof {
        assert(out@ =~= cdx_snapshot_query_spec(url@));
    }
    out
}

/// The CDX query listing a host's known URLs, one per line.
pub open spec fn cdx_domain_query_spec(host: Seq<char>) -> Seq<char> {
    "https://web.archive.org/cdx/search/cdx?url="@ + host
        + "/*&matchType=domain&collapse=urlkey&output=txt&fl=original"@
}

pub fn cdx_domain_query(host: &str) -> (r: String)
    ensures
        r@ == cdx_domain_query_spec(host@),
{
    let mut out = String::new();
    out.append("https://web.archive.org/cdx/search/cdx?url=");
    out.append(host);
    out.append("/*&matchType=domain&collapse=urlkey&output=txt&fl=original");
    proof {
        assert(out@ =~= cdx_domain_query_spec(host@));
    }
    out
}

/// The URL of one timestamped snapshot, with the raw-bytes modifier.
pub open spec fn snapshot_url_spec(ts: Seq<char>, url: Seq<char>) -> Seq<char> {
    "https://web.archive.org/web/"@ + ts + "id_/"@ + url
}

pub fn snapshot_url(ts: &str, url: &str) -> (r: String)
    ensures
        r@ == snapshot_url_spec(ts@, url@),
{
    let mut out = String::new();
    out.append("https://web.archive.org/web/");
    out.append(ts);
    out.append("id_/");
    out.append(url);
    proof {
        assert(out@ =~= snapshot_url_spec(ts@, url@));
    }
    out
}

/// The User-Agent header every request carries.
pub fn user_agent() -> (r: &'static str)
    ensures
        r@ == "curl/8.4.0"@,
{
    "curl/8.4.0"
}

/// The hard timeout of the live GET, in seconds.
pub fn live_timeout_secs() -> (r: u64)
    ensures
        r == 15,
{
    15
}

/// What one HTTP exchange came to: `ok` is false on a transport error or
/// timeout; `status` and `body` are meaningful only when `ok`.
pub struct HttpResult {
    pub ok: bool,
    pub status: u16,
    pub body: Vec<u8>,
}

pub open spec fn is_2xx(status: u16) -> bool {
    200 <= status < 300
}

/// Where the fetch sequence stands: which response it is waiting for.
pub enum FetchPhase {
    LiveWait,
    CdxWait,
    SnapshotWait,
    Finished,
}

/// What the caller must do next.
pub enum FetchAction {
    /// Send a GET to `url` (with the library's User-Agent), honouring the
    /// timeout when one is given, and feed the result back.
    Request { url: String, timeout_secs: Option<u64> },
    /// The fetch succeeded: the resource's bytes, the URL they were really
    /// fetched from, and whether that was the archive.
    Succeed { body: Vec<u8>, effective_url: String, from_archive: bool },
    /// The fetch failed; the URL is skipped.
    Fail { error: FetchError },
}

/// Why a fetch failed.
pub enum FetchError {
    /// The CDX index did not answer with status 200.
    CdxStatus,
    /// The CDX answer carried no snapshot timestamp.
    NoTimestamp,
    /// The snapshot itself could not be fetched.
    SnapshotStatus,
}

/// One URL's live-or-archive fetch in progress.
pub struct FetchFlow {
    pub url: String,
    pub phase: FetchPhase,
    pub archive_url: Option<String>,
}

impl FetchFlow {
    /// Begin fetching a URL: the first action is the live GET with the hard
    /// timeout.
    pub fn start(url: &str) -> (r: (FetchFlow, FetchAction))
        ensures
            r.0.url@ == url@,
            r.0.phase is LiveWait,
            r.1 matches FetchAction::Request { url: u, timeout_secs } ==> u@ == url@
                && timeout_secs == Some(15u64),
            r.1 is Request,
    {
        let mut u1 = String::new();
        u1.append(url);
        let mut u2 = String::new();
        u2.append(url);
        proof {
            assert(Seq::<char>::empty() + url@ =~= url@);
        }
        (
            FetchFlow { url: u1, phase: FetchPhase::LiveWait, archive_url: None },
            FetchAction::Request { url: u2, timeout_secs: Some(15) },
        )
    }

    /// Feed back the response the last action asked for; the machine hands
    /// out the next action. A live success finishes with the original URL;
    /// a live failure asks the CDX index; a good CDX answer asks for the
    /// snapshot named by its timestamp; a snapshot success finishes with the
    /// archive URL and the archive flag set.
    pub fn on_response(&mut self, resp: HttpResult) -> (a: FetchAction)
        requires
            !(old(self).phase is Finished),
            old(self).phase is SnapshotWait ==> old(self).archive_url is Some,
        ensures
            final(self).url@ == old(self).url@,
            match old(self).phase {
                FetchPhase::LiveWait => {
                    if resp.ok && is_2xx(resp.status) {
                        &&& final(self).phase is Finished
                        &&& a matches FetchAction::Succeed { body, effective_url, from_archive }
                            && body@ == resp.body@ && effective_url@ == old(self).url@
                            && from_archive == false
                    } else {
                        &&& final(self).phase is CdxWait
                        &&& a matches FetchAction::Request { url, timeout_secs } && url@
                            == cdx_snapshot_query_spec(old(self).url@) && timeout_secs is None
                    }
                },
                FetchPhase::CdxWait => {
                    if resp.ok && resp.status == 200 && cdx_timestamp_spec(resp.body@) is Some {
                        &&& final(self).phase is SnapshotWait
                        &&& final(self).archive_url matches Some(au) && au@ == snapshot_url_spec(
                            cdx_timestamp_spec(resp.body@)->Some_0,
                            old(self).url@,
                        )
                        &&& a matches FetchAction::Request { url, timeout_secs } && url@
                            == snapshot_url_spec(
                            cdx_timestamp_spec(resp.body@)->Some_0,
                            old(self).url@,
                        ) && timeout_secs is None
                    } else if resp.ok && resp.status == 200 {
                        &&& final(self).phase is Finished
                        &&& a matches FetchAction::Fail { error } && error is NoTimestamp
                    } else {
                        &&& final(self).phase is Finished
                        &&& a matches FetchAction::Fail { error } && error is CdxStatus
                    }
                },
                FetchPhase::SnapshotWait => {
                    if resp.ok && is_2xx(resp.status) {
                        &&& final(self).phase is Finished
                        &&& a matches FetchAction::Succeed { body, effective_url, from_archive }
                            && body@ == resp.body@ && effective_url@ == old(
                            self,
                        ).archive_url->Some_0@ && from_archive == true
                    } else {
                        &&& final(self).phase is Finished
                        &&& a matches FetchAction::Fail { error } && error is SnapshotStatus
                    }
                },
                FetchPhase::Finished => false,
            },
    {
        match self.phase {
            FetchPhase::LiveWait => {
                if resp.ok && 200 <= resp.status && resp.status < 300 {
                    self.phase = FetchPhase::Finished;
                    let mut eff = String::new();
                    eff.append(self.url.as_str());
                    proof {
                        assert(Seq::<char>::empty() + self.url@ =~= self.url@);
                    }
                    FetchAction::Succeed { body: resp.body, effective_url: eff, from_archive: false }
                } else {
                    self.phase = FetchPhase::CdxWait;
                    FetchAction::Request {
                        url: cdx_snapshot_query(self.url.as_str()),
                        timeout_secs: None,
                    }
                }
            },
            FetchPhase::CdxWait => {
                if resp.ok && resp.status == 200 {
                    match cdx_timestamp(resp.body.as_slice()) {
                        Some(ts) => {
                            let snap = snapshot_url(ts.as_str(), self.url.as_str());
                            let mut snap2 = String::new();
                            snap2.append(snap.as_str());
                            proof {
                                assert(Seq::<char>::empty() + snap@ =~= snap@);
                            }
                            self.phase = FetchPhase::SnapshotWait;
                            self.archive_url = Some(snap);
                            FetchAction::Request { url: snap2, timeout_secs: None }
                        },
                        None => {
                            self.phase = FetchPhase::Finished;
                            FetchAction::Fail { error: FetchError::NoTimestamp }
                        },
                    }
                } else {
                    self.phase = FetchPhase::Finished;
                    FetchAction::Fail { error: FetchError::CdxStatus }
                }
            },
            FetchPhase::SnapshotWait => {
                self.phase = FetchPhase::Finished;
                if resp.ok && 200 <= resp.status && resp.status < 300 {
                    let eff = match &self.archive_url {
                        Some(au) => {
                            let mut e = String::new();
                            e.append(au.as_str());
                            proof {
                                assert(Seq::<char>::empty() + au@ =~= au@);
                            }
                            e
                        },
                        None => String::new(),
                    };
                    FetchAction::Succeed { body: resp.body, effective_url: eff, from_archive: true }
                } else {
                    FetchAction::Fail { error: FetchError::SnapshotStatus }
                }
            },
            FetchPhase::Finished => {
                proof {
                    assert(false);
                }
                FetchAction::Fail { error: FetchError::CdxStatus }
            },
        }
    }
}

} // verus!
