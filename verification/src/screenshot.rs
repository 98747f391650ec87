//! The screenshot task's decisions: where a capture is stored and when a
//! failed browser tab is worth one retry. Driving the browser itself happens
//! outside the library.

use vstd::prelude::*;
use vstd::string::StringExecFns;
use crate::strutil::contains_sub;
use crate::strutil::has_substring;
use crate::fingerprint::sanitize_spec;
use crate::fingerprint::sanitize_filename;

verus! {

/// Where a page's capture is stored: the fingerprint under the screenshots
/// directory, as PNG.
pub open spec fn screenshot_path_spec(dir: Seq<char>, url: Seq<char>) -> Seq<char> {
    dir + "/"@ + sanitize_spec(url) + ".png"@
}

pub fn screenshot_path(dir: &str, url: &str) -> (r: String)
    ensures
        r@ == screenshot_path_spec(dir@, url@),
{
    let safe = sanitize_filename(url);
    let mut out = String::new();
    out.append(dir);
    out.append("/");
    out.append(safe.as_str());
    out.append(".png");
    proof {
        assert(out@ =~= screenshot_path_spec(dir@, url@));
    }
    out
}

/// Whether a failed attempt to open a browser tab is retried: only the first
/// attempt, and only on a lost-connection diagnostic.
pub open spec fn retry_tab_spec(attempt: u32, msg: Seq<char>) -> bool {
    attempt == 1 && (has_substring(msg, "connection is closed"@) || has_substring(
        msg,
        "WebSocket"@,
    ))
}

pub fn should_retry_tab_error(attempt: u32, msg: &str) -> (r: bool)
    ensures
        r == retry_tab_spec(attempt, msg@),
{
    attempt == 1 && (contains_sub(msg, "connection is closed") || contains_sub(msg, "WebSocket"))
}

/// How many times a tab is attempted in all.
pub fn tab_attempts() -> (r: u32)
    ensures
        r == 2,
{
    2
}

} // verus!
