//! The per-URL pipeline and the scan-level list handling.
//!
//! `analyze_resource` is the pure core of processing one fetched resource:
//! route the bytes to an asset path, compose the findings block, inspect
//! archives, and, for a seed's HTML, collect the child URLs to fetch (one
//! level only — children never yield further children). The caller performs
//! the fetches, the file writes and the report append around it.

use vstd::prelude::*;
use vstd::string::StringExecFns;
use vstd::string::StrSliceExecFns;
use vstd::utf8::valid_utf8;
use vstd::utf8::decode_utf8;
use crate::strutil::has_substring_at;
use crate::strutil::matches_at;
use crate::strutil::is_space;
use crate::strutil::char_is_space;
use crate::strutil::trim_spaces;
use crate::strutil::trim_spaces_exec;
use crate::text::is_probably_text;
use crate::text::is_probably_text_spec;
use crate::text::bytes_to_string;
use crate::patterns::Ruleset;
use crate::patterns::rules_view;
use crate::patterns::scan_spec;
use crate::patterns::scan_patterns;
use crate::patterns::ignored_path;
use crate::report::findings_block;
use crate::report::findings_block_spec;
use crate::urlparse::detect_ext;
use crate::urlparse::detect_ext_spec;
use crate::urlparse::root_of;
use crate::urlparse::root_of_spec;
use crate::workspace::PathsLike;
use crate::workspace::asset_path_for;
use crate::workspace::asset_path_spec;
use crate::workspace::is_archive_ext;
use crate::workspace::is_archive_ext_spec;
use crate::workspace::is_html_ext;
use crate::workspace::is_html_ext_spec;
use crate::links::extract_links;
use crate::links::extract_links_spec;
use crate::links::dedup_first;
use crate::links::vec_contains;
use crate::archive::ArchiveOutcome;
use crate::archive::analyze_archive;
use crate::archive::archive_members_spec;
use crate::archive::member_saves;
use crate::archive::member_hits;
use crate::archive::saves_view;

verus! {

/// The concurrency bound of the scheduler's fan-out over seed URLs.
pub fn concurrency_limit() -> (r: usize)
    ensures
        r == 4,
{
    4
}

/// The extension a resource is routed by: the URL's detected extension, or
/// `bin`.
pub open spec fn ext_or_bin(u: Seq<char>) -> Seq<char> {
    match detect_ext_spec(u) {
        Some(e) => e,
        None => "bin"@,
    }
}

/// The report block a buffer yields under a ruleset: nothing unless the
/// bytes sniff as text and decode as UTF-8 and some rule matches; otherwise
/// the URL-headed block of all hits.
pub open spec fn analyze_bytes_spec(
    rules: Seq<(Seq<char>, Seq<char>)>,
    ignores: Seq<Seq<char>>,
    bytes: Seq<u8>,
    url: Seq<char>,
) -> Option<Seq<char>> {
    if !is_probably_text_spec(bytes) {
        None
    } else if !valid_utf8(bytes) {
        None
    } else {
        let hits = scan_spec(rules, ignores, decode_utf8(bytes));
        if hits.len() == 0 {
            None
        } else {
            Some(findings_block_spec(url, hits))
        }
    }
}

/// Scan a fetched body and compose its report block, when it has one.
pub fn analyze_bytes_with_rules(rs: &Ruleset, bytes: &[u8], url: &str) -> (r: Option<String>)
    ensures
        r is Some <==> analyze_bytes_spec(
            rules_view(rs.rules@),
            rs.ignore_values.deep_view(),
            bytes@,
            url@,
        ) is Some,
        r matches Some(b) ==> analyze_bytes_spec(
            rules_view(rs.rules@),
            rs.ignore_values.deep_view(),
            bytes@,
            url@,
        ) == Some(b@),
{
    if !is_probably_text(bytes) {
        return None;
    }
    match bytes_to_string(bytes) {
        None => None,
        Some(text) => {
            let hits = scan_patterns(rs, text.as_str());
            if hits.len() == 0 {
                None
            } else {
                Some(findings_block(url, &hits))
            }
        },
    }
}

/// The sequence with trailing `/` removed.
pub open spec fn trim_end_slashes(s: Seq<char>) -> Seq<char>
    decreases s.len(),
{
    if s.len() > 0 && s.last() == '/' {
        trim_end_slashes(s.take(s.len() - 1))
    } else {
        s
    }
}

fn trim_end_slashes_exec(s: &str) -> (r: String)
    ensures
        r@ == trim_end_slashes(s@),
{
    let mut hi: usize = s.unicode_len();
    proof {
        assert(s@.take(hi as int) =~= s@);
    }
    while hi > 0 && s.get_char(hi - 1) == '/'
        invariant
            hi <= s@.len(),
            trim_end_slashes(s@) == trim_end_slashes(s@.take(hi as int)),
        decreases hi,
    {
        proof {
            let cur = s@.take(hi as int);
            assert(cur.take(cur.len() - 1) =~= s@.take(hi - 1));
        }
        hi = hi - 1;
    }
    let out = s.substring_char(0, hi);
    proof {
        assert(out@ =~= s@.take(hi as int));
        assert(trim_end_slashes(s@.take(hi as int)) == s@.take(hi as int));
    }
    out.to_owned()
}

/// The well-known sibling paths fetched beside a page, when its URL has a
/// root.
pub open spec fn well_known_spec(u: Seq<char>) -> Seq<Seq<char>> {
    match root_of_spec(u) {
        None => Seq::empty(),
        Some(root) => seq![
            trim_end_slashes(root) + "/robots.txt"@,
            trim_end_slashes(root) + "/sitemap.xml"@,
        ],
    }
}

/// The URLs that survive the path ignore list, in order.
pub open spec fn filter_ignored(parts: Seq<Seq<char>>, urls: Seq<Seq<char>>) -> Seq<Seq<char>>
    decreases urls.len(),
{
    if urls.len() == 0 {
        Seq::empty()
    } else {
        filter_ignored(parts, urls.drop_last()) + if ignored_path(urls.last(), parts) {
            Seq::<Seq<char>>::empty()
        } else {
            seq![urls.last()]
        }
    }
}

/// The children one seed page contributes: its extracted links plus the
/// well-known paths, deduplicated, the ignored ones dropped.
pub open spec fn children_spec(
    ignore_parts: Seq<Seq<char>>,
    html: Seq<char>,
    base: Seq<char>,
) -> Seq<Seq<char>> {
    filter_ignored(ignore_parts, dedup_first(extract_links_spec(html, base) + well_known_spec(base)))
}

fn dedup_strings(v: Vec<String>) -> (r: Vec<String>)
    ensures
        r.deep_view() == dedup_first(v.deep_view()),
{
    let ghost vv = v.deep_view();
    let mut out: Vec<String> = Vec::new();
    let mut i: usize = 0;
    proof {
        assert(out.deep_view() =~= dedup_first(vv.take(0)));
    }
    while i < v.len()
        invariant
            i <= v@.len(),
            vv == v.deep_view(),
            out.deep_view() == dedup_first(vv.take(i as int)),
        decreases v@.len() - i,
    {
        proof {
            crate::links::lemma_dedup_first_members(vv.take(i as int));
            assert(vv.take(i + 1).drop_last() =~= vv.take(i as int));
            assert(vv.take(i + 1).last() == vv[i as int]);
        }
        let ghost before = out.deep_view();
        if !vec_contains(&out, v[i].as_str()) {
            proof {
                assert(!vv.take(i as int).contains(vv[i as int]));
            }
            out.push(v[i].clone());
            proof {
                assert(out.deep_view() =~= before.push(vv[i as int]));
                assert(out.deep_view() =~= dedup_first(vv.take(i + 1)));
            }
        } else {
            proof {
                assert(vv.take(i as int).contains(vv[i as int]));
                assert(out.deep_view() =~= dedup_first(vv.take(i + 1)));
            }
        }
        i = i + 1;
    }
    proof {
        assert(vv.take(v@.len() as int) =~= vv);
    }
    out
}

/// The child URLs of one seed page.
pub fn collect_children(rs: &Ruleset, html: &str, base_url: &str) -> (r: Vec<String>)
    ensures
        r.deep_view() == children_spec(rs.ignore_path_parts.deep_view(), html@, base_url@),
{
    let mut combined = extract_links(html, base_url);
    match root_of(base_url) {
        Some(root) => {
            let rt = trim_end_slashes_exec(root.as_str());
            let mut robots = String::new();
            robots.append(rt.as_str());
            robots.append("/robots.txt");
            let mut sitemap = String::new();
            sitemap.append(rt.as_str());
            sitemap.append("/sitemap.xml");
            proof {
                assert(robots@ =~= trim_end_slashes(root_of_spec(base_url@)->Some_0)
                    + "/robots.txt"@);
                assert(sitemap@ =~= trim_end_slashes(root_of_spec(base_url@)->Some_0)
                    + "/sitemap.xml"@);
            }
            combined.push(robots);
            combined.push(sitemap);
            proof {
                assert(combined.deep_view() =~= extract_links_spec(html@, base_url@)
                    + well_known_spec(base_url@));
            }
        },
        None => {
            proof {
                assert(combined.deep_view() =~= extract_links_spec(html@, base_url@)
                    + well_known_spec(base_url@));
            }
        },
    }
    let ded = dedup_strings(combined);
    let ghost dv = ded.deep_view();
    let ghost parts = rs.ignore_path_parts.deep_view();
    let mut out: Vec<String> = Vec::new();
    let mut i: usize = 0;
    proof {
        assert(out.deep_view() =~= filter_ignored(parts, dv.take(0)));
    }
    while i < ded.len()
        invariant
            i <= ded@.len(),
            dv == ded.deep_view(),
            parts == rs.ignore_path_parts.deep_view(),
            out.deep_view() == filter_ignored(parts, dv.take(i as int)),
        decreases ded@.len() - i,
    {
        proof {
            assert(dv.take(i + 1).drop_last() =~= dv.take(i as int));
            assert(dv.take(i + 1).last() == dv[i as int]);
        }
        let ghost before = out.deep_view();
        if !rs.should_ignore_path(ded[i].as_str()) {
            out.push(ded[i].clone());
            proof {
                assert(out.deep_view() =~= before.push(dv[i as int]));
            }
        }
        proof {
            assert(out.deep_view() =~= filter_ignored(parts, dv.take(i + 1)));
        }
        i = i + 1;
    }
    proof {
        assert(dv.take(ded@.len() as int) =~= dv);
    }
    out
}

/// What processing one fetched resource amounts to.
pub struct ResourceOutcome {
    /// The routing extension (detected, or `bin`).
    pub ext: String,
    /// Where the body is persisted.
    pub save_path: String,
    /// The findings block of the body, when it has one.
    pub report_block: Option<String>,
    /// The archive inspection, when the extension is an archive type and the
    /// archive opened.
    pub archive: Option<ArchiveOutcome>,
    /// Whether an archive-typed resource failed to open.
    pub archive_failed: bool,
    /// The child URLs to fetch next (seed pages only, one level deep).
    pub children: Vec<String>,
}

/// Process one fetched resource: route it, scan it, inspect it as an
/// archive, and collect its children when it is a seed's HTML page.
/// Children are collected only when `is_seed` is set, so a child resource
/// never yields further fetches.
pub fn analyze_resource<P: PathsLike>(
    rs: &Ruleset,
    paths: &P,
    final_url: &str,
    body: &[u8],
    is_seed: bool,
) -> (r: ResourceOutcome)
    ensures
        r.ext@ == ext_or_bin(final_url@),
        r.save_path@ == asset_path_spec(
            final_url@,
            ext_or_bin(final_url@),
            paths.spec_jsscripts_dir(),
            paths.spec_assets_dir(),
        ),
        r.report_block is Some <==> analyze_bytes_spec(
            rules_view(rs.rules@),
            rs.ignore_values.deep_view(),
            body@,
            final_url@,
        ) is Some,
        r.report_block matches Some(b) ==> analyze_bytes_spec(
            rules_view(rs.rules@),
            rs.ignore_values.deep_view(),
            body@,
            final_url@,
        ) == Some(b@),
        is_archive_ext_spec(ext_or_bin(final_url@)) ==> {
            &&& (r.archive is Some <==> archive_members_spec(ext_or_bin(final_url@), body@)
                is Some)
            &&& r.archive_failed == (archive_members_spec(ext_or_bin(final_url@), body@)
                is None)
            &&& (r.archive matches Some(o) ==> {
                let ms = archive_members_spec(ext_or_bin(final_url@), body@)->Some_0;
                let hits = member_hits(rules_view(rs.rules@), rs.ignore_values.deep_view(), ms);
                &&& saves_view(o.saves@) == member_saves(
                    final_url@,
                    paths.spec_jsscripts_dir(),
                    paths.spec_assets_dir(),
                    ms,
                )
                &&& o.hits.deep_view() == hits
                &&& (o.block is Some <==> hits.len() > 0)
                &&& (o.block matches Some(b) ==> b@ == findings_block_spec(
                    final_url@ + " (архив)"@,
                    hits,
                ))
            })
        },
        !is_archive_ext_spec(ext_or_bin(final_url@)) ==> r.archive is None && !r.archive_failed,
        (is_seed && is_html_ext_spec(ext_or_bin(final_url@)) && valid_utf8(body@))
            ==> r.children.deep_view() == children_spec(
            rs.ignore_path_parts.deep_view(),
            decode_utf8(body@),
            final_url@,
        ),
        !(is_seed && is_html_ext_spec(ext_or_bin(final_url@)) && valid_utf8(body@))
            ==> r.children.deep_view() == Seq::<Seq<char>>::empty(),
        !is_seed ==> r.children@.len() == 0,
{
    let ext: String = match detect_ext(final_url) {
        Some(e) => e,
        None => {
            let mut b = String::new();
            b.append("bin");
            proof {
                assert(b@ =~= "bin"@);
            }
            b
        },
    };
    let save_path = asset_path_for(final_url, ext.as_str(), paths);
    let report_block = analyze_bytes_with_rules(rs, body, final_url);
    let (archive, archive_failed): (Option<ArchiveOutcome>, bool) = if is_archive_ext(
        ext.as_str(),
    ) {
        match analyze_archive(rs, ext.as_str(), body, final_url, paths.jsscripts_dir(), paths.assets_dir()) {
            Some(o) => (Some(o), false),
            None => (None, true),
        }
    } else {
        (None, false)
    };
    let mut children: Vec<String> = Vec::new();
    if is_seed && is_html_ext(ext.as_str()) {
        match bytes_to_string(body) {
            Some(text) => {
                children = collect_children(rs, text.as_str(), final_url);
            },
            None => {},
        }
    }
    proof {
        if !(is_seed && is_html_ext_spec(ext_or_bin(final_url@)) && valid_utf8(body@)) {
            assert(children.deep_view() =~= Seq::<Seq<char>>::empty());
        }
    }
    ResourceOutcome { ext, save_path, report_block, archive, archive_failed, children }
}

/// Findings are reproducible: the report block of a resource is a function
/// of the ruleset, the fetched bytes and the effective URL alone, so a
/// second scan over the same responses writes the same blocks.
pub proof fn lemma_findings_idempotent(
    rules: Seq<(Seq<char>, Seq<char>)>,
    ignores: Seq<Seq<char>>,
    bytes1: Seq<u8>,
    bytes2: Seq<u8>,
    url1: Seq<char>,
    url2: Seq<char>,
)
    requires
        bytes1 == bytes2,
        url1 == url2,
    ensures
        analyze_bytes_spec(rules, ignores, bytes1, url1) == analyze_bytes_spec(
            rules,
            ignores,
            bytes2,
            url2,
        ),
{
}

/// The nonempty trimmed lines of a listing, first occurrences kept: the seed
/// set of a scan.
pub open spec fn cleaned_lines(lines: Seq<Seq<char>>) -> Seq<Seq<char>>
    decreases lines.len(),
{
    if lines.len() == 0 {
        Seq::empty()
    } else {
        cleaned_lines(lines.drop_last()) + if trim_spaces(lines.last()).len() == 0 {
            Seq::<Seq<char>>::empty()
        } else {
            seq![trim_spaces(lines.last())]
        }
    }
}

/// Trim a listing's lines, drop the empty ones, and deduplicate.
pub fn dedup_urls(lines: &Vec<String>) -> (r: Vec<String>)
    ensures
        r.deep_view() == dedup_first(cleaned_lines(lines.deep_view())),
{
    let ghost lv = lines.deep_view();
    let mut cleaned: Vec<String> = Vec::new();
    let mut i: usize = 0;
    proof {
        assert(cleaned.deep_view() =~= cleaned_lines(lv.take(0)));
    }
    while i < lines.len()
        invariant
            i <= lines@.len(),
            lv == lines.deep_view(),
            cleaned.deep_view() == cleaned_lines(lv.take(i as int)),
        decreases lines@.len() - i,
    {
        proof {
            assert(lv.take(i + 1).drop_last() =~= lv.take(i as int));
            assert(lv.take(i + 1).last() == lv[i as int]);
        }
        let ghost before = cleaned.deep_view();
        let t = trim_spaces_exec(lines[i].as_str());
        if t.as_str().unicode_len() > 0 {
            cleaned.push(t);
            proof {
                assert(cleaned.deep_view() =~= before.push(trim_spaces(lv[i as int])));
            }
        }
        proof {
            assert(cleaned.deep_view() =~= cleaned_lines(lv.take(i + 1)));
        }
        i = i + 1;
    }
    proof {
        assert(lv.take(lines@.len() as int) =~= lv);
    }
    dedup_strings(cleaned)
}

/// Whether a character ends a host run in a listing line.
pub open spec fn host_break(c: char) -> bool {
    c == '/' || is_space(c)
}

/// The scheme length at a position: 8 for `https://`, 7 for `http://`, else
/// none.
pub open spec fn scheme_len_at(s: Seq<char>, j: int) -> int {
    if has_substring_at(s, "https://"@, j) {
        8
    } else if has_substring_at(s, "http://"@, j) {
        7
    } else {
        0
    }
}

/// Whether a host match starts at the position: a scheme followed by at
/// least one host character.
pub open spec fn host_match_at(s: Seq<char>, j: int) -> bool {
    scheme_len_at(s, j) > 0 && j + scheme_len_at(s, j) < s.len() && !host_break(
        s[j + scheme_len_at(s, j)],
    )
}

/// The end of the host run starting at `k`: the first break or the end.
pub open spec fn host_run_end(s: Seq<char>, k: int) -> int
    recommends
        0 <= k <= s.len(),
    decreases s.len() - k when 0 <= k <= s.len()
{
    if k >= s.len() {
        k
    } else if host_break(s[k]) {
        k
    } else {
        host_run_end(s, k + 1)
    }
}

/// The first position at which a host match starts, from `j` on.
pub open spec fn first_host_match(s: Seq<char>, j: int) -> Option<int>
    recommends
        0 <= j <= s.len(),
    decreases s.len() - j when 0 <= j <= s.len()
{
    if j >= s.len() {
        None
    } else if host_match_at(s, j) {
        Some(j)
    } else {
        first_host_match(s, j + 1)
    }
}

/// The host of the first `http://` or `https://` reference in a line.
pub open spec fn host_of_line(s: Seq<char>) -> Option<Seq<char>> {
    match first_host_match(s, 0) {
        None => None,
        Some(j) => {
            let st = j + scheme_len_at(s, j);
            Some(s.subrange(st, host_run_end(s, st)))
        },
    }
}

fn scheme_len_at_exec(s: &str, j: usize, n: usize) -> (r: usize)
    requires
        n == s@.len(),
        j <= n,
    ensures
        r as int == scheme_len_at(s@, j as int),
{
    proof {
        reveal_strlit("https://");
        reveal_strlit("http://");
    }
    if n - j >= 8 && matches_at(s, "https://", j) {
        8
    } else if n - j >= 7 && matches_at(s, "http://", j) {
        7
    } else {
        proof {
            if n - j < 8 {
                assert(!has_substring_at(s@, "https://"@, j as int));
            }
            if n - j < 7 {
                assert(!has_substring_at(s@, "http://"@, j as int));
            }
        }
        0
    }
}

fn host_break_exec(c: char) -> (r: bool)
    ensures
        r == host_break(c),
{
    c == '/' || char_is_space(c)
}

/// The host of the first scheme-prefixed reference in the line, as the
/// subdomain extractor reads a listing.
pub fn host_in_line(s: &str) -> (r: Option<String>)
    ensures
        r is Some <==> host_of_line(s@) is Some,
        r matches Some(h) ==> host_of_line(s@) == Some(h@),
{
    let n = s.unicode_len();
    let mut j: usize = 0;
    while j < n
        invariant
            j <= n,
            n == s@.len(),
            first_host_match(s@, 0) == first_host_match(s@, j as int),
        decreases n - j,
    {
        let sl = scheme_len_at_exec(s, j, n);
        if sl > 0 && n - j > sl {
            let c = s.get_char(j + sl);
            if !host_break_exec(c) {
                let st = j + sl;
                let mut k: usize = st;
                while k < n && !host_break_exec(s.get_char(k))
                    invariant
                        st <= k <= n,
                        n == s@.len(),
                        host_run_end(s@, st as int) == host_run_end(s@, k as int),
                    decreases n - k,
                {
                    k = k + 1;
                }
                proof {
                    assert(host_run_end(s@, k as int) == k);
                    assert(host_match_at(s@, j as int));
                    assert(first_host_match(s@, j as int) == Some(j as int));
                }
                let out = s.substring_char(st, k);
                return Some(out.to_owned());
            }
        }
        proof {
            assert(!host_match_at(s@, j as int));
            assert(first_host_match(s@, j as int) == first_host_match(s@, j + 1));
        }
        j = j + 1;
    }
    proof {
        assert(first_host_match(s@, n as int) is None);
    }
    None
}

/// The hosts found in a listing, one look per line, first occurrences kept.
pub open spec fn subdomains_spec(lines: Seq<Seq<char>>) -> Seq<Seq<char>>
    decreases lines.len(),
{
    if lines.len() == 0 {
        Seq::empty()
    } else {
        subdomains_spec(lines.drop_last()) + match host_of_line(lines.last()) {
            None => Seq::<Seq<char>>::empty(),
            Some(h) => seq![h],
        }
    }
}

/// The unique hosts of a listing: the subdomain extractor.
pub fn extract_subdomains(lines: &Vec<String>) -> (r: Vec<String>)
    ensures
        r.deep_view() == dedup_first(subdomains_spec(lines.deep_view())),
{
    let ghost lv = lines.deep_view();
    let mut found: Vec<String> = Vec::new();
    let mut i: usize = 0;
    proof {
        assert(found.deep_view() =~= subdomains_spec(lv.take(0)));
    }
    while i < lines.len()
        invariant
            i <= lines@.len(),
            lv == lines.deep_view(),
            found.deep_view() == subdomains_spec(lv.take(i as int)),
        decreases lines@.len() - i,
    {
        proof {
            assert(lv.take(i + 1).drop_last() =~= lv.take(i as int));
            assert(lv.take(i + 1).last() == lv[i as int]);
        }
        let ghost before = found.deep_view();
        match host_in_line(lines[i].as_str()) {
            Some(h) => {
                found.push(h);
                proof {
                    assert(found.deep_view() =~= before.push(
                        host_of_line(lv[i as int])->Some_0,
                    ));
                }
            },
            None => {},
        }
        proof {
            assert(found.deep_view() =~= subdomains_spec(lv.take(i + 1)));
        }
        i = i + 1;
    }
    proof {
        assert(lv.take(lines@.len() as int) =~= lv);
    }
    dedup_strings(found)
}

} // verus!
