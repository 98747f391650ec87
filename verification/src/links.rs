//! HTML link extraction.
//!
//! The `select` crate parses the document and yields the raw `href` and
//! `src` attribute values behind trusted wrappers; trimming, the skip rules
//! for fragment/mailto/javascript/data references, absolute-or-relative
//! resolution and first-occurrence deduplication are verified.

use vstd::prelude::*;
use vstd::string::StrSliceExecFns;
use crate::strutil::starts_with;
use crate::strutil::starts_with_spec;
use crate::strutil::str_eq;
use crate::strutil::trim_spaces;
use crate::strutil::trim_spaces_exec;
use crate::urlparse::url_ok;
use crate::urlparse::url_serialized;
use crate::urlparse::url_joined;
use crate::urlparse::parse_url;
use crate::urlparse::join_url;

verus! {

/// The `href` attribute values of the document, in document order.
pub uninterp spec fn html_hrefs(html: Seq<char>) -> Seq<Seq<char>>;

/// The `src` attribute values of the document, in document order.
pub uninterp spec fn html_srcs(html: Seq<char>) -> Seq<Seq<char>>;

/// Relies on select::document::Document::from and find with the Attr
/// predicate: the attribute values of a document are a pure function of its
/// text.
#[verifier::external_body]
fn html_attr_values(html: &str, attr: &str) -> (r: Vec<String>)
    ensures
        attr@ == "href"@ ==> r.deep_view() == html_hrefs(html@),
        attr@ == "src"@ ==> r.deep_view() == html_srcs(html@),
{
    let doc = select::document::Document::from(html);
    doc.find(select::predicate::Attr(attr, ())).map(
        |n| n.attr(attr).unwrap_or("").to_string(),
    ).collect()
}

/// Where a raw attribute value leads: trim it; drop it when empty or a
/// fragment, mailto, javascript or data reference; otherwise parse it as
/// absolute, falling back to a join with the base.
pub open spec fn normalize_link(base: Seq<char>, raw: Seq<char>) -> Option<Seq<char>> {
    let s = trim_spaces(raw);
    if s.len() == 0 || s[0] == '#' || starts_with_spec(s, "mailto:"@) || starts_with_spec(
        s,
        "javascript:"@,
    ) || starts_with_spec(s, "data:"@) {
        None
    } else if url_ok(s) {
        Some(url_serialized(s))
    } else {
        url_joined(base, s)
    }
}

pub fn normalize_link_exec(base: &str, raw: &str) -> (r: Option<String>)
    ensures
        r is Some <==> normalize_link(base@, raw@) is Some,
        r matches Some(u) ==> normalize_link(base@, raw@) == Some(u@),
{
    let t = trim_spaces_exec(raw);
    let ts = t.as_str();
    if ts.unicode_len() == 0 {
        return None;
    }
    if ts.get_char(0) == '#' {
        return None;
    }
    if starts_with(ts, "mailto:") || starts_with(ts, "javascript:") || starts_with(ts, "data:") {
        return None;
    }
    match parse_url(ts) {
        Some(parts) => Some(parts.serialized),
        None => join_url(base, ts),
    }
}

/// The links of a list of raw attribute values, in order, skips removed.
pub open spec fn normalized_list(base: Seq<char>, raws: Seq<Seq<char>>) -> Seq<Seq<char>>
    decreases raws.len(),
{
    if raws.len() == 0 {
        Seq::empty()
    } else {
        normalized_list(base, raws.drop_last()) + match normalize_link(base, raws.last()) {
            Some(u) => seq![u],
            None => Seq::<Seq<char>>::empty(),
        }
    }
}

/// First-occurrence deduplication.
pub open spec fn dedup_first(s: Seq<Seq<char>>) -> Seq<Seq<char>>
    decreases s.len(),
{
    if s.len() == 0 {
        Seq::empty()
    } else {
        let prev = dedup_first(s.drop_last());
        if s.drop_last().contains(s.last()) {
            prev
        } else {
            prev.push(s.last())
        }
    }
}

/// Deduplication keeps exactly the members.
pub proof fn lemma_dedup_first_members(s: Seq<Seq<char>>)
    ensures
        forall|x: Seq<char>| #[trigger] dedup_first(s).contains(x) <==> s.contains(x),
    decreases s.len(),
{
    if s.len() > 0 {
        let d = dedup_first(s);
        let dp = dedup_first(s.drop_last());
        lemma_dedup_first_members(s.drop_last());
        assert forall|x: Seq<char>| #[trigger] d.contains(x) implies s.contains(x) by {
            if s.drop_last().contains(s.last()) {
                assert(dp.contains(x));
                assert(s.drop_last().contains(x));
                let w = choose|t: int| 0 <= t < s.drop_last().len() && s.drop_last()[t] == x;
                assert(s[w] == x);
            } else {
                let v = choose|t: int| 0 <= t < d.len() && d[t] == x;
                if v < d.len() - 1 {
                    assert(dp[v] == x);
                    assert(dp.contains(x));
                    assert(s.drop_last().contains(x));
                    let w = choose|t: int| 0 <= t < s.drop_last().len() && s.drop_last()[t] == x;
                    assert(s[w] == x);
                } else {
                    assert(s[s.len() - 1] == x);
                }
            }
        }
        assert forall|x: Seq<char>| s.contains(x) implies #[trigger] d.contains(x) by {
            let w = choose|t: int| 0 <= t < s.len() && s[t] == x;
            if w < s.len() - 1 {
                assert(s.drop_last()[w] == x);
                assert(s.drop_last().contains(x));
                assert(dp.contains(x));
                let v = choose|t: int| 0 <= t < dp.len() && dp[t] == x;
                assert(d[v] == x);
            } else {
                if s.drop_last().contains(s.last()) {
                    assert(dp.contains(x));
                    let v = choose|t: int| 0 <= t < dp.len() && dp[t] == x;
                    assert(d[v] == x);
                } else {
                    assert(d[d.len() - 1] == x);
                }
            }
        }
    }
}

/// All links a page contributes: `href` values then `src` values, each
/// normalized against the base, first occurrences kept.
pub open spec fn extract_links_spec(html: Seq<char>, base: Seq<char>) -> Seq<Seq<char>> {
    if url_ok(base) {
        dedup_first(normalized_list(base, html_hrefs(html) + html_srcs(html)))
    } else {
        Seq::empty()
    }
}

pub fn vec_contains(v: &Vec<String>, x: &str) -> (r: bool)
    ensures
        r == v.deep_view().contains(x@),
{
    let mut i: usize = 0;
    while i < v.len()
        invariant
            i <= v@.len(),
            forall|t: int| 0 <= t < i ==> #[trigger] v.deep_view()[t] != x@,
        decreases v@.len() - i,
    {
        if str_eq(v[i].as_str(), x) {
            assert(v.deep_view()[i as int] == x@);
            return true;
        }
        i = i + 1;
    }
    assert(!v.deep_view().contains(x@));
    false
}

/// Extract and normalize every link of an HTML page against its base URL.
pub fn extract_links(html: &str, base_url: &str) -> (r: Vec<String>)
    ensures
        r.deep_view() == extract_links_spec(html@, base_url@),
{
    let mut out: Vec<String> = Vec::new();
    if parse_url(base_url).is_none() {
        proof {
            assert(out.deep_view() =~= extract_links_spec(html@, base_url@));
        }
        return out;
    }
    let hrefs = html_attr_values(html, "href");
    let srcs = html_attr_values(html, "src");
    proof {
        reveal_strlit("href");
        reveal_strlit("src");
    }
    let ghost raws = html_hrefs(html@) + html_srcs(html@);
    let ghost hn = hrefs.deep_view().len();
    let mut i: usize = 0;
    while i < hrefs.len()
        invariant
            i <= hrefs@.len(),
            hrefs.deep_view() == html_hrefs(html@),
            raws == html_hrefs(html@) + html_srcs(html@),
            url_ok(base_url@),
            out.deep_view() == dedup_first(normalized_list(base_url@, raws.take(i as int))),
        decreases hrefs@.len() - i,
    {
        proof {
            assert(raws.take(i + 1).drop_last() =~= raws.take(i as int));
            assert(raws.take(i + 1).last() == hrefs.deep_view()[i as int]);
        }
        push_normalized(&mut out, base_url, hrefs[i].as_str(), Ghost(raws.take(i + 1)));
        i = i + 1;
    }
    let mut j: usize = 0;
    while j < srcs.len()
        invariant
            j <= srcs@.len(),
            srcs.deep_view() == html_srcs(html@),
            hn == html_hrefs(html@).len(),
            raws == html_hrefs(html@) + html_srcs(html@),
            url_ok(base_url@),
            out.deep_view() == dedup_first(normalized_list(base_url@, raws.take(hn + j))),
        decreases srcs@.len() - j,
    {
        proof {
            assert(raws.take(hn + j + 1).drop_last() =~= raws.take(hn + j));
            assert(raws.take(hn + j + 1).last() == srcs.deep_view()[j as int]);
        }
        push_normalized(&mut out, base_url, srcs[j].as_str(), Ghost(raws.take(hn + j + 1)));
        j = j + 1;
    }
    proof {
        assert(raws.take(raws.len() as int) =~= raws);
    }
    out
}

/// One step of link accumulation: normalize a raw value and append it unless
/// it is a skip or already present.
fn push_normalized(out: &mut Vec<String>, base: &str, raw: &str, taken: Ghost<Seq<Seq<char>>>)
    requires
        taken@.len() > 0,
        taken@.last() == raw@,
        old(out).deep_view() == dedup_first(normalized_list(base@, taken@.drop_last())),
    ensures
        final(out).deep_view() == dedup_first(normalized_list(base@, taken@)),
{
    let ghost prevlist = normalized_list(base@, taken@.drop_last());
    match normalize_link_exec(base, raw) {
        None => {
            proof {
                assert(normalized_list(base@, taken@) =~= prevlist);
            }
        },
        Some(u) => {
            let ghost newlist = normalized_list(base@, taken@);
            proof {
                assert(newlist =~= prevlist + seq![u@]);
                assert(newlist.drop_last() =~= prevlist);
                assert(newlist.last() == u@);
                lemma_dedup_first_members(prevlist);
            }
            if !vec_contains(out, u.as_str()) {
                proof {
                    assert(!prevlist.contains(u@));
                    assert(!newlist.drop_last().contains(newlist.last()));
                }
                let ghost before = out.deep_view();
                out.push(u);
                proof {
                    assert(out.deep_view() =~= before.push(newlist.last()));
                    assert(dedup_first(newlist) == dedup_first(newlist.drop_last()).push(
                        newlist.last(),
                    ));
                }
            } else {
                proof {
                    assert(prevlist.contains(u@));
                    assert(newlist.drop_last().contains(newlist.last()));
                    assert(dedup_first(newlist) == dedup_first(newlist.drop_last()));
                }
            }
        },
    }
}

} // verus!
