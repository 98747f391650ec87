//! URL parsing at the library boundary.
//!
//! Parsing itself is done by the `url` crate behind trusted wrappers; the
//! components come back as plain strings, over which the rest of the library
//! reasons. Host normalization, extension detection and root extraction are
//! verified string logic on those components.

use vstd::prelude::*;
use vstd::string::StrSliceExecFns;
use vstd::string::StringExecFns;
use crate::strutil::starts_with;
use crate::strutil::starts_with_spec;
use crate::strutil::to_lower;
use crate::strutil::to_lower_exec;
use crate::strutil::trim_spaces;
use crate::strutil::trim_spaces_exec;

verus! {

/// Whether `url::Url::parse` accepts the string.
pub uninterp spec fn url_ok(s: Seq<char>) -> bool;

/// The scheme of the parsed URL.
pub uninterp spec fn url_scheme(s: Seq<char>) -> Seq<char>;

/// The host of the parsed URL, when it has one.
pub uninterp spec fn url_host(s: Seq<char>) -> Option<Seq<char>>;

/// The path of the parsed URL.
pub uninterp spec fn url_path(s: Seq<char>) -> Seq<char>;

/// The parsed URL written back out (the crate's normal serialization).
pub uninterp spec fn url_serialized(s: Seq<char>) -> Seq<char>;

/// The serialization of `rel` resolved against the parsed `base`, or `None`
/// when the base does not parse or the join fails.
pub uninterp spec fn url_joined(base: Seq<char>, rel: Seq<char>) -> Option<Seq<char>>;

/// The components of a parsed URL, held as plain strings.
pub struct UrlParts {
    pub scheme: String,
    pub host: Option<String>,
    pub path: String,
    pub serialized: String,
}

/// Relies on url::Url::parse and its accessors scheme, host_str, path and
/// as_str: each is a pure function of the input string.
#[verifier::external_body]
pub(crate) fn parse_url(s: &str) -> (r: Option<UrlParts>)
    ensures
        r is Some <==> url_ok(s@),
        r matches Some(p) ==> {
            &&& p.scheme@ == url_scheme(s@)
            &&& (p.host is Some <==> url_host(s@) is Some)
            &&& (p.host matches Some(h) ==> url_host(s@) == Some(h@))
            &&& p.path@ == url_path(s@)
            &&& p.serialized@ == url_serialized(s@)
        },
{
    match url::Url::parse(s) {
        Ok(u) => Some(
            UrlParts {
                scheme: u.scheme().to_string(),
                host: u.host_str().map(|h| h.to_string()),
                path: u.path().to_string(),
                serialized: u.as_str().to_string(),
            },
        ),
        Err(_) => None,
    }
}

/// Relies on url::Url::join (after url::Url::parse of the base): resolving a
/// possibly relative reference is a pure function of the two strings; `None`
/// when the base does not parse or the join fails.
#[verifier::external_body]
pub(crate) fn join_url(base: &str, rel: &str) -> (r: Option<String>)
    ensures
        r is Some <==> url_joined(base@, rel@) is Some,
        r matches Some(u) ==> url_joined(base@, rel@) == Some(u@),
{
    match url::Url::parse(base) {
        Ok(b) => match b.join(rel) {
            Ok(u) => Some(u.as_str().to_string()),
            Err(_) => None,
        },
        Err(_) => None,
    }
}

/// The sequence with leading and trailing `/` removed.
pub open spec fn trim_slashes(s: Seq<char>) -> Seq<char>
    decreases s.len(),
{
    if s.len() > 0 && s.first() == '/' {
        trim_slashes(s.skip(1))
    } else if s.len() > 0 && s.last() == '/' {
        trim_slashes(s.take(s.len() - 1))
    } else {
        s
    }
}

/// A host given as a bare domain or as a URL: surrounding whitespace, one
/// scheme prefix and surrounding slashes are stripped.
pub open spec fn normalize_host_spec(s: Seq<char>) -> Seq<char> {
    let t = trim_spaces(s);
    let u = if starts_with_spec(t, "http://"@) {
        t.skip(7)
    } else if starts_with_spec(t, "https://"@) {
        t.skip(8)
    } else {
        t
    };
    trim_slashes(u)
}

pub fn normalize_host(input: &str) -> (r: String)
    ensures
        r@ == normalize_host_spec(input@),
{
    let t = trim_spaces_exec(input);
    let ts = t.as_str();
    let tn = ts.unicode_len();
    proof {
        reveal_strlit("http://");
        reveal_strlit("https://");
    }
    let stripped: &str = if starts_with(ts, "http://") {
        proof {
            assert(ts@.subrange(7, ts@.len() as int) =~= ts@.skip(7));
        }
        ts.substring_char(7, tn)
    } else if starts_with(ts, "https://") {
        proof {
            assert(ts@.subrange(8, ts@.len() as int) =~= ts@.skip(8));
        }
        ts.substring_char(8, tn)
    } else {
        ts
    };
    let mut lo: usize = 0;
    let mut hi: usize = stripped.unicode_len();
    proof {
        assert(stripped@.skip(0) =~= stripped@);
    }
    while lo < hi && stripped.get_char(lo) == '/'
        invariant
            lo <= hi,
            hi == stripped@.len(),
            trim_slashes(stripped@) == trim_slashes(stripped@.skip(lo as int)),
        decreases hi - lo,
    {
        proof {
            assert(stripped@.skip(lo as int).skip(1) =~= stripped@.skip(lo + 1));
        }
        lo = lo + 1;
    }
    proof {
        assert(stripped@.skip(lo as int).take(hi - lo) =~= stripped@.skip(lo as int));
    }
    while hi > lo && stripped.get_char(hi - 1) == '/'
        invariant
            lo <= hi <= stripped@.len(),
            lo == hi || stripped@[lo as int] != '/',
            trim_slashes(stripped@) == trim_slashes(stripped@.skip(lo as int).take(hi - lo)),
        decreases hi,
    {
        proof {
            let cur = stripped@.skip(lo as int).take(hi - lo);
            assert(cur.take(cur.len() - 1) =~= stripped@.skip(lo as int).take(hi - 1 - lo));
        }
        hi = hi - 1;
    }
    let out = stripped.substring_char(lo, hi);
    proof {
        assert(out@ =~= stripped@.skip(lo as int).take(hi - lo));
        let fin = stripped@.skip(lo as int).take(hi - lo);
        if fin.len() > 0 {
            assert(fin.first() == stripped@[lo as int]);
            assert(fin.last() == stripped@[hi - 1]);
            assert(trim_slashes(fin) == fin);
        } else {
            assert(trim_slashes(fin) == fin);
        }
    }
    out.to_owned()
}

/// The suffix of the sequence after the last occurrence of `c`; the whole
/// sequence when `c` does not occur.
pub open spec fn after_last(s: Seq<char>, c: char) -> Seq<char>
    decreases s.len(),
{
    if s.len() == 0 {
        s
    } else if s.last() == c {
        Seq::empty()
    } else {
        after_last(s.drop_last(), c).push(s.last())
    }
}

pub open spec fn contains_char(s: Seq<char>, c: char) -> bool {
    exists|i: int| 0 <= i < s.len() && s[i] == c
}

/// `after_last` is the suffix that follows the last occurrence of `c`; `cut`
/// is zero when `c` is absent, else one past that occurrence.
proof fn lemma_after_last_skip(s: Seq<char>, c: char, cut: int)
    requires
        0 <= cut <= s.len(),
        cut == 0 ==> !contains_char(s, c),
        cut > 0 ==> s[cut - 1] == c,
        forall|t: int| cut <= t < s.len() ==> s[t] != c,
    ensures
        after_last(s, c) == s.skip(cut),
    decreases s.len(),
{
    if s.len() == 0 {
        assert(after_last(s, c) =~= s.skip(0));
    } else if s.last() == c {
        assert(cut == s.len()) by {
            if cut < s.len() {
                assert(s[s.len() - 1] != c);
            }
        }
        assert(after_last(s, c) =~= s.skip(cut));
    } else {
        assert(cut < s.len()) by {
            if cut == s.len() {
                assert(s[cut - 1] == c);
                assert(s.last() == c);
            }
        }
        if cut == 0 {
            assert(!contains_char(s.drop_last(), c)) by {
                if contains_char(s.drop_last(), c) {
                    let w = choose|i: int| 0 <= i < s.drop_last().len() && s.drop_last()[i] == c;
                    assert(s[w] == c);
                }
            }
        }
        lemma_after_last_skip(s.drop_last(), c, cut);
        assert(after_last(s, c) =~= s.skip(cut)) by {
            assert(s.drop_last().skip(cut).push(s.last()) =~= s.skip(cut));
        }
    }
}

/// The suffix after the last occurrence of `c`, found by one backward scan.
pub fn after_last_exec(s: &str, c: char) -> (r: String)
    ensures
        r@ == after_last(s@, c),
{
    let n = s.unicode_len();
    let mut cut: usize = 0;
    let mut j: usize = n;
    let mut found = false;
    while j > 0 && !found
        invariant
            j <= n,
            n == s@.len(),
            !found ==> cut == 0 && (forall|t: int| j <= t < n ==> s@[t] != c),
            found ==> 1 <= cut <= n && s@[cut - 1] == c && (forall|t: int|
                cut <= t < n ==> s@[t] != c),
        decreases j,
    {
        if s.get_char(j - 1) == c {
            found = true;
            cut = j;
        }
        j = j - 1;
    }
    let out = s.substring_char(cut, n);
    proof {
        if !found {
            assert(!contains_char(s@, c)) by {
                if contains_char(s@, c) {
                    let w = choose|i: int| 0 <= i < s@.len() && s@[i] == c;
                    assert(s@[w] != c);
                }
            }
        }
        lemma_after_last_skip(s@, c, cut as int);
        assert(out@ =~= s@.skip(cut as int));
    }
    out.to_owned()
}

pub fn contains_char_exec(s: &str, c: char) -> (r: bool)
    ensures
        r == contains_char(s@, c),
{
    let n = s.unicode_len();
    let mut i: usize = 0;
    while i < n
        invariant
            i <= n,
            n == s@.len(),
            forall|t: int| 0 <= t < i ==> s@[t] != c,
        decreases n - i,
    {
        if s.get_char(i) == c {
            return true;
        }
        i = i + 1;
    }
    false
}

pub open spec fn ext_of_path(path: Seq<char>) -> Option<Seq<char>> {
    let seg = after_last(path, '/');
    if contains_char(seg, '.') {
        Some(to_lower(after_last(seg, '.')))
    } else {
        None
    }
}

/// The last path segment's suffix after its final dot, lowercased; `None`
/// when the URL does not parse or its last segment has no dot.
pub open spec fn detect_ext_spec(u: Seq<char>) -> Option<Seq<char>> {
    if url_ok(u) {
        ext_of_path(url_path(u))
    } else {
        None
    }
}

/// The detected extension of a URL: parse it, take the last path segment,
/// and return what follows the final dot, lowercased.
pub fn detect_ext(u: &str) -> (r: Option<String>)
    ensures
        r is Some <==> detect_ext_spec(u@) is Some,
        r matches Some(e) ==> detect_ext_spec(u@) == Some(e@),
{
    match parse_url(u) {
        None => None,
        Some(parts) => {
            let seg = after_last_exec(parts.path.as_str(), '/');
            if contains_char_exec(seg.as_str(), '.') {
                Some(to_lower_exec(after_last_exec(seg.as_str(), '.').as_str()))
            } else {
                None
            }
        },
    }
}

/// `"{scheme}://{host}"` of a URL that parses and has a host.
pub open spec fn root_of_spec(u: Seq<char>) -> Option<Seq<char>> {
    if url_ok(u) && url_host(u) is Some {
        Some(url_scheme(u) + "://"@ + url_host(u)->Some_0)
    } else {
        None
    }
}

pub fn root_of(u: &str) -> (r: Option<String>)
    ensures
        r is Some <==> root_of_spec(u@) is Some,
        r matches Some(s) ==> root_of_spec(u@) == Some(s@),
{
    match parse_url(u) {
        None => None,
        Some(parts) => {
            match parts.host {
                None => None,
                Some(h) => {
                    let mut out = parts.scheme;
                    out.append("://");
                    out.append(h.as_str());
                    Some(out)
                },
            }
        },
    }
}

} // verus!
