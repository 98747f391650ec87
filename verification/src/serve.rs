//! The report server's request handling: what a raw request URL maps to on
//! disk, with `/../` traversal collapsed before any join, and the MIME
//! table it labels files with. Serving the files is the caller's task.

use vstd::prelude::*;
use vstd::string::StrSliceExecFns;
use vstd::string::StringExecFns;
use crate::strutil::has_substring_at;
use crate::strutil::matches_at;
use crate::strutil::ends_with;
use crate::strutil::ends_with_spec;

verus! {

/// The index of the first occurrence of `c`, or the length.
pub open spec fn idx_of_char(s: Seq<char>, c: char) -> int
    decreases s.len(),
{
    if s.len() == 0 {
        0
    } else if s.first() == c {
        0
    } else {
        1 + idx_of_char(s.skip(1), c)
    }
}

/// The prefix before the first occurrence of `c`.
pub open spec fn before_char(s: Seq<char>, c: char) -> Seq<char> {
    s.take(idx_of_char(s, c))
}

proof fn lemma_idx_of_char(s: Seq<char>, c: char, i: int)
    requires
        0 <= i <= s.len(),
        forall|t: int| 0 <= t < i ==> s[t] != c,
        i < s.len() ==> s[i] == c,
    ensures
        idx_of_char(s, c) == i,
    decreases s.len(),
{
    if s.len() == 0 {
    } else if s.first() == c {
        if i > 0 {
            assert(s[0] != c);
        }
    } else {
        assert(i >= 1) by {
            if i == 0 {
                assert(s[0] == c);
            }
        }
        lemma_idx_of_char(s.skip(1), c, i - 1);
    }
}

fn before_char_exec(s: &str, c: char) -> (r: String)
    ensures
        r@ == before_char(s@, c),
{
    let n = s.unicode_len();
    let mut i: usize = 0;
    while i < n && s.get_char(i) != c
        invariant
            i <= n,
            n == s@.len(),
            forall|t: int| 0 <= t < i ==> s@[t] != c,
        decreases n - i,
    {
        i = i + 1;
    }
    proof {
        lemma_idx_of_char(s@, c, i as int);
    }
    s.substring_char(0, i).to_owned()
}

/// The sequence with every leading `c` removed.
pub open spec fn skip_leading(s: Seq<char>, c: char) -> Seq<char>
    decreases s.len(),
{
    if s.len() > 0 && s.first() == c {
        skip_leading(s.skip(1), c)
    } else {
        s
    }
}

fn skip_leading_exec(s: &str, c: char) -> (r: String)
    ensures
        r@ == skip_leading(s@, c),
{
    let n = s.unicode_len();
    let mut i: usize = 0;
    proof {
        assert(s@.skip(0) =~= s@);
    }
    while i < n && s.get_char(i) == c
        invariant
            i <= n,
            n == s@.len(),
            skip_leading(s@, c) == skip_leading(s@.skip(i as int), c),
        decreases n - i,
    {
        proof {
            assert(s@.skip(i as int).skip(1) =~= s@.skip(i + 1));
        }
        i = i + 1;
    }
    let out = s.substring_char(i, n);
    proof {
        assert(out@ =~= s@.skip(i as int));
        assert(skip_leading(s@.skip(i as int), c) == s@.skip(i as int));
    }
    out.to_owned()
}

/// The first position from `j` on where `/../` occurs.
pub open spec fn find_traversal(s: Seq<char>, j: int) -> Option<int>
    recommends
        0 <= j,
    decreases s.len() - j when 0 <= j <= s.len()
{
    if j + 4 > s.len() {
        None
    } else if has_substring_at(s, "/../"@, j) {
        Some(j)
    } else {
        find_traversal(s, j + 1)
    }
}

proof fn lemma_find_traversal_at(s: Seq<char>, pos: int)
    requires
        0 <= pos,
        pos + 4 <= s.len(),
        has_substring_at(s, "/../"@, pos),
        forall|t: int| 0 <= t < pos ==> !has_substring_at(s, "/../"@, t),
    ensures
        find_traversal(s, 0) == Some(pos),
{
    lemma_find_traversal_from(s, 0, pos);
}

proof fn lemma_find_traversal_from(s: Seq<char>, j: int, pos: int)
    requires
        0 <= j <= pos,
        pos + 4 <= s.len(),
        has_substring_at(s, "/../"@, pos),
        forall|t: int| j <= t < pos ==> !has_substring_at(s, "/../"@, t),
    ensures
        find_traversal(s, j) == Some(pos),
    decreases pos - j,
{
    reveal_strlit("/../");
    if j < pos {
        lemma_find_traversal_from(s, j + 1, pos);
    }
}

proof fn lemma_find_traversal_none(s: Seq<char>, j: int)
    requires
        0 <= j <= s.len(),
        forall|t: int| j <= t < s.len() ==> !has_substring_at(s, "/../"@, t),
    ensures
        find_traversal(s, j) is None,
    decreases s.len() - j,
{
    reveal_strlit("/../");
    if j + 4 <= s.len() {
        lemma_find_traversal_none(s, j + 1);
    }
}

/// The index of the last `/` of the sequence, when it has one.
pub open spec fn last_slash(s: Seq<char>) -> Option<int>
    decreases s.len(),
{
    if s.len() == 0 {
        None
    } else if s.last() == '/' {
        Some(s.len() - 1)
    } else {
        last_slash(s.drop_last())
    }
}

proof fn lemma_last_slash_at(s: Seq<char>, t: int)
    requires
        0 <= t < s.len(),
        s[t] == '/',
        forall|u: int| t < u < s.len() ==> s[u] != '/',
    ensures
        last_slash(s) == Some(t),
    decreases s.len(),
{
    if s.last() == '/' {
        if t < s.len() - 1 {
            assert(s[s.len() - 1] != '/');
        }
    } else {
        lemma_last_slash_at(s.drop_last(), t);
    }
}

proof fn lemma_last_slash_none(s: Seq<char>)
    requires
        forall|u: int| 0 <= u < s.len() ==> s[u] != '/',
    ensures
        last_slash(s) is None,
    decreases s.len(),
{
    if s.len() > 0 {
        lemma_last_slash_none(s.drop_last());
    }
}

/// One collapse step: cut from the slash before the traversal (or from the
/// start) through the traversal.
pub open spec fn remove_traversal(s: Seq<char>, pos: int) -> Seq<char>
    recommends
        0 <= pos,
        pos + 4 <= s.len(),
{
    match last_slash(s.take(pos)) {
        Some(prev) => if 0 <= prev < pos {
            s.take(prev) + s.skip(pos + 4)
        } else {
            s.skip(pos + 4)
        },
        None => s.skip(pos + 4),
    }
}

/// `/../` segments collapsed away, leftmost first, as the server neutralizes
/// traversal before joining under its root.
pub open spec fn collapse_traversals(s: Seq<char>) -> Seq<char>
    decreases s.len(),
{
    if find_traversal(s, 0) is Some {
        let pos = find_traversal(s, 0)->Some_0;
        if 0 <= pos && pos + 4 <= s.len() {
            collapse_traversals(remove_traversal(s, pos))
        } else {
            s
        }
    } else {
        s
    }
}

/// The request path before traversal collapsing: the URL stripped of query
/// and fragment and of leading slashes, with `index.html` appended to a bare
/// or directory-shaped request.
pub open spec fn request_path_spec(raw: Seq<char>) -> Seq<char> {
    let q = before_char(raw, '?');
    let f = before_char(q, '#');
    let p = skip_leading(f, '/');
    if p.len() == 0 || p.last() == '/' {
        p + "index.html"@
    } else {
        p
    }
}

/// The collapsed path with its leading `../` runs removed, so nothing the
/// request says can climb above the directory it is joined under.
pub open spec fn strip_up_prefix(s: Seq<char>) -> Seq<char>
    decreases s.len(),
{
    if s.len() >= 3 && s.subrange(0, 3) == "../"@ {
        strip_up_prefix(s.skip(3))
    } else {
        s
    }
}

/// The relative path the server joins under its root: traversal segments
/// collapsed and any leading `../` run removed.
pub open spec fn resolved_path_spec(raw: Seq<char>) -> Seq<char> {
    strip_up_prefix(collapse_traversals(request_path_spec(raw)))
}

/// Resolve a raw request URL to the relative path served: `/../` traversal
/// is collapsed and what still points upward is dropped, so the result is
/// always joined under the report root and never escapes it.
pub fn resolve_request_path(raw: &str) -> (r: String)
    ensures
        r@ == resolved_path_spec(raw@),
{
    let q = before_char_exec(raw, '?');
    let f = before_char_exec(q.as_str(), '#');
    let p = skip_leading_exec(f.as_str(), '/');
    let mut req: String = p;
    let rn = req.as_str().unicode_len();
    if rn == 0 || req.as_str().get_char(rn - 1) == '/' {
        req.append("index.html");
    }
    proof {
        assert(req@ == request_path_spec(raw@));
    }
    let ghost req0 = req@;
    // collapse /../ segments, leftmost first
    loop
        invariant
            collapse_traversals(req0) == collapse_traversals(req@),
        ensures
            req@ == collapse_traversals(req0),
        decreases req@.len(),
    {
        proof {
            reveal_strlit("/../");
        }
        let rs = req.as_str();
        let n = rs.unicode_len();
        let mut i: usize = 0;
        let mut pos: usize = 0;
        let mut found = false;
        while n >= 4 && i <= n - 4
            invariant_except_break
                i <= n,
                n == rs@.len(),
                "/../"@.len() == 4,
                !found,
                forall|t: int| 0 <= t < i ==> !has_substring_at(rs@, "/../"@, t),
            ensures
                n == rs@.len(),
                "/../"@.len() == 4,
                found ==> pos + 4 <= n && has_substring_at(rs@, "/../"@, pos as int) && (forall|
                    t: int,
                |
                    0 <= t < pos ==> !has_substring_at(rs@, "/../"@, t)),
                !found ==> forall|t: int| 0 <= t < rs@.len() ==> !has_substring_at(rs@, "/../"@, t),
            decreases n - i,
        {
            if matches_at(rs, "/../", i) {
                found = true;
                pos = i;
                break ;
            }
            i = i + 1;
        }
        if !found {
            proof {
                lemma_find_traversal_none(rs@, 0);
            }
            break ;
        }
        // the last slash before the traversal
        let mut prev: usize = 0;
        let mut has_prev = false;
        let mut k: usize = pos;
        while k > 0 && !has_prev
            invariant
                k <= pos <= n,
                n == rs@.len(),
                !has_prev ==> forall|u: int| k <= u < pos ==> rs@[u] != '/',
                has_prev ==> prev == k && prev < pos && rs@[prev as int] == '/' && (forall|u: int|
                    prev < u < pos ==> rs@[u] != '/'),
            decreases k,
        {
            if rs.get_char(k - 1) == '/' {
                has_prev = true;
                prev = k - 1;
            }
            k = k - 1;
        }
        let next: String = if has_prev {
            proof {
                assert forall|u: int| prev < u < pos implies rs@.take(pos as int)[u] != '/' by {}
                assert(rs@.take(pos as int)[prev as int] == '/');
                lemma_last_slash_at(rs@.take(pos as int), prev as int);
            }
            let mut nx = rs.substring_char(0, prev).to_owned();
            nx.append(rs.substring_char(pos + 4, n));
            proof {
                assert(nx@ =~= remove_traversal(rs@, pos as int));
            }
            nx
        } else {
            proof {
                assert forall|u: int| 0 <= u < pos implies rs@.take(pos as int)[u] != '/' by {}
                lemma_last_slash_none(rs@.take(pos as int));
            }
            let nx = rs.substring_char(pos + 4, n).to_owned();
            proof {
                assert(nx@ =~= remove_traversal(rs@, pos as int));
            }
            nx
        };
        proof {
            lemma_find_traversal_at(rs@, pos as int);
            assert(collapse_traversals(rs@) == collapse_traversals(
                remove_traversal(rs@, pos as int),
            ));
            assert(next@.len() < rs@.len());
        }
        req = next;
    }
    // the leading ../ runs stripped: nothing escapes the root
    loop
        invariant
            strip_up_prefix(collapse_traversals(req0)) == strip_up_prefix(req@),
        ensures
            req@ == strip_up_prefix(collapse_traversals(req0)),
        decreases req@.len(),
    {
        proof {
            reveal_strlit("../");
        }
        let n3 = req.as_str().unicode_len();
        if n3 < 3 {
            proof {
                assert(strip_up_prefix(req@) == req@);
            }
            break ;
        }
        if !matches_at(req.as_str(), "../", 0) {
            proof {
                assert(strip_up_prefix(req@) == req@);
            }
            break ;
        }
        let nx = req.as_str().substring_char(3, n3).to_owned();
        proof {
            assert(nx@ =~= req@.skip(3));
            assert(req@.subrange(0, 3) == "../"@);
        }
        req = nx;
    }
    req
}

/// The MIME type the report server labels a path with.
pub open spec fn mime_for_spec(path: Seq<char>) -> Option<Seq<char>> {
    if ends_with_spec(path, ".html"@) {
        Some("text/html"@)
    } else if ends_with_spec(path, ".csv"@) {
        Some("text/csv"@)
    } else if ends_with_spec(path, ".js"@) {
        Some("application/javascript"@)
    } else if ends_with_spec(path, ".css"@) {
        Some("text/css"@)
    } else if ends_with_spec(path, ".png"@) {
        Some("image/png"@)
    } else if ends_with_spec(path, ".jpg"@) || ends_with_spec(path, ".jpeg"@) {
        Some("image/jpeg"@)
    } else if ends_with_spec(path, ".webp"@) {
        Some("image/webp"@)
    } else {
        None
    }
}

pub fn mime_for(path: &str) -> (r: Option<String>)
    ensures
        r is Some <==> mime_for_spec(path@) is Some,
        r matches Some(m) ==> mime_for_spec(path@) == Some(m@),
{
    if ends_with(path, ".html") {
        Some(lit("text/html"))
    } else if ends_with(path, ".csv") {
        Some(lit("text/csv"))
    } else if ends_with(path, ".js") {
        Some(lit("application/javascript"))
    } else if ends_with(path, ".css") {
        Some(lit("text/css"))
    } else if ends_with(path, ".png") {
        Some(lit("image/png"))
    } else if ends_with(path, ".jpg") || ends_with(path, ".jpeg") {
        Some(lit("image/jpeg"))
    } else if ends_with(path, ".webp") {
        Some(lit("image/webp"))
    } else {
        None
    }
}

fn lit(s: &str) -> (r: String)
    ensures
        r@ == s@,
{
    let mut out = String::new();
    out.append(s);
    proof {
        assert(Seq::<char>::empty() + s@ =~= s@);
    }
    out
}

} // verus!
