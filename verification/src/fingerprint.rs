//! URL fingerprinting: a filesystem-safe name derived from a URL.
//!
//! The name is `host` + the first forty characters of the path (slashes
//! replaced), with every problematic character replaced by `_`, followed by
//! `__` and the first twelve hex digits of the URL's SHA-256, the whole
//! truncated to one hundred characters. The digest comes from the `sha2`
//! crate; hex encoding, assembly and truncation are verified.

use vstd::prelude::*;
use vstd::string::StrSliceExecFns;
use crate::strutil::push_char;
use crate::urlparse::parse_url;
use crate::urlparse::url_ok;
use crate::urlparse::url_host;
use crate::urlparse::url_path;

verus! {

/// The SHA-256 digest of the UTF-8 bytes of the string.
pub uninterp spec fn sha256_of(s: Seq<char>) -> Seq<u8>;

/// Relies on sha2::Sha256 (via the Digest trait): the digest is 32 bytes and
/// a pure function of the input bytes.
#[verifier::external_body]
fn sha256_exec(s: &str) -> (r: Vec<u8>)
    ensures
        r@ == sha256_of(s@),
        r@.len() == 32,
{
    <sha2::Sha256 as sha2::Digest>::digest(s.as_bytes()).to_vec()
}

/// The lowercase hex digit for a value below sixteen.
pub open spec fn hex_char(d: int) -> char {
    if d == 0 { '0' }
    else if d == 1 { '1' }
    else if d == 2 { '2' }
    else if d == 3 { '3' }
    else if d == 4 { '4' }
    else if d == 5 { '5' }
    else if d == 6 { '6' }
    else if d == 7 { '7' }
    else if d == 8 { '8' }
    else if d == 9 { '9' }
    else if d == 10 { 'a' }
    else if d == 11 { 'b' }
    else if d == 12 { 'c' }
    else if d == 13 { 'd' }
    else if d == 14 { 'e' }
    else { 'f' }
}

/// Lowercase hex encoding of a byte sequence, two digits per byte.
pub open spec fn hex_of(s: Seq<u8>) -> Seq<char>
    decreases s.len(),
{
    if s.len() == 0 {
        Seq::empty()
    } else {
        hex_of(s.drop_last()) + seq![
            hex_char(s.last() as int / 16),
            hex_char(s.last() as int % 16),
        ]
    }
}

pub open spec fn is_hex_char(c: char) -> bool {
    ('0' <= c && c <= '9') || ('a' <= c && c <= 'f')
}

proof fn lemma_hex_of_charset(s: Seq<u8>)
    ensures
        hex_of(s).len() == 2 * s.len(),
        forall|i: int| 0 <= i < hex_of(s).len() ==> is_hex_char(#[trigger] hex_of(s)[i]),
    decreases s.len(),
{
    if s.len() > 0 {
        lemma_hex_of_charset(s.drop_last());
    }
}

fn hex_char_exec(d: u8) -> (r: char)
    requires
        d < 16,
    ensures
        r == hex_char(d as int),
{
    if d == 0 { '0' }
    else if d == 1 { '1' }
    else if d == 2 { '2' }
    else if d == 3 { '3' }
    else if d == 4 { '4' }
    else if d == 5 { '5' }
    else if d == 6 { '6' }
    else if d == 7 { '7' }
    else if d == 8 { '8' }
    else if d == 9 { '9' }
    else if d == 10 { 'a' }
    else if d == 11 { 'b' }
    else if d == 12 { 'c' }
    else if d == 13 { 'd' }
    else if d == 14 { 'e' }
    else { 'f' }
}

fn hex_exec(bytes: &Vec<u8>) -> (r: String)
    ensures
        r@ == hex_of(bytes@),
{
    let mut out = String::new();
    let mut i: usize = 0;
    proof {
        assert(hex_of(bytes@.take(0)) =~= Seq::<char>::empty());
    }
    while i < bytes.len()
        invariant
            i <= bytes@.len(),
            out@ == hex_of(bytes@.take(i as int)),
        decreases bytes@.len() - i,
    {
        let b = bytes[i];
        push_char(&mut out, hex_char_exec(b / 16));
        push_char(&mut out, hex_char_exec(b % 16));
        proof {
            assert(bytes@.take(i + 1).drop_last() =~= bytes@.take(i as int));
            assert(bytes@.take(i + 1).last() == bytes@[i as int]);
            assert(hex_of(bytes@.take(i + 1)) =~= hex_of(bytes@.take(i as int)).push(
                hex_char(bytes@[i as int] as int / 16),
            ).push(hex_char(bytes@[i as int] as int % 16)));
        }
        i = i + 1;
    }
    proof {
        assert(bytes@.take(bytes@.len() as int) =~= bytes@);
    }
    out
}

/// A character the fingerprinter replaces with `_`.
pub open spec fn bad_char(c: char) -> bool {
    c == '/' || c == '\\' || c == ':' || c == '?' || c == '*' || c == '"' || c == '<' || c == '>'
        || c == '|' || c == ' '
}

pub open spec fn replace_slashes(s: Seq<char>) -> Seq<char> {
    s.map_values(|c: char| if c == '/' { '_' } else { c })
}

pub open spec fn replace_bad(s: Seq<char>) -> Seq<char> {
    s.map_values(|c: char| if bad_char(c) { '_' } else { c })
}

pub open spec fn truncated(s: Seq<char>, n: int) -> Seq<char> {
    if s.len() <= n {
        s
    } else {
        s.take(n)
    }
}

/// The safe name assembled from a host, a path and a hex digest.
pub open spec fn safe_name(host: Seq<char>, path: Seq<char>, hex: Seq<char>) -> Seq<char> {
    let p = truncated(replace_slashes(path), 40);
    let base = replace_bad(host + p);
    truncated(base + "__"@ + truncated(hex, 12), 100)
}

/// The host the fingerprinter uses: the URL's host, or `"unknown"`.
pub open spec fn fp_host(u: Seq<char>) -> Seq<char> {
    if url_ok(u) && url_host(u) is Some {
        url_host(u)->Some_0
    } else {
        "unknown"@
    }
}

/// The path the fingerprinter uses: the URL's path, or `"/"`.
pub open spec fn fp_path(u: Seq<char>) -> Seq<char> {
    if url_ok(u) {
        url_path(u)
    } else {
        "/"@
    }
}

/// The fingerprint of a URL string.
pub open spec fn sanitize_spec(u: Seq<char>) -> Seq<char> {
    safe_name(fp_host(u), fp_path(u), hex_of(sha256_of(u)))
}

fn map_bad_push(out: &mut String, c: char)
    ensures
        final(out)@ == old(out)@.push(if bad_char(c) { '_' } else { c }),
{
    if c == '/' || c == '\\' || c == ':' || c == '?' || c == '*' || c == '"' || c == '<' || c == '>'
        || c == '|' || c == ' ' {
        push_char(out, '_');
    } else {
        push_char(out, c);
    }
}

/// The filesystem-safe fingerprint of a URL: host and truncated path with
/// problem characters replaced, plus a truncated SHA-256 suffix.
pub fn sanitize_filename(url: &str) -> (r: String)
    ensures
        r@ == sanitize_spec(url@),
        r@.len() <= 100,
        14 <= r@.len(),
        forall|i: int| 0 <= i < r@.len() ==> #[trigger] r@[i] != '/',
{
    let digest = sha256_exec(url);
    let hex = hex_exec(&digest);
    proof {
        lemma_hex_of_charset(digest@);
    }
    let short = hex.as_str().substring_char(0, 12);
    proof {
        assert(short@ =~= truncated(hex@, 12));
    }
    let (host, path): (String, String) = match parse_url(url) {
        Some(parts) => {
            match parts.host {
                Some(h) => (h, parts.path),
                None => {
                    let mut hh = String::new();
                    hh.append("unknown");
                    (hh, parts.path)
                },
            }
        },
        None => {
            let mut hh = String::new();
            hh.append("unknown");
            let mut pp = String::new();
            pp.append("/");
            (hh, pp)
        },
    };
    proof {
        assert(host@ == fp_host(url@));
        assert(path@ == fp_path(url@));
    }
    // first forty path characters, slashes replaced
    let ps = path.as_str();
    let pn = ps.unicode_len();
    let plim: usize = if pn < 40 {
        pn
    } else {
        40
    };
    let mut ptrunc = String::new();
    let mut i: usize = 0;
    proof {
        assert(truncated(replace_slashes(ps@), 40).take(0) =~= ptrunc@);
        assert(truncated(replace_slashes(ps@), 40).len() == plim);
    }
    while i < plim
        invariant
            i <= plim,
            plim <= pn == ps@.len(),
            plim as int == truncated(replace_slashes(ps@), 40).len(),
            ptrunc@ == truncated(replace_slashes(ps@), 40).take(i as int),
        decreases plim - i,
    {
        let c = ps.get_char(i);
        if c == '/' {
            push_char(&mut ptrunc, '_');
        } else {
            push_char(&mut ptrunc, c);
        }
        proof {
            let full = truncated(replace_slashes(ps@), 40);
            assert(full[i as int] == (if ps@[i as int] == '/' {
                '_'
            } else {
                ps@[i as int]
            }));
            assert(full.take(i + 1) =~= full.take(i as int).push(full[i as int]));
        }
        i = i + 1;
    }
    proof {
        let full = truncated(replace_slashes(ps@), 40);
        assert(full.take(plim as int) =~= full);
    }
    // base = host + truncated path, with every bad character replaced
    let hs = host.as_str();
    let hn = hs.unicode_len();
    let mut base = String::new();
    let mut j: usize = 0;
    let ghost joined = hs@ + ptrunc@;
    proof {
        assert(replace_bad(joined).take(0) =~= base@);
    }
    while j < hn
        invariant
            j <= hn == hs@.len(),
            joined == hs@ + ptrunc@,
            base@ == replace_bad(joined).take(j as int),
        decreases hn - j,
    {
        map_bad_push(&mut base, hs.get_char(j));
        proof {
            assert(joined[j as int] == hs@[j as int]);
            assert(replace_bad(joined).take(j + 1) =~= replace_bad(joined).take(j as int).push(
                replace_bad(joined)[j as int],
            ));
        }
        j = j + 1;
    }
    let pts = ptrunc.as_str();
    let ptn = pts.unicode_len();
    let mut k: usize = 0;
    while k < ptn
        invariant
            k <= ptn == ptrunc@.len(),
            hn == hs@.len(),
            joined == hs@ + ptrunc@,
            base@ == replace_bad(joined).take(hn + k),
            pts@ == ptrunc@,
        decreases ptn - k,
    {
        map_bad_push(&mut base, pts.get_char(k));
        proof {
            assert(joined[hn + k] == ptrunc@[k as int]);
            assert(replace_bad(joined).take(hn + k + 1) =~= replace_bad(joined).take(hn + k).push(
                replace_bad(joined)[hn + k],
            ));
        }
        k = k + 1;
    }
    proof {
        assert(replace_bad(joined).take(hn + ptn) =~= replace_bad(joined));
    }
    // name = base + "__" + short, truncated to one hundred characters
    let mut name = base;
    name.append("__");
    name.append(short);
    let nn = name.as_str().unicode_len();
    let cut: usize = if nn < 100 {
        nn
    } else {
        100
    };
    let out = name.as_str().substring_char(0, cut);
    proof {
        let whole = replace_bad(joined) + "__"@ + truncated(hex@, 12);
        assert(name@ == whole);
        assert(out@ =~= truncated(whole, 100));
        assert(out@ == sanitize_spec(url@));
        // length bounds
        reveal_strlit("__");
        assert(whole.len() >= 14);
        // no slash anywhere in the pieces
        assert forall|t: int| 0 <= t < out@.len() implies #[trigger] out@[t] != '/' by {
            assert(out@[t] == whole[t]);
            if t < replace_bad(joined).len() {
                assert(whole[t] == replace_bad(joined)[t]);
            } else if t < replace_bad(joined).len() + 2 {
                assert(whole[t] == "__"@[t - replace_bad(joined).len()]);
            } else {
                assert(whole[t] == truncated(hex@, 12)[t - replace_bad(joined).len() - 2]);
                assert(is_hex_char(hex@[t - replace_bad(joined).len() - 2]));
            }
        }
    }
    out.to_owned()
}

pub open spec fn no_slash(s: Seq<char>) -> bool {
    forall|i: int| 0 <= i < s.len() ==> #[trigger] s[i] != '/'
}

/// A fingerprint never holds a slash and is two to one hundred characters
/// long (at least fourteen when the digest is full length, as the hashing
/// wrapper guarantees).
pub proof fn lemma_sanitize_no_slash(u: Seq<char>)
    ensures
        no_slash(sanitize_spec(u)),
        2 <= sanitize_spec(u).len() <= 100,
{
    let host = fp_host(u);
    let path = fp_path(u);
    let hex = hex_of(sha256_of(u));
    lemma_hex_of_charset(sha256_of(u));
    let p = truncated(replace_slashes(path), 40);
    let base = replace_bad(host + p);
    let whole = base + "__"@ + truncated(hex, 12);
    reveal_strlit("__");
    assert(whole.len() >= 2);
    assert forall|i: int| 0 <= i < sanitize_spec(u).len() implies #[trigger] sanitize_spec(u)[i]
        != '/' by {
        assert(sanitize_spec(u)[i] == whole[i]);
        if i < base.len() {
            let c = (host + p)[i];
            assert(whole[i] == (if bad_char(c) {
                '_'
            } else {
                c
            }));
            if !bad_char(c) && i >= host.len() {
                let pc = path[i - host.len()];
                assert(c == (if pc == '/' {
                    '_'
                } else {
                    pc
                }));
            }
        } else if i < base.len() + 2 {
            assert(whole[i] == "__"@[i - base.len()]);
        } else {
            assert(whole[i] == truncated(hex, 12)[i - base.len() - 2]);
            assert(is_hex_char(hex[i - base.len() - 2]));
        }
    }
}

/// Allowed characters of a fingerprint: letters, digits, `_`, `.` and `-`.
pub open spec fn fingerprint_char_ok(c: char) -> bool {
    ('a' <= c && c <= 'z') || ('A' <= c && c <= 'Z') || ('0' <= c && c <= '9') || c == '_' || c
        == '.' || c == '-'
}

/// Fingerprints are deterministic: equal URL strings give equal names.
pub proof fn lemma_fingerprint_deterministic(u1: Seq<char>, u2: Seq<char>)
    requires
        u1 == u2,
    ensures
        sanitize_spec(u1) == sanitize_spec(u2),
{
}

/// A fingerprint never exceeds one hundred characters.
pub proof fn lemma_fingerprint_len(host: Seq<char>, path: Seq<char>, hex: Seq<char>)
    ensures
        safe_name(host, path, hex).len() <= 100,
{
}

/// When every character of the host and path is either allowed or one of the
/// replaced characters, and the digest suffix is hex, the whole fingerprint
/// stays inside the allowed set.
pub proof fn lemma_fingerprint_charset(host: Seq<char>, path: Seq<char>, hex: Seq<char>)
    requires
        forall|i: int|
            0 <= i < host.len() ==> fingerprint_char_ok(#[trigger] host[i]) || bad_char(host[i]),
        forall|i: int|
            0 <= i < path.len() ==> fingerprint_char_ok(#[trigger] path[i]) || bad_char(path[i]),
        forall|i: int| 0 <= i < hex.len() ==> is_hex_char(#[trigger] hex[i]),
    ensures
        forall|i: int|
            0 <= i < safe_name(host, path, hex).len() ==> fingerprint_char_ok(
                #[trigger] safe_name(host, path, hex)[i],
            ),
{
    let p = truncated(replace_slashes(path), 40);
    let base = replace_bad(host + p);
    let whole = base + "__"@ + truncated(hex, 12);
    reveal_strlit("__");
    assert forall|i: int| 0 <= i < safe_name(host, path, hex).len() implies fingerprint_char_ok(
        safe_name(host, path, hex)[i],
    ) by {
        assert(safe_name(host, path, hex)[i] == whole[i]);
        if i < base.len() {
            let c = (host + p)[i];
            if i < host.len() {
                assert(c == host[i]);
            } else {
                assert(c == p[i - host.len()]);
                let pc = path[i - host.len()];
                assert(p[i - host.len()] == (if pc == '/' {
                    '_'
                } else {
                    pc
                }));
            }
            assert(whole[i] == (if bad_char(c) {
                '_'
            } else {
                c
            }));
        } else if i < base.len() + 2 {
            assert(whole[i] == "__"@[i - base.len()]);
        } else {
            assert(whole[i] == truncated(hex, 12)[i - base.len() - 2]);
            assert(is_hex_char(hex[i - base.len() - 2]));
        }
    }
}

} // verus!
