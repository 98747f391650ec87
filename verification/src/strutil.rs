//! Small verified helpers over strings and characters that the rest of the
//! library builds on: equality, substring search, prefix and suffix tests,
//! ASCII lowercasing, trimming, and decimal formatting.

use vstd::prelude::*;
use vstd::string::StrSliceExecFns;

verus! {

/// Relies on String::push: appends one character to the string.
#[verifier::external_body]
pub(crate) fn push_char(s: &mut String, c: char)
    ensures
        final(s)@ == old(s)@.push(c),
{
    s.push(c);
}

pub fn str_eq(a: &str, b: &str) -> (r: bool)
    ensures
        r == (a@ == b@),
{
    let alen = a.unicode_len();
    let blen = b.unicode_len();
    if alen != blen {
        assert(a@ != b@) by {
            assert(a@.len() != b@.len());
        }
        return false;
    }
    let mut i: usize = 0;
    while i < alen
        invariant
            i <= alen,
            alen == a@.len(),
            alen == b@.len(),
            forall|j: int| 0 <= j < i ==> a@[j] == b@[j],
        decreases alen - i,
    {
        if a.get_char(i) != b.get_char(i) {
            return false;
        }
        i = i + 1;
    }
    assert(a@ =~= b@);
    true
}

pub open spec fn has_substring_at(hay: Seq<char>, needle: Seq<char>, i: int) -> bool {
    0 <= i && i + needle.len() <= hay.len() && hay.subrange(i, i + needle.len()) == needle
}

pub open spec fn has_substring(hay: Seq<char>, needle: Seq<char>) -> bool {
    exists|i: int| has_substring_at(hay, needle, i)
}

pub fn matches_at(hay: &str, needle: &str, i: usize) -> (r: bool)
    requires
        i + needle@.len() <= hay@.len(),
    ensures
        r == has_substring_at(hay@, needle@, i as int),
{
    let hlen = hay.unicode_len();
    let nlen = needle.unicode_len();
    let mut j: usize = 0;
    while j < nlen
        invariant
            j <= nlen,
            hlen == hay@.len(),
            nlen == needle@.len(),
            i + nlen <= hlen,
            forall|k: int| 0 <= k < j ==> hay@[i + k] == needle@[k],
        decreases nlen - j,
    {
        if hay.get_char(i + j) != needle.get_char(j) {
            assert(hay@.subrange(i as int, i + needle@.len()) != needle@) by {
                assert(hay@.subrange(i as int, i + needle@.len())[j as int] == hay@[i + j]);
            }
            return false;
        }
        j = j + 1;
    }
    assert(hay@.subrange(i as int, i + needle@.len()) =~= needle@);
    true
}

pub fn contains_sub(hay: &str, needle: &str) -> (r: bool)
    ensures
        r == has_substring(hay@, needle@),
{
    let hlen = hay.unicode_len();
    let nlen = needle.unicode_len();
    if nlen > hlen {
        assert(!has_substring(hay@, needle@)) by {
            assert(forall|i: int| !has_substring_at(hay@, needle@, i));
        }
        return false;
    }
    if nlen == 0 {
        assert(has_substring_at(hay@, needle@, 0)) by {
            assert(hay@.subrange(0, 0) =~= needle@);
        }
        return true;
    }
    let mut i: usize = 0;
    while i <= hlen - nlen
        invariant
            1 <= nlen <= hlen,
            hlen == hay@.len(),
            nlen == needle@.len(),
            i <= hlen - nlen + 1,
            forall|k: int| 0 <= k < i ==> !has_substring_at(hay@, needle@, k),
        decreases hlen + 1 - i,
    {
        if matches_at(hay, needle, i) {
            return true;
        }
        i = i + 1;
    }
    assert(!has_substring(hay@, needle@)) by {
        assert(forall|k: int| k > hlen - nlen ==> !has_substring_at(hay@, needle@, k));
    }
    false
}

pub open spec fn starts_with_spec(s: Seq<char>, prefix: Seq<char>) -> bool {
    prefix.len() <= s.len() && s.subrange(0, prefix.len() as int) == prefix
}

pub fn starts_with(s: &str, prefix: &str) -> (r: bool)
    ensures
        r == starts_with_spec(s@, prefix@),
{
    if prefix.unicode_len() > s.unicode_len() {
        return false;
    }
    matches_at(s, prefix, 0)
}

pub open spec fn ends_with_spec(s: Seq<char>, suffix: Seq<char>) -> bool {
    suffix.len() <= s.len() && s.subrange(s.len() - suffix.len(), s.len() as int) == suffix
}

pub fn ends_with(s: &str, suffix: &str) -> (r: bool)
    ensures
        r == ends_with_spec(s@, suffix@),
{
    let slen = s.unicode_len();
    let xlen = suffix.unicode_len();
    if xlen > slen {
        return false;
    }
    let r = matches_at(s, suffix, slen - xlen);
    assert(has_substring_at(s@, suffix@, slen - xlen) == ends_with_spec(s@, suffix@));
    r
}

pub open spec fn is_ascii_upper(c: char) -> bool {
    'A' <= c && c <= 'Z'
}

/// The ASCII lowercase image of one character; other characters are unchanged.
pub open spec fn lower_char(c: char) -> char {
    if is_ascii_upper(c) {
        (((c as u8) + 32) as char)
    } else {
        c
    }
}

pub open spec fn to_lower(s: Seq<char>) -> Seq<char> {
    s.map_values(|c: char| lower_char(c))
}

pub fn lower_char_exec(c: char) -> (r: char)
    ensures
        r == lower_char(c),
{
    if 'A' <= c && c <= 'Z' {
        assert(c as u8 >= 65 && c as u8 <= 90);
        ((c as u8) + 32) as char
    } else {
        c
    }
}

pub fn to_lower_exec(s: &str) -> (r: String)
    ensures
        r@ == to_lower(s@),
{
    let n = s.unicode_len();
    let mut out = String::new();
    let mut i: usize = 0;
    while i < n
        invariant
            i <= n,
            n == s@.len(),
            out@ == to_lower(s@.take(i as int)),
        decreases n - i,
    {
        push_char(&mut out, lower_char_exec(s.get_char(i)));
        assert(to_lower(s@.take(i + 1)) =~= to_lower(s@.take(i as int)).push(lower_char(s@[i as int])));
        i = i + 1;
    }
    assert(s@.take(n as int) =~= s@);
    out
}

/// A whitespace character: the Unicode White_Space set, as `str::trim` and
/// the regex class `\s` delimit it.
pub open spec fn is_space(c: char) -> bool {
    ||| c == ' '
    ||| ('\t' <= c && c <= '\r')
    ||| c == '\u{85}'
    ||| c == '\u{A0}'
    ||| c == '\u{1680}'
    ||| ('\u{2000}' <= c && c <= '\u{200A}')
    ||| c == '\u{2028}'
    ||| c == '\u{2029}'
    ||| c == '\u{202F}'
    ||| c == '\u{205F}'
    ||| c == '\u{3000}'
}

/// The sequence with leading and trailing whitespace removed.
pub open spec fn trim_spaces(s: Seq<char>) -> Seq<char>
    decreases s.len(),
{
    if s.len() > 0 && is_space(s.first()) {
        trim_spaces(s.skip(1))
    } else if s.len() > 0 && is_space(s.last()) {
        trim_spaces(s.take(s.len() - 1))
    } else {
        s
    }
}

pub fn char_is_space(c: char) -> (r: bool)
    ensures
        r == is_space(c),
{
    c == ' ' || ('\t' <= c && c <= '\r') || c == '\u{85}' || c == '\u{A0}' || c == '\u{1680}'
        || ('\u{2000}' <= c && c <= '\u{200A}') || c == '\u{2028}' || c == '\u{2029}'
        || c == '\u{202F}' || c == '\u{205F}' || c == '\u{3000}'
}

pub fn trim_spaces_exec(s: &str) -> (r: String)
    ensures
        r@ == trim_spaces(s@),
{
    let mut lo: usize = 0;
    let mut hi: usize = s.unicode_len();
    proof {
        assert(s@.skip(0) =~= s@);
    }
    while lo < hi && char_is_space(s.get_char(lo))
        invariant
            lo <= hi,
            hi == s@.len(),
            trim_spaces(s@) == trim_spaces(s@.skip(lo as int)),
        decreases hi - lo,
    {
        proof {
            assert(s@.skip(lo as int).skip(1) =~= s@.skip(lo + 1));
        }
        lo = lo + 1;
    }
    proof {
        assert(s@.skip(lo as int).take(hi - lo) =~= s@.skip(lo as int));
    }
    while hi > lo && char_is_space(s.get_char(hi - 1))
        invariant
            lo <= hi <= s@.len(),
            lo == hi || !is_space(s@[lo as int]),
            trim_spaces(s@) == trim_spaces(s@.skip(lo as int).take(hi - lo)),
        decreases hi,
    {
        proof {
            let cur = s@.skip(lo as int).take(hi - lo);
            assert(cur.take(cur.len() - 1) =~= s@.skip(lo as int).take(hi - 1 - lo));
        }
        hi = hi - 1;
    }
    let out = s.substring_char(lo, hi);
    proof {
        assert(out@ =~= s@.skip(lo as int).take(hi - lo));
        let fin = s@.skip(lo as int).take(hi - lo);
        if fin.len() > 0 {
            assert(fin.first() == s@[lo as int]);
            assert(fin.last() == s@[hi - 1]);
            assert(trim_spaces(fin) == fin);
        } else {
            assert(trim_spaces(fin) == fin);
        }
    }
    out.to_owned()
}

/// The decimal digit character for a value below ten.
pub open spec fn digit_char(d: int) -> char {
    if d == 0 { '0' }
    else if d == 1 { '1' }
    else if d == 2 { '2' }
    else if d == 3 { '3' }
    else if d == 4 { '4' }
    else if d == 5 { '5' }
    else if d == 6 { '6' }
    else if d == 7 { '7' }
    else if d == 8 { '8' }
    else { '9' }
}

/// The usual decimal notation of a nonnegative integer, without leading zeros.
pub open spec fn dec_digits(n: int) -> Seq<char>
    decreases n,
{
    if n < 10 {
        seq![digit_char(n)]
    } else {
        dec_digits(n / 10).push(digit_char(n % 10))
    }
}

fn digit_char_exec(d: u128) -> (r: char)
    requires
        d < 10,
    ensures
        r == digit_char(d as int),
{
    if d == 0 { '0' }
    else if d == 1 { '1' }
    else if d == 2 { '2' }
    else if d == 3 { '3' }
    else if d == 4 { '4' }
    else if d == 5 { '5' }
    else if d == 6 { '6' }
    else if d == 7 { '7' }
    else if d == 8 { '8' }
    else { '9' }
}

pub fn u128_to_dec(n: u128) -> (r: String)
    ensures
        r@ == dec_digits(n as int),
{
    let mut rev: Vec<char> = Vec::new();
    let mut cur: u128 = n;
    proof {
        assert(dec_digits(n as int) =~= dec_digits(n as int) + rev@.reverse());
    }
    loop
        invariant_except_break
            dec_digits(n as int) == dec_digits(cur as int) + rev@.reverse(),
        ensures
            dec_digits(n as int) == rev@.reverse(),
        decreases cur,
    {
        let ghost prev = cur;
        let ghost rev_old = rev@;
        let d = cur % 10;
        rev.push(digit_char_exec(d));
        cur = cur / 10;
        proof {
            assert(rev@.reverse() =~= seq![digit_char(prev as int % 10)] + rev_old.reverse());
            if prev >= 10 {
                assert(dec_digits(prev as int) =~= dec_digits(prev as int / 10) + seq![
                    digit_char(prev as int % 10),
                ]);
                assert(dec_digits(cur as int) + rev@.reverse() =~= (dec_digits(cur as int) + seq![
                    digit_char(prev as int % 10),
                ]) + rev_old.reverse());
            } else {
                assert(dec_digits(prev as int) =~= seq![digit_char(prev as int % 10)]);
                assert(rev@.reverse() =~= dec_digits(prev as int) + rev_old.reverse());
            }
        }
        if cur == 0 {
            break;
        }
    }
    let mut out = String::new();
    let mut i: usize = 0;
    let ghost rseq = rev@.reverse();
    proof {
        assert(out@ =~= rseq.take(0));
    }
    while i < rev.len()
        invariant
            i <= rev@.len(),
            rseq == rev@.reverse(),
            out@ == rseq.take(i as int),
        decreases rev@.len() - i,
    {
        push_char(&mut out, rev[rev.len() - 1 - i]);
        assert(rseq.take(i + 1) =~= rseq.take(i as int).push(rev@[rev@.len() - 1 - i]));
        i = i + 1;
    }
    assert(out@ =~= dec_digits(n as int)) by {
        assert(rseq.take(rev@.len() as int) =~= rseq);
    }
    out
}

} // verus!
