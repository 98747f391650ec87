//! Composition of findings-report blocks.
//!
//! One block per URL: a header line holding the URL (suffixed for archive
//! scans), then one indented line per finding with the matched value, its
//! byte length and its entropy annotations. A block is composed wholly in
//! memory so that the caller can append it to the shared report under its
//! lock in one write; its line structure is proved below.

use vstd::prelude::*;
use vstd::string::StrSliceExecFns;
use vstd::string::StringExecFns;
use vstd::utf8::encode_utf8;
use crate::strutil::push_char;
use crate::strutil::dec_digits;
use crate::strutil::digit_char;
use crate::strutil::u128_to_dec;
use crate::entropy::entropy_centi;
use crate::entropy::shannon_entropy;

verus! {

/// A centibit quantity written with two decimal places.
pub open spec fn centi_str(x: int) -> Seq<char> {
    dec_digits(x / 100) + seq!['.', digit_char((x / 10) % 10), digit_char(x % 10)]
}

pub fn format_centi(x: u128) -> (r: String)
    ensures
        r@ == centi_str(x as int),
{
    let mut out = u128_to_dec(x / 100);
    push_char(&mut out, '.');
    push_char(&mut out, digit_char_exec(((x / 10) % 10) as u8));
    push_char(&mut out, digit_char_exec((x % 10) as u8));
    proof {
        assert(out@ =~= centi_str(x as int));
    }
    out
}

fn digit_char_exec(d: u8) -> (r: char)
    requires
        d < 10,
    ensures
        r == digit_char(d as int),
{
    if d == 0 { '0' }
    else if d == 1 { '1' }
    else if d == 2 { '2' }
    else if d == 3 { '3' }
    else if d == 4 { '4' }
    else if d == 5 { '5' }
    else if d == 6 { '6' }
    else if d == 7 { '7' }
    else if d == 8 { '8' }
    else { '9' }
}

/// One finding line without its terminating newline.
pub open spec fn line_body(name: Seq<char>, value: Seq<char>) -> Seq<char> {
    let bytes = encode_utf8(value);
    let h = entropy_centi(bytes);
    "  - ["@ + name + "] Найдено: "@ + value + " | len="@ + dec_digits(bytes.len() as int)
        + " | H≈"@ + centi_str(h) + " bits/char | total≈"@ + centi_str(h * bytes.len())
        + " bits"@
}

/// One finding line: the matched value with its length and entropy.
pub open spec fn finding_line(name: Seq<char>, value: Seq<char>) -> Seq<char> {
    line_body(name, value).push('\n')
}

/// The lines of a block, one per hit, in order.
pub open spec fn lines_of(hits: Seq<(Seq<char>, Seq<char>)>) -> Seq<char>
    decreases hits.len(),
{
    if hits.len() == 0 {
        Seq::empty()
    } else {
        lines_of(hits.drop_last()) + finding_line(hits.last().0, hits.last().1)
    }
}

/// A whole report block: the header line, then one line per finding.
pub open spec fn findings_block_spec(header: Seq<char>, hits: Seq<(Seq<char>, Seq<char>)>) -> Seq<
    char,
> {
    header + seq!['\n'] + lines_of(hits)
}

fn append_line(out: &mut String, name: &str, value: &str)
    ensures
        final(out)@ == old(out)@ + finding_line(name@, value@),
{
    let bytes = value.as_bytes();
    let (h, total, blen) = shannon_entropy(bytes);
    out.append("  - [");
    out.append(name);
    out.append("] Найдено: ");
    out.append(value);
    out.append(" | len=");
    let lenstr = u128_to_dec(blen as u128);
    out.append(lenstr.as_str());
    out.append(" | H≈");
    let hstr = format_centi(h as u128);
    out.append(hstr.as_str());
    out.append(" bits/char | total≈");
    let tstr = format_centi(total);
    out.append(tstr.as_str());
    out.append(" bits");
    push_char(out, '\n');
    proof {
        assert(out@ =~= old(out)@ + finding_line(name@, value@));
    }
}

/// Compose one URL's report block in memory.
pub fn findings_block(header: &str, hits: &Vec<(String, String)>) -> (r: String)
    ensures
        r@ == findings_block_spec(header@, hits.deep_view()),
{
    let ghost hv = hits.deep_view();
    let mut out = String::new();
    out.append(header);
    push_char(&mut out, '\n');
    proof {
        assert(out@ =~= header@ + seq!['\n'] + lines_of(hv.take(0)));
    }
    let mut i: usize = 0;
    while i < hits.len()
        invariant
            i <= hits@.len(),
            hv == hits.deep_view(),
            out@ == header@ + seq!['\n'] + lines_of(hv.take(i as int)),
        decreases hits@.len() - i,
    {
        append_line(&mut out, hits[i].0.as_str(), hits[i].1.as_str());
        proof {
            assert(hv.take(i + 1).drop_last() =~= hv.take(i as int));
            assert(hv.take(i + 1).last() == hv[i as int]);
            assert(out@ =~= header@ + seq!['\n'] + lines_of(hv.take(i + 1)));
        }
        i = i + 1;
    }
    proof {
        assert(hv.take(hits@.len() as int) =~= hv);
    }
    out
}

pub open spec fn no_newline(s: Seq<char>) -> bool {
    forall|i: int| 0 <= i < s.len() ==> #[trigger] s[i] != '\n'
}

/// How many times the character occurs.
pub open spec fn count_char(s: Seq<char>, c: char) -> int
    decreases s.len(),
{
    if s.len() == 0 {
        0
    } else {
        count_char(s.drop_last(), c) + if s.last() == c {
            1int
        } else {
            0int
        }
    }
}

proof fn lemma_count_char_none(s: Seq<char>, c: char)
    requires
        forall|i: int| 0 <= i < s.len() ==> #[trigger] s[i] != c,
    ensures
        count_char(s, c) == 0,
    decreases s.len(),
{
    if s.len() > 0 {
        lemma_count_char_none(s.drop_last(), c);
    }
}

proof fn lemma_count_char_add(a: Seq<char>, b: Seq<char>, c: char)
    ensures
        count_char(a + b, c) == count_char(a, c) + count_char(b, c),
    decreases b.len(),
{
    if b.len() == 0 {
        assert(a + b =~= a);
    } else {
        lemma_count_char_add(a, b.drop_last(), c);
        assert((a + b).drop_last() =~= a + b.drop_last());
        assert((a + b).last() == b.last());
    }
}

proof fn lemma_dec_digits_not_newline(n: int)
    ensures
        forall|i: int| 0 <= i < dec_digits(n).len() ==> #[trigger] dec_digits(n)[i] != '\n',
    decreases n,
{
    if n >= 10 {
        lemma_dec_digits_not_newline(n / 10);
        assert forall|i: int| 0 <= i < dec_digits(n).len() implies #[trigger] dec_digits(n)[i]
            != '\n' by {
            if i < dec_digits(n / 10).len() {
                assert(dec_digits(n)[i] == dec_digits(n / 10)[i]);
            }
        }
    }
}

proof fn lemma_centi_str_not_newline(x: int)
    ensures
        forall|i: int| 0 <= i < centi_str(x).len() ==> #[trigger] centi_str(x)[i] != '\n',
{
    lemma_dec_digits_not_newline(x / 100);
    assert forall|i: int| 0 <= i < centi_str(x).len() implies #[trigger] centi_str(x)[i]
        != '\n' by {
        if i < dec_digits(x / 100).len() {
            assert(centi_str(x)[i] == dec_digits(x / 100)[i]);
        }
    }
}

/// A finding line ends with its only newline when the rule name and the
/// matched value hold none.
proof fn lemma_line_newlines(name: Seq<char>, value: Seq<char>)
    requires
        no_newline(name),
        no_newline(value),
    ensures
        finding_line(name, value).last() == '\n',
        count_char(finding_line(name, value), '\n') == 1,
{
    let bytes = encode_utf8(value);
    let h = entropy_centi(bytes);
    reveal_strlit("  - [");
    reveal_strlit("] Найдено: ");
    reveal_strlit(" | len=");
    reveal_strlit(" | H≈");
    reveal_strlit(" bits/char | total≈");
    reveal_strlit(" bits");
    lemma_dec_digits_not_newline(bytes.len() as int);
    lemma_centi_str_not_newline(h);
    lemma_centi_str_not_newline(h * bytes.len());
    let body = line_body(name, value);
    assert(no_newline(body)) by {
        assert forall|i: int| 0 <= i < body.len() implies #[trigger] body[i] != '\n' by {
            let p1 = "  - ["@ + name;
            let p2 = p1 + "] Найдено: "@;
            let p3 = p2 + value;
            let p4 = p3 + " | len="@;
            let p5 = p4 + dec_digits(bytes.len() as int);
            let p6 = p5 + " | H≈"@;
            let p7 = p6 + centi_str(h);
            let p8 = p7 + " bits/char | total≈"@;
            let p9 = p8 + centi_str(h * bytes.len());
            assert(body == p9 + " bits"@);
            if i < p1.len() {
                if i < "  - ["@.len() {
                    assert(body[i] == "  - ["@[i]);
                } else {
                    assert(body[i] == name[i - "  - ["@.len()]);
                }
            } else if i < p2.len() {
                assert(body[i] == "] Найдено: "@[i - p1.len()]);
            } else if i < p3.len() {
                assert(body[i] == value[i - p2.len()]);
            } else if i < p4.len() {
                assert(body[i] == " | len="@[i - p3.len()]);
            } else if i < p5.len() {
                assert(body[i] == dec_digits(bytes.len() as int)[i - p4.len()]);
            } else if i < p6.len() {
                assert(body[i] == " | H≈"@[i - p5.len()]);
            } else if i < p7.len() {
                assert(body[i] == centi_str(h)[i - p6.len()]);
            } else if i < p8.len() {
                assert(body[i] == " bits/char | total≈"@[i - p7.len()]);
            } else if i < p9.len() {
                assert(body[i] == centi_str(h * bytes.len())[i - p8.len()]);
            } else {
                assert(body[i] == " bits"@[i - p9.len()]);
            }
        }
    }
    lemma_count_char_none(body, '\n');
    assert(finding_line(name, value).drop_last() =~= body);
}

/// A block is one header line and one line per finding: it holds exactly
/// `hits.len() + 1` newlines, the first of them right after the header,
/// provided header, rule names and values hold none themselves.
pub proof fn lemma_block_atomic(header: Seq<char>, hits: Seq<(Seq<char>, Seq<char>)>)
    requires
        no_newline(header),
        forall|k: int|
            0 <= k < hits.len() ==> no_newline(#[trigger] hits[k].0) && no_newline(hits[k].1),
    ensures
        count_char(findings_block_spec(header, hits), '\n') == 1 + hits.len(),
        findings_block_spec(header, hits).take(header.len() as int) == header,
        findings_block_spec(header, hits)[header.len() as int] == '\n',
    decreases hits.len(),
{
    let block = findings_block_spec(header, hits);
    assert(block.take(header.len() as int) =~= header);
    if hits.len() == 0 {
        lemma_count_char_none(header, '\n');
        lemma_count_char_add(header, seq!['\n'], '\n');
        assert(lines_of(hits) =~= Seq::<char>::empty());
        assert(header + seq!['\n'] + lines_of(hits) =~= header + seq!['\n']);
    } else {
        lemma_block_atomic(header, hits.drop_last());
        lemma_line_newlines(hits.last().0, hits.last().1);
        lemma_count_char_add(
            header + seq!['\n'] + lines_of(hits.drop_last()),
            finding_line(hits.last().0, hits.last().1),
            '\n',
        );
        assert(header + seq!['\n'] + lines_of(hits) =~= (header + seq!['\n'] + lines_of(
            hits.drop_last(),
        )) + finding_line(hits.last().0, hits.last().1));
    }
}

} // verus!
