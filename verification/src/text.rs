//! Byte-level text sniffing: a buffer is treated as text when fewer than ten
//! percent of its leading sample bytes fall outside printable ASCII and
//! common whitespace.

use vstd::prelude::*;

verus! {

/// A byte that is neither printable ASCII nor tab, carriage return or newline.
pub open spec fn is_weird_byte(b: u8) -> bool {
    !(b == 0x0a || b == 0x0d || b == 0x09 || (0x20 <= b && b <= 0x7e))
}

pub open spec fn weird_count(s: Seq<u8>) -> int
    decreases s.len(),
{
    if s.len() == 0 {
        0
    } else {
        weird_count(s.drop_last()) + if is_weird_byte(s.last()) {
            1int
        } else {
            0int
        }
    }
}

/// Length of the sniffing sample: the whole buffer, capped at 2048 bytes.
pub open spec fn sample_len(s: Seq<u8>) -> int {
    if s.len() < 2048 {
        s.len() as int
    } else {
        2048
    }
}

/// A nonempty buffer is probably text when strictly fewer than one tenth of
/// the sampled bytes are weird.
pub open spec fn is_probably_text_spec(s: Seq<u8>) -> bool {
    s.len() > 0 && weird_count(s.take(sample_len(s))) * 10 < sample_len(s)
}

proof fn lemma_weird_count_bounds(s: Seq<u8>)
    ensures
        0 <= weird_count(s) <= s.len(),
    decreases s.len(),
{
    if s.len() > 0 {
        lemma_weird_count_bounds(s.drop_last());
    }
}

pub fn is_probably_text(data: &[u8]) -> (r: bool)
    ensures
        r == is_probably_text_spec(data@),
{
    let len = data.len();
    if len == 0 {
        return false;
    }
    let sample: usize = if len < 2048 {
        len
    } else {
        2048
    };
    let mut weird: usize = 0;
    let mut i: usize = 0;
    while i < sample
        invariant
            i <= sample,
            sample == sample_len(data@),
            sample <= data@.len(),
            weird == weird_count(data@.take(i as int)),
            weird <= i,
        decreases sample - i,
    {
        let b = data[i];
        assert(data@.take(i + 1).drop_last() =~= data@.take(i as int));
        assert(data@.take(i + 1).last() == b);
        if !(b == 0x0a || b == 0x0d || b == 0x09 || (0x20 <= b && b <= 0x7e)) {
            weird = weird + 1;
        }
        i = i + 1;
    }
    weird * 10 < sample
}

/// Relies on std::str::from_utf8: it accepts exactly the valid UTF-8 byte
/// strings and decodes them to their characters.
#[verifier::external_body]
pub(crate) fn bytes_to_string(data: &[u8]) -> (r: Option<String>)
    ensures
        r is Some <==> vstd::utf8::valid_utf8(data@),
        r matches Some(s) ==> s@ == vstd::utf8::decode_utf8(data@),
{
    match core::str::from_utf8(data) {
        Ok(s) => Some(s.to_string()),
        Err(_) => None,
    }
}

/// The sniff is monotone in noise: any buffer in which more than one tenth of
/// the sampled bytes are weird is never classified as text.
pub proof fn lemma_text_sniff_rejects_noise(s: Seq<u8>)
    requires
        weird_count(s.take(sample_len(s))) * 10 >= sample_len(s),
    ensures
        !is_probably_text_spec(s),
{
}

} // verus!
