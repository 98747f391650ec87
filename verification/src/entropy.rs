//! Shannon entropy of a byte buffer in fixed-point arithmetic.
//!
//! The score is reported in centibits per byte (hundredths of a bit), with
//! sixteen fractional bits carried internally through a binary-logarithm
//! iteration. The scorer is exact with respect to its specification and
//! satisfies the classical bounds: the score lies in `[0, 800]`, it is zero
//! exactly when all bytes are equal, and the total is the per-byte score
//! times the length.

use vstd::prelude::*;
use vstd::arithmetic::power2::pow2;
use vstd::arithmetic::power2::lemma_pow2_strictly_increases;
use vstd::arithmetic::power2::lemma2_to64;
use vstd::arithmetic::div_mod::lemma_fundamental_div_mod;
use vstd::arithmetic::div_mod::lemma_div_is_ordered;
use vstd::arithmetic::div_mod::lemma_div_multiples_vanish;

verus! {

/// How many entries of the sequence hold the byte `b`.
pub open spec fn count_byte(s: Seq<u8>, b: u8) -> int
    decreases s.len(),
{
    if s.len() == 0 {
        0
    } else {
        count_byte(s.drop_last(), b) + if s.last() == b {
            1int
        } else {
            0int
        }
    }
}

pub open spec fn all_same(s: Seq<u8>) -> bool {
    forall|i: int| 0 <= i < s.len() ==> #[trigger] s[i] == s[0]
}

/// Number of doublings of `c` that stay at or below `n`: the integer part of
/// the base-two logarithm of `n / c`.
pub open spec fn dlog(n: int, c: int) -> nat
    recommends
        1 <= c <= n,
    decreases n - c when 1 <= c <= n
{
    if 2 * c > n {
        0
    } else {
        1 + dlog(n, 2 * c)
    }
}

/// One round of the square-and-compare iteration that extracts fractional
/// bits of a base-two logarithm; `r` carries 32 fractional bits.
pub open spec fn frac_step_r(r: int) -> int {
    let sq = (r * r) / 0x100000000;
    if sq >= 0x200000000 {
        sq / 2
    } else {
        sq
    }
}

pub open spec fn frac_step_bit(r: int) -> bool {
    (r * r) / 0x100000000 >= 0x200000000
}

pub open spec fn frac_r(r0: int, i: nat) -> int
    decreases i,
{
    if i == 0 {
        r0
    } else {
        frac_step_r(frac_r(r0, (i - 1) as nat))
    }
}

/// The fractional bits accumulated after `i` rounds, most significant first.
pub open spec fn frac_y(r0: int, i: nat) -> int
    decreases i,
{
    if i == 0 {
        0
    } else {
        2 * frac_y(r0, (i - 1) as nat) + if frac_step_bit(frac_r(r0, (i - 1) as nat)) {
            1int
        } else {
            0int
        }
    }
}

/// Fixed-point base-two logarithm of `n / c` with sixteen fractional bits.
pub open spec fn log2_fix(n: int, c: int) -> int
    recommends
        1 <= c <= n,
{
    let k = dlog(n, c);
    let r0 = (n * 0x100000000) / (c * pow2(k) as int);
    k * 0x10000 + frac_y(r0, 16)
}

pub open spec fn entropy_term(s: Seq<u8>, b: int) -> int {
    let c = count_byte(s, b as u8);
    if c == 0 {
        0
    } else {
        c * log2_fix(s.len() as int, c)
    }
}

/// Sum of the per-byte-value entropy terms over byte values below `b`.
pub open spec fn entropy_sum_to(s: Seq<u8>, b: int) -> int
    decreases b,
{
    if b <= 0 {
        0
    } else {
        entropy_sum_to(s, b - 1) + entropy_term(s, b - 1)
    }
}

/// The entropy of a byte buffer in centibits per byte: zero exactly for
/// empty or constant buffers, and otherwise the fixed-point sum scaled to
/// centibits and clamped into `[1, 800]`.
pub open spec fn entropy_centi(s: Seq<u8>) -> int {
    if s.len() == 0 || all_same(s) {
        0
    } else {
        let raw = (entropy_sum_to(s, 256) * 100) / (s.len() as int * 0x10000);
        if raw < 1 {
            1
        } else if raw > 800 {
            800
        } else {
            raw
        }
    }
}

/// The entropy score is bounded by eight bits per byte and vanishes exactly
/// on buffers whose bytes are all equal.
pub proof fn lemma_entropy_bounds(s: Seq<u8>)
    ensures
        0 <= entropy_centi(s) <= 800,
        (entropy_centi(s) == 0) <==> (s.len() == 0 || all_same(s)),
{
}

fn log2_fix_exec(n: u64, c: u64) -> (y: u64)
    requires
        1 <= c <= n,
    ensures
        y == log2_fix(n as int, c as int),
        y < 0x400000,
{
    let mut k: u64 = 0;
    let mut cc: u64 = c;
    proof {
        lemma2_to64();
        assert(c * pow2(0) == c);
    }
    while cc <= n / 2
        invariant
            1 <= c <= n,
            cc == c * pow2(k as nat),
            c <= cc <= n,
            k < 64,
            dlog(n as int, c as int) == k + dlog(n as int, cc as int),
        decreases n - cc,
    {
        proof {
            assert(2 * cc <= n);
            assert(dlog(n as int, cc as int) == 1 + dlog(n as int, 2 * cc as int));
            assert(pow2((k + 1) as nat) == 2 * pow2(k as nat)) by {
                vstd::arithmetic::power2::lemma_pow2_unfold((k + 1) as nat);
            }
            assert(c * pow2((k + 1) as nat) == 2 * (c * pow2(k as nat))) by (nonlinear_arith)
                requires
                    pow2((k + 1) as nat) == 2 * pow2(k as nat);
            assert(k + 1 < 64) by {
                assert(pow2((k + 1) as nat) <= 2 * cc) by (nonlinear_arith)
                    requires
                        pow2((k + 1) as nat) == 2 * pow2(k as nat),
                        cc == c * pow2(k as nat),
                        c >= 1,
                        pow2(k as nat) >= 0;
                lemma2_to64();
                if k + 1 >= 64 {
                    if k + 1 > 64 {
                        lemma_pow2_strictly_increases(64, (k + 1) as nat);
                    }
                    assert(pow2((k + 1) as nat) >= pow2(64));
                    assert(false);
                }
            }
        }
        cc = cc * 2;
        k = k + 1;
    }
    proof {
        assert(2 * cc > n);
        assert(dlog(n as int, cc as int) == 0);
        assert(dlog(n as int, c as int) == k);
    }
    let num: u128 = (n as u128) * 0x100000000;
    let r_init: u128 = num / (cc as u128);
    let ghost r0 = r_init as int;
    proof {
        lemma_div_multiples_vanish(0x100000000, cc as int);
        lemma_div_is_ordered(cc as int * 0x100000000, num as int, cc as int);
        assert(cc as int * 0x100000000 <= num as int) by (nonlinear_arith)
            requires
                cc <= n,
                num == n as int * 0x100000000;
        assert(r0 >= 0x100000000);
        lemma_fundamental_div_mod(num as int, cc as int);
        assert(r0 < 0x200000000) by (nonlinear_arith)
            requires
                num == (cc as int) * r0 + (num as int) % (cc as int),
                (num as int) % (cc as int) >= 0,
                num == n as int * 0x100000000,
                n < 2 * (cc as int),
                cc >= 1;
    }
    let mut r: u128 = r_init;
    let mut y2: u64 = 0;
    let mut i: usize = 0;
    proof {
        lemma2_to64();
    }
    while i < 16
        invariant
            i <= 16,
            0x100000000 <= r < 0x200000000,
            r as int == frac_r(r0, i as nat),
            y2 as int == frac_y(r0, i as nat),
            y2 < pow2(i as nat),
        decreases 16 - i,
    {
        proof {
            assert(r * r < 0x40000000000000000) by (nonlinear_arith)
                requires
                    r < 0x200000000;
            assert(r * r >= 0x10000000000000000) by (nonlinear_arith)
                requires
                    r >= 0x100000000;
            lemma_div_is_ordered(0x10000000000000000, (r * r) as int, 0x100000000);
            lemma_div_multiples_vanish(0x100000000, 0x100000000);
            assert(0x100000000int * 0x100000000int == 0x10000000000000000int);
            lemma_fundamental_div_mod((r * r) as int, 0x100000000);
            assert((r * r) as int / 0x100000000 < 0x400000000) by (nonlinear_arith)
                requires
                    (r * r) as int == 0x100000000 * ((r * r) as int / 0x100000000) + ((r
                        * r) as int) % 0x100000000,
                    ((r * r) as int) % 0x100000000 >= 0,
                    ((r * r) as int) < 0x40000000000000000;
            assert(pow2((i + 1) as nat) == 2 * pow2(i as nat)) by {
                vstd::arithmetic::power2::lemma_pow2_unfold((i + 1) as nat);
            }
            lemma2_to64();
            if i < 15 {
                lemma_pow2_strictly_increases(i as nat, 15);
            }
            assert(pow2(i as nat) <= 0x8000);
        }
        let sq: u128 = (r * r) / 0x100000000;
        if sq >= 0x200000000 {
            r = sq / 2;
            y2 = 2 * y2 + 1;
        } else {
            r = sq;
            y2 = 2 * y2;
        }
        i = i + 1;
    }
    proof {
        assert(pow2(16) == 0x10000) by {
            lemma2_to64();
        }
    }
    k * 0x10000 + y2
}

fn all_same_exec(bytes: &[u8]) -> (r: bool)
    requires
        bytes@.len() > 0,
    ensures
        r == all_same(bytes@),
{
    let len = bytes.len();
    let first = bytes[0];
    let mut same = true;
    let mut j: usize = 1;
    while j < len
        invariant
            1 <= j <= len,
            len == bytes@.len(),
            first == bytes@[0],
            same == (forall|t: int| 0 <= t < j ==> #[trigger] bytes@[t] == bytes@[0]),
        decreases len - j,
    {
        if bytes[j] != first {
            same = false;
        }
        j = j + 1;
    }
    same
}

proof fn lemma_count_take_step(s: Seq<u8>, i: int, bv: u8)
    requires
        0 <= i < s.len(),
    ensures
        count_byte(s.take(i + 1), bv) == count_byte(s.take(i), bv) + if s[i] == bv {
            1int
        } else {
            0int
        },
{
    assert(s.take(i + 1).drop_last() =~= s.take(i));
    assert(s.take(i + 1).last() == s[i]);
}

/// The entropy of the buffer: centibits per byte, total centibits, length.
pub fn shannon_entropy(bytes: &[u8]) -> (r: (u32, u128, usize))
    ensures
        r.0 as int == entropy_centi(bytes@),
        r.1 == r.0 as u128 * r.2 as u128,
        r.2 == bytes@.len(),
{
    let len = bytes.len();
    if len == 0 {
        return (0, 0, 0);
    }
    if all_same_exec(bytes) {
        proof {
            assert((0u32 as u128) * (len as u128) == 0) by (nonlinear_arith);
        }
        return (0, 0, len);
    }
    let mut hist: Vec<u64> = Vec::new();
    let mut z: usize = 0;
    while z < 256
        invariant
            z <= 256,
            hist@.len() == z,
            forall|t: int| 0 <= t < z ==> hist@[t] == 0,
        decreases 256 - z,
    {
        hist.push(0);
        z = z + 1;
    }
    proof {
        assert(forall|bv: int| 0 <= bv < 256 ==> #[trigger] count_byte(bytes@.take(0), bv as u8)
            == 0);
    }
    let mut i: usize = 0;
    while i < len
        invariant
            i <= len,
            len == bytes@.len(),
            hist@.len() == 256,
            forall|bv: int|
                0 <= bv < 256 ==> hist@[bv] == count_byte(bytes@.take(i as int), bv as u8),
            forall|bv: int| 0 <= bv < 256 ==> hist@[bv] <= i,
        decreases len - i,
    {
        let b = bytes[i];
        let bi = b as usize;
        let cur = hist[bi];
        hist[bi] = cur + 1;
        proof {
            assert forall|bv: int| 0 <= bv < 256 implies hist@[bv] == count_byte(
                bytes@.take(i + 1),
                bv as u8,
            ) by {
                lemma_count_take_step(bytes@, i as int, bv as u8);
            }
        }
        i = i + 1;
    }
    proof {
        assert(bytes@.take(len as int) =~= bytes@);
    }
    let n64: u64 = len as u64;
    let mut sum: u128 = 0;
    let mut b: usize = 0;
    while b < 256
        invariant
            b <= 256,
            len == bytes@.len(),
            n64 == len,
            1 <= len,
            hist@.len() == 256,
            forall|bv: int| 0 <= bv < 256 ==> hist@[bv] == count_byte(bytes@, bv as u8),
            forall|bv: int| 0 <= bv < 256 ==> hist@[bv] <= len,
            sum as int == entropy_sum_to(bytes@, b as int),
            sum as int <= b as int * (len as int * 0x400000),
        decreases 256 - b,
    {
        let cb = hist[b];
        if cb > 0 {
            let y = log2_fix_exec(n64, cb);
            proof {
                assert(cb as int * (y as int) < len as int * 0x400000) by (nonlinear_arith)
                    requires
                        1 <= cb as int <= len as int,
                        0 <= y && (y as int) < 0x400000;
                assert(256int * ((0x10000000000000000int) * 0x400000) < u128::MAX);
                assert(b as int * (len as int * 0x400000) <= 256 * ((0x10000000000000000int)
                    * 0x400000)) by (nonlinear_arith)
                    requires
                        0 <= b <= 256,
                        1 <= len && (len as int) < 0x10000000000000000;
            }
            sum = sum + (cb as u128) * (y as u128);
        }
        proof {
            assert(entropy_sum_to(bytes@, b + 1) == entropy_sum_to(bytes@, b as int)
                + entropy_term(bytes@, b as int));
            assert((b + 1) as int * (len as int * 0x400000) == b as int * (len as int * 0x400000)
                + len as int * 0x400000) by (nonlinear_arith);
        }
        b = b + 1;
    }
    let denom: u128 = (len as u128) * 0x10000;
    proof {
        assert(sum as int * 100 <= u128::MAX) by (nonlinear_arith)
            requires
                0 <= sum as int <= 256int * (0x10000000000000000int * 0x400000);
    }
    let scaled: u128 = sum * 100;
    let raw: u128 = scaled / denom;
    let h: u32 = if raw < 1 {
        1
    } else if raw > 800 {
        800
    } else {
        raw as u32
    };
    proof {
        assert((h as int) * (len as int) < 0x100000000000000000000) by (nonlinear_arith)
            requires
                h <= 800,
                0 <= len && (len as int) < 0x10000000000000000;
    }
    let total: u128 = (h as u128) * (len as u128);
    (h, total, len)
}

} // verus!
