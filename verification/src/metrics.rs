//! Token estimation.
//!
//! A prompt is estimated at a quarter of a token per byte of its UTF-8
//! encoding, computed in single precision and truncated, which is what
//! `(0.25f32 * len as f32) as usize` gives.  The conversion of the byte count
//! to single precision rounds to the nearest value with a 24-bit significand
//! (ties to even); the multiplication by a power of two is exact and the final
//! conversion truncates towards zero.  The specification below states that
//! computation over the integers.

use vstd::prelude::*;

verus! {

/// Smallest value that needs more than 24 significant bits.
pub open spec fn significand_limit() -> nat {
    0x100_0000
}

/// `n` split as `q * p + r` with `p` a power of two and `q` the 24-bit
/// significand of `n` truncated: returns `(q, p)`.
pub open spec fn f32_scale(n: nat) -> (nat, nat)
    decreases n,
{
    if n < significand_limit() {
        (n, 1)
    } else {
        let (q, p) = f32_scale(n / 2);
        (q, 2 * p)
    }
}

/// `n` rounded to the nearest value representable in single precision,
/// ties to the even significand.
pub open spec fn round_to_f32(n: nat) -> nat {
    let (q, p) = f32_scale(n);
    let r: int = n - q * p;
    if p == 1 {
        n
    } else if r * 2 > p || (r * 2 == p && q % 2 == 1) {
        (q + 1) * p
    } else {
        q * p
    }
}

/// Estimated token count of a text of `bytes` bytes.
pub open spec fn estimated_tokens(bytes: nat) -> nat {
    round_to_f32(bytes) / 4
}

/// `f32_scale(n) == (q, p)` brackets `n` between `q * p` and `(q + 1) * p`.
proof fn lemma_f32_scale_bounds(n: nat)
    ensures
        ({
            let (q, p) = f32_scale(n);
            &&& p >= 1
            &&& q < significand_limit()
            &&& q * p <= n < q * p + p
            &&& (p > 1 ==> 2 * q >= significand_limit())
            &&& (p == 1 <==> n < significand_limit())
            &&& p % 2 == 0 || p == 1
        }),
    decreases n,
{
    if n >= significand_limit() {
        lemma_f32_scale_bounds(n / 2);
        let (q, p) = f32_scale(n / 2);
        let m: nat = n / 2;
        assert(q * p <= m < q * p + p);
        assert(q * (2 * p) == 2 * (q * p)) by (nonlinear_arith);
        assert(n == 2 * m || n == 2 * m + 1);
    }
}

/// Scales grow with the value: a larger value has an equal or a larger scale,
/// a larger scale is at least twice the smaller, and under equal scales the
/// significands are ordered like the values.
proof fn lemma_f32_scale_monotone(a: nat, b: nat)
    requires
        a <= b,
    ensures
        ({
            let (qa, pa) = f32_scale(a);
            let (qb, pb) = f32_scale(b);
            &&& pa <= pb
            &&& (pa < pb ==> 2 * pa <= pb)
            &&& (pa == pb ==> qa <= qb)
        }),
    decreases b,
{
    lemma_f32_scale_bounds(a);
    lemma_f32_scale_bounds(b);
    let (qa, pa) = f32_scale(a);
    let (qb, pb) = f32_scale(b);
    if b < significand_limit() {
    } else if a < significand_limit() {
    } else {
        lemma_f32_scale_monotone(a / 2, b / 2);
    }
    if pa == pb {
        assert(qa * pa <= a <= b < qb * pb + pb);
        assert(qa <= qb) by (nonlinear_arith)
            requires
                qa * pa < qb * pa + pa,
                pa >= 1,
        ;
    }
}

/// The rounded value lies between the truncated significand and the next one.
proof fn lemma_round_to_f32_bounds(n: nat)
    ensures
        ({
            let (q, p) = f32_scale(n);
            q * p <= round_to_f32(n) <= q * p + p
        }),
{
    lemma_f32_scale_bounds(n);
    let (q, p) = f32_scale(n);
    assert((q + 1) * p == q * p + p) by (nonlinear_arith);
}

/// A longer text never has a smaller token estimate: rounding to single
/// precision, scaling by a quarter and truncating all keep the order.
pub proof fn law_token_estimate_monotone(a: nat, b: nat)
    requires
        a <= b,
    ensures
        estimated_tokens(a) <= estimated_tokens(b),
{
    lemma_f32_scale_bounds(a);
    lemma_f32_scale_bounds(b);
    lemma_f32_scale_monotone(a, b);
    lemma_round_to_f32_bounds(a);
    lemma_round_to_f32_bounds(b);
    let (qa, pa) = f32_scale(a);
    let (qb, pb) = f32_scale(b);
    if pa < pb {
        assert(qa * pa + pa <= significand_limit() * pa) by (nonlinear_arith)
            requires
                qa < significand_limit(),
        ;
        assert(significand_limit() * pa <= qb * pb) by (nonlinear_arith)
            requires
                2 * qb >= significand_limit(),
                2 * pa <= pb,
        ;
    } else if qa < qb {
        assert(qa * pa + pa <= qb * pb) by (nonlinear_arith)
            requires
                qa < qb,
                pa == pb,
        ;
    } else if pa > 1 {
        assert(qa == qb && pa == pb);
        let ra: int = a - qa * pa;
        let rb: int = b - qb * pb;
        assert(ra <= rb);
    }
    assert(round_to_f32(a) <= round_to_f32(b));
}

/// Below 2^24 bytes, the estimate is exactly a quarter of the byte count.
pub proof fn law_small_texts_exact(n: nat)
    requires
        n < significand_limit(),
    ensures
        estimated_tokens(n) == n / 4,
{
}

/// The byte length of a text as `str::len` reports it.
pub open spec fn byte_count(s: Seq<char>) -> nat {
    (crate::text::utf8_len(s) as usize) as nat
}

/// The token estimate of a text.
pub open spec fn token_estimate(s: Seq<char>) -> nat {
    estimated_tokens(byte_count(s))
}

/// The token estimate of a text depends on its byte length alone, and a text
/// of at least as many bytes never has a smaller estimate (every `str` fits
/// its byte length in a `usize`).
pub proof fn law_text_estimate_monotone(a: Seq<char>, b: Seq<char>)
    requires
        crate::text::utf8_len(a) <= crate::text::utf8_len(b) <= usize::MAX,
    ensures
        token_estimate(a) <= token_estimate(b),
        crate::text::utf8_len(a) == crate::text::utf8_len(b) ==> token_estimate(a) == token_estimate(b),
{
    assert(byte_count(a) == crate::text::utf8_len(a));
    assert(byte_count(b) == crate::text::utf8_len(b));
    law_token_estimate_monotone(byte_count(a), byte_count(b));
}

/// Simple token counting: a quarter of a token per byte of `text`.
pub fn count_tokens(text: &str) -> (tokens: usize)
    ensures
        tokens == token_estimate(text@),
{
    let bytes: usize = text.len();
    let ghost n: nat = bytes as nat;
    let mut q: u128 = bytes as u128;
    let mut p: u128 = 1;
    while q >= 0x100_0000
        invariant
            ({
                let (q0, p0) = f32_scale(q as nat);
                f32_scale(n) == (q0, (p0 * p) as nat)
            }),
            1 <= p,
            n == bytes,
            n <= usize::MAX,
            q * p <= n,
            p <= n + 1,
        decreases q,
    {
        proof {
            let (q1, p1) = f32_scale((q / 2) as nat);
            assert(f32_scale(q as nat) == (q1, (2 * p1) as nat));
            assert((2 * p1) * p == p1 * (2 * p)) by (nonlinear_arith);
            assert((q / 2) * (2 * p) <= q * p) by (nonlinear_arith);
            assert(2 * p <= q * p) by (nonlinear_arith)
                requires q >= 2, p >= 1;
        }
        q = q / 2;
        p = p * 2;
    }
    proof {
        lemma_f32_scale_bounds(n);
        let (q0, p0) = f32_scale(q as nat);
        assert(q0 == q && p0 == 1);
        assert((q + 1) * p == q * p + p) by (nonlinear_arith);
    }
    let rounded: u128 = if p == 1 {
        bytes as u128
    } else {
        let r: u128 = bytes as u128 - q * p;
        if r * 2 > p || (r * 2 == p && q % 2 == 1) {
            (q + 1) * p
        } else {
            q * p
        }
    };
    (rounded / 4) as usize
}

/// More accurate token counting; for now the same estimate as
/// [`count_tokens`].
pub fn count_tokens_accurate(text: &str) -> (tokens: usize)
    ensures
        tokens == token_estimate(text@),
{
    count_tokens(text)
}

} // verus!
