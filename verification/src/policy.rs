//! When a score counts as a detection.
//!
//! A score is a single-precision number, held as its bit pattern: one sign bit, eight
//! exponent bits and twenty-three fraction bits, from the highest bit down.

use vstd::arithmetic::power2::{
    lemma2_to64, lemma_pow2_adds, lemma_pow2_pos, lemma_pow2_strictly_increases, pow2,
};
use vstd::prelude::*;

verus! {

/// The encoding of one half: the score above which a window counts as a detection.
pub const THRESHOLD: u32 = 0x3F00_0000;

/// The encoding of zero: the score of a classifier that hands back no value.
pub const NO_SCORE: u32 = 0;

/// The encoding of positive infinity: the largest encoding that is a number.
pub const INFINITY: u32 = 0x7F80_0000;

/// Whether the sign bit of the encoding is set.
pub open spec fn is_negative(bits: u32) -> bool {
    bits >= 0x8000_0000
}

/// The eight exponent bits of the encoding.
pub open spec fn exponent(bits: u32) -> nat {
    ((bits / 0x80_0000) % 0x100) as nat
}

/// The twenty-three fraction bits of the encoding.
pub open spec fn fraction(bits: u32) -> nat {
    (bits % 0x80_0000) as nat
}

/// Whether the encoding is that of no number.
pub open spec fn is_nan(bits: u32) -> bool {
    exponent(bits) == 0xFF && fraction(bits) != 0
}

/// Whether the encoding is that of an infinity.
pub open spec fn is_infinite(bits: u32) -> bool {
    exponent(bits) == 0xFF && fraction(bits) == 0
}

/// The magnitude of the number that a finite encoding stands for, counted in units of
/// two to the power of -149 (the smallest positive single-precision number).
pub open spec fn magnitude(bits: u32) -> nat {
    if exponent(bits) == 0 {
        fraction(bits)
    } else {
        (0x80_0000 + fraction(bits)) * pow2((exponent(bits) - 1) as nat)
    }
}

/// One half, in the unit of `magnitude`.
pub open spec fn half() -> nat {
    pow2(148)
}

/// Whether the number that `bits` encodes is greater than one half. No number
/// compares greater than anything, and nothing negative reaches one half.
pub open spec fn exceeds_half(bits: u32) -> bool {
    &&& !is_negative(bits)
    &&& !is_nan(bits)
    &&& (is_infinite(bits) || magnitude(bits) > half())
}

/// The score that a classifier output stands for: its first value, and zero where it
/// has none.
pub open spec fn score_of(output: Seq<u32>) -> u32 {
    if output.len() > 0 {
        output[0]
    } else {
        NO_SCORE
    }
}

/// Whether one of `scores` exceeds the threshold.
pub open spec fn any_exceeds(scores: Seq<u32>) -> bool {
    exists|i: int| 0 <= i < scores.len() && exceeds_half(#[trigger] scores[i])
}

/// One of several scores exceeds the threshold exactly when one of the first `a` or
/// one of the others does.
pub proof fn lemma_any_exceeds_concat(a: Seq<u32>, b: Seq<u32>)
    ensures
        any_exceeds(a + b) == (any_exceeds(a) || any_exceeds(b)),
{
    let both = a + b;
    if any_exceeds(both) {
        let i = choose|i: int| 0 <= i < both.len() && exceeds_half(#[trigger] both[i]);
        if i < a.len() {
            assert(exceeds_half(a[i]));
        } else {
            assert(exceeds_half(b[i - a.len()]));
        }
    }
    if any_exceeds(a) {
        let i = choose|i: int| 0 <= i < a.len() && exceeds_half(#[trigger] a[i]);
        assert(exceeds_half(both[i]));
    }
    if any_exceeds(b) {
        let i = choose|i: int| 0 <= i < b.len() && exceeds_half(#[trigger] b[i]);
        assert(exceeds_half(both[a.len() + i]));
    }
}

/// Among the encodings without a sign bit, the greater number has the greater encoding:
/// a number exceeds one half exactly when its encoding lies above that of one half and
/// not above that of infinity.
pub proof fn lemma_order_of_encodings(bits: u32)
    ensures
        exceeds_half(bits) <==> THRESHOLD < bits <= INFINITY,
{
    let e = exponent(bits);
    let f = fraction(bits);
    lemma2_to64();
    lemma_pow2_strictly_increases(64, 148);
    if !is_negative(bits) && 0 < e < 0xFF {
        let p = pow2((e - 1) as nat);
        lemma_pow2_pos((e - 1) as nat);
        if e <= 125 {
            // Less than two to the power of 24 + 124.
            if e < 125 {
                lemma_pow2_strictly_increases((e - 1) as nat, 124);
            }
            lemma_pow2_adds(24, 124);
            assert((0x80_0000 + f) * p < 0x100_0000 * pow2(124)) by (nonlinear_arith)
                requires
                    f < 0x80_0000,
                    0 < p <= pow2(124),
            ;
        } else if e == 126 {
            // One half is two to the power of 23 + 125: the fraction decides.
            lemma_pow2_adds(23, 125);
            assert((0x80_0000 + f) * p > 0x80_0000 * p <==> f > 0) by (nonlinear_arith)
                requires
                    0 < p,
            ;
        } else {
            // At least two to the power of 23 + 126.
            if e > 127 {
                lemma_pow2_strictly_increases(126, (e - 1) as nat);
            }
            lemma_pow2_adds(23, 126);
            lemma_pow2_strictly_increases(148, 149);
            assert((0x80_0000 + f) * p >= 0x80_0000 * pow2(126)) by (nonlinear_arith)
                requires
                    p >= pow2(126),
            ;
        }
    }
}

/// Whether `score` exceeds the threshold of one half.
pub fn exceeds_threshold(score: u32) -> (hit: bool)
    ensures
        hit == exceeds_half(score),
{
    proof {
        lemma_order_of_encodings(score);
    }
    THRESHOLD < score && score <= INFINITY
}

/// The score in a classifier output.
pub fn first_score(output: &[u32]) -> (score: u32)
    ensures
        score == score_of(output@),
{
    if output.len() > 0 {
        output[0]
    } else {
        NO_SCORE
    }
}

} // verus!
