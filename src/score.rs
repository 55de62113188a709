//! Fixed-point similarity scores and the arithmetic facts they rely on.
use vstd::arithmetic::div_mod::{lemma_div_is_ordered, lemma_div_multiples_vanish};
use vstd::arithmetic::mul::lemma_mul_inequality;
use vstd::prelude::*;

verus! {

/// The score of two identical values; every score lies in `0..=SCORE_ONE`.
pub const SCORE_ONE: u64 = 1_000_000;

/// `part / whole` as a fixed-point score, rounded down.
pub open spec fn scaled(part: int, whole: int) -> int {
    part * SCORE_ONE / whole
}

/// A ratio of at most one scales to a score in `0..=SCORE_ONE`; the ends
/// of the range are hit exactly.
pub proof fn lemma_scaled_bounds(part: int, whole: int)
    requires
        0 <= part <= whole,
        0 < whole,
    ensures
        0 <= scaled(part, whole) <= SCORE_ONE,
        part == whole ==> scaled(part, whole) == SCORE_ONE,
        part == 0 ==> scaled(part, whole) == 0,
{
    let s = SCORE_ONE as int;
    lemma_mul_inequality(part, whole, s);
    lemma_mul_inequality(0, part, s);
    lemma_div_is_ordered(part * s, whole * s, whole);
    lemma_div_is_ordered(0, part * s, whole);
    lemma_div_multiples_vanish(s, whole);
    assert(whole * s == s * whole) by (nonlinear_arith);
}

} // verus!
