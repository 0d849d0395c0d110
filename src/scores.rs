//! Reduction of a model's output scores to the index of the best class.
//!
//! Scores are IEEE-754 single-precision values, carried as their bit patterns.
use vstd::prelude::*;
use vstd::arithmetic::power2::{lemma_pow2_adds, lemma_pow2_pos, lemma_pow2_strictly_increases, pow2};

verus! {

/// The sign bit of a single-precision bit pattern; the bits below it are the magnitude.
pub const SIGN_BIT: u32 = 0x8000_0000;

/// The sign bit of a single-precision bit pattern.
pub open spec fn sign_of(b: u32) -> nat {
    b as nat / 0x8000_0000
}

/// Exponent and fraction taken together: the magnitude bits.
pub open spec fn magnitude_of(b: u32) -> nat {
    b as nat % 0x8000_0000
}

pub open spec fn exponent_of(b: u32) -> nat {
    magnitude_of(b) / 0x80_0000
}

pub open spec fn fraction_of(b: u32) -> nat {
    magnitude_of(b) % 0x80_0000
}

/// A NaN: all exponent bits set and a nonzero fraction.
pub open spec fn is_nan(b: u32) -> bool {
    exponent_of(b) == 255 && fraction_of(b) != 0
}

/// The position of a non-NaN value on the number line. IEEE-754 lays out the
/// magnitudes so that a larger magnitude field is a larger absolute value
/// (infinity above every finite value), and the two zeros are equal; see
/// `lemma_rank_orders_values`.
pub open spec fn rank(b: u32) -> int {
    if sign_of(b) == 0 {
        magnitude_of(b) as int
    } else {
        -(magnitude_of(b) as int)
    }
}

pub open spec fn is_finite(b: u32) -> bool {
    exponent_of(b) != 255
}

/// The significand of a finite value: the fraction with the hidden leading
/// bit, which subnormals (exponent zero) lack.
pub open spec fn significand_of(b: u32) -> nat {
    if exponent_of(b) == 0 {
        fraction_of(b)
    } else {
        fraction_of(b) + 0x80_0000
    }
}

/// The absolute value of a finite value times 2^149, an integer since the
/// smallest subnormal is 2^-149: significand times 2^(e - 150), with the
/// exponent e of a subnormal counted as 1.
pub open spec fn scaled_magnitude(b: u32) -> nat {
    significand_of(b) * pow2(
        if exponent_of(b) == 0 {
            0
        } else {
            (exponent_of(b) - 1) as nat
        },
    )
}

/// The value of a finite bit pattern times 2^149.
pub open spec fn scaled_value(b: u32) -> int {
    if sign_of(b) == 0 {
        scaled_magnitude(b) as int
    } else {
        -(scaled_magnitude(b) as int)
    }
}

/// `a < b` as numbers, for non-NaN `a` and `b`.
pub open spec fn score_lt(a: u32, b: u32) -> bool {
    rank(a) < rank(b)
}

/// `i` is the first position of a largest score of `s`.
pub open spec fn is_first_max(s: Seq<u32>, i: int) -> bool {
    &&& 0 <= i < s.len()
    &&& forall|j: int| 0 <= j < s.len() ==> !score_lt(s[i], #[trigger] s[j])
    &&& forall|j: int| 0 <= j < i ==> score_lt(#[trigger] s[j], s[i])
}

pub open spec fn has_nan(s: Seq<u32>) -> bool {
    exists|j: int| 0 <= j < s.len() && is_nan(#[trigger] s[j])
}

/// Why a score vector has no best class.
#[derive(Debug, Clone, Copy, PartialEq, Eq, Structural)]
pub enum ReduceError {
    /// The model produced no scores.
    Empty,
    /// A score is not a number, so the scores have no order.
    NotANumber,
}

proof fn lemma_magnitude_grows(a: u32, b: u32)
    requires
        is_finite(a),
        is_finite(b),
        magnitude_of(a) < magnitude_of(b),
    ensures
        scaled_magnitude(a) < scaled_magnitude(b),
{
    let (ea, eb) = (exponent_of(a), exponent_of(b));
    let (fa, fb) = (fraction_of(a), fraction_of(b));
    let (ma, mb) = (magnitude_of(a), magnitude_of(b));
    assert(ma == ea * 0x80_0000 + fa);
    assert(mb == eb * 0x80_0000 + fb);
    assert(ea <= eb) by (nonlinear_arith)
        requires ma == ea * 0x80_0000 + fa, mb == eb * 0x80_0000 + fb, ma < mb, fa < 0x80_0000, fb < 0x80_0000;
    let pa = pow2(if ea == 0 { 0 } else { (ea - 1) as nat });
    let pb = pow2(if eb == 0 { 0 } else { (eb - 1) as nat });
    lemma_pow2_pos(if ea == 0 { 0 } else { (ea - 1) as nat });
    lemma_pow2_pos(if eb == 0 { 0 } else { (eb - 1) as nat });
    if ea == eb {
        assert(fa < fb);
        assert(significand_of(a) < significand_of(b));
        assert(significand_of(a) * pa < significand_of(b) * pa) by (nonlinear_arith)
            requires significand_of(a) < significand_of(b), pa > 0;
    } else {
        assert(eb >= 1);
        assert(significand_of(b) >= 0x80_0000);
        assert(0x80_0000 * pb <= significand_of(b) * pb) by (nonlinear_arith)
            requires significand_of(b) >= 0x80_0000, pb > 0;
        if ea == 0 {
            assert(pa == 1) by {
                vstd::arithmetic::power2::lemma2_to64();
            }
            assert(fa < 0x80_0000 * pb) by (nonlinear_arith)
                requires fa < 0x80_0000, pb >= 1;
        } else {
            let k = (ea - 1) as nat;
            lemma_pow2_adds(k, 1);
            assert(pow2(1) == 2) by {
                vstd::arithmetic::power2::lemma2_to64();
            }
            assert(pow2(ea) == pa * 2);
            if ea < (eb - 1) as nat {
                lemma_pow2_strictly_increases(ea, (eb - 1) as nat);
            }
            assert(pow2(ea) <= pb);
            assert(significand_of(a) * pa < 0x80_0000 * pb) by (nonlinear_arith)
                requires significand_of(a) < 0x100_0000, pa * 2 <= pb, pa > 0;
        }
    }
}

/// The order of `rank` is the order of the numbers that the bit patterns
/// stand for: between finite values it is the order of their exact values,
/// positive infinity lies above every finite value and negative infinity
/// below.
pub proof fn lemma_rank_orders_values(a: u32, b: u32)
    requires
        !is_nan(a),
        !is_nan(b),
    ensures
        is_finite(a) && is_finite(b) ==> (score_lt(a, b) <==> scaled_value(a) < scaled_value(b)),
        is_finite(a) && !is_finite(b) && sign_of(b) == 0 ==> score_lt(a, b),
        !is_finite(a) && sign_of(a) == 1 && is_finite(b) ==> score_lt(a, b),
{
    if is_finite(a) && is_finite(b) {
        assert(magnitude_of(a) == 0 <==> scaled_magnitude(a) == 0) by {
            lemma_zero_magnitude(0);
            if magnitude_of(a) > 0 {
                lemma_magnitude_grows(0, a);
            } else {
                lemma_zero_magnitude(a);
            }
        }
        assert(magnitude_of(b) == 0 <==> scaled_magnitude(b) == 0) by {
            lemma_zero_magnitude(0);
            if magnitude_of(b) > 0 {
                lemma_magnitude_grows(0, b);
            } else {
                lemma_zero_magnitude(b);
            }
        }
        if magnitude_of(a) < magnitude_of(b) {
            lemma_magnitude_grows(a, b);
        } else if magnitude_of(b) < magnitude_of(a) {
            lemma_magnitude_grows(b, a);
        } else {
            assert(exponent_of(a) == exponent_of(b) && fraction_of(a) == fraction_of(b));
        }
    }
    if !is_finite(b) {
        assert(magnitude_of(b) >= 255 * 0x80_0000);
    }
    if !is_finite(a) {
        assert(magnitude_of(a) >= 255 * 0x80_0000);
    }
}

proof fn lemma_zero_magnitude(b: u32)
    requires
        magnitude_of(b) == 0,
    ensures
        is_finite(b),
        scaled_magnitude(b) == 0,
{
    assert(exponent_of(b) == 0);
    assert(fraction_of(b) == 0);
    assert(significand_of(b) == 0);
    let p = pow2(0);
    assert(0 * p == 0);
}

/// An unsigned key that orders bit patterns as `rank` does.
pub fn order_key(b: u32) -> (r: u32)
    ensures
        r as int == rank(b) + 0x8000_0000,
{
    let magnitude: u32 = b % SIGN_BIT;
    if b / SIGN_BIT == 0 {
        SIGN_BIT + magnitude
    } else {
        SIGN_BIT - magnitude
    }
}

pub fn is_nan_bits(b: u32) -> (r: bool)
    ensures
        r == is_nan(b),
{
    (b % SIGN_BIT) / 0x80_0000 == 255 && (b % SIGN_BIT) % 0x80_0000 != 0
}

/// The index of the largest score; on ties the lowest such index.
pub fn select_best(scores: &Vec<u32>) -> (r: Result<usize, ReduceError>)
    ensures
        scores@.len() == 0 ==> r == Err::<usize, ReduceError>(ReduceError::Empty),
        scores@.len() > 0 && has_nan(scores@) ==> r == Err::<usize, ReduceError>(
            ReduceError::NotANumber,
        ),
        scores@.len() > 0 && !has_nan(scores@) ==> r is Ok && is_first_max(scores@, r->Ok_0 as int),
{
    if scores.len() == 0 {
        return Err(ReduceError::Empty);
    }
    let mut best: usize = 0;
    let mut best_key: u32 = order_key(scores[0]);
    let mut i: usize = 0;
    while i < scores.len()
        invariant
            0 <= best < scores@.len(),
            best <= i <= scores@.len(),
            best_key as int == rank(scores@[best as int]) + 0x8000_0000,
            forall|j: int| 0 <= j < i ==> !is_nan(#[trigger] scores@[j]),
            forall|j: int| 0 <= j < i ==> !score_lt(scores@[best as int], #[trigger] scores@[j]),
            forall|j: int| 0 <= j < best ==> score_lt(#[trigger] scores@[j], scores@[best as int]),
        decreases scores@.len() - i,
    {
        let s = scores[i];
        if is_nan_bits(s) {
            return Err(ReduceError::NotANumber);
        }
        let key = order_key(s);
        if key > best_key {
            best = i;
            best_key = key;
        }
        i = i + 1;
    }
    Ok(best)
}

} // verus!
