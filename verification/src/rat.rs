//! Exact rational numbers with a positive denominator.
//!
//! Every price that flows through the chart pipeline is an exact rational:
//! bucket means, the per-row price delta, the scale-table entries and the
//! regression coefficients. Comparisons are stated by cross-multiplication
//! over mathematical integers, so no rounding ever hides in a contract.

use vstd::prelude::*;

verus! {

/// A rational number `num / den`. Well-formed values have `den > 0`.
///
/// Structural equality (`==`) compares the two fields; equality of the
/// represented rationals is `rat_eqv`, which identifies e.g. `1/2` and `2/4`.
#[derive(Clone, Copy, PartialEq, Eq, Structural, Debug)]
pub struct Rat {
    pub num: i128,
    pub den: i128,
}

impl Rat {
    /// Denominator is positive, so the sign of the value is the sign of `num`.
    pub open spec fn wf(self) -> bool {
        self.den > 0
    }

    /// The rational is at least zero.
    pub open spec fn is_nonneg(self) -> bool {
        self.num >= 0
    }

    /// The whole number `n`, as a rational.
    pub fn from_int(n: i128) -> (r: Rat)
        ensures
            r == (Rat { num: n, den: 1 }),
    {
        Rat { num: n, den: 1 }
    }
}

/// `a <= b` as rationals, by cross-multiplication (both well-formed).
pub open spec fn rat_le(a: Rat, b: Rat) -> bool
    recommends
        a.wf(),
        b.wf(),
{
    a.num * b.den <= b.num * a.den
}

/// `a < b` as rationals, by cross-multiplication (both well-formed).
pub open spec fn rat_lt(a: Rat, b: Rat) -> bool
    recommends
        a.wf(),
        b.wf(),
{
    a.num * b.den < b.num * a.den
}

/// `a` and `b` represent the same rational number.
pub open spec fn rat_eqv(a: Rat, b: Rat) -> bool
    recommends
        a.wf(),
        b.wf(),
{
    a.num * b.den == b.num * a.den
}

/// Runtime strict rational comparison. The bounds in `requires` keep the
/// two cross-products inside `i128`; every caller in this crate works with
/// numerators and denominators far below them.
pub fn rat_lt_exec(a: &Rat, b: &Rat) -> (r: bool)
    requires
        a.wf(),
        b.wf(),
        -(i128::MAX as int) <= a.num * b.den <= i128::MAX as int,
        -(i128::MAX as int) <= b.num * a.den <= i128::MAX as int,
    ensures
        r == rat_lt(*a, *b),
{
    a.num * b.den < b.num * a.den
}

/// The bounds every price rational of the pipeline obeys: non-negative, the
/// numerator at most the largest window sum the reducer can emit and the
/// denominator at most the largest bucket size.
pub open spec fn price_rat(r: Rat) -> bool {
    &&& r.wf()
    &&& 0 <= r.num <= 1_000_000_000_000_000_000
    &&& r.den <= 1_000_000
}

/// Cross-products of two price rationals stay far inside `i128`.
pub proof fn lemma_price_cross_bounds(a: Rat, b: Rat)
    by (nonlinear_arith)
    requires
        price_rat(a),
        price_rat(b),
    ensures
        0 <= a.num * b.den <= 1_000_000_000_000_000_000 * 1_000_000,
        0 <= b.num * a.den <= 1_000_000_000_000_000_000 * 1_000_000,
{
}

/// Rational order is transitive (denominators positive).
pub proof fn lemma_rat_le_trans(a: Rat, b: Rat, c: Rat)
    by (nonlinear_arith)
    requires
        a.wf(),
        b.wf(),
        c.wf(),
        rat_le(a, b),
        rat_le(b, c),
    ensures
        rat_le(a, c),
{
}

/// `p / q` rounded to the nearest integer, halves rounded up, for `q > 0`
/// and `p >= 0`. On this domain "up" coincides with "away from zero", the
/// rounding the pipeline specifies for row offsets and labels.
pub open spec fn round_ratio(p: int, q: int) -> int
    recommends
        q > 0,
        p >= 0,
{
    (2 * p + q) / (2 * q)
}

/// Runtime rounding of the non-negative ratio `p / q` to the nearest integer.
pub fn div_round_nonneg(p: i128, q: i128) -> (r: i128)
    requires
        0 <= p,
        0 < q,
        2 * p + q <= i128::MAX as int,
    ensures
        r == round_ratio(p as int, q as int),
        0 <= r <= p,
{
    let pp: u128 = p as u128;
    let qq: u128 = q as u128;
    let quot: u128 = (2 * pp + qq) / (2 * qq);
    proof {
        assert((2 * pp + qq) as int == 2 * p + q);
        vstd::arithmetic::div_mod::lemma_div_pos_is_pos(2 * p + q, 2 * q);
        if p == 0 {
            vstd::arithmetic::div_mod::lemma_basic_div(2 * p + q, 2 * q);
        } else {
            // quot <= p: 2p + q < 2q * (p + 1) because q >= 1 gives p <= p * q.
            assert(2 * p + q < (2 * q) * (p + 1)) by (nonlinear_arith)
                requires
                    0 < p,
                    0 < q,
            ;
            vstd::arithmetic::div_mod::lemma_multiply_divide_lt(2 * p + q, 2 * q, p + 1);
        }
        assert(quot == round_ratio(p as int, q as int));
    }
    quot as i128
}

/// Rounding a ratio that is at most `h` (that is, `p <= h * q`) yields at
/// most `h`: the rounded value can exceed the true ratio by at most a half.
pub proof fn lemma_round_ratio_le(p: int, q: int, h: int)
    requires
        0 <= p,
        0 < q,
        0 <= h,
        p <= h * q,
    ensures
        0 <= round_ratio(p, q) <= h,
{
    assert(2 * p + q < (2 * q) * (h + 1)) by (nonlinear_arith)
        requires
            0 < q,
            p <= h * q,
    ;
    vstd::arithmetic::div_mod::lemma_multiply_divide_lt(2 * p + q, 2 * q, h + 1);
    vstd::arithmetic::div_mod::lemma_div_pos_is_pos(2 * p + q, 2 * q);
}

} // verus!
