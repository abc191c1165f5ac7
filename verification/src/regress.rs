//! Closed-form ordinary least squares over integer points.
//!
//! For points `(x_i, y_i)` the fitted line is `a * x + b` with
//! `a = (n * sum(xy) - sum(x) * sum(y)) / d` and
//! `b = (sum(y) * sum(x2) - sum(x) * sum(xy)) / d`
//! where `d = n * sum(x2) - sum(x)^2`. Both coefficients are exact
//! rationals. A zero `d` (all `x` identical, or fewer than two points)
//! is an explicit `ChartError::DegenerateInput`, never a silent
//! division by zero.

use vstd::prelude::*;
use crate::errors::ChartError;
use crate::rat::{Rat, rat_eqv};

verus! {

/// Largest coordinate magnitude and point count the engine accepts; keeps
/// every intermediate product of the closed form far inside `i128`.
pub const REG_LIMIT: i64 = 1_048_576;

/// A regression input point: a column index and a row offset.
#[derive(Clone, Copy, PartialEq, Eq, Structural, Debug)]
pub struct Point(pub i64, pub i64);

impl Point {
    pub fn new(x: i64, y: i64) -> (p: Point)
        ensures
            p == Point(x, y),
    {
        Point(x, y)
    }
}

/// Sum of the x coordinates.
pub open spec fn sum_x(s: Seq<Point>) -> int
    decreases s.len(),
{
    if s.len() == 0 { 0 } else { sum_x(s.drop_last()) + s.last().0 }
}

/// Sum of the y coordinates.
pub open spec fn sum_y(s: Seq<Point>) -> int
    decreases s.len(),
{
    if s.len() == 0 { 0 } else { sum_y(s.drop_last()) + s.last().1 }
}

/// Sum of the products `x * y`.
pub open spec fn sum_xy(s: Seq<Point>) -> int
    decreases s.len(),
{
    if s.len() == 0 { 0 } else { sum_xy(s.drop_last()) + s.last().0 * s.last().1 }
}

/// Sum of the squares `x * x`.
pub open spec fn sum_x2(s: Seq<Point>) -> int
    decreases s.len(),
{
    if s.len() == 0 { 0 } else { sum_x2(s.drop_last()) + s.last().0 * s.last().0 }
}

/// The common denominator of the closed form: `n * sum(x2) - sum(x)^2`.
pub open spec fn det(s: Seq<Point>) -> int {
    s.len() * sum_x2(s) - sum_x(s) * sum_x(s)
}

/// Numerator of the slope: `n * sum(xy) - sum(x) * sum(y)`.
pub open spec fn slope_num(s: Seq<Point>) -> int {
    s.len() * sum_xy(s) - sum_x(s) * sum_y(s)
}

/// Numerator of the intercept: `sum(y) * sum(x2) - sum(x) * sum(xy)`.
pub open spec fn intercept_num(s: Seq<Point>) -> int {
    sum_y(s) * sum_x2(s) - sum_x(s) * sum_xy(s)
}

/// The fitted slope, as a rational with positive denominator.
pub open spec fn fit_a(s: Seq<Point>) -> Rat {
    if det(s) > 0 {
        Rat { num: slope_num(s) as i128, den: det(s) as i128 }
    } else {
        Rat { num: (-slope_num(s)) as i128, den: (-det(s)) as i128 }
    }
}

/// The fitted intercept, as a rational with positive denominator.
pub open spec fn fit_b(s: Seq<Point>) -> Rat {
    if det(s) > 0 {
        Rat { num: intercept_num(s) as i128, den: det(s) as i128 }
    } else {
        Rat { num: (-intercept_num(s)) as i128, den: (-det(s)) as i128 }
    }
}

/// All points within the coordinate limit.
pub open spec fn points_bounded(s: Seq<Point>) -> bool {
    forall|i: int| 0 <= i < s.len() ==> {
        &&& -REG_LIMIT <= (#[trigger] s[i]).0 <= REG_LIMIT
        &&& -REG_LIMIT <= s[i].1 <= REG_LIMIT
    }
}

/// Holder of the fitted line `a * x + b`.
#[derive(Clone, Copy, PartialEq, Eq, Structural, Debug)]
pub struct LinearRegressionCalculator {
    pub a: Rat,
    pub b: Rat,
}

/// Bounds on the four running sums after `i` points within `REG_LIMIT`.
spec fn sums_bounded(s: Seq<Point>, i: int, xs: int, ys: int, xy: int, x2: int) -> bool {
    &&& xs == sum_x(s.take(i)) && -(i * REG_LIMIT) <= xs <= i * REG_LIMIT
    &&& ys == sum_y(s.take(i)) && -(i * REG_LIMIT) <= ys <= i * REG_LIMIT
    &&& xy == sum_xy(s.take(i)) && -(i * (REG_LIMIT as int * REG_LIMIT)) <= xy <= i * (REG_LIMIT as int * REG_LIMIT)
    &&& x2 == sum_x2(s.take(i)) && 0 <= x2 <= i * (REG_LIMIT as int * REG_LIMIT)
}

impl LinearRegressionCalculator {
    /// The empty fit: slope and intercept both zero.
    pub fn default() -> (r: Self)
        ensures
            r.a == (Rat { num: 0, den: 1 }),
            r.b == (Rat { num: 0, den: 1 }),
    {
        LinearRegressionCalculator { a: Rat::from_int(0), b: Rat::from_int(0) }
    }

    /// Fit the least-squares line through `data`, storing the exact slope in
    /// `a` and intercept in `b`. Fails with `ChartError::DegenerateInput`,
    /// leaving the coefficients untouched, exactly when the denominator of
    /// the closed form is zero — that is, when the x coordinates carry no
    /// variance (fewer than two points, or all x identical).
    pub fn calculate(&mut self, data: Vec<Point>) -> (r: Result<(), ChartError>)
        requires
            data@.len() <= REG_LIMIT,
            points_bounded(data@),
        ensures
            det(data@) == 0 ==> (r matches Err(e) && e == ChartError::DegenerateInput
                && *final(self) == *old(self)),
            det(data@) != 0 ==> (r matches Ok(u)
                && final(self).a == fit_a(data@)
                && final(self).b == fit_b(data@)
                && final(self).a.wf()
                && final(self).b.wf()),
    {
        let n: i128 = data.len() as i128;
        let mut xs: i128 = 0;
        let mut ys: i128 = 0;
        let mut xy: i128 = 0;
        let mut x2: i128 = 0;
        let mut i: usize = 0;
        let ghost l: int = REG_LIMIT as int;
        while i < data.len()
            invariant
                data@.len() <= REG_LIMIT,
                points_bounded(data@),
                l == REG_LIMIT as int,
                i <= data@.len(),
                sums_bounded(data@, i as int, xs as int, ys as int, xy as int, x2 as int),
            decreases data@.len() - i,
        {
            let p: Point = data[i];
            proof {
                assert(data@.take(i + 1).drop_last() =~= data@.take(i as int));
                assert(data@.take(i + 1).last() == data@[i as int]);
                assert(-(l * l) <= p.0 * p.1 <= l * l && 0 <= p.0 * p.0 <= l * l)
                    by (nonlinear_arith)
                    requires
                        -l <= p.0 <= l,
                        -l <= p.1 <= l,
                        l == REG_LIMIT as int,
                ;
                assert((i + 1) * l == i * l + l && (i + 1) * (l * l) == i * (l * l) + l * l)
                    by (nonlinear_arith);
            }
            xs = xs + p.0 as i128;
            ys = ys + p.1 as i128;
            xy = xy + (p.0 as i128) * (p.1 as i128);
            x2 = x2 + (p.0 as i128) * (p.0 as i128);
            i = i + 1;
        }
        proof {
            assert(data@.take(data@.len() as int) =~= data@);
            // Magnitudes of the closed-form products, from the sum bounds.
            assert({
                &&& -(l * (l * (l * l))) <= n * xy <= l * (l * (l * l))
                &&& -(l * (l * (l * l))) <= n * x2 <= l * (l * (l * l))
                &&& -(l * (l * (l * l))) <= xs * xs <= l * (l * (l * l))
                &&& -(l * (l * (l * l))) <= xs * ys <= l * (l * (l * l))
                &&& -(l * (l * (l * (l * l)))) <= ys * x2 <= l * (l * (l * (l * l)))
                &&& -(l * (l * (l * (l * l)))) <= xs * xy <= l * (l * (l * (l * l)))
            }) by (nonlinear_arith)
                requires
                    0 <= n <= l,
                    -(l * l) <= xs <= l * l,
                    -(l * l) <= ys <= l * l,
                    -(l * (l * l)) <= xy <= l * (l * l),
                    0 <= x2 <= l * (l * l),
                    l == REG_LIMIT as int,
            ;
        }
        let d: i128 = n * x2 - xs * xs;
        if d == 0 {
            return Err(ChartError::DegenerateInput);
        }
        let na: i128 = n * xy - xs * ys;
        let nb: i128 = ys * x2 - xs * xy;
        if d > 0 {
            self.a = Rat { num: na, den: d };
            self.b = Rat { num: nb, den: d };
        } else {
            self.a = Rat { num: -na, den: -d };
            self.b = Rat { num: -nb, den: -d };
        }
        Ok(())
    }

    /// The fitted coefficients, slope first.
    pub fn describe(self) -> (r: (Rat, Rat))
        ensures
            r == (self.a, self.b),
    {
        (self.a, self.b)
    }
}

/// When every x coordinate is the same constant, the closed form's
/// denominator vanishes, so the fit is degenerate.
pub proof fn lemma_identical_x_degenerate(s: Seq<Point>, c: int)
    requires
        forall|i: int| 0 <= i < s.len() ==> (#[trigger] s[i]).0 == c,
    ensures
        det(s) == 0,
{
    lemma_const_x_sums(s, c);
    assert(s.len() * (s.len() * (c * c)) - (s.len() * c) * (s.len() * c) == 0)
        by (nonlinear_arith);
}

proof fn lemma_const_x_sums(s: Seq<Point>, c: int)
    requires
        forall|i: int| 0 <= i < s.len() ==> (#[trigger] s[i]).0 == c,
    ensures
        sum_x(s) == s.len() * c,
        sum_x2(s) == s.len() * (c * c),
    decreases s.len(),
{
    if s.len() == 0 {
        let n: int = s.len() as int;
        assert(n * c == 0 && n * (c * c) == 0) by (nonlinear_arith)
            requires
                n == 0,
        ;
    } else {
        let t = s.drop_last();
        assert(forall|i: int| 0 <= i < t.len() ==> (#[trigger] t[i]).0 == c);
        lemma_const_x_sums(t, c);
        assert(s.last().0 == c);
        assert(t.len() * c + c == s.len() * c
            && t.len() * (c * c) + c * c == s.len() * (c * c)) by (nonlinear_arith)
            requires
                t.len() + 1 == s.len(),
        ;
    }
}

/// Magnitude bounds on the sums over points bounded by `m`, by induction.
proof fn lemma_sum_bounds(s: Seq<Point>, m: int)
    requires
        0 <= m,
        forall|i: int| 0 <= i < s.len() ==> {
            &&& -m <= (#[trigger] s[i]).0 <= m
            &&& -m <= s[i].1 <= m
        },
    ensures
        -(s.len() * m) <= sum_x(s) <= s.len() * m,
        -(s.len() * m) <= sum_y(s) <= s.len() * m,
        -(s.len() * (m * m)) <= sum_xy(s) <= s.len() * (m * m),
        0 <= sum_x2(s) <= s.len() * (m * m),
    decreases s.len(),
{
    let l: int = m;
    if s.len() > 0 {
        let t = s.drop_last();
        assert(forall|i: int| 0 <= i < t.len() ==> t[i] == s[i]);
        lemma_sum_bounds(t, m);
        let p = s.last();
        assert(-(l * l) <= p.0 * p.1 <= l * l && 0 <= p.0 * p.0 <= l * l)
            by (nonlinear_arith)
            requires
                -l <= p.0 <= l,
                -l <= p.1 <= l,
        ;
        assert(s.len() * l == t.len() * l + l
            && s.len() * (l * l) == t.len() * (l * l) + l * l) by (nonlinear_arith)
            requires
                s.len() == t.len() + 1,
        ;
    }
}

/// Magnitude bounds on the closed form over points whose coordinates and
/// count stay within `m`: the denominator and slope numerator within
/// `2 * m^4`, the intercept numerator within `2 * m^5`.
pub proof fn lemma_fit_magnitudes(s: Seq<Point>, m: int)
    requires
        1 <= m,
        s.len() <= m,
        forall|i: int| 0 <= i < s.len() ==> {
            &&& -m <= (#[trigger] s[i]).0 <= m
            &&& -m <= s[i].1 <= m
        },
    ensures
        -(2 * (m * (m * (m * m)))) <= det(s) <= 2 * (m * (m * (m * m))),
        -(2 * (m * (m * (m * m)))) <= slope_num(s) <= 2 * (m * (m * (m * m))),
        -(2 * (m * (m * (m * (m * m))))) <= intercept_num(s)
            <= 2 * (m * (m * (m * (m * m)))),
{
    lemma_sum_bounds(s, m);
    let n: int = s.len() as int;
    let sx = sum_x(s);
    let sy = sum_y(s);
    let sxy = sum_xy(s);
    let sx2 = sum_x2(s);
    assert({
        &&& -(m * m) <= sx <= m * m
        &&& -(m * m) <= sy <= m * m
        &&& -(m * (m * m)) <= sxy <= m * (m * m)
        &&& 0 <= sx2 <= m * (m * m)
    }) by (nonlinear_arith)
        requires
            0 <= n <= m,
            1 <= m,
            -(n * m) <= sx <= n * m,
            -(n * m) <= sy <= n * m,
            -(n * (m * m)) <= sxy <= n * (m * m),
            0 <= sx2 <= n * (m * m),
    ;
    assert({
        &&& -(m * (m * (m * m))) <= n * sx2 <= m * (m * (m * m))
        &&& -(m * (m * (m * m))) <= n * sxy <= m * (m * (m * m))
        &&& -(m * (m * (m * m))) <= sx * sx <= m * (m * (m * m))
        &&& -(m * (m * (m * m))) <= sx * sy <= m * (m * (m * m))
        &&& -(m * (m * (m * (m * m)))) <= sy * sx2 <= m * (m * (m * (m * m)))
        &&& -(m * (m * (m * (m * m)))) <= sx * sxy <= m * (m * (m * (m * m)))
    }) by (nonlinear_arith)
        requires
            0 <= n <= m,
            1 <= m,
            -(m * m) <= sx <= m * m,
            -(m * m) <= sy <= m * m,
            -(m * (m * m)) <= sxy <= m * (m * m),
            0 <= sx2 <= m * (m * m),
    ;
}

/// Fitting points that lie exactly on the line `y = slope * x + intercept`
/// recovers that slope and intercept exactly, whenever the fit is not
/// degenerate.
pub proof fn lemma_fit_recovers_line(s: Seq<Point>, slope: i128, intercept: i128)
    requires
        points_bounded(s),
        s.len() <= REG_LIMIT,
        -REG_LIMIT <= slope <= REG_LIMIT,
        -REG_LIMIT <= intercept <= REG_LIMIT,
        forall|i: int| 0 <= i < s.len() ==> (#[trigger] s[i]).1 == slope * s[i].0 + intercept,
        det(s) != 0,
    ensures
        rat_eqv(fit_a(s), Rat { num: slope, den: 1 }),
        rat_eqv(fit_b(s), Rat { num: intercept, den: 1 }),
{
    lemma_sum_bounds(s, REG_LIMIT as int);
    lemma_line_sums(s, slope as int, intercept as int);
    let n: int = s.len() as int;
    let sx = sum_x(s);
    let sy = sum_y(s);
    let sxy = sum_xy(s);
    let sx2 = sum_x2(s);
    assert(slope_num(s) == slope * det(s)) by (nonlinear_arith)
        requires
            sy == slope * sx + intercept * n,
            sxy == slope * sx2 + intercept * sx,
            slope_num(s) == n * sxy - sx * sy,
            det(s) == n * sx2 - sx * sx,
    ;
    assert(intercept_num(s) == intercept * det(s)) by (nonlinear_arith)
        requires
            sy == slope * sx + intercept * n,
            sxy == slope * sx2 + intercept * sx,
            intercept_num(s) == sy * sx2 - sx * sxy,
            det(s) == n * sx2 - sx * sx,
    ;
    // The casts in fit_a and fit_b do not truncate: every quantity is far
    // inside the i128 range. With the limit a literal (2^20), the sum bounds
    // scale linearly; only one product at a time needs nonlinear reasoning.
    assert(-0x10000000000 <= sx <= 0x10000000000);
    assert(-0x10000000000 <= sy <= 0x10000000000);
    assert(-0x1000000000000000 <= sxy <= 0x1000000000000000 && 0 <= sx2 <= 0x1000000000000000)
        by (nonlinear_arith)
        requires
            0 <= n <= 0x100000,
            -(n * (REG_LIMIT as int * REG_LIMIT)) <= sxy <= n * (REG_LIMIT as int * REG_LIMIT),
            0 <= sx2 <= n * (REG_LIMIT as int * REG_LIMIT),
            REG_LIMIT == 1_048_576i64,
    ;
    assert(-0x100000000000000000000 <= n * sxy <= 0x100000000000000000000)
        by (nonlinear_arith)
        requires
            0 <= n <= 0x100000,
            -0x1000000000000000 <= sxy <= 0x1000000000000000,
    ;
    assert(-0x100000000000000000000 <= n * sx2 <= 0x100000000000000000000)
        by (nonlinear_arith)
        requires
            0 <= n <= 0x100000,
            0 <= sx2 <= 0x1000000000000000,
    ;
    assert(-0x100000000000000000000 <= sx * sy <= 0x100000000000000000000)
        by (nonlinear_arith)
        requires
            -0x10000000000 <= sx <= 0x10000000000,
            -0x10000000000 <= sy <= 0x10000000000,
    ;
    assert(-0x100000000000000000000 <= sx * sx <= 0x100000000000000000000)
        by (nonlinear_arith)
        requires
            -0x10000000000 <= sx <= 0x10000000000,
    ;
    assert(-0x10000000000000000000000000 <= sy * sx2 <= 0x10000000000000000000000000)
        by (nonlinear_arith)
        requires
            -0x10000000000 <= sy <= 0x10000000000,
            0 <= sx2 <= 0x1000000000000000,
    ;
    assert(-0x10000000000000000000000000 <= sx * sxy <= 0x10000000000000000000000000)
        by (nonlinear_arith)
        requires
            -0x10000000000 <= sx <= 0x10000000000,
            -0x1000000000000000 <= sxy <= 0x1000000000000000,
    ;
    if det(s) > 0 {
        assert(slope_num(s) * 1 == slope * det(s) && intercept_num(s) * 1 == intercept * det(s))
            by (nonlinear_arith)
            requires
                slope_num(s) == slope * det(s),
                intercept_num(s) == intercept * det(s),
        ;
    } else {
        assert((-slope_num(s)) * 1 == slope * (-det(s))
            && (-intercept_num(s)) * 1 == intercept * (-det(s))) by (nonlinear_arith)
            requires
                slope_num(s) == slope * det(s),
                intercept_num(s) == intercept * det(s),
        ;
    }
}

proof fn lemma_line_sums(s: Seq<Point>, slope: int, intercept: int)
    requires
        forall|i: int| 0 <= i < s.len() ==> (#[trigger] s[i]).1 == slope * s[i].0 + intercept,
    ensures
        sum_y(s) == slope * sum_x(s) + intercept * s.len(),
        sum_xy(s) == slope * sum_x2(s) + intercept * sum_x(s),
    decreases s.len(),
{
    if s.len() == 0 {
        let n: int = s.len() as int;
        assert(slope * 0 == 0 && intercept * n == 0) by (nonlinear_arith)
            requires
                n == 0,
        ;
    } else {
        let t = s.drop_last();
        assert(forall|i: int| 0 <= i < t.len()
            ==> (#[trigger] t[i]).1 == slope * t[i].0 + intercept);
        lemma_line_sums(t, slope, intercept);
        let p = s.last();
        assert(sum_y(s) == slope * sum_x(s) + intercept * s.len()
            && sum_xy(s) == slope * sum_x2(s) + intercept * sum_x(s)) by (nonlinear_arith)
            requires
                p.1 == slope * p.0 + intercept,
                sum_y(t) == slope * sum_x(t) + intercept * t.len(),
                sum_xy(t) == slope * sum_x2(t) + intercept * sum_x(t),
                sum_y(s) == sum_y(t) + p.1,
                sum_x(s) == sum_x(t) + p.0,
                sum_xy(s) == sum_xy(t) + p.0 * p.1,
                sum_x2(s) == sum_x2(t) + p.0 * p.0,
                s.len() == t.len() + 1,
        ;
    }
}

} // verus!
