//! Scale mapping: the price maximum, row normalization, and the row-to-price
//! scale table.
//!
//! The per-row price delta is `max / height`; a price maps to the row offset
//! `round(price / delta)`, an integer between `0` and `height` (rounding can
//! reach `height` at the maximum itself). Row `i` of the scale table carries
//! the price `max - delta * i`, strictly decreasing in `i` whenever the delta
//! is positive.

use vstd::prelude::*;
use crate::errors::ChartError;
use crate::rat::{Rat, rat_le, rat_lt, price_rat, round_ratio, div_round_nonneg};
use crate::rat::{rat_lt_exec, lemma_price_cross_bounds, lemma_rat_le_trans, lemma_round_ratio_le};
use crate::series::ReducedRecord;

verus! {

/// Upper bound on a terminal dimension accepted by the pipeline.
pub const DIM_LIMIT: usize = 4_096;

/// A reduced column whose `open` has been replaced by its discrete row
/// offset from the bottom of the chart.
#[derive(Debug)]
pub struct NormalizedRecord {
    pub date: String,
    pub row: usize,
}

/// The `open` values of a reduced series.
pub open spec fn reduced_opens_of(s: Seq<ReducedRecord>) -> Seq<Rat> {
    s.map_values(|r: ReducedRecord| r.open)
}

/// Maximum of a sequence of rationals; zero when the sequence is empty.
pub open spec fn max_of(s: Seq<Rat>) -> Rat
    decreases s.len(),
{
    if s.len() == 0 {
        Rat { num: 0, den: 1 }
    } else if s.len() == 1 {
        s[0]
    } else if rat_lt(max_of(s.drop_last()), s.last()) {
        s.last()
    } else {
        max_of(s.drop_last())
    }
}

/// The maximum bounds every element; for a non-empty sequence it is one of
/// the elements, and for an empty one it is zero.
pub proof fn lemma_max_is_bound(s: Seq<Rat>)
    requires
        forall|i: int| 0 <= i < s.len() ==> (#[trigger] s[i]).wf(),
    ensures
        forall|i: int| 0 <= i < s.len() ==> rat_le(#[trigger] s[i], max_of(s)),
        s.len() > 0 ==> exists|i: int| 0 <= i < s.len() && max_of(s) == s[i],
        s.len() == 0 ==> max_of(s) == (Rat { num: 0, den: 1 }),
    decreases s.len(),
{
    if s.len() == 1 {
        assert(max_of(s) == s[0]);
    }
    if s.len() > 1 {
        lemma_max_is_bound(s.drop_last());
        let m = max_of(s.drop_last());
        assert(m.wf()) by {
            let i = choose|i: int| 0 <= i < s.drop_last().len() && m == s.drop_last()[i];
            assert(s.drop_last()[i] == s[i]);
        }
        assert forall|i: int| 0 <= i < s.len() implies rat_le(#[trigger] s[i], max_of(s)) by {
            if i < s.len() - 1 {
                assert(s.drop_last()[i] == s[i]);
                assert(rat_le(s[i], m));
                if rat_lt(m, s.last()) {
                    lemma_rat_le_trans(s[i], m, s.last());
                }
            }
        }
        if rat_lt(m, s.last()) {
            assert(max_of(s) == s[s.len() - 1]);
        } else {
            let i = choose|i: int| 0 <= i < s.drop_last().len() && m == s.drop_last()[i];
            assert(max_of(s) == s[i]);
        }
    }
}

/// Maximum `open` across a reduced series; zero if the series is empty.
pub fn calc_max_value(data: &Vec<ReducedRecord>) -> (m: Rat)
    requires
        forall|j: int| 0 <= j < data@.len() ==> price_rat(#[trigger] data@[j].open),
    ensures
        m == max_of(reduced_opens_of(data@)),
        price_rat(m),
{
    let ghost opens = reduced_opens_of(data@);
    if data.len() == 0 {
        let zero = Rat::from_int(0);
        return zero;
    }
    let mut m: Rat = data[0].open;
    let mut i: usize = 1;
    proof {
        assert(opens.take(1) =~= seq![opens[0]]);
        assert(max_of(opens.take(1)) == opens[0]);
    }
    while i < data.len()
        invariant
            1 <= i <= data@.len(),
            opens == reduced_opens_of(data@),
            forall|j: int| 0 <= j < data@.len() ==> price_rat(#[trigger] data@[j].open),
            forall|j: int| 0 <= j < data@.len() ==> opens[j] == data@[j].open,
            m == max_of(opens.take(i as int)),
            price_rat(m),
        decreases data@.len() - i,
    {
        let x: Rat = data[i].open;
        proof {
            lemma_price_cross_bounds(m, x);
            assert(opens.take(i + 1).drop_last() =~= opens.take(i as int));
            assert(opens.take(i + 1).last() == opens[i as int]);
        }
        if rat_lt_exec(&m, &x) {
            m = x;
        }
        i = i + 1;
    }
    proof {
        assert(opens.take(data@.len() as int) =~= opens);
    }
    m
}

/// The per-row price delta: `max / height`, as an exact rational.
pub open spec fn norm_of(max: Rat, height: int) -> Rat {
    Rat { num: max.num, den: (max.den * height) as i128 }
}

/// The discrete row offset of `open` under the delta `norm`:
/// `round(open / norm)`, halves rounded up.
pub open spec fn row_of(open: Rat, norm: Rat) -> int {
    round_ratio(open.num * norm.den, open.den * norm.num)
}

/// Bounds obeyed by the per-row delta handed on to the renderer.
pub open spec fn norm_rat(r: Rat) -> bool {
    &&& r.wf()
    &&& 0 < r.num <= 1_000_000_000_000_000_000
    &&& r.den <= 20_000_000_000
}

/// Replace each reduced `open` by its row offset `round(open / norm)` where
/// `norm = max / height`, and return the offsets together with `norm`.
/// Fails with `ChartError::Division` when `height` is zero or when `max` is
/// zero, since either makes the normalizing division meaningless.
pub fn normalize_and_round_height(data: &Vec<ReducedRecord>, max: Rat, height: usize) -> (r: Result<
    (Vec<NormalizedRecord>, Rat),
    ChartError,
>)
    requires
        forall|j: int| 0 <= j < data@.len() ==> price_rat(#[trigger] data@[j].open),
        forall|j: int| 0 <= j < data@.len() ==> rat_le(#[trigger] data@[j].open, max),
        price_rat(max),
        height <= DIM_LIMIT,
    ensures
        height == 0 || max.num == 0 ==> (r matches Err(e) && e == ChartError::Division),
        height > 0 && max.num > 0 ==> (r matches Ok(p) && {
            &&& p.1 == norm_of(max, height as int)
            &&& norm_rat(p.1)
            &&& p.0@.len() == data@.len()
            &&& forall|j: int| 0 <= j < data@.len() ==> {
                &&& (#[trigger] p.0@[j]).date@ == data@[j].date@
                &&& p.0@[j].row == row_of(data@[j].open, p.1)
                &&& p.0@[j].row <= height
            }
        }),
{
    if height == 0 {
        return Err(ChartError::Division);
    }
    if max.num == 0 {
        return Err(ChartError::Division);
    }
    proof {
        assert(0 < max.den * height <= 1_000_000 * (DIM_LIMIT as int)) by (nonlinear_arith)
            requires
                0 < max.den <= 1_000_000,
                0 < height <= DIM_LIMIT,
        ;
    }
    let norm = Rat { num: max.num, den: max.den * (height as i128) };
    let mut out: Vec<NormalizedRecord> = Vec::new();
    let mut j: usize = 0;
    while j < data.len()
        invariant
            forall|i: int| 0 <= i < data@.len() ==> price_rat(#[trigger] data@[i].open),
            forall|i: int| 0 <= i < data@.len() ==> rat_le(#[trigger] data@[i].open, max),
            price_rat(max),
            0 < height <= DIM_LIMIT,
            0 < max.num,
            norm == norm_of(max, height as int),
            norm.den == max.den * height,
            0 < norm.den <= 1_000_000 * (DIM_LIMIT as int),
            j <= data@.len(),
            out@.len() == j,
            forall|i: int| 0 <= i < j as int ==> {
                &&& (#[trigger] out@[i]).date@ == data@[i].date@
                &&& out@[i].row == row_of(data@[i].open, norm)
                &&& out@[i].row <= height
            },
        decreases data@.len() - j,
    {
        let open: Rat = data[j].open;
        proof {
            assert(0 <= open.num * norm.den
                <= 1_000_000_000_000_000_000 * (1_000_000 * (DIM_LIMIT as int)))
                by (nonlinear_arith)
                requires
                    0 <= open.num <= 1_000_000_000_000_000_000,
                    0 < norm.den <= 1_000_000 * (DIM_LIMIT as int),
            ;
            assert(0 < open.den * norm.num
                <= 1_000_000 * 1_000_000_000_000_000_000) by (nonlinear_arith)
                requires
                    0 < open.den <= 1_000_000,
                    0 < norm.num <= 1_000_000_000_000_000_000,
            ;
            // open <= max turns into: numerator <= height * denominator,
            // so the rounded row offset stays within the chart height.
            assert(open.num * norm.den <= height * (open.den * norm.num)) by (nonlinear_arith)
                requires
                    open.num * max.den <= max.num * open.den,
                    norm.den == max.den * height,
                    norm.num == max.num,
                    0 < height,
                    0 <= open.num,
                    0 < max.den,
                    0 < open.den,
            ;
            lemma_round_ratio_le(
                open.num * norm.den as int,
                open.den * norm.num as int,
                height as int,
            );
        }
        let p: i128 = open.num * norm.den;
        let q: i128 = open.den * norm.num;
        let row128: i128 = div_round_nonneg(p, q);
        let row: usize = row128 as usize;
        let rec = NormalizedRecord { date: data[j].date.clone(), row };
        out.push(rec);
        j = j + 1;
    }
    Ok((out, norm))
}

/// Row `i` of the scale table: the exact rational `max - norm * i`, kept
/// over the common denominator `max.den * norm.den`.
pub open spec fn scale_entry(max: Rat, norm: Rat, i: int) -> Rat {
    Rat {
        num: (max.num * norm.den - norm.num * i * max.den) as i128,
        den: (max.den * norm.den) as i128,
    }
}

/// Build the row-to-price lookup: row `i` carries `max - norm * i` for
/// `i` in `0..height`. Pure and deterministic.
pub fn build_scale_table(max: Rat, norm: Rat, height: usize) -> (t: Vec<Rat>)
    requires
        price_rat(max),
        norm.wf(),
        0 <= norm.num <= 1_000_000_000_000_000_000,
        norm.den <= 20_000_000_000,
        height <= DIM_LIMIT,
    ensures
        t@.len() == height,
        forall|i: int| 0 <= i < height ==> t@[i] == scale_entry(max, norm, i),
{
    proof {
        assert(0 < max.den * norm.den <= 1_000_000 * 20_000_000_000) by (nonlinear_arith)
            requires
                0 < max.den <= 1_000_000,
                0 < norm.den <= 20_000_000_000,
        ;
    }
    let den: i128 = max.den * norm.den;
    let mut t: Vec<Rat> = Vec::new();
    let mut i: usize = 0;
    while i < height
        invariant
            price_rat(max),
            norm.wf(),
            0 <= norm.num <= 1_000_000_000_000_000_000,
            norm.den <= 20_000_000_000,
            height <= DIM_LIMIT,
            den == max.den * norm.den,
            i <= height,
            t@.len() == i,
            forall|j: int| 0 <= j < i as int ==> t@[j] == scale_entry(max, norm, j),
        decreases height - i,
    {
        proof {
            assert(0 <= max.num * norm.den <= 1_000_000_000_000_000_000 * 20_000_000_000)
                by (nonlinear_arith)
                requires
                    0 <= max.num <= 1_000_000_000_000_000_000,
                    0 < norm.den <= 20_000_000_000,
            ;
            assert(0 <= norm.num * (i as int) <= 1_000_000_000_000_000_000 * (DIM_LIMIT as int)
                && 0 <= norm.num * (i as int) * max.den
                    <= 1_000_000_000_000_000_000 * (DIM_LIMIT as int) * 1_000_000)
                by (nonlinear_arith)
                requires
                    0 <= norm.num <= 1_000_000_000_000_000_000,
                    0 <= i <= DIM_LIMIT,
                    0 < max.den <= 1_000_000,
            ;
        }
        let num: i128 = max.num * norm.den - norm.num * (i as i128) * max.den;
        t.push(Rat { num, den });
        i = i + 1;
    }
    t
}

/// The scale table is strictly decreasing: whenever the per-row delta is
/// positive, row `i + 1` carries a strictly smaller price than row `i`.
pub proof fn lemma_scale_table_strictly_decreasing(max: Rat, norm: Rat, i: int)
    by (nonlinear_arith)
    requires
        max.wf(),
        norm.wf(),
        norm.num > 0,
        0 <= i,
        -(i128::MAX as int) <= max.num * norm.den - norm.num * (i + 1) * max.den,
        max.num * norm.den - norm.num * i * max.den <= i128::MAX as int,
        max.den * norm.den <= i128::MAX as int,
    ensures
        rat_lt(scale_entry(max, norm, i + 1), scale_entry(max, norm, i)),
{
}

} // verus!
