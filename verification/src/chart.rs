//! Compositing the chart: price labels, the trend-line marker row, and the
//! final character grid.
//!
//! A rendered chart is one byte row per terminal row, top to bottom. Each
//! row starts with the row's price printed with two decimals, left-aligned
//! to at least five bytes, then a `|` separator, then one cell per reduced
//! column: `+` where the trend line passes, `#` where the column's bar
//! reaches the row, and a blank otherwise. The marker row of a trend value
//! is found by inverting the linear scale directly — the scale table is
//! strictly decreasing, so the inversion names the same row as a nearest-
//! price scan, with ties resolved toward the smaller row index.

use vstd::prelude::*;
use crate::errors::ChartError;
use crate::rat::{Rat, price_rat, rat_le, round_ratio, div_round_nonneg};
use crate::regress::{Point, LinearRegressionCalculator, det, fit_a, fit_b};
use crate::regress::lemma_fit_magnitudes;
use crate::scale::{NormalizedRecord, DIM_LIMIT, max_of, norm_of, row_of, scale_entry};
use crate::scale::{reduced_opens_of, lemma_max_is_bound};
use crate::scale::{calc_max_value, normalize_and_round_height, build_scale_table};
use crate::series::{Record, ReducedRecord, opens_of, reduce_opens, avg_by_step};
use crate::series::{PRICE_LIMIT, LEN_LIMIT};

verus! {

/// The decimal digits of `n`, most significant first, as ASCII bytes.
pub open spec fn dec_digits(n: nat) -> Seq<u8>
    decreases n,
{
    if n < 10 {
        seq![(48 + n) as u8]
    } else {
        dec_digits(n / 10).push((48 + n % 10) as u8)
    }
}

/// Render `n` in decimal ASCII.
fn fmt_u128(n: u128) -> (v: Vec<u8>)
    ensures
        v@ == dec_digits(n as nat),
    decreases n,
{
    if n < 10 {
        let mut v: Vec<u8> = Vec::new();
        v.push(48 + n as u8);
        v
    } else {
        let mut v = fmt_u128(n / 10);
        v.push(48 + (n % 10) as u8);
        v
    }
}

/// ASCII byte of the decimal digit `d`.
pub open spec fn digit_byte(d: int) -> u8 {
    (48 + d) as u8
}

/// A price of `h` hundredths, written with two decimals and left-padded on
/// the right with blanks to at least five bytes.
pub open spec fn label_bytes(h: int) -> Seq<u8>
    recommends
        h >= 0,
{
    let base = dec_digits((h / 100) as nat) + seq![
        46u8,
        digit_byte(h % 100 / 10),
        digit_byte(h % 10),
    ];
    if base.len() >= 5 {
        base
    } else {
        base.push(32u8)
    }
}

/// The label of the price `v`: `v` rounded to hundredths, then written
/// with two decimals.
pub open spec fn label_of(v: Rat) -> Seq<u8> {
    label_bytes(round_ratio(v.num * 100, v.den as int))
}

/// Format the non-negative price `v` with two decimals.
pub fn make_label(v: &Rat) -> (out: Vec<u8>)
    requires
        v.wf(),
        0 <= v.num <= 0x1000000000000000000000000,
        v.den <= 0x10000000000000,
    ensures
        out@ == label_of(*v),
{
    let p: i128 = v.num * 100;
    let h: i128 = div_round_nonneg(p, v.den);
    let hu: u128 = h as u128;
    let whole: u128 = hu / 100;
    let cents: u128 = hu % 100;
    let mut out = fmt_u128(whole);
    out.push(46);
    out.push(48 + (cents / 10) as u8);
    out.push(48 + (cents % 10) as u8);
    if out.len() < 5 {
        out.push(32);
    }
    proof {
        assert(out@ =~= label_of(*v));
    }
    out
}

/// Clamped rounding of `p / q` to a row index in `0..height`: zero for a
/// non-positive ratio, otherwise the nearest integer with halves rounded
/// down, capped at `height - 1`.
pub open spec fn invert_row(p: int, q: int, height: int) -> int
    recommends
        q > 0,
        height >= 1,
{
    if p <= 0 {
        0
    } else {
        let r = (2 * p + q - 1) / (2 * q);
        if r >= height {
            height - 1
        } else {
            r
        }
    }
}

/// The chart row the trend line hits at price `s`, under the linear scale
/// with maximum `max` over `height` rows (per-row delta `max / height`):
/// the row whose table price is nearest to `s`. Computed by inverting the
/// scale, `row = (max - s) / (max / height)`, rounded to the nearest row
/// with ties toward the smaller index and clamped to `0..height` — the
/// same row a linear nearest-price scan over the strictly decreasing scale
/// table would select.
pub open spec fn marker_row(max: Rat, s: Rat, height: int) -> int {
    invert_row(height * (max.num * s.den - s.num * max.den), s.den * max.num, height)
}

/// Find the marker row of the trend value `s`.
pub fn nearest_row(max: &Rat, s: &Rat, height: usize) -> (r: usize)
    requires
        price_rat(*max),
        max.num > 0,
        s.wf(),
        -0x8000000000000000 <= s.num <= 0x8000000000000000,
        s.den <= 0x4000000000000,
        1 <= height <= crate::scale::DIM_LIMIT,
    ensures
        r == marker_row(*max, *s, height as int),
        r < height,
{
    proof {
        assert({
            &&& 0 < max.num * s.den <= 1_000_000_000_000_000_000 * 0x4000000000000
            &&& -(0x8000000000000000 * 1_000_000) <= s.num * max.den
                <= 0x8000000000000000 * 1_000_000
            &&& 0 < s.den * max.num <= 0x4000000000000 * 1_000_000_000_000_000_000
        }) by (nonlinear_arith)
            requires
                0 < max.num <= 1_000_000_000_000_000_000,
                0 < max.den <= 1_000_000,
                -0x8000000000000000 <= s.num <= 0x8000000000000000,
                0 < s.den <= 0x4000000000000,
        ;
    }
    let inner: i128 = max.num * s.den - s.num * max.den;
    proof {
        assert(-(0x1000 * (1_000_000_000_000_000_000 * 0x4000000000000
                + 0x8000000000000000 * 1_000_000))
            <= (height as int) * inner
            <= 0x1000 * (1_000_000_000_000_000_000 * 0x4000000000000
                + 0x8000000000000000 * 1_000_000)) by (nonlinear_arith)
            requires
                0 < height <= 0x1000,
                -(1_000_000_000_000_000_000 * 0x4000000000000 + 0x8000000000000000 * 1_000_000)
                    <= inner
                    <= 1_000_000_000_000_000_000 * 0x4000000000000
                        + 0x8000000000000000 * 1_000_000,
        ;
    }
    let p: i128 = (height as i128) * inner;
    let q: i128 = s.den * max.num;
    if p <= 0 {
        return 0;
    }
    let pp: u128 = p as u128;
    let qq: u128 = q as u128;
    let r0: u128 = (2 * pp + qq - 1) / (2 * qq);
    proof {
        assert(r0 == (2 * (p as int) + q - 1) / (2 * (q as int)));
        vstd::arithmetic::div_mod::lemma_div_pos_is_pos(2 * (p as int) + q - 1, 2 * (q as int));
    }
    if r0 >= height as u128 {
        height - 1
    } else {
        r0 as usize
    }
}

/// The trend-line sample at column `j`: `a * j + b`, over the coefficients'
/// shared denominator.
pub open spec fn sample_at(a: Rat, b: Rat, j: int) -> Rat {
    Rat { num: (a.num * j + b.num) as i128, den: a.den }
}

/// The marker row of every column: where the trend line `a * x + b` meets
/// each of the `cols` columns, under the scale `max` over `height` rows.
pub open spec fn marks_of(max: Rat, a: Rat, b: Rat, height: int, cols: int) -> Seq<int> {
    Seq::new(cols as nat, |j: int| marker_row(max, sample_at(a, b, j), height))
}

/// The byte at row `i`, column `j`: the trend marker when the trend line
/// meets this cell, else the bar glyph when the column's bar reaches this
/// row from the bottom, else a blank. The marker takes precedence.
pub open spec fn cell_at(i: int, j: int, rows: Seq<usize>, marks: Seq<int>, height: int) -> u8 {
    if marks[j] == i {
        43u8
    } else if height - i <= rows[j] {
        35u8
    } else {
        32u8
    }
}

/// Row `i` of the rendered chart: the price label of the row, the `|`
/// separator, then one cell per column.
pub open spec fn row_bytes(
    i: int,
    rows: Seq<usize>,
    marks: Seq<int>,
    table: Seq<Rat>,
    height: int,
) -> Seq<u8> {
    label_of(table[i]) + seq![124u8] + Seq::new(rows.len(), |j: int| cell_at(i, j, rows, marks, height))
}

/// The whole rendered chart, top row first.
pub open spec fn render_spec(
    rows: Seq<usize>,
    a: Rat,
    b: Rat,
    max: Rat,
    table: Seq<Rat>,
    height: int,
) -> Seq<Seq<u8>> {
    Seq::new(height as nat, |i: int| row_bytes(
        i,
        rows,
        marks_of(max, a, b, height, rows.len() as int),
        table,
        height,
    ))
}

/// The row offsets of a normalized series.
pub open spec fn rows_of(s: Seq<NormalizedRecord>) -> Seq<usize> {
    s.map_values(|r: NormalizedRecord| r.row)
}

/// Composite the chart grid: one byte row per terminal row. Pure grid
/// construction — writing the rows to a device, and coloring them, is the
/// caller's concern.
pub fn render(
    series: &Vec<NormalizedRecord>,
    model: &LinearRegressionCalculator,
    table: &Vec<Rat>,
    max: Rat,
    height: usize,
) -> (out: Vec<Vec<u8>>)
    requires
        price_rat(max),
        max.num > 0,
        model.a.wf(),
        model.a.den == model.b.den,
        -0x2000000000000 <= model.a.num <= 0x2000000000000,
        model.a.den <= 0x2000000000000,
        -0x2000000000000000 <= model.b.num <= 0x2000000000000000,
        series@.len() <= DIM_LIMIT,
        1 <= height <= DIM_LIMIT,
        table@.len() == height,
        forall|i: int| 0 <= i < height ==> {
            &&& (#[trigger] table@[i]).wf()
            &&& 0 <= table@[i].num <= 0x1000000000000000000000000
            &&& table@[i].den <= 0x10000000000000
        },
    ensures
        out@.len() == height,
        forall|i: int| 0 <= i < height ==> (#[trigger] out@[i])@ == render_spec(
            rows_of(series@),
            model.a,
            model.b,
            max,
            table@,
            height as int,
        )[i],
{
    let ghost rows = rows_of(series@);
    let ghost marks_spec = marks_of(max, model.a, model.b, height as int, series@.len() as int);
    let cols: usize = series.len();
    let mut marks: Vec<usize> = Vec::new();
    let mut j: usize = 0;
    while j < cols
        invariant
            price_rat(max),
            max.num > 0,
            model.a.wf(),
            model.a.den == model.b.den,
            -0x2000000000000 <= model.a.num <= 0x2000000000000,
            model.a.den <= 0x2000000000000,
            -0x2000000000000000 <= model.b.num <= 0x2000000000000000,
            cols == series@.len() <= DIM_LIMIT,
            1 <= height <= DIM_LIMIT,
            marks_spec == marks_of(max, model.a, model.b, height as int, cols as int),
            j <= cols,
            marks@.len() == j,
            forall|jj: int| 0 <= jj < j as int ==> {
                &&& marks@[jj] as int == marks_spec[jj]
                &&& marks@[jj] < height
            },
        decreases cols - j,
    {
        proof {
            assert(-(0x2000000000000 * 0x1000) <= model.a.num * (j as int)
                <= 0x2000000000000 * 0x1000) by (nonlinear_arith)
                requires
                    -0x2000000000000 <= model.a.num <= 0x2000000000000,
                    0 <= j <= 0x1000,
            ;
        }
        let s_num: i128 = model.a.num * (j as i128) + model.b.num;
        let s = Rat { num: s_num, den: model.a.den };
        proof {
            assert(sample_at(model.a, model.b, j as int) == s);
        }
        let m: usize = nearest_row(&max, &s, height);
        marks.push(m);
        j = j + 1;
    }
    let mut out: Vec<Vec<u8>> = Vec::new();
    let mut i: usize = 0;
    while i < height
        invariant
            cols == series@.len(),
            rows == rows_of(series@),
            1 <= height <= DIM_LIMIT,
            table@.len() == height,
            forall|k: int| 0 <= k < height ==> {
                &&& (#[trigger] table@[k]).wf()
                &&& 0 <= table@[k].num <= 0x1000000000000000000000000
                &&& table@[k].den <= 0x10000000000000
            },
            marks@.len() == cols,
            forall|jj: int| 0 <= jj < cols as int ==> marks@[jj] as int == marks_spec[jj],
            i <= height,
            out@.len() == i,
            forall|k: int| 0 <= k < i as int ==> (#[trigger] out@[k])@ == row_bytes(
                k, rows, marks_spec, table@, height as int,
            ),
        decreases height - i,
    {
        let mut row: Vec<u8> = make_label(&table[i]);
        row.push(124);
        let ghost prefix = label_of(table@[i as int]) + seq![124u8];
        proof {
            assert(row@ =~= prefix);
        }
        let mut j2: usize = 0;
        while j2 < cols
            invariant
                cols == series@.len(),
                rows == rows_of(series@),
                marks@.len() == cols,
                forall|jj: int| 0 <= jj < cols as int ==> marks@[jj] as int == marks_spec[jj],
                i < height,
                j2 <= cols,
                row@.len() == prefix.len() + j2,
                row@.take(prefix.len() as int) == prefix,
                forall|jj: int| 0 <= jj < j2 as int ==> row@[prefix.len() + jj] == cell_at(
                    i as int, jj, rows, marks_spec, height as int,
                ),
            decreases cols - j2,
        {
            proof {
                assert(rows[j2 as int] == series@[j2 as int].row);
            }
            let c: u8 = if marks[j2] == i {
                43
            } else if height - i <= series[j2].row {
                35
            } else {
                32
            };
            let ghost oldrow = row@;
            row.push(c);
            proof {
                assert(row@.take(prefix.len() as int) =~= oldrow.take(prefix.len() as int));
            }
            j2 = j2 + 1;
        }
        proof {
            assert(row@ =~= row_bytes(i as int, rows, marks_spec, table@, height as int));
        }
        out.push(row);
        i = i + 1;
    }
    proof {
        assert(forall|k: int| 0 <= k < height ==> (#[trigger] out@[k])@ == render_spec(
            rows, model.a, model.b, max, table@, height as int,
        )[k]);
    }
    out
}

/// Rendering is deterministic: two grids drawn from the same series, model,
/// maximum and scale table — as `render` guarantees of its result — are
/// identical, row for row.
pub proof fn lemma_render_deterministic(
    rows: Seq<usize>,
    a: Rat,
    b: Rat,
    max: Rat,
    table: Seq<Rat>,
    height: int,
    g1: Seq<Seq<u8>>,
    g2: Seq<Seq<u8>>,
)
    requires
        g1.len() == height,
        g2.len() == height,
        forall|i: int| 0 <= i < height
            ==> #[trigger] g1[i] == render_spec(rows, a, b, max, table, height)[i],
        forall|i: int| 0 <= i < height
            ==> #[trigger] g2[i] == render_spec(rows, a, b, max, table, height)[i],
    ensures
        g1 == g2,
{
    assert(g1 =~= g2);
}

/// A named series of raw records.
pub struct StockData {
    pub name: String,
    pub records: Vec<Record>,
}

/// The whole pipeline, as one state holder: terminal geometry, the raw
/// series, and the per-render products (maximum, per-row delta, fit).
pub struct StockVisualizer {
    pub console_width: usize,
    pub console_height: usize,
    pub data: StockData,
    pub max: Rat,
    pub normalization_value: Rat,
    pub lrc: LinearRegressionCalculator,
}

/// What a render of `records` on a `width` by `height` terminal yields:
/// the finished grid, or the first error the pipeline meets. Six columns
/// of the width are reserved for the price labels; the series is reduced
/// by `step = len / (width - 6)`, capped to the drawable width, scaled by
/// `max / height`, and overlaid with the fitted trend line.
pub open spec fn chart_spec(records: Seq<Record>, width: int, height: int) -> Result<
    Seq<Seq<u8>>,
    ChartError,
> {
    if width < 7 {
        Err(ChartError::Environment)
    } else {
        let step = records.len() as int / (width - 6);
        if step == 0 {
            Err(ChartError::Division)
        } else {
            let reduced = reduce_opens(opens_of(records), step);
            let kept = if reduced.len() > width - 6 {
                reduced.take(width - 6)
            } else {
                reduced
            };
            let mx = max_of(kept);
            if height == 0 || mx.num == 0 {
                Err(ChartError::Division)
            } else {
                let norm = norm_of(mx, height);
                let rws = Seq::new(kept.len(), |j: int| row_of(kept[j], norm) as usize);
                let pts = Seq::new(kept.len(), |j: int| Point(
                    j as i64,
                    row_of(kept[j], norm) as i64,
                ));
                if det(pts) == 0 {
                    Err(ChartError::DegenerateInput)
                } else {
                    let table = Seq::new(height as nat, |i: int| scale_entry(mx, norm, i));
                    Ok(render_spec(rws, fit_a(pts), fit_b(pts), mx, table, height))
                }
            }
        }
    }
}

impl StockVisualizer {
    /// A visualizer over the given terminal geometry and series, with the
    /// per-render products still empty.
    pub fn new(console_width: usize, console_height: usize, data: StockData) -> (s: Self)
        ensures
            s.console_width == console_width,
            s.console_height == console_height,
            s.data == data,
            s.max == (Rat { num: 0, den: 1 }),
            s.normalization_value == (Rat { num: 0, den: 1 }),
            s.lrc.a == (Rat { num: 0, den: 1 }),
            s.lrc.b == (Rat { num: 0, den: 1 }),
    {
        StockVisualizer {
            console_width,
            console_height,
            data,
            max: Rat::from_int(0),
            normalization_value: Rat::from_int(0),
            lrc: LinearRegressionCalculator::default(),
        }
    }

    /// Run the pipeline and return the chart rows, top to bottom, exactly
    /// as `chart_spec` describes them — or the first error it meets.
    pub fn visualize(self) -> (r: Result<Vec<Vec<u8>>, ChartError>)
        requires
            self.console_width <= DIM_LIMIT,
            self.console_height <= DIM_LIMIT,
            self.data.records@.len() <= LEN_LIMIT,
            forall|i: int| 0 <= i < self.data.records@.len()
                ==> (#[trigger] self.data.records@[i]).open <= PRICE_LIMIT,
        ensures
            ({
                let g = chart_spec(
                    self.data.records@,
                    self.console_width as int,
                    self.console_height as int,
                );
                &&& (g matches Err(e) ==> (r matches Err(e2) && e2 == e))
                &&& (g matches Ok(rows) ==> (r matches Ok(v) && v@.len() == rows.len()
                    && forall|i: int| 0 <= i < rows.len() ==> (#[trigger] v@[i])@ == rows[i]))
            }),
    {
        let ghost grecords = self.data.records@;
        if self.console_width < 7 {
            return Err(ChartError::Environment);
        }
        let w: usize = self.console_width - 6;
        let step: usize = self.data.records.len() / w;
        if step == 0 {
            return Err(ChartError::Division);
        }
        let mut reduced: Vec<ReducedRecord> = avg_by_step(&self.data.records, step);
        let ghost rfull = reduced@;
        if reduced.len() > w {
            reduced.truncate(w);
        }
        proof {
            assert forall|j: int| 0 <= j < reduced@.len() implies {
                &&& price_rat((#[trigger] reduced@[j]).open)
                &&& reduced@[j].open == reduce_opens(opens_of(grecords), step as int)[j]
            } by {
                assert(reduced@[j] == rfull[j]);
                assert(price_rat(rfull[j].open));
            }
        }
        let ghost kept = {
            let full = reduce_opens(opens_of(grecords), step as int);
            if full.len() > w as int {
                full.take(w as int)
            } else {
                full
            }
        };
        proof {
            assert(reduced_opens_of(reduced@) =~= kept);
        }
        let max: Rat = calc_max_value(&reduced);
        let height: usize = self.console_height;
        proof {
            lemma_max_is_bound(reduced_opens_of(reduced@));
            assert(forall|j: int| 0 <= j < reduced@.len()
                ==> rat_le(#[trigger] reduced@[j].open, max)) by {
                assert(forall|j: int| 0 <= j < reduced@.len()
                    ==> reduced_opens_of(reduced@)[j] == (#[trigger] reduced@[j]).open);
            }
        }
        let normed: Vec<NormalizedRecord>;
        let norm: Rat;
        match normalize_and_round_height(&reduced, max, height) {
            Ok(p) => {
                normed = p.0;
                norm = p.1;
            },
            Err(e) => {
                return Err(e);
            },
        }
        let cols: usize = normed.len();
        let mut pts: Vec<Point> = Vec::new();
        let mut j: usize = 0;
        while j < cols
            invariant
                cols == normed@.len() == kept.len(),
                norm == norm_of(max, height as int),
                forall|k: int| 0 <= k < cols as int
                    ==> (#[trigger] normed@[k]).row == row_of(kept[k], norm),
                forall|k: int| 0 <= k < cols as int ==> (#[trigger] normed@[k]).row <= height,
                height <= DIM_LIMIT,
                cols <= DIM_LIMIT,
                j <= cols,
                pts@.len() == j,
                forall|k: int| 0 <= k < j as int ==> (#[trigger] pts@[k]) == Point(
                    k as i64,
                    row_of(kept[k], norm) as i64,
                ),
            decreases cols - j,
        {
            let p = Point::new(j as i64, normed[j].row as i64);
            pts.push(p);
            j = j + 1;
        }
        let ghost gpts = Seq::new(kept.len(), |k: int| Point(
            k as i64,
            row_of(kept[k], norm) as i64,
        ));
        proof {
            assert(pts@ =~= gpts);
            assert forall|k: int| 0 <= k < gpts.len() implies {
                &&& -(DIM_LIMIT as int) <= (#[trigger] gpts[k]).0 <= DIM_LIMIT as int
                &&& -(DIM_LIMIT as int) <= gpts[k].1 <= DIM_LIMIT as int
            } by {
                assert(normed@[k].row == row_of(kept[k], norm));
                assert(normed@[k].row <= height);
            }
            lemma_fit_magnitudes(gpts, DIM_LIMIT as int);
            assert(2 * (DIM_LIMIT as int * (DIM_LIMIT as int * (DIM_LIMIT as int * DIM_LIMIT as int)))
                == 0x2000000000000);
            assert(2 * (DIM_LIMIT as int * (DIM_LIMIT as int * (DIM_LIMIT as int
                * (DIM_LIMIT as int * DIM_LIMIT as int)))) == 0x2000000000000000);
        }
        let mut lrc: LinearRegressionCalculator = self.lrc;
        match lrc.calculate(pts) {
            Ok(_u) => {},
            Err(e) => {
                return Err(e);
            },
        }
        proof {
            assert(0 < max.den * height <= 1_000_000 * 0x1000) by (nonlinear_arith)
                requires
                    0 < max.den <= 1_000_000,
                    0 < height <= 0x1000,
            ;
            assert(norm.den == max.den * height);
        }
        let table: Vec<Rat> = build_scale_table(max, norm, height);
        proof {
            // Scale entries are non-negative and bounded: with the delta
            // `max / height`, entry `i` is `max * (height - i) / height`.
            assert forall|i: int| 0 <= i < height implies {
                &&& (#[trigger] table@[i]).wf()
                &&& 0 <= table@[i].num <= 0x1000000000000000000000000
                &&& table@[i].den <= 0x10000000000000
            } by {
                assert({
                    &&& 0 <= max.num * norm.den - norm.num * i * max.den
                        <= 1_000_000_000_000_000_000 * (1_000_000 * 0x1000)
                    &&& 0 < max.den * norm.den <= 1_000_000 * (1_000_000 * 0x1000)
                }) by (nonlinear_arith)
                    requires
                        norm.num == max.num,
                        norm.den == max.den * height,
                        0 <= i < height,
                        0 < height <= 0x1000,
                        0 < max.den <= 1_000_000,
                        0 < max.num <= 1_000_000_000_000_000_000,
                ;
            }
        }
        let grid: Vec<Vec<u8>> = render(&normed, &lrc, &table, max, height);
        proof {
            assert(rows_of(normed@) =~= Seq::new(kept.len(), |k: int| row_of(kept[k], norm) as usize)) by {
                assert(forall|k: int| 0 <= k < normed@.len()
                    ==> rows_of(normed@)[k] == (#[trigger] normed@[k]).row);
            }
            assert(table@ =~= Seq::new(height as nat, |i: int| scale_entry(max, norm, i)));
        }
        Ok(grid)
    }
}

} // verus!
