//! The raw price series and its reduction to a bounded number of columns.
//!
//! A raw record carries a date and integer prices in fixed units chosen by
//! the caller (for instance cents). Reduction partitions the series into
//! consecutive buckets of exactly `step` records and emits, per bucket, the
//! exact arithmetic mean of the bucket's `open` values; the trailing partial
//! bucket is dropped. Each bucket is labeled with the date of its last
//! record, the closing side of the averaged window rather than its start.

use vstd::prelude::*;
use crate::rat::Rat;

verus! {

/// Upper bound on a raw `open` price accepted by the reducer; keeps every
/// window sum far inside `i128`.
pub const PRICE_LIMIT: u64 = 1_000_000_000_000;

/// Upper bound on the number of raw records accepted by the reducer.
pub const LEN_LIMIT: usize = 1_000_000;

/// One day of raw data. Only `open` drives the chart pipeline; the other
/// prices are carried for completeness and nothing below depends on them.
#[derive(Debug)]
pub struct Record {
    pub date: String,
    pub open: u64,
    pub high: u64,
    pub low: u64,
    pub close: u64,
}

/// One reduced column: the exact mean of a bucket of `open` prices, labeled
/// with the date of the bucket's last record.
#[derive(Debug)]
pub struct ReducedRecord {
    pub date: String,
    pub open: Rat,
}

/// Sum of `count` consecutive `open` values starting at `start`.
pub open spec fn window_sum(opens: Seq<u64>, start: int, count: int) -> int
    decreases count,
{
    if count <= 0 {
        0
    } else {
        window_sum(opens, start, count - 1) + opens[start + count - 1]
    }
}

/// The `open` values of a raw series.
pub open spec fn opens_of(records: Seq<Record>) -> Seq<u64> {
    records.map_values(|r: Record| r.open)
}

/// The reduced `open` values: one exact mean per complete bucket of `step`.
pub open spec fn reduce_opens(opens: Seq<u64>, step: int) -> Seq<Rat>
    recommends
        step >= 1,
{
    Seq::new((opens.len() as int / step) as nat, |k: int| Rat {
        num: window_sum(opens, k * step, step) as i128,
        den: step as i128,
    })
}

/// A window sum of non-negative values bounded by `PRICE_LIMIT` is itself
/// bounded by `count * PRICE_LIMIT`.
proof fn lemma_window_sum_bounds(opens: Seq<u64>, start: int, count: int)
    requires
        0 <= start,
        0 <= count,
        start + count <= opens.len(),
        forall|i: int| 0 <= i < opens.len() ==> opens[i] <= PRICE_LIMIT,
    ensures
        0 <= window_sum(opens, start, count) <= count * (PRICE_LIMIT as int),
    decreases count,
{
    if count > 0 {
        lemma_window_sum_bounds(opens, start, count - 1);
        assert(opens[start + count - 1] <= PRICE_LIMIT);
        assert((count - 1) * (PRICE_LIMIT as int) + PRICE_LIMIT as int
            == count * (PRICE_LIMIT as int)) by (nonlinear_arith);
    }
}

/// Downsample `records` by averaging consecutive buckets of exactly `step`
/// `open` values; the trailing partial bucket is dropped. Each emitted mean
/// is exact (numerator = window sum, denominator = `step`) and is labeled
/// with the date of its bucket's last record.
pub fn avg_by_step(records: &Vec<Record>, step: usize) -> (result: Vec<ReducedRecord>)
    requires
        step >= 1,
        records@.len() <= LEN_LIMIT,
        forall|i: int| 0 <= i < records@.len() ==> records@[i].open <= PRICE_LIMIT,
    ensures
        result@.len() == records@.len() as int / step as int,
        forall|k: int| 0 <= k < result@.len() ==> {
            &&& (#[trigger] result@[k]).open == reduce_opens(opens_of(records@), step as int)[k]
            &&& result@[k].date@ == records@[k * step + step - 1].date@
            &&& crate::rat::price_rat(result@[k].open)
        },
{
    let ghost opens = opens_of(records@);
    let buckets: usize = records.len() / step;
    let mut result: Vec<ReducedRecord> = Vec::new();
    let mut k: usize = 0;
    proof {
        vstd::arithmetic::div_mod::lemma_fundamental_div_mod(records@.len() as int, step as int);
        vstd::arithmetic::div_mod::lemma_mod_division_less_than_divisor(
            records@.len() as int, step as int);
        vstd::arithmetic::mul::lemma_mul_is_commutative(buckets as int, step as int);
    }
    while k < buckets
        invariant
            step >= 1,
            buckets == records@.len() as int / step as int,
            buckets * step <= records@.len() <= LEN_LIMIT,
            opens == opens_of(records@),
            forall|i: int| 0 <= i < records@.len() ==> records@[i].open <= PRICE_LIMIT,
            k <= buckets,
            result@.len() == k,
            forall|j: int| 0 <= j < k as int ==> {
                &&& (#[trigger] result@[j]).open == reduce_opens(opens, step as int)[j]
                &&& result@[j].date@ == records@[j * step + step - 1].date@
                &&& crate::rat::price_rat(result@[j].open)
            },
        decreases buckets - k,
    {
        proof {
            assert((k + 1) * step <= buckets * step) by (nonlinear_arith)
                requires
                    k + 1 <= buckets,
                    step >= 1,
            ;
            assert(k * step + step == (k + 1) * step) by (nonlinear_arith);
        }
        let base: usize = k * step;
        let mut sum: i128 = 0;
        let mut j: usize = 0;
        while j < step
            invariant
                step >= 1,
                base == k * step,
                base + step <= records@.len() <= LEN_LIMIT,
                opens == opens_of(records@),
                forall|i: int| 0 <= i < records@.len() ==> records@[i].open <= PRICE_LIMIT,
                j <= step,
                sum == window_sum(opens, base as int, j as int),
                0 <= sum <= j * (PRICE_LIMIT as int),
            decreases step - j,
        {
            let v: u64 = records[base + j].open;
            proof {
                assert(opens[base + j] == records@[base + j].open);
                assert(j * (PRICE_LIMIT as int) + PRICE_LIMIT as int
                    == (j + 1) * (PRICE_LIMIT as int)) by (nonlinear_arith);
            }
            sum = sum + v as i128;
            j = j + 1;
        }
        let last: &Record = &records[base + step - 1];
        let reduced = ReducedRecord { date: last.date.clone(), open: Rat { num: sum, den: step as i128 } };
        proof {
            assert(reduce_opens(opens, step as int)[k as int]
                == Rat { num: window_sum(opens, k as int * step as int, step as int) as i128,
                         den: step as i128 });
            // The emitted mean obeys the pipeline price bounds: a push only
            // happens when at least one full bucket fits, so step <= len.
            assert(step <= buckets * step) by (nonlinear_arith)
                requires
                    1 <= buckets,
                    1 <= step,
            ;
            assert(sum <= 1_000_000_000_000_000_000) by (nonlinear_arith)
                requires
                    sum <= step * (PRICE_LIMIT as int),
                    step <= 1_000_000,
                    PRICE_LIMIT == 1_000_000_000_000u64,
            ;
        }
        result.push(reduced);
        k = k + 1;
    }
    result
}

} // verus!
