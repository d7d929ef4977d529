//! A fixed bundle of summary statistics over a batch of samples.
use vstd::prelude::*;
use crate::quantile::{
    lemma_quantile_monotone, lemma_sorted_samples, quantile_of, quantile_of_sorted,
    sorted_copy, sorted_samples, Level, Ratio,
};

verus! {

/// A summary of a batch of samples. Every numeric field is `None` for an
/// empty batch.
#[derive(Clone, Copy, Debug, PartialEq, Eq, Structural)]
pub struct Statistics {
    /// The mean in hundredths of the sample unit, rounded half away from zero.
    pub avg: Option<i128>,
    pub p10: Option<Ratio>,
    pub p30: Option<Ratio>,
    pub p50: Option<Ratio>,
    pub p80: Option<Ratio>,
    pub p90: Option<Ratio>,
    pub p95: Option<Ratio>,
    pub p99: Option<Ratio>,
    pub p999: Option<Ratio>,
    pub max: Option<i64>,
    pub cnt: usize,
}

/// The sum of the samples.
pub open spec fn sum_of(s: Seq<i64>) -> int
    decreases s.len(),
{
    if s.len() == 0 {
        0
    } else {
        sum_of(s.drop_last()) + s.last()
    }
}

/// `100 * total / n` rounded to the nearest integer, halves away from zero.
pub open spec fn rounded_hundredths(total: int, n: int) -> int {
    if total >= 0 {
        (200 * total + n) / (2 * n)
    } else {
        -((-200 * total + n) / (2 * n))
    }
}

/// The level `k / 1000`.
pub open spec fn permille(k: u32) -> Level {
    Level { num: k, den: 1000 }
}

/// The summary of samples `s`, read in the order given.
pub open spec fn summary_of(s: Seq<i64>) -> Statistics {
    if s.len() == 0 {
        Statistics {
            avg: None,
            p10: None,
            p30: None,
            p50: None,
            p80: None,
            p90: None,
            p95: None,
            p99: None,
            p999: None,
            max: None,
            cnt: 0,
        }
    } else {
        Statistics {
            avg: Some(rounded_hundredths(sum_of(s), s.len() as int) as i128),
            p10: Some(quantile_of(s, permille(100))),
            p30: Some(quantile_of(s, permille(300))),
            p50: Some(quantile_of(s, permille(500))),
            p80: Some(quantile_of(s, permille(800))),
            p90: Some(quantile_of(s, permille(900))),
            p95: Some(quantile_of(s, permille(950))),
            p99: Some(quantile_of(s, permille(990))),
            p999: Some(quantile_of(s, permille(999))),
            max: Some(s.last()),
            cnt: s.len() as usize,
        }
    }
}

/// The sum of all samples; it fits an `i128` because a slice holds fewer
/// than `2^64` of them.
fn sum_samples(data: &[i64]) -> (r: i128)
    ensures
        r == sum_of(data@),
        -(data@.len() * 0x8000_0000_0000_0000) <= r <= data@.len() * 0x8000_0000_0000_0000,
{
    let mut acc: i128 = 0;
    let mut i: usize = 0;
    while i < data.len()
        invariant
            i <= data@.len(),
            acc == sum_of(data@.subrange(0, i as int)),
            -(i * 0x8000_0000_0000_0000) <= acc <= i * 0x8000_0000_0000_0000,
        decreases data@.len() - i,
    {
        proof {
            assert(data@.subrange(0, i + 1).drop_last() == data@.subrange(0, i as int));
            assert((i + 1) * 0x8000_0000_0000_0000 <= 0xffff_ffff_ffff_ffff * 0x8000_0000_0000_0000) by (nonlinear_arith)
                requires i + 1 <= 0xffff_ffff_ffff_ffff;
        }
        acc = acc + data[i] as i128;
        i += 1;
    }
    assert(data@.subrange(0, i as int) == data@);
    acc
}

/// `100 * total / n` rounded half away from zero, for a total of `n` samples.
fn hundredths_of_mean(total: i128, n: usize) -> (r: i128)
    requires
        n > 0,
        -(n * 0x8000_0000_0000_0000) <= total <= n * 0x8000_0000_0000_0000,
    ensures
        r == rounded_hundredths(total as int, n as int),
{
    let negative = total < 0;
    let a: u128 = if negative { (0 - (total + 1)) as u128 + 1 } else { total as u128 };
    let m: u128 = n as u128;
    let q: u128 = a / m;
    let rem: u128 = a % m;
    proof {
        let ai = a as int;
        let mi = m as int;
        vstd::arithmetic::div_mod::lemma_fundamental_div_mod(ai, mi);
        assert(ai <= mi * 0x8000_0000_0000_0000);
        assert(q <= 0x8000_0000_0000_0000) by (nonlinear_arith)
            requires ai == mi * q + rem, 0 <= rem < mi, ai <= mi * 0x8000_0000_0000_0000, mi > 0;
        assert(200 * rem + m < 201 * m) by (nonlinear_arith)
            requires rem < m;
    }
    let t: u128 = (200 * rem + m) / (2 * m);
    let whole: u128 = 100 * q + t;
    proof {
        let ai = a as int;
        let mi = m as int;
        let x = 200 * rem + mi;
        vstd::arithmetic::div_mod::lemma_fundamental_div_mod(x, 2 * mi);
        let u = x % (2 * mi);
        assert(200 * ai + mi == (100 * q + t) * (2 * mi) + u) by (nonlinear_arith)
            requires ai == mi * q + rem, x == 200 * rem + mi, x == (2 * mi) * t + u;
        vstd::arithmetic::div_mod::lemma_fundamental_div_mod_converse(
            200 * ai + mi,
            2 * mi,
            100 * q + t,
            u,
        );
    }
    if negative {
        0 - (whole as i128)
    } else {
        whole as i128
    }
}

/// The summary of samples given in ascending order. Unsorted input is read in
/// the order given.
pub fn statistics_from_sorted(data: &[i64]) -> (r: Statistics)
    ensures
        r == summary_of(data@),
{
    if data.len() == 0 {
        return Statistics {
            avg: None,
            p10: None,
            p30: None,
            p50: None,
            p80: None,
            p90: None,
            p95: None,
            p99: None,
            p999: None,
            max: None,
            cnt: 0,
        };
    }
    let cnt = data.len();
    let total = sum_samples(data);
    let avg = hundredths_of_mean(total, cnt);
    Statistics {
        avg: Some(avg),
        p10: Some(quantile_of_sorted(data, Level::new(100, 1000))),
        p30: Some(quantile_of_sorted(data, Level::new(300, 1000))),
        p50: Some(quantile_of_sorted(data, Level::new(500, 1000))),
        p80: Some(quantile_of_sorted(data, Level::new(800, 1000))),
        p90: Some(quantile_of_sorted(data, Level::new(900, 1000))),
        p95: Some(quantile_of_sorted(data, Level::new(950, 1000))),
        p99: Some(quantile_of_sorted(data, Level::new(990, 1000))),
        p999: Some(quantile_of_sorted(data, Level::new(999, 1000))),
        max: Some(data[cnt - 1]),
        cnt,
    }
}

/// The summary of samples in any order: they are sorted first.
pub fn statistics_from_vec(data: Vec<i64>) -> (r: Statistics)
    ensures
        r == summary_of(sorted_samples(data@)),
{
    let sorted = sorted_copy(data.as_slice());
    statistics_from_sorted(sorted.as_slice())
}

/// The percentile fields of a summary of sorted samples never decrease, from
/// `p10` up to `p999`.
pub proof fn lemma_summary_percentiles_ascending(data: Seq<i64>)
    requires
        data.len() >= 1,
    ensures
        ({
            let r = summary_of(sorted_samples(data));
            &&& r.p10.unwrap().le(r.p30.unwrap())
            &&& r.p30.unwrap().le(r.p50.unwrap())
            &&& r.p50.unwrap().le(r.p80.unwrap())
            &&& r.p80.unwrap().le(r.p90.unwrap())
            &&& r.p90.unwrap().le(r.p95.unwrap())
            &&& r.p95.unwrap().le(r.p99.unwrap())
            &&& r.p99.unwrap().le(r.p999.unwrap())
        }),
{
    lemma_sorted_samples(data);
    lemma_quantile_monotone(data, permille(100), permille(300));
    lemma_quantile_monotone(data, permille(300), permille(500));
    lemma_quantile_monotone(data, permille(500), permille(800));
    lemma_quantile_monotone(data, permille(800), permille(900));
    lemma_quantile_monotone(data, permille(900), permille(950));
    lemma_quantile_monotone(data, permille(950), permille(990));
    lemma_quantile_monotone(data, permille(990), permille(999));
}


} // verus!
