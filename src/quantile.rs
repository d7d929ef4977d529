//! Exact quantiles by linear interpolation between the closest ranks.
use vstd::prelude::*;
use vstd::relations::{sorted_by, total_ordering};
use vstd::seq_lib::lemma_sorted_unique;

verus! {

/// A quantile level `num / den`; levels above one are treated as one.
#[derive(Clone, Copy, Debug, PartialEq, Eq, Structural)]
pub struct Level {
    pub num: u32,
    pub den: u32,
}

/// An exact rational value `num / den`.
#[derive(Clone, Copy, Debug, PartialEq, Eq, Structural)]
pub struct Ratio {
    pub num: i128,
    pub den: u32,
}

impl Level {
    pub open spec fn wf(self) -> bool {
        self.den > 0
    }

    /// The numerator once the level is clamped into `[0, 1]`.
    pub open spec fn clamped(self) -> int {
        if self.num <= self.den {
            self.num as int
        } else {
            self.den as int
        }
    }

    /// Whether `self <= other` as rational numbers, after clamping.
    pub open spec fn at_most(self, other: Level) -> bool {
        self.clamped() * other.den <= other.clamped() * self.den
    }

    pub fn new(num: u32, den: u32) -> (r: Level)
        requires
            den > 0,
        ensures
            r.num == num,
            r.den == den,
            r.wf(),
    {
        Level { num, den }
    }
}

impl Ratio {
    /// Whether `self <= other` as rational numbers.
    pub open spec fn le(self, other: Ratio) -> bool {
        self.num * other.den <= other.num * self.den
    }
}

/// Whether the samples are in ascending order.
pub open spec fn is_ascending(s: Seq<i64>) -> bool {
    forall|i: int, j: int| 0 <= i <= j < s.len() ==> s[i] <= s[j]
}

/// The order that samples are sorted by.
pub open spec fn sample_leq() -> spec_fn(i64, i64) -> bool {
    |a: i64, b: i64| a <= b
}

/// The samples in ascending order.
pub open spec fn sorted_samples(s: Seq<i64>) -> Seq<i64> {
    s.sort_by(sample_leq())
}

/// The rank `h = (n - 1) * q`, scaled by the level's denominator.
pub open spec fn scaled_rank(n: int, q: Level) -> int {
    (n - 1) * q.clamped()
}

/// `floor(h)`.
pub open spec fn lower_rank(n: int, q: Level) -> int {
    scaled_rank(n, q) / (q.den as int)
}

/// `h - floor(h)`, scaled by the level's denominator.
pub open spec fn rank_offset(n: int, q: Level) -> int {
    scaled_rank(n, q) % (q.den as int)
}

/// `ceil(h)`.
pub open spec fn upper_rank(n: int, q: Level) -> int {
    if rank_offset(n, q) > 0 {
        lower_rank(n, q) + 1
    } else {
        lower_rank(n, q)
    }
}

/// The interpolated order statistic `s[lo] + (s[hi] - s[lo]) * (h - lo)` of
/// ascending samples `s`, scaled by the level's denominator.
pub open spec fn interpolated(s: Seq<i64>, q: Level) -> int {
    let lo = lower_rank(s.len() as int, q);
    let hi = upper_rank(s.len() as int, q);
    s[lo] * q.den + (s[hi] - s[lo]) * rank_offset(s.len() as int, q)
}

/// The quantile at level `q` of ascending samples `s`, as a ratio over `q.den`.
pub open spec fn quantile_of(s: Seq<i64>, q: Level) -> Ratio {
    Ratio { num: interpolated(s, q) as i128, den: q.den }
}

proof fn lemma_ranks(n: int, q: Level)
    requires
        n >= 1,
        q.wf(),
    ensures
        0 <= lower_rank(n, q) <= upper_rank(n, q) < n,
        0 <= rank_offset(n, q) < q.den,
        lower_rank(n, q) * q.den + rank_offset(n, q) == scaled_rank(n, q),
        0 <= scaled_rank(n, q) <= (n - 1) * q.den,
{
    let d = q.den as int;
    let c = q.clamped();
    let h = scaled_rank(n, q);
    assert(0 <= c <= d);
    assert(0 <= h <= (n - 1) * d) by (nonlinear_arith)
        requires h == (n - 1) * c, 0 <= c <= d, n >= 1;
    vstd::arithmetic::div_mod::lemma_fundamental_div_mod(h, d);
    let lo = h / d;
    let r = h % d;
    assert(0 <= r < d);
    assert(0 <= lo) by (nonlinear_arith)
        requires h == d * lo + r, h >= 0, 0 <= r < d;
    assert(lo <= n - 1) by (nonlinear_arith)
        requires h == d * lo + r, h <= (n - 1) * d, 0 <= r < d, d > 0;
    if r > 0 {
        assert(lo < n - 1) by (nonlinear_arith)
            requires h == d * lo + r, h <= (n - 1) * d, 0 < r < d, d > 0;
    }
}

/// The bounds that make each term of the interpolation fit an `i128`.
proof fn lemma_interpolated_fits(s: Seq<i64>, q: Level)
    requires
        s.len() >= 1,
        q.wf(),
    ensures
        ({
            let n = s.len() as int;
            let a = s[lower_rank(n, q)] as int;
            let b = s[upper_rank(n, q)] as int;
            &&& -0x8000_0000_0000_0000_0000_0000 <= a * q.den <= 0x8000_0000_0000_0000_0000_0000
            &&& -0x1_0000_0000_0000_0000_0000_0000 <= (b - a) * rank_offset(n, q)
                <= 0x1_0000_0000_0000_0000_0000_0000
        }),
{
    let n = s.len() as int;
    lemma_ranks(n, q);
    let a = s[lower_rank(n, q)] as int;
    let b = s[upper_rank(n, q)] as int;
    let d = q.den as int;
    let r = rank_offset(n, q);
    assert(-0x8000_0000_0000_0000_0000_0000 <= a * d <= 0x8000_0000_0000_0000_0000_0000) by (nonlinear_arith)
        requires -0x8000_0000_0000_0000 <= a < 0x8000_0000_0000_0000, 0 < d < 0x1_0000_0000;
    assert(-0x1_0000_0000_0000_0000_0000_0000 <= (b - a) * r <= 0x1_0000_0000_0000_0000_0000_0000) by (nonlinear_arith)
        requires
            -0x8000_0000_0000_0000 <= a < 0x8000_0000_0000_0000,
            -0x8000_0000_0000_0000 <= b < 0x8000_0000_0000_0000,
            0 <= r < 0x1_0000_0000;
}

/// The quantile at level `q` of samples that are already in ascending order.
pub fn quantile_of_sorted(sorted: &[i64], q: Level) -> (r: Ratio)
    requires
        sorted@.len() >= 1,
        q.wf(),
    ensures
        r == quantile_of(sorted@, q),
{
    let n = sorted.len();
    proof {
        lemma_ranks(n as int, q);
        lemma_interpolated_fits(sorted@, q);
    }
    let c: u32 = if q.num <= q.den { q.num } else { q.den };
    assert((n - 1) as int * (c as int) <= 0xffff_ffff_ffff_ffff * 0xffff_ffff) by (nonlinear_arith)
        requires 0 <= n - 1 <= 0xffff_ffff_ffff_ffff, 0 <= c <= 0xffff_ffff;
    let h: u128 = ((n - 1) as u128) * (c as u128);
    let d: u128 = q.den as u128;
    let lo = (h / d) as usize;
    let offset: u128 = h % d;
    let hi: usize = if offset > 0 { lo + 1 } else { lo };
    let a = sorted[lo] as i128;
    let b = sorted[hi] as i128;
    let num: i128 = a * (q.den as i128) + (b - a) * (offset as i128);
    Ratio { num, den: q.den }
}

/// Relies on std's `slice::sort_unstable`: it leaves the same elements in
/// ascending order.
#[verifier::external_body]
fn sort_ascending(v: &mut Vec<i64>)
    ensures
        final(v)@.to_multiset() == old(v)@.to_multiset(),
        is_ascending(final(v)@),
{
    v.sort_unstable();
}

proof fn lemma_sample_leq_total()
    ensures
        total_ordering(sample_leq()),
{
}

/// A sequence in ascending order with the elements of `s` is `sorted_samples(s)`.
pub proof fn lemma_sorted_samples_unique(s: Seq<i64>, t: Seq<i64>)
    requires
        is_ascending(t),
        t.to_multiset() == s.to_multiset(),
    ensures
        t == sorted_samples(s),
        sorted_samples(s).len() == s.len(),
{
    lemma_sample_leq_total();
    s.lemma_sort_by_ensures(sample_leq());
    assert(sorted_by(t, sample_leq()));
    lemma_sorted_unique(t, sorted_samples(s), sample_leq());
    vstd::seq_lib::to_multiset_len(t);
    vstd::seq_lib::to_multiset_len(s);
}

/// Sorting keeps the samples, puts them in ascending order, and keeps their number.
pub proof fn lemma_sorted_samples(s: Seq<i64>)
    ensures
        sorted_samples(s).len() == s.len(),
        sorted_samples(s).to_multiset() == s.to_multiset(),
        is_ascending(sorted_samples(s)),
{
    let t = sorted_samples(s);
    lemma_sample_leq_total();
    s.lemma_sort_by_ensures(sample_leq());
    vstd::seq_lib::to_multiset_len(t);
    vstd::seq_lib::to_multiset_len(s);
    assert forall|i: int, j: int| 0 <= i <= j < t.len() implies t[i] <= t[j] by {
        if i < j {
            assert(sample_leq()(t[i], t[j]));
        }
    }
}

/// Sorts a copy of `values` into ascending order.
pub fn sorted_copy(values: &[i64]) -> (r: Vec<i64>)
    ensures
        r@ == sorted_samples(values@),
        r@.len() == values@.len(),
        is_ascending(r@),
{
    let mut v: Vec<i64> = Vec::with_capacity(values.len());
    let mut i: usize = 0;
    while i < values.len()
        invariant
            i <= values@.len(),
            v@ == values@.subrange(0, i as int),
        decreases values@.len() - i,
    {
        v.push(values[i]);
        i += 1;
    }
    assert(v@ == values@);
    sort_ascending(&mut v);
    proof {
        lemma_sorted_samples_unique(values@, v@);
    }
    v
}

/// The quantile at level `q` of `values` in any order: `None` when there are no values.
pub fn exact_quantile(values: &[i64], q: Level) -> (r: Option<Ratio>)
    requires
        q.wf(),
    ensures
        values@.len() == 0 <==> r is None,
        values@.len() > 0 ==> r == Some(quantile_of(sorted_samples(values@), q)),
{
    if values.len() == 0 {
        return None;
    }
    if values.len() == 1 {
        proof {
            let t = values@;
            assert(is_ascending(t));
            lemma_sorted_samples_unique(values@, t);
            lemma_ranks(1, q);
            let v = values[0] as int;
            let d = q.den as int;
            assert(-0x8000_0000_0000_0000_0000_0000 <= v * d <= 0x8000_0000_0000_0000_0000_0000) by (nonlinear_arith)
                requires -0x8000_0000_0000_0000 <= v < 0x8000_0000_0000_0000, 0 < d < 0x1_0000_0000;
        }
        let num: i128 = values[0] as i128 * q.den as i128;
        proof {
            let t = sorted_samples(values@);
            assert(t == values@);
            assert(lower_rank(1, q) == 0 && upper_rank(1, q) == 0);
            assert(interpolated(t, q) == values[0] as int * q.den);
        }
        return Some(Ratio { num, den: q.den });
    }
    let sorted = sorted_copy(values);
    Some(quantile_of_sorted(sorted.as_slice(), q))
}

/// Interpolation on ascending samples lands between the two closest ranks.
proof fn lemma_interpolated_between(s: Seq<i64>, q: Level)
    requires
        s.len() >= 1,
        q.wf(),
        is_ascending(s),
    ensures
        s[lower_rank(s.len() as int, q)] * q.den <= interpolated(s, q),
        interpolated(s, q) <= s[upper_rank(s.len() as int, q)] * q.den,
        rank_offset(s.len() as int, q) == 0 ==> interpolated(s, q) == s[lower_rank(s.len() as int, q)] * q.den,
        interpolated(s, q) as i128 == interpolated(s, q),
{
    let n = s.len() as int;
    lemma_ranks(n, q);
    lemma_interpolated_fits(s, q);
    let a = s[lower_rank(n, q)] as int;
    let b = s[upper_rank(n, q)] as int;
    let d = q.den as int;
    let r = rank_offset(n, q);
    assert(a <= b);
    assert(0 <= (b - a) * r <= (b - a) * d) by (nonlinear_arith)
        requires a <= b, 0 <= r < d;
    assert(a * d + (b - a) * d == b * d) by (nonlinear_arith);
}

/// Every quantile of non-empty samples lies between their least and their
/// greatest sample, whatever the level.
pub proof fn lemma_quantile_within_range(data: Seq<i64>, q: Level)
    requires
        data.len() >= 1,
        q.wf(),
    ensures
        ({
            let r = quantile_of(sorted_samples(data), q);
            &&& exists|i: int| 0 <= i < data.len() && #[trigger] data[i] * r.den <= r.num
            &&& exists|j: int| 0 <= j < data.len() && r.num <= #[trigger] data[j] * r.den
        }),
{
    broadcast use vstd::seq_lib::group_to_multiset_ensures;

    let s = sorted_samples(data);
    lemma_sorted_samples(data);
    let n = s.len() as int;
    lemma_ranks(n, q);
    lemma_interpolated_between(s, q);
    let d = q.den as int;
    let lo = lower_rank(n, q);
    let hi = upper_rank(n, q);
    let v = interpolated(s, q);
    assert(s[0] * d <= s[lo] * d) by (nonlinear_arith)
        requires s[0] <= s[lo], d > 0;
    assert(s[hi] * d <= s[n - 1] * d) by (nonlinear_arith)
        requires s[hi] <= s[n - 1], d > 0;
    assert(s.contains(s[0]));
    assert(s.contains(s[n - 1]));
    assert(s.to_multiset().contains(s[0]));
    assert(s.to_multiset().contains(s[n - 1]));
    assert(data.contains(s[0]));
    assert(data.contains(s[n - 1]));
    let i = choose|i: int| 0 <= i < data.len() && data[i] == s[0];
    let j = choose|j: int| 0 <= j < data.len() && data[j] == s[n - 1];
    assert(data[i] * d <= v);
    assert(v <= data[j] * d);
}

/// For fixed samples, a higher level never gives a lower quantile.
pub proof fn lemma_quantile_monotone(data: Seq<i64>, q1: Level, q2: Level)
    requires
        data.len() >= 1,
        q1.wf(),
        q2.wf(),
        q1.at_most(q2),
    ensures
        quantile_of(sorted_samples(data), q1).le(quantile_of(sorted_samples(data), q2)),
{
    let s = sorted_samples(data);
    lemma_sorted_samples(data);
    lemma_interpolated_monotone(s, q1, q2);
}

proof fn lemma_interpolated_monotone(s: Seq<i64>, q1: Level, q2: Level)
    requires
        s.len() >= 1,
        q1.wf(),
        q2.wf(),
        q1.at_most(q2),
        is_ascending(s),
    ensures
        quantile_of(s, q1).le(quantile_of(s, q2)),
{
    let n = s.len() as int;
    lemma_ranks(n, q1);
    lemma_ranks(n, q2);
    lemma_interpolated_between(s, q1);
    lemma_interpolated_between(s, q2);
    let d1 = q1.den as int;
    let d2 = q2.den as int;
    let c1 = q1.clamped();
    let c2 = q2.clamped();
    let h1 = scaled_rank(n, q1);
    let h2 = scaled_rank(n, q2);
    let lo1 = lower_rank(n, q1);
    let lo2 = lower_rank(n, q2);
    let hi1 = upper_rank(n, q1);
    let hi2 = upper_rank(n, q2);
    let r1 = rank_offset(n, q1);
    let r2 = rank_offset(n, q2);
    let v1 = interpolated(s, q1);
    let v2 = interpolated(s, q2);
    assert(h1 * d2 <= h2 * d1) by (nonlinear_arith)
        requires h1 == (n - 1) * c1, h2 == (n - 1) * c2, c1 * d2 <= c2 * d1, n >= 1;
    assert(lo1 <= lo2) by (nonlinear_arith)
        requires
            h1 * d2 <= h2 * d1,
            lo1 * d1 + r1 == h1,
            lo2 * d2 + r2 == h2,
            0 <= r1 < d1,
            0 <= r2 < d2,
            d1 > 0,
            d2 > 0,
    {
        if lo1 > lo2 {
            assert(lo1 * d1 * d2 >= (lo2 + 1) * d1 * d2);
            assert(h1 * d2 >= lo1 * d1 * d2);
            assert(h2 < (lo2 + 1) * d2);
            assert(h2 * d1 < (lo2 + 1) * d2 * d1);
        }
    }
    if lo1 < lo2 {
        assert(s[hi1] <= s[lo2]);
        assert(v1 * d2 <= v2 * d1) by (nonlinear_arith)
            requires
                v1 <= s[hi1] * d1,
                s[lo2] * d2 <= v2,
                s[hi1] <= s[lo2],
                d1 > 0,
                d2 > 0,
        {
            assert(v1 * d2 <= s[hi1] * d1 * d2);
            assert(s[hi1] * d1 * d2 <= s[lo2] * d1 * d2);
            assert(s[lo2] * d2 * d1 <= v2 * d1);
        }
    } else {
        let a = s[lo1] as int;
        assert(r1 * d2 <= r2 * d1) by (nonlinear_arith)
            requires
                h1 * d2 <= h2 * d1,
                lo1 * d1 + r1 == h1,
                lo1 * d2 + r2 == h2;
        if r2 == 0 {
            assert(r1 == 0) by (nonlinear_arith)
                requires r1 * d2 <= 0, r1 >= 0, d2 > 0;
            assert(v1 * d2 == v2 * d1) by (nonlinear_arith)
                requires v1 == a * d1, v2 == a * d2;
        } else if r1 == 0 {
            assert(v1 * d2 <= v2 * d1) by (nonlinear_arith)
                requires v1 == a * d1, a * d2 <= v2, d1 > 0;
        } else {
            let b = s[hi1] as int;
            assert(hi1 == hi2);
            assert(a <= b);
            assert(v1 * d2 <= v2 * d1) by (nonlinear_arith)
                requires
                    v1 == a * d1 + (b - a) * r1,
                    v2 == a * d2 + (b - a) * r2,
                    r1 * d2 <= r2 * d1,
                    a <= b,
            {
                assert((b - a) * (r1 * d2) <= (b - a) * (r2 * d1));
            }
        }
    }
}

/// The exact estimator: it keeps every sample it is given.
#[derive(Debug)]
pub struct BruteQuantileState {
    values: Vec<i64>,
}

impl View for BruteQuantileState {
    type V = Seq<i64>;

    closed spec fn view(&self) -> Seq<i64> {
        self.values@
    }
}

impl BruteQuantileState {
    pub fn new() -> (r: BruteQuantileState)
        ensures
            r@ == Seq::<i64>::empty(),
    {
        BruteQuantileState { values: Vec::new() }
    }

    /// Records one sample.
    pub fn insert(&mut self, x: i64)
        ensures
            final(self)@ == old(self)@.push(x),
    {
        self.values.push(x);
    }

    /// The number of samples recorded so far.
    pub fn len(&self) -> (r: usize)
        ensures
            r == self@.len(),
    {
        self.values.len()
    }

    /// The quantile at level `q` of every sample recorded so far; `None` before
    /// the first sample.
    pub fn quantile(&self, q: Level) -> (r: Option<Ratio>)
        requires
            q.wf(),
        ensures
            self@.len() == 0 <==> r is None,
            self@.len() > 0 ==> r == Some(quantile_of(sorted_samples(self@), q)),
    {
        exact_quantile(self.values.as_slice(), q)
    }
}

} // verus!
