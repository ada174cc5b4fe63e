//! Summary statistics over a sample sequence: total, extremes, mean and
//! population standard deviation, all in exact integer arithmetic, and the
//! nearest-rank rule for percentiles.

use vstd::arithmetic::div_mod::lemma_fundamental_div_mod_converse;
use vstd::prelude::*;
use vstd::relations::{sorted_by, total_ordering};
use vstd::seq_lib::{
    lemma_multiset_commutative, lemma_sorted_unique, to_multiset_build, to_multiset_contains,
    to_multiset_len, to_multiset_remove,
};
use vstd::slice::{slice_subrange, slice_to_vec};

verus! {

/// Sum of all samples.
pub open spec fn total(s: Seq<u64>) -> nat
    decreases s.len(),
{
    if s.len() == 0 {
        0
    } else {
        total(s.drop_last()) + s.last() as nat
    }
}

/// Sum of the squares of all samples.
pub open spec fn square_total(s: Seq<u64>) -> nat
    decreases s.len(),
{
    if s.len() == 0 {
        0
    } else {
        square_total(s.drop_last()) + (s.last() as nat) * (s.last() as nat)
    }
}

/// Sum of the squared distances of all samples from `center`.
pub open spec fn deviation_total(s: Seq<u64>, center: int) -> int
    decreases s.len(),
{
    if s.len() == 0 {
        0
    } else {
        deviation_total(s.drop_last(), center) + (s.last() - center) * (s.last() - center)
    }
}

/// The population variance scaled by the square of the sample count:
/// `n * sum(x^2) - sum(x)^2`.
pub open spec fn spread(s: Seq<u64>) -> int {
    s.len() * square_total(s) - total(s) * total(s)
}

/// The population variance of a non-empty sample sequence, rounded down.
pub open spec fn variance(s: Seq<u64>) -> int {
    spread(s) / (s.len() * s.len()) as int
}

/// The arithmetic mean of a non-empty sample sequence, rounded down.
pub open spec fn mean(s: Seq<u64>) -> int {
    total(s) as int / s.len() as int
}

/// `root` is the square root of `value`, rounded down.
pub open spec fn is_floor_sqrt(root: int, value: int) -> bool {
    0 <= root && root * root <= value < (root + 1) * (root + 1)
}

/// `m` occurs in `s` and no sample is smaller.
pub open spec fn is_minimum(s: Seq<u64>, m: u64) -> bool {
    s.contains(m) && forall|i: int| 0 <= i < s.len() ==> m <= s[i]
}

/// `m` occurs in `s` and no sample is larger.
pub open spec fn is_maximum(s: Seq<u64>, m: u64) -> bool {
    s.contains(m) && forall|i: int| 0 <= i < s.len() ==> s[i] <= m
}

/// The total is at most the count times the largest possible sample.
pub proof fn lemma_total_bound(s: Seq<u64>)
    ensures
        total(s) <= s.len() * u64::MAX,
    decreases s.len(),
{
    if s.len() > 0 {
        lemma_total_bound(s.drop_last());
        assert((s.len() - 1) * u64::MAX + u64::MAX == s.len() * u64::MAX) by (nonlinear_arith);
    }
}

/// Taking one sample out lowers the total by that sample.
pub proof fn lemma_total_remove(s: Seq<u64>, at: int)
    requires
        0 <= at < s.len(),
    ensures
        total(s) == total(s.remove(at)) + s[at],
    decreases s.len(),
{
    if at == s.len() - 1 {
        assert(s.remove(at) =~= s.drop_last());
    } else {
        lemma_total_remove(s.drop_last(), at);
        assert(s.remove(at).drop_last() =~= s.drop_last().remove(at));
        assert(s.remove(at).last() == s.last());
    }
}

/// The total does not depend on the order of the samples.
pub proof fn lemma_total_ignores_order(a: Seq<u64>, b: Seq<u64>)
    requires
        a.to_multiset() == b.to_multiset(),
    ensures
        total(a) == total(b),
    decreases a.len(),
{
    to_multiset_len(a);
    to_multiset_len(b);
    if a.len() > 0 {
        let x = a.last();
        to_multiset_contains(a, x);
        to_multiset_contains(b, x);
        assert(a[a.len() - 1] == x);
        assert(b.contains(x));
        let at = b.index_of(x);
        assert(0 <= at < b.len() && b[at] == x);
        to_multiset_remove(a, a.len() - 1);
        to_multiset_remove(b, at);
        assert(a.remove(a.len() - 1) =~= a.drop_last());
        lemma_total_remove(b, at);
        lemma_total_ignores_order(a.drop_last(), b.remove(at));
    }
}

/// Expanding the squares: `sum((x - c)^2) = sum(x^2) - 2 c sum(x) + n c^2`.
pub proof fn lemma_deviation_expansion(s: Seq<u64>, center: int)
    ensures
        deviation_total(s, center) == square_total(s) - 2 * (center * total(s)) + s.len() * (center
            * center),
        deviation_total(s, center) >= 0,
    decreases s.len(),
{
    if s.len() > 0 {
        let p = s.drop_last();
        let x = s.last() as int;
        lemma_deviation_expansion(p, center);
        let t = total(p) as int;
        let n = p.len() as int;
        let cc = center * center;
        assert((x - center) * (x - center) >= 0) by (nonlinear_arith);
        assert((x - center) * (x - center) == x * x - 2 * (center * x) + center * center)
            by (nonlinear_arith);
        assert(center * (t + x) == center * t + center * x) by (nonlinear_arith);
        assert((n + 1) * cc == n * cc + cc) by (nonlinear_arith);
        assert((s.last() as nat) * (s.last() as nat) == x * x);
    } else {
        assert(center * 0 == 0 && 0 * (center * center) == 0) by (nonlinear_arith);
    }
}

/// Adding one sample grows the spread by that sample's squared distances
/// from all earlier ones.
pub proof fn lemma_spread_step(s: Seq<u64>)
    requires
        s.len() > 0,
    ensures
        spread(s) == spread(s.drop_last()) + deviation_total(s.drop_last(), s.last() as int),
{
    let p = s.drop_last();
    let x = s.last() as int;
    lemma_deviation_expansion(p, x);
    let q = square_total(p) as int;
    let t = total(p) as int;
    let n = p.len() as int;
    assert((s.last() as nat) * (s.last() as nat) == x * x);
    assert(spread(s) == (n + 1) * (q + x * x) - (t + x) * (t + x));
    assert(spread(p) == n * q - t * t);
    assert(deviation_total(p, x) == q - 2 * (x * t) + n * (x * x));
    assert((n + 1) * (q + x * x) - (t + x) * (t + x) == (n * q - t * t) + (q - 2 * (x * t) + n * (x
        * x))) by (nonlinear_arith);
}

/// The spread, and with it the variance, is never negative.
pub proof fn lemma_spread_nonnegative(s: Seq<u64>)
    ensures
        spread(s) >= 0,
    decreases s.len(),
{
    if s.len() > 0 {
        lemma_spread_nonnegative(s.drop_last());
        lemma_spread_step(s);
        lemma_deviation_expansion(s.drop_last(), s.last() as int);
    }
}

/// The spread can be computed from the squared distances to any center.
pub proof fn lemma_spread_from_center(s: Seq<u64>, center: int)
    ensures
        spread(s) == s.len() * deviation_total(s, center) - (total(s) - s.len() * center) * (
        total(s) - s.len() * center),
{
    lemma_deviation_expansion(s, center);
    let q = square_total(s) as int;
    let t = total(s) as int;
    let n = s.len() as int;
    let c = center;
    assert(deviation_total(s, c) == q - 2 * (c * t) + n * (c * c));
    assert(spread(s) == n * q - t * t);
    assert(n * (q - 2 * (c * t) + n * (c * c)) - (t - n * c) * (t - n * c) == n * q - t * t)
        by (nonlinear_arith);
}

/// Two to the power 64.
spec fn pow64() -> int {
    0x1_0000_0000_0000_0000
}

/// Two to the power 128.
spec fn pow128() -> int {
    pow64() * pow64()
}

/// The powers of two as the largest machine integers plus one.
proof fn lemma_pow128()
    ensures
        pow128() == u128::MAX + 1,
        pow64() == u64::MAX + 1,
{
    assert(0x1_0000_0000_0000_0000int * 0x1_0000_0000_0000_0000int
        == 0xffff_ffff_ffff_ffff_ffff_ffff_ffff_ffff + 1) by (nonlinear_arith);
}

/// The sum of the samples. It always fits: fewer than 2^64 samples, each
/// below 2^64.
pub fn sum_of(samples: &[u64]) -> (sum: u128)
    ensures
        sum == total(samples@),
{
    let mut sum: u128 = 0;
    let mut i: usize = 0;
    while i < samples.len()
        invariant
            i <= samples.len(),
            sum == total(samples@.take(i as int)),
        decreases samples.len() - i,
    {
        proof {
            let next = samples@.take(i + 1);
            assert(next.drop_last() == samples@.take(i as int));
            lemma_total_bound(next);
            assert((i + 1) * u64::MAX <= usize::MAX * u64::MAX) by (nonlinear_arith)
                requires
                    i + 1 <= usize::MAX,
            ;
            assert(usize::MAX * u64::MAX <= u64::MAX * u64::MAX) by (nonlinear_arith);
            assert(u64::MAX * u64::MAX < u128::MAX) by (nonlinear_arith);
        }
        sum = sum + samples[i] as u128;
        i = i + 1;
    }
    proof {
        assert(samples@.take(i as int) == samples@);
    }
    sum
}

/// The smallest and the largest sample.
pub fn extremes(samples: &[u64]) -> (range: (u64, u64))
    requires
        samples@.len() > 0,
    ensures
        is_minimum(samples@, range.0),
        is_maximum(samples@, range.1),
{
    let mut low: u64 = samples[0];
    let mut high: u64 = samples[0];
    let mut i: usize = 1;
    while i < samples.len()
        invariant
            1 <= i <= samples.len(),
            exists|j: int| 0 <= j < i && samples@[j] == low,
            exists|j: int| 0 <= j < i && samples@[j] == high,
            forall|j: int| 0 <= j < i ==> low <= #[trigger] samples@[j] && samples@[j] <= high,
        decreases samples.len() - i,
    {
        let x = samples[i];
        if x < low {
            low = x;
        }
        if x > high {
            high = x;
        }
        i = i + 1;
    }
    (low, high)
}

/// The sum of the squared distances of the samples from `center`, as a
/// 192-bit number `hi * 2^128 + lo`.
fn squared_distances(samples: &[u64], center: u64) -> (wide: (u64, u128))
    ensures
        wide.0 * pow128() + wide.1 == deviation_total(samples@, center as int),
        samples@.len() > 0 ==> wide.0 < samples@.len(),
        samples@.len() == 0 ==> wide.0 == 0,
{
    let mut hi: u64 = 0;
    let mut lo: u128 = 0;
    let mut i: usize = 0;
    proof {
        lemma_pow128();
        assert(0 * pow128() == 0);
    }
    while i < samples.len()
        invariant
            i <= samples.len(),
            hi <= i,
            hi * pow128() + lo == deviation_total(samples@.take(i as int), center as int),
            deviation_total(samples@.take(i as int), center as int) <= i * u128::MAX,
        decreases samples.len() - i,
    {
        let x = samples[i];
        let d: u64 = if x >= center {
            x - center
        } else {
            center - x
        };
        proof {
            assert((d as int) * (d as int) <= u64::MAX * u64::MAX) by (nonlinear_arith)
                requires
                    0 <= d <= u64::MAX,
            ;
            assert(u64::MAX * u64::MAX < u128::MAX) by (nonlinear_arith);
        }
        let sq: u128 = (d as u128) * (d as u128);
        proof {
            lemma_pow128();
            let next = samples@.take(i + 1);
            assert(next.drop_last() == samples@.take(i as int));
            assert((x - center) * (x - center) == sq) by (nonlinear_arith)
                requires
                    sq == d * d,
                    d == x - center || d == center - x,
            ;
            assert((hi + 1) * pow128() == hi * pow128() + pow128()) by (nonlinear_arith);
            assert((i + 1) * u128::MAX == i * u128::MAX + u128::MAX) by (nonlinear_arith);
        }
        if lo > u128::MAX - sq {
            lo = lo - (u128::MAX - sq) - 1;
            hi = hi + 1;
        } else {
            lo = lo + sq;
        }
        i = i + 1;
    }
    proof {
        assert(samples@.take(i as int) == samples@);
        lemma_pow128();
        if i > 0 {
            assert(hi < i) by (nonlinear_arith)
                requires
                    hi * pow128() + lo <= i * u128::MAX,
                    pow128() == u128::MAX + 1,
                    lo >= 0,
                    i > 0,
                    hi >= 0,
            ;
        }
    }
    (hi, lo)
}

/// Divides the 192-bit number `hi * 2^128 + lo` by `n`.
fn divide_wide(hi: u64, lo: u128, n: u64) -> (parts: (u128, u64))
    requires
        hi < n,
    ensures
        hi * pow128() + lo == parts.0 * n + parts.1,
        parts.1 < n,
{
    let base: u128 = 0x1_0000_0000_0000_0000;
    let upper: u128 = lo / base;
    let lower: u128 = lo % base;
    proof {
        assert(hi * base + upper < n * base) by (nonlinear_arith)
            requires
                hi < n,
                upper < base,
                base == 0x1_0000_0000_0000_0000,
        ;
        assert(n * base <= u64::MAX * base) by (nonlinear_arith)
            requires
                n <= u64::MAX,
                base == 0x1_0000_0000_0000_0000,
        ;
    }
    let first: u128 = (hi as u128) * base + upper;
    let q1: u128 = first / (n as u128);
    let r1: u128 = first % (n as u128);
    proof {
        assert(q1 < base) by (nonlinear_arith)
            requires
                first < n * base,
                q1 == first / (n as u128),
                n > 0,
        ;
        assert(r1 * base + lower < n * base) by (nonlinear_arith)
            requires
                r1 < n,
                lower < base,
                base == 0x1_0000_0000_0000_0000,
        ;
    }
    let second: u128 = r1 * base + lower;
    let q0: u128 = second / (n as u128);
    let r0: u128 = second % (n as u128);
    proof {
        assert(q0 < base) by (nonlinear_arith)
            requires
                second < n * base,
                q0 == second / (n as u128),
                n > 0,
        ;
        assert(q1 * base + q0 <= u128::MAX) by (nonlinear_arith)
            requires
                q1 < base,
                q0 < base,
                base == 0x1_0000_0000_0000_0000,
        ;
        assert(first == q1 * n + r1 && second == q0 * n + r0) by (nonlinear_arith)
            requires
                q1 == first / (n as u128),
                r1 == first % (n as u128),
                q0 == second / (n as u128),
                r0 == second % (n as u128),
                n > 0,
        ;
        assert(hi * pow128() + lo == (q1 * base + q0) * n + r0) by (nonlinear_arith)
            requires
                pow128() == base * base,
                lo == upper * base + lower,
                first == hi * base + upper,
                first == q1 * n + r1,
                second == r1 * base + lower,
                second == q0 * n + r0,
        ;
    }
    (q1 * base + q0, r0 as u64)
}

/// The square root of `value`, rounded down.
pub fn floor_sqrt(value: u128) -> (root: u64)
    ensures
        is_floor_sqrt(root as int, value as int),
{
    let mut low: u128 = 0;
    let mut high: u128 = 0x1_0000_0000_0000_0000;
    proof {
        lemma_pow128();
    }
    while high - low > 1
        invariant
            low < high <= 0x1_0000_0000_0000_0000,
            low * low <= value < high * high,
        decreases high - low,
    {
        let mid: u128 = low + (high - low) / 2;
        proof {
            assert(mid * mid <= u64::MAX * u64::MAX) by (nonlinear_arith)
                requires
                    0 <= mid <= u64::MAX,
            ;
            assert(u64::MAX * u64::MAX < u128::MAX) by (nonlinear_arith);
        }
        if mid * mid <= value {
            low = mid;
        } else {
            high = mid;
        }
    }
    low as u64
}

/// The floor of the variance, from the pieces that fit the machine:
/// the squared distances from the rounded mean, divided by the count with
/// remainder, and the remainder of the mean's own division.
proof fn lemma_variance_from_parts(s: Seq<u64>, center: int, rest: int, q: int, t: int)
    requires
        s.len() > 0,
        total(s) == s.len() * center + rest,
        0 <= rest < s.len(),
        deviation_total(s, center) == q * s.len() + t,
        0 <= t < s.len(),
    ensures
        s.len() * t >= rest * rest ==> variance(s) == q,
        s.len() * t < rest * rest ==> variance(s) == q - 1,
        variance(s) >= 0,
{
    let n = s.len() as int;
    let nn = n * n;
    lemma_spread_from_center(s, center);
    lemma_spread_nonnegative(s);
    let e = n * t - rest * rest;
    assert(spread(s) == q * nn + e) by (nonlinear_arith)
        requires
            spread(s) == n * (q * n + t) - rest * rest,
            nn == n * n,
            e == n * t - rest * rest,
    ;
    assert(-nn < e < nn) by (nonlinear_arith)
        requires
            e == n * t - rest * rest,
            nn == n * n,
            0 <= t < n,
            0 <= rest < n,
    ;
    assert(nn > 0) by (nonlinear_arith)
        requires
            nn == n * n,
            n > 0,
    ;
    if e >= 0 {
        lemma_fundamental_div_mod_converse(spread(s), nn, q, e);
    } else {
        assert(spread(s) == (q - 1) * nn + (nn + e)) by (nonlinear_arith)
            requires
                spread(s) == q * nn + e,
        ;
        lemma_fundamental_div_mod_converse(spread(s), nn, q - 1, nn + e);
    }
    assert(variance(s) >= 0) by (nonlinear_arith)
        requires
            spread(s) >= 0,
            nn > 0,
            variance(s) == spread(s) / nn,
    ;
}

/// Count, total, extremes, mean and population standard deviation of a
/// non-empty sample sequence. The mean and the standard deviation are rounded
/// down to whole units.
#[derive(Clone, Copy, Debug, PartialEq, Eq)]
pub struct Summary {
    pub count: usize,
    pub sum: u128,
    pub min: u64,
    pub max: u64,
    pub mean: u64,
    pub std_dev: u64,
}

impl Summary {
    /// What it means for a summary to be the summary of `s`.
    pub open spec fn describes(&self, s: Seq<u64>) -> bool {
        &&& s.len() > 0
        &&& self.count == s.len()
        &&& self.sum == total(s)
        &&& is_minimum(s, self.min)
        &&& is_maximum(s, self.max)
        &&& self.mean == mean(s)
        &&& is_floor_sqrt(self.std_dev as int, variance(s))
    }
}

/// A sample sequence has at most one summary.
pub proof fn lemma_summary_unique(a: Summary, b: Summary, s: Seq<u64>)
    requires
        a.describes(s),
        b.describes(s),
    ensures
        a == b,
{
    let i = choose|i: int| 0 <= i < s.len() && s[i] == a.min;
    let j = choose|j: int| 0 <= j < s.len() && s[j] == b.min;
    assert(a.min <= s[j] && b.min <= s[i]);
    let k = choose|k: int| 0 <= k < s.len() && s[k] == a.max;
    let l = choose|l: int| 0 <= l < s.len() && s[l] == b.max;
    assert(s[l] <= a.max && s[k] <= b.max);
    lemma_floor_sqrt_unique(a.std_dev as int, b.std_dev as int, variance(s));
}

/// A number has at most one rounded-down square root.
pub proof fn lemma_floor_sqrt_unique(a: int, b: int, value: int)
    requires
        is_floor_sqrt(a, value),
        is_floor_sqrt(b, value),
    ensures
        a == b,
{
    if a < b {
        assert((a + 1) * (a + 1) <= b * b) by (nonlinear_arith)
            requires
                0 <= a,
                a + 1 <= b,
        ;
    } else if b < a {
        assert((b + 1) * (b + 1) <= a * a) by (nonlinear_arith)
            requires
                0 <= b,
                b + 1 <= a,
        ;
    }
}

/// Summarizes the samples, or reports that there are none.
pub fn summarize(samples: &[u64]) -> (summary: Option<Summary>)
    ensures
        samples@.len() == 0 <==> summary is None,
        summary matches Some(v) ==> v.describes(samples@),
{
    let count = samples.len();
    if count == 0 {
        return None;
    }
    let n: u64 = count as u64;
    let sum = sum_of(samples);
    let (min, max) = extremes(samples);
    proof {
        lemma_total_bound(samples@);
        assert(sum / (n as u128) <= u64::MAX) by (nonlinear_arith)
            requires
                sum <= n * u64::MAX,
                n > 0,
        ;
    }
    let mean: u64 = (sum / (n as u128)) as u64;
    let rest: u128 = sum % (n as u128);
    let (hi, lo) = squared_distances(samples, mean);
    let (q, t) = divide_wide(hi, lo, n);
    proof {
        assert(sum == n * mean + rest) by (nonlinear_arith)
            requires
                mean == sum / (n as u128),
                rest == sum % (n as u128),
                n > 0,
        ;
        lemma_variance_from_parts(samples@, mean as int, rest as int, q as int, t as int);
        assert(n * t <= u64::MAX * u64::MAX && rest * rest <= u64::MAX * u64::MAX)
            by (nonlinear_arith)
            requires
                0 <= n <= u64::MAX,
                0 <= t <= u64::MAX,
                0 <= rest <= u64::MAX,
        ;
        assert(u64::MAX * u64::MAX < u128::MAX) by (nonlinear_arith);
    }
    let variance: u128 = if (n as u128) * (t as u128) >= rest * rest {
        q
    } else {
        q - 1
    };
    let std_dev = floor_sqrt(variance);
    Some(Summary { count, sum, min, max, mean, std_dev })
}

/// The samples in ascending order.
pub open spec fn ascending(s: Seq<u64>) -> Seq<u64> {
    s.sort_by(|a: u64, b: u64| a <= b)
}

/// The nearest-rank position of the quantile `numerator / denominator` among
/// `count` ordered samples: `ceil(numerator * count / denominator) - 1`, kept
/// within `0 ..= count - 1`.
pub open spec fn nearest_rank(numerator: int, denominator: int, count: int) -> int {
    let rank = (numerator * count + denominator - 1) / denominator;
    if rank < 1 {
        0
    } else if rank > count {
        count - 1
    } else {
        rank - 1
    }
}

/// Computes [`nearest_rank`].
pub fn rank_index(numerator: u64, denominator: u64, count: usize) -> (index: usize)
    requires
        denominator > 0,
        count > 0,
    ensures
        index == nearest_rank(numerator as int, denominator as int, count as int),
        index < count,
{
    proof {
        assert(numerator * count <= u64::MAX * u64::MAX) by (nonlinear_arith)
            requires
                0 <= numerator <= u64::MAX,
                0 <= count <= u64::MAX,
        ;
        assert(u64::MAX * u64::MAX + u64::MAX < u128::MAX) by (nonlinear_arith);
    }
    let scaled: u128 = (numerator as u128) * (count as u128) + (denominator as u128 - 1);
    let rank: u128 = scaled / (denominator as u128);
    if rank < 1 {
        0
    } else if rank > count as u128 {
        count - 1
    } else {
        (rank - 1) as usize
    }
}

/// Each element is at most the ones after it.
pub open spec fn is_ascending(s: Seq<u64>) -> bool {
    forall|i: int, j: int| 0 <= i < j < s.len() ==> s[i] <= s[j]
}

/// The samples in ascending order are ascending, and as many as before.
pub proof fn lemma_ascending_is_ascending(s: Seq<u64>)
    ensures
        is_ascending(ascending(s)),
        ascending(s).to_multiset() == s.to_multiset(),
        ascending(s).len() == s.len(),
{
    let leq = |a: u64, b: u64| a <= b;
    lemma_le_is_total();
    s.lemma_sort_by_ensures(leq);
    let sorted = ascending(s);
    assert forall|i: int, j: int| 0 <= i < j < sorted.len() implies sorted[i] <= sorted[j] by {
        assert(leq(sorted[i], sorted[j]));
    }
    to_multiset_len(sorted);
    to_multiset_len(s);
}

/// The order of integers is a total order.
proof fn lemma_le_is_total()
    ensures
        total_ordering(|a: u64, b: u64| a <= b),
{
}

/// The only ascending arrangement of the samples is `ascending`.
pub proof fn lemma_ascending_unique(s: Seq<u64>, arranged: Seq<u64>)
    requires
        is_ascending(arranged),
        arranged.to_multiset() == s.to_multiset(),
    ensures
        arranged == ascending(s),
        arranged.len() == s.len(),
{
    let leq = |a: u64, b: u64| a <= b;
    lemma_le_is_total();
    s.lemma_sort_by_ensures(leq);
    assert(sorted_by(arranged, leq));
    lemma_sorted_unique(arranged, ascending(s), leq);
    to_multiset_len(arranged);
    to_multiset_len(s);
}

/// The nearest rank is a position among the samples; the quantile zero is
/// at the first position and the quantile one at the last.
pub proof fn lemma_nearest_rank_bounds(numerator: int, denominator: int, count: int)
    requires
        0 <= numerator,
        0 < denominator,
        0 < count,
    ensures
        0 <= nearest_rank(numerator, denominator, count) < count,
        nearest_rank(0, denominator, count) == 0,
        nearest_rank(denominator, denominator, count) == count - 1,
{
    lemma_fundamental_div_mod_converse(denominator - 1, denominator, 0, denominator - 1);
    assert(0 * count == 0);
    assert(denominator * count + denominator - 1 == count * denominator + (denominator - 1))
        by (nonlinear_arith);
    lemma_fundamental_div_mod_converse(
        denominator * count + denominator - 1,
        denominator,
        count,
        denominator - 1,
    );
}

/// In ascending order the first sample is the smallest and the last the
/// largest: the percentile zero is the minimum, never a read outside the
/// samples, and the percentile one hundred is the maximum.
pub proof fn lemma_ascending_extremes(s: Seq<u64>)
    requires
        s.len() > 0,
    ensures
        ascending(s).len() == s.len(),
        is_minimum(s, ascending(s).first()),
        is_maximum(s, ascending(s).last()),
{
    let sorted = ascending(s);
    lemma_ascending_is_ascending(s);
    to_multiset_contains(sorted, sorted.first());
    to_multiset_contains(s, sorted.first());
    to_multiset_contains(sorted, sorted.last());
    to_multiset_contains(s, sorted.last());
    assert(sorted[0] == sorted.first() && sorted[sorted.len() - 1] == sorted.last());
    assert forall|i: int| 0 <= i < s.len() implies sorted.first() <= s[i] && s[i]
        <= sorted.last() by {
        to_multiset_contains(sorted, s[i]);
        to_multiset_contains(s, s[i]);
        assert(s.contains(s[i]));
        let k = choose|k: int| 0 <= k < sorted.len() && sorted[k] == s[i];
        assert(sorted[0] <= sorted[k] || k == 0);
        assert(sorted[k] <= sorted[sorted.len() - 1] || k == sorted.len() - 1);
    }
}

/// Merges two ascending sequences into one.
fn merge(left: &Vec<u64>, right: &Vec<u64>) -> (out: Vec<u64>)
    requires
        is_ascending(left@),
        is_ascending(right@),
    ensures
        is_ascending(out@),
        out@.to_multiset() == left@.to_multiset().add(right@.to_multiset()),
{
    let mut out: Vec<u64> = Vec::new();
    let mut i: usize = 0;
    let mut j: usize = 0;
    proof {
        broadcast use vstd::seq_lib::group_to_multiset_ensures;

        assert(left@.take(0) =~= Seq::<u64>::empty());
        assert(right@.take(0) =~= Seq::<u64>::empty());
        assert(out@ =~= Seq::<u64>::empty());
        assert(out@.to_multiset() =~= left@.take(0).to_multiset().add(
            right@.take(0).to_multiset(),
        ));
    }
    while i < left.len() || j < right.len()
        invariant
            i <= left@.len(),
            j <= right@.len(),
            is_ascending(left@),
            is_ascending(right@),
            is_ascending(out@),
            out@.to_multiset() == left@.take(i as int).to_multiset().add(
                right@.take(j as int).to_multiset(),
            ),
            forall|k: int|
                0 <= k < out@.len() ==> (i < left@.len() ==> #[trigger] out@[k] <= left@[i as int])
                    && (j < right@.len() ==> out@[k] <= right@[j as int]),
        decreases left@.len() - i + right@.len() - j,
    {
        let ghost before = out@;
        if j >= right.len() || (i < left.len() && left[i] <= right[j]) {
            let x = left[i];
            out.push(x);
            proof {
                assert(left@.take(i + 1) =~= left@.take(i as int).push(x));
                to_multiset_build(left@.take(i as int), x);
                to_multiset_build(before, x);
                assert(out@.to_multiset() =~= left@.take(i + 1).to_multiset().add(
                    right@.take(j as int).to_multiset(),
                ));
            }
            i = i + 1;
        } else {
            let x = right[j];
            out.push(x);
            proof {
                assert(right@.take(j + 1) =~= right@.take(j as int).push(x));
                to_multiset_build(right@.take(j as int), x);
                to_multiset_build(before, x);
                assert(out@.to_multiset() =~= left@.take(i as int).to_multiset().add(
                    right@.take(j + 1).to_multiset(),
                ));
            }
            j = j + 1;
        }
    }
    proof {
        assert(left@.take(i as int) =~= left@);
        assert(right@.take(j as int) =~= right@);
    }
    out
}

/// The samples in ascending order, by a merge sort.
pub fn sorted_copy(samples: &[u64]) -> (out: Vec<u64>)
    ensures
        out@ == ascending(samples@),
        out@.len() == samples@.len(),
    decreases samples@.len(),
{
    let count = samples.len();
    if count <= 1 {
        let out = slice_to_vec(samples);
        proof {
            lemma_ascending_unique(samples@, out@);
        }
        out
    } else {
        let middle = count / 2;
        let first = slice_subrange(samples, 0, middle);
        let second = slice_subrange(samples, middle, count);
        let left = sorted_copy(first);
        let right = sorted_copy(second);
        proof {
            lemma_ascending_is_ascending(first@);
            lemma_ascending_is_ascending(second@);
        }
        let out = merge(&left, &right);
        proof {
            assert(samples@ =~= first@ + second@);
            lemma_multiset_commutative(first@, second@);
            lemma_ascending_unique(samples@, out@);
        }
        out
    }
}

/// The sample at the nearest-rank position of the quantile
/// `numerator / denominator`, or nothing if there are no samples.
pub fn quantile(samples: &[u64], numerator: u64, denominator: u64) -> (value: Option<u64>)
    requires
        denominator > 0,
    ensures
        samples@.len() == 0 <==> value is None,
        value matches Some(v) ==> v == ascending(samples@)[nearest_rank(
            numerator as int,
            denominator as int,
            samples@.len() as int,
        )],
{
    if samples.len() == 0 {
        return None;
    }
    let working = sorted_copy(samples);
    let index = rank_index(numerator, denominator, working.len());
    Some(working[index])
}

} // verus!
