//! Logarithmic scaling of a daily count against the largest count of its series.
//!
//! The fraction of a count `v` in a series whose largest count is `m` is
//! `ln(v + 1) / ln(m + 1)`. A bucket of `n + 1` buckets is `n` times that fraction
//! rounded half away from zero and clamped to `[0, n]`. Since the logarithm is
//! increasing, `frac >= a / b` holds exactly when `(v + 1)^b >= (m + 1)^a`, so
//! every bucket is decided with integers only, without rounding error.
use vstd::prelude::*;
use crate::bignat::{lemma_power_positive, less_than, power, power_of};

verus! {

/// Number of height buckets above the lowest one.
pub const HEIGHT_STEPS: u8 = 7;

/// Number of color buckets above the lowest one.
pub const COLOR_STEPS: u8 = 4;

/// `ln(v + 1) / ln(m + 1) >= num / den`, for `m >= 1`.
pub open spec fn reaches(v: int, m: int, num: nat, den: nat) -> bool {
    power(v + 1, den) >= power(m + 1, num)
}

/// How many of the rounding thresholds `(2k - 1) / (2n)`, for `k` in `1..=upto`,
/// the fraction of `v` against `m` reaches.
pub open spec fn thresholds_reached(v: int, m: int, n: nat, upto: nat) -> nat
    decreases upto,
{
    if upto == 0 {
        0
    } else {
        thresholds_reached(v, m, n, (upto - 1) as nat) + if reaches(v, m, (2 * upto - 1) as nat, 2 * n) {
            1nat
        } else {
            0nat
        }
    }
}

/// `round(n * ln(v + 1) / ln(m + 1))` clamped to `[0, n]`; 0 when `m` is 0, where
/// the fraction has no finite value.
pub open spec fn bucket(v: int, m: int, n: nat) -> nat {
    if m == 0 {
        0
    } else {
        thresholds_reached(v, m, n, n)
    }
}

/// The glyph height of count `v` in a series whose largest count is `m`.
pub open spec fn height_index(v: int, m: int) -> nat {
    bucket(v, m, HEIGHT_STEPS as nat)
}

/// The color level of count `v` in a series whose largest count is `m`.
pub open spec fn color_index(v: int, m: int) -> nat {
    bucket(v, m, COLOR_STEPS as nat)
}

proof fn lemma_thresholds_at_most(v: int, m: int, n: nat, upto: nat)
    ensures
        thresholds_reached(v, m, n, upto) <= upto,
    decreases upto,
{
    if upto > 0 {
        lemma_thresholds_at_most(v, m, n, (upto - 1) as nat);
    }
}

/// A bucket never exceeds its top index.
pub proof fn lemma_bucket_bounded(v: int, m: int, n: nat)
    ensures
        bucket(v, m, n) <= n,
{
    lemma_thresholds_at_most(v, m, n, n);
}

proof fn lemma_power_monotone_base(x: int, y: int, e: nat)
    requires
        0 <= x <= y,
    ensures
        0 <= power(x, e) <= power(y, e),
    decreases e,
{
    if e > 0 {
        lemma_power_monotone_base(x, y, (e - 1) as nat);
        let px = power(x, (e - 1) as nat);
        let py = power(y, (e - 1) as nat);
        assert(0 <= x * px <= y * py) by (nonlinear_arith)
            requires
                0 <= x <= y,
                0 <= px <= py,
        ;
    }
}

proof fn lemma_thresholds_monotone(a: int, b: int, m: int, n: nat, upto: nat)
    requires
        0 <= a <= b,
    ensures
        thresholds_reached(a, m, n, upto) <= thresholds_reached(b, m, n, upto),
    decreases upto,
{
    if upto > 0 {
        lemma_thresholds_monotone(a, b, m, n, (upto - 1) as nat);
        lemma_power_monotone_base(a + 1, b + 1, 2 * n);
    }
}

/// A larger count never gets a lower bucket than a smaller one of the same series.
pub proof fn lemma_bucket_monotone(a: int, b: int, m: int, n: nat)
    requires
        0 <= a <= b,
    ensures
        bucket(a, m, n) <= bucket(b, m, n),
{
    lemma_thresholds_monotone(a, b, m, n, n);
}

proof fn lemma_power_monotone_exponent(b: int, e1: nat, e2: nat)
    requires
        b >= 1,
        e1 <= e2,
    ensures
        power(b, e1) <= power(b, e2),
    decreases e2,
{
    if e1 < e2 {
        lemma_power_monotone_exponent(b, e1, (e2 - 1) as nat);
        lemma_power_positive(b, e1);
        let p = power(b, (e2 - 1) as nat);
        assert(p <= b * p) by (nonlinear_arith)
            requires
                b >= 1,
                p >= power(b, e1),
                power(b, e1) >= 1,
        ;
    }
}

proof fn lemma_thresholds_all(m: int, n: nat, upto: nat)
    requires
        m >= 1,
        upto <= n,
    ensures
        thresholds_reached(m, m, n, upto) == upto,
    decreases upto,
{
    if upto > 0 {
        lemma_thresholds_all(m, n, (upto - 1) as nat);
        lemma_power_positive(m + 1, (2 * upto - 1) as nat);
        lemma_power_monotone_exponent(m + 1, (2 * upto - 1) as nat, 2 * n);
    }
}

/// A positive count equal to the largest count of its series gets the top bucket.
pub proof fn lemma_largest_is_top(m: int, n: nat)
    requires
        m >= 1,
    ensures
        bucket(m, m, n) == n,
{
    lemma_thresholds_all(m, n, n);
}

/// Whether `a^p >= b^q`.
fn power_at_least(a: u64, p: u8, b: u64, q: u8) -> (r: bool)
    requires
        a <= 0x1_0000_0000,
        b <= 0x1_0000_0000,
    ensures
        r == (power(a as int, p as nat) >= power(b as int, q as nat)),
{
    let x = power_of(a, p);
    let y = power_of(b, q);
    !less_than(&x, &y)
}

/// The bucket among `n + 1` of count `v` in a series whose largest count is `max`.
fn scaled_bucket(v: u32, max: u32, n: u8) -> (r: u8)
    requires
        n <= 100,
    ensures
        r == bucket(v as int, max as int, n as nat),
{
    if max == 0 {
        return 0;
    }
    let mut count: u8 = 0;
    let mut k: u8 = 0;
    while k < n
        invariant
            k <= n <= 100,
            max > 0,
            count == thresholds_reached(v as int, max as int, n as nat, k as nat),
        decreases n - k,
    {
        k = k + 1;
        proof {
            lemma_thresholds_at_most(v as int, max as int, n as nat, (k - 1) as nat);
        }
        if power_at_least(v as u64 + 1, 2 * n, max as u64 + 1, 2 * k - 1) {
            count = count + 1;
        }
    }
    count
}

/// The glyph height, `0..=7`, of count `v` in a series whose largest count is `max`.
pub fn height_index_of(v: u32, max: u32) -> (r: u8)
    ensures
        r == height_index(v as int, max as int),
        r <= HEIGHT_STEPS,
{
    proof {
        lemma_bucket_bounded(v as int, max as int, HEIGHT_STEPS as nat);
    }
    scaled_bucket(v, max, HEIGHT_STEPS)
}

/// The color level, `0..=4`, of count `v` in a series whose largest count is `max`.
pub fn color_index_of(v: u32, max: u32) -> (r: u8)
    ensures
        r == color_index(v as int, max as int),
        r <= COLOR_STEPS,
{
    proof {
        lemma_bucket_bounded(v as int, max as int, COLOR_STEPS as nat);
    }
    scaled_bucket(v, max, COLOR_STEPS)
}

} // verus!
