//! Statistics kernel over fixed-point values.
use vstd::prelude::*;

verus! {

/// Fixed-point unit: a percentage of 100% and a fraction of 1.0 are both `SCALE`,
/// so percentages are counted in hundredths of a percent.
pub const SCALE: u64 = 10_000;

/// The longest list the kernel accepts.
pub const MAX_LEN: usize = 0xffff_ffff;

/// The largest value the kernel accepts: room for the sum of `MAX_LEN`
/// full-scale percentages.
pub const MAX_VALUE: u64 = 0x7fff_ffff_ffff;

/// A list the kernel can work on without overflow.
pub open spec fn in_range(xs: Seq<u64>) -> bool {
    &&& xs.len() <= MAX_LEN
    &&& forall|i: int| 0 <= i < xs.len() ==> xs[i] <= MAX_VALUE
}

/// The sum of a sequence of values.
pub open spec fn sum(xs: Seq<u64>) -> int
    decreases xs.len(),
{
    if xs.len() == 0 {
        0
    } else {
        sum(xs.drop_last()) + xs.last()
    }
}

/// The arithmetic mean, rounded down; zero for an empty sequence.
pub open spec fn mean_of(xs: Seq<u64>) -> int {
    if xs.len() == 0 {
        0
    } else {
        sum(xs) / (xs.len() as int)
    }
}

pub proof fn lemma_sum_bounds(xs: Seq<u64>, lo: int, hi: int)
    requires
        forall|i: int| 0 <= i < xs.len() ==> lo <= #[trigger] xs[i] <= hi,
    ensures
        lo * xs.len() <= sum(xs) <= hi * xs.len(),
    decreases xs.len(),
{
    if xs.len() > 0 {
        let n = xs.len() as int;
        lemma_sum_bounds(xs.drop_last(), lo, hi);
        assert(hi * (n - 1) + hi == hi * n) by (nonlinear_arith);
        assert(lo * (n - 1) + lo == lo * n) by (nonlinear_arith);
    }
}

/// Sum of the values, accumulated exactly.
pub fn calculate_sum(scores: &Vec<u64>) -> (r: u128)
    requires
        in_range(scores@),
    ensures
        r == sum(scores@),
        r <= MAX_VALUE * scores@.len(),
{
    let n = scores.len();
    let mut total: u128 = 0;
    let mut i: usize = 0;
    while i < n
        invariant
            n == scores@.len(),
            in_range(scores@),
            i <= n,
            total == sum(scores@.take(i as int)),
        decreases n - i,
    {
        assert(scores@.take(i + 1).drop_last() == scores@.take(i as int));
        proof {
            lemma_sum_bounds(scores@.take(i as int), 0, MAX_VALUE as int);
            assert(MAX_VALUE * i <= MAX_VALUE * MAX_LEN) by (nonlinear_arith)
                requires i <= MAX_LEN;
        }
        total = total + scores[i] as u128;
        i = i + 1;
    }
    assert(scores@.take(n as int) == scores@);
    proof {
        lemma_sum_bounds(scores@, 0, MAX_VALUE as int);
    }
    total
}

/// Arithmetic mean of the values, rounded down; zero for an empty list.
pub fn calculate_mean(scores: &Vec<u64>) -> (r: u64)
    requires
        in_range(scores@),
    ensures
        r == mean_of(scores@),
{
    let n = scores.len();
    if n == 0 {
        return 0;
    }
    let total = calculate_sum(scores);
    proof {
        lemma_sum_bounds(scores@, 0, MAX_VALUE as int);
        assert(sum(scores@) / (n as int) <= MAX_VALUE) by (nonlinear_arith)
            requires sum(scores@) <= MAX_VALUE * n, n >= 1, sum(scores@) >= 0;
    }
    (total / (n as u128)) as u64
}


/// The sum of squared distances of the values from `m`.
pub open spec fn sq_dev_sum(xs: Seq<u64>, m: int) -> int
    decreases xs.len(),
{
    if xs.len() == 0 {
        0
    } else {
        sq_dev_sum(xs.drop_last(), m) + (xs.last() - m) * (xs.last() - m)
    }
}

/// Sample variance about `m` (denominator n - 1), rounded down; zero below two values.
pub open spec fn variance_about(xs: Seq<u64>, m: int) -> int {
    if xs.len() < 2 {
        0
    } else {
        sq_dev_sum(xs, m) / (xs.len() - 1)
    }
}

/// Sample variance about the (rounded-down) mean of the values.
pub open spec fn variance_of(xs: Seq<u64>) -> int {
    variance_about(xs, mean_of(xs))
}

/// `r` is the square root of `v`, rounded down.
pub open spec fn is_floor_sqrt(r: int, v: int) -> bool {
    0 <= r && r * r <= v < (r + 1) * (r + 1)
}

/// The square root of `v`, rounded down.
pub open spec fn root(v: int) -> int {
    choose|r: int| is_floor_sqrt(r, v)
}

/// A rounded-down square root is unique, so it is `root(v)`.
pub proof fn lemma_root_unique(r: int, v: int)
    requires
        is_floor_sqrt(r, v),
    ensures
        root(v) == r,
{
    let c = root(v);
    assert(is_floor_sqrt(c, v));
    if c < r {
        assert((c + 1) * (c + 1) <= r * r) by (nonlinear_arith)
            requires 0 <= c, c + 1 <= r;
    } else if c > r {
        assert((r + 1) * (r + 1) <= c * c) by (nonlinear_arith)
            requires 0 <= r, r + 1 <= c;
    }
}

proof fn lemma_sq_dev_sum_bound(xs: Seq<u64>, m: int, b: int)
    requires
        0 <= m <= b,
        forall|i: int| 0 <= i < xs.len() ==> #[trigger] xs[i] <= b,
    ensures
        0 <= sq_dev_sum(xs, m) <= xs.len() * (b * b),
    decreases xs.len(),
{
    if xs.len() > 0 {
        let n = xs.len() as int;
        let d = xs.last() - m;
        lemma_sq_dev_sum_bound(xs.drop_last(), m, b);
        assert(0 <= d * d <= b * b) by (nonlinear_arith)
            requires -b <= d <= b;
        assert((n - 1) * (b * b) + b * b == n * (b * b)) by (nonlinear_arith);
    }
}

/// Sample variance of values that are at most `b`, about a centre at most `b`,
/// is at most twice `b` squared.
pub proof fn lemma_variance_bound(xs: Seq<u64>, m: int, b: int)
    requires
        0 <= m <= b,
        forall|i: int| 0 <= i < xs.len() ==> #[trigger] xs[i] <= b,
    ensures
        0 <= variance_about(xs, m) <= 2 * (b * b),
{
    lemma_sq_dev_sum_bound(xs, m, b);
    if xs.len() >= 2 {
        let n = xs.len() as int;
        let q = sq_dev_sum(xs, m);
        assert(q / (n - 1) <= 2 * (b * b)) by (nonlinear_arith)
            requires 0 <= q <= n * (b * b), n >= 2;
        assert(q / (n - 1) >= 0) by (nonlinear_arith)
            requires 0 <= q, n >= 2;
    }
}

/// Mean of values at most `b` is at most `b`.
pub proof fn lemma_mean_bound(xs: Seq<u64>, b: int)
    requires
        forall|i: int| 0 <= i < xs.len() ==> #[trigger] xs[i] <= b,
    ensures
        0 <= mean_of(xs),
        xs.len() > 0 ==> mean_of(xs) <= b,
{
    if xs.len() > 0 {
        let n = xs.len() as int;
        lemma_sum_bounds(xs, 0, b);
        let s = sum(xs);
        assert(0 <= s / n <= b) by (nonlinear_arith)
            requires 0 <= s <= b * n, n >= 1;
    }
}

/// Sum of squared distances of the values from `mean`.
fn squared_deviation_sum(scores: &Vec<u64>, mean: u64) -> (r: u128)
    requires
        in_range(scores@),
        mean <= MAX_VALUE,
    ensures
        r == sq_dev_sum(scores@, mean as int),
{
    let n = scores.len();
    let mut acc: u128 = 0;
    let mut i: usize = 0;
    while i < n
        invariant
            n == scores@.len(),
            in_range(scores@),
            mean <= MAX_VALUE,
            i <= n,
            acc == sq_dev_sum(scores@.take(i as int), mean as int),
        decreases n - i,
    {
        assert(scores@.take(i + 1).drop_last() == scores@.take(i as int));
        let x = scores[i];
        let d: u64 = if x >= mean { x - mean } else { mean - x };
        proof {
            lemma_sq_dev_sum_bound(scores@.take(i as int), mean as int, MAX_VALUE as int);
            let b = MAX_VALUE as int;
            assert(i * (b * b) + b * b <= MAX_LEN * (b * b)) by (nonlinear_arith)
                requires i < MAX_LEN;
            assert(d * d <= b * b) by (nonlinear_arith)
                requires d <= b;
            assert((x - mean) * (x - mean) == d * d) by (nonlinear_arith)
                requires d == x - mean || d == mean - x;
        }
        acc = acc + (d as u128) * (d as u128);
        i = i + 1;
    }
    assert(scores@.take(n as int) == scores@);
    acc
}

/// Square root rounded down.
pub fn floor_sqrt(v: u128) -> (r: u64)
    ensures
        is_floor_sqrt(r as int, v as int),
{
    let mut lo: u128 = 0;
    let mut hi: u128 = 0x1_0000_0000_0000_0000;
    assert(v < hi * hi) by (nonlinear_arith)
        requires hi == 0x1_0000_0000_0000_0000int, v <= u128::MAX;
    while hi - lo > 1
        invariant
            lo < hi <= 0x1_0000_0000_0000_0000,
            lo * lo <= v,
            v < hi * hi,
        decreases hi - lo,
    {
        let mid = lo + (hi - lo) / 2;
        assert(mid * mid < 0x1_0000_0000_0000_0000_0000_0000_0000_0000) by (nonlinear_arith)
            requires mid < 0x1_0000_0000_0000_0000int, mid >= 0;
        if mid * mid <= v {
            lo = mid;
        } else {
            hi = mid;
        }
    }
    lo as u64
}

/// Sample standard deviation about the given mean: the square root of the
/// sample variance (denominator n - 1), both rounded down; zero below two values.
pub fn calculate_std_deviation(scores: &Vec<u64>, mean: u64) -> (r: u64)
    requires
        in_range(scores@),
        mean <= MAX_VALUE,
    ensures
        is_floor_sqrt(r as int, variance_about(scores@, mean as int)),
{
    let n = scores.len();
    if n < 2 {
        return 0;
    }
    let q = squared_deviation_sum(scores, mean);
    proof {
        lemma_sq_dev_sum_bound(scores@, mean as int, MAX_VALUE as int);
        assert(q as int / (n - 1) >= 0) by (nonlinear_arith)
            requires q >= 0, n >= 2;
        assert(q as int / (n - 1) <= q) by (nonlinear_arith)
            requires q >= 0, n >= 2;
    }
    floor_sqrt(q / ((n - 1) as u128))
}

/// Sample variance (denominator n - 1) about the rounded-down mean, itself
/// rounded down; zero below two values.
pub fn calculate_variance(scores: &Vec<u64>) -> (r: u128)
    requires
        in_range(scores@),
    ensures
        r == variance_of(scores@),
{
    let n = scores.len();
    if n < 2 {
        return 0;
    }
    let mean = calculate_mean(scores);
    proof {
        lemma_mean_bound(scores@, MAX_VALUE as int);
    }
    let q = squared_deviation_sum(scores, mean);
    proof {
        assert(q as int / (n - 1) >= 0) by (nonlinear_arith)
            requires q >= 0, n >= 2;
        assert(q as int / (n - 1) <= q) by (nonlinear_arith)
            requires q >= 0, n >= 2;
    }
    q / ((n - 1) as u128)
}


/// The sum of the values, each weighted by its position.
pub open spec fn weighted_sum(ys: Seq<u64>) -> int
    decreases ys.len(),
{
    if ys.len() == 0 {
        0
    } else {
        weighted_sum(ys.drop_last()) + (ys.len() - 1) * ys.last()
    }
}

/// Least-squares slope of the values against their positions 0..n-1,
/// rounded down: 12 * sum(i * y_i) - 6 * (n - 1) * sum(y_i), over n * (n^2 - 1).
/// Zero below two values.
pub open spec fn slope_of(ys: Seq<u64>) -> int {
    let n = ys.len() as int;
    if n < 2 {
        0
    } else {
        (12 * weighted_sum(ys) - 6 * (n - 1) * sum(ys)) / (n * (n - 1) * (n + 1))
    }
}

proof fn lemma_quotient_bound(x: int, n: int, m: int)
    requires
        0 <= x <= 6 * m * (n * (n - 1)),
        n >= 2,
        m >= 0,
    ensures
        0 <= x / (n * (n - 1) * (n + 1)) <= 2 * m,
{
    let p = n * (n - 1);
    let d = n * (n - 1) * (n + 1);
    assert(p > 0 && d == p * (n + 1) && d > 0) by (nonlinear_arith)
        requires n >= 2, p == n * (n - 1), d == n * (n - 1) * (n + 1);
    let q = x / d;
    vstd::arithmetic::div_mod::lemma_fundamental_div_mod(x, d);
    vstd::arithmetic::div_mod::lemma_div_pos_is_pos(x, d);
    assert(q * d <= x) by {
        vstd::arithmetic::div_mod::lemma_mod_pos_bound(x, d);
    }
    assert(q * (n + 1) <= 6 * m) by (nonlinear_arith)
        requires q * d <= x, x <= 6 * m * p, d == p * (n + 1), p > 0;
    assert(q <= 2 * m) by (nonlinear_arith)
        requires q * (n + 1) <= 6 * m, n >= 2, q >= 0;
}

/// Least-squares slope of the values against their positions, rounded down;
/// zero below two values.
pub fn linear_regression_slope(ys: &Vec<u64>) -> (r: i64)
    requires
        in_range(ys@),
    ensures
        r == slope_of(ys@),
        -2 * MAX_VALUE - 1 <= r <= 2 * MAX_VALUE,
{
    let n = ys.len();
    if n < 2 {
        return 0;
    }
    let ghost m = MAX_VALUE as int;
    let mut s: u128 = 0;
    let mut w: u128 = 0;
    let mut i: usize = 0;
    while i < n
        invariant
            n == ys@.len(),
            in_range(ys@),
            m == MAX_VALUE,
            i <= n,
            s == sum(ys@.take(i as int)),
            w == weighted_sum(ys@.take(i as int)),
            0 <= s <= m * i,
            0 <= 2 * w <= m * (i * (i - 1)),
        decreases n - i,
    {
        assert(ys@.take(i + 1).drop_last() == ys@.take(i as int));
        let y = ys[i];
        proof {
            assert(m * i + y <= m * (i + 1)) by (nonlinear_arith)
                requires y <= m;
            assert(0 <= i * y <= i * m) by (nonlinear_arith)
                requires 0 <= y <= m, i >= 0;
            assert(m * (i * (i - 1)) + 2 * (i * m) == m * ((i + 1) * i)) by (nonlinear_arith);
            assert(m * ((i + 1) * i) <= m * (MAX_LEN * MAX_LEN)) by (nonlinear_arith)
                requires i < MAX_LEN, m >= 0, i >= 0;
        }
        s = s + y as u128;
        w = w + (i as u128) * (y as u128);
        i = i + 1;
    }
    assert(ys@.take(n as int) == ys@);
    let nn = n as u128;
    proof {
        assert(nn * (nn - 1) <= MAX_LEN * MAX_LEN) by (nonlinear_arith)
            requires 2 <= nn <= MAX_LEN;
        assert(nn * (nn - 1) * (nn + 1) <= MAX_LEN * MAX_LEN * (MAX_LEN + 1)) by (nonlinear_arith)
            requires 2 <= nn <= MAX_LEN;
        assert(nn * (nn - 1) * (nn + 1) > 0) by (nonlinear_arith)
            requires 2 <= nn;
        assert(6 * (nn - 1) * s <= 6 * m * (nn * (nn - 1))) by (nonlinear_arith)
            requires 0 <= s <= m * nn, nn >= 2;
        assert(6 * m * (nn * (nn - 1)) <= 6 * m * (MAX_LEN * MAX_LEN)) by (nonlinear_arith)
            requires 2 <= nn <= MAX_LEN, m >= 0;
    }
    let den: u128 = nn * (nn - 1) * (nn + 1);
    let a: u128 = 12 * w;
    let b: u128 = 6 * (nn - 1) * s;
    if a >= b {
        let q = (a - b) / den;
        proof {
            assert(12 * w <= 6 * m * (nn * (nn - 1))) by (nonlinear_arith)
                requires 2 * w <= m * (nn * (nn - 1));
            lemma_quotient_bound((a - b) as int, nn as int, m);
        }
        q as i64
    } else {
        let d = b - a;
        let q = (d + den - 1) / den;
        proof {
            let x = a as int - b as int;
            let di = d as int;
            assert(6 * (nn - 1) * s <= 6 * m * (nn * (nn - 1)));
            let dn = den as int;
            let qi = q as int;
            lemma_quotient_bound(di, nn as int, m);
            let q0 = di / dn;
            vstd::arithmetic::div_mod::lemma_fundamental_div_mod(di, dn);
            vstd::arithmetic::div_mod::lemma_mod_pos_bound(di, dn);
            vstd::arithmetic::div_mod::lemma_fundamental_div_mod(di + dn - 1, dn);
            vstd::arithmetic::div_mod::lemma_mod_pos_bound(di + dn - 1, dn);
            let rr = (di + dn - 1) % dn;
            assert(qi == (di + dn - 1) / dn);
            assert(dn * qi + rr == di + dn - 1);
            assert(qi * dn >= di) by (nonlinear_arith)
                requires dn * qi + rr == di + dn - 1, rr < dn;
            assert(qi <= q0 + 1) by (nonlinear_arith)
                requires dn * qi + rr == di + dn - 1, rr >= 0, dn > 0,
                    dn * q0 + di % dn == di, di % dn < dn;
            assert(x == (-qi) * dn + (qi * dn - di)) by (nonlinear_arith)
                requires x == -di;
            vstd::arithmetic::div_mod::lemma_fundamental_div_mod_converse(
                x,
                dn,
                -qi,
                qi * dn - di,
            );
        }
        -(q as i64)
    }
}

/// Slope over the last `n` values, in their order; zero where fewer than `n`.
pub open spec fn recent_slope_of(scores: Seq<u64>, n: int) -> int {
    if scores.len() < n {
        0
    } else {
        slope_of(scores.subrange(scores.len() - n, scores.len() as int))
    }
}

/// Least-squares slope of the last `n` values, taken in their order; zero
/// where there are fewer than `n` values.
pub fn calculate_recent_slope(scores: &Vec<u64>, n: usize) -> (r: i64)
    requires
        in_range(scores@),
    ensures
        r == recent_slope_of(scores@, n as int),
{
    let len = scores.len();
    if len < n {
        return 0;
    }
    let mut recent: Vec<u64> = Vec::new();
    let mut i: usize = len - n;
    while i < len
        invariant
            len == scores@.len(),
            n <= len,
            len - n <= i <= len,
            recent@ == scores@.subrange(len - n, i as int),
        decreases len - i,
    {
        recent.push(scores[i]);
        i = i + 1;
    }
    linear_regression_slope(&recent)
}

/// The largest variance the reliability coefficient accepts.
pub const MAX_VARIANCE: u128 = 0x3fff_ffff_ffff_ffff_ffff_ffff_ffff;

/// The sum of a sequence of wide values.
pub open spec fn sum_wide(xs: Seq<u128>) -> int
    decreases xs.len(),
{
    if xs.len() == 0 {
        0
    } else {
        sum_wide(xs.drop_last()) + xs.last()
    }
}

/// Internal-consistency coefficient in units of `1 / SCALE`:
/// `k / (k - 1) * (1 - sum(item_variances) / total_variance)` clamped to `[0, 1]`,
/// with the bracket rounded down to a multiple of `1 / SCALE` first and the
/// product rounded down; zero when `k < 2` or the total variance is zero.
pub open spec fn consistency_of(item_variances: Seq<u128>, total_variance: int, k: int) -> int {
    let sv = sum_wide(item_variances);
    if k < 2 || total_variance == 0 || sv >= total_variance {
        0
    } else {
        let c = SCALE * (total_variance - sv) / total_variance;
        if k * c / (k - 1) >= SCALE {
            SCALE as int
        } else {
            k * c / (k - 1)
        }
    }
}

/// Internal-consistency reliability coefficient, in units of `1 / SCALE`,
/// clamped to `[0, SCALE]`.
pub fn internal_consistency(item_variances: &Vec<u128>, total_variance: u128, k: usize) -> (r: u64)
    requires
        item_variances@.len() <= MAX_LEN,
        forall|i: int| 0 <= i < item_variances@.len() ==> #[trigger] item_variances@[i] <= MAX_VALUE,
        total_variance <= MAX_VARIANCE,
    ensures
        r == consistency_of(item_variances@, total_variance as int, k as int),
        r <= SCALE,
{
    if k < 2 || total_variance == 0 {
        return 0;
    }
    let len = item_variances.len();
    let mut sv: u128 = 0;
    let mut i: usize = 0;
    while i < len
        invariant
            len == item_variances@.len(),
            len <= MAX_LEN,
            forall|j: int| 0 <= j < item_variances@.len() ==> #[trigger] item_variances@[j] <= MAX_VALUE,
            i <= len,
            sv == sum_wide(item_variances@.take(i as int)),
            sv <= i * MAX_VALUE,
        decreases len - i,
    {
        assert(item_variances@.take(i + 1).drop_last() == item_variances@.take(i as int));
        proof {
            assert(i * MAX_VALUE + MAX_VALUE <= MAX_LEN * MAX_VALUE) by (nonlinear_arith)
                requires i < MAX_LEN;
        }
        sv = sv + item_variances[i];
        i = i + 1;
    }
    assert(item_variances@.take(len as int) == item_variances@);
    if sv >= total_variance {
        return 0;
    }
    let tv = total_variance;
    proof {
        assert(0 <= (SCALE as int) * (tv - sv) / (tv as int) <= SCALE) by (nonlinear_arith)
            requires 0 < tv - sv <= tv;
    }
    let c: u128 = (SCALE as u128) * (tv - sv) / tv;
    let kk = k as u128;
    proof {
        assert(kk * c <= u64::MAX * SCALE) by (nonlinear_arith)
            requires kk <= u64::MAX, c <= SCALE;
    }
    let v = kk * c / (kk - 1);
    if v >= SCALE as u128 {
        SCALE
    } else {
        v as u64
    }
}


/// The mean of a non-empty list lies between any lower and any upper bound of
/// its values, so between its minimum and its maximum.
pub proof fn lemma_mean_within_range(xs: Seq<u64>, lo: int, hi: int)
    requires
        xs.len() > 0,
        forall|i: int| 0 <= i < xs.len() ==> lo <= #[trigger] xs[i] <= hi,
    ensures
        lo <= mean_of(xs) <= hi,
{
    let n = xs.len() as int;
    lemma_sum_bounds(xs, lo, hi);
    let s = sum(xs);
    assert(lo <= s / n <= hi) by (nonlinear_arith)
        requires lo * n <= s <= hi * n, n >= 1;
}

proof fn lemma_constant_sums(xs: Seq<u64>, x: int)
    requires
        forall|i: int| 0 <= i < xs.len() ==> #[trigger] xs[i] == x,
    ensures
        sum(xs) == x * xs.len(),
        sq_dev_sum(xs, x) == 0,
    decreases xs.len(),
{
    if xs.len() > 0 {
        let p = xs.drop_last();
        assert forall|i: int| 0 <= i < p.len() implies #[trigger] p[i] == x by {
            assert(p[i] == xs[i]);
        }
        lemma_constant_sums(p, x);
        assert(xs.last() == xs[xs.len() - 1]);
        assert(x * (xs.len() - 1) + x == x * xs.len()) by (nonlinear_arith);
    }
}

/// The sample standard deviation about the mean is zero for a list of fewer
/// than two values and for a list of identical values.
pub proof fn lemma_std_dev_zero(xs: Seq<u64>, r: int)
    requires
        xs.len() < 2 || forall|i: int, j: int|
            0 <= i < xs.len() && 0 <= j < xs.len() ==> #[trigger] xs[i] == #[trigger] xs[j],
        is_floor_sqrt(r, variance_about(xs, mean_of(xs))),
    ensures
        r == 0,
{
    if xs.len() >= 2 {
        let x = xs[0] as int;
        let n = xs.len() as int;
        assert forall|i: int| 0 <= i < xs.len() implies #[trigger] xs[i] == x by {
            assert(xs[i] == xs[0]);
        }
        lemma_constant_sums(xs, x);
        assert((x * n) / n == x) by (nonlinear_arith)
            requires n >= 1;
        assert(0int / (n - 1) == 0);
    }
    assert(r * r <= 0 ==> r == 0) by (nonlinear_arith)
        requires r >= 0;
}

proof fn lemma_sum_wide_nonneg(xs: Seq<u128>)
    ensures
        sum_wide(xs) >= 0,
    decreases xs.len(),
{
    if xs.len() > 0 {
        lemma_sum_wide_nonneg(xs.drop_last());
    }
}

/// The reliability coefficient always lies in `[0, SCALE]`, and is exactly
/// zero with fewer than two items or a zero total variance.
pub proof fn lemma_consistency_range(item_variances: Seq<u128>, total_variance: int, k: int)
    requires
        total_variance >= 0,
    ensures
        0 <= consistency_of(item_variances, total_variance, k) <= SCALE,
        k < 2 || total_variance == 0 ==> consistency_of(item_variances, total_variance, k) == 0,
{
    let sv = sum_wide(item_variances);
    let tv = total_variance;
    lemma_sum_wide_nonneg(item_variances);
    if !(k < 2 || tv == 0 || sv >= tv) {
        assert(0 <= (SCALE as int) * (tv - sv) / tv <= SCALE) by (nonlinear_arith)
            requires 0 < tv - sv <= tv;
        let c = (SCALE as int) * (tv - sv) / tv;
        assert(k * c / (k - 1) >= 0) by (nonlinear_arith)
            requires k >= 2, c >= 0;
    }
}

} // verus!
