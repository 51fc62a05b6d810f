//! Pure statistics over integer series: arithmetic mean, sample variance and
//! ordinary least-squares linear regression.  All series hold fixed-point
//! readings (tenths of a degree / tenths of a percent) or elapsed times, so
//! every computation is exact integer arithmetic.  The regression keeps its
//! sums exact and divides only once per result, so exact fits and constant
//! series are reproduced exactly; `mean` and `std_dev` each round their one
//! quotient toward zero as Rust's `/` does.

use vstd::prelude::*;

verus! {

use vstd::math::abs;

/// Longest series the statistics functions accept; far above any history
/// the window protocol can produce (capacity plus the transient overshoot),
/// and small enough to keep every exact sum in range.
pub const STAT_LEN_MAX: usize = 0x400;

/// Largest magnitude of an element fed to `mean`.
pub const MEAN_VAL_MAX: i64 = 0x200_0000_0000;

/// Largest magnitude of a series value (a temperature or a humidity
/// reading) fed to `std_dev`.
pub const SERIES_VAL_MAX: i64 = 0x10_0000;

/// Largest magnitude of a series value (an elapsed time in milliseconds, a
/// temperature or a humidity reading) fed to the regression.
pub const REG_VAL_MAX: i64 = 0x4000_0000;

/// Exact sum of a series.
pub open spec fn sum_of(s: Seq<i64>) -> int
    decreases s.len(),
{
    if s.len() == 0 {
        0
    } else {
        sum_of(s.drop_last()) + s.last()
    }
}

/// Integer division rounding toward zero, the quotient Rust's `/` computes.
/// Unspecified for `b == 0` (as spec division is).
pub open spec fn div_toward_zero(a: int, b: int) -> int {
    if (a < 0) <==> (b < 0) {
        (abs(a) / abs(b)) as int
    } else {
        -((abs(a) / abs(b)) as int)
    }
}

/// The arithmetic mean of a series, rounded toward zero; meaningful only for
/// a non-empty series.
pub open spec fn mean_of(s: Seq<i64>) -> int {
    div_toward_zero(sum_of(s), s.len() as int)
}

/// A series of bounded elements has a bounded sum.
pub proof fn lemma_sum_of_bounds(s: Seq<i64>, b: int)
    requires
        forall|i: int| 0 <= i < s.len() ==> -b <= #[trigger] s[i] <= b,
    ensures
        -(s.len() as int) * b <= sum_of(s) <= (s.len() as int) * b,
    decreases s.len(),
{
    if s.len() > 0 {
        let sl = s.drop_last();
        assert forall|i: int| 0 <= i < sl.len() implies -b <= #[trigger] sl[i] <= b by {
            assert(sl[i] == s[i]);
        }
        lemma_sum_of_bounds(sl, b);
        let n = s.len() as int;
        assert(sum_of(s) == sum_of(sl) + s.last());
        assert(-b <= s.last() <= b);
        assert(-(n - 1) * b <= sum_of(sl) <= (n - 1) * b);
        assert((n - 1) * b + b == n * b) by (nonlinear_arith);
        assert(-(n - 1) * b - b == -n * b) by (nonlinear_arith);
    }
}

/// A quotient is no larger in magnitude than `m` whenever the dividend is no
/// larger in magnitude than `m` times the divisor.
pub proof fn lemma_div_toward_zero_bound(a: int, b: int, m: int)
    requires
        b != 0,
        0 <= m,
        -(abs(b) as int) * m <= a <= abs(b) as int * m,
    ensures
        -m <= div_toward_zero(a, b) <= m,
{
    let aa = abs(a) as int;
    let bb = abs(b) as int;
    assert((-bb) * m == -(bb * m)) by (nonlinear_arith);
    assert(aa <= bb * m);
    vstd::arithmetic::div_mod::lemma_div_of0(bb);
    vstd::arithmetic::div_mod::lemma_div_is_ordered(0, aa, bb);
    vstd::arithmetic::div_mod::lemma_div_is_ordered(aa, bb * m, bb);
    vstd::arithmetic::div_mod::lemma_div_multiples_vanish(m, bb);
}

/// Truncating division reproduces an exact multiple: (k*c) / k == c for any
/// nonzero k.
pub proof fn lemma_div_exact(k: int, c: int)
    requires
        k != 0,
    ensures
        div_toward_zero(k * c, k) == c,
{
    vstd::arithmetic::div_mod::lemma_div_of0(abs(k) as int);
    if k > 0 {
        if c >= 0 {
            assert(k * c >= 0 && abs(k * c) as int == k * c) by (nonlinear_arith)
                requires
                    k > 0 && c >= 0,
            ;
            vstd::arithmetic::div_mod::lemma_div_multiples_vanish(c, k);
        } else {
            assert(k * c < 0 && abs(k * c) as int == k * (-c)) by (nonlinear_arith)
                requires
                    k > 0 && c < 0,
            ;
            vstd::arithmetic::div_mod::lemma_div_multiples_vanish(-c, k);
        }
    } else {
        if c >= 0 {
            assert(k * c <= 0 && abs(k * c) as int == (-k) * c) by (nonlinear_arith)
                requires
                    k < 0 && c >= 0,
            ;
            vstd::arithmetic::div_mod::lemma_div_multiples_vanish(c, -k);
        } else {
            assert(k * c > 0 && abs(k * c) as int == (-k) * (-c)) by (nonlinear_arith)
                requires
                    k < 0 && c < 0,
            ;
            vstd::arithmetic::div_mod::lemma_div_multiples_vanish(-c, -k);
        }
    }
}

/// The mean of a series of bounded elements is itself so bounded.
pub proof fn lemma_mean_of_bounds(s: Seq<i64>, b: int)
    requires
        s.len() > 0,
        0 <= b,
        forall|i: int| 0 <= i < s.len() ==> -b <= #[trigger] s[i] <= b,
    ensures
        -b <= mean_of(s) <= b,
{
    lemma_sum_of_bounds(s, b);
    assert(abs(s.len() as int) as int == s.len() as int);
    assert(-(abs(s.len() as int) as int) * b <= sum_of(s) <= abs(s.len() as int) as int * b);
    lemma_div_toward_zero_bound(sum_of(s), s.len() as int, b);
}

/// The sum of a constant series.
pub proof fn lemma_sum_of_constant(s: Seq<i64>, c: i64)
    requires
        forall|i: int| 0 <= i < s.len() ==> #[trigger] s[i] == c,
    ensures
        sum_of(s) == s.len() * c,
    decreases s.len(),
{
    if s.len() > 0 {
        let sl = s.drop_last();
        assert forall|i: int| 0 <= i < sl.len() implies #[trigger] sl[i] == c by {
            assert(sl[i] == s[i]);
        }
        lemma_sum_of_constant(sl, c);
        assert(s.last() == c);
        assert((s.len() - 1) * c + c == s.len() * c) by (nonlinear_arith);
    }
}

/// The mean of a constant series is that constant, exactly.
pub proof fn lemma_mean_of_constant(s: Seq<i64>, c: i64)
    requires
        s.len() > 0,
        forall|i: int| 0 <= i < s.len() ==> #[trigger] s[i] == c,
    ensures
        mean_of(s) == c,
{
    lemma_sum_of_constant(s, c);
    lemma_div_exact(s.len() as int, c as int);
    assert((s.len() as int) * (c as int) == s.len() * c) by (nonlinear_arith);
}

/// Exact sum of the squared deviations of a series from `m`.
pub open spec fn sq_dev_sum_of(s: Seq<i64>, m: i64) -> int
    decreases s.len(),
{
    if s.len() == 0 {
        0
    } else {
        sq_dev_sum_of(s.drop_last(), m) + (s.last() - m) * (s.last() - m)
    }
}

/// Sample variance of a series around `m`, with denominator `n - 1` and the
/// quotient rounded toward zero; meaningful only for at least two elements.
pub open spec fn variance_of(s: Seq<i64>, m: i64) -> int {
    div_toward_zero(sq_dev_sum_of(s, m), s.len() as int - 1)
}

/// A sum of squared deviations is nonnegative, and bounded once the elements
/// and the centre are.
pub proof fn lemma_sq_dev_sum_of_bounds(s: Seq<i64>, m: i64, b: int)
    requires
        0 <= b,
        -b <= m <= b,
        forall|i: int| 0 <= i < s.len() ==> -b <= #[trigger] s[i] <= b,
    ensures
        0 <= sq_dev_sum_of(s, m) <= (s.len() as int) * (4 * b * b),
    decreases s.len(),
{
    if s.len() > 0 {
        let sl = s.drop_last();
        assert forall|i: int| 0 <= i < sl.len() implies -b <= #[trigger] sl[i] <= b by {
            assert(sl[i] == s[i]);
        }
        lemma_sq_dev_sum_of_bounds(sl, m, b);
        let n = s.len() as int;
        let d = s.last() - m;
        assert(-b <= s.last() <= b);
        assert(0 <= d * d <= 4 * b * b) by (nonlinear_arith)
            requires
                -2 * b <= d <= 2 * b,
        ;
        assert((n - 1) * (4 * b * b) + 4 * b * b == n * (4 * b * b)) by (nonlinear_arith);
    }
}

/// A series of identical values has zero squared deviation from that value.
pub proof fn lemma_sq_dev_sum_of_constant(s: Seq<i64>, c: i64)
    requires
        forall|i: int| 0 <= i < s.len() ==> #[trigger] s[i] == c,
    ensures
        sq_dev_sum_of(s, c) == 0,
    decreases s.len(),
{
    if s.len() > 0 {
        let sl = s.drop_last();
        assert forall|i: int| 0 <= i < sl.len() implies #[trigger] sl[i] == c by {
            assert(sl[i] == s[i]);
        }
        lemma_sq_dev_sum_of_constant(sl, c);
        assert(s.last() == c);
    }
}

/// Sample variance of `values` around the given centre `mean`, using
/// denominator `n - 1`.  Returns no value for a series of fewer than two
/// elements, whose sample variance is undefined.
pub fn std_dev(values: &[i64], mean: i64) -> (r: Option<i64>)
    requires
        values@.len() <= STAT_LEN_MAX,
        -SERIES_VAL_MAX <= mean <= SERIES_VAL_MAX,
        forall|i: int| 0 <= i < values@.len() ==> -SERIES_VAL_MAX <= #[trigger] values@[i]
            <= SERIES_VAL_MAX,
    ensures
        r is Some <==> values@.len() >= 2,
        r is Some ==> r->0 == variance_of(values@, mean),
{
    if values.len() < 2 {
        return None;
    }
    let n: usize = values.len();
    let mut sum: i64 = 0;
    let mut i: usize = 0;
    while i < n
        invariant
            2 <= n == values@.len() <= STAT_LEN_MAX,
            i <= n,
            -SERIES_VAL_MAX <= mean <= SERIES_VAL_MAX,
            forall|j: int| 0 <= j < values@.len() ==> -SERIES_VAL_MAX <= #[trigger] values@[j]
                <= SERIES_VAL_MAX,
            sum == sq_dev_sum_of(values@.subrange(0, i as int), mean),
            0 <= sum <= (i as int) * 0x400_0000_0000,
        decreases n - i,
    {
        let d: i64 = values[i] - mean;
        proof {
            assert(0 <= d * d <= 0x400_0000_0000) by (nonlinear_arith)
                requires
                    -0x20_0000 <= d <= 0x20_0000,
            ;
            assert(values@.subrange(0, i as int + 1).drop_last() =~= values@.subrange(
                0,
                i as int,
            ));
        }
        sum = sum + d * d;
        i = i + 1;
    }
    proof {
        assert(values@.subrange(0, n as int) =~= values@);
    }
    Some(sum / ((n - 1) as i64))
}

/// Arithmetic mean over a non-empty series: exact summation, then a single
/// division.  Returns no value for an empty series.
pub fn mean(values: &[i64]) -> (r: Option<i64>)
    requires
        values@.len() <= STAT_LEN_MAX,
        forall|i: int| 0 <= i < values@.len() ==> -MEAN_VAL_MAX <= #[trigger] values@[i]
            <= MEAN_VAL_MAX,
    ensures
        r is Some <==> values@.len() > 0,
        r is Some ==> r->0 == mean_of(values@),
{
    if values.len() == 0 {
        return None;
    }
    let n: usize = values.len();
    let mut sum: i64 = 0;
    let mut i: usize = 0;
    while i < n
        invariant
            0 < n == values@.len() <= STAT_LEN_MAX,
            i <= n,
            forall|j: int| 0 <= j < values@.len() ==> -MEAN_VAL_MAX <= #[trigger] values@[j]
                <= MEAN_VAL_MAX,
            sum == sum_of(values@.subrange(0, i as int)),
            -(i as int) * (MEAN_VAL_MAX as int) <= sum <= (i as int) * (MEAN_VAL_MAX as int),
        decreases n - i,
    {
        proof {
            lemma_sum_of_bounds(values@.subrange(0, i as int), MEAN_VAL_MAX as int);
            assert(values@.subrange(0, i as int + 1).drop_last() =~= values@.subrange(
                0,
                i as int,
            ));
        }
        sum = sum + values[i];
        i = i + 1;
    }
    proof {
        assert(values@.subrange(0, n as int) =~= values@);
    }
    Some(sum / (n as i64))
}

/// Elementwise products of two equally long series.
pub open spec fn products_of(xs: Seq<i64>, ys: Seq<i64>) -> Seq<i64> {
    Seq::new(xs.len(), |i: int| (xs[i] * ys[i]) as i64)
}

/// n*sum(x*x) - sum(x)^2: n^2 times the variance of the series, kept as an
/// exact integer; zero for degenerate input such as identical values.
pub open spec fn reg_den_of(xs: Seq<i64>) -> int {
    xs.len() * sum_of(products_of(xs, xs)) - sum_of(xs) * sum_of(xs)
}

/// n*sum(x*y) - sum(x)*sum(y): n^2 times the covariance of the paired
/// series, the exact numerator of the least-squares slope.
pub open spec fn reg_num_of(xs: Seq<i64>, ys: Seq<i64>) -> int {
    xs.len() * sum_of(products_of(xs, ys)) - sum_of(xs) * sum_of(ys)
}

/// Ordinary least squares over paired series:
/// slope = (mean(x*y) - mean(x)*mean(y)) / (mean(x*x) - mean(x)^2),
/// intercept = mean(y) - slope*mean(x), each computed from exact integer
/// sums and truncated toward zero by one final division.  No value for empty
/// series or when the denominator n*sum(x*x) - sum(x)^2 is zero (degenerate
/// input, e.g. all x-values identical).
pub open spec fn regression_of(xs: Seq<i64>, ys: Seq<i64>) -> Option<(int, int)> {
    if xs.len() == 0 {
        None
    } else {
        let den = reg_den_of(xs);
        if den == 0 {
            None
        } else {
            let num = reg_num_of(xs, ys);
            let slope = div_toward_zero(num, den);
            let intercept = div_toward_zero(
                sum_of(ys) * den - num * sum_of(xs),
                xs.len() * den,
            );
            Some((slope, intercept))
        }
    }
}

/// The least-squares line over (xs, ys) evaluated at time t: the exact
/// rational value mean(y) + slope*(t - mean(x)), truncated toward zero only
/// once, so exact fits and constant series are reproduced exactly.
/// Meaningful only when the regression denominator is nonzero.
pub open spec fn extrapolate_at(xs: Seq<i64>, ys: Seq<i64>, t: int) -> int {
    let den = reg_den_of(xs);
    let num = reg_num_of(xs, ys);
    div_toward_zero(sum_of(ys) * den + num * (xs.len() * t - sum_of(xs)), xs.len() * den)
}

/// Identical x-values make the regression denominator zero, so such input
/// is refused as degenerate, whatever the paired values are.
pub proof fn lemma_regression_degenerate(xs: Seq<i64>, ys: Seq<i64>, c: i64)
    requires
        -REG_VAL_MAX <= c <= REG_VAL_MAX,
        forall|i: int| 0 <= i < xs.len() ==> #[trigger] xs[i] == c,
    ensures
        reg_den_of(xs) == 0,
        xs.len() > 0 ==> regression_of(xs, ys) is None,
{
    lemma_sum_of_constant(xs, c);
    lemma_sum_products_constant(xs, xs, c);
    let n = xs.len() as int;
    assert(n * (c * (n * c)) - (n * c) * (n * c) == 0) by (nonlinear_arith);
}

/// Sum of products against a constant right-hand series.
pub proof fn lemma_sum_products_constant(xs: Seq<i64>, ys: Seq<i64>, c: i64)
    requires
        xs.len() == ys.len(),
        -REG_VAL_MAX <= c <= REG_VAL_MAX,
        forall|i: int| 0 <= i < xs.len() ==> -REG_VAL_MAX <= #[trigger] xs[i] <= REG_VAL_MAX,
        forall|i: int| 0 <= i < ys.len() ==> #[trigger] ys[i] == c,
    ensures
        sum_of(products_of(xs, ys)) == c * sum_of(xs),
    decreases xs.len(),
{
    if xs.len() == 0 {
        assert(products_of(xs, ys) =~= Seq::<i64>::empty());
        assert(c * sum_of(xs) == 0) by (nonlinear_arith)
            requires
                sum_of(xs) == 0,
        ;
    } else {
        let xl = xs.drop_last();
        let yl = ys.drop_last();
        assert forall|i: int| 0 <= i < xl.len() implies -REG_VAL_MAX <= #[trigger] xl[i]
            <= REG_VAL_MAX by {
            assert(xl[i] == xs[i]);
        }
        assert forall|i: int| 0 <= i < yl.len() implies #[trigger] yl[i] == c by {
            assert(yl[i] == ys[i]);
        }
        lemma_sum_products_constant(xl, yl, c);
        assert(products_of(xs, ys).drop_last() =~= products_of(xl, yl));
        assert(-0x1000_0000_0000_0000 <= xs.last() * c <= 0x1000_0000_0000_0000)
            by (nonlinear_arith)
            requires
                -0x4000_0000 <= xs.last() <= 0x4000_0000,
                -0x4000_0000 <= c <= 0x4000_0000,
        ;
        assert(products_of(xs, ys).last() == (xs.last() * ys.last()) as i64);
        assert((xs.last() * c) as i64 == xs.last() * c);
        assert(c * sum_of(xl) + xs.last() * c == c * (sum_of(xl) + xs.last()))
            by (nonlinear_arith);
    }
}

/// A constant series extrapolates to itself at every time: the slope
/// numerator vanishes and the single final division is exact.
pub proof fn lemma_extrapolate_constant(xs: Seq<i64>, ys: Seq<i64>, c: i64, t: int)
    requires
        xs.len() == ys.len(),
        xs.len() >= 1,
        -REG_VAL_MAX <= c <= REG_VAL_MAX,
        forall|i: int| 0 <= i < xs.len() ==> -REG_VAL_MAX <= #[trigger] xs[i] <= REG_VAL_MAX,
        forall|i: int| 0 <= i < ys.len() ==> #[trigger] ys[i] == c,
        reg_den_of(xs) != 0,
    ensures
        extrapolate_at(xs, ys, t) == c,
{
    let n = xs.len() as int;
    let sx = sum_of(xs);
    let den = reg_den_of(xs);
    lemma_sum_of_constant(ys, c);
    lemma_sum_products_constant(xs, ys, c);
    assert(reg_num_of(xs, ys) == 0) by (nonlinear_arith)
        requires
            reg_num_of(xs, ys) == n * (c * sx) - sx * (n * c),
    ;
    assert((n * c) * den + 0 * (n * t - sx) == (n * den) * c) by (nonlinear_arith);
    assert(n * den != 0) by (nonlinear_arith)
        requires
            n >= 1 && den != 0,
    ;
    lemma_div_exact(n * den, c as int);
}

/// Exact sums of two bounded paired series and of their products, all well
/// within 128-bit range.
pub proof fn lemma_reg_sums_bounds(xs: Seq<i64>, ys: Seq<i64>)
    requires
        xs.len() == ys.len(),
        xs.len() <= STAT_LEN_MAX,
        forall|i: int| 0 <= i < xs.len() ==> -REG_VAL_MAX <= #[trigger] xs[i] <= REG_VAL_MAX,
        forall|i: int| 0 <= i < ys.len() ==> -REG_VAL_MAX <= #[trigger] ys[i] <= REG_VAL_MAX,
    ensures
        -0x100_0000_0000 <= sum_of(xs) <= 0x100_0000_0000,
        -0x100_0000_0000 <= sum_of(ys) <= 0x100_0000_0000,
        -0x40_0000_0000_0000_0000 <= sum_of(products_of(xs, ys)) <= 0x40_0000_0000_0000_0000,
{
    lemma_sum_of_bounds(xs, REG_VAL_MAX as int);
    lemma_sum_of_bounds(ys, REG_VAL_MAX as int);
    let ps = products_of(xs, ys);
    assert forall|i: int| 0 <= i < ps.len() implies -0x1000_0000_0000_0000 <= #[trigger] ps[i]
        <= 0x1000_0000_0000_0000 by {
        assert(-0x1000_0000_0000_0000 <= xs[i] * ys[i] <= 0x1000_0000_0000_0000)
            by (nonlinear_arith)
            requires
                -0x4000_0000 <= xs[i] <= 0x4000_0000,
                -0x4000_0000 <= ys[i] <= 0x4000_0000,
        ;
        assert(ps[i] == (xs[i] * ys[i]) as i64);
    }
    lemma_sum_of_bounds(ps, 0x1000_0000_0000_0000);
}

/// Exact 128-bit sum of a bounded series.
pub(crate) fn sum_exact(values: &[i64]) -> (r: i128)
    requires
        values@.len() <= STAT_LEN_MAX,
        forall|i: int| 0 <= i < values@.len() ==> -REG_VAL_MAX <= #[trigger] values@[i]
            <= REG_VAL_MAX,
    ensures
        r == sum_of(values@),
{
    let n: usize = values.len();
    let mut sum: i128 = 0;
    let mut i: usize = 0;
    while i < n
        invariant
            n == values@.len() <= STAT_LEN_MAX,
            i <= n,
            forall|j: int| 0 <= j < values@.len() ==> -REG_VAL_MAX <= #[trigger] values@[j]
                <= REG_VAL_MAX,
            sum == sum_of(values@.subrange(0, i as int)),
            -(i as int) * (REG_VAL_MAX as int) <= sum <= (i as int) * (REG_VAL_MAX as int),
        decreases n - i,
    {
        proof {
            assert(values@.subrange(0, i as int + 1).drop_last() =~= values@.subrange(
                0,
                i as int,
            ));
        }
        sum = sum + (values[i] as i128);
        i = i + 1;
    }
    proof {
        assert(values@.subrange(0, n as int) =~= values@);
    }
    sum
}

/// Exact 128-bit sum of the elementwise products of two bounded series.
pub(crate) fn sum_products_exact(xs: &[i64], ys: &[i64]) -> (r: i128)
    requires
        xs@.len() == ys@.len(),
        xs@.len() <= STAT_LEN_MAX,
        forall|i: int| 0 <= i < xs@.len() ==> -REG_VAL_MAX <= #[trigger] xs@[i] <= REG_VAL_MAX,
        forall|i: int| 0 <= i < ys@.len() ==> -REG_VAL_MAX <= #[trigger] ys@[i] <= REG_VAL_MAX,
    ensures
        r == sum_of(products_of(xs@, ys@)),
{
    let n: usize = xs.len();
    let ghost ps = products_of(xs@, ys@);
    let mut sum: i128 = 0;
    let mut i: usize = 0;
    while i < n
        invariant
            n == xs@.len() == ys@.len(),
            n <= STAT_LEN_MAX,
            i <= n,
            ps == products_of(xs@, ys@),
            forall|j: int| 0 <= j < xs@.len() ==> -REG_VAL_MAX <= #[trigger] xs@[j]
                <= REG_VAL_MAX,
            forall|j: int| 0 <= j < ys@.len() ==> -REG_VAL_MAX <= #[trigger] ys@[j]
                <= REG_VAL_MAX,
            sum == sum_of(ps.subrange(0, i as int)),
            -(i as int) * 0x1000_0000_0000_0000 <= sum <= (i as int) * 0x1000_0000_0000_0000,
        decreases n - i,
    {
        proof {
            assert(-0x1000_0000_0000_0000 <= xs@[i as int] * ys@[i as int]
                <= 0x1000_0000_0000_0000) by (nonlinear_arith)
                requires
                    -0x4000_0000 <= xs@[i as int] <= 0x4000_0000,
                    -0x4000_0000 <= ys@[i as int] <= 0x4000_0000,
            ;
            assert(ps[i as int] == (xs@[i as int] * ys@[i as int]) as i64);
            assert(ps.subrange(0, i as int + 1).drop_last() =~= ps.subrange(0, i as int));
        }
        let p: i128 = (xs[i] as i128) * (ys[i] as i128);
        sum = sum + p;
        i = i + 1;
    }
    proof {
        assert(ps.subrange(0, n as int) =~= ps);
    }
    sum
}

/// Truncating 128-bit division, defined for every nonzero divisor.
pub(crate) fn div_trunc(a: i128, b: i128) -> (r: i128)
    requires
        b != 0,
        -0x4000_0000_0000_0000_0000_0000_0000_0000 <= a <= 0x4000_0000_0000_0000_0000_0000_0000_0000,
        -0x4000_0000_0000_0000_0000_0000_0000_0000 <= b <= 0x4000_0000_0000_0000_0000_0000_0000_0000,
    ensures
        r as int == div_toward_zero(a as int, b as int),
{
    let a2: i128 = if b < 0 {
        -a
    } else {
        a
    };
    let b2: i128 = if b < 0 {
        -b
    } else {
        b
    };
    proof {
        assert(abs(-(a as int)) == abs(a as int));
        assert(abs(-(b as int)) == abs(b as int));
        assert(div_toward_zero(a2 as int, b2 as int) == div_toward_zero(a as int, b as int));
    }
    a2 / b2
}

/// Ordinary least-squares linear regression over paired series of equal
/// length, from exact integer sums with one truncating division per
/// component.  Returns no value for empty input or a zero denominator
/// (degenerate input); callers treat the absence as "no prediction
/// available".
pub fn linear_regression(xs: &[i64], ys: &[i64]) -> (r: Option<(i128, i128)>)
    requires
        xs@.len() == ys@.len(),
        xs@.len() <= STAT_LEN_MAX,
        forall|i: int| 0 <= i < xs@.len() ==> -REG_VAL_MAX <= #[trigger] xs@[i] <= REG_VAL_MAX,
        forall|i: int| 0 <= i < ys@.len() ==> -REG_VAL_MAX <= #[trigger] ys@[i] <= REG_VAL_MAX,
    ensures
        r is Some <==> regression_of(xs@, ys@) is Some,
        r is Some ==> Some((((r->0).0 as int, (r->0).1 as int))) == regression_of(xs@, ys@),
{
    let n: usize = xs.len();
    if n == 0 {
        return None;
    }
    let sx: i128 = sum_exact(xs);
    let sy: i128 = sum_exact(ys);
    let sxy: i128 = sum_products_exact(xs, ys);
    let sxx: i128 = sum_products_exact(xs, xs);
    let nn: i128 = n as i128;
    proof {
        lemma_reg_sums_bounds(xs@, ys@);
        lemma_reg_sums_bounds(xs@, xs@);
        assert(-0x1_0000_0000_0000_0000_0000 <= nn * sxx <= 0x1_0000_0000_0000_0000_0000
            && -0x1_0000_0000_0000_0000_0000 <= nn * sxy <= 0x1_0000_0000_0000_0000_0000
            && -0x1_0000_0000_0000_0000_0000 <= sx * sx <= 0x1_0000_0000_0000_0000_0000
            && -0x1_0000_0000_0000_0000_0000 <= sx * sy <= 0x1_0000_0000_0000_0000_0000)
            by (nonlinear_arith)
            requires
                0 < nn <= 0x400,
                -0x40_0000_0000_0000_0000 <= sxx <= 0x40_0000_0000_0000_0000,
                -0x40_0000_0000_0000_0000 <= sxy <= 0x40_0000_0000_0000_0000,
                -0x100_0000_0000 <= sx <= 0x100_0000_0000,
                -0x100_0000_0000 <= sy <= 0x100_0000_0000,
        ;
    }
    let den: i128 = nn * sxx - sx * sx;
    if den == 0 {
        return None;
    }
    let num: i128 = nn * sxy - sx * sy;
    proof {
        assert(-0x400_0000_0000_0000_0000_0000_0000_0000 <= sy * den
            <= 0x400_0000_0000_0000_0000_0000_0000_0000
            && -0x400_0000_0000_0000_0000_0000_0000_0000 <= num * sx
            <= 0x400_0000_0000_0000_0000_0000_0000_0000
            && -0x800_0000_0000_0000_0000_0000 <= nn * den <= 0x800_0000_0000_0000_0000_0000
            && nn * den != 0) by (nonlinear_arith)
            requires
                0 < nn <= 0x400,
                den != 0,
                -0x2_0000_0000_0000_0000_0000 <= den <= 0x2_0000_0000_0000_0000_0000,
                -0x2_0000_0000_0000_0000_0000 <= num <= 0x2_0000_0000_0000_0000_0000,
                -0x100_0000_0000 <= sx <= 0x100_0000_0000,
                -0x100_0000_0000 <= sy <= 0x100_0000_0000,
        ;
    }
    let slope: i128 = div_trunc(num, den);
    let intercept: i128 = div_trunc(sy * den - num * sx, nn * den);
    Some((slope, intercept))
}

} // verus!
