use vstd::prelude::*;

use crate::histogram::Histogram;

verus! {

/// Most points a background regression accepts, so that its exact sums fit in `i128`.
pub const MAX_POINTS: usize = 2048;

/// Largest magnitude of an x value handed to the regression (`2^35`).
pub const MAX_ABS_X: i64 = 34359738368;

/// Largest magnitude of a y value handed to the regression (`2^32`).
pub const MAX_ABS_Y: i64 = 4294967296;

/// Why no background line could be fitted.
#[derive(Debug, Clone, Copy, PartialEq, Eq, Structural)]
pub enum BackgroundError {
    /// Fewer than two points, or x and y values of different lengths.
    NoBackgroundData,
    /// `n * sum(x^2) - sum(x)^2 == 0`: all x values coincide.
    SingularFit,
}

/// `sum(xs[0..n])`
pub open spec fn sum_x(xs: Seq<i64>, n: nat) -> int
    decreases n,
{
    if n == 0 {
        0
    } else {
        sum_x(xs, (n - 1) as nat) + xs[n - 1]
    }
}

/// `sum(xs[i]^2 for i < n)`
pub open spec fn sum_xx(xs: Seq<i64>, n: nat) -> int
    decreases n,
{
    if n == 0 {
        0
    } else {
        sum_xx(xs, (n - 1) as nat) + xs[n - 1] * xs[n - 1]
    }
}

/// `sum(xs[i] * ys[i] for i < n)`
pub open spec fn sum_xy(xs: Seq<i64>, ys: Seq<i64>, n: nat) -> int
    decreases n,
{
    if n == 0 {
        0
    } else {
        sum_xy(xs, ys, (n - 1) as nat) + xs[n - 1] * ys[n - 1]
    }
}

/// Least-squares denominator `n * sum(x^2) - sum(x)^2`.
pub open spec fn ls_den(xs: Seq<i64>) -> int {
    xs.len() * sum_xx(xs, xs.len()) - sum_x(xs, xs.len()) * sum_x(xs, xs.len())
}

/// Least-squares slope times the denominator: `n * sum(xy) - sum(x) * sum(y)`.
pub open spec fn ls_slope_num(xs: Seq<i64>, ys: Seq<i64>) -> int {
    xs.len() * sum_xy(xs, ys, xs.len()) - sum_x(xs, xs.len()) * sum_x(ys, xs.len())
}

/// Least-squares intercept times the denominator:
/// `sum(y) * sum(x^2) - sum(x) * sum(xy)`.
pub open spec fn ls_intercept_num(xs: Seq<i64>, ys: Seq<i64>) -> int {
    sum_x(ys, xs.len()) * sum_xx(xs, xs.len()) - sum_x(xs, xs.len()) * sum_xy(xs, ys, xs.len())
}

/// The line `y = (slope_num * x + intercept_num) / den`, with `den > 0`:
/// slope and intercept as exact fractions over a common denominator.
#[derive(Debug, Clone, Copy, PartialEq, Eq, Structural)]
pub struct LinearFit {
    pub slope_num: i128,
    pub intercept_num: i128,
    pub den: i128,
}

/// Bound on `|slope_num|` of a regression result (`2^90`).
pub const MAX_ABS_SLOPE_NUM: i128 = 1237940039285380274899124224;

/// Bound on `|intercept_num|` of a regression result (`2^125`).
pub const MAX_ABS_INTERCEPT_NUM: i128 = 42535295865117307932921825928971026432;

/// Bound on the denominator of a regression result (`2^93`).
pub const MAX_DEN: i128 = 9903520314283042199192993792;

impl LinearFit {
    /// Sizes within which evaluating the line at `|x| <= MAX_ABS_X` fits in `i128`.
    pub open spec fn bounded(&self) -> bool {
        &&& -MAX_ABS_SLOPE_NUM <= self.slope_num <= MAX_ABS_SLOPE_NUM
        &&& -MAX_ABS_INTERCEPT_NUM <= self.intercept_num <= MAX_ABS_INTERCEPT_NUM
        &&& 0 < self.den <= MAX_DEN
    }

    /// `den * (slope * x + intercept)`
    pub open spec fn value_num(&self, x: int) -> int {
        self.slope_num * x + self.intercept_num
    }

    /// The line's value at `x` rounded half up, and no less than zero: the
    /// number of counts it takes away from a bin.
    pub open spec fn rounded_estimate(&self, x: int) -> int {
        let v = self.value_num(x);
        let d = self.den as int;
        if v < 0 {
            0
        } else if 2 * (v % d) >= d {
            v / d + 1
        } else {
            v / d
        }
    }
}

/// `f` is the least-squares line through the points `(xs[i], ys[i])`, with its
/// denominator made positive.
pub open spec fn is_regression_of(f: LinearFit, xs: Seq<i64>, ys: Seq<i64>) -> bool {
    &&& ls_den(xs) > 0 ==> f.slope_num == ls_slope_num(xs, ys) && f.intercept_num
        == ls_intercept_num(xs, ys) && f.den == ls_den(xs)
    &&& ls_den(xs) < 0 ==> f.slope_num == -ls_slope_num(xs, ys) && f.intercept_num
        == -ls_intercept_num(xs, ys) && f.den == -ls_den(xs)
}

/// Bin count less the background estimate, saturating at zero.
pub open spec fn subtracted(count: int, estimate: int) -> int {
    if estimate >= count {
        0
    } else {
        count - estimate
    }
}

/// Bounds under which the regression's exact sums fit in `i128`.
pub open spec fn regression_inputs_fit(xs: Seq<i64>, ys: Seq<i64>) -> bool {
    &&& xs.len() <= MAX_POINTS
    &&& forall|i: int| 0 <= i < xs.len() ==> -MAX_ABS_X <= #[trigger] xs[i] <= MAX_ABS_X
    &&& forall|i: int| 0 <= i < ys.len() ==> -MAX_ABS_Y <= #[trigger] ys[i] <= MAX_ABS_Y
}

proof fn lemma_abs_mul_le(a: int, b: int, bound_a: int, bound_b: int)
    requires
        -bound_a <= a <= bound_a,
        -bound_b <= b <= bound_b,
    ensures
        -(bound_a * bound_b) <= a * b <= bound_a * bound_b,
{
    assert(-(bound_a * bound_b) <= a * b <= bound_a * bound_b) by (nonlinear_arith)
        requires
            -bound_a <= a <= bound_a,
            -bound_b <= b <= bound_b,
    ;
}

/// Fits `y = m * x + b` by ordinary least squares, exactly:
/// `m = ls_slope_num / ls_den` and `b = ls_intercept_num / ls_den`, returned
/// with a positive denominator.
pub fn simple_linear_regression(x_data: &Vec<i64>, y_data: &Vec<i64>) -> (r: Result<
    LinearFit,
    BackgroundError,
>)
    requires
        regression_inputs_fit(x_data@, y_data@),
    ensures
        r == Err::<LinearFit, BackgroundError>(BackgroundError::NoBackgroundData) <==> (x_data@.len()
            != y_data@.len() || x_data@.len() < 2),
        r == Err::<LinearFit, BackgroundError>(BackgroundError::SingularFit) <==> (x_data@.len()
            == y_data@.len() && x_data@.len() >= 2 && ls_den(x_data@) == 0),
        r matches Ok(f) ==> f.bounded() && is_regression_of(f, x_data@, y_data@),
{
    if x_data.len() != y_data.len() || x_data.len() < 2 {
        return Err(BackgroundError::NoBackgroundData);
    }
    let n: usize = x_data.len();
    let mut sx: i128 = 0;
    let mut sy: i128 = 0;
    let mut sxx: i128 = 0;
    let mut sxy: i128 = 0;
    let mut i: usize = 0;
    while i < n
        invariant
            n == x_data@.len(),
            n == y_data@.len(),
            i <= n,
            regression_inputs_fit(x_data@, y_data@),
            sx == sum_x(x_data@, i as nat),
            sy == sum_x(y_data@, i as nat),
            sxx == sum_xx(x_data@, i as nat),
            sxy == sum_xy(x_data@, y_data@, i as nat),
            -(i * 34359738368) <= sx <= i * 34359738368,
            -(i * 4294967296) <= sy <= i * 4294967296,
            0 <= sxx <= i * 1180591620717411303424,
            -(i * 147573952589676412928) <= sxy <= i * 147573952589676412928,
        decreases n - i,
    {
        let x = x_data[i];
        let y = y_data[i];
        proof {
            lemma_abs_mul_le(x as int, x as int, 34359738368, 34359738368);
            lemma_abs_mul_le(x as int, y as int, 34359738368, 4294967296);
            assert(x * x >= 0) by (nonlinear_arith);
        }
        sx = sx + x as i128;
        sy = sy + y as i128;
        sxx = sxx + (x as i128) * (x as i128);
        sxy = sxy + (x as i128) * (y as i128);
        i = i + 1;
    }
    let nn: i128 = n as i128;
    proof {
        lemma_abs_mul_le(nn as int, sxy as int, 2048, 302231454903657293676544);
        lemma_abs_mul_le(sx as int, sy as int, 70368744177664, 8796093022208);
        lemma_abs_mul_le(nn as int, sxx as int, 2048, 2417851639229258349412352);
        lemma_abs_mul_le(sx as int, sx as int, 70368744177664, 70368744177664);
        lemma_abs_mul_le(sy as int, sxx as int, 8796093022208, 2417851639229258349412352);
        lemma_abs_mul_le(sx as int, sxy as int, 70368744177664, 302231454903657293676544);
    }
    let slope_num: i128 = nn * sxy - sx * sy;
    let den: i128 = nn * sxx - sx * sx;
    let intercept_num: i128 = sy * sxx - sx * sxy;
    if den == 0 {
        return Err(BackgroundError::SingularFit);
    }
    if den > 0 {
        Ok(LinearFit { slope_num, intercept_num, den })
    } else {
        Ok(LinearFit { slope_num: -slope_num, intercept_num: -intercept_num, den: -den })
    }
}

proof fn lemma_sums_on_line(xs: Seq<i64>, ys: Seq<i64>, p: int, c: int, q: int, n: nat)
    requires
        n <= xs.len(),
        xs.len() == ys.len(),
        forall|i: int| 0 <= i < xs.len() ==> q * ys[i] == p * xs[i] + c,
    ensures
        q * sum_x(ys, n) == p * sum_x(xs, n) + c * n,
        q * sum_xy(xs, ys, n) == p * sum_xx(xs, n) + c * sum_x(xs, n),
    decreases n,
{
    if n > 0 {
        let m = (n - 1) as nat;
        lemma_sums_on_line(xs, ys, p, c, q, m);
        let x = xs[m as int] as int;
        let y = ys[m as int] as int;
        assert(q * y == p * x + c);
        let sy = sum_x(ys, m);
        let sx = sum_x(xs, m);
        let sxx = sum_xx(xs, m);
        let sxy = sum_xy(xs, ys, m);
        assert(sum_x(ys, n) == sy + y);
        assert(sum_x(xs, n) == sx + x);
        assert(sum_xx(xs, n) == sxx + x * x);
        assert(sum_xy(xs, ys, n) == sxy + x * y);
        assert(q * (sy + y) == q * sy + q * y) by (nonlinear_arith);
        assert(c * (m + 1) == c * m + c) by (nonlinear_arith);
        assert(p * (sx + x) == p * sx + p * x) by (nonlinear_arith);
        assert(q * (sxy + x * y) == q * sxy + x * (q * y)) by (nonlinear_arith);
        assert(x * (p * x + c) == p * (x * x) + c * x) by (nonlinear_arith);
        assert(p * (sxx + x * x) == p * sxx + p * (x * x)) by (nonlinear_arith);
        assert(c * (sx + x) == c * sx + c * x) by (nonlinear_arith);
    } else {
        assert(c * n == 0) by (nonlinear_arith)
            requires
                n == 0,
        ;
    }
}

/// Least squares recovers a line exactly: when every point lies on
/// `y = (p / q) * x + c / q`, the fitted slope is `p / q` and the fitted
/// intercept `c / q` (both over the denominator `ls_den`).
pub proof fn lemma_regression_recovers_line(xs: Seq<i64>, ys: Seq<i64>, p: int, c: int, q: int)
    requires
        xs.len() == ys.len(),
        q > 0,
        forall|i: int| 0 <= i < xs.len() ==> q * ys[i] == p * xs[i] + c,
    ensures
        q * ls_slope_num(xs, ys) == p * ls_den(xs),
        q * ls_intercept_num(xs, ys) == c * ls_den(xs),
{
    let n = xs.len();
    lemma_sums_on_line(xs, ys, p, c, q, n);
    let sx = sum_x(xs, n);
    let sy = sum_x(ys, n);
    let sxx = sum_xx(xs, n);
    let sxy = sum_xy(xs, ys, n);
    let nn = n as int;
    // slope: q * (n * sxy - sx * sy) == p * (n * sxx - sx * sx)
    assert(q * (nn * sxy - sx * sy) == nn * (q * sxy) - sx * (q * sy)) by (nonlinear_arith);
    assert(nn * (p * sxx + c * sx) == p * (nn * sxx) + c * (nn * sx)) by (nonlinear_arith);
    assert(sx * (p * sx + c * nn) == p * (sx * sx) + c * (nn * sx)) by (nonlinear_arith);
    assert(p * (nn * sxx - sx * sx) == p * (nn * sxx) - p * (sx * sx)) by (nonlinear_arith);
    // intercept: q * (sy * sxx - sx * sxy) == c * (n * sxx - sx * sx)
    assert(q * (sy * sxx - sx * sxy) == sxx * (q * sy) - sx * (q * sxy)) by (nonlinear_arith);
    assert(sxx * (p * sx + c * nn) == p * (sx * sxx) + c * (nn * sxx)) by (nonlinear_arith);
    assert(sx * (p * sxx + c * sx) == p * (sx * sxx) + c * (sx * sx)) by (nonlinear_arith);
    assert(c * (nn * sxx - sx * sx) == c * (nn * sxx) - c * (sx * sx)) by (nonlinear_arith);
}

impl LinearFit {
    /// The line's value at `x`, rounded half up and no less than zero.
    pub fn estimate_at(&self, x: i64) -> (r: u128)
        requires
            self.bounded(),
            -MAX_ABS_X <= x <= MAX_ABS_X,
        ensures
            r == self.rounded_estimate(x as int),
    {
        proof {
            lemma_abs_mul_le(
                self.slope_num as int,
                x as int,
                MAX_ABS_SLOPE_NUM as int,
                MAX_ABS_X as int,
            );
        }
        let v: i128 = self.slope_num * (x as i128) + self.intercept_num;
        if v < 0 {
            return 0;
        }
        let vu: u128 = v as u128;
        let d: u128 = self.den as u128;
        let q: u128 = vu / d;
        let rem: u128 = vu % d;
        if 2 * rem >= d {
            proof {
                assert(q < vu + 1) by (nonlinear_arith)
                    requires
                        q == (vu as int) / (d as int),
                        d >= 1,
                        vu >= 0,
                ;
            }
            q + 1
        } else {
            q
        }
    }
}

/// The histogram with the background line taken away from every bin: each
/// count becomes `max(0, count - estimate)`, where the estimate is the line's
/// value at the bin centre, rounded half up, and no less than zero.
///
/// The line is one fitted against doubled bin centres (see
/// `Histogram::bin_center_doubled`).
pub fn subtract_background(h: &Histogram, fit: &LinearFit) -> (r: Histogram)
    requires
        h.well_formed(),
        fit.bounded(),
    ensures
        r.well_formed(),
        r.range == h.range,
        r.bin_width == h.bin_width,
        r.bins@.len() == h.bins@.len(),
        forall|i: int|
            0 <= i < h.bins@.len() ==> #[trigger] r.bins@[i] == subtracted(
                h.bins@[i] as int,
                fit.rounded_estimate(h.center2(i)),
            ),
        forall|i: int| 0 <= i < h.bins@.len() ==> 0 <= #[trigger] r.bins@[i] <= h.bins@[i],
{
    let n = h.bins.len();
    let mut bins: Vec<u32> = Vec::new();
    let mut i: usize = 0;
    while i < n
        invariant
            n == h.bins@.len(),
            h.well_formed(),
            fit.bounded(),
            i <= n,
            bins@.len() == i,
            forall|k: int|
                0 <= k < i ==> #[trigger] bins@[k] == subtracted(
                    h.bins@[k] as int,
                    fit.rounded_estimate(h.center2(k)),
                ),
            forall|k: int| 0 <= k < i ==> 0 <= #[trigger] bins@[k] <= h.bins@[k],
        decreases n - i,
    {
        let x2 = h.bin_center_doubled(i);
        proof {
            lemma_center2_bounded(h, i as int);
        }
        let est = fit.estimate_at(x2);
        let count = h.bins[i];
        let v: u32 = if est >= count as u128 {
            0
        } else {
            count - est as u32
        };
        bins.push(v);
        i = i + 1;
    }
    Histogram { range: h.range, bin_width: h.bin_width, bins }
}

/// Doubled bin centres stay within `MAX_ABS_X`.
pub proof fn lemma_center2_bounded(h: &Histogram, i: int)
    requires
        h.well_formed(),
        0 <= i < h.bins@.len(),
    ensures
        -MAX_ABS_X <= h.center2(i) <= MAX_ABS_X,
{
    let w = h.width();
    let span = h.hi() - h.lo();
    assert(i * w < span + w) by (nonlinear_arith)
        requires
            i < (span + w - 1) / w,
            w > 0,
            span > 0,
    ;
    assert(w * (2 * i + 1) == 2 * (i * w) + w) by (nonlinear_arith);
    assert(0 <= i * w) by (nonlinear_arith)
        requires
            i >= 0,
            w > 0,
    ;
}

} // verus!
