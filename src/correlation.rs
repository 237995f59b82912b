//! Pearson correlation over fixed-point sample codes, computed exactly.
//!
//! A correlation is kept as three integers: the co-moment
//! `n·Σxy − Σx·Σy` and the two variances `n·Σx² − (Σx)²`, `n·Σy² − (Σy)²`.
//! The coefficient is `numerator / sqrt(var_x · var_y)`; it is never rounded,
//! and two coefficients are compared by their squares, cross-multiplied.
use vstd::prelude::*;

verus! {

/// Largest number of traces whose statistics fit the 64-bit fields.
pub const MAX_TRACES: usize = 65535;

/// Sum of the first `k` elements.
pub open spec fn sum_to(s: Seq<i16>, k: int) -> int
    decreases k,
{
    if k <= 0 {
        0
    } else {
        sum_to(s, k - 1) + s[k - 1]
    }
}

/// Sum of the first `k` products `x[i]·y[i]`.
pub open spec fn dot_to(x: Seq<i16>, y: Seq<i16>, k: int) -> int
    decreases k,
{
    if k <= 0 {
        0
    } else {
        dot_to(x, y, k - 1) + x[k - 1] * y[k - 1]
    }
}

/// `Σx` over the whole sequence.
pub open spec fn total(s: Seq<i16>) -> int {
    sum_to(s, s.len() as int)
}

/// `Σxy` over the length of `x`.
pub open spec fn dot(x: Seq<i16>, y: Seq<i16>) -> int {
    dot_to(x, y, x.len() as int)
}

/// `n·Σxy − Σx·Σy`: `n²` times the covariance of `x` and `y`.
pub open spec fn co_moment(x: Seq<i16>, y: Seq<i16>) -> int {
    x.len() * dot(x, y) - total(x) * total(y)
}

/// Whether the coefficient `num_a / sqrt(var_a)` is finite and strictly larger
/// in absolute value than `num_b / sqrt(var_b)`, for `var_b > 0`. A zero or
/// negative `var_a` is a degenerate (non-finite) coefficient, which never exceeds.
pub open spec fn score_exceeds(num_a: int, var_a: int, num_b: int, var_b: int) -> bool {
    var_a > 0 && num_a * num_a * var_b > num_b * num_b * var_a
}

/// Exact Pearson statistics of two sequences.
#[derive(Clone, Copy, Debug, PartialEq, Eq)]
pub struct Correlation {
    /// `n·Σxy − Σx·Σy`.
    pub numerator: i64,
    /// `n·Σx² − (Σx)²`.
    pub var_x: i64,
    /// `n·Σy² − (Σy)²`.
    pub var_y: i64,
}

impl Correlation {
    /// The product of the two variances: the square of the denominator.
    pub open spec fn variance(self) -> int {
        self.var_x * self.var_y
    }

    /// These are the statistics of `x` against `y`.
    pub open spec fn describes(self, x: Seq<i16>, y: Seq<i16>) -> bool {
        &&& self.numerator == co_moment(x, y)
        &&& self.var_x == co_moment(x, x)
        &&& self.var_y == co_moment(y, y)
    }
}

/// Bounds on the running sums of the first `i` elements.
pub open spec fn sums_bounded(i: int, s: int, sq: int, prod: int) -> bool {
    &&& -32768 * i <= s <= 32768 * i
    &&& 0 <= sq <= 1073741824 * i
    &&& -1073741824 * i <= prod <= 1073741824 * i
}

/// `n·sab − sa·sb`, for sums of at most `n` terms of 16-bit codes.
fn moment(n: usize, sab: i64, sa: i64, sb: i64) -> (r: i64)
    requires
        n <= MAX_TRACES,
        -1073741824 * n <= sab <= 1073741824 * n,
        -32768 * n <= sa <= 32768 * n,
        -32768 * n <= sb <= 32768 * n,
    ensures
        r == n * sab - sa * sb,
{
    let nn = n as i128;
    assert(-0x4000_0000_0000_0000 < nn * sab < 0x4000_0000_0000_0000) by (nonlinear_arith)
        requires
            0 <= nn <= 65535,
            -1073741824 * nn <= sab <= 1073741824 * nn,
    ;
    assert(-0x4000_0000_0000_0000 < (sa as int) * (sb as int) < 0x4000_0000_0000_0000)
        by (nonlinear_arith)
        requires
            0 <= nn <= 65535,
            -32768 * nn <= sa <= 32768 * nn,
            -32768 * nn <= sb <= 32768 * nn,
    ;
    let r = nn * (sab as i128) - (sa as i128) * (sb as i128);
    r as i64
}

proof fn lemma_step_bounds(a: i16, b: i16)
    ensures
        0 <= (a as int) * (a as int) <= 1073741824,
        -1073741824 <= (a as int) * (b as int) <= 1073741824,
{
    assert(0 <= (a as int) * (a as int) <= 1073741824) by (nonlinear_arith)
        requires
            -32768 <= a <= 32767,
    ;
    assert(-1073741824 <= (a as int) * (b as int) <= 1073741824) by (nonlinear_arith)
        requires
            -32768 <= a <= 32767,
            -32768 <= b <= 32767,
    ;
}

/// Pearson statistics of `x` against `y`, computed directly from the
/// closed form.
pub fn pearson(x: &Vec<i16>, y: &Vec<i16>) -> (r: Correlation)
    requires
        x@.len() == y@.len(),
        x@.len() <= MAX_TRACES,
    ensures
        r.describes(x@, y@),
{
    let n = x.len();
    let mut sx: i64 = 0;
    let mut sy: i64 = 0;
    let mut sxx: i64 = 0;
    let mut syy: i64 = 0;
    let mut sxy: i64 = 0;
    let mut i: usize = 0;
    while i < n
        invariant
            n == x@.len(),
            n == y@.len(),
            n <= MAX_TRACES,
            i <= n,
            sx == sum_to(x@, i as int),
            sy == sum_to(y@, i as int),
            sxx == dot_to(x@, x@, i as int),
            syy == dot_to(y@, y@, i as int),
            sxy == dot_to(x@, y@, i as int),
            sums_bounded(i as int, sx as int, sxx as int, sxy as int),
            sums_bounded(i as int, sy as int, syy as int, sxy as int),
        decreases n - i,
    {
        let a = x[i];
        let b = y[i];
        proof {
            lemma_step_bounds(a, b);
            lemma_step_bounds(b, a);
        }
        sx = sx + a as i64;
        sy = sy + b as i64;
        sxx = sxx + (a as i64) * (a as i64);
        syy = syy + (b as i64) * (b as i64);
        sxy = sxy + (a as i64) * (b as i64);
        i = i + 1;
    }
    Correlation {
        numerator: moment(n, sxy, sx, sy),
        var_x: moment(n, sxx, sx, sx),
        var_y: moment(n, syy, sy, sy),
    }
}

/// Sum and sum of squares of a sequence, computed once and reused across
/// many correlations against it.
#[derive(Clone, Copy, Debug, PartialEq, Eq)]
pub struct ColumnStats {
    /// `Σy`.
    pub sum: i64,
    /// `Σy²`.
    pub sum_sq: i64,
}

impl ColumnStats {
    /// These are the statistics of `y`.
    pub open spec fn describes(self, y: Seq<i16>) -> bool {
        self.sum == total(y) && self.sum_sq == dot(y, y)
    }
}

/// Bounds that the statistics of a sequence of `n` codes meet.
pub open spec fn stats_bounded(n: int, st: ColumnStats) -> bool {
    &&& -32768 * n <= st.sum <= 32768 * n
    &&& 0 <= st.sum_sq <= 1073741824 * n
}

/// Computes `Σy` and `Σy²`.
pub fn column_stats(y: &Vec<i16>) -> (r: ColumnStats)
    requires
        y@.len() <= MAX_TRACES,
    ensures
        r.describes(y@),
        stats_bounded(y@.len() as int, r),
{
    let n = y.len();
    let mut s: i64 = 0;
    let mut sq: i64 = 0;
    let mut i: usize = 0;
    while i < n
        invariant
            n == y@.len(),
            n <= MAX_TRACES,
            i <= n,
            s == sum_to(y@, i as int),
            sq == dot_to(y@, y@, i as int),
            sums_bounded(i as int, s as int, sq as int, 0),
        decreases n - i,
    {
        let b = y[i];
        proof {
            lemma_step_bounds(b, b);
        }
        s = s + b as i64;
        sq = sq + (b as i64) * (b as i64);
        i = i + 1;
    }
    ColumnStats { sum: s, sum_sq: sq }
}

/// Pearson statistics of `x` against `y`, where `Σy` and `Σy²` are given
/// (`y_sum`, `y_sq_sum`) and only the sums over `x` and the cross products
/// are computed.
pub fn pearson_scalar(x: &Vec<i16>, y: &Vec<i16>, y_sum: i64, y_sq_sum: i64) -> (r: Correlation)
    requires
        x@.len() == y@.len(),
        x@.len() <= MAX_TRACES,
        y_sum == total(y@),
        y_sq_sum == dot(y@, y@),
    ensures
        r.describes(x@, y@),
{
    let n = x.len();
    let mut sx: i64 = 0;
    let mut sxx: i64 = 0;
    let mut sxy: i64 = 0;
    let mut i: usize = 0;
    while i < n
        invariant
            n == x@.len(),
            n == y@.len(),
            n <= MAX_TRACES,
            i <= n,
            sx == sum_to(x@, i as int),
            sxx == dot_to(x@, x@, i as int),
            sxy == dot_to(x@, y@, i as int),
            sums_bounded(i as int, sx as int, sxx as int, sxy as int),
        decreases n - i,
    {
        let a = x[i];
        let b = y[i];
        proof {
            lemma_step_bounds(a, b);
        }
        sx = sx + a as i64;
        sxx = sxx + (a as i64) * (a as i64);
        sxy = sxy + (a as i64) * (b as i64);
        i = i + 1;
    }
    proof {
        lemma_sums_bounded(y@, n as int);
    }
    Correlation {
        numerator: moment(n, sxy, sx, y_sum),
        var_x: moment(n, sxx, sx, sx),
        var_y: moment(n, y_sq_sum, y_sum, y_sum),
    }
}

/// The sums over the first `k` codes of a sequence stay within the bounds that
/// 16-bit codes allow.
pub proof fn lemma_sums_bounded(y: Seq<i16>, k: int)
    requires
        0 <= k <= y.len(),
    ensures
        sums_bounded(k, sum_to(y, k), dot_to(y, y, k), 0),
    decreases k,
{
    if k > 0 {
        lemma_sums_bounded(y, k - 1);
        lemma_step_bounds(y[k - 1], y[k - 1]);
    }
}

/// Pearson statistics of `x` against `y` with `Σy`, `Σy²` given, accumulating
/// the sums in four independent lanes over blocks of four elements, then
/// folding the lanes together and finishing the remainder one element at a time.
pub fn pearson_simd(x: &Vec<i16>, y: &Vec<i16>, y_sum: i64, y_sq_sum: i64) -> (r: Correlation)
    requires
        x@.len() == y@.len(),
        x@.len() <= MAX_TRACES,
        y_sum == total(y@),
        y_sq_sum == dot(y@, y@),
    ensures
        r.describes(x@, y@),
{
    let n = x.len();
    let mut sx: [i64; 4] = [0, 0, 0, 0];
    let mut sxx: [i64; 4] = [0, 0, 0, 0];
    let mut sxy: [i64; 4] = [0, 0, 0, 0];
    let mut i: usize = 0;
    while i + 4 <= n
        invariant
            n == x@.len(),
            n == y@.len(),
            n <= MAX_TRACES,
            i <= n,
            sx[0] + sx[1] + sx[2] + sx[3] == sum_to(x@, i as int),
            sxx[0] + sxx[1] + sxx[2] + sxx[3] == dot_to(x@, x@, i as int),
            sxy[0] + sxy[1] + sxy[2] + sxy[3] == dot_to(x@, y@, i as int),
            forall|l: int|
                0 <= l < 4 ==> sums_bounded(
                    i as int,
                    #[trigger] sx[l] as int,
                    sxx[l] as int,
                    sxy[l] as int,
                ),
        decreases n - i,
    {
        let mut l: usize = 0;
        while l < 4
            invariant
                n == x@.len(),
                n == y@.len(),
                n <= MAX_TRACES,
                i + 4 <= n,
                l <= 4,
                sx[0] + sx[1] + sx[2] + sx[3] == sum_to(x@, i + l),
                sxx[0] + sxx[1] + sxx[2] + sxx[3] == dot_to(x@, x@, i + l),
                sxy[0] + sxy[1] + sxy[2] + sxy[3] == dot_to(x@, y@, i + l),
                forall|m: int|
                    0 <= m < l ==> sums_bounded(
                        i + 1,
                        #[trigger] sx[m] as int,
                        sxx[m] as int,
                        sxy[m] as int,
                    ),
                forall|m: int|
                    l <= m < 4 ==> sums_bounded(
                        i as int,
                        #[trigger] sx[m] as int,
                        sxx[m] as int,
                        sxy[m] as int,
                    ),
            decreases 4 - l,
        {
            let a = x[i + l];
            let b = y[i + l];
            proof {
                lemma_step_bounds(a, b);
            }
            sx[l] = sx[l] + a as i64;
            sxx[l] = sxx[l] + (a as i64) * (a as i64);
            sxy[l] = sxy[l] + (a as i64) * (b as i64);
            l = l + 1;
        }
        i = i + 4;
    }
    let mut tx: i64 = sx[0] + sx[1] + sx[2] + sx[3];
    let mut txx: i64 = sxx[0] + sxx[1] + sxx[2] + sxx[3];
    let mut txy: i64 = sxy[0] + sxy[1] + sxy[2] + sxy[3];
    while i < n
        invariant
            n == x@.len(),
            n == y@.len(),
            n <= MAX_TRACES,
            i <= n,
            tx == sum_to(x@, i as int),
            txx == dot_to(x@, x@, i as int),
            txy == dot_to(x@, y@, i as int),
            sums_bounded(i as int + 3 * i as int, tx as int, txx as int, txy as int),
        decreases n - i,
    {
        let a = x[i];
        let b = y[i];
        proof {
            lemma_step_bounds(a, b);
        }
        tx = tx + a as i64;
        txx = txx + (a as i64) * (a as i64);
        txy = txy + (a as i64) * (b as i64);
        i = i + 1;
    }
    proof {
        lemma_sums_bounded(x@, n as int);
        lemma_sums_bounded(y@, n as int);
        lemma_dot_bounded(x@, y@, n as int);
    }
    Correlation {
        numerator: moment(n, txy, tx, y_sum),
        var_x: moment(n, txx, tx, tx),
        var_y: moment(n, y_sq_sum, y_sum, y_sum),
    }
}

/// The cross-product sum over the first `k` codes stays within the bounds that
/// 16-bit codes allow.
pub proof fn lemma_dot_bounded(x: Seq<i16>, y: Seq<i16>, k: int)
    requires
        0 <= k <= x.len(),
        k <= y.len(),
    ensures
        -1073741824 * k <= dot_to(x, y, k) <= 1073741824 * k,
    decreases k,
{
    if k > 0 {
        lemma_dot_bounded(x, y, k - 1);
        lemma_step_bounds(x[k - 1], y[k - 1]);
    }
}

/// `2^64`.
pub open spec fn half() -> int {
    0x1_0000_0000_0000_0000
}

/// `2^128`.
pub open spec fn word() -> int {
    half() * half()
}

/// The full 256-bit product of two 128-bit words, as `(high, low)`.
fn mul_wide(a: u128, b: u128) -> (r: (u128, u128))
    ensures
        r.0 * word() + r.1 == a * b,
{
    let h: u128 = 0x1_0000_0000_0000_0000;
    let a0 = a % h;
    let a1 = a / h;
    let b0 = b % h;
    let b1 = b / h;
    assert(a1 < h) by (nonlinear_arith)
        requires
            a1 == a / h,
            a < h * h,
            h > 0,
    ;
    assert(b1 < h) by (nonlinear_arith)
        requires
            b1 == b / h,
            b < h * h,
            h > 0,
    ;
    assert(forall|p: u128, q: u128| p < h && q < h ==> #[trigger] (p * q) < h * h)
        by (nonlinear_arith)
        requires
            h > 0,
    ;
    let p00 = a0 * b0;
    let p01 = a0 * b1;
    let p10 = a1 * b0;
    let p11 = a1 * b1;
    let mid = p00 / h + p01 % h + p10 % h;
    let lo = (mid % h) * h + p00 % h;
    let ghost hi_int: int = p11 + p01 / h + p10 / h + mid / h;
    assert(a * b == p11 * 0x1_0000_0000_0000_0000_0000_0000_0000_0000 + (p01 + p10)
        * 0x1_0000_0000_0000_0000 + p00) by (nonlinear_arith)
        requires
            a == a1 * 0x1_0000_0000_0000_0000 + a0,
            b == b1 * 0x1_0000_0000_0000_0000 + b0,
            p00 == a0 * b0,
            p01 == a0 * b1,
            p10 == a1 * b0,
            p11 == a1 * b1,
    ;
    assert(word() == 0x1_0000_0000_0000_0000_0000_0000_0000_0000);
    assert(p01 == (p01 / h) * 0x1_0000_0000_0000_0000 + p01 % h);
    assert(p10 == (p10 / h) * 0x1_0000_0000_0000_0000 + p10 % h);
    assert(p00 == (p00 / h) * 0x1_0000_0000_0000_0000 + p00 % h);
    assert(mid == (mid / h) * 0x1_0000_0000_0000_0000 + mid % h);
    assert(hi_int * 0x1_0000_0000_0000_0000_0000_0000_0000_0000 + lo == a * b);
    assert(hi_int < word()) by (nonlinear_arith)
        requires
            hi_int * word() + lo == a * b,
            lo >= 0,
            a < word(),
            b < word(),
            word() > 0,
    ;
    let hi = p11 + p01 / h + p10 / h + mid / h;
    (hi, lo)
}

/// Whether `a·b > c·d`, for 128-bit words.
fn product_exceeds(a: u128, b: u128, c: u128, d: u128) -> (r: bool)
    ensures
        r == (a * b > c * d),
{
    let (h1, l1) = mul_wide(a, b);
    let (h2, l2) = mul_wide(c, d);
    proof {
        let w = word();
        assert(w > 0) by (nonlinear_arith)
            requires
                w == half() * half(),
                half() > 0,
        ;
        assert(l1 < w && l2 < w);
        assert((a * b > c * d) == (h1 > h2 || (h1 == h2 && l1 > l2))) by (nonlinear_arith)
            requires
                h1 * w + l1 == a * b,
                h2 * w + l2 == c * d,
                0 <= l1 < w,
                0 <= l2 < w,
                h1 >= 0,
                h2 >= 0,
        ;
    }
    h1 > h2 || (h1 == h2 && l1 > l2)
}

/// The exact product of two 64-bit integers.
fn mul_i64(a: i64, b: i64) -> (r: i128)
    ensures
        r == a * b,
{
    assert(-0x4000_0000_0000_0000_0000_0000_0000_0000 <= (a as int) * (b as int)
        <= 0x4000_0000_0000_0000_0000_0000_0000_0000) by (nonlinear_arith)
        requires
            -0x8000_0000_0000_0000 <= a < 0x8000_0000_0000_0000,
            -0x8000_0000_0000_0000 <= b < 0x8000_0000_0000_0000,
    ;
    (a as i128) * (b as i128)
}

/// Whether the coefficient of `a` is finite and strictly larger in absolute
/// value than that of `b`, where `b`'s is finite.
pub fn abs_exceeds(a: &Correlation, b: &Correlation) -> (r: bool)
    requires
        b.variance() > 0,
    ensures
        r == score_exceeds(a.numerator as int, a.variance(), b.numerator as int, b.variance()),
{
    let va = mul_i64(a.var_x, a.var_y);
    let vb = mul_i64(b.var_x, b.var_y);
    if va <= 0 {
        return false;
    }
    let na = mul_i64(a.numerator, a.numerator);
    let nb = mul_i64(b.numerator, b.numerator);
    assert(0 <= na && 0 <= nb) by (nonlinear_arith)
        requires
            na == a.numerator * a.numerator,
            nb == b.numerator * b.numerator,
    ;
    product_exceeds(na as u128, vb as u128, nb as u128, va as u128)
}

/// Exceeding in absolute value is transitive.
pub proof fn lemma_exceeds_transitive(n1: int, v1: int, n2: int, v2: int, n3: int, v3: int)
    requires
        v3 > 0,
        score_exceeds(n1, v1, n2, v2),
        score_exceeds(n2, v2, n3, v3),
    ensures
        score_exceeds(n1, v1, n3, v3),
{
    let a = n1 * n1;
    let b = n2 * n2;
    let c = n3 * n3;
    assert(a >= 0 && b >= 0 && c >= 0) by (nonlinear_arith)
        requires
            a == n1 * n1,
            b == n2 * n2,
            c == n3 * n3,
    ;
    assert(a * v3 > c * v1) by (nonlinear_arith)
        requires
            a * v2 > b * v1,
            b * v3 > c * v2,
            v1 > 0,
            v2 > 0,
            v3 > 0,
            a >= 0,
            b >= 0,
            c >= 0,
    ;
}

/// How the per-call sums of a correlation are accumulated; chosen once, when
/// the machine's capabilities are known.
#[derive(Clone, Copy, Debug, PartialEq, Eq)]
pub enum Strategy {
    /// One accumulator per sum.
    Scalar,
    /// Four lanes per sum, folded at the end.
    Lanes,
}

/// Pearson statistics of `x` against `y`, whose sums `stats` were computed
/// beforehand, accumulated as `strategy` says.
pub fn correlate_with(strategy: Strategy, x: &Vec<i16>, y: &Vec<i16>, stats: &ColumnStats) -> (r:
    Correlation)
    requires
        x@.len() == y@.len(),
        x@.len() <= MAX_TRACES,
        stats.describes(y@),
    ensures
        r.describes(x@, y@),
{
    match strategy {
        Strategy::Scalar => pearson_scalar(x, y, stats.sum, stats.sum_sq),
        Strategy::Lanes => pearson_simd(x, y, stats.sum, stats.sum_sq),
    }
}

/// All three ways of computing a correlation give the same statistics: any
/// two values that describe `x` against `y` are equal.
pub proof fn lemma_forms_agree(a: Correlation, b: Correlation, x: Seq<i16>, y: Seq<i16>)
    requires
        a.describes(x, y),
        b.describes(x, y),
    ensures
        a == b,
{
}

proof fn lemma_dot_symmetric(x: Seq<i16>, y: Seq<i16>, k: int)
    ensures
        dot_to(x, y, k) == dot_to(y, x, k),
    decreases k,
{
    if k > 0 {
        lemma_dot_symmetric(x, y, k - 1);
        assert(x[k - 1] * y[k - 1] == y[k - 1] * x[k - 1]) by (nonlinear_arith);
    }
}

/// Correlation is symmetric: `x` against `y` has the same numerator and the
/// same denominator as `y` against `x`.
pub proof fn lemma_symmetric(x: Seq<i16>, y: Seq<i16>)
    requires
        x.len() == y.len(),
    ensures
        co_moment(x, y) == co_moment(y, x),
        co_moment(x, x) * co_moment(y, y) == co_moment(y, y) * co_moment(x, x),
{
    lemma_dot_symmetric(x, y, x.len() as int);
    assert(total(x) * total(y) == total(y) * total(x)) by (nonlinear_arith);
    assert(co_moment(x, x) * co_moment(y, y) == co_moment(y, y) * co_moment(x, x))
        by (nonlinear_arith);
}

proof fn lemma_affine_sums(x: Seq<i16>, y: Seq<i16>, z: Seq<i16>, a: int, b: int, k: int)
    requires
        0 <= k <= x.len(),
        x.len() == y.len(),
        y.len() == z.len(),
        forall|i: int| 0 <= i < z.len() ==> #[trigger] z[i] == a * y[i] + b,
    ensures
        sum_to(z, k) == a * sum_to(y, k) + k * b,
        dot_to(x, z, k) == a * dot_to(x, y, k) + b * sum_to(x, k),
        dot_to(z, z, k) == a * a * dot_to(y, y, k) + 2 * a * b * sum_to(y, k) + k * b * b,
    decreases k,
{
    if k > 0 {
        lemma_affine_sums(x, y, z, a, b, k - 1);
        let u = y[k - 1] as int;
        let w = x[k - 1] as int;
        assert(z[k - 1] == a * u + b);
        let s = sum_to(y, k - 1);
        let sx = sum_to(x, k - 1);
        let d = dot_to(x, y, k - 1);
        let q = dot_to(y, y, k - 1);
        assert(sum_to(z, k) == a * sum_to(y, k) + k * b) by (nonlinear_arith)
            requires
                sum_to(z, k) == sum_to(z, k - 1) + z[k - 1],
                sum_to(z, k - 1) == a * s + (k - 1) * b,
                sum_to(y, k) == s + u,
                z[k - 1] == a * u + b,
        ;
        assert(dot_to(x, z, k) == a * dot_to(x, y, k) + b * sum_to(x, k)) by (nonlinear_arith)
            requires
                dot_to(x, z, k) == dot_to(x, z, k - 1) + w * z[k - 1],
                dot_to(x, z, k - 1) == a * d + b * sx,
                dot_to(x, y, k) == d + w * u,
                sum_to(x, k) == sx + w,
                z[k - 1] == a * u + b,
        ;
        let zz = z[k - 1] * z[k - 1];
        assert(zz == a * a * (u * u) + 2 * a * b * u + b * b) by (nonlinear_arith)
            requires
                zz == z[k - 1] * z[k - 1],
                z[k - 1] == a * u + b,
        ;
        assert(a * a * (q + u * u) == a * a * q + a * a * (u * u)) by (nonlinear_arith);
        assert(2 * a * b * (s + u) == 2 * a * b * s + 2 * a * b * u) by (nonlinear_arith);
        assert(k * b * b == (k - 1) * b * b + b * b) by (nonlinear_arith);
        assert(dot_to(y, y, k) == q + u * u);
        assert(sum_to(y, k) == s + u);
    }
}

/// Replacing `y` by `a·y + b` multiplies the numerator by `a` and the product
/// of the variances by `a²`: for `a > 0` the coefficient is unchanged, for
/// `a < 0` it changes sign. In particular the correlation of `x` with `−x` is
/// the negated correlation of `x` with itself.
pub proof fn lemma_affine(x: Seq<i16>, y: Seq<i16>, z: Seq<i16>, a: int, b: int)
    requires
        x.len() == y.len(),
        y.len() == z.len(),
        forall|i: int| 0 <= i < z.len() ==> #[trigger] z[i] == a * y[i] + b,
    ensures
        co_moment(x, z) == a * co_moment(x, y),
        co_moment(z, z) == a * a * co_moment(y, y),
        co_moment(x, x) * co_moment(z, z) == a * a * (co_moment(x, x) * co_moment(y, y)),
        co_moment(x, z) * co_moment(x, z) * (co_moment(x, x) * co_moment(y, y)) == co_moment(
            x,
            y,
        ) * co_moment(x, y) * (co_moment(x, x) * co_moment(z, z)),
{
    let n = x.len() as int;
    lemma_affine_sums(x, y, z, a, b, n);
    let sx = total(x);
    let sy = total(y);
    let sz = total(z);
    let dxy = dot(x, y);
    let dxz = dot(x, z);
    let dyy = dot(y, y);
    let dzz = dot(z, z);
    assert(n * dxz - sx * sz == a * (n * dxy - sx * sy)) by (nonlinear_arith)
        requires
            sz == a * sy + n * b,
            dxz == a * dxy + b * sx,
    ;
    lemma_affine_variance(n, a, b, sy, dyy);
    let m = co_moment(x, y);
    let vx = co_moment(x, x);
    let vy = co_moment(y, y);
    assert(vx * (a * a * vy) == a * a * (vx * vy)) by (nonlinear_arith);
    assert((a * m) * (a * m) * (vx * vy) == m * m * (vx * (a * a * vy))) by (nonlinear_arith);
}

proof fn lemma_affine_variance(n: int, a: int, b: int, sy: int, dyy: int)
    ensures
        n * (a * a * dyy + 2 * a * b * sy + n * b * b) - (a * sy + n * b) * (a * sy + n * b) == a
            * a * (n * dyy - sy * sy),
{
    let p = a * sy;
    let r = n * b;
    assert((p + r) * (p + r) == p * p + 2 * (p * r) + r * r) by (nonlinear_arith);
    assert(p * p == a * a * (sy * sy)) by (nonlinear_arith)
        requires
            p == a * sy,
    ;
    assert(p * r == a * b * (n * sy)) by (nonlinear_arith)
        requires
            p == a * sy,
            r == n * b,
    ;
    assert(r * r == n * n * (b * b)) by (nonlinear_arith)
        requires
            r == n * b,
    ;
    assert(2 * (p * r) == 2 * a * b * (n * sy)) by (nonlinear_arith)
        requires
            p * r == a * b * (n * sy),
    ;
    assert(n * (a * a * dyy + 2 * a * b * sy + n * b * b) == a * a * (n * dyy) + 2 * a * b * (n
        * sy) + n * n * (b * b)) by (nonlinear_arith);
    assert(a * a * (n * dyy - sy * sy) == a * a * (n * dyy) - a * a * (sy * sy))
        by (nonlinear_arith);
}

proof fn lemma_variance_step(k: int, q: int, s: int, u: int)
    ensures
        k * (q + u * u) - (s + u) * (s + u) == (k - 1) * q - s * s + (q - 2 * u * s + (k - 1) * u
            * u),
{
    assert(k * (q + u * u) == k * q + k * (u * u)) by (nonlinear_arith);
    assert((s + u) * (s + u) == s * s + 2 * u * s + u * u) by (nonlinear_arith);
    assert((k - 1) * q == k * q - q) by (nonlinear_arith);
    assert((k - 1) * u * u == k * (u * u) - u * u) by (nonlinear_arith);
}

/// `Σ(x[i] − c)²` over the first `k` elements.
pub open spec fn spread_to(x: Seq<i16>, c: int, k: int) -> int
    decreases k,
{
    if k <= 0 {
        0
    } else {
        spread_to(x, c, k - 1) + (x[k - 1] - c) * (x[k - 1] - c)
    }
}

proof fn lemma_spread(x: Seq<i16>, c: int, k: int)
    requires
        0 <= k <= x.len(),
    ensures
        spread_to(x, c, k) == dot_to(x, x, k) - 2 * c * sum_to(x, k) + k * c * c,
        spread_to(x, c, k) >= 0,
        (exists|i: int| 0 <= i < k && x[i] != c) ==> spread_to(x, c, k) > 0,
    decreases k,
{
    if k > 0 {
        lemma_spread(x, c, k - 1);
        let u = x[k - 1] as int;
        assert((u - c) * (u - c) >= 0) by (nonlinear_arith);
        assert(u != c ==> (u - c) * (u - c) > 0) by (nonlinear_arith);
        assert(spread_to(x, c, k) == dot_to(x, x, k) - 2 * c * sum_to(x, k) + k * c * c)
            by (nonlinear_arith)
            requires
                spread_to(x, c, k) == spread_to(x, c, k - 1) + (u - c) * (u - c),
                spread_to(x, c, k - 1) == dot_to(x, x, k - 1) - 2 * c * sum_to(x, k - 1) + (k - 1)
                    * c * c,
                dot_to(x, x, k) == dot_to(x, x, k - 1) + u * u,
                sum_to(x, k) == sum_to(x, k - 1) + u,
        ;
        if exists|i: int| 0 <= i < k && x[i] != c {
            let i = choose|i: int| 0 <= i < k && x[i] != c;
            if i < k - 1 {
                assert(exists|i: int| 0 <= i < k - 1 && x[i] != c);
            }
        }
    }
}

/// `k·Σx² − (Σx)²` over the first `k` elements.
pub open spec fn variance_to(x: Seq<i16>, k: int) -> int {
    k * dot_to(x, x, k) - sum_to(x, k) * sum_to(x, k)
}

proof fn lemma_variance_positive(x: Seq<i16>, k: int)
    requires
        1 <= k <= x.len(),
    ensures
        variance_to(x, k) >= 0,
        (exists|i: int| 0 <= i < k && #[trigger] x[i] != x[0]) ==> variance_to(x, k) > 0,
    decreases k,
{
    if k > 1 {
        lemma_variance_positive(x, k - 1);
        let u = x[k - 1] as int;
        lemma_spread(x, u, k - 1);
        let q = dot_to(x, x, k - 1);
        let s = sum_to(x, k - 1);
        assert(dot_to(x, x, k) == q + u * u);
        assert(sum_to(x, k) == s + u);
        lemma_variance_step(k, q, s, u);
        if exists|i: int| 0 <= i < k && #[trigger] x[i] != x[0] {
            if !(exists|i: int| 0 <= i < k - 1 && #[trigger] x[i] != x[0]) {
                assert(u != x[0]);
                assert(exists|i: int| 0 <= i < k - 1 && x[i] != u) by {
                    assert(x[0] != u);
                }
            }
        }
    } else {
        assert(dot_to(x, x, 0) == 0);
        assert(sum_to(x, 0) == 0);
        assert(variance_to(x, 1) == 0) by (nonlinear_arith)
            requires
                variance_to(x, 1) == 1 * dot_to(x, x, 1) - sum_to(x, 1) * sum_to(x, 1),
                dot_to(x, x, 1) == x[0] * x[0],
                sum_to(x, 1) == x[0] as int,
        ;
    }
}

/// The variance term is never negative, and is positive exactly when the
/// sequence is not constant.
pub proof fn lemma_variance(x: Seq<i16>)
    ensures
        co_moment(x, x) >= 0,
        co_moment(x, x) > 0 <==> exists|i: int, j: int|
            0 <= i < x.len() && 0 <= j < x.len() && x[i] != x[j],
{
    if x.len() >= 1 {
        lemma_variance_positive(x, x.len() as int);
        if exists|i: int, j: int| 0 <= i < x.len() && 0 <= j < x.len() && x[i] != x[j] {
            let (i, j) = choose|i: int, j: int|
                0 <= i < x.len() && 0 <= j < x.len() && x[i] != x[j];
            if x[i] == x[0] {
                assert(x[j] != x[0]);
            }
        } else {
            assert forall|i: int| 0 <= i < x.len() implies #[trigger] x[i] == x[0] by {
                if x[i] != x[0] {
                    assert(0 <= i < x.len() && 0 <= 0 < x.len() && x[i] != x[0]);
                }
            }
            lemma_spread(x, x[0] as int, x.len() as int);
            assert(!(exists|i: int| 0 <= i < x.len() && #[trigger] x[i] != x[0]));
            lemma_constant_variance(x, x.len() as int);
        }
    }
}

proof fn lemma_constant_variance(x: Seq<i16>, k: int)
    requires
        1 <= k <= x.len(),
        forall|i: int| 0 <= i < x.len() ==> #[trigger] x[i] == x[0],
    ensures
        variance_to(x, k) == 0,
    decreases k,
{
    let c = x[0] as int;
    lemma_constant_sums(x, k);
    assert(k * (k * (c * c)) - (k * c) * (k * c) == 0) by (nonlinear_arith);
}

proof fn lemma_constant_sums(x: Seq<i16>, k: int)
    requires
        0 <= k <= x.len(),
        x.len() >= 1,
        forall|i: int| 0 <= i < x.len() ==> #[trigger] x[i] == x[0],
    ensures
        sum_to(x, k) == k * x[0],
        dot_to(x, x, k) == k * (x[0] * x[0]),
    decreases k,
{
    if k > 0 {
        lemma_constant_sums(x, k - 1);
        assert(x[k - 1] == x[0]);
        let c = x[0] as int;
        assert((k - 1) * (c * c) + c * c == k * (c * c)) by (nonlinear_arith);
        assert((k - 1) * c + c == k * c) by (nonlinear_arith);
    }
}

/// A non-constant sequence correlates with itself with coefficient exactly 1:
/// numerator and both variances are the same positive `co_moment(x, x)`.
/// Against its negation (`y[i] == −x[i]`) the coefficient is exactly −1.
pub proof fn lemma_self_correlation(x: Seq<i16>, y: Seq<i16>)
    requires
        exists|i: int, j: int| 0 <= i < x.len() && 0 <= j < x.len() && x[i] != x[j],
        y.len() == x.len(),
        forall|i: int| 0 <= i < y.len() ==> #[trigger] y[i] == -x[i],
    ensures
        co_moment(x, x) > 0,
        co_moment(x, y) < 0,
        co_moment(x, y) * co_moment(x, y) == co_moment(x, x) * co_moment(y, y),
{
    lemma_variance(x);
    lemma_affine(x, x, y, -1, 0);
    let v = co_moment(x, x);
    assert(-1 * v * (-1 * v) == v * (-1 * -1 * v)) by (nonlinear_arith);
}

} // verus!
