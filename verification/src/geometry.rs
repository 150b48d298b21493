//! Exact integer geometry: the slope-compatibility and scatter-tolerance
//! predicates shared by the track-finding engines.
//!
//! A straight line through two hits is extrapolated to a third hit's plane;
//! the residuals are rational numbers whose comparisons against the engine
//! parameters are carried out cross-multiplied in `i128`, so no rounding
//! ever occurs.

use vstd::prelude::*;
use crate::event_model::Hit;

verus! {

/// Largest magnitude allowed for a hit coordinate (fixed-point units).
/// Keeping coordinates in this range lets every cross-multiplied residual
/// comparison fit in `i128`.
pub const COORD_LIMIT: i64 = 500_000;

/// Largest numerator/denominator allowed for an engine parameter fraction.
pub const PARAM_LIMIT: i64 = 1_000_000;

/// A non-negative exact fraction used for engine parameters
/// (slopes, tolerances, scatter limits).
#[derive(Clone, Copy, Debug)]
pub struct Fraction {
    pub num: i64,
    pub den: i64,
}

impl Fraction {
    /// Validity of a parameter fraction: non-negative value, positive
    /// denominator, both bounded so that products stay within `i128`.
    pub open spec fn wf(self) -> bool {
        0 <= self.num <= PARAM_LIMIT && 1 <= self.den <= PARAM_LIMIT
    }

    /// The rational value `num / den`, compared via cross-multiplication.
    pub open spec fn spec_lt(self, other: Fraction) -> bool {
        self.num * other.den < other.num * self.den
    }

    pub fn new(num: i64, den: i64) -> (r: Option<Fraction>)
        ensures
            r is Some <==> (0 <= num <= PARAM_LIMIT && 1 <= den <= PARAM_LIMIT),
            r matches Some(f) ==> f.num == num && f.den == den && f.wf(),
    {
        if 0 <= num && num <= PARAM_LIMIT && 1 <= den && den <= PARAM_LIMIT {
            Some(Fraction { num, den })
        } else {
            None
        }
    }
}

/// Absolute value of a mathematical integer.
pub open spec fn abs_int(a: int) -> int {
    if a >= 0 {
        a
    } else {
        -a
    }
}

/// Absolute value of a coordinate difference, computed exactly.
pub fn abs_i64(a: i64) -> (r: i64)
    requires
        a != i64::MIN,
    ensures
        r == abs_int(a as int),
{
    if a >= 0 {
        a
    } else {
        -a
    }
}

/// Bound on a product from bounds on its factors.
pub proof fn lemma_abs_mul_le(a: int, b: int, aa: int, bb: int)
    by (nonlinear_arith)
    requires
        -aa <= a <= aa,
        -bb <= b <= bb,
    ensures
        -(aa * bb) <= a * b <= aa * bb,
{
}

/// Two hits are compatible in x when the x distance stays inside the slope
/// cone spanned by the z distance.
pub open spec fn spec_compatible_x(slope: Fraction, h0: Hit, h1: Hit) -> bool {
    abs_int(h1.x - h0.x) * slope.den < slope.num * abs_int(h1.z - h0.z)
}

/// Two hits are compatible in y when the y distance stays inside the slope
/// cone spanned by the z distance.
pub open spec fn spec_compatible_y(slope: Fraction, h0: Hit, h1: Hit) -> bool {
    abs_int(h1.y - h0.y) * slope.den < slope.num * abs_int(h1.z - h0.z)
}

/// Slope compatibility in both transverse coordinates.
pub open spec fn spec_compatible(sx: Fraction, sy: Fraction, h0: Hit, h1: Hit) -> bool {
    spec_compatible_x(sx, h0, h1) && spec_compatible_y(sy, h0, h1)
}

/// Numerator of the x residual: extrapolating the line through `h0` and
/// `h1` to `h2.z` misses `h2.x` by `residual_x / (h1.z - h0.z)`.
pub open spec fn residual_x(h0: Hit, h1: Hit, h2: Hit) -> int {
    (h1.x - h0.x) * (h2.z - h0.z) - (h2.x - h0.x) * (h1.z - h0.z)
}

/// Numerator of the y residual, over the same denominator `h1.z - h0.z`.
pub open spec fn residual_y(h0: Hit, h1: Hit, h2: Hit) -> int {
    (h1.y - h0.y) * (h2.z - h0.z) - (h2.y - h0.y) * (h1.z - h0.z)
}

/// The three-hit tolerance test of the track-following and graph engines.
/// With `dx = |residual_x| / |d01|` and `dy = |residual_y| / |d01|`, it
/// requires `dx < tol_x`, `dy < tol_y` and
/// `(dx * dy + dy * dy) / d21^2 < max_scatter`, each comparison taken
/// cross-multiplied so it is exact.  A zero denominator fails the test.
pub open spec fn spec_tolerant(
    tol_x: Fraction,
    tol_y: Fraction,
    max_scatter: Fraction,
    h0: Hit,
    h1: Hit,
    h2: Hit,
) -> bool {
    let d01 = h1.z - h0.z;
    let d21 = h2.z - h1.z;
    if d01 == 0 || d21 == 0 {
        false
    } else {
        let nx = abs_int(residual_x(h0, h1, h2));
        let ny = abs_int(residual_y(h0, h1, h2));
        &&& nx * tol_x.den < tol_x.num * abs_int(d01)
        &&& ny * tol_y.den < tol_y.num * abs_int(d01)
        &&& (nx * ny + ny * ny) * max_scatter.den < max_scatter.num * (d01 * d01) * (d21 * d21)
    }
}

/// Slope-compatibility in x, decided exactly.
pub fn compatible_in_x(slope: &Fraction, h0: &Hit, h1: &Hit) -> (r: bool)
    requires
        slope.wf(),
        h0.wf(),
        h1.wf(),
    ensures
        r == spec_compatible_x(*slope, *h0, *h1),
{
    let dx = abs_i64(h1.x - h0.x) as i128;
    let dz = abs_i64(h1.z - h0.z) as i128;
    proof {
        lemma_abs_mul_le(dx as int, slope.den as int, 2 * COORD_LIMIT as int, PARAM_LIMIT as int);
        lemma_abs_mul_le(slope.num as int, dz as int, PARAM_LIMIT as int, 2 * COORD_LIMIT as int);
    }
    dx * (slope.den as i128) < (slope.num as i128) * dz
}

/// Slope-compatibility in y, decided exactly.
pub fn compatible_in_y(slope: &Fraction, h0: &Hit, h1: &Hit) -> (r: bool)
    requires
        slope.wf(),
        h0.wf(),
        h1.wf(),
    ensures
        r == spec_compatible_y(*slope, *h0, *h1),
{
    let dy = abs_i64(h1.y - h0.y) as i128;
    let dz = abs_i64(h1.z - h0.z) as i128;
    proof {
        lemma_abs_mul_le(dy as int, slope.den as int, 2 * COORD_LIMIT as int, PARAM_LIMIT as int);
        lemma_abs_mul_le(slope.num as int, dz as int, PARAM_LIMIT as int, 2 * COORD_LIMIT as int);
    }
    dy * (slope.den as i128) < (slope.num as i128) * dz
}

/// Slope-compatibility in both coordinates.
pub fn compatible(sx: &Fraction, sy: &Fraction, h0: &Hit, h1: &Hit) -> (r: bool)
    requires
        sx.wf(),
        sy.wf(),
        h0.wf(),
        h1.wf(),
    ensures
        r == spec_compatible(*sx, *sy, *h0, *h1),
{
    compatible_in_x(sx, h0, h1) && compatible_in_y(sy, h0, h1)
}

/// The residual numerators of the extrapolation through `h0` and `h1` at
/// `h2.z`, as absolute values.
fn residual_abs(h0: &Hit, h1: &Hit, h2: &Hit) -> (r: (i128, i128))
    requires
        h0.wf(),
        h1.wf(),
        h2.wf(),
    ensures
        r.0 == abs_int(residual_x(*h0, *h1, *h2)),
        r.1 == abs_int(residual_y(*h0, *h1, *h2)),
        0 <= r.0 <= 8 * COORD_LIMIT * COORD_LIMIT,
        0 <= r.1 <= 8 * COORD_LIMIT * COORD_LIMIT,
{
    let dx1 = (h1.x - h0.x) as i128;
    let dy1 = (h1.y - h0.y) as i128;
    let dz20 = (h2.z - h0.z) as i128;
    let dx2 = (h2.x - h0.x) as i128;
    let dy2 = (h2.y - h0.y) as i128;
    let d01 = (h1.z - h0.z) as i128;
    proof {
        lemma_abs_mul_le(dx1 as int, dz20 as int, 2 * COORD_LIMIT as int, 2 * COORD_LIMIT as int);
        lemma_abs_mul_le(dy1 as int, dz20 as int, 2 * COORD_LIMIT as int, 2 * COORD_LIMIT as int);
        lemma_abs_mul_le(dx2 as int, d01 as int, 2 * COORD_LIMIT as int, 2 * COORD_LIMIT as int);
        lemma_abs_mul_le(dy2 as int, d01 as int, 2 * COORD_LIMIT as int, 2 * COORD_LIMIT as int);
    }
    let nx = dx1 * dz20 - dx2 * d01;
    let ny = dy1 * dz20 - dy2 * d01;
    let nxa = if nx >= 0 { nx } else { -nx };
    let nya = if ny >= 0 { ny } else { -ny };
    (nxa, nya)
}

/// The three-hit tolerance test, decided exactly.
pub fn tolerant(
    tol_x: &Fraction,
    tol_y: &Fraction,
    max_scatter: &Fraction,
    h0: &Hit,
    h1: &Hit,
    h2: &Hit,
) -> (r: bool)
    requires
        tol_x.wf(),
        tol_y.wf(),
        max_scatter.wf(),
        h0.wf(),
        h1.wf(),
        h2.wf(),
    ensures
        r == spec_tolerant(*tol_x, *tol_y, *max_scatter, *h0, *h1, *h2),
{
    let d01 = h1.z - h0.z;
    if d01 == 0 {
        return false;
    }
    let d21 = h2.z - h1.z;
    if d21 == 0 {
        return false;
    }
    let (nx, ny) = residual_abs(h0, h1, h2);
    let d01a = abs_i64(d01) as i128;
    let d21a = abs_i64(d21) as i128;
    let ghost nmax: int = 8 * COORD_LIMIT as int * COORD_LIMIT as int;
    proof {
        lemma_abs_mul_le(nx as int, tol_x.den as int, nmax, PARAM_LIMIT as int);
        lemma_abs_mul_le(ny as int, tol_y.den as int, nmax, PARAM_LIMIT as int);
        lemma_abs_mul_le(tol_x.num as int, d01a as int, PARAM_LIMIT as int, 2 * COORD_LIMIT as int);
        lemma_abs_mul_le(tol_y.num as int, d01a as int, PARAM_LIMIT as int, 2 * COORD_LIMIT as int);
    }
    if !(nx * (tol_x.den as i128) < (tol_x.num as i128) * d01a) {
        return false;
    }
    if !(ny * (tol_y.den as i128) < (tol_y.num as i128) * d01a) {
        return false;
    }
    proof {
        lemma_abs_mul_le(nx as int, ny as int, nmax, nmax);
        lemma_abs_mul_le(ny as int, ny as int, nmax, nmax);
        lemma_abs_mul_le((nx * ny + ny * ny) as int, max_scatter.den as int, 2 * nmax * nmax, PARAM_LIMIT as int);
        lemma_abs_mul_le(d01a as int, d01a as int, 2 * COORD_LIMIT as int, 2 * COORD_LIMIT as int);
        lemma_abs_mul_le(
            max_scatter.num as int,
            (d01a * d01a) as int,
            PARAM_LIMIT as int,
            4 * COORD_LIMIT as int * COORD_LIMIT as int,
        );
        lemma_abs_mul_le(d21a as int, d21a as int, 2 * COORD_LIMIT as int, 2 * COORD_LIMIT as int);
        lemma_abs_mul_le(
            (max_scatter.num as i128 * (d01a * d01a)) as int,
            (d21a * d21a) as int,
            PARAM_LIMIT as int * (4 * COORD_LIMIT as int * COORD_LIMIT as int),
            4 * COORD_LIMIT as int * COORD_LIMIT as int,
        );
    }
    let lhs = (nx * ny + ny * ny) * (max_scatter.den as i128);
    let rhs = (max_scatter.num as i128) * (d01a * d01a) * (d21a * d21a);
    proof {
        lemma_abs_square(d01 as int);
        lemma_abs_square(d21 as int);
    }
    lhs < rhs
}

/// `|a| * |a| == a * a`.
pub proof fn lemma_abs_square(a: int)
    by (nonlinear_arith)
    ensures
        abs_int(a) * abs_int(a) == a * a,
{
}

/// Largest possible numerator of a scatter value.
pub open spec fn scatter_num_limit() -> int {
    128 * (COORD_LIMIT as int) * (COORD_LIMIT as int) * (COORD_LIMIT as int) * (COORD_LIMIT as int)
}

/// Largest possible denominator of a scatter value.
pub open spec fn scatter_den_limit() -> int {
    4 * (COORD_LIMIT as int) * (COORD_LIMIT as int)
}

/// An exact scatter value `num / den`, as used by the triplet engine:
/// the squared distance between the extrapolated line and the third hit.
/// `den == 0` encodes the degenerate case `h0.z == h1.z`, which never
/// compares below any limit.
#[derive(Clone, Copy, Debug)]
pub struct Scatter {
    pub num: i128,
    pub den: i128,
}

impl Scatter {
    pub open spec fn wf(self) -> bool {
        0 <= self.num <= scatter_num_limit() && 0 <= self.den <= scatter_den_limit()
    }

    /// `self < other` as rational values; false whenever a denominator is
    /// zero, so a degenerate scatter never wins a comparison.
    pub open spec fn spec_lt(self, other: Scatter) -> bool {
        self.den > 0 && other.den > 0 && self.num * other.den < other.num * self.den
    }

    /// A parameter fraction as a scatter value, so scatter candidates can
    /// be compared against the engine's limit.
    pub fn from_fraction(f: &Fraction) -> (r: Scatter)
        requires
            f.wf(),
        ensures
            r.num == f.num as int,
            r.den == f.den as int,
            r.wf(),
            r.den > 0,
    {
        Scatter { num: f.num as i128, den: f.den as i128 }
    }

    /// Exact rational comparison.
    pub fn lt(&self, other: &Scatter) -> (r: bool)
        requires
            self.wf(),
            other.wf(),
        ensures
            r == self.spec_lt(*other),
    {
        if self.den <= 0 || other.den <= 0 {
            return false;
        }
        proof {
            lemma_abs_mul_le(
                self.num as int,
                other.den as int,
                scatter_num_limit(),
                scatter_den_limit(),
            );
            lemma_abs_mul_le(
                other.num as int,
                self.den as int,
                scatter_num_limit(),
                scatter_den_limit(),
            );
            assert(scatter_num_limit() * scatter_den_limit() < i128::MAX as int)
                by (nonlinear_arith);
        }
        self.num * other.den < other.num * self.den
    }
}

/// The scatter of a triplet: squared transverse miss distance of the
/// extrapolation through `h0` and `h1` at `h2.z`, as an exact rational.
pub open spec fn spec_scatter(h0: Hit, h1: Hit, h2: Hit) -> Scatter {
    let d01 = h1.z - h0.z;
    let nx = residual_x(h0, h1, h2);
    let ny = residual_y(h0, h1, h2);
    Scatter { num: (nx * nx + ny * ny) as i128, den: (d01 * d01) as i128 }
}

/// Computes the scatter of a triplet exactly.
pub fn calculate_scatter(h0: &Hit, h1: &Hit, h2: &Hit) -> (r: Scatter)
    requires
        h0.wf(),
        h1.wf(),
        h2.wf(),
    ensures
        r == spec_scatter(*h0, *h1, *h2),
        r.wf(),
{
    let (nx, ny) = residual_abs(h0, h1, h2);
    let d01 = (h1.z - h0.z) as i128;
    let ghost nmax: int = 8 * COORD_LIMIT as int * COORD_LIMIT as int;
    proof {
        lemma_abs_mul_le(nx as int, nx as int, nmax, nmax);
        lemma_abs_mul_le(ny as int, ny as int, nmax, nmax);
        lemma_abs_mul_le(d01 as int, d01 as int, 2 * COORD_LIMIT as int, 2 * COORD_LIMIT as int);
        lemma_abs_square(residual_x(*h0, *h1, *h2));
        lemma_abs_square(residual_y(*h0, *h1, *h2));
        lemma_abs_square((h1.z - h0.z) as int);
        lemma_square_nonneg(residual_x(*h0, *h1, *h2));
        lemma_square_nonneg(residual_y(*h0, *h1, *h2));
        lemma_square_nonneg((h1.z - h0.z) as int);
    }
    Scatter { num: nx * nx + ny * ny, den: d01 * d01 }
}

/// Rational order on scatter values is transitive.
pub proof fn lemma_scatter_lt_trans(a: Scatter, b: Scatter, c: Scatter)
    by (nonlinear_arith)
    requires
        a.spec_lt(b),
        b.spec_lt(c),
    ensures
        a.spec_lt(c),
{
}

/// Squares are non-negative.
pub proof fn lemma_square_nonneg(a: int)
    by (nonlinear_arith)
    ensures
        a * a >= 0,
{
}

} // verus!
