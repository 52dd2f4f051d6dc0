//! Points and vectors in the image plane.
//!
//! One concrete type serves both roles of the plane: integer pixel
//! coordinates (origin at the top left, x right, y down) and fixed-point
//! continuous coordinates scaled by [`crate::fixed::SCALE`].

use vstd::prelude::*;
use crate::fixed::{SCALE, tdiv, sqrt_floor, mul_div, tdiv64, isqrt_u128};
use crate::fixed::{is_sqrt_floor, lemma_sqrt_exists, lemma_sqrt_floor_is, lemma_tdiv_scale_bound,
    lemma_mul_bounds_abs};

verus! {

/// A point or vector in 2-D, with `i64` components.
#[derive(Clone, Copy, Debug, PartialEq, Eq, Structural, Hash)]
pub struct Point2 {
    pub x: i64,
    pub y: i64,
}

/// Squared Euclidean length of `p` as a vector.
pub open spec fn norm_sq(p: Point2) -> int {
    p.x * p.x + p.y * p.y
}

/// Floor of the Euclidean length of `p` as a vector.
pub open spec fn norm_spec(p: Point2) -> int {
    sqrt_floor(norm_sq(p))
}

/// Floor of the Euclidean distance between `p` and `q`.
pub open spec fn dist_spec(p: Point2, q: Point2) -> int {
    sqrt_floor((p.x - q.x) * (p.x - q.x) + (p.y - q.y) * (p.y - q.y))
}

/// X component of the fixed-point unit vector in the direction of `p`;
/// zero for the zero vector.
pub open spec fn unit_x(p: Point2) -> int {
    if norm_spec(p) == 0 {
        0
    } else {
        tdiv(p.x * SCALE, norm_spec(p))
    }
}

/// Y component of the fixed-point unit vector in the direction of `p`;
/// zero for the zero vector.
pub open spec fn unit_y(p: Point2) -> int {
    if norm_spec(p) == 0 {
        0
    } else {
        tdiv(p.y * SCALE, norm_spec(p))
    }
}

/// Truncation of fixed-point coordinates to pixel coordinates.
pub open spec fn pixel_of(p: Point2) -> Point2 {
    Point2 { x: tdiv(p.x as int, SCALE as int) as i64, y: tdiv(p.y as int, SCALE as int) as i64 }
}

/// Component-wise negation as a point value.
pub open spec fn pneg(p: Point2) -> Point2 {
    Point2 { x: (-p.x) as i64, y: (-p.y) as i64 }
}

/// Component-wise difference as a point value.
pub open spec fn psub(a: Point2, b: Point2) -> Point2 {
    Point2 { x: (a.x - b.x) as i64, y: (a.y - b.y) as i64 }
}

/// Both components of `p` lie within `[-b, b]`.
pub open spec fn within(p: Point2, b: int) -> bool {
    -b <= p.x <= b && -b <= p.y <= b
}

/// Every point of `s` lies within `[-b, b]` in both components.
pub open spec fn all_within(s: Seq<Point2>, b: int) -> bool {
    forall|i: int| 0 <= i < s.len() ==> within(#[trigger] s[i], b)
}

/// Component-wise sum as a point value.
pub open spec fn padd(a: Point2, b: Point2) -> Point2 {
    Point2 { x: (a.x + b.x) as i64, y: (a.y + b.y) as i64 }
}

/// Safe magnitude for a single coordinate entering products and norms.
pub const COORD_LIMIT: i64 = 0x1000_0000_0000_0000;

/// The floor square root satisfies its defining inequalities.
pub proof fn lemma_norm_def(p: Point2)
    ensures
        0 <= norm_spec(p),
        norm_spec(p) * norm_spec(p) <= norm_sq(p),
        norm_sq(p) < (norm_spec(p) + 1) * (norm_spec(p) + 1),
{
    assert(p.x * p.x >= 0) by (nonlinear_arith);
    assert(p.y * p.y >= 0) by (nonlinear_arith);
    lemma_sqrt_exists(norm_sq(p));
    let r = choose|r: int| is_sqrt_floor(norm_sq(p), r);
    lemma_sqrt_floor_is(norm_sq(p), r);
}

/// Each component of a vector is bounded in magnitude by the vector's norm.
pub proof fn lemma_norm_component_bound(p: Point2)
    ensures
        -norm_spec(p) <= p.x <= norm_spec(p),
        -norm_spec(p) <= p.y <= norm_spec(p),
{
    lemma_norm_def(p);
    let n = norm_spec(p);
    if p.x > n || p.x < -n {
        assert(p.x * p.x >= (n + 1) * (n + 1)) by (nonlinear_arith)
            requires
                n >= 0,
                p.x > n || p.x < -n,
        ;
        assert(p.y * p.y >= 0) by (nonlinear_arith);
        assert(false);
    }
    if p.y > n || p.y < -n {
        assert(p.y * p.y >= (n + 1) * (n + 1)) by (nonlinear_arith)
            requires
                n >= 0,
                p.y > n || p.y < -n,
        ;
        assert(p.x * p.x >= 0) by (nonlinear_arith);
        assert(false);
    }
}

/// The norm is bounded by the sum of the component magnitudes.
pub proof fn lemma_norm_sum_bound(p: Point2, m: int)
    requires
        within(p, m),
        m >= 0,
    ensures
        norm_spec(p) <= 2 * m,
{
    lemma_norm_def(p);
    let n = norm_spec(p);
    if n > 2 * m {
        assert(n * n > (2 * m) * (2 * m)) by (nonlinear_arith)
            requires
                n > 2 * m,
                m >= 0,
        ;
        assert(p.x * p.x <= m * m) by (nonlinear_arith)
            requires
                -m <= p.x <= m,
        ;
        assert(p.y * p.y <= m * m) by (nonlinear_arith)
            requires
                -m <= p.y <= m,
        ;
        assert((2 * m) * (2 * m) >= m * m + m * m) by (nonlinear_arith)
            requires
                m >= 0,
        ;
        assert(false);
    }
}

impl Point2 {
    /// Make a point from its two components.
    pub fn new(x: i64, y: i64) -> (r: Self)
        ensures
            r.x == x,
            r.y == y,
    {
        Self { x, y }
    }

    /// Dot product, exact in 128 bits.
    pub fn dot(self, v: Self) -> (r: i128)
        requires
            self.x > i64::MIN,
            self.y > i64::MIN,
            v.x > i64::MIN,
            v.y > i64::MIN,
        ensures
            r == self.x * v.x + self.y * v.y,
    {
        proof {
            lemma_mul_bounds_abs(self.x as int, v.x as int, i64::MAX as int, i64::MAX as int);
            lemma_mul_bounds_abs(self.y as int, v.y as int, i64::MAX as int, i64::MAX as int);
            assert((i64::MAX as int) * (i64::MAX as int) * 2 <= i128::MAX as int)
                by (nonlinear_arith);
        }
        (self.x as i128) * (v.x as i128) + (self.y as i128) * (v.y as i128)
    }

    /// Translate by the vector `v`.
    pub fn translate(self, v: Self) -> (r: Self)
        requires
            i64::MIN <= self.x + v.x <= i64::MAX,
            i64::MIN <= self.y + v.y <= i64::MAX,
        ensures
            r.x == self.x + v.x,
            r.y == self.y + v.y,
    {
        Self { x: self.x + v.x, y: self.y + v.y }
    }

    /// Component-wise difference, `self - v`.
    pub fn minus(self, v: Self) -> (r: Self)
        requires
            i64::MIN <= self.x - v.x <= i64::MAX,
            i64::MIN <= self.y - v.y <= i64::MAX,
        ensures
            r.x == self.x - v.x,
            r.y == self.y - v.y,
    {
        Self { x: self.x - v.x, y: self.y - v.y }
    }

    /// The opposite vector.
    pub fn negated(self) -> (r: Self)
        requires
            self.x > i64::MIN,
            self.y > i64::MIN,
        ensures
            r.x == -self.x,
            r.y == -self.y,
    {
        Self { x: -self.x, y: -self.y }
    }

    /// Rotate about `origin` by the angle whose fixed-point cosine and sine
    /// are given.
    pub fn rotate(&self, origin: Self, cos_fx: i64, sin_fx: i64) -> (r: Self)
        requires
            within(*self, 0x1000_0000_0000_0000),
            within(origin, 0x1000_0000_0000_0000),
            -SCALE <= cos_fx <= SCALE,
            -SCALE <= sin_fx <= SCALE,
        ensures
            r.x == tdiv((self.x - origin.x) * cos_fx, SCALE as int) - tdiv(
                (self.y - origin.y) * sin_fx,
                SCALE as int,
            ) + origin.x,
            r.y == tdiv((self.x - origin.x) * sin_fx, SCALE as int) + tdiv(
                (self.y - origin.y) * cos_fx,
                SCALE as int,
            ) + origin.y,
    {
        let dx = self.x - origin.x;
        let dy = self.y - origin.y;
        proof {
            lemma_mul_bounds_abs(dx as int, cos_fx as int, 0x2000_0000_0000_0000, SCALE as int);
            lemma_mul_bounds_abs(dx as int, sin_fx as int, 0x2000_0000_0000_0000, SCALE as int);
            lemma_mul_bounds_abs(dy as int, cos_fx as int, 0x2000_0000_0000_0000, SCALE as int);
            lemma_mul_bounds_abs(dy as int, sin_fx as int, 0x2000_0000_0000_0000, SCALE as int);
            lemma_tdiv_scale_bound(dx as int * cos_fx as int, SCALE as int, 0x2000_0000_0000_0000);
            lemma_tdiv_scale_bound(dx as int * sin_fx as int, SCALE as int, 0x2000_0000_0000_0000);
            lemma_tdiv_scale_bound(dy as int * cos_fx as int, SCALE as int, 0x2000_0000_0000_0000);
            lemma_tdiv_scale_bound(dy as int * sin_fx as int, SCALE as int, 0x2000_0000_0000_0000);
        }
        let xc = mul_div(dx, cos_fx, SCALE);
        let xs = mul_div(dx, sin_fx, SCALE);
        let yc = mul_div(dy, cos_fx, SCALE);
        let ys = mul_div(dy, sin_fx, SCALE);
        Self { x: xc - ys + origin.x, y: xs + yc + origin.y }
    }

    /// Floor of the Euclidean length of `self` as a vector.
    pub fn norm(self) -> (r: i64)
        requires
            within(self, COORD_LIMIT as int),
        ensures
            r == norm_spec(self),
            r >= 0,
    {
        proof {
            lemma_mul_bounds_abs(self.x as int, self.x as int, COORD_LIMIT as int, COORD_LIMIT as int);
            lemma_mul_bounds_abs(self.y as int, self.y as int, COORD_LIMIT as int, COORD_LIMIT as int);
            assert(self.x * self.x >= 0) by (nonlinear_arith);
            assert(self.y * self.y >= 0) by (nonlinear_arith);
            assert(COORD_LIMIT as int * COORD_LIMIT as int * 2 < i128::MAX as int) by (nonlinear_arith);
        }
        let sq: i128 = (self.x as i128) * (self.x as i128) + (self.y as i128) * (self.y as i128);
        let r = isqrt_u128(sq as u128);
        proof {
            assert((r as int) * (r as int) <= norm_sq(self) < (r as int + 1) * (r as int + 1));
            lemma_sqrt_floor_is(norm_sq(self), r as int);
            lemma_norm_component_bound(self);
            lemma_norm_sum_bound(self, COORD_LIMIT as int);
        }
        r as i64
    }

    /// Fixed-point unit vector in the direction of `self`; the origin when
    /// `self` is the zero vector.
    pub fn get_normalized(self) -> (r: Self)
        requires
            within(self, COORD_LIMIT as int),
        ensures
            r.x == unit_x(self),
            r.y == unit_y(self),
            within(r, SCALE as int),
    {
        let n = self.norm();
        if n == 0 {
            proof {
                lemma_norm_def(self);
            }
            Self { x: 0, y: 0 }
        } else {
            proof {
                lemma_norm_component_bound(self);
                let nn = norm_spec(self);
                lemma_mul_bounds_abs(self.x as int, SCALE as int, nn, SCALE as int);
                lemma_mul_bounds_abs(self.y as int, SCALE as int, nn, SCALE as int);
                assert(nn * SCALE == SCALE * nn) by (nonlinear_arith);
                lemma_tdiv_scale_bound(self.x * SCALE, nn, SCALE as int);
                lemma_tdiv_scale_bound(self.y * SCALE, nn, SCALE as int);
            }
            let rx = mul_div(self.x, SCALE, n);
            let ry = mul_div(self.y, SCALE, n);
            Self { x: rx, y: ry }
        }
    }

    /// Floor of the Euclidean distance from `self` to `other`.
    pub fn distance_to(self, other: Self) -> (r: i64)
        requires
            within(self, (COORD_LIMIT / 2) as int),
            within(other, (COORD_LIMIT / 2) as int),
        ensures
            r == dist_spec(self, other),
            r >= 0,
    {
        let d = self.minus(other);
        d.norm()
    }

    /// Interpret integer pixel coordinates as fixed-point coordinates.
    pub fn to_fixed(self) -> (r: Self)
        requires
            within(self, (COORD_LIMIT / SCALE) as int),
        ensures
            r.x == self.x * SCALE,
            r.y == self.y * SCALE,
    {
        proof {
            lemma_mul_bounds_abs(self.x as int, SCALE as int, (COORD_LIMIT / SCALE) as int, SCALE as int);
            lemma_mul_bounds_abs(self.y as int, SCALE as int, (COORD_LIMIT / SCALE) as int, SCALE as int);
            assert((COORD_LIMIT / SCALE) as int * SCALE <= COORD_LIMIT as int) by (nonlinear_arith)
                requires
                    (COORD_LIMIT / SCALE) as int == COORD_LIMIT as int / SCALE as int,
            ;
        }
        Self { x: self.x * SCALE, y: self.y * SCALE }
    }

    /// Truncate fixed-point coordinates to integer pixel coordinates.
    pub fn to_pixel(self) -> (r: Self)
        requires
            self.x > i64::MIN,
            self.y > i64::MIN,
        ensures
            r.x == tdiv(self.x as int, SCALE as int),
            r.y == tdiv(self.y as int, SCALE as int),
            r == pixel_of(self),
    {
        Self { x: tdiv64(self.x, SCALE), y: tdiv64(self.y, SCALE) }
    }
}


/// A point whose pixel projection is bounded by `b` is itself bounded by
/// `(b + 1) * SCALE` in fixed-point units.
pub proof fn lemma_pixel_bound(p: Point2, b: int)
    requires
        b >= 0,
        within(pixel_of(p), b),
    ensures
        within(p, (b + 1) * SCALE),
{
    if p.x >= 0 {
        vstd::arithmetic::div_mod::lemma_fundamental_div_mod(p.x as int, SCALE as int);
        vstd::arithmetic::mul::lemma_mul_inequality(p.x as int / SCALE as int, b, SCALE as int);
    } else {
        vstd::arithmetic::div_mod::lemma_fundamental_div_mod(-p.x as int, SCALE as int);
        vstd::arithmetic::mul::lemma_mul_inequality(-p.x as int / SCALE as int, b, SCALE as int);
    }
    if p.y >= 0 {
        vstd::arithmetic::div_mod::lemma_fundamental_div_mod(p.y as int, SCALE as int);
        vstd::arithmetic::mul::lemma_mul_inequality(p.y as int / SCALE as int, b, SCALE as int);
    } else {
        vstd::arithmetic::div_mod::lemma_fundamental_div_mod(-p.y as int, SCALE as int);
        vstd::arithmetic::mul::lemma_mul_inequality(-p.y as int / SCALE as int, b, SCALE as int);
    }
    assert((b + 1) * SCALE == b * SCALE + SCALE) by (nonlinear_arith);
}

/// Scaling a pixel point to fixed point and truncating back is the
/// identity.
pub proof fn lemma_pixel_of_fixed(p: Point2)
    requires
        within(p, 0x10_0000),
    ensures
        pixel_of(Point2 { x: (p.x * SCALE) as i64, y: (p.y * SCALE) as i64 }) == p,
{
    lemma_mul_bounds_abs(p.x as int, SCALE as int, 0x10_0000, SCALE as int);
    lemma_mul_bounds_abs(p.y as int, SCALE as int, 0x10_0000, SCALE as int);
    if p.x >= 0 {
        vstd::arithmetic::div_mod::lemma_div_multiples_vanish(p.x as int, SCALE as int);
    } else {
        vstd::arithmetic::div_mod::lemma_div_multiples_vanish(-p.x as int, SCALE as int);
        assert((-p.x) * SCALE == -(p.x * SCALE)) by (nonlinear_arith);
    }
    if p.y >= 0 {
        vstd::arithmetic::div_mod::lemma_div_multiples_vanish(p.y as int, SCALE as int);
    } else {
        vstd::arithmetic::div_mod::lemma_div_multiples_vanish(-p.y as int, SCALE as int);
        assert((-p.y) * SCALE == -(p.y * SCALE)) by (nonlinear_arith);
    }
}

/// The distance between two points bounded by `m` in each coordinate is at
/// most `4 * m`.
pub proof fn lemma_dist_bound(p: Point2, q: Point2, m: int)
    requires
        within(p, m),
        within(q, m),
        0 <= m <= 0x1000_0000_0000_0000,
    ensures
        0 <= dist_spec(p, q) <= 4 * m,
{
    let d = psub(p, q);
    assert(d.x == p.x - q.x && d.y == p.y - q.y);
    assert(dist_spec(p, q) == norm_spec(d));
    lemma_norm_def(d);
    lemma_norm_sum_bound(d, 2 * m);
}

} // verus!
