//! Geometry kernel: interpolation along a segment, unit normals, directed
//! line intersection, the outsetted 4-point subdivision step, corner
//! detection, and bounded retraction of a point into the hole.
//!
//! Angle thresholds are carried as fixed-point cosines: an angle is at
//! least `theta` exactly when the cosine of the angle is at most
//! `cos(theta)`, so corner tests compare unit-vector dot products against a
//! cosine threshold instead of computing inverse trigonometry.

use vstd::prelude::*;
use crate::fixed::{SCALE, tdiv, mul_div, tdiv64, lemma_tdiv_abs, lemma_tdiv_scale_bound,
    lemma_mul_bounds_abs};
use crate::point::{Point2, within, unit_x, unit_y, norm_spec, psub, pixel_of};
use crate::rect::BoundingRect;

verus! {

/// Bound on the coordinates accepted by the general geometry helpers.
pub const RANGE_LIMIT: i64 = 0x1000_0000_0000_0000;

/// Bound on the coordinates accepted by the line intersection routine.
pub const INTERSECT_LIMIT: i64 = 0x10_0000_0000;

/// Bound past which a computed intersection point is treated as unreachable
/// and the lines are reported parallel.
pub const FAR_LIMIT: i64 = 0x100_0000_0000;

/// `from.x + tdiv((to.x - from.x) * ratio, SCALE)`.
pub open spec fn in_between_x(from: Point2, to: Point2, ratio: int) -> int {
    from.x + tdiv((to.x - from.x) * ratio, SCALE as int)
}

/// `from.y + tdiv((to.y - from.y) * ratio, SCALE)`.
pub open spec fn in_between_y(from: Point2, to: Point2, ratio: int) -> int {
    from.y + tdiv((to.y - from.y) * ratio, SCALE as int)
}

/// Midpoint coordinates, rounding toward `p1`.
pub open spec fn midpoint_x(p1: Point2, p2: Point2) -> int {
    p1.x + tdiv(p2.x - p1.x, 2)
}

/// Midpoint coordinates, rounding toward `p1`.
pub open spec fn midpoint_y(p1: Point2, p2: Point2) -> int {
    p1.y + tdiv(p2.y - p1.y, 2)
}

/// The un-normalized right-hand normal of the line `p1 p2`.
pub open spec fn normal_vec(p1: Point2, p2: Point2) -> Point2 {
    Point2 { x: (-(p2.y - p1.y)) as i64, y: (p2.x - p1.x) as i64 }
}

/// A scaled step of magnitude at most `|d|` and of the sign of `d`.
proof fn lemma_scaled_step_bound(d: int, ratio: int)
    requires
        0 <= ratio <= SCALE,
    ensures
        d >= 0 ==> 0 <= tdiv(d * ratio, SCALE as int) <= d,
        d < 0 ==> d <= tdiv(d * ratio, SCALE as int) <= 0,
{
    if d >= 0 {
        lemma_mul_bounds_abs(d, ratio, d, SCALE as int);
        lemma_tdiv_scale_bound(d * ratio, SCALE as int, d);
        vstd::arithmetic::mul::lemma_mul_nonnegative(d, ratio);
        lemma_tdiv_abs(d * ratio, SCALE as int);
    } else {
        lemma_mul_bounds_abs(d, ratio, -d, SCALE as int);
        lemma_tdiv_scale_bound(d * ratio, SCALE as int, -d);
        vstd::arithmetic::mul::lemma_mul_nonnegative(-d, ratio);
        assert((-d) * ratio == -(d * ratio)) by (nonlinear_arith);
        lemma_tdiv_abs(d * ratio, SCALE as int);
    }
}

/// The point at parameter `ratio` (fixed point, `0` is `from`, `SCALE` is
/// `to`) on the segment from `from` to `to`.
pub fn calculate_in_between_point(from: Point2, to: Point2, ratio: i64) -> (r: Point2)
    requires
        0 <= ratio <= SCALE,
        within(from, RANGE_LIMIT as int),
        within(to, RANGE_LIMIT as int),
    ensures
        r.x == in_between_x(from, to, ratio as int),
        r.y == in_between_y(from, to, ratio as int),
        from.x <= to.x ==> from.x <= r.x <= to.x,
        to.x <= from.x ==> to.x <= r.x <= from.x,
        from.y <= to.y ==> from.y <= r.y <= to.y,
        to.y <= from.y ==> to.y <= r.y <= from.y,
        within(r, RANGE_LIMIT as int),
{
    proof {
        lemma_scaled_step_bound(to.x - from.x, ratio as int);
        lemma_scaled_step_bound(to.y - from.y, ratio as int);
    }
    let sx = mul_div(to.x - from.x, ratio, SCALE);
    let sy = mul_div(to.y - from.y, ratio, SCALE);
    Point2 { x: from.x + sx, y: from.y + sy }
}

/// Midpoint of `p1` and `p2`, rounding toward `p1`.
pub fn calculate_midpoint(p1: Point2, p2: Point2) -> (r: Point2)
    requires
        within(p1, RANGE_LIMIT as int),
        within(p2, RANGE_LIMIT as int),
    ensures
        r.x == midpoint_x(p1, p2),
        r.y == midpoint_y(p1, p2),
        p1.x <= p2.x ==> p1.x <= r.x <= p2.x,
        p2.x <= p1.x ==> p2.x <= r.x <= p1.x,
        p1.y <= p2.y ==> p1.y <= r.y <= p2.y,
        p2.y <= p1.y ==> p2.y <= r.y <= p1.y,
        within(r, RANGE_LIMIT as int),
{
    proof {
        lemma_tdiv_abs(p2.x - p1.x, 2);
        lemma_tdiv_abs(p2.y - p1.y, 2);
        lemma_tdiv_scale_bound(p2.x - p1.x, 2, if p2.x >= p1.x { p2.x - p1.x } else { p1.x - p2.x });
        lemma_tdiv_scale_bound(p2.y - p1.y, 2, if p2.y >= p1.y { p2.y - p1.y } else { p1.y - p2.y });
    }
    let dx = tdiv64(p2.x - p1.x, 2);
    let dy = tdiv64(p2.y - p1.y, 2);
    Point2 { x: p1.x + dx, y: p1.y + dy }
}

/// Fixed-point unit normal of the directed line `p1 p2`, on its right-hand
/// side; negating the result gives the left-hand unit normal.
pub fn calculate_unit_normal_of_line(p1: Point2, p2: Point2) -> (r: Point2)
    requires
        within(p1, (crate::point::COORD_LIMIT / 2) as int),
        within(p2, (crate::point::COORD_LIMIT / 2) as int),
    ensures
        r.x == unit_x(normal_vec(p1, p2)),
        r.y == unit_y(normal_vec(p1, p2)),
        within(r, SCALE as int),
{
    let v = Point2 { x: -(p2.y - p1.y), y: p2.x - p1.x };
    v.get_normalized()
}

/// How two directed lines relate: they meet forward of both origins, they
/// are parallel, they are the same line, or they meet only backward.
#[derive(Clone, Copy, Debug, PartialEq, Eq, Structural)]
pub enum LineIntersectionResult {
    /// Extending both segments in their positive directions meets here.
    Intersect(Point2),
    /// No intersection at all.
    Parallel,
    /// Infinitely many intersections.
    Coincidence,
    /// The lines cross only in a non-forward direction.
    NotForward,
}

/// Sign test for the parameter `n / d`: nonnegative, the way IEEE division
/// signs a zero numerator by the sign of the denominator.
pub open spec fn ratio_forward(n: int, d: int) -> bool {
    if n == 0 {
        d > 0
    } else {
        (n > 0) <==> (d > 0)
    }
}

/// Denominator of the line intersection parameters.
pub open spec fn isect_denom(p1: Point2, p2: Point2, p3: Point2, p4: Point2) -> int {
    (p4.y - p3.y) * (p2.x - p1.x) - (p4.x - p3.x) * (p2.y - p1.y)
}

/// Numerator of the parameter along `p1 p2`.
pub open spec fn isect_numer_a(p1: Point2, p2: Point2, p3: Point2, p4: Point2) -> int {
    (p4.x - p3.x) * (p1.y - p3.y) - (p4.y - p3.y) * (p1.x - p3.x)
}

/// Numerator of the parameter along `p3 p4`.
pub open spec fn isect_numer_b(p1: Point2, p2: Point2, p3: Point2, p4: Point2) -> int {
    (p2.x - p1.x) * (p1.y - p3.y) - (p2.y - p1.y) * (p1.x - p3.x)
}

/// Truncating division whose sign follows the signs of both operands, for a
/// possibly negative divisor.
pub open spec fn tdiv_signed(a: int, b: int) -> int
    recommends
        b != 0,
{
    if b > 0 {
        tdiv(a, b)
    } else {
        tdiv(-a, -b)
    }
}

/// X coordinate of the forward intersection point.
pub open spec fn isect_point_x(p1: Point2, p2: Point2, p3: Point2, p4: Point2) -> int {
    p1.x + tdiv_signed(isect_numer_a(p1, p2, p3, p4) * (p2.x - p1.x), isect_denom(p1, p2, p3, p4))
}

/// Y coordinate of the forward intersection point.
pub open spec fn isect_point_y(p1: Point2, p2: Point2, p3: Point2, p4: Point2) -> int {
    p1.y + tdiv_signed(isect_numer_a(p1, p2, p3, p4) * (p2.y - p1.y), isect_denom(p1, p2, p3, p4))
}

/// Classification of the intersection of directed lines `p1 p2` and
/// `p3 p4`, mirrored by [`calculate_intersection`].
pub open spec fn isect_class(p1: Point2, p2: Point2, p3: Point2, p4: Point2) -> LineIntersectionResult {
    let denom = isect_denom(p1, p2, p3, p4);
    let na = isect_numer_a(p1, p2, p3, p4);
    let nb = isect_numer_b(p1, p2, p3, p4);
    if denom == 0 && na == 0 && nb == 0 {
        LineIntersectionResult::Coincidence
    } else if denom == 0 {
        LineIntersectionResult::Parallel
    } else if ratio_forward(na, denom) && ratio_forward(nb, denom) {
        let x = isect_point_x(p1, p2, p3, p4);
        let y = isect_point_y(p1, p2, p3, p4);
        if -FAR_LIMIT <= x <= FAR_LIMIT && -FAR_LIMIT <= y <= FAR_LIMIT {
            LineIntersectionResult::Intersect(Point2 { x: x as i64, y: y as i64 })
        } else {
            LineIntersectionResult::Parallel
        }
    } else {
        LineIntersectionResult::NotForward
    }
}

/// Signed 128-bit product of two coordinate differences.
fn diff_mul(a: i64, b: i64, c: i64, d: i64) -> (r: i128)
    requires
        -INTERSECT_LIMIT <= a <= INTERSECT_LIMIT,
        -INTERSECT_LIMIT <= b <= INTERSECT_LIMIT,
        -INTERSECT_LIMIT <= c <= INTERSECT_LIMIT,
        -INTERSECT_LIMIT <= d <= INTERSECT_LIMIT,
    ensures
        r == (a - b) * (c - d),
        -0x400_0000_0000_0000_0000i128 <= r <= 0x400_0000_0000_0000_0000i128,
{
    proof {
        lemma_mul_bounds_abs(
            a - b,
            c - d,
            2 * INTERSECT_LIMIT as int,
            2 * INTERSECT_LIMIT as int,
        );
        assert((2 * INTERSECT_LIMIT as int) * (2 * INTERSECT_LIMIT as int)
            == 0x400_0000_0000_0000_0000int) by (nonlinear_arith);
    }
    ((a - b) as i128) * ((c - d) as i128)
}

/// Classify the intersection of the directed lines `p1 p2` and `p3 p4`.
///
/// An intersection point farther than [`FAR_LIMIT`] in either coordinate is
/// reported as `Parallel`: at that distance the lines are parallel to within
/// the fixed-point resolution.
pub fn calculate_intersection(p1: Point2, p2: Point2, p3: Point2, p4: Point2) -> (r:
    LineIntersectionResult)
    requires
        within(p1, INTERSECT_LIMIT as int),
        within(p2, INTERSECT_LIMIT as int),
        within(p3, INTERSECT_LIMIT as int),
        within(p4, INTERSECT_LIMIT as int),
    ensures
        r == isect_class(p1, p2, p3, p4),
        r matches LineIntersectionResult::Intersect(q) ==> within(q, FAR_LIMIT as int),
{
    let denom: i128 = diff_mul(p4.y, p3.y, p2.x, p1.x) - diff_mul(p4.x, p3.x, p2.y, p1.y);
    let numera_a: i128 = diff_mul(p4.x, p3.x, p1.y, p3.y) - diff_mul(p4.y, p3.y, p1.x, p3.x);
    let numera_b: i128 = diff_mul(p2.x, p1.x, p1.y, p3.y) - diff_mul(p2.y, p1.y, p1.x, p3.x);
    if denom == 0 && numera_a == 0 && numera_b == 0 {
        return LineIntersectionResult::Coincidence;
    }
    if denom == 0 {
        return LineIntersectionResult::Parallel;
    }
    let fwd_a = if numera_a == 0 {
        denom > 0
    } else {
        (numera_a > 0) == (denom > 0)
    };
    let fwd_b = if numera_b == 0 {
        denom > 0
    } else {
        (numera_b > 0) == (denom > 0)
    };
    if fwd_a && fwd_b {
        let x = isect_coord(numera_a, p2.x - p1.x, denom, p1.x);
        let y = isect_coord(numera_a, p2.y - p1.y, denom, p1.y);
        if -FAR_LIMIT as i128 <= x && x <= FAR_LIMIT as i128 && -FAR_LIMIT as i128 <= y && y
            <= FAR_LIMIT as i128 {
            LineIntersectionResult::Intersect(Point2 { x: x as i64, y: y as i64 })
        } else {
            LineIntersectionResult::Parallel
        }
    } else {
        LineIntersectionResult::NotForward
    }
}

/// One coordinate of the intersection point, `base + tdiv_signed(na * d, denom)`.
fn isect_coord(na: i128, d: i64, denom: i128, base: i64) -> (r: i128)
    requires
        denom != 0,
        -0x1_0000_0000_0000_0000_0000i128 <= na <= 0x1_0000_0000_0000_0000_0000i128,
        -0x20_0000_0000 <= d <= 0x20_0000_0000,
        -0x1_0000_0000_0000_0000_0000i128 <= denom <= 0x1_0000_0000_0000_0000_0000i128,
        -INTERSECT_LIMIT <= base <= INTERSECT_LIMIT,
    ensures
        r == base + tdiv_signed(na * d, denom as int),
{
    proof {
        lemma_mul_bounds_abs(
            na as int,
            d as int,
            0x1_0000_0000_0000_0000_0000int,
            0x20_0000_0000int,
        );
        assert(0x1_0000_0000_0000_0000_0000int * 0x20_0000_0000int < i128::MAX as int)
            by (nonlinear_arith);
    }
    let p: i128 = na * (d as i128);
    let q: i128 = if denom > 0 {
        crate::fixed::tdiv128(p, denom)
    } else {
        crate::fixed::tdiv128(-p, -denom)
    };
    proof {
        lemma_tdiv_abs(
            if denom > 0 {
                p as int
            } else {
                -(p as int)
            },
            if denom > 0 {
                denom as int
            } else {
                -(denom as int)
            },
        );
    }
    (base as i128) + q
}


/// Bound on the coordinates of curve points handled by the smoothing and
/// corner routines.
pub const CURVE_LIMIT: i64 = 0x1_0000_0000_0000;

/// The interior point `s[i]` turns by at least the angle whose fixed-point
/// cosine is `cos_thr`: the unit tangents before and after `s[i]` have dot
/// product at most `cos_thr * SCALE`. A zero-length side is never a corner.
pub open spec fn corner_at(s: Seq<Point2>, cos_thr: int, i: int) -> bool
    recommends
        1 <= i < s.len() - 1,
{
    let v1 = psub(s[i], s[i - 1]);
    let v2 = psub(s[i + 1], s[i]);
    if norm_spec(v1) == 0 || norm_spec(v2) == 0 {
        false
    } else {
        unit_x(v1) * unit_x(v2) + unit_y(v1) * unit_y(v2) <= cos_thr * SCALE
    }
}

/// The corner mask of a path: true exactly at the interior indices whose
/// turn is at least the threshold angle.
pub open spec fn corners_of(p: Seq<Point2>, cos_thr: int) -> Seq<bool> {
    Seq::new(
        p.len(),
        |i: int|
            if 0 < i < p.len() - 1 {
                corner_at(p, cos_thr, i)
            } else {
                false
            },
    )
}

/// Mark the corners of `path`: interior indices whose turn angle is at
/// least the angle with fixed-point cosine `cos_threshold`. Endpoints are
/// never corners.
pub fn find_corners(path: &Vec<Point2>, cos_threshold: i64) -> (r: Vec<bool>)
    requires
        -SCALE <= cos_threshold <= SCALE,
        forall|i: int| 0 <= i < path@.len() ==> within(#[trigger] path@[i], CURVE_LIMIT as int),
    ensures
        r@.len() == path@.len(),
        path@.len() > 0 ==> r@[0] == false && r@[path@.len() - 1] == false,
        forall|i: int|
            1 <= i < path@.len() - 1 ==> r@[i] == corner_at(path@, cos_threshold as int, i),
        r@ == corners_of(path@, cos_threshold as int),
{
    let len = path.len();
    let mut corners: Vec<bool> = Vec::new();
    let mut i: usize = 0;
    while i < len
        invariant
            len == path@.len(),
            -SCALE <= cos_threshold <= SCALE,
            forall|k: int| 0 <= k < path@.len() ==> within(#[trigger] path@[k], CURVE_LIMIT as int),
            corners@.len() == i,
            i <= len,
            i > 0 ==> corners@[0] == false,
            forall|k: int|
                1 <= k < i && k < len - 1 ==> corners@[k] == corner_at(
                    path@,
                    cos_threshold as int,
                    k,
                ),
            forall|k: int| 0 <= k < i && (k == 0 || k == len - 1) ==> corners@[k] == false,
        decreases len - i,
    {
        if i == 0 || i + 1 == len {
            corners.push(false);
        } else {
            let v1 = path[i].minus(path[i - 1]);
            let v2 = path[i + 1].minus(path[i]);
            proof {
                assert(v1 == psub(path@[i as int], path@[i as int - 1]));
                assert(v2 == psub(path@[i as int + 1], path@[i as int]));
            }
            let n1 = v1.norm();
            let n2 = v2.norm();
            if n1 == 0 || n2 == 0 {
                corners.push(false);
            } else {
                let u1 = v1.get_normalized();
                let u2 = v2.get_normalized();
                let d = u1.dot(u2);
                proof {
                    lemma_mul_bounds_abs(
                        cos_threshold as int,
                        SCALE as int,
                        SCALE as int,
                        SCALE as int,
                    );
                }
                let is_corner = d <= (cos_threshold as i128) * (SCALE as i128);
                corners.push(is_corner);
            }
        }
        i = i + 1;
    }
    proof {
        assert(corners@ =~= corners_of(path@, cos_threshold as int));
    }
    corners
}

/// X coordinate of the outsetted 4-point subdivision of the segment
/// `p_i p_j` framed by `p_1` and `p_2`.
pub open spec fn four_point_x(p_i: Point2, p_j: Point2, p_1: Point2, p_2: Point2, outset: int) -> int {
    let mox = midpoint_x(p_i, p_j);
    let moy = midpoint_y(p_i, p_j);
    let mix = midpoint_x(p_1, p_2);
    let miy = midpoint_y(p_1, p_2);
    let v = Point2 { x: (mox - mix) as i64, y: (moy - miy) as i64 };
    let mag = tdiv(norm_spec(v) * SCALE, outset);
    if mag == 0 {
        mox
    } else {
        mox + tdiv(unit_x(v) * mag, SCALE as int)
    }
}

/// Y coordinate of the outsetted 4-point subdivision.
pub open spec fn four_point_y(p_i: Point2, p_j: Point2, p_1: Point2, p_2: Point2, outset: int) -> int {
    let mox = midpoint_x(p_i, p_j);
    let moy = midpoint_y(p_i, p_j);
    let mix = midpoint_x(p_1, p_2);
    let miy = midpoint_y(p_1, p_2);
    let v = Point2 { x: (mox - mix) as i64, y: (moy - miy) as i64 };
    let mag = tdiv(norm_spec(v) * SCALE, outset);
    if mag == 0 {
        moy
    } else {
        moy + tdiv(unit_y(v) * mag, SCALE as int)
    }
}

/// The outsetted Dyn-Levin subdivision point: the midpoint of the inner
/// segment `p_i p_j`, pushed outward from the midpoint of the framing
/// segment `p_1 p_2` by a fraction `1 / outset_ratio` of the offset between
/// the two midpoints.
pub fn find_new_point_from_4_point_scheme(
    p_i: Point2,
    p_j: Point2,
    p_1: Point2,
    p_2: Point2,
    outset_ratio: i64,
) -> (r: Point2)
    requires
        outset_ratio >= SCALE,
        within(p_i, CURVE_LIMIT as int),
        within(p_j, CURVE_LIMIT as int),
        within(p_1, CURVE_LIMIT as int),
        within(p_2, CURVE_LIMIT as int),
    ensures
        r.x == four_point_x(p_i, p_j, p_1, p_2, outset_ratio as int),
        r.y == four_point_y(p_i, p_j, p_1, p_2, outset_ratio as int),
        within(r, 8 * CURVE_LIMIT as int),
{
    let mid_out = calculate_midpoint(p_i, p_j);
    let mid_in = calculate_midpoint(p_1, p_2);
    let v = mid_out.minus(mid_in);
    let n = v.norm();
    proof {
        crate::point::lemma_norm_sum_bound(v, 2 * CURVE_LIMIT as int);
        assert(norm_spec(v) * SCALE <= norm_spec(v) * outset_ratio) by (nonlinear_arith)
            requires
                norm_spec(v) >= 0,
                SCALE <= outset_ratio,
        ;
        assert(-(norm_spec(v) * outset_ratio) <= norm_spec(v) * SCALE) by (nonlinear_arith)
            requires
                norm_spec(v) >= 0,
                0 < SCALE <= outset_ratio,
        ;
        lemma_tdiv_scale_bound(norm_spec(v) * SCALE, outset_ratio as int, norm_spec(v));
        crate::point::lemma_norm_def(v);
        vstd::arithmetic::mul::lemma_mul_nonnegative(norm_spec(v), SCALE as int);
        lemma_tdiv_abs(norm_spec(v) * SCALE, outset_ratio as int);
    }
    let mag = mul_div(n, SCALE, outset_ratio);
    if mag == 0 {
        mid_out
    } else {
        let u = v.get_normalized();
        proof {
            lemma_mul_bounds_abs(unit_x(v), mag as int, SCALE as int, mag as int);
            lemma_mul_bounds_abs(unit_y(v), mag as int, SCALE as int, mag as int);
            assert(SCALE as int * mag == mag * SCALE) by (nonlinear_arith);
            lemma_tdiv_scale_bound(unit_x(v) * mag, SCALE as int, mag as int);
            lemma_tdiv_scale_bound(unit_y(v) * mag, SCALE as int, mag as int);
        }
        let sx = mul_div(u.x, mag, SCALE);
        let sy = mul_div(u.y, mag, SCALE);
        Point2 { x: mid_out.x + sx, y: mid_out.y + sy }
    }
}

/// Retract `from` toward `to` by repeated interpolation with `retract_ratio`
/// until the integer projection of the point lies on the rim or inside the
/// hole. `to` must itself satisfy that predicate, so the retraction always
/// ends on a point that does; when a step makes no further progress the
/// target itself is returned.
/// The retraction trajectory as a mathematical function: the first
/// in-between iterate from `from` toward `to` whose pixel projection lies
/// on the rim or inside the hole, and `to` itself once a step makes no
/// further progress.
pub open spec fn retract_spec(from: Point2, to: Point2, ratio: int, rect: BoundingRect) -> Point2
    recommends
        0 <= ratio <= SCALE,
        within(from, RANGE_LIMIT as int),
        within(to, RANGE_LIMIT as int),
    decreases vstd::math::abs(to.x - from.x) + vstd::math::abs(to.y - from.y)
        when 0 <= ratio <= SCALE && within(from, RANGE_LIMIT as int) && within(
            to,
            RANGE_LIMIT as int,
        )
        via retract_spec_decreases
{
    if rect.inside_or_near(pixel_of(from), 1) {
        from
    } else {
        let nxt = Point2 {
            x: in_between_x(from, to, ratio) as i64,
            y: in_between_y(from, to, ratio) as i64,
        };
        if nxt == from {
            to
        } else {
            retract_spec(nxt, to, ratio, rect)
        }
    }
}

#[via_fn]
proof fn retract_spec_decreases(from: Point2, to: Point2, ratio: int, rect: BoundingRect) {
    lemma_scaled_step_bound(to.x - from.x, ratio);
    lemma_scaled_step_bound(to.y - from.y, ratio);
}

/// Retract `from` toward `to` by repeated interpolation with
/// `retract_ratio` until the integer projection of the point lies on the
/// rim or inside the hole; when a step stalls, the target itself — which
/// satisfies that predicate — is returned. The result is exactly
/// [`retract_spec`].
pub fn retract_point(
    from: Point2,
    to: Point2,
    retract_ratio: i64,
    hole_rect: &BoundingRect,
) -> (r: Point2)
    requires
        0 <= retract_ratio <= SCALE,
        within(from, RANGE_LIMIT as int),
        within(to, RANGE_LIMIT as int),
        hole_rect.wf(),
        hole_rect.inside_or_near(pixel_of(to), 1),
    ensures
        r == retract_spec(from, to, retract_ratio as int, *hole_rect),
        hole_rect.inside_or_near(pixel_of(r), 1),
        within(r, RANGE_LIMIT as int),
{
    let mut cur = from;
    loop
        invariant
            within(cur, RANGE_LIMIT as int),
            within(to, RANGE_LIMIT as int),
            0 <= retract_ratio <= SCALE,
            hole_rect.wf(),
            hole_rect.inside_or_near(pixel_of(to), 1),
            retract_spec(cur, to, retract_ratio as int, *hole_rect) == retract_spec(
                from,
                to,
                retract_ratio as int,
                *hole_rect,
            ),
        decreases vstd::math::abs(to.x - cur.x) + vstd::math::abs(to.y - cur.y),
    {
        let px = cur.to_pixel();
        if hole_rect.have_point_on_boundary_or_inside(px, 1) {
            proof {
                assert(retract_spec(cur, to, retract_ratio as int, *hole_rect) == cur);
            }
            return cur;
        }
        let nxt = calculate_in_between_point(cur, to, retract_ratio);
        proof {
            assert(nxt == (Point2 {
                x: in_between_x(cur, to, retract_ratio as int) as i64,
                y: in_between_y(cur, to, retract_ratio as int) as i64,
            }));
        }
        if nxt.x == cur.x && nxt.y == cur.y {
            proof {
                assert(nxt == cur);
                assert(retract_spec(cur, to, retract_ratio as int, *hole_rect) == to);
            }
            return to;
        }
        proof {
            assert(nxt != cur);
            assert(retract_spec(cur, to, retract_ratio as int, *hole_rect) == retract_spec(
                nxt,
                to,
                retract_ratio as int,
                *hole_rect,
            ));
        }
        cur = nxt;
    }
}

} // verus!
