//! Synthesis of the connector between a matched pair of segments:
//! iterative 4-point smoothing with corner preservation, weighted
//! tail-tangent estimation, optional tail-tangent correction, and the
//! geometric case analysis that yields one cubic spline or an S-shaped pair
//! of them, with control points retracted into the hole.

use vstd::prelude::*;
use crate::fixed::{SCALE, tdiv, tdiv64, mul_div, lemma_tdiv_abs, lemma_tdiv_scale_bound,
    lemma_tdiv_mono, lemma_mul_bounds_abs};
use crate::point::{Point2, within, all_within, psub, padd, pneg, pixel_of, unit_x, unit_y,
    norm_spec, dist_spec, lemma_dist_bound, lemma_pixel_bound, COORD_LIMIT};
use crate::geo::{LineIntersectionResult, isect_class, calculate_intersection, calculate_midpoint,
    calculate_in_between_point, calculate_unit_normal_of_line, find_corners,
    find_new_point_from_4_point_scheme, retract_point, midpoint_x, midpoint_y, normal_vec,
    RANGE_LIMIT, FAR_LIMIT};
use crate::spline::{CubicCurve, Spline, SPLINE_LIMIT};
use crate::rect::BoundingRect;

verus! {

/// Bound on the coordinates of the curves the intrapolator works on.
pub const CURVE_BOUND: i64 = 4 * SPLINE_LIMIT;

/// Bound on the coordinates of tail tangents, corrected or not.
pub const TANGENT_BOUND: i64 = 4 * CURVE_BOUND;

/// Tuning parameters for smoothing, tail-tangent estimation and control
/// point retraction. Lengths and ratios are fixed point; the corner
/// threshold is the fixed-point cosine of the corner angle.
#[derive(Clone, Copy, Debug, PartialEq, Eq, Structural)]
pub struct CurveIntrapolatorConfig {
    /// Divisor of the 4-point scheme offset; `SCALE` is a ratio of one.
    pub outset_ratio: i64,
    /// Segments shorter than this are not subdivided.
    pub min_segment_length: i64,
    /// Number of smoothing passes.
    pub smooth_max_iterations: usize,
    /// Fixed-point cosine of the corner angle threshold.
    pub corner_cos_threshold: i64,
    /// How many points at the tail enter the tangent estimate.
    pub tail_tangent_num_points: usize,
    /// Weight multiplier favoring points nearest the tail.
    pub tail_weight_multiplier: i64,
    /// Interpolation ratio of each retraction step.
    pub control_points_retract_ratio: i64,
}

impl CurveIntrapolatorConfig {
    /// The parameters are within the machine limits of the fixed-point
    /// arithmetic.
    pub open spec fn wf(self) -> bool {
        &&& self.outset_ratio >= SCALE
        &&& self.min_segment_length >= 0
        &&& -SCALE <= self.corner_cos_threshold <= SCALE
        &&& 2 <= self.tail_tangent_num_points <= 20
        &&& 0 <= self.tail_weight_multiplier <= 4 * SCALE
        &&& 0 <= self.control_points_retract_ratio <= SCALE
    }
}

impl Default for CurveIntrapolatorConfig {
    /// The defaults: outset ratio 8, minimum segment length 4 pixels, two
    /// smoothing passes, right-angle corners (cosine zero), five tail
    /// points with weight multiplier 1.5, retraction ratio 0.4.
    fn default() -> (r: Self)
        ensures
            r.outset_ratio == 8 * SCALE,
            r.min_segment_length == 4 * SCALE,
            r.smooth_max_iterations == 2,
            r.corner_cos_threshold == 0,
            r.tail_tangent_num_points == 5,
            r.tail_weight_multiplier == 1500,
            r.control_points_retract_ratio == 400,
            r.wf(),
    {
        Self {
            outset_ratio: 8 * SCALE,
            min_segment_length: 4 * SCALE,
            smooth_max_iterations: 2,
            corner_cos_threshold: 0,
            tail_tangent_num_points: 5,
            tail_weight_multiplier: 1500,
            control_points_retract_ratio: 400,
        }
    }
}

/// Bound on the magnitude of the tail-tangent accumulator after `k` steps.
pub open spec fn acc_cap(k: nat) -> int
    decreases k,
{
    if k == 0 {
        0
    } else {
        4 * acc_cap((k - 1) as nat) + SCALE
    }
}

/// The accumulator bound is nonnegative and nondecreasing.
proof fn lemma_acc_cap_nondec(k: nat)
    ensures
        acc_cap(k) >= 0,
        acc_cap(k) <= acc_cap(k + 1),
    decreases k,
{
    if k > 0 {
        lemma_acc_cap_nondec((k - 1) as nat);
    }
}

/// For at most twenty steps the accumulator stays far within range.
proof fn lemma_acc_cap_bounded(k: nat)
    requires
        k <= 20,
    ensures
        acc_cap(k) < 0x4_0000_0000_0000,
    decreases 20 - k,
{
    if k < 20 {
        lemma_acc_cap_nondec(k);
        lemma_acc_cap_bounded(k + 1);
    } else {
        assert(acc_cap(20) < 0x4_0000_0000_0000) by {
            reveal_with_fuel(acc_cap, 21);
        };
    }
}

/// Whether the smoothing window at `i` inserts a subdivision point: both
/// inner points are non-corners, the inner segment is long enough, and the
/// outsetted subdivision point stays in coordinate range.
pub open spec fn window_subdivides(
    path: Seq<Point2>,
    corners: Seq<bool>,
    outset: int,
    min_seg: int,
    i: int,
) -> bool
    recommends
        path.len() == corners.len(),
        path.len() >= 4,
        0 <= i < path.len() - 2,
{
    let a = path[i + 1];
    let b = path[i + 2];
    let w3 = if i + 3 < path.len() {
        path[i + 3]
    } else {
        path[path.len() - 1]
    };
    &&& !corners[i + 1]
    &&& !corners[i + 2]
    &&& dist_spec(a, b) >= min_seg
    &&& -CURVE_BOUND <= crate::geo::four_point_x(a, b, path[i], w3, outset) <= CURVE_BOUND
    &&& -CURVE_BOUND <= crate::geo::four_point_y(a, b, path[i], w3, outset) <= CURVE_BOUND
}

/// The tail-tangent accumulator after the walk starting at step `t` with
/// accumulator `acc` and walked length `len_acc`: each step scales the
/// accumulator by the weight multiplier and adds the unit direction of the
/// step toward the tail, stopping at the first corner, after `n - 1`
/// steps, or once the walked length reaches `base`.
pub open spec fn tail_acc(
    path: Seq<Point2>,
    corners: Seq<bool>,
    w: int,
    base: int,
    n: int,
    t: int,
    acc: Point2,
    len_acc: int,
) -> Point2
    decreases n - 1 - t
        when 0 <= t <= n - 1 && 2 <= n <= path.len() && path.len() == corners.len()
{
    if t >= n - 1 {
        acc
    } else if corners[path.len() - 2 - t] {
        acc
    } else {
        let from = path[path.len() - 2 - t];
        let to = path[path.len() - 1 - t];
        let d = psub(to, from);
        let acc2 = Point2 {
            x: (tdiv(acc.x * w, SCALE as int) + unit_x(d)) as i64,
            y: (tdiv(acc.y * w, SCALE as int) + unit_y(d)) as i64,
        };
        let len2 = len_acc + dist_spec(to, from);
        if len2 >= base {
            acc2
        } else {
            tail_acc(path, corners, w, base, n, t + 1, acc2, len2)
        }
    }
}

/// The weighted average tail tangent: the normalized accumulator of the
/// backward walk from the last point.
pub open spec fn weighted_tail_tangent(
    path: Seq<Point2>,
    corners: Seq<bool>,
    n: int,
    base: int,
    w: int,
) -> Point2 {
    let acc = tail_acc(path, corners, w, base, n, 0, Point2 { x: 0, y: 0 }, 0);
    Point2 { x: unit_x(acc) as i64, y: unit_y(acc) as i64 }
}

/// Synthesizes the in-between curve for one matched pair of segments.
pub struct CurveIntrapolator {
    pub config: CurveIntrapolatorConfig,
    pub hole_rect: BoundingRect,
}

/// The tangent after correction: if `t` points away from the other
/// endpoint, it is replaced by the right- or left-hand unit normal of the
/// line to the other endpoint — whichever shares `t`'s side — scaled to the
/// distance between the endpoints.
pub open spec fn corrected_tangent(t: Point2, root: Point2, seg: Point2) -> Point2 {
    let v = psub(seg, root);
    if t.x * v.x + t.y * v.y >= 0 {
        t
    } else {
        let un = Point2 {
            x: unit_x(normal_vec(root, seg)) as i64,
            y: unit_y(normal_vec(root, seg)) as i64,
        };
        let sided = if t.x * un.x + t.y * un.y >= 0 {
            un
        } else {
            Point2 { x: (-un.x) as i64, y: (-un.y) as i64 }
        };
        Point2 {
            x: tdiv(sided.x * norm_spec(v), SCALE as int) as i64,
            y: tdiv(sided.y * norm_spec(v), SCALE as int) as i64,
        }
    }
}

impl CurveIntrapolator {
    /// Make an intrapolator for the given hole.
    pub fn new(config: CurveIntrapolatorConfig, hole_rect: BoundingRect) -> (r: Self)
        ensures
            r.config == config,
            r.hole_rect == hole_rect,
    {
        Self { config, hole_rect }
    }

    /// One smoothing pass per the 4-point scheme: every segment between two
    /// non-corner points that is at least `min_segment_length` long gains
    /// the outsetted subdivision point (when it stays in coordinate range).
    /// Returns true, leaving the path untouched, when no point was inserted.
    pub fn smooth_open_curve_step(
        path: &mut Vec<Point2>,
        corners: &mut Vec<bool>,
        outset_ratio: i64,
        min_segment_length: i64,
    ) -> (no_change: bool)
        requires
            old(path)@.len() == old(corners)@.len(),
            old(path)@.len() >= 4,
            outset_ratio >= SCALE,
            min_segment_length >= 0,
            all_within(old(path)@, CURVE_BOUND as int),
        ensures
            final(path)@.len() == final(corners)@.len(),
            final(path)@.len() >= old(path)@.len(),
            final(path)@.len() >= 4,
            all_within(final(path)@, CURVE_BOUND as int),
            final(path)@[0] == old(path)@[0],
            final(path)@.last() == old(path)@.last(),
            no_change <==> final(path)@.len() == old(path)@.len(),
            no_change ==> final(path)@ == old(path)@ && final(corners)@ == old(corners)@,
            no_change <==> (forall|i: int|
                0 <= i < old(path)@.len() - 2 ==> !window_subdivides(
                    old(path)@,
                    old(corners)@,
                    outset_ratio as int,
                    min_segment_length as int,
                    i,
                )),
    {
        let len = path.len();
        let mut new_points: Vec<Point2> = Vec::new();
        let mut new_corners: Vec<bool> = Vec::new();
        new_points.push(path[0]);
        new_corners.push(corners[0]);
        let mut i: usize = 0;
        while i < len - 2
            invariant
                len == path@.len(),
                len == corners@.len(),
                len >= 4,
                path@ == old(path)@,
                corners@ == old(corners)@,
                outset_ratio >= SCALE,
                min_segment_length >= 0,
                all_within(path@, CURVE_BOUND as int),
                all_within(new_points@, CURVE_BOUND as int),
                i <= len - 2,
                new_points@.len() == new_corners@.len(),
                new_points@.len() >= i + 1,
                new_points@[0] == path@[0],
                (new_points@.len() == i + 1) <==> (forall|j: int|
                    0 <= j < i ==> !window_subdivides(
                        path@,
                        corners@,
                        outset_ratio as int,
                        min_segment_length as int,
                        j,
                    )),
            decreases len - 2 - i,
        {
            let ghost len_before = new_points@.len();
            new_points.push(path[i + 1]);
            new_corners.push(corners[i + 1]);
            let mut inserted = false;
            if !corners[i + 1] && !corners[i + 2] {
                let a = path[i + 1];
                let b = path[i + 2];
                proof {
                    lemma_dist_bound(a, b, CURVE_BOUND as int);
                }
                let seg_len = a.distance_to(b);
                if seg_len >= min_segment_length {
                    let w3 = if i + 3 < len {
                        path[i + 3]
                    } else {
                        path[len - 1]
                    };
                    let p = find_new_point_from_4_point_scheme(a, b, path[i], w3, outset_ratio);
                    if -CURVE_BOUND <= p.x && p.x <= CURVE_BOUND && -CURVE_BOUND <= p.y && p.y
                        <= CURVE_BOUND {
                        new_points.push(p);
                        new_corners.push(false);
                        inserted = true;
                    }
                }
            }
            proof {
                assert(inserted == window_subdivides(
                    path@,
                    corners@,
                    outset_ratio as int,
                    min_segment_length as int,
                    i as int,
                ));
                if inserted {
                    assert(new_points@.len() > i + 2);
                } else {
                    assert(new_points@.len() == len_before + 1);
                }
            }
            i = i + 1;
        }
        new_points.push(path[len - 1]);
        new_corners.push(corners[len - 1]);
        if new_points.len() == len {
            true
        } else {
            let ghost np = new_points@;
            *path = new_points;
            *corners = new_corners;
            proof {
                assert(path@.last() == np[np.len() - 1]);
            }
            false
        }
    }

    /// Smooth the path by up to `max_iterations` 4-point passes, keeping
    /// corners, and stop early as soon as a pass inserts nothing. Paths of
    /// fewer than four points are returned unchanged. The endpoints are
    /// never moved. Returns the smoothed path and its corner mask.
    pub fn smooth_open_curve_iterative(
        path: Vec<Point2>,
        outset_ratio: i64,
        min_segment_length: i64,
        max_iterations: usize,
        corner_cos_threshold: i64,
    ) -> (r: (Vec<Point2>, Vec<bool>))
        requires
            outset_ratio >= SCALE,
            min_segment_length >= 0,
            -SCALE <= corner_cos_threshold <= SCALE,
            all_within(path@, CURVE_BOUND as int),
        ensures
            r.0@.len() == r.1@.len(),
            r.0@.len() >= path@.len(),
            all_within(r.0@, CURVE_BOUND as int),
            path@.len() > 0 ==> r.0@[0] == path@[0] && r.0@.last() == path@.last(),
            path@.len() < 4 ==> (r.0@ == path@ && r.1@ == crate::geo::corners_of(
                path@,
                corner_cos_threshold as int,
            )),
    {
        proof {
            assert(CURVE_BOUND < crate::geo::CURVE_LIMIT);
        }
        let corners0 = find_corners(&path, corner_cos_threshold);
        if path.len() < 4 {
            return (path, corners0);
        }
        let mut p = path;
        let mut c = corners0;
        let ghost orig = p@;
        let mut k: usize = 0;
        while k < max_iterations
            invariant
                p@.len() == c@.len(),
                p@.len() >= 4,
                p@.len() >= orig.len(),
                outset_ratio >= SCALE,
                min_segment_length >= 0,
                all_within(p@, CURVE_BOUND as int),
                p@[0] == orig[0],
                p@.last() == orig.last(),
                k <= max_iterations,
            decreases max_iterations - k,
        {
            let done = Self::smooth_open_curve_step(
                &mut p,
                &mut c,
                outset_ratio,
                min_segment_length,
            );
            if done {
                break;
            }
            k = k + 1;
        }
        (p, c)
    }

    /// The weighted average tangent at the tail of the path: walking from
    /// the last point backward over at most `n` points, stopping at the
    /// first corner or once the walked length reaches `base_length`, each
    /// step scales the accumulator by `tail_weight_multiplier` and adds the
    /// step's unit direction; the result is the normalized accumulator,
    /// pointing toward the tail.
    pub fn calculate_weighted_average_tangent_at_tail(
        path: &Vec<Point2>,
        corners: &Vec<bool>,
        n: usize,
        base_length: i64,
        tail_weight_multiplier: i64,
    ) -> (r: Point2)
        requires
            path@.len() == corners@.len(),
            2 <= n <= path@.len(),
            n <= 20,
            base_length >= 0,
            0 <= tail_weight_multiplier <= 4 * SCALE,
            all_within(path@, CURVE_BOUND as int),
        ensures
            r == weighted_tail_tangent(
                path@,
                corners@,
                n as int,
                base_length as int,
                tail_weight_multiplier as int,
            ),
            within(r, SCALE as int),
    {
        let ghost full = tail_acc(
            path@,
            corners@,
            tail_weight_multiplier as int,
            base_length as int,
            n as int,
            0,
            Point2 { x: 0, y: 0 },
            0,
        );
        let len = path.len();
        let mut acc = Point2 { x: 0, y: 0 };
        let mut length_acc: i64 = 0;
        let mut t: usize = 0;
        while t < n - 1
            invariant_except_break
                len == path@.len(),
                len == corners@.len(),
                2 <= n <= len,
                n <= 20,
                base_length >= 0,
                0 <= tail_weight_multiplier <= 4 * SCALE,
                all_within(path@, CURVE_BOUND as int),
                t <= n - 1,
                within(acc, acc_cap(t as nat)),
                acc_cap(t as nat) < 0x4_0000_0000_0000,
                0 <= length_acc <= (t as int) * (4 * CURVE_BOUND as int),
                tail_acc(
                    path@,
                    corners@,
                    tail_weight_multiplier as int,
                    base_length as int,
                    n as int,
                    t as int,
                    acc,
                    length_acc as int,
                ) == full,
            ensures
                acc == full,
                within(acc, 0x4_0000_0000_0000),
            decreases n - 1 - t,
        {
            let from_idx = len - 2 - t;
            let to_idx = len - 1 - t;
            if corners[from_idx] {
                proof {
                    lemma_acc_cap_bounded(t as nat);
                }
                break;
            }
            let from = path[from_idx];
            let to = path[to_idx];
            let d = to.minus(from);
            let u = d.get_normalized();
            proof {
                lemma_acc_cap_nondec(t as nat);
                lemma_acc_cap_bounded((t + 1) as nat);
                lemma_mul_bounds_abs(
                    acc.x as int,
                    tail_weight_multiplier as int,
                    acc_cap(t as nat),
                    4 * SCALE as int,
                );
                lemma_mul_bounds_abs(
                    acc.y as int,
                    tail_weight_multiplier as int,
                    acc_cap(t as nat),
                    4 * SCALE as int,
                );
                assert(acc_cap(t as nat) * (4 * SCALE as int) == (4 * acc_cap(t as nat)) * (
                SCALE as int)) by (nonlinear_arith);
                lemma_tdiv_scale_bound(
                    acc.x as int * tail_weight_multiplier as int,
                    SCALE as int,
                    4 * acc_cap(t as nat),
                );
                lemma_tdiv_scale_bound(
                    acc.y as int * tail_weight_multiplier as int,
                    SCALE as int,
                    4 * acc_cap(t as nat),
                );
            }
            let ghost old_acc = acc;
            let wx = mul_div(acc.x, tail_weight_multiplier, SCALE);
            let wy = mul_div(acc.y, tail_weight_multiplier, SCALE);
            acc = Point2 { x: wx + u.x, y: wy + u.y };
            proof {
                lemma_dist_bound(to, from, CURVE_BOUND as int);
                assert(dist_spec(to, from) == norm_spec(d));
                assert((t as int + 1) * (4 * CURVE_BOUND as int) == (t as int) * (4
                    * CURVE_BOUND as int) + 4 * CURVE_BOUND as int) by (nonlinear_arith);
                assert((t as int) * (4 * CURVE_BOUND as int) <= 20 * (4 * CURVE_BOUND as int))
                    by (nonlinear_arith)
                    requires
                        0 <= t as int <= 20,
                ;
            }
            let step_len = to.distance_to(from);
            length_acc = length_acc + step_len;
            t = t + 1;
            proof {
                assert(acc == (Point2 {
                    x: (tdiv(old_acc.x * tail_weight_multiplier as int, SCALE as int) + unit_x(
                        psub(to, from),
                    )) as i64,
                    y: (tdiv(old_acc.y * tail_weight_multiplier as int, SCALE as int) + unit_y(
                        psub(to, from),
                    )) as i64,
                }));
            }
            if length_acc >= base_length {
                proof {
                    lemma_acc_cap_bounded(t as nat);
                }
                break;
            }
        }
        let r = acc.get_normalized();
        proof {
            assert(r == weighted_tail_tangent(
                path@,
                corners@,
                n as int,
                base_length as int,
                tail_weight_multiplier as int,
            ));
        }
        r
    }

    /// Replace tangents that bend away from the other endpoint by the unit
    /// normal on the tangent's own side of the connecting line, scaled to
    /// the endpoint distance.
    pub fn correct_tail_tangents(
        point1: Point2,
        tangent1: Point2,
        point2: Point2,
        tangent2: Point2,
    ) -> (r: (Point2, Point2))
        requires
            within(point1, CURVE_BOUND as int),
            within(point2, CURVE_BOUND as int),
            within(tangent1, CURVE_BOUND as int),
            within(tangent2, CURVE_BOUND as int),
        ensures
            r.0 == corrected_tangent(tangent1, point1, point2),
            r.1 == corrected_tangent(tangent2, point2, point1),
            within(r.0, TANGENT_BOUND as int),
            within(r.1, TANGENT_BOUND as int),
    {
        let t1 = Self::correct_one_tangent(tangent1, point1, point2);
        let t2 = Self::correct_one_tangent(tangent2, point2, point1);
        (t1, t2)
    }

    /// Correct a single tangent as [`corrected_tangent`] states.
    fn correct_one_tangent(t: Point2, root: Point2, seg: Point2) -> (r: Point2)
        requires
            within(t, CURVE_BOUND as int),
            within(root, CURVE_BOUND as int),
            within(seg, CURVE_BOUND as int),
        ensures
            r == corrected_tangent(t, root, seg),
            within(r, TANGENT_BOUND as int),
    {
        let v = seg.minus(root);
        let d = t.dot(v);
        if d >= 0 {
            t
        } else {
            let un0 = calculate_unit_normal_of_line(root, seg);
            let side = t.dot(un0);
            let un = if side >= 0 {
                un0
            } else {
                un0.negated()
            };
            proof {
                lemma_dist_bound(seg, root, CURVE_BOUND as int);
                assert(dist_spec(seg, root) == norm_spec(psub(seg, root)));
                lemma_mul_bounds_abs(un.x as int, norm_spec(v), SCALE as int, 4 * CURVE_BOUND as int);
                lemma_mul_bounds_abs(un.y as int, norm_spec(v), SCALE as int, 4 * CURVE_BOUND as int);
                assert((SCALE as int) * (4 * CURVE_BOUND as int) == (4 * CURVE_BOUND as int) * (
                SCALE as int)) by (nonlinear_arith);
                lemma_tdiv_scale_bound(un.x as int * norm_spec(v), SCALE as int, 4 * CURVE_BOUND as int);
                lemma_tdiv_scale_bound(un.y as int * norm_spec(v), SCALE as int, 4 * CURVE_BOUND as int);
                crate::point::lemma_norm_def(v);
            }
            let nv = v.norm();
            let rx = mul_div(un.x, nv, SCALE);
            let ry = mul_div(un.y, nv, SCALE);
            Point2 { x: rx, y: ry }
        }
    }
}


/// Midpoint of `a` and `b` as a point value.
pub open spec fn cut_mid(a: Point2, b: Point2) -> Point2 {
    Point2 { x: midpoint_x(a, b) as i64, y: midpoint_y(a, b) as i64 }
}

/// The unit normal of the line `a b` on the side of `ta`: the right-hand
/// normal when `ta` has positive dot product with it, else its negation.
pub open spec fn cut_side_normal(a: Point2, b: Point2, ta: Point2) -> Point2 {
    let un = Point2 {
        x: unit_x(normal_vec(a, b)) as i64,
        y: unit_y(normal_vec(a, b)) as i64,
    };
    if ta.x * un.x + ta.y * un.y > 0 {
        un
    } else {
        pneg(un)
    }
}

/// The directed lines from `a` along `ta` and from `b` along `tb` meet
/// forward, or are parallel: a single cubic piece can be synthesized.
pub open spec fn forward_part_ok(a: Point2, ta: Point2, b: Point2, tb: Point2) -> bool {
    let c = isect_class(a, padd(a, ta), b, padd(b, tb));
    c is Intersect || c is Parallel
}

/// Whether connector synthesis succeeds for endpoints `a`, `b` with
/// tangents `ta`, `tb`: always, except in the S-shaped case, where each
/// half must in turn meet forward or be parallel.
pub open spec fn whole_curve_ok(a: Point2, ta: Point2, b: Point2, tb: Point2) -> bool {
    let c = isect_class(a, padd(a, ta), b, padd(b, tb));
    let s_ok = {
        let mid = cut_mid(a, b);
        let n1 = cut_side_normal(a, b, ta);
        forward_part_ok(a, ta, mid, n1) && forward_part_ok(mid, pneg(n1), b, tb)
    };
    if c is Intersect || c is Coincidence {
        true
    } else if c is Parallel {
        if ta.x * tb.x + ta.y * tb.y >= 0 {
            true
        } else {
            s_ok
        }
    } else {
        s_ok
    }
}

/// The connector is synthesized as a single piece: the tangent lines meet
/// forward, coincide, or are parallel in the same direction.
pub open spec fn single_piece_class(a: Point2, ta: Point2, b: Point2, tb: Point2) -> bool {
    let c = isect_class(a, padd(a, ta), b, padd(b, tb));
    c is Intersect || c is Coincidence || (c is Parallel && ta.x * tb.x + ta.y * tb.y >= 0)
}

/// Control point chosen toward the intersection: the midpoint of the side
/// and the intersection when the latter is near, else the side point pushed
/// along its tangent by the scaled base length.
pub open spec fn eval_cp_one(side: Point2, tangent: Point2, isect: Point2, scaled_base: int) -> Point2 {
    if scaled_base > tdiv(dist_spec(side, isect), 2) {
        Point2 { x: midpoint_x(side, isect) as i64, y: midpoint_y(side, isect) as i64 }
    } else {
        Point2 {
            x: (side.x + tdiv(tangent.x * scaled_base, SCALE as int)) as i64,
            y: (side.y + tdiv(tangent.y * scaled_base, SCALE as int)) as i64,
        }
    }
}

impl CurveIntrapolator {
    /// The two control points for a single piece whose tangent lines meet
    /// at `intersection`.
    pub fn evaluate_control_points_with_intersection(
        &self,
        from_point: Point2,
        from_tangent: Point2,
        to_point: Point2,
        to_tangent: Point2,
        intersection: Point2,
    ) -> (r: (Point2, Point2))
        requires
            within(from_point, CURVE_BOUND as int),
            within(to_point, CURVE_BOUND as int),
            within(from_tangent, TANGENT_BOUND as int),
            within(to_tangent, TANGENT_BOUND as int),
            within(intersection, FAR_LIMIT as int),
        ensures
            r.0 == eval_cp_one(
                from_point,
                from_tangent,
                intersection,
                2 * dist_spec(from_point, to_point),
            ),
            r.1 == eval_cp_one(
                to_point,
                to_tangent,
                intersection,
                2 * dist_spec(from_point, to_point),
            ),
            within(r.0, RANGE_LIMIT as int),
            within(r.1, RANGE_LIMIT as int),
    {
        proof {
            lemma_dist_bound(from_point, to_point, CURVE_BOUND as int);
        }
        let base = from_point.distance_to(to_point);
        let scaled_base = 2 * base;
        let cp1 = self.eval_one_cp(from_point, from_tangent, intersection, scaled_base);
        let cp2 = self.eval_one_cp(to_point, to_tangent, intersection, scaled_base);
        (cp1, cp2)
    }

    /// One control point as [`eval_cp_one`] states.
    fn eval_one_cp(&self, side: Point2, tangent: Point2, isect: Point2, scaled_base: i64) -> (r:
        Point2)
        requires
            within(side, CURVE_BOUND as int),
            within(tangent, TANGENT_BOUND as int),
            within(isect, FAR_LIMIT as int),
            0 <= scaled_base <= 8 * CURVE_BOUND,
        ensures
            r == eval_cp_one(side, tangent, isect, scaled_base as int),
            within(r, RANGE_LIMIT as int),
    {
        proof {
            lemma_dist_bound(side, isect, FAR_LIMIT as int);
            lemma_tdiv_abs(dist_spec(side, isect), 2);
        }
        let d_int = side.distance_to(isect);
        if scaled_base > tdiv64(d_int, 2) {
            calculate_midpoint(side, isect)
        } else {
            proof {
                lemma_mul_bounds_abs(
                    tangent.x as int,
                    scaled_base as int,
                    TANGENT_BOUND as int,
                    8 * CURVE_BOUND as int,
                );
                lemma_mul_bounds_abs(
                    tangent.y as int,
                    scaled_base as int,
                    TANGENT_BOUND as int,
                    8 * CURVE_BOUND as int,
                );
                assert((TANGENT_BOUND as int) * (8 * CURVE_BOUND as int) <= 0x800_0000_0000_0000int
                    * SCALE as int) by (nonlinear_arith);
                lemma_tdiv_scale_bound(
                    tangent.x as int * scaled_base as int,
                    SCALE as int,
                    0x800_0000_0000_0000int,
                );
                lemma_tdiv_scale_bound(
                    tangent.y as int * scaled_base as int,
                    SCALE as int,
                    0x800_0000_0000_0000int,
                );
            }
            let ox = mul_div(tangent.x, scaled_base, SCALE);
            let oy = mul_div(tangent.y, scaled_base, SCALE);
            Point2 { x: side.x + ox, y: side.y + oy }
        }
    }

    /// Synthesize one cubic piece from `from_point` to `to_point` with the
    /// given tangents. `whole_intersection_result` carries the already
    /// computed intersection of the whole connector; when it is
    /// `NotForward` — the halves of a split connector — the intersection is
    /// recomputed locally, and the piece fails only if the local lines
    /// still meet only backward (or are degenerately coincident). Control
    /// points are retracted until their pixel projection lies on the rim or
    /// inside the hole.
    pub fn calculate_part_curve(
        &self,
        from_point: Point2,
        from_tangent: Point2,
        to_point: Point2,
        to_tangent: Point2,
        whole_intersection_result: LineIntersectionResult,
    ) -> (r: Option<CubicCurve>)
        requires
            self.config.wf(),
            self.hole_rect.wf(),
            within(from_point, CURVE_BOUND as int),
            within(to_point, CURVE_BOUND as int),
            within(from_tangent, TANGENT_BOUND as int),
            within(to_tangent, TANGENT_BOUND as int),
            self.hole_rect.inside_or_near(pixel_of(from_point), 1),
            self.hole_rect.inside_or_near(pixel_of(to_point), 1),
            !(whole_intersection_result is Coincidence),
            whole_intersection_result matches LineIntersectionResult::Intersect(x) ==> within(
                x,
                FAR_LIMIT as int,
            ),
        ensures
            r matches Some(c) ==> c.start == from_point && c.end == to_point
                && self.hole_rect.inside_or_near(pixel_of(c.ctrl1), 1)
                && self.hole_rect.inside_or_near(pixel_of(c.ctrl2), 1)
                && crate::spline::curve_within(c, SPLINE_LIMIT as int),
            (r is Some) <==> (whole_intersection_result is Intersect
                || whole_intersection_result is Parallel || forward_part_ok(
                from_point,
                from_tangent,
                to_point,
                to_tangent,
            )),
    {
        let raw = match whole_intersection_result {
            LineIntersectionResult::Intersect(intersection) => self
                .evaluate_control_points_with_intersection(
                from_point,
                from_tangent,
                to_point,
                to_tangent,
                intersection,
            ),
            LineIntersectionResult::Parallel => (
                from_point.translate(from_tangent),
                to_point.translate(to_tangent),
            ),
            LineIntersectionResult::Coincidence => {
                // Excluded by the precondition: coincident whole-connector
                // lines are unfolded into a midpoint intersection before a
                // piece is synthesized.
                proof {
                    assert(false);
                }
                (from_point, to_point)
            },
            LineIntersectionResult::NotForward => {
                let p2 = from_point.translate(from_tangent);
                let p4 = to_point.translate(to_tangent);
                proof {
                    assert(p2 == padd(from_point, from_tangent));
                    assert(p4 == padd(to_point, to_tangent));
                }
                let local = calculate_intersection(from_point, p2, to_point, p4);
                match local {
                    LineIntersectionResult::Intersect(intersection) => self
                        .evaluate_control_points_with_intersection(
                        from_point,
                        from_tangent,
                        to_point,
                        to_tangent,
                        intersection,
                    ),
                    LineIntersectionResult::Parallel => (p2, p4),
                    LineIntersectionResult::Coincidence => {
                        return None;
                    },
                    LineIntersectionResult::NotForward => {
                        return None;
                    },
                }
            },
        };
        let ratio = self.config.control_points_retract_ratio;
        let cp1 = retract_point(raw.0, from_point, ratio, &self.hole_rect);
        let cp2 = retract_point(raw.1, to_point, ratio, &self.hole_rect);
        proof {
            lemma_pixel_bound(cp1, crate::rect::PIXEL_LIMIT as int + 1);
            lemma_pixel_bound(cp2, crate::rect::PIXEL_LIMIT as int + 1);
            lemma_pixel_bound(from_point, crate::rect::PIXEL_LIMIT as int + 1);
            lemma_pixel_bound(to_point, crate::rect::PIXEL_LIMIT as int + 1);
        }
        Some(CubicCurve { start: from_point, ctrl1: cp1, ctrl2: cp2, end: to_point })
    }

    /// Split the connector at the midpoint of `point_a point_b` and
    /// synthesize the two halves, joining them with the unit normal on the
    /// side of `tangent_a` and its negation.
    pub fn cut_two_curves_and_insert(
        &self,
        point_a: Point2,
        tangent_a: Point2,
        point_b: Point2,
        tangent_b: Point2,
    ) -> (r: Option<(CubicCurve, CubicCurve)>)
        requires
            self.config.wf(),
            self.hole_rect.wf(),
            within(point_a, CURVE_BOUND as int),
            within(point_b, CURVE_BOUND as int),
            within(tangent_a, TANGENT_BOUND as int),
            within(tangent_b, TANGENT_BOUND as int),
            self.hole_rect.inside_or_near(pixel_of(point_a), 1),
            self.hole_rect.inside_or_near(pixel_of(point_b), 1),
        ensures
            r matches Some(cs) ==> cs.0.start == point_a && cs.0.end == cut_mid(point_a, point_b)
                && cs.1.start == cut_mid(point_a, point_b) && cs.1.end == point_b
                && self.hole_rect.inside_or_near(pixel_of(cs.0.ctrl1), 1)
                && self.hole_rect.inside_or_near(pixel_of(cs.0.ctrl2), 1)
                && self.hole_rect.inside_or_near(pixel_of(cs.1.ctrl1), 1)
                && self.hole_rect.inside_or_near(pixel_of(cs.1.ctrl2), 1)
                && crate::spline::curve_within(cs.0, SPLINE_LIMIT as int)
                && crate::spline::curve_within(cs.1, SPLINE_LIMIT as int),
            (r is Some) <==> (forward_part_ok(
                point_a,
                tangent_a,
                cut_mid(point_a, point_b),
                cut_side_normal(point_a, point_b, tangent_a),
            ) && forward_part_ok(
                cut_mid(point_a, point_b),
                pneg(cut_side_normal(point_a, point_b, tangent_a)),
                point_b,
                tangent_b,
            )),
    {
        let mid_point = calculate_midpoint(point_a, point_b);
        proof {
            assert(mid_point == cut_mid(point_a, point_b));
            lemma_tdiv_mono(
                if point_a.x <= point_b.x {
                    point_a.x as int
                } else {
                    point_b.x as int
                },
                mid_point.x as int,
                SCALE as int,
            );
            lemma_tdiv_mono(
                mid_point.x as int,
                if point_a.x <= point_b.x {
                    point_b.x as int
                } else {
                    point_a.x as int
                },
                SCALE as int,
            );
            lemma_tdiv_mono(
                if point_a.y <= point_b.y {
                    point_a.y as int
                } else {
                    point_b.y as int
                },
                mid_point.y as int,
                SCALE as int,
            );
            lemma_tdiv_mono(
                mid_point.y as int,
                if point_a.y <= point_b.y {
                    point_b.y as int
                } else {
                    point_a.y as int
                },
                SCALE as int,
            );
        }
        let normal = calculate_unit_normal_of_line(point_a, point_b);
        let d = tangent_a.dot(normal);
        let from_side_normal = if d > 0 {
            normal
        } else {
            normal.negated()
        };
        let to_side_normal = from_side_normal.negated();
        proof {
            assert(from_side_normal == cut_side_normal(point_a, point_b, tangent_a));
            assert(to_side_normal == pneg(cut_side_normal(point_a, point_b, tangent_a)));
        }
        let from_side_curve = self.calculate_part_curve(
            point_a,
            tangent_a,
            mid_point,
            from_side_normal,
            LineIntersectionResult::NotForward,
        );
        let c0 = match from_side_curve {
            Some(c) => c,
            None => {
                return None;
            },
        };
        let to_side_curve = self.calculate_part_curve(
            mid_point,
            to_side_normal,
            point_b,
            tangent_b,
            LineIntersectionResult::NotForward,
        );
        let c1 = match to_side_curve {
            Some(c) => c,
            None => {
                return None;
            },
        };
        Some((c0, c1))
    }

    /// Synthesize the whole connector between `from_point` and `to_point`:
    /// a single cubic piece when the tangent lines meet forward, coincide,
    /// or are parallel in the same direction; otherwise an S-shape of two
    /// pieces joined at the midpoint. Success is exactly
    /// [`whole_curve_ok`].
    pub fn calculate_whole_curve(
        &self,
        from_point: Point2,
        from_tangent: Point2,
        to_point: Point2,
        to_tangent: Point2,
    ) -> (r: Option<Spline>)
        requires
            self.config.wf(),
            self.hole_rect.wf(),
            within(from_point, CURVE_BOUND as int),
            within(to_point, CURVE_BOUND as int),
            within(from_tangent, TANGENT_BOUND as int),
            within(to_tangent, TANGENT_BOUND as int),
            self.hole_rect.inside_or_near(pixel_of(from_point), 1),
            self.hole_rect.inside_or_near(pixel_of(to_point), 1),
        ensures
            r matches Some(s) ==> s.wf() && 1 <= s.curves@.len() <= 2 && s.curves@[0].start
                == from_point && s.curves@.last().end == to_point && (forall|k: int|
                0 <= k < s.curves@.len() ==> self.hole_rect.inside_or_near(
                    pixel_of((#[trigger] s.curves@[k]).ctrl1),
                    1,
                ) && self.hole_rect.inside_or_near(pixel_of(s.curves@[k].ctrl2), 1)),
            (r is Some) <==> whole_curve_ok(from_point, from_tangent, to_point, to_tangent),
            r matches Some(s) ==> ((s.curves@.len() == 1) == single_piece_class(
                from_point,
                from_tangent,
                to_point,
                to_tangent,
            )),
            r matches Some(s) ==> (s.curves@.len() == 2 ==> (s.curves@[0].end == cut_mid(
                from_point,
                to_point,
            ) && s.curves@[1].start == cut_mid(from_point, to_point))),
    {
        let p2 = from_point.translate(from_tangent);
        let p4 = to_point.translate(to_tangent);
        proof {
            assert(p2 == padd(from_point, from_tangent));
            assert(p4 == padd(to_point, to_tangent));
        }
        let isect = calculate_intersection(from_point, p2, to_point, p4);
        let mut curves: Vec<CubicCurve> = Vec::new();
        match isect {
            LineIntersectionResult::Intersect(x) => {
                let c = self.calculate_part_curve(
                    from_point,
                    from_tangent,
                    to_point,
                    to_tangent,
                    LineIntersectionResult::Intersect(x),
                );
                curves.push(c.unwrap());
            },
            LineIntersectionResult::Parallel => {
                let dt = from_tangent.dot(to_tangent);
                if dt >= 0 {
                    let c = self.calculate_part_curve(
                        from_point,
                        from_tangent,
                        to_point,
                        to_tangent,
                        LineIntersectionResult::Parallel,
                    );
                    curves.push(c.unwrap());
                } else {
                    let cs = self.cut_two_curves_and_insert(
                        from_point,
                        from_tangent,
                        to_point,
                        to_tangent,
                    );
                    match cs {
                        Some(pair) => {
                            curves.push(pair.0);
                            curves.push(pair.1);
                        },
                        None => {
                            return None;
                        },
                    }
                }
            },
            LineIntersectionResult::Coincidence => {
                let mid = calculate_midpoint(from_point, to_point);
                let c = self.calculate_part_curve(
                    from_point,
                    from_tangent,
                    to_point,
                    to_tangent,
                    LineIntersectionResult::Intersect(mid),
                );
                curves.push(c.unwrap());
            },
            LineIntersectionResult::NotForward => {
                let cs = self.cut_two_curves_and_insert(
                    from_point,
                    from_tangent,
                    to_point,
                    to_tangent,
                );
                match cs {
                    Some(pair) => {
                        curves.push(pair.0);
                        curves.push(pair.1);
                    },
                    None => {
                        return None;
                    },
                }
            },
        }
        Some(Spline { curves })
    }
}


/// The connector-side tangent of a curve too short for smoothing to touch
/// (fewer than four points, oriented tail-last): the weighted tail tangent
/// over its own corner mask, against the endpoint distance `base`.
pub open spec fn short_curve_tangent(
    oriented: Seq<Point2>,
    cfg: CurveIntrapolatorConfig,
    base: int,
) -> Point2 {
    let n = if (cfg.tail_tangent_num_points as int) < oriented.len() {
        cfg.tail_tangent_num_points as int
    } else {
        oriented.len() as int
    };
    weighted_tail_tangent(
        oriented,
        crate::geo::corners_of(oriented, cfg.corner_cos_threshold as int),
        n,
        base,
        cfg.tail_weight_multiplier as int,
    )
}

/// The connector endpoint a curve contributes: its last point when the
/// tail is at the end, else its first point.
pub open spec fn oriented_tail(c: Seq<Point2>, at_tail: bool) -> Point2 {
    if at_tail {
        c.last()
    } else {
        c[0]
    }
}

/// The points of `v` in reverse order.
fn reversed(v: Vec<Point2>) -> (r: Vec<Point2>)
    ensures
        r@.len() == v@.len(),
        forall|i: int| 0 <= i < v@.len() ==> r@[i] == v@[v@.len() - 1 - i],
        r@ == v@.reverse(),
{
    let n = v.len();
    let mut out: Vec<Point2> = Vec::new();
    let mut i: usize = 0;
    while i < n
        invariant
            n == v@.len(),
            i <= n,
            out@.len() == i,
            forall|j: int| 0 <= j < i ==> out@[j] == v@[n - 1 - j],
        decreases n - i,
    {
        out.push(v[n - 1 - i]);
        i = i + 1;
    }
    proof {
        assert(out@ =~= v@.reverse());
    }
    out
}

impl CurveIntrapolator {
    /// Intrapolate the imaginary curve between two observed curves. The
    /// connector runs from the oriented tail of `curve1` to the oriented
    /// tail of `curve2` (the last point when the matching `at_tail` flag is
    /// set, else the first). Each curve is smoothed, a weighted tail
    /// tangent is estimated against the endpoint distance, the tangents are
    /// optionally corrected, and the connector is synthesized with its
    /// control points retracted into the hole.
    pub fn intrapolate_curve_between_curves(
        &self,
        curve1: Vec<Point2>,
        curve2: Vec<Point2>,
        at_tail_curve1: bool,
        at_tail_curve2: bool,
        correct_tail_tangents: bool,
    ) -> (r: Option<Spline>)
        requires
            self.config.wf(),
            self.hole_rect.wf(),
            curve1@.len() >= 2,
            curve2@.len() >= 2,
            all_within(curve1@, SPLINE_LIMIT as int),
            all_within(curve2@, SPLINE_LIMIT as int),
            self.hole_rect.inside_or_near(pixel_of(oriented_tail(curve1@, at_tail_curve1)), 1),
            self.hole_rect.inside_or_near(pixel_of(oriented_tail(curve2@, at_tail_curve2)), 1),
        ensures
            r matches Some(s) ==> s.wf() && 1 <= s.curves@.len() <= 2 && s.curves@[0].start
                == oriented_tail(curve1@, at_tail_curve1) && s.curves@.last().end == oriented_tail(
                curve2@,
                at_tail_curve2,
            ) && (forall|k: int|
                0 <= k < s.curves@.len() ==> self.hole_rect.inside_or_near(
                    pixel_of((#[trigger] s.curves@[k]).ctrl1),
                    1,
                ) && self.hole_rect.inside_or_near(pixel_of(s.curves@[k].ctrl2), 1)),
            (curve1@.len() < 4 && curve2@.len() < 4 && !correct_tail_tangents) ==> ((r is Some)
                <==> whole_curve_ok(
                oriented_tail(curve1@, at_tail_curve1),
                short_curve_tangent(
                    if at_tail_curve1 {
                        curve1@
                    } else {
                        curve1@.reverse()
                    },
                    self.config,
                    dist_spec(
                        oriented_tail(curve1@, at_tail_curve1),
                        oriented_tail(curve2@, at_tail_curve2),
                    ),
                ),
                oriented_tail(curve2@, at_tail_curve2),
                short_curve_tangent(
                    if at_tail_curve2 {
                        curve2@
                    } else {
                        curve2@.reverse()
                    },
                    self.config,
                    dist_spec(
                        oriented_tail(curve1@, at_tail_curve1),
                        oriented_tail(curve2@, at_tail_curve2),
                    ),
                ),
            )),
    {
        let ghost e1_spec = oriented_tail(curve1@, at_tail_curve1);
        let ghost e2_spec = oriented_tail(curve2@, at_tail_curve2);
        let ghost oc1 = if at_tail_curve1 {
            curve1@
        } else {
            curve1@.reverse()
        };
        let ghost oc2 = if at_tail_curve2 {
            curve2@
        } else {
            curve2@.reverse()
        };
        let c1 = if at_tail_curve1 {
            curve1
        } else {
            reversed(curve1)
        };
        let c2 = if at_tail_curve2 {
            curve2
        } else {
            reversed(curve2)
        };
        let endpoint1 = c1[c1.len() - 1];
        let endpoint2 = c2[c2.len() - 1];
        proof {
            assert(endpoint1 == e1_spec);
            assert(endpoint2 == e2_spec);
            assert(all_within(c1@, CURVE_BOUND as int));
            assert(all_within(c2@, CURVE_BOUND as int));
        }
        let base_length = endpoint1.distance_to(endpoint2);
        let (smooth1, corners1) = Self::smooth_open_curve_iterative(
            c1,
            self.config.outset_ratio,
            self.config.min_segment_length,
            self.config.smooth_max_iterations,
            self.config.corner_cos_threshold,
        );
        let (smooth2, corners2) = Self::smooth_open_curve_iterative(
            c2,
            self.config.outset_ratio,
            self.config.min_segment_length,
            self.config.smooth_max_iterations,
            self.config.corner_cos_threshold,
        );
        let n1 = if self.config.tail_tangent_num_points < smooth1.len() {
            self.config.tail_tangent_num_points
        } else {
            smooth1.len()
        };
        let n2 = if self.config.tail_tangent_num_points < smooth2.len() {
            self.config.tail_tangent_num_points
        } else {
            smooth2.len()
        };
        let tail_tangent1 = Self::calculate_weighted_average_tangent_at_tail(
            &smooth1,
            &corners1,
            n1,
            base_length,
            self.config.tail_weight_multiplier,
        );
        let tail_tangent2 = Self::calculate_weighted_average_tangent_at_tail(
            &smooth2,
            &corners2,
            n2,
            base_length,
            self.config.tail_weight_multiplier,
        );
        let (t1, t2) = if correct_tail_tangents {
            Self::correct_tail_tangents(endpoint1, tail_tangent1, endpoint2, tail_tangent2)
        } else {
            (tail_tangent1, tail_tangent2)
        };
        let result = self.calculate_whole_curve(endpoint1, t1, endpoint2, t2);
        proof {
            if curve1@.len() < 4 && curve2@.len() < 4 && !correct_tail_tangents {
                assert(c1@ == oc1);
                assert(c2@ == oc2);
                assert(smooth1@ == oc1);
                assert(smooth2@ == oc2);
                assert(corners1@ == crate::geo::corners_of(
                    oc1,
                    self.config.corner_cos_threshold as int,
                ));
                assert(corners2@ == crate::geo::corners_of(
                    oc2,
                    self.config.corner_cos_threshold as int,
                ));
                assert(base_length == dist_spec(e1_spec, e2_spec));
                assert(t1 == short_curve_tangent(oc1, self.config, base_length as int));
                assert(t2 == short_curve_tangent(oc2, self.config, base_length as int));
            }
        }
        result
    }
}

} // verus!
