//! Cubic Bezier connectors and the pairwise crossing test between them.
//!
//! The crossing test itself is the Bezier clipping algorithm of the
//! `flo_curves` crate; its verdict for two given cubics at a given accuracy
//! is named by [`clip_hit`] and everything else is proved against that name.

use vstd::prelude::*;
use crate::fixed::{SCALE, tdiv, tdiv64, lemma_tdiv_scale_bound};
use crate::point::{Point2, within, dist_spec, pixel_of};
use crate::rect::PIXEL_LIMIT;

verus! {

/// One cubic Bezier segment: start point, two control points, end point.
#[derive(Clone, Copy, Debug, PartialEq, Eq, Structural)]
pub struct CubicCurve {
    pub start: Point2,
    pub ctrl1: Point2,
    pub ctrl2: Point2,
    pub end: Point2,
}

/// A connector: a short sequence (here one or two) of cubic segments
/// sharing endpoints.
#[derive(Clone, Debug)]
pub struct Spline {
    pub curves: Vec<CubicCurve>,
}

/// The eight coordinates of a cubic segment, in drawing order.
pub open spec fn curve_coords(c: CubicCurve) -> Seq<int> {
    seq![
        c.start.x as int,
        c.start.y as int,
        c.ctrl1.x as int,
        c.ctrl1.y as int,
        c.ctrl2.x as int,
        c.ctrl2.y as int,
        c.end.x as int,
        c.end.y as int,
    ]
}

/// All four points of the segment are within `[-b, b]`.
pub open spec fn curve_within(c: CubicCurve, b: int) -> bool {
    within(c.start, b) && within(c.ctrl1, b) && within(c.ctrl2, b) && within(c.end, b)
}

/// Bound on connector coordinates: a couple of pixels beyond the largest
/// image span, in fixed-point units.
pub const SPLINE_LIMIT: i64 = (2 * PIXEL_LIMIT + 2) * SCALE;

/// The segment with every coordinate truncated to whole pixels.
pub open spec fn px_curve(c: CubicCurve) -> CubicCurve {
    CubicCurve {
        start: pixel_of(c.start),
        ctrl1: pixel_of(c.ctrl1),
        ctrl2: pixel_of(c.ctrl2),
        end: pixel_of(c.end),
    }
}

impl Spline {
    /// All control points are within the coordinate range of the geometry
    /// kernel.
    pub open spec fn wf(self) -> bool {
        forall|k: int|
            0 <= k < self.curves@.len() ==> curve_within(
                #[trigger] self.curves@[k],
                SPLINE_LIMIT as int,
            )
    }
}

/// Verdict of the Bezier clipping intersection test on two cubic segments
/// at a given accuracy. The test is a pure function of the sixteen
/// coordinates and the accuracy.
pub uninterp spec fn clip_hit(a: Seq<int>, b: Seq<int>, accuracy: int) -> bool;

/// The clipping test applied the way connectors are compared: coordinates
/// truncated to whole pixels, with accuracy a quarter of the summed chord
/// lengths of the two segments. The accuracy is coarser than one pixel for
/// any connector long enough to matter, so the pixel truncation is within
/// the test's own tolerance.
pub open spec fn pair_hit(a: CubicCurve, b: CubicCurve) -> bool {
    clip_hit(
        curve_coords(px_curve(a)),
        curve_coords(px_curve(b)),
        tdiv(dist_spec(a.start, a.end) + dist_spec(b.start, b.end), 4 * SCALE as int),
    )
}

/// Some segment of `a` and some segment of `b` intersect by the clipping
/// test.
pub open spec fn splines_cross_spec(a: Spline, b: Spline) -> bool {
    exists|k: int, l: int|
        0 <= k < a.curves@.len() && 0 <= l < b.curves@.len() && pair_hit(
            #[trigger] a.curves@[k],
            #[trigger] b.curves@[l],
        )
}

/// Two connectors drawn from different entries of `cs` intersect.
pub open spec fn any_curves_cross(cs: Seq<Spline>) -> bool {
    exists|i: int, j: int|
        0 <= i < j < cs.len() && splines_cross_spec(#[trigger] cs[i], #[trigger] cs[j])
}

/// Relies on `flo_curves::bezier::curve_intersects_curve_clip`: reports
/// whether the Bezier clipping algorithm finds any intersection of the two
/// cubic segments at the given accuracy. The verdict depends on the control
/// points and the accuracy alone.
#[verifier::external_body]
fn curves_clip_intersect(a: &CubicCurve, b: &CubicCurve, accuracy: i64) -> (r: bool)
    requires
        curve_within(*a, i32::MAX as int),
        curve_within(*b, i32::MAX as int),
        0 <= accuracy <= i32::MAX,
    ensures
        r == clip_hit(curve_coords(*a), curve_coords(*b), accuracy as int),
{
    let conv = |c: &CubicCurve| flo_curves::bezier::Curve {
        start_point: flo_curves::Coord2((c.start.x as i32).into(), (c.start.y as i32).into()),
        end_point: flo_curves::Coord2((c.end.x as i32).into(), (c.end.y as i32).into()),
        control_points: (
            flo_curves::Coord2((c.ctrl1.x as i32).into(), (c.ctrl1.y as i32).into()),
            flo_curves::Coord2((c.ctrl2.x as i32).into(), (c.ctrl2.y as i32).into()),
        ),
    };
    !flo_curves::bezier::curve_intersects_curve_clip(
        &conv(a),
        &conv(b),
        (accuracy as i32).into(),
    ).is_empty()
}

/// Truncate a connector segment to whole-pixel coordinates.
fn px_of(c: &CubicCurve) -> (r: CubicCurve)
    requires
        curve_within(*c, SPLINE_LIMIT as int),
    ensures
        r == px_curve(*c),
        curve_within(r, 2 * PIXEL_LIMIT as int + 2),
{
    proof {
        lemma_tdiv_scale_bound(c.start.x as int, SCALE as int, 2 * PIXEL_LIMIT as int + 2);
        lemma_tdiv_scale_bound(c.start.y as int, SCALE as int, 2 * PIXEL_LIMIT as int + 2);
        lemma_tdiv_scale_bound(c.ctrl1.x as int, SCALE as int, 2 * PIXEL_LIMIT as int + 2);
        lemma_tdiv_scale_bound(c.ctrl1.y as int, SCALE as int, 2 * PIXEL_LIMIT as int + 2);
        lemma_tdiv_scale_bound(c.ctrl2.x as int, SCALE as int, 2 * PIXEL_LIMIT as int + 2);
        lemma_tdiv_scale_bound(c.ctrl2.y as int, SCALE as int, 2 * PIXEL_LIMIT as int + 2);
        lemma_tdiv_scale_bound(c.end.x as int, SCALE as int, 2 * PIXEL_LIMIT as int + 2);
        lemma_tdiv_scale_bound(c.end.y as int, SCALE as int, 2 * PIXEL_LIMIT as int + 2);
    }
    CubicCurve {
        start: c.start.to_pixel(),
        ctrl1: c.ctrl1.to_pixel(),
        ctrl2: c.ctrl2.to_pixel(),
        end: c.end.to_pixel(),
    }
}

/// Whether some segment of `a` intersects some segment of `b` by the
/// clipping test at the connector accuracy.
pub fn splines_cross(a: &Spline, b: &Spline) -> (r: bool)
    requires
        a.wf(),
        b.wf(),
    ensures
        r == splines_cross_spec(*a, *b),
{
    let mut k: usize = 0;
    while k < a.curves.len()
        invariant
            a.wf(),
            b.wf(),
            k <= a.curves@.len(),
            forall|k0: int, l0: int|
                0 <= k0 < k && 0 <= l0 < b.curves@.len() ==> !pair_hit(
                    #[trigger] a.curves@[k0],
                    #[trigger] b.curves@[l0],
                ),
        decreases a.curves@.len() - k,
    {
        let ca = a.curves[k];
        let mut l: usize = 0;
        while l < b.curves.len()
            invariant
                a.wf(),
                b.wf(),
                k < a.curves@.len(),
                ca == a.curves@[k as int],
                l <= b.curves@.len(),
                forall|l0: int| 0 <= l0 < l ==> !pair_hit(ca, #[trigger] b.curves@[l0]),
            decreases b.curves@.len() - l,
        {
            let cb = b.curves[l];
            let pa = px_of(&ca);
            let pb = px_of(&cb);
            proof {
                crate::point::lemma_dist_bound(ca.start, ca.end, SPLINE_LIMIT as int);
                crate::point::lemma_dist_bound(cb.start, cb.end, SPLINE_LIMIT as int);
            }
            let da = ca.start.distance_to(ca.end);
            let db = cb.start.distance_to(cb.end);
            proof {
                lemma_tdiv_scale_bound(da + db, 4 * SCALE as int, 6 * PIXEL_LIMIT as int);
                crate::fixed::lemma_tdiv_abs(da + db, 4 * SCALE as int);
            }
            let accuracy = tdiv64(da + db, 4 * SCALE);
            if curves_clip_intersect(&pa, &pb, accuracy) {
                proof {
                    assert(pair_hit(a.curves@[k as int], b.curves@[l as int]));
                }
                return true;
            }
            l = l + 1;
        }
        k = k + 1;
    }
    false
}

/// Whether any two connectors drawn from different entries of `curves`
/// intersect by the clipping test. Crossings of segments within one
/// connector are not considered.
pub fn bezier_curves_intersection(curves: &Vec<Spline>) -> (r: bool)
    requires
        forall|i: int| 0 <= i < curves@.len() ==> (#[trigger] curves@[i]).wf(),
    ensures
        r == any_curves_cross(curves@),
{
    let n = curves.len();
    let mut i: usize = 0;
    while i < n
        invariant
            n == curves@.len(),
            i <= n,
            forall|i0: int| 0 <= i0 < curves@.len() ==> (#[trigger] curves@[i0]).wf(),
            forall|i0: int, j0: int|
                0 <= i0 < j0 < curves@.len() && i0 < i ==> !splines_cross_spec(
                    #[trigger] curves@[i0],
                    #[trigger] curves@[j0],
                ),
        decreases n - i,
    {
        let mut j: usize = i + 1;
        while j < n
            invariant
                n == curves@.len(),
                i < n,
                i < j,
                forall|i0: int| 0 <= i0 < curves@.len() ==> (#[trigger] curves@[i0]).wf(),
                forall|j0: int|
                    i < j0 < j ==> !splines_cross_spec(curves@[i as int], #[trigger] curves@[j0]),
            decreases n - j,
        {
            if splines_cross(&curves[i], &curves[j]) {
                proof {
                    assert(splines_cross_spec(curves@[i as int], curves@[j as int]));
                }
                return true;
            }
            j = j + 1;
        }
        i = i + 1;
    }
    false
}

} // verus!
