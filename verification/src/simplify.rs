//! Ramer-Douglas-Peucker simplification of integer polylines.
//!
//! A point is kept when its perpendicular distance from the chord of its
//! span exceeds the tolerance; the comparison is exact, squaring both sides
//! so no square root is needed.

use vstd::prelude::*;
use crate::fixed::SCALE;
use crate::point::{Point2, within};
use crate::rect::PIXEL_LIMIT;

verus! {

/// `e` is one of the points of `s`.
pub open spec fn point_from(e: Point2, s: Seq<Point2>) -> bool {
    exists|j: int| 0 <= j < s.len() && s[j] == e
}

/// Whether the perpendicular distance of `p` from the chord `a b` exceeds
/// the fixed-point tolerance: `(cross * SCALE)^2 > tol^2 * |b - a|^2`.
pub open spec fn beyond_tolerance(a: Point2, b: Point2, p: Point2, tol: int) -> bool {
    let cross = (b.x - a.x) * (p.y - a.y) - (b.y - a.y) * (p.x - a.x);
    let d2 = (b.x - a.x) * (b.x - a.x) + (b.y - a.y) * (b.y - a.y);
    (cross * SCALE) * (cross * SCALE) > ((tol * tol) * d2)
}

/// Every interior point of the span `(lo, hi)` lies within tolerance of
/// the chord from `pts[lo]` to `pts[hi]`.
pub open spec fn span_within_tolerance(pts: Seq<Point2>, lo: int, hi: int, tol: int) -> bool {
    forall|m: int| lo < m < hi ==> !beyond_tolerance(pts[lo], pts[hi], #[trigger] pts[m], tol)
}

/// `a` and `b` are the ends of a span of `pts` whose interior points all
/// lie within tolerance of the chord `a b`: the simplification dropped
/// nothing farther than the tolerance between two kept points.
pub open spec fn chord_pair(a: Point2, b: Point2, pts: Seq<Point2>, tol: int) -> bool {
    exists|lo: int, hi: int|
        0 <= lo < hi < pts.len() && a == pts[lo] && b == pts[hi] && #[trigger] span_within_tolerance(
            pts,
            lo,
            hi,
            tol,
        )
}

/// Squared-comparison test for one point against a chord.
fn exceeds(a: Point2, b: Point2, p: Point2, tol: i64) -> (r: bool)
    requires
        within(a, 2 * PIXEL_LIMIT as int),
        within(b, 2 * PIXEL_LIMIT as int),
        within(p, 2 * PIXEL_LIMIT as int),
        0 <= tol <= 0x8000_0000,
    ensures
        r == beyond_tolerance(a, b, p, tol as int),
{
    proof {
        let m = 4 * PIXEL_LIMIT as int;
        crate::fixed::lemma_mul_bounds_abs(b.x - a.x, p.y - a.y, m, m);
        crate::fixed::lemma_mul_bounds_abs(b.y - a.y, p.x - a.x, m, m);
        crate::fixed::lemma_mul_bounds_abs(b.x - a.x, b.x - a.x, m, m);
        crate::fixed::lemma_mul_bounds_abs(b.y - a.y, b.y - a.y, m, m);
        assert(m * m <= 0x1_0000_0000_0000) by (nonlinear_arith)
            requires
                m == 4 * PIXEL_LIMIT as int,
                PIXEL_LIMIT == 0x4000,
        ;
    }
    let cross: i128 = ((b.x - a.x) as i128) * ((p.y - a.y) as i128) - ((b.y - a.y) as i128) * ((
    p.x - a.x) as i128);
    let d2: i128 = ((b.x - a.x) as i128) * ((b.x - a.x) as i128) + ((b.y - a.y) as i128) * ((b.y
        - a.y) as i128);
    proof {
        crate::fixed::lemma_mul_bounds_abs(cross as int, SCALE as int, 0x2_0000_0000_0000, 1000);
        crate::fixed::lemma_mul_bounds_abs(tol as int, tol as int, 0x8000_0000, 0x8000_0000);
    }
    let cs: i128 = cross * (SCALE as i128);
    let t2: i128 = (tol as i128) * (tol as i128);
    proof {
        crate::fixed::lemma_mul_bounds_abs(
            cs as int,
            cs as int,
            0x800_0000_0000_0000,
            0x800_0000_0000_0000,
        );
        crate::fixed::lemma_mul_bounds_abs(
            t2 as int,
            d2 as int,
            0x4000_0000_0000_0000,
            0x2_0000_0000_0000,
        );
        assert(0x800_0000_0000_0000int * 0x800_0000_0000_0000int < i128::MAX as int)
            by (nonlinear_arith);
        assert(0x4000_0000_0000_0000int * 0x2_0000_0000_0000int < i128::MAX as int)
            by (nonlinear_arith);
    }
    (cs * cs) > (t2 * d2)
}

/// Simplify the span `(lo, hi)` of `pts`, appending the kept points after
/// `lo` (inclusive of `hi`) to `out`.
fn rdp_span(pts: &Vec<Point2>, lo: usize, hi: usize, tol: i64, out: &mut Vec<Point2>)
    requires
        lo < hi < pts@.len(),
        0 <= tol <= 0x8000_0000,
        forall|j: int| 0 <= j < pts@.len() ==> within(#[trigger] pts@[j], 2 * PIXEL_LIMIT as int),
        old(out)@.len() > 0,
        old(out)@.last() == pts@[lo as int],
    ensures
        final(out)@.len() > old(out)@.len(),
        forall|j: int| 0 <= j < old(out)@.len() ==> final(out)@[j] == old(out)@[j],
        final(out)@.last() == pts@[hi as int],
        forall|j: int|
            old(out)@.len() <= j < final(out)@.len() ==> point_from(#[trigger] final(out)@[j], pts@),
        forall|j: int|
            old(out)@.len() - 1 <= j < final(out)@.len() - 1 ==> chord_pair(
                #[trigger] final(out)@[j],
                final(out)@[j + 1],
                pts@,
                tol as int,
            ),
    decreases hi - lo,
{
    let a = pts[lo];
    let b = pts[hi];
    let mut best: usize = lo;
    let mut found = false;
    let mut k: usize = lo + 1;
    while k < hi
        invariant
            lo < hi < pts@.len(),
            lo < k,
            k <= hi,
            found ==> lo < best < hi,
            !found ==> (forall|m: int|
                lo < m < k ==> !beyond_tolerance(
                    pts@[lo as int],
                    pts@[hi as int],
                    #[trigger] pts@[m],
                    tol as int,
                )),
            forall|j: int|
                0 <= j < pts@.len() ==> within(#[trigger] pts@[j], 2 * PIXEL_LIMIT as int),
            0 <= tol <= 0x8000_0000,
            a == pts@[lo as int],
            b == pts@[hi as int],
        decreases hi - k,
    {
        if exceeds(a, b, pts[k], tol) {
            if !found {
                best = k;
                found = true;
            } else {
                let better = farther(a, b, pts[k], pts[best]);
                if better {
                    best = k;
                }
            }
        }
        k = k + 1;
    }
    if found {
        rdp_span(pts, lo, best, tol, out);
        let ghost mid = out@;
        rdp_span(pts, best, hi, tol, out);
        proof {
            assert forall|j: int|
                old(out)@.len() <= j < out@.len() implies point_from(#[trigger] out@[j], pts@) by {
                if j < mid.len() {
                    assert(out@[j] == mid[j]);
                }
            };
            assert forall|j: int|
                old(out)@.len() - 1 <= j < out@.len() - 1 implies chord_pair(
                #[trigger] out@[j],
                out@[j + 1],
                pts@,
                tol as int,
            ) by {
                if j < mid.len() - 1 {
                    assert(out@[j] == mid[j]);
                    assert(out@[j + 1] == mid[j + 1]);
                    assert(chord_pair(mid[j], mid[j + 1], pts@, tol as int));
                } else {
                    assert(chord_pair(out@[j], out@[j + 1], pts@, tol as int));
                }
            };
        }
    } else {
        out.push(b);
        proof {
            assert(out@.last() == pts@[hi as int]);
            assert(point_from(pts@[hi as int], pts@));
            assert(span_within_tolerance(pts@, lo as int, hi as int, tol as int));
            assert(chord_pair(pts@[lo as int], pts@[hi as int], pts@, tol as int));
        }
    }
}

/// Whether `p` is strictly farther from the chord `a b` than `q`, by the
/// squared cross-product metric.
fn farther(a: Point2, b: Point2, p: Point2, q: Point2) -> (r: bool)
    requires
        within(a, 2 * PIXEL_LIMIT as int),
        within(b, 2 * PIXEL_LIMIT as int),
        within(p, 2 * PIXEL_LIMIT as int),
        within(q, 2 * PIXEL_LIMIT as int),
{
    proof {
        let m = 4 * PIXEL_LIMIT as int;
        crate::fixed::lemma_mul_bounds_abs(b.x - a.x, p.y - a.y, m, m);
        crate::fixed::lemma_mul_bounds_abs(b.y - a.y, p.x - a.x, m, m);
        crate::fixed::lemma_mul_bounds_abs(b.x - a.x, q.y - a.y, m, m);
        crate::fixed::lemma_mul_bounds_abs(b.y - a.y, q.x - a.x, m, m);
        assert(m * m <= 0x1_0000_0000_0000) by (nonlinear_arith)
            requires
                m == 4 * PIXEL_LIMIT as int,
                PIXEL_LIMIT == 0x4000,
        ;
    }
    let cp: i128 = ((b.x - a.x) as i128) * ((p.y - a.y) as i128) - ((b.y - a.y) as i128) * ((p.x
        - a.x) as i128);
    let cq: i128 = ((b.x - a.x) as i128) * ((q.y - a.y) as i128) - ((b.y - a.y) as i128) * ((q.x
        - a.x) as i128);
    proof {
        crate::fixed::lemma_mul_bounds_abs(
            cp as int,
            cp as int,
            0x2_0000_0000_0000,
            0x2_0000_0000_0000,
        );
        crate::fixed::lemma_mul_bounds_abs(
            cq as int,
            cq as int,
            0x2_0000_0000_0000,
            0x2_0000_0000_0000,
        );
        assert(0x2_0000_0000_0000int * 0x2_0000_0000_0000int < i128::MAX as int)
            by (nonlinear_arith);
    }
    cp * cp > cq * cq
}

/// Ramer-Douglas-Peucker simplification with a fixed-point tolerance in
/// pixels: the endpoints are kept, every returned point is one of the
/// input points, and each adjacent pair of kept points is the chord of a
/// span whose dropped interior points all lie within the tolerance.
pub fn reduce(points: &Vec<Point2>, tolerance: i64) -> (r: Vec<Point2>)
    requires
        points@.len() >= 2,
        0 <= tolerance <= 0x8000_0000,
        forall|j: int|
            0 <= j < points@.len() ==> within(#[trigger] points@[j], 2 * PIXEL_LIMIT as int),
    ensures
        r@.len() >= 2,
        r@[0] == points@[0],
        r@.last() == points@.last(),
        forall|j: int| 0 <= j < r@.len() ==> point_from(#[trigger] r@[j], points@),
        forall|j: int|
            0 <= j < r@.len() - 1 ==> chord_pair(#[trigger] r@[j], r@[j + 1], points@, tolerance as int),
{
    let mut out: Vec<Point2> = Vec::new();
    out.push(points[0]);
    proof {
        assert(point_from(points@[0], points@));
    }
    rdp_span(points, 0, points.len() - 1, tolerance, &mut out);
    out
}

} // verus!
