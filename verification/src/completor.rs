//! The shape completor: walks contours around the hole, extracts and
//! simplifies the boundary segments that touch the rim, pairs them,
//! synthesizes connectors, and fills the hole.
//!
//! Contour extraction is a black-box primitive supplied by the caller
//! through [`ClusterContours`]; the boundary mask over a contour is kept in
//! a `bit_vec::BitVec` behind trusted wrappers.

use vstd::prelude::*;
use crate::point::{Point2, within, pixel_of, psub, unit_x, unit_y};
use crate::fixed::SCALE;
use crate::rect::{BoundingRect, PIXEL_LIMIT};
use crate::image::BinaryImage;
use crate::spline::{Spline, SPLINE_LIMIT, any_curves_cross};
use crate::filler::any_hit;
use crate::curve::{CurveIntrapolator, CurveIntrapolatorConfig, oriented_tail};
use crate::matcher::{Matcher, matching_valid};
use crate::matcher_helper::{MatchItem, MatchItemSet, Matching};
use crate::filler::{FilledHoleMatrix, HoleFiller, saturated};
use crate::simplify::{reduce, point_from};
use crate::debugger::Debugger;

verus! {

/// The bits a boundary mask holds, in order.
pub uninterp spec fn bitvec_bits(v: &bit_vec::BitVec<u32>) -> Seq<bool>;

#[verifier::external_type_specification]
#[verifier::external_body]
#[verifier::reject_recursive_types(B)]
pub struct ExBitVec<B>(bit_vec::BitVec<B>);

/// Relies on `bit_vec::BitVec::from_fn`: the bit at each index is the
/// closure's value there, here the corresponding entry of the given
/// boolean vector.
#[verifier::external_body]
fn bitvec_from_bools(bits: &Vec<bool>) -> (r: bit_vec::BitVec<u32>)
    ensures
        bitvec_bits(&r) =~= bits@,
{
    bit_vec::BitVec::from_fn(bits.len(), |i| bits[i])
}

/// Relies on `bit_vec::BitVec::len`: the number of bits.
#[verifier::external_body]
fn bitvec_len(v: &bit_vec::BitVec<u32>) -> (r: usize)
    ensures
        r == bitvec_bits(v).len(),
{
    v.len()
}

/// Relies on `bit_vec::BitVec::get`: the bit at an in-range index.
#[verifier::external_body]
fn bitvec_get(v: &bit_vec::BitVec<u32>, i: usize) -> (r: bool)
    requires
        i < bitvec_bits(v).len(),
    ensures
        r == bitvec_bits(v)[i as int],
{
    v.get(i).unwrap()
}

/// The connected-component contour primitive the completor builds on: for
/// a binary image, the outline polylines of its foreground clusters, in
/// image coordinates.
pub trait ClusterContours {
    /// The contour polylines of all foreground clusters of `image`.
    fn cluster_contours(&self, image: &BinaryImage) -> Vec<Vec<Point2>>;
}

/// Why a completion attempt failed.
#[derive(Clone, Copy, Debug, PartialEq, Eq, Structural)]
pub enum CompletionError {
    /// The number of extracted segments is odd.
    OddSegments,
    /// More rim endpoints than the bipartition enumeration accepts.
    TooManyEndpoints,
    /// No candidate matching yielded non-crossing connectors, with or
    /// without tail-tangent correction.
    NotIntrapolated,
    /// An expanded hole rectangle would leave the image.
    ExpansionOutOfRange,
}

impl CompletionError {
    /// The error's message text.
    pub fn message(&self) -> (r: &'static str)
    {
        match self {
            CompletionError::OddSegments => "There must be an even number of path segments.",
            CompletionError::TooManyEndpoints => "Too many segments to enumerate bipartitions.",
            CompletionError::NotIntrapolated => "Still not intrapolated.",
            CompletionError::ExpansionOutOfRange => "Expansion out of range.",
        }
    }
}

/// Every point of every listed path lies within the coordinate limits.
pub open spec fn paths_bounded(paths: Seq<Seq<Point2>>) -> bool {
    forall|k: int, j: int|
        0 <= k < paths.len() && 0 <= j < paths[k].len() ==> within(
            #[trigger] paths[k][j],
            2 * PIXEL_LIMIT as int,
        )
}

/// No point occurs twice in the list.
pub open spec fn points_distinct(s: Seq<Point2>) -> bool {
    forall|i: int, j: int| 0 <= i < j < s.len() ==> s[i] != s[j]
}

/// A well-formed extracted segment: at least two points, the tail on the
/// rim, all points in range.
pub open spec fn segment_wf(rect: BoundingRect, seg: Seq<Point2>) -> bool {
    &&& seg.len() >= 2
    &&& rect.near_boundary(seg[0], 1)
    &&& forall|j: int| 0 <= j < seg.len() ==> within(#[trigger] seg[j], 2 * PIXEL_LIMIT as int)
}

/// Completes the interior of a rectangular hole in a binary image.
pub struct ShapeCompletor<C: ClusterContours, D: Debugger> {
    pub image: BinaryImage,
    pub simplify_tolerance: i64,
    pub curve_intrapolator_config: CurveIntrapolatorConfig,
    pub contours: C,
    pub debugger: D,
}

impl<C: ClusterContours, D: Debugger> ShapeCompletor<C, D> {
    /// The completor's fields are within the machine limits.
    pub open spec fn wf(self) -> bool {
        &&& self.image.wf()
        &&& 0 <= self.simplify_tolerance <= 0x8000_0000
        &&& self.curve_intrapolator_config.wf()
    }

    /// Make a completor over the given image.
    pub fn new(
        image: BinaryImage,
        simplify_tolerance: i64,
        curve_intrapolator_config: CurveIntrapolatorConfig,
        contours: C,
        debugger: D,
    ) -> (r: Self)
        requires
            image.wf(),
            0 <= simplify_tolerance <= 0x8000_0000,
            curve_intrapolator_config.wf(),
        ensures
            r.wf(),
            r.image == image,
            r.simplify_tolerance == simplify_tolerance,
            r.curve_intrapolator_config == curve_intrapolator_config,
    {
        Self { image, simplify_tolerance, curve_intrapolator_config, contours, debugger }
    }

    /// The cluster contours of the image, with any polyline holding an
    /// out-of-range point dropped.
    pub fn get_test_paths(&self) -> (r: Vec<Vec<Point2>>)
        requires
            self.wf(),
        ensures
            paths_bounded(r@.map_values(|p: Vec<Point2>| p@)),
    {
        let raw = self.contours.cluster_contours(&self.image);
        let mut out: Vec<Vec<Point2>> = Vec::new();
        let mut k: usize = 0;
        let ghost lim = 2 * PIXEL_LIMIT as int;
        while k < raw.len()
            invariant
                k <= raw@.len(),
                lim == 2 * PIXEL_LIMIT as int,
                forall|k0: int, j: int|
                    0 <= k0 < out@.len() && 0 <= j < out@[k0]@.len() ==> within(
                        #[trigger] out@[k0]@[j],
                        lim,
                    ),
            decreases raw@.len() - k,
        {
            let path = &raw[k];
            let mut ok = true;
            let mut j: usize = 0;
            while j < path.len()
                invariant
                    j <= path@.len(),
                    lim == 2 * PIXEL_LIMIT as int,
                    ok ==> forall|j0: int| 0 <= j0 < j ==> within(#[trigger] path@[j0], lim),
                decreases path@.len() - j,
            {
                let p = path[j];
                if p.x < -2 * PIXEL_LIMIT || p.x > 2 * PIXEL_LIMIT || p.y < -2 * PIXEL_LIMIT || p.y
                    > 2 * PIXEL_LIMIT {
                    ok = false;
                }
                j = j + 1;
            }
            if ok {
                let ghost before = out@;
                out.push(raw[k].clone());
                proof {
                    assert forall|k0: int, j0: int|
                        0 <= k0 < out@.len() && 0 <= j0 < out@[k0]@.len() implies within(
                        #[trigger] out@[k0]@[j0],
                        lim,
                    ) by {
                        if k0 < before.len() {
                            assert(out@[k0] == before[k0]);
                        }
                    };
                }
            }
            k = k + 1;
        }
        proof {
            let mapped = out@.map_values(|p: Vec<Point2>| p@);
            assert forall|k0: int, j0: int|
                0 <= k0 < mapped.len() && 0 <= j0 < mapped[k0].len() implies within(
                #[trigger] mapped[k0][j0],
                lim,
            ) by {
                assert(mapped[k0] == out@[k0]@);
            };
        }
        out
    }

    /// Drop a trailing duplicate of the first point, turning a closed
    /// polyline into its open form.
    fn to_open(path: Vec<Point2>) -> (r: Vec<Point2>)
        ensures
            r@.len() <= path@.len(),
            forall|j: int| 0 <= j < r@.len() ==> r@[j] == path@[j],
            path@.len() >= 1 ==> r@.len() >= 1,
    {
        let n = path.len();
        if n > 1 {
            let first = path[0];
            let last = path[n - 1];
            if first.x == last.x && first.y == last.y {
                let mut p = path;
                let _ = p.pop();
                return p;
            }
            return path;
        }
        path
    }

    /// Walk outward from the rim endpoint at `endpoint_index` along the
    /// cyclic contour in direction `forward`, collecting points until the
    /// contour re-touches the rim (inclusive). The walked segment starts at
    /// the endpoint (on the rim), its second point — the first interior
    /// neighbor — is off the rim, and it ends on the rim again.
    fn walk_segment_points(
        &self,
        path: &Vec<Point2>,
        endpoint_index: usize,
        mask: &bit_vec::BitVec<u32>,
        forward: bool,
    ) -> (r: Vec<Point2>)
        requires
            self.wf(),
            path@.len() >= 2,
            bitvec_bits(mask).len() == path@.len(),
            endpoint_index < path@.len(),
            bitvec_bits(mask)[endpoint_index as int],
            !bitvec_bits(mask)[if forward {
                (if endpoint_index + 1 == path@.len() {
                    0int
                } else {
                    endpoint_index as int + 1
                })
            } else {
                (if endpoint_index == 0 {
                    path@.len() - 1
                } else {
                    endpoint_index as int - 1
                })
            }],
            forall|j: int| 0 <= j < path@.len() ==> within(#[trigger] path@[j], 2 * PIXEL_LIMIT as int),
        ensures
            r@.len() >= 3,
            r@[0] == path@[endpoint_index as int],
            exists|j: int|
                0 <= j < path@.len() && r@[1] == path@[j] && !bitvec_bits(mask)[j],
            exists|j: int|
                0 <= j < path@.len() && r@.last() == path@[j] && bitvec_bits(mask)[j],
            forall|j: int| 0 <= j < r@.len() ==> point_from(#[trigger] r@[j], path@),
    {
        let n = path.len();
        let mut seg: Vec<Point2> = Vec::new();
        seg.push(path[endpoint_index]);
        proof {
            assert(point_from(path@[endpoint_index as int], path@));
        }
        let mut current: usize = if forward {
            if endpoint_index + 1 == n {
                0
            } else {
                endpoint_index + 1
            }
        } else {
            if endpoint_index == 0 {
                n - 1
            } else {
                endpoint_index - 1
            }
        };
        let ghost e = endpoint_index as int;
        let ghost first_idx = current as int;
        let mut t: usize = 1;
        while !bitvec_get(mask, current)
            invariant
                n == path@.len(),
                n >= 2,
                bitvec_bits(mask).len() == n,
                e == endpoint_index as int,
                0 <= e < n,
                bitvec_bits(mask)[e],
                1 <= t <= n,
                current < n,
                forward ==> current == (if e + t < n {
                    e + t
                } else {
                    e + t - n
                }),
                !forward ==> current == (if e - t >= 0 {
                    e - t
                } else {
                    e - t + n
                }),
                seg@.len() == t,
                seg@[0] == path@[e],
                0 <= first_idx < n,
                !bitvec_bits(mask)[first_idx],
                t == 1 ==> current == first_idx,
                t >= 2 ==> seg@[1] == path@[first_idx],
                forall|j: int| 0 <= j < seg@.len() ==> point_from(#[trigger] seg@[j], path@),
                forall|j: int| 0 <= j < n ==> within(#[trigger] path@[j], 2 * PIXEL_LIMIT as int),
            decreases n - t,
        {
            proof {
                if t == n {
                    assert(current == e);
                    assert(false);
                }
                assert(point_from(path@[current as int], path@));
            }
            seg.push(path[current]);
            current = if forward {
                if current + 1 == n {
                    0
                } else {
                    current + 1
                }
            } else {
                if current == 0 {
                    n - 1
                } else {
                    current - 1
                }
            };
            t = t + 1;
        }
        proof {
            assert(point_from(path@[current as int], path@));
        }
        seg.push(path[current]);
        seg
    }

    /// The simplified boundary segment walked from a rim endpoint: the raw
    /// walk of [`Self::walk_segment_points`], reduced by
    /// Ramer-Douglas-Peucker at the configured tolerance. The tail stays at
    /// index zero, the last point is the rim point the walk stopped on, and
    /// the result is the reduction of a raw walked run — it keeps the run's
    /// ends, draws every point from the run, and between adjacent kept
    /// points drops only run points within the simplification tolerance.
    fn walk_segment(
        &self,
        path: &Vec<Point2>,
        endpoint_index: usize,
        mask: &bit_vec::BitVec<u32>,
        forward: bool,
    ) -> (r: Vec<Point2>)
        requires
            self.wf(),
            path@.len() >= 2,
            bitvec_bits(mask).len() == path@.len(),
            endpoint_index < path@.len(),
            bitvec_bits(mask)[endpoint_index as int],
            !bitvec_bits(mask)[if forward {
                (if endpoint_index + 1 == path@.len() {
                    0int
                } else {
                    endpoint_index as int + 1
                })
            } else {
                (if endpoint_index == 0 {
                    path@.len() - 1
                } else {
                    endpoint_index as int - 1
                })
            }],
            forall|j: int| 0 <= j < path@.len() ==> within(#[trigger] path@[j], 2 * PIXEL_LIMIT as int),
        ensures
            r@.len() >= 2,
            r@[0] == path@[endpoint_index as int],
            exists|j: int|
                0 <= j < path@.len() && r@.last() == path@[j] && bitvec_bits(mask)[j],
            forall|j: int| 0 <= j < r@.len() ==> point_from(#[trigger] r@[j], path@),
            exists|raw: Seq<Point2>|
                {
                    &&& raw.len() >= 3
                    &&& raw[0] == path@[endpoint_index as int]
                    &&& (exists|j: int|
                        0 <= j < path@.len() && raw[1] == path@[j] && !bitvec_bits(mask)[j])
                    &&& (exists|j: int|
                        0 <= j < path@.len() && raw.last() == path@[j] && bitvec_bits(mask)[j])
                    &&& (forall|j: int| 0 <= j < raw.len() ==> point_from(#[trigger] raw[j], path@))
                    &&& r@[0] == raw[0]
                    &&& r@.last() == raw.last()
                    &&& (forall|j: int| 0 <= j < r@.len() ==> point_from(#[trigger] r@[j], raw))
                    &&& (forall|j: int|
                        0 <= j < r@.len() - 1 ==> crate::simplify::chord_pair(
                            #[trigger] r@[j],
                            r@[j + 1],
                            raw,
                            self.simplify_tolerance as int,
                        ))
                },
    {
        let seg = self.walk_segment_points(path, endpoint_index, mask, forward);
        proof {
            assert forall|j: int|
                0 <= j < seg@.len() implies within(#[trigger] seg@[j], 2 * PIXEL_LIMIT as int) by {
                assert(point_from(seg@[j], path@));
                let j2 = choose|j2: int| 0 <= j2 < path@.len() && path@[j2] == seg@[j];
            };
        }
        let simplified = reduce(&seg, self.simplify_tolerance);
        proof {
            assert forall|j: int|
                0 <= j < simplified@.len() implies point_from(#[trigger] simplified@[j], path@) by {
                assert(point_from(simplified@[j], seg@));
                let j2 = choose|j2: int| 0 <= j2 < seg@.len() && seg@[j2] == simplified@[j];
                assert(point_from(seg@[j2], path@));
            };
            assert(simplified@.last() == seg@.last());
        }
        simplified
    }

    /// Find the segments of one contour whose tails are rim endpoints not
    /// yet seen: an index is an endpoint when it is on the rim and exactly
    /// one of its cyclic neighbors is. Every produced segment has at least
    /// two points, a tail on the rim and a last point on the rim, and each
    /// produced tail is appended to `current_endpoints`, so a rim
    /// coordinate yields at most one segment across all walked contours.
    pub fn find_segments_on_path_with_unique_endpoints(
        &self,
        hole_rect: &BoundingRect,
        path: Vec<Point2>,
        current_endpoints: &mut Vec<Point2>,
    ) -> (r: Vec<Vec<Point2>>)
        requires
            self.wf(),
            hole_rect.wf(),
            forall|j: int| 0 <= j < path@.len() ==> within(#[trigger] path@[j], 2 * PIXEL_LIMIT as int),
        ensures
            forall|k: int|
                0 <= k < r@.len() ==> segment_wf(*hole_rect, (#[trigger] r@[k])@),
            forall|k: int|
                0 <= k < r@.len() ==> hole_rect.near_boundary((#[trigger] r@[k])@.last(), 1),
            final(current_endpoints)@.len() == old(current_endpoints)@.len() + r@.len(),
            forall|j: int|
                0 <= j < old(current_endpoints)@.len() ==> final(current_endpoints)@[j] == old(
                    current_endpoints,
                )@[j],
            forall|k: int|
                0 <= k < r@.len() ==> final(current_endpoints)@[old(current_endpoints)@.len() + k]
                    == (#[trigger] r@[k])@[0],
            points_distinct(old(current_endpoints)@) ==> points_distinct(
                final(current_endpoints)@,
            ),
    {
        let path = Self::to_open(path);
        let n = path.len();
        if n < 2 {
            return Vec::new();
        }
        let mut bools: Vec<bool> = Vec::new();
        let mut i: usize = 0;
        while i < n
            invariant
                n == path@.len(),
                hole_rect.wf(),
                forall|j: int|
                    0 <= j < n ==> within(#[trigger] path@[j], 2 * PIXEL_LIMIT as int),
                i <= n,
                bools@.len() == i,
                forall|j: int|
                    0 <= j < i ==> bools@[j] == hole_rect.near_boundary(path@[j], 1),
            decreases n - i,
        {
            let b = hole_rect.have_point_on_boundary(path[i], 1);
            bools.push(b);
            i = i + 1;
        }
        let mask = bitvec_from_bools(&bools);
        let mut segments: Vec<Vec<Point2>> = Vec::new();
        let mut idx: usize = 0;
        while idx < n
            invariant
                self.wf(),
                n == path@.len(),
                n >= 2,
                hole_rect.wf(),
                forall|j: int|
                    0 <= j < n ==> within(#[trigger] path@[j], 2 * PIXEL_LIMIT as int),
                bools@.len() == n,
                forall|j: int|
                    0 <= j < n ==> bools@[j] == hole_rect.near_boundary(path@[j], 1),
                bitvec_bits(&mask) =~= bools@,
                idx <= n,
                forall|k: int|
                    0 <= k < segments@.len() ==> segment_wf(*hole_rect, (#[trigger] segments@[k])@),
                forall|k: int|
                    0 <= k < segments@.len() ==> hole_rect.near_boundary(
                        (#[trigger] segments@[k])@.last(),
                        1,
                    ),
                current_endpoints@.len() == old(current_endpoints)@.len() + segments@.len(),
                forall|j: int|
                    0 <= j < old(current_endpoints)@.len() ==> current_endpoints@[j] == old(
                        current_endpoints,
                    )@[j],
                forall|k: int|
                    0 <= k < segments@.len() ==> current_endpoints@[old(
                        current_endpoints,
                    )@.len() + k] == (#[trigger] segments@[k])@[0],
                points_distinct(old(current_endpoints)@) ==> points_distinct(current_endpoints@),
            decreases n - idx,
        {
            let prev = if idx == 0 {
                n - 1
            } else {
                idx - 1
            };
            let next = if idx + 1 == n {
                0
            } else {
                idx + 1
            };
            let b_here = bools[idx];
            let b_prev = bools[prev];
            let b_next = bools[next];
            if b_here && ((b_prev && !b_next) || (!b_prev && b_next)) {
                let ghost eps_before = current_endpoints@;
                if !crate::filler::contains_point(current_endpoints, path[idx]) {
                    current_endpoints.push(path[idx]);
                    proof {
                        if points_distinct(old(current_endpoints)@) {
                            assert forall|i0: int, j0: int|
                                0 <= i0 < j0 < current_endpoints@.len()
                                    implies current_endpoints@[i0] != current_endpoints@[j0] by {
                                if j0 == current_endpoints@.len() - 1 {
                                    assert(current_endpoints@[i0] == eps_before[i0]);
                                }
                            };
                        }
                    }
                    let forward = b_prev;
                    let seg = self.walk_segment(&path, idx, &mask, forward);
                    proof {
                        assert(seg@[0] == path@[idx as int]);
                        assert(hole_rect.near_boundary(seg@[0], 1));
                        assert forall|j: int|
                            0 <= j < seg@.len() implies within(
                            #[trigger] seg@[j],
                            2 * PIXEL_LIMIT as int,
                        ) by {
                            assert(point_from(seg@[j], path@));
                            let j2 = choose|j2: int| 0 <= j2 < path@.len() && path@[j2] == seg@[j];
                        };
                        assert(segment_wf(*hole_rect, seg@));
                        let jr = choose|jr: int|
                            0 <= jr < path@.len() && seg@.last() == path@[jr] && bitvec_bits(
                                &mask,
                            )[jr];
                        assert(hole_rect.near_boundary(seg@.last(), 1));
                    }
                    segments.push(seg);
                }
            }
            idx = idx + 1;
        }
        segments
    }

    /// All simplified segments over all contours. Tails are unique across
    /// contours: no two returned segments share a tail coordinate. Every
    /// segment also ends on the rim.
    pub fn find_simplified_segments_from_paths(
        &self,
        hole_rect: &BoundingRect,
        paths: Vec<Vec<Point2>>,
    ) -> (r: Vec<Vec<Point2>>)
        requires
            self.wf(),
            hole_rect.wf(),
            paths_bounded(paths@.map_values(|p: Vec<Point2>| p@)),
        ensures
            forall|k: int|
                0 <= k < r@.len() ==> segment_wf(*hole_rect, (#[trigger] r@[k])@),
            forall|k: int|
                0 <= k < r@.len() ==> hole_rect.near_boundary((#[trigger] r@[k])@.last(), 1),
            forall|k1: int, k2: int|
                0 <= k1 < k2 < r@.len() ==> (#[trigger] r@[k1])@[0] != (#[trigger] r@[k2])@[0],
    {
        let mut endpoints: Vec<Point2> = Vec::new();
        let mut segments: Vec<Vec<Point2>> = Vec::new();
        let mut paths = paths;
        while paths.len() > 0
            invariant
                self.wf(),
                hole_rect.wf(),
                paths_bounded(paths@.map_values(|p: Vec<Point2>| p@)),
                forall|k: int|
                    0 <= k < segments@.len() ==> segment_wf(*hole_rect, (#[trigger] segments@[k])@),
                forall|k: int|
                    0 <= k < segments@.len() ==> hole_rect.near_boundary(
                        (#[trigger] segments@[k])@.last(),
                        1,
                    ),
                endpoints@.len() == segments@.len(),
                forall|k: int|
                    0 <= k < segments@.len() ==> endpoints@[k] == (#[trigger] segments@[k])@[0],
                points_distinct(endpoints@),
            decreases paths@.len(),
        {
            let ghost paths_before = paths@;
            let path = paths.remove(0);
            proof {
                assert forall|j: int|
                    0 <= j < path@.len() implies within(
                    #[trigger] path@[j],
                    2 * PIXEL_LIMIT as int,
                ) by {
                    assert(paths_before.map_values(|p: Vec<Point2>| p@)[0] == path@);
                };
                let mapped = paths@.map_values(|p: Vec<Point2>| p@);
                assert forall|k0: int, j0: int|
                    0 <= k0 < mapped.len() && 0 <= j0 < mapped[k0].len() implies within(
                    #[trigger] mapped[k0][j0],
                    2 * PIXEL_LIMIT as int,
                ) by {
                    assert(paths@[k0] == paths_before[k0 + 1]);
                    assert(mapped[k0] == paths@[k0]@);
                    assert(paths_before.map_values(|p: Vec<Point2>| p@)[k0 + 1] == paths_before[k0
                        + 1]@);
                };
                assert(paths_bounded(mapped));
            }
            let ghost eps_before = endpoints@;
            let ghost n_before = segments@.len();
            let mut segs = self.find_segments_on_path_with_unique_endpoints(
                hole_rect,
                path,
                &mut endpoints,
            );
            let ghost all_segs = segs@;
            let total_segs = segs.len();
            let mut moved: usize = 0;
            while segs.len() > 0
                invariant
                    hole_rect.wf(),
                    all_segs.len() == total_segs,
                    moved + segs@.len() == all_segs.len(),
                    forall|k: int| 0 <= k < segs@.len() ==> segs@[k] == all_segs[moved + k],
                    forall|k: int|
                        0 <= k < all_segs.len() ==> segment_wf(
                            *hole_rect,
                            (#[trigger] all_segs[k])@,
                        ),
                    forall|k: int|
                        0 <= k < all_segs.len() ==> hole_rect.near_boundary(
                            (#[trigger] all_segs[k])@.last(),
                            1,
                        ),
                    segments@.len() == n_before + moved,
                    forall|k: int| 0 <= k < n_before ==> segments@[k]@[0] == endpoints@[k],
                    forall|k: int|
                        0 <= k < segments@.len() ==> segment_wf(
                            *hole_rect,
                            (#[trigger] segments@[k])@,
                        ),
                    forall|k: int|
                        0 <= k < segments@.len() ==> hole_rect.near_boundary(
                            (#[trigger] segments@[k])@.last(),
                            1,
                        ),
                    forall|k: int|
                        n_before <= k < segments@.len() ==> segments@[k] == all_segs[k - n_before],
                    endpoints@.len() == n_before + all_segs.len(),
                    forall|k: int|
                        0 <= k < all_segs.len() ==> endpoints@[n_before + k] == (
                        #[trigger] all_segs[k])@[0],
                    points_distinct(endpoints@),
                decreases segs@.len(),
            {
                let ghost segs_before = segs@;
                let sg = segs.remove(0);
                proof {
                    assert(sg == all_segs[moved as int]);
                    assert forall|k: int|
                        0 <= k < segs@.len() implies segs@[k] == all_segs[moved + 1 + k] by {
                        assert(segs@[k] == segs_before[k + 1]);
                    };
                }
                segments.push(sg);
                moved = moved + 1;
            }
            proof {
                assert forall|k: int|
                    0 <= k < segments@.len() implies endpoints@[k] == (
                #[trigger] segments@[k])@[0] by {
                    if k >= n_before {
                        assert(segments@[k] == all_segs[k - n_before]);
                    }
                };
            }
        }
        proof {
            assert forall|k1: int, k2: int|
                0 <= k1 < k2 < segments@.len() implies (#[trigger] segments@[k1])@[0] != (
            #[trigger] segments@[k2])@[0] by {
                assert(endpoints@[k1] == segments@[k1]@[0]);
                assert(endpoints@[k2] == segments@[k2]@[0]);
            };
        }
        segments
    }
}


/// The fixed-point version of a pixel polyline.
fn path_to_fixed(seg: &Vec<Point2>) -> (r: Vec<Point2>)
    requires
        forall|j: int| 0 <= j < seg@.len() ==> within(#[trigger] seg@[j], 2 * PIXEL_LIMIT as int),
    ensures
        r@.len() == seg@.len(),
        forall|j: int|
            0 <= j < seg@.len() ==> #[trigger] r@[j] == (Point2 {
                x: (seg@[j].x * SCALE) as i64,
                y: (seg@[j].y * SCALE) as i64,
            }),
        crate::point::all_within(r@, SPLINE_LIMIT as int),
{
    let mut out: Vec<Point2> = Vec::new();
    let mut j: usize = 0;
    while j < seg.len()
        invariant
            forall|j0: int|
                0 <= j0 < seg@.len() ==> within(#[trigger] seg@[j0], 2 * PIXEL_LIMIT as int),
            j <= seg@.len(),
            out@.len() == j,
            forall|j0: int|
                0 <= j0 < j ==> #[trigger] out@[j0] == (Point2 {
                    x: (seg@[j0].x * SCALE) as i64,
                    y: (seg@[j0].y * SCALE) as i64,
                }),
            forall|j0: int| 0 <= j0 < j ==> within(#[trigger] out@[j0], SPLINE_LIMIT as int),
        decreases seg@.len() - j,
    {
        let p = seg[j];
        proof {
            crate::fixed::lemma_mul_bounds_abs(p.x as int, SCALE as int, 2 * PIXEL_LIMIT as int, SCALE as int);
            crate::fixed::lemma_mul_bounds_abs(p.y as int, SCALE as int, 2 * PIXEL_LIMIT as int, SCALE as int);
            assert((2 * PIXEL_LIMIT as int) * SCALE as int <= SPLINE_LIMIT as int)
                by (nonlinear_arith)
                requires
                    SPLINE_LIMIT == (2 * PIXEL_LIMIT + 2) * SCALE,
                    PIXEL_LIMIT == 0x4000,
                    SCALE == 1000,
            ;
        }
        out.push(Point2 { x: p.x * SCALE, y: p.y * SCALE });
        j = j + 1;
    }
    out
}

impl<C: ClusterContours, D: Debugger> ShapeCompletor<C, D> {
    /// Turn the segments into match items: the tail point (fixed point)
    /// with the outward unit direction from the first interior point to
    /// the tail. Fails exactly when the number of segments is odd.
    pub fn construct_match_item_set(&self, path_segments: &Vec<Vec<Point2>>) -> (r: Result<
        MatchItemSet,
        CompletionError,
    >)
        requires
            self.wf(),
            forall|k: int|
                0 <= k < path_segments@.len() ==> (#[trigger] path_segments@[k])@.len() >= 2
                    && (forall|j: int|
                    0 <= j < path_segments@[k]@.len() ==> within(
                        #[trigger] path_segments@[k]@[j],
                        2 * PIXEL_LIMIT as int,
                    )),
        ensures
            (r is Ok) <==> path_segments@.len() % 2 == 0,
            r matches Err(e) ==> e == CompletionError::OddSegments,
            r matches Ok(set) ==> set.items@.len() == path_segments@.len() && set.ids_sequential()
                && set.bounded(),
            r matches Ok(set) ==> forall|k: int|
                0 <= k < path_segments@.len() ==> (#[trigger] set.items@[k]).point == (Point2 {
                    x: (path_segments@[k]@[0].x * SCALE) as i64,
                    y: (path_segments@[k]@[0].y * SCALE) as i64,
                }) && set.items@[k].direction == (Point2 {
                    x: unit_x(psub(path_segments@[k]@[0], path_segments@[k]@[1])) as i64,
                    y: unit_y(psub(path_segments@[k]@[0], path_segments@[k]@[1])) as i64,
                }),
    {
        if path_segments.len() % 2 != 0 {
            return Err(CompletionError::OddSegments);
        }
        let mut set = MatchItemSet::new();
        let mut k: usize = 0;
        while k < path_segments.len()
            invariant
                forall|k0: int|
                    0 <= k0 < path_segments@.len() ==> (#[trigger] path_segments@[k0])@.len() >= 2
                        && (forall|j: int|
                        0 <= j < path_segments@[k0]@.len() ==> within(
                            #[trigger] path_segments@[k0]@[j],
                            2 * PIXEL_LIMIT as int,
                        )),
                k <= path_segments@.len(),
                set.items@.len() == k,
                set.ids_sequential(),
                set.bounded(),
                forall|k0: int|
                    0 <= k0 < k ==> (#[trigger] set.items@[k0]).point == (Point2 {
                        x: (path_segments@[k0]@[0].x * SCALE) as i64,
                        y: (path_segments@[k0]@[0].y * SCALE) as i64,
                    }) && set.items@[k0].direction == (Point2 {
                        x: unit_x(psub(path_segments@[k0]@[0], path_segments@[k0]@[1])) as i64,
                        y: unit_y(psub(path_segments@[k0]@[0], path_segments@[k0]@[1])) as i64,
                    }),
            decreases path_segments@.len() - k,
        {
            let seg = &path_segments[k];
            let tail = seg[0];
            let neighbor = seg[1];
            proof {
                assert(within(path_segments@[k as int]@[0], 2 * PIXEL_LIMIT as int));
                assert(within(path_segments@[k as int]@[1], 2 * PIXEL_LIMIT as int));
                crate::fixed::lemma_mul_bounds_abs(
                    tail.x as int,
                    SCALE as int,
                    2 * PIXEL_LIMIT as int,
                    SCALE as int,
                );
                crate::fixed::lemma_mul_bounds_abs(
                    tail.y as int,
                    SCALE as int,
                    2 * PIXEL_LIMIT as int,
                    SCALE as int,
                );
                assert((2 * PIXEL_LIMIT as int) * SCALE as int <= SPLINE_LIMIT as int)
                    by (nonlinear_arith)
                    requires
                        SPLINE_LIMIT == (2 * PIXEL_LIMIT + 2) * SCALE,
                        PIXEL_LIMIT == 0x4000,
                        SCALE == 1000,
                ;
            }
            let point = Point2 { x: tail.x * SCALE, y: tail.y * SCALE };
            let diff = tail.minus(neighbor);
            let direction = diff.get_normalized();
            proof {
                assert(diff == psub(path_segments@[k as int]@[0], path_segments@[k as int]@[1]));
                assert(direction == (Point2 {
                    x: unit_x(psub(path_segments@[k as int]@[0], path_segments@[k as int]@[1])) as i64,
                    y: unit_y(psub(path_segments@[k as int]@[0], path_segments@[k as int]@[1])) as i64,
                }));
            }
            let ghost before = set;
            set.push_and_set_id(MatchItem { id: 0, point, direction });
            proof {
                assert forall|k0: int|
                    0 <= k0 < set.items@.len() implies (#[trigger] set.items@[k0]).id == k0 by {
                    if k0 < before.items@.len() {
                        assert(set.items@[k0] == before.items@[k0]);
                    }
                };
                assert forall|k0: int|
                    0 <= k0 < set.items@.len() implies crate::matcher_helper::item_bounded(
                    #[trigger] set.items@[k0],
                ) by {
                    if k0 < before.items@.len() {
                        assert(set.items@[k0] == before.items@[k0]);
                    }
                };
            }
            k = k + 1;
        }
        Ok(set)
    }

    /// Try each candidate matching in order: synthesize a connector for
    /// every pair, abandon a matching whose pair cannot be connected or
    /// whose connectors mutually cross, and accept the first that
    /// survives. Accepted connectors never cross by the clipping test.
    pub fn try_intrapolate_with_matchings(
        &self,
        hole_rect: BoundingRect,
        matchings: &Vec<Matching>,
        path_segments: &Vec<Vec<Point2>>,
        correct_tail_tangents: bool,
    ) -> (r: Option<Vec<Spline>>)
        requires
            self.wf(),
            hole_rect.wf(),
            forall|k: int|
                0 <= k < path_segments@.len() ==> segment_wf(
                    hole_rect,
                    (#[trigger] path_segments@[k])@,
                ),
            forall|k: int|
                0 <= k < matchings@.len() ==> matching_valid(
                    (#[trigger] matchings@[k]).index_pairs@,
                    path_segments@.len() as nat,
                ),
        ensures
            r matches Some(cs) ==> !any_curves_cross(cs@) && (forall|k: int|
                0 <= k < cs@.len() ==> (#[trigger] cs@[k]).wf()),
    {
        let intrapolator = CurveIntrapolator::new(self.curve_intrapolator_config, hole_rect);
        let mut mi: usize = 0;
        while mi < matchings.len()
            invariant
                self.wf(),
                hole_rect.wf(),
                intrapolator.config == self.curve_intrapolator_config,
                intrapolator.hole_rect == hole_rect,
                forall|k: int|
                    0 <= k < path_segments@.len() ==> segment_wf(
                        hole_rect,
                        (#[trigger] path_segments@[k])@,
                    ),
                forall|k: int|
                    0 <= k < matchings@.len() ==> matching_valid(
                        (#[trigger] matchings@[k]).index_pairs@,
                        path_segments@.len() as nat,
                    ),
                mi <= matchings@.len(),
            decreases matchings@.len() - mi,
        {
            let matching = &matchings[mi];
            let npairs = matching.index_pairs.len();
            let mut curves: Vec<Spline> = Vec::new();
            let mut pi: usize = 0;
            let mut failed = false;
            while pi < npairs && !failed
                invariant
                    self.wf(),
                    hole_rect.wf(),
                    intrapolator.config == self.curve_intrapolator_config,
                    intrapolator.hole_rect == hole_rect,
                    forall|k: int|
                        0 <= k < path_segments@.len() ==> segment_wf(
                            hole_rect,
                            (#[trigger] path_segments@[k])@,
                        ),
                    mi < matchings@.len(),
                    matching == &matchings@[mi as int],
                    matching_valid(matching.index_pairs@, path_segments@.len() as nat),
                    npairs == matching.index_pairs@.len(),
                    pi <= npairs,
                    forall|k: int| 0 <= k < curves@.len() ==> (#[trigger] curves@[k]).wf(),
                decreases npairs - pi + (if failed {
                    0int
                } else {
                    1int
                }),
            {
                let (index1, index2) = matching.index_pairs[pi];
                proof {
                    assert(matching.index_pairs@[pi as int].0 < path_segments@.len());
                    assert(matching.index_pairs@[pi as int].1 < path_segments@.len());
                }
                let curve1 = path_to_fixed(&path_segments[index1]);
                let curve2 = path_to_fixed(&path_segments[index2]);
                if self.debugger.should_draw_simplified() {
                    self.debugger.draw_path(&path_segments[index1]);
                    self.debugger.draw_path(&path_segments[index2]);
                }
                proof {
                    let seg1 = path_segments@[index1 as int]@;
                    let seg2 = path_segments@[index2 as int]@;
                    assert(curve1@[0] == (Point2 {
                        x: (seg1[0].x * SCALE) as i64,
                        y: (seg1[0].y * SCALE) as i64,
                    }));
                    assert(hole_rect.near_boundary(seg1[0], 1));
                    crate::point::lemma_pixel_of_fixed(seg1[0]);
                    assert(pixel_of(curve1@[0]) == seg1[0]);
                    crate::point::lemma_pixel_of_fixed(seg2[0]);
                    assert(pixel_of(curve2@[0]) == seg2[0]);
                    assert(oriented_tail(curve1@, false) == curve1@[0]);
                    assert(oriented_tail(curve2@, false) == curve2@[0]);
                }
                let part = intrapolator.intrapolate_curve_between_curves(
                    curve1,
                    curve2,
                    false,
                    false,
                    correct_tail_tangents,
                );
                match part {
                    Some(spline) => {
                        curves.push(spline);
                    },
                    None => {
                        failed = true;
                    },
                }
                pi = pi + 1;
            }
            if !failed {
                if !crate::spline::bezier_curves_intersection(&curves) {
                    if self.debugger.should_draw_control_points() {
                        let mut ci: usize = 0;
                        while ci < curves.len()
                            invariant
                                forall|k: int|
                                    0 <= k < curves@.len() ==> (#[trigger] curves@[k]).wf(),
                                ci <= curves@.len(),
                            decreases curves@.len() - ci,
                        {
                            let spline = &curves[ci];
                            let mut si: usize = 0;
                            while si < spline.curves.len()
                                invariant
                                    spline.wf(),
                                    si <= spline.curves@.len(),
                                decreases spline.curves@.len() - si,
                            {
                                let c = spline.curves[si];
                                self.debugger.draw_cross(c.ctrl1.to_pixel());
                                self.debugger.draw_cross(c.ctrl2.to_pixel());
                                si = si + 1;
                            }
                            ci = ci + 1;
                        }
                    }
                    return Some(curves);
                }
            }
            mi = mi + 1;
        }
        None
    }

    /// Complete the shape for already extracted segments: pair them,
    /// synthesize non-crossing connectors (retrying once with tail-tangent
    /// correction), and fill the hole. No segments means no boundary
    /// crosses the hole: the result is the all-BLANK matrix. The error is
    /// pinned by the segment count: the odd-count error exactly on an odd
    /// count, the endpoint-cap error exactly on an even count above the
    /// enumeration cap, and otherwise only the not-intrapolated error can
    /// come back.
    pub fn complete_shape_from_segments(
        &self,
        hole_rect: BoundingRect,
        path_segments: Vec<Vec<Point2>>,
    ) -> (r: Result<FilledHoleMatrix, CompletionError>)
        requires
            self.wf(),
            hole_rect.wf(),
            forall|k: int|
                0 <= k < path_segments@.len() ==> segment_wf(
                    hole_rect,
                    (#[trigger] path_segments@[k])@,
                ),
        ensures
            r matches Ok(m) ==> m.wf() && m.width == hole_rect.right - hole_rect.left && m.height
                == hole_rect.bottom - hole_rect.top && saturated(m),
            r matches Ok(m) ==> exists|cs: Seq<Spline>|
                {
                    &&& (forall|k: int| 0 <= k < cs.len() ==> (#[trigger] cs[k]).wf())
                    &&& !(#[trigger] any_curves_cross(cs))
                    &&& (forall|x: int, y: int|
                        m.in_bounds(x, y) ==> ((m.cell(x, y)
                            == crate::filler::FilledHoleElement::Structure) == any_hit(
                            cs,
                            Point2 { x: hole_rect.left, y: hole_rect.top },
                            m.width as int,
                            m.height as int,
                            x,
                            y,
                        )))
                },
            path_segments@.len() == 0 ==> (r matches Ok(m) && (forall|x: int, y: int|
                m.in_bounds(x, y) ==> m.cell(x, y) == crate::filler::FilledHoleElement::Blank)),
            ((r matches Err(e) && e == CompletionError::OddSegments)) <==> path_segments@.len()
                % 2 == 1,
            ((r matches Err(e) && e == CompletionError::TooManyEndpoints)) <==> (
            path_segments@.len() % 2 == 0 && path_segments@.len() > 20),
            r matches Err(e) ==> (e == CompletionError::OddSegments
                || e == CompletionError::TooManyEndpoints || e == CompletionError::NotIntrapolated),
            (r matches Err(e) && e == CompletionError::NotIntrapolated) ==> (0
                < path_segments@.len() <= 20 && path_segments@.len() % 2 == 0),
    {
        if path_segments.len() == 0 {
            let w = (hole_rect.right - hole_rect.left) as usize;
            let h = (hole_rect.bottom - hole_rect.top) as usize;
            let blank = FilledHoleMatrix::new(w, h);
            proof {
                assert forall|x: int, y: int|
                    blank.in_bounds(x, y) implies #[trigger] crate::filler::tex_ok(
                    blank,
                    x,
                    y,
                ) by {
                    assert(blank.cell(x, y) == crate::filler::FilledHoleElement::Blank);
                };
                let cs = Seq::<Spline>::empty();
                assert(!any_curves_cross(cs));
                assert forall|x: int, y: int|
                    blank.in_bounds(x, y) implies ((blank.cell(x, y)
                    == crate::filler::FilledHoleElement::Structure) == any_hit(
                    cs,
                    Point2 { x: hole_rect.left, y: hole_rect.top },
                    blank.width as int,
                    blank.height as int,
                    x,
                    y,
                )) by {
                    assert(blank.cell(x, y) == crate::filler::FilledHoleElement::Blank);
                    assert(!any_hit(
                        cs,
                        Point2 { x: hole_rect.left, y: hole_rect.top },
                        blank.width as int,
                        blank.height as int,
                        x,
                        y,
                    ));
                };
            }
            return Ok(blank);
        }
        let match_item_set = match self.construct_match_item_set(&path_segments) {
            Ok(s) => s,
            Err(e) => {
                return Err(e);
            },
        };
        if match_item_set.len() > 20 {
            return Err(CompletionError::TooManyEndpoints);
        }
        let matchings = Matcher::find_all_possible_matchings(match_item_set);
        let intrapolated_curves = {
            let first = self.try_intrapolate_with_matchings(
                hole_rect,
                &matchings,
                &path_segments,
                false,
            );
            match first {
                Some(cs) => cs,
                None => {
                    let second = self.try_intrapolate_with_matchings(
                        hole_rect,
                        &matchings,
                        &path_segments,
                        true,
                    );
                    match second {
                        Some(cs) => cs,
                        None => {
                            return Err(CompletionError::NotIntrapolated);
                        },
                    }
                },
            }
        };
        let mut endpoints: Vec<Point2> = Vec::new();
        let mut k: usize = 0;
        while k < path_segments.len()
            invariant
                hole_rect.wf(),
                forall|k0: int|
                    0 <= k0 < path_segments@.len() ==> segment_wf(
                        hole_rect,
                        (#[trigger] path_segments@[k0])@,
                    ),
                k <= path_segments@.len(),
                endpoints@.len() == k,
                forall|j: int|
                    0 <= j < k ==> within(#[trigger] endpoints@[j], 2 * PIXEL_LIMIT as int),
            decreases path_segments@.len() - k,
        {
            let seg = &path_segments[k];
            endpoints.push(seg[0]);
            k = k + 1;
        }
        let ghost cs_view = intrapolated_curves@;
        let filled = HoleFiller::fill(&self.image, hole_rect, intrapolated_curves, endpoints);
        proof {
            assert(!any_curves_cross(cs_view));
            assert(forall|k: int| 0 <= k < cs_view.len() ==> (#[trigger] cs_view[k]).wf());
        }
        Ok(filled)
    }

    /// Complete the shape within the hole: walk the contours, extract and
    /// simplify the rim segments, and complete from them. A hole that no
    /// foreground boundary crosses yields an all-BLANK matrix; errors are
    /// only the odd-count, endpoint-cap and not-intrapolated ones.
    pub fn complete_shape(&self, hole_rect: BoundingRect) -> (r: Result<
        FilledHoleMatrix,
        CompletionError,
    >)
        requires
            self.wf(),
            hole_rect.wf(),
        ensures
            r matches Ok(m) ==> m.wf() && m.width == hole_rect.right - hole_rect.left && m.height
                == hole_rect.bottom - hole_rect.top && saturated(m),
            r matches Ok(m) ==> exists|cs: Seq<Spline>|
                {
                    &&& (forall|k: int| 0 <= k < cs.len() ==> (#[trigger] cs[k]).wf())
                    &&& !(#[trigger] any_curves_cross(cs))
                    &&& (forall|x: int, y: int|
                        m.in_bounds(x, y) ==> ((m.cell(x, y)
                            == crate::filler::FilledHoleElement::Structure) == any_hit(
                            cs,
                            Point2 { x: hole_rect.left, y: hole_rect.top },
                            m.width as int,
                            m.height as int,
                            x,
                            y,
                        )))
                },
            r matches Err(e) ==> (e == CompletionError::OddSegments
                || e == CompletionError::TooManyEndpoints || e == CompletionError::NotIntrapolated),
    {
        let paths = self.get_test_paths();
        let path_segments = self.find_simplified_segments_from_paths(&hole_rect, paths);
        self.complete_shape_from_segments(hole_rect, path_segments)
    }

    /// Complete the shape and hand the result to the debugger sink. Fails
    /// with the same errors as the completion itself.
    pub fn complete_shape_and_draw(&self, hole_rect: BoundingRect) -> (r: Result<
        (),
        CompletionError,
    >)
        requires
            self.wf(),
            hole_rect.wf(),
        ensures
            r matches Err(e) ==> (e == CompletionError::OddSegments
                || e == CompletionError::TooManyEndpoints || e == CompletionError::NotIntrapolated),
    {
        let hole_origin = Point2 { x: hole_rect.left, y: hole_rect.top };
        match self.complete_shape(hole_rect) {
            Ok(filled_hole) => {
                self.debugger.draw_filled_hole(&filled_hole, hole_origin);
                Ok(())
            },
            Err(e) => Err(e),
        }
    }

    /// Fail-safe completion: if the hole as given cannot be completed,
    /// expand it by one pixel to the left, upward, to the right and
    /// downward, in that order (skipping an expansion that would leave the
    /// image), retry each, trim the added column or row from the first
    /// success and draw the result at the original size. On total failure
    /// the collected errors are returned: first the unexpanded attempt's
    /// error, then one entry per expansion in that fixed order.
    pub fn complete_shape_and_draw_expandable(&self, hole_rect: BoundingRect) -> (r: Result<
        (),
        Vec<CompletionError>,
    >)
        requires
            self.wf(),
            hole_rect.wf(),
        ensures
            r matches Err(es) ==> es@.len() == 5,
            r matches Err(es) ==> (es@[0] == CompletionError::OddSegments || es@[0]
                == CompletionError::TooManyEndpoints || es@[0]
                == CompletionError::NotIntrapolated),
    {
        let hole_origin = Point2 { x: hole_rect.left, y: hole_rect.top };
        let first = self.complete_shape(hole_rect);
        let filled_hole = match first {
            Ok(m) => m,
            Err(e) => {
                let mut errors: Vec<CompletionError> = Vec::new();
                errors.push(e);
                match self.try_expansions(hole_rect, &mut errors) {
                    Some(m) => m,
                    None => {
                        return Err(errors);
                    },
                }
            },
        };
        self.debugger.draw_filled_hole(&filled_hole, hole_origin);
        Ok(())
    }

    /// Retry with the four one-pixel expansions, in the fixed order left,
    /// top, right, bottom; trim the added column or row on success, so the
    /// returned matrix has the original hole's size. Every attempt that
    /// does not succeed appends exactly one error: the failed completion's
    /// error, or the out-of-range error when the expansion would leave the
    /// image.
    fn try_expansions(&self, hole_rect: BoundingRect, errors: &mut Vec<CompletionError>) -> (r:
        Option<FilledHoleMatrix>)
        requires
            self.wf(),
            hole_rect.wf(),
        ensures
            r matches Some(m) ==> m.wf() && m.width == hole_rect.right - hole_rect.left
                && m.height == hole_rect.bottom - hole_rect.top,
            r is None ==> final(errors)@.len() == old(errors)@.len() + 4,
            r is Some ==> final(errors)@.len() <= old(errors)@.len() + 3,
            forall|j: int|
                0 <= j < old(errors)@.len() ==> final(errors)@[j] == old(errors)@[j],
    {
        let x = hole_rect.left;
        let y = hole_rect.top;
        let w = hole_rect.right - hole_rect.left;
        let h = hole_rect.bottom - hole_rect.top;
        let mut side: usize = 0;
        while side < 4
            invariant
                self.wf(),
                hole_rect.wf(),
                x == hole_rect.left,
                y == hole_rect.top,
                w == hole_rect.right - hole_rect.left,
                h == hole_rect.bottom - hole_rect.top,
                side <= 4,
                errors@.len() == old(errors)@.len() + side,
                forall|j: int|
                    0 <= j < old(errors)@.len() ==> errors@[j] == old(errors)@[j],
            decreases 4 - side,
        {
            let (ex, ey, ew, eh) = if side == 0 {
                (x - 1, y, w + 1, h)
            } else if side == 1 {
                (x, y - 1, w, h + 1)
            } else if side == 2 {
                (x, y, w + 1, h)
            } else {
                (x, y, w, h + 1)
            };
            if 0 <= ex && ex + ew <= self.image.width as i64 && 0 <= ey && ey + eh
                <= self.image.height as i64 {
                let expanded = BoundingRect::new_x_y_w_h(ex, ey, ew, eh);
                match self.complete_shape(expanded) {
                    Ok(filled) => {
                        let trimmed = if side == 0 {
                            filled.new_without_column(0)
                        } else if side == 1 {
                            filled.new_without_row(0)
                        } else if side == 2 {
                            filled.new_without_column((ew - 1) as usize)
                        } else {
                            filled.new_without_row((eh - 1) as usize)
                        };
                        return Some(trimmed);
                    },
                    Err(e) => {
                        errors.push(e);
                    },
                }
            } else {
                errors.push(CompletionError::ExpansionOutOfRange);
            }
            side = side + 1;
        }
        None
    }
}

} // verus!
