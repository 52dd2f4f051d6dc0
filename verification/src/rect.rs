//! Axis-aligned rectangles and the rim of the hole.
//!
//! The rim is the frame of lattice points on the rectangle's boundary:
//! `(left, top)` is the first pixel of the hole, while the `right` column and
//! `bottom` row lie one past the hole's pixel area. A point is "on the rim"
//! within tolerance `tol` when it lies in the rectangle expanded by `tol`
//! and one of its coordinates is within `tol` of an extremal edge coordinate.

use vstd::prelude::*;
use crate::point::Point2;

verus! {

/// Largest pixel coordinate magnitude the library accepts.
pub const PIXEL_LIMIT: i64 = 0x4000;

/// An axis-aligned rectangle; `left` and `top` are inclusive pixel
/// coordinates, `right = left + width` and `bottom = top + height`.
#[derive(Clone, Copy, Debug, PartialEq, Eq, Structural)]
pub struct BoundingRect {
    pub left: i64,
    pub top: i64,
    pub right: i64,
    pub bottom: i64,
}

impl BoundingRect {
    /// The rectangle is non-degenerate and its coordinates are within the
    /// machine limits of the library.
    pub open spec fn wf(self) -> bool {
        &&& -PIXEL_LIMIT <= self.left < self.right <= PIXEL_LIMIT
        &&& -PIXEL_LIMIT <= self.top < self.bottom <= PIXEL_LIMIT
    }

    /// `p` lies exactly on the frame of lattice points of the boundary.
    pub open spec fn on_frame(self, p: Point2) -> bool {
        &&& self.left <= p.x <= self.right
        &&& self.top <= p.y <= self.bottom
        &&& (p.x == self.left || p.x == self.right || p.y == self.top || p.y == self.bottom)
    }

    /// `p` is on the rim within tolerance `tol`.
    pub open spec fn near_boundary(self, p: Point2, tol: int) -> bool {
        &&& self.left - tol <= p.x <= self.right + tol
        &&& self.top - tol <= p.y <= self.bottom + tol
        &&& {
            ||| -tol <= p.x - self.left <= tol
            ||| -tol <= p.x - self.right <= tol
            ||| -tol <= p.y - self.top <= tol
            ||| -tol <= p.y - self.bottom <= tol
        }
    }

    /// `p` is inside the rectangle expanded by `tol`.
    pub open spec fn inside_or_near(self, p: Point2, tol: int) -> bool {
        &&& self.left - tol <= p.x <= self.right + tol
        &&& self.top - tol <= p.y <= self.bottom + tol
    }

    /// Number of frame lattice points, `2 * (width + height)`.
    pub open spec fn frame_len(self) -> int {
        2 * (self.right - self.left + self.bottom - self.top)
    }

    /// The `i`-th frame point, walking clockwise (in screen coordinates)
    /// from the top-left corner.
    pub open spec fn frame_point(self, i: int) -> Point2
        recommends
            self.wf(),
            0 <= i < self.frame_len(),
    {
        let w = self.right - self.left;
        let h = self.bottom - self.top;
        if i <= w {
            Point2 { x: (self.left + i) as i64, y: self.top }
        } else if i <= w + h {
            Point2 { x: self.right, y: (self.top + (i - w)) as i64 }
        } else if i <= 2 * w + h {
            Point2 { x: (self.right - (i - w - h)) as i64, y: self.bottom }
        } else {
            Point2 { x: self.left, y: (self.bottom - (i - 2 * w - h)) as i64 }
        }
    }

    /// Make a rectangle from origin and size.
    pub fn new_x_y_w_h(x: i64, y: i64, w: i64, h: i64) -> (r: Self)
        requires
            w >= 1,
            h >= 1,
            -PIXEL_LIMIT <= x,
            x + w <= PIXEL_LIMIT,
            -PIXEL_LIMIT <= y,
            y + h <= PIXEL_LIMIT,
        ensures
            r.left == x,
            r.top == y,
            r.right == x + w,
            r.bottom == y + h,
            r.wf(),
    {
        Self { left: x, top: y, right: x + w, bottom: y + h }
    }

    /// Width in pixels.
    pub fn width(&self) -> (r: i64)
        requires
            self.wf(),
        ensures
            r == self.right - self.left,
    {
        self.right - self.left
    }

    /// Height in pixels.
    pub fn height(&self) -> (r: i64)
        requires
            self.wf(),
        ensures
            r == self.bottom - self.top,
    {
        self.bottom - self.top
    }

    /// Whether `p` is on the rim within tolerance `tol`.
    pub fn have_point_on_boundary(&self, p: Point2, tol: i64) -> (r: bool)
        requires
            self.wf(),
            0 <= tol <= PIXEL_LIMIT,
        ensures
            r == self.near_boundary(p, tol as int),
    {
        let inside = self.left - tol <= p.x && p.x <= self.right + tol && self.top - tol <= p.y
            && p.y <= self.bottom + tol;
        let near_edge = (self.left - tol <= p.x && p.x <= self.left + tol) || (self.right - tol
            <= p.x && p.x <= self.right + tol) || (self.top - tol <= p.y && p.y <= self.top + tol)
            || (self.bottom - tol <= p.y && p.y <= self.bottom + tol);
        inside && near_edge
    }

    /// Whether `p` lies inside the rectangle expanded by `tol`.
    pub fn have_point_on_boundary_or_inside(&self, p: Point2, tol: i64) -> (r: bool)
        requires
            self.wf(),
            0 <= tol <= PIXEL_LIMIT,
        ensures
            r == self.inside_or_near(p, tol as int),
    {
        self.left - tol <= p.x && p.x <= self.right + tol && self.top - tol <= p.y && p.y
            <= self.bottom + tol
    }

    /// Nearest hole pixel to the frame point `p`: the `right` column and
    /// `bottom` row are shifted one pixel into the hole.
    pub fn get_closest_point_inside(&self, p: Point2) -> (r: Point2)
        requires
            self.wf(),
            self.on_frame(p),
        ensures
            self.left <= r.x < self.right,
            self.top <= r.y < self.bottom,
            r.x == if p.x == self.right { self.right - 1 } else { p.x as int },
            r.y == if p.y == self.bottom { self.bottom - 1 } else { p.y as int },
    {
        let x = if p.x == self.right { self.right - 1 } else { p.x };
        let y = if p.y == self.bottom { self.bottom - 1 } else { p.y };
        Point2 { x, y }
    }

    /// Nearest pixel outside the hole to the frame point `p`: the `left`
    /// column and `top` row are shifted one pixel out of the hole.
    pub fn get_closest_point_outside(&self, p: Point2) -> (r: Point2)
        requires
            self.wf(),
            self.on_frame(p),
        ensures
            r.x == if p.x == self.left { self.left - 1 } else { p.x as int },
            r.y == if p.y == self.top { self.top - 1 } else { p.y as int },
    {
        let x = if p.x == self.left { self.left - 1 } else { p.x };
        let y = if p.y == self.top { self.top - 1 } else { p.y };
        Point2 { x, y }
    }

    /// Index of the frame point `p` in the clockwise walk of the frame.
    pub fn frame_index_of(&self, p: Point2) -> (r: usize)
        requires
            self.wf(),
            self.on_frame(p),
        ensures
            0 <= r < self.frame_len(),
            r == self.frame_index_of_spec(p),
            self.frame_point(r as int) == p,
    {
        let w = self.right - self.left;
        let h = self.bottom - self.top;
        if p.y == self.top {
            (p.x - self.left) as usize
        } else if p.x == self.right {
            (w + (p.y - self.top)) as usize
        } else if p.y == self.bottom {
            (w + h + (self.right - p.x)) as usize
        } else {
            (2 * w + h + (self.bottom - p.y)) as usize
        }
    }

    /// The frame points in clockwise order starting from `start`.
    pub fn get_boundary_points_from(&self, start: Point2) -> (r: Vec<Point2>)
        requires
            self.wf(),
            self.on_frame(start),
        ensures
            r@.len() == self.frame_len(),
            r@.len() >= 4,
            forall|k: int|
                0 <= k < r@.len() ==> r@[k] == self.frame_point(
                    (self.frame_index_of_spec(start) + k) % self.frame_len(),
                ),
            r@[0] == start,
            forall|k: int| 0 <= k < r@.len() ==> self.on_frame(#[trigger] r@[k]),
    {
        let i0 = self.frame_index_of(start);
        let total = (2 * ((self.right - self.left) + (self.bottom - self.top))) as usize;
        let mut out: Vec<Point2> = Vec::new();
        let ghost s0 = self.frame_index_of_spec(start);
        proof {
            assert(self.frame_point(s0) == start);
        }
        let mut k: usize = 0;
        while k < total
        invariant
                self.wf(),
                self.on_frame(start),
                total == self.frame_len(),
                i0 == s0,
                0 <= s0 < total,
                self.frame_point(s0) == start,
                out@.len() == k,
                k <= total,
                forall|j: int|
                    0 <= j < k ==> out@[j] == self.frame_point((s0 + j) % self.frame_len()),
                forall|j: int| 0 <= j < k ==> self.on_frame(#[trigger] out@[j]),
            decreases total - k,
        {
            let idx = (i0 + k) % total;
            let p = self.frame_point_at(idx);
            out.push(p);
            k = k + 1;
        }
        proof {
            assert(out@[0] == self.frame_point((s0 + 0) % self.frame_len()));
            assert((s0 + 0) % self.frame_len() == s0) by {
                vstd::arithmetic::div_mod::lemma_small_mod(s0 as nat, self.frame_len() as nat);
            };
        }
        out
    }

    /// `frame_index_of` as a mathematical function.
    pub open spec fn frame_index_of_spec(self, p: Point2) -> int {
        let w = self.right - self.left;
        let h = self.bottom - self.top;
        if p.y == self.top {
            p.x - self.left
        } else if p.x == self.right {
            w + (p.y - self.top)
        } else if p.y == self.bottom {
            w + h + (self.right - p.x)
        } else {
            2 * w + h + (self.bottom - p.y)
        }
    }

    /// Compute the `i`-th frame point.
    pub fn frame_point_at(&self, i: usize) -> (r: Point2)
        requires
            self.wf(),
            0 <= i < self.frame_len(),
        ensures
            r == self.frame_point(i as int),
            self.on_frame(r),
    {
        let w = self.right - self.left;
        let h = self.bottom - self.top;
        let ii = i as i64;
        if ii <= w {
            Point2 { x: self.left + ii, y: self.top }
        } else if ii <= w + h {
            Point2 { x: self.right, y: self.top + (ii - w) }
        } else if ii <= 2 * w + h {
            Point2 { x: self.right - (ii - w - h), y: self.bottom }
        } else {
            Point2 { x: self.left, y: self.bottom - (ii - 2 * w - h) }
        }
    }
}

} // verus!
