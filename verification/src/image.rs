//! The binary raster image the completor reads.

use vstd::prelude::*;
use crate::point::Point2;
use crate::rect::PIXEL_LIMIT;

verus! {

/// A binary image: `width * height` pixels in row-major order, true where
/// the pixel is foreground.
#[derive(Debug)]
pub struct BinaryImage {
    pub width: usize,
    pub height: usize,
    pub pixels: Vec<bool>,
}

impl BinaryImage {
    /// The pixel vector matches the dimensions and the dimensions are
    /// within the machine limits of the library.
    pub open spec fn wf(self) -> bool {
        &&& self.pixels@.len() == self.width * self.height
        &&& 1 <= self.width <= PIXEL_LIMIT
        &&& 1 <= self.height <= PIXEL_LIMIT
    }

    /// The pixel value at `(x, y)`, false outside the image.
    pub open spec fn pixel_at(self, x: int, y: int) -> bool {
        if 0 <= x < self.width && 0 <= y < self.height {
            self.pixels@[y * self.width + x]
        } else {
            false
        }
    }

    /// An all-background image of the given size.
    pub fn new(width: usize, height: usize) -> (r: Self)
        requires
            1 <= width <= PIXEL_LIMIT,
            1 <= height <= PIXEL_LIMIT,
        ensures
            r.wf(),
            r.width == width,
            r.height == height,
            forall|x: int, y: int| !r.pixel_at(x, y),
    {
        let mut pixels: Vec<bool> = Vec::new();
        let ghost total = (width * height) as int;
        proof {
            vstd::arithmetic::mul::lemma_mul_nonnegative(width as int, height as int);
            vstd::arithmetic::mul::lemma_mul_upper_bound(
                width as int,
                2 * PIXEL_LIMIT as int,
                height as int,
                2 * PIXEL_LIMIT as int,
            );
            assert((2 * PIXEL_LIMIT as int) * (2 * PIXEL_LIMIT as int) <= 0x4000_0000int)
                by (nonlinear_arith);
        }
        let n = width * height;
        let mut i: usize = 0;
        while i < n
            invariant
                pixels@.len() == i,
                i <= n,
                forall|j: int| 0 <= j < i ==> !pixels@[j],
            decreases n - i,
        {
            pixels.push(false);
            i = i + 1;
        }
        let r = Self { width, height, pixels };
        proof {
            assert forall|x: int, y: int| !r.pixel_at(x, y) by {
                if 0 <= x < width && 0 <= y < height {
                    vstd::arithmetic::mul::lemma_mul_nonnegative(y, width as int);
                    vstd::arithmetic::mul::lemma_mul_inequality(y + 1, height as int, width as int);
                    assert((y + 1) * width == y * width + width) by (nonlinear_arith);
                    assert(height * width == width * height) by (nonlinear_arith);
                }
            };
        }
        r
    }

    /// Set the pixel at `(x, y)`.
    pub fn set_pixel(&mut self, x: usize, y: usize, value: bool)
        requires
            old(self).wf(),
            x < old(self).width,
            y < old(self).height,
        ensures
            final(self).wf(),
            final(self).width == old(self).width,
            final(self).height == old(self).height,
            final(self).pixel_at(x as int, y as int) == value,
            forall|x0: int, y0: int|
                !(x0 == x && y0 == y) ==> final(self).pixel_at(x0, y0) == old(self).pixel_at(
                    x0,
                    y0,
                ),
    {
        proof {
            lemma_grid_index(self.width as int, self.height as int, x as int, y as int);
            lemma_grid_fits(self.width as int, self.height as int);
        }
        let idx = y * self.width + x;
        self.pixels.set(idx, value);
        proof {
            let w = self.width as int;
            let h = self.height as int;
            assert forall|x0: int, y0: int|
                !(x0 == x && y0 == y) implies final(self).pixel_at(x0, y0) == old(self).pixel_at(
                x0,
                y0,
            ) by {
                if 0 <= x0 < w && 0 <= y0 < h {
                    lemma_grid_index(w, h, x0, y0);
                    if y0 != y {
                        lemma_grid_distinct(w, x0, y0, x as int, y as int);
                    }
                }
            };
            lemma_grid_index(w, h, x as int, y as int);
        }
    }

    /// The pixel under the point, false when the point lies outside the
    /// image.
    pub fn get_pixel_at_safe(&self, point: Point2) -> (r: bool)
        requires
            self.wf(),
            crate::point::within(point, 4 * PIXEL_LIMIT as int),
        ensures
            r == self.pixel_at(point.x as int, point.y as int),
    {
        if point.x < 0 || point.y < 0 {
            return false;
        }
        let x = point.x as usize;
        let y = point.y as usize;
        if x >= self.width || y >= self.height {
            return false;
        }
        proof {
            lemma_grid_index(self.width as int, self.height as int, x as int, y as int);
            lemma_grid_fits(self.width as int, self.height as int);
        }
        let idx = y * self.width + x;
        self.pixels[idx]
    }
}

/// Grids within the pixel limits fit comfortably in `usize` arithmetic.
pub proof fn lemma_grid_fits(w: int, h: int)
    requires
        0 <= w <= 2 * PIXEL_LIMIT,
        0 <= h <= 2 * PIXEL_LIMIT,
    ensures
        w * h <= 0x4000_0000,
{
    vstd::arithmetic::mul::lemma_mul_nonnegative(w, h);
    vstd::arithmetic::mul::lemma_mul_upper_bound(w, 2 * PIXEL_LIMIT as int, h, 2 * PIXEL_LIMIT as int);
    assert((2 * PIXEL_LIMIT as int) * (2 * PIXEL_LIMIT as int) <= 0x4000_0000int) by (nonlinear_arith);
}

/// A grid coordinate pair indexes within the backing vector.
pub proof fn lemma_grid_index(w: int, h: int, x: int, y: int)
    requires
        0 <= x < w,
        0 <= y < h,
    ensures
        0 <= y * w + x < w * h,
{
    vstd::arithmetic::mul::lemma_mul_nonnegative(y, w);
    vstd::arithmetic::mul::lemma_mul_inequality(y + 1, h, w);
    assert((y + 1) * w == y * w + w) by (nonlinear_arith);
    assert(h * w == w * h) by (nonlinear_arith);
}

/// Distinct rows give distinct backing indices.
pub proof fn lemma_grid_distinct(w: int, x0: int, y0: int, x1: int, y1: int)
    requires
        0 <= x0 < w,
        0 <= x1 < w,
        y0 != y1,
    ensures
        y0 * w + x0 != y1 * w + x1,
{
    if y0 < y1 {
        vstd::arithmetic::mul::lemma_mul_inequality(y0 + 1, y1, w);
        assert((y0 + 1) * w == y0 * w + w) by (nonlinear_arith);
    } else {
        vstd::arithmetic::mul::lemma_mul_inequality(y1 + 1, y0, w);
        assert((y1 + 1) * w == y1 * w + w) by (nonlinear_arith);
    }
}

} // verus!
