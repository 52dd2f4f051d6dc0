//! Classification of the hole's pixels: connectors are rasterized as
//! STRUCTURE, and the foreground side of each rim arc is flooded as TEXTURE.
//!
//! The central guarantees: STRUCTURE cells are exactly the rasterized
//! sample cells, floods paint only BLANK cells, and after filling no
//! TEXTURE cell is 4-adjacent to a BLANK cell — each flood runs until its
//! region is exhausted.

use vstd::prelude::*;
use crate::point::{Point2, within, psub, norm_sq, dist_spec, lemma_dist_bound};
use crate::rect::{BoundingRect, PIXEL_LIMIT};
use crate::image::{BinaryImage, lemma_grid_index, lemma_grid_fits, lemma_grid_distinct};
use crate::spline::{CubicCurve, Spline, SPLINE_LIMIT, curve_within};
use crate::fixed::{SCALE, tdiv, tdiv128, lemma_tdiv_abs, lemma_tdiv_scale_bound,
    lemma_mul_bounds_abs};

verus! {

/// What a cell of the filled hole holds.
#[derive(Clone, Copy, Debug, PartialEq, Eq, Structural)]
pub enum FilledHoleElement {
    /// Background.
    Blank,
    /// On a reconstructed boundary curve.
    Structure,
    /// Inside a reconstructed foreground region.
    Texture,
}

/// The classification of every pixel of the hole, row-major.
#[derive(Debug)]
pub struct FilledHoleMatrix {
    pub width: usize,
    pub height: usize,
    pub elems: Vec<FilledHoleElement>,
}

impl FilledHoleMatrix {
    /// The element vector matches the dimensions and the dimensions are
    /// within machine limits.
    pub open spec fn wf(self) -> bool {
        &&& self.elems@.len() == self.width * self.height
        &&& 1 <= self.width <= 2 * PIXEL_LIMIT
        &&& 1 <= self.height <= 2 * PIXEL_LIMIT
    }

    /// The element at `(x, y)`.
    pub open spec fn cell(self, x: int, y: int) -> FilledHoleElement
        recommends
            0 <= x < self.width,
            0 <= y < self.height,
    {
        self.elems@[y * self.width + x]
    }

    /// `(x, y)` lies within the matrix.
    pub open spec fn in_bounds(self, x: int, y: int) -> bool {
        0 <= x < self.width && 0 <= y < self.height
    }

    /// An all-BLANK matrix of the given size.
    pub fn new(width: usize, height: usize) -> (r: Self)
        requires
            1 <= width <= 2 * PIXEL_LIMIT,
            1 <= height <= 2 * PIXEL_LIMIT,
        ensures
            r.wf(),
            r.width == width,
            r.height == height,
            forall|x: int, y: int|
                r.in_bounds(x, y) ==> r.cell(x, y) == FilledHoleElement::Blank,
    {
        let mut elems: Vec<FilledHoleElement> = Vec::new();
        proof {
            lemma_grid_fits(width as int, height as int);
            vstd::arithmetic::mul::lemma_mul_nonnegative(width as int, height as int);
        }
        let n = width * height;
        let mut i: usize = 0;
        while i < n
            invariant
                elems@.len() == i,
                i <= n,
                forall|j: int| 0 <= j < i ==> elems@[j] == FilledHoleElement::Blank,
            decreases n - i,
        {
            elems.push(FilledHoleElement::Blank);
            i = i + 1;
        }
        let r = Self { width, height, elems };
        proof {
            assert forall|x: int, y: int|
                r.in_bounds(x, y) implies r.cell(x, y) == FilledHoleElement::Blank by {
                lemma_grid_index(width as int, height as int, x, y);
            };
        }
        r
    }

    /// Read the element at `(x, y)`.
    pub fn get(&self, x: usize, y: usize) -> (r: FilledHoleElement)
        requires
            self.wf(),
            x < self.width,
            y < self.height,
        ensures
            r == self.cell(x as int, y as int),
    {
        proof {
            lemma_grid_index(self.width as int, self.height as int, x as int, y as int);
            lemma_grid_fits(self.width as int, self.height as int);
        }
        self.elems[y * self.width + x]
    }

    /// Write the element at `(x, y)`.
    pub fn set(&mut self, x: usize, y: usize, v: FilledHoleElement)
        requires
            old(self).wf(),
            x < old(self).width,
            y < old(self).height,
        ensures
            final(self).wf(),
            final(self).width == old(self).width,
            final(self).height == old(self).height,
            final(self).cell(x as int, y as int) == v,
            final(self).elems@ == old(self).elems@.update(
                (y as int) * old(self).width + x,
                v,
            ),
            forall|x0: int, y0: int|
                !(x0 == x && y0 == y) && final(self).in_bounds(x0, y0) ==> final(self).cell(x0, y0)
                    == old(self).cell(x0, y0),
    {
        proof {
            lemma_grid_index(self.width as int, self.height as int, x as int, y as int);
            lemma_grid_fits(self.width as int, self.height as int);
        }
        let idx = y * self.width + x;
        self.elems.set(idx, v);
        proof {
            let w = self.width as int;
            let h = self.height as int;
            assert forall|x0: int, y0: int|
                !(x0 == x && y0 == y) && final(self).in_bounds(x0, y0) implies final(self).cell(
                x0,
                y0,
            ) == old(self).cell(x0, y0) by {
                lemma_grid_index(w, h, x0, y0);
                if y0 != y {
                    lemma_grid_distinct(w, x0, y0, x as int, y as int);
                }
            };
            lemma_grid_index(w, h, x as int, y as int);
        }
    }

    /// The matrix with column `c` removed.
    pub fn new_without_column(&self, c: usize) -> (r: Self)
        requires
            self.wf(),
            c < self.width,
            self.width >= 2,
        ensures
            r.wf(),
            r.width == self.width - 1,
            r.height == self.height,
            forall|x: int, y: int|
                r.in_bounds(x, y) ==> r.cell(x, y) == self.cell(
                    if x < c {
                        x
                    } else {
                        x + 1
                    },
                    y,
                ),
    {
        let w2 = self.width - 1;
        let h = self.height;
        let mut elems: Vec<FilledHoleElement> = Vec::new();
        let mut y: usize = 0;
        while y < h
            invariant
                self.wf(),
                c < self.width,
                w2 == self.width - 1,
                w2 >= 1,
                h == self.height,
                y <= h,
                elems@.len() == y * w2,
                forall|x0: int, y0: int|
                    0 <= x0 < w2 && 0 <= y0 < y ==> #[trigger] elems@[y0 * w2 + x0] == self.cell(
                        if x0 < c {
                            x0
                        } else {
                            x0 + 1
                        },
                        y0,
                    ),
            decreases h - y,
        {
            let mut x: usize = 0;
            while x < w2
                invariant
                    self.wf(),
                    c < self.width,
                    w2 == self.width - 1,
                    w2 >= 1,
                    h == self.height,
                    y < h,
                    x <= w2,
                    elems@.len() == y * w2 + x,
                    forall|x0: int, y0: int|
                        0 <= x0 < w2 && 0 <= y0 < y ==> #[trigger] elems@[y0 * w2 + x0] == self.cell(
                            if x0 < c {
                                x0
                            } else {
                                x0 + 1
                            },
                            y0,
                        ),
                    forall|x0: int|
                        0 <= x0 < x ==> #[trigger] elems@[y * w2 + x0] == self.cell(
                            if x0 < c {
                                x0
                            } else {
                                x0 + 1
                            },
                            y as int,
                        ),
                decreases w2 - x,
            {
                let src_x = if x < c {
                    x
                } else {
                    x + 1
                };
                let v = self.get(src_x, y);
                let ghost before = elems@;
                elems.push(v);
                proof {
                    assert forall|x0: int, y0: int|
                        0 <= x0 < w2 && 0 <= y0 < y implies #[trigger] elems@[y0 * w2 + x0] == self.cell(
                        if x0 < c {
                            x0
                        } else {
                            x0 + 1
                        },
                        y0,
                    ) by {
                        lemma_grid_index(w2 as int, y as int, x0, y0);
                        assert((w2 as int) * (y as int) == (y as int) * (w2 as int))
                            by (nonlinear_arith);
                        assert(elems@[y0 * w2 + x0] == before[y0 * w2 + x0]);
                    };
                }
                x = x + 1;
            }
            proof {
                assert(y * w2 + w2 == (y + 1) * w2) by (nonlinear_arith);
            }
            y = y + 1;
        }
        let r = Self { width: w2, height: h, elems };
        proof {
            assert(r.elems@.len() == h * w2);
            assert(h * w2 == w2 * h) by (nonlinear_arith);
            assert forall|x: int, y0: int|
                r.in_bounds(x, y0) implies r.cell(x, y0) == self.cell(
                if x < c {
                    x
                } else {
                    x + 1
                },
                y0,
            ) by {
                lemma_grid_index(w2 as int, h as int, x, y0);
            };
        }
        r
    }

    /// The matrix with row `rw` removed.
    pub fn new_without_row(&self, rw: usize) -> (r: Self)
        requires
            self.wf(),
            rw < self.height,
            self.height >= 2,
        ensures
            r.wf(),
            r.width == self.width,
            r.height == self.height - 1,
            forall|x: int, y: int|
                r.in_bounds(x, y) ==> r.cell(x, y) == self.cell(
                    x,
                    if y < rw {
                        y
                    } else {
                        y + 1
                    },
                ),
    {
        let w = self.width;
        let h2 = self.height - 1;
        let mut elems: Vec<FilledHoleElement> = Vec::new();
        let mut y: usize = 0;
        while y < h2
            invariant
                self.wf(),
                rw < self.height,
                h2 == self.height - 1,
                h2 >= 1,
                w == self.width,
                y <= h2,
                elems@.len() == y * w,
                forall|x0: int, y0: int|
                    0 <= x0 < w && 0 <= y0 < y ==> #[trigger] elems@[y0 * w + x0] == self.cell(
                        x0,
                        if y0 < rw {
                            y0
                        } else {
                            y0 + 1
                        },
                    ),
            decreases h2 - y,
        {
            let src_y = if y < rw {
                y
            } else {
                y + 1
            };
            let mut x: usize = 0;
            while x < w
                invariant
                    self.wf(),
                    rw < self.height,
                    h2 == self.height - 1,
                    h2 >= 1,
                    w == self.width,
                    y < h2,
                    src_y == (if y < rw {
                        y as int
                    } else {
                        y as int + 1
                    }),
                    src_y < self.height,
                    x <= w,
                    elems@.len() == y * w + x,
                    forall|x0: int, y0: int|
                        0 <= x0 < w && 0 <= y0 < y ==> #[trigger] elems@[y0 * w + x0] == self.cell(
                            x0,
                            if y0 < rw {
                                y0
                            } else {
                                y0 + 1
                            },
                        ),
                    forall|x0: int|
                        0 <= x0 < x ==> #[trigger] elems@[y * w + x0] == self.cell(
                            x0,
                            if y < rw {
                                y as int
                            } else {
                                y as int + 1
                            },
                        ),
                decreases w - x,
            {
                let v = self.get(x, src_y);
                let ghost before = elems@;
                elems.push(v);
                proof {
                    assert forall|x0: int, y0: int|
                        0 <= x0 < w && 0 <= y0 < y implies #[trigger] elems@[y0 * w + x0] == self.cell(
                        x0,
                        if y0 < rw {
                            y0
                        } else {
                            y0 + 1
                        },
                    ) by {
                        lemma_grid_index(w as int, y as int, x0, y0);
                        assert((w as int) * (y as int) == (y as int) * (w as int))
                            by (nonlinear_arith);
                        assert(elems@[y0 * w + x0] == before[y0 * w + x0]);
                    };
                }
                x = x + 1;
            }
            proof {
                assert(y * w + w == (y + 1) * w) by (nonlinear_arith);
            }
            y = y + 1;
        }
        let r = Self { width: w, height: h2, elems };
        proof {
            assert(h2 * w == w * h2) by (nonlinear_arith);
            assert forall|x: int, y0: int|
                r.in_bounds(x, y0) implies r.cell(x, y0) == self.cell(
                x,
                if y0 < rw {
                    y0
                } else {
                    y0 + 1
                },
            ) by {
                lemma_grid_index(w as int, h2 as int, x, y0);
            };
        }
        r
    }
}

/// The matrices have the same dimensions.
pub open spec fn same_dims(a: FilledHoleMatrix, b: FilledHoleMatrix) -> bool {
    a.width == b.width && a.height == b.height
}

/// Every cell of `b` either equals the cell of `a` or was BLANK in `a` and
/// is TEXTURE in `b`: flooding only ever paints blank cells as texture.
pub open spec fn only_blank_to_texture(a: FilledHoleMatrix, b: FilledHoleMatrix) -> bool {
    &&& same_dims(a, b)
    &&& forall|x: int, y: int|
        a.in_bounds(x, y) ==> (b.cell(x, y) == a.cell(x, y) || (a.cell(x, y)
            == FilledHoleElement::Blank && b.cell(x, y) == FilledHoleElement::Texture))
}

/// The TEXTURE cell at `(x, y)` (if it is one) has no BLANK 4-neighbor.
pub open spec fn tex_ok(m: FilledHoleMatrix, x: int, y: int) -> bool {
    m.cell(x, y) == FilledHoleElement::Texture ==> {
        &&& (m.in_bounds(x + 1, y) ==> m.cell(x + 1, y) != FilledHoleElement::Blank)
        &&& (m.in_bounds(x - 1, y) ==> m.cell(x - 1, y) != FilledHoleElement::Blank)
        &&& (m.in_bounds(x, y + 1) ==> m.cell(x, y + 1) != FilledHoleElement::Blank)
        &&& (m.in_bounds(x, y - 1) ==> m.cell(x, y - 1) != FilledHoleElement::Blank)
    }
}

/// No TEXTURE cell is 4-adjacent to a BLANK cell: every flood ran to
/// exhaustion.
pub open spec fn saturated(m: FilledHoleMatrix) -> bool {
    forall|x: int, y: int| m.in_bounds(x, y) ==> #[trigger] tex_ok(m, x, y)
}

/// Number of BLANK elements, the termination measure of a flood.
pub open spec fn count_blank(s: Seq<FilledHoleElement>) -> nat
    decreases s.len(),
{
    if s.len() == 0 {
        0
    } else {
        count_blank(s.drop_last()) + (if s.last() == FilledHoleElement::Blank {
            1nat
        } else {
            0nat
        })
    }
}

/// Overwriting a BLANK element with a non-BLANK one lowers the BLANK count.
proof fn lemma_count_blank_update(s: Seq<FilledHoleElement>, i: int, v: FilledHoleElement)
    requires
        0 <= i < s.len(),
        s[i] == FilledHoleElement::Blank,
        v != FilledHoleElement::Blank,
    ensures
        count_blank(s.update(i, v)) < count_blank(s),
    decreases s.len(),
{
    if i == s.len() - 1 {
        assert(s.update(i, v).drop_last() =~= s.drop_last());
    } else {
        assert(s.update(i, v).drop_last() =~= s.drop_last().update(i, v));
        lemma_count_blank_update(s.drop_last(), i, v);
    }
}

/// Some stack entry is the point `(x, y)`.
pub open spec fn in_stack(stk: Seq<Point2>, x: int, y: int) -> bool {
    exists|i: int| 0 <= i < stk.len() && stk[i].x == x && stk[i].y == y
}

/// The TEXTURE cell at `(x, y)` has each in-bounds BLANK 4-neighbor on the
/// stack, waiting to be painted.
pub open spec fn tex_covered(m: FilledHoleMatrix, stk: Seq<Point2>, x: int, y: int) -> bool {
    m.cell(x, y) == FilledHoleElement::Texture ==> {
        &&& (m.in_bounds(x + 1, y) ==> m.cell(x + 1, y) != FilledHoleElement::Blank || in_stack(
            stk,
            x + 1,
            y,
        ))
        &&& (m.in_bounds(x - 1, y) ==> m.cell(x - 1, y) != FilledHoleElement::Blank || in_stack(
            stk,
            x - 1,
            y,
        ))
        &&& (m.in_bounds(x, y + 1) ==> m.cell(x, y + 1) != FilledHoleElement::Blank || in_stack(
            stk,
            x,
            y + 1,
        ))
        &&& (m.in_bounds(x, y - 1) ==> m.cell(x, y - 1) != FilledHoleElement::Blank || in_stack(
            stk,
            x,
            y - 1,
        ))
    }
}

/// `(x, y)` is a BLANK cell of `m` joined to `(sx, sy)` by a 4-connected
/// chain of BLANK cells of length at most `k`.
pub open spec fn flood_reaches(
    m: FilledHoleMatrix,
    sx: int,
    sy: int,
    x: int,
    y: int,
    k: nat,
) -> bool
    decreases k,
{
    &&& m.in_bounds(x, y)
    &&& m.cell(x, y) == FilledHoleElement::Blank
    &&& ((x == sx && y == sy) || (k > 0 && {
        ||| flood_reaches(m, sx, sy, x + 1, y, (k - 1) as nat)
        ||| flood_reaches(m, sx, sy, x - 1, y, (k - 1) as nat)
        ||| flood_reaches(m, sx, sy, x, y + 1, (k - 1) as nat)
        ||| flood_reaches(m, sx, sy, x, y - 1, (k - 1) as nat)
    }))
}

/// `(x, y)` lies in the 4-connected BLANK region of `m` containing
/// `(sx, sy)`.
pub open spec fn flood_region(m: FilledHoleMatrix, sx: int, sy: int, x: int, y: int) -> bool {
    exists|k: nat| flood_reaches(m, sx, sy, x, y, k)
}

/// A BLANK 4-neighbor of a region cell is a region cell.
proof fn lemma_region_step(
    m0: FilledHoleMatrix,
    sx: int,
    sy: int,
    px: int,
    py: int,
    ex: int,
    ey: int,
)
    requires
        flood_region(m0, sx, sy, px, py),
        m0.in_bounds(ex, ey),
        m0.cell(ex, ey) == FilledHoleElement::Blank,
        (ex == px + 1 && ey == py) || (ex == px - 1 && ey == py) || (ex == px && ey == py + 1) || (
        ex == px && ey == py - 1),
    ensures
        flood_region(m0, sx, sy, ex, ey),
{
    let k = choose|k: nat| flood_reaches(m0, sx, sy, px, py, k);
    assert(flood_reaches(m0, sx, sy, ex, ey, k + 1));
}

/// Every cell a flood can reach is painted once the flood has run to
/// saturation with its seed painted.
proof fn lemma_region_painted(
    m0: FilledHoleMatrix,
    m1: FilledHoleMatrix,
    sx: int,
    sy: int,
    x: int,
    y: int,
    k: nat,
)
    requires
        only_blank_to_texture(m0, m1),
        saturated(m1),
        (m0.in_bounds(sx, sy) && m0.cell(sx, sy) == FilledHoleElement::Blank) ==> m1.cell(sx, sy)
            == FilledHoleElement::Texture,
        flood_reaches(m0, sx, sy, x, y, k),
    ensures
        m1.cell(x, y) == FilledHoleElement::Texture,
    decreases k,
{
    if x == sx && y == sy {
    } else {
        if flood_reaches(m0, sx, sy, x + 1, y, (k - 1) as nat) {
            lemma_region_painted(m0, m1, sx, sy, x + 1, y, (k - 1) as nat);
            assert(m1.in_bounds(x + 1, y));
            assert(tex_ok(m1, x + 1, y));
        } else if flood_reaches(m0, sx, sy, x - 1, y, (k - 1) as nat) {
            lemma_region_painted(m0, m1, sx, sy, x - 1, y, (k - 1) as nat);
            assert(m1.in_bounds(x - 1, y));
            assert(tex_ok(m1, x - 1, y));
        } else if flood_reaches(m0, sx, sy, x, y + 1, (k - 1) as nat) {
            lemma_region_painted(m0, m1, sx, sy, x, y + 1, (k - 1) as nat);
            assert(m1.in_bounds(x, y + 1));
            assert(tex_ok(m1, x, y + 1));
        } else {
            assert(flood_reaches(m0, sx, sy, x, y - 1, (k - 1) as nat));
            lemma_region_painted(m0, m1, sx, sy, x, y - 1, (k - 1) as nat);
            assert(m1.in_bounds(x, y - 1));
            assert(tex_ok(m1, x, y - 1));
        }
    }
}

/// A region cell of a later matrix is a region cell of the earlier one:
/// flooding only removes blank cells.
proof fn lemma_region_monotone(
    m0: FilledHoleMatrix,
    m1: FilledHoleMatrix,
    sx: int,
    sy: int,
    x: int,
    y: int,
    k: nat,
)
    requires
        only_blank_to_texture(m0, m1),
        flood_reaches(m1, sx, sy, x, y, k),
    ensures
        flood_reaches(m0, sx, sy, x, y, k),
    decreases k,
{
    if !(x == sx && y == sy) {
        if flood_reaches(m1, sx, sy, x + 1, y, (k - 1) as nat) {
            lemma_region_monotone(m0, m1, sx, sy, x + 1, y, (k - 1) as nat);
        } else if flood_reaches(m1, sx, sy, x - 1, y, (k - 1) as nat) {
            lemma_region_monotone(m0, m1, sx, sy, x - 1, y, (k - 1) as nat);
        } else if flood_reaches(m1, sx, sy, x, y + 1, (k - 1) as nat) {
            lemma_region_monotone(m0, m1, sx, sy, x, y + 1, (k - 1) as nat);
        } else {
            lemma_region_monotone(m0, m1, sx, sy, x, y - 1, (k - 1) as nat);
        }
    }
}

/// If the seed's cell was BLANK, it has been painted TEXTURE.
pub open spec fn seed_painted(m0: FilledHoleMatrix, m1: FilledHoleMatrix, seed: Point2) -> bool {
    (m0.in_bounds(seed.x as int, seed.y as int) && m0.cell(seed.x as int, seed.y as int)
        == FilledHoleElement::Blank) ==> m1.cell(seed.x as int, seed.y as int)
        == FilledHoleElement::Texture
}

/// `(x, y)` lies in the blank region of one of the seeds.
pub open spec fn region_of_any(
    m0: FilledHoleMatrix,
    seeds: Seq<Point2>,
    x: int,
    y: int,
) -> bool {
    exists|i: int|
        0 <= i < seeds.len() && flood_region(m0, (#[trigger] seeds[i]).x as int, seeds[i].y as int, x, y)
}

/// The pixel just outside the hole probed for a rim point: the `right`
/// column and `bottom` row are already outside, every other rim point is
/// shifted one pixel out across `left` or `top`.
pub open spec fn rim_outside_probe(rect: BoundingRect, pv: Point2) -> Point2 {
    if pv.x == rect.right || pv.y == rect.bottom {
        pv
    } else {
        Point2 {
            x: if pv.x == rect.left {
                (rect.left - 1) as i64
            } else {
                pv.x
            },
            y: if pv.y == rect.top {
                (rect.top - 1) as i64
            } else {
                pv.y
            },
        }
    }
}

/// The matrix cell seeded for a rim point: the nearest hole pixel,
/// translated to the hole frame.
pub open spec fn rim_inside_seed(rect: BoundingRect, pv: Point2, offset: Point2) -> Point2 {
    let inside = if pv.x == rect.left || pv.y == rect.top {
        pv
    } else {
        Point2 {
            x: if pv.x == rect.right {
                (rect.right - 1) as i64
            } else {
                pv.x
            },
            y: if pv.y == rect.bottom {
                (rect.bottom - 1) as i64
            } else {
                pv.y
            },
        }
    };
    Point2 { x: (inside.x - offset.x) as i64, y: (inside.y - offset.y) as i64 }
}

/// The middle rim index between `from` and `to`, walking forward
/// cyclically.
pub open spec fn sample_between_spec(from: int, to: int, num: int) -> int {
    let cyclic = if to >= from {
        to - from
    } else {
        num - (from - to)
    };
    (from + cyclic / 2) % num
}

/// The three seeds of a foreground arc from rim index `a` to rim index
/// `p`: the arc's midpoint sample and the samples at its quarters.
pub open spec fn arc_seed_list(
    rect: BoundingRect,
    bounding: Seq<Point2>,
    offset: Point2,
    a: int,
    p: int,
) -> Seq<Point2> {
    let num = bounding.len() as int;
    let mid = sample_between_spec(a, p, num);
    let sa = sample_between_spec(a, mid, num);
    let sc = sample_between_spec(mid, p, num);
    seq![
        rim_inside_seed(rect, bounding[sa], offset),
        rim_inside_seed(rect, bounding[mid], offset),
        rim_inside_seed(rect, bounding[sc], offset),
    ]
}

/// Some position of `adj` holds the point `pt`.
pub open spec fn holds_point(adj: Seq<Point2>, pt: Point2) -> bool {
    exists|i: int| 0 <= i < adj.len() && adj[i] == pt
}

/// The seeds the rim scan floods, walking the rim from step `k` with the
/// current arc started at rim index `arc_start` and `total` rim points
/// counted so far of which `filled` had a foreground pixel just outside:
/// at each step the counters grow by the step's probe, an arc closes at
/// every rim point that is an endpoint, and a closed arc contributes its
/// three sampled seeds when at least half of its probes were foreground.
/// The walk ends back at rim index zero, which is always an endpoint.
pub open spec fn scan_seeds(
    img: BinaryImage,
    rect: BoundingRect,
    bounding: Seq<Point2>,
    adj: Seq<Point2>,
    offset: Point2,
    k: int,
    arc_start: int,
    total: int,
    filled: int,
) -> Seq<Point2>
    decreases bounding.len() - k
        when 1 <= k <= bounding.len()
{
    let num = bounding.len() as int;
    let p = if k == num {
        0int
    } else {
        k
    };
    let probe = rim_outside_probe(rect, bounding[p]);
    let t2 = total + 1;
    let f2 = filled + (if img.pixel_at(probe.x as int, probe.y as int) {
        1int
    } else {
        0int
    });
    if holds_point(adj, bounding[p]) {
        let arc = if f2 >= t2 / 2 {
            arc_seed_list(rect, bounding, offset, arc_start, p)
        } else {
            Seq::<Point2>::empty()
        };
        if k == num {
            arc
        } else {
            arc + scan_seeds(img, rect, bounding, adj, offset, k + 1, p, 0, 0)
        }
    } else {
        if k == num {
            Seq::<Point2>::empty()
        } else {
            scan_seeds(img, rect, bounding, adj, offset, k + 1, arc_start, t2, f2)
        }
    }
}

/// The seeds the whole fill floods, from the raw endpoints: endpoints are
/// snapped to the rim, the rim is walked from the first of them, and each
/// foreground arc contributes its three sampled seeds.
pub open spec fn fill_holes_seeds(
    img: BinaryImage,
    rect: BoundingRect,
    endpoints: Seq<Point2>,
) -> Seq<Point2> {
    let adj = Seq::new(endpoints.len(), |i: int| adjusted_endpoint(rect, endpoints[i]));
    let i0 = rect.frame_index_of_spec(adj[0]);
    let bounding = Seq::new(
        rect.frame_len() as nat,
        |k: int| rect.frame_point((i0 + k) % rect.frame_len()),
    );
    scan_seeds(img, rect, bounding, adj, Point2 { x: rect.left, y: rect.top }, 1, 0, 0, 0)
}

/// A class to fill texture into a hole whose structural information has
/// been recovered.
pub struct HoleFiller;

impl HoleFiller {
    /// Flood fill from `point`: paint the 4-connected region of BLANK cells
    /// containing `point` as TEXTURE, stopping at STRUCTURE cells and the
    /// matrix edges. A worklist replaces the recursion of a naive flood, so
    /// the fill provably terminates after at most one visit per blank cell,
    /// and on return the painted region is exhausted: the matrix stays
    /// saturated.
    pub fn fill_hole_recursive(matrix: &mut FilledHoleMatrix, point: Point2)
        requires
            old(matrix).wf(),
            saturated(*old(matrix)),
            within(point, 2 * PIXEL_LIMIT as int),
        ensures
            final(matrix).wf(),
            only_blank_to_texture(*old(matrix), *final(matrix)),
            saturated(*final(matrix)),
            old(matrix).in_bounds(point.x as int, point.y as int) && old(matrix).cell(
                point.x as int,
                point.y as int,
            ) == FilledHoleElement::Blank ==> final(matrix).cell(point.x as int, point.y as int)
                == FilledHoleElement::Texture,
            forall|x: int, y: int|
                old(matrix).in_bounds(x, y) ==> ((#[trigger] final(matrix).cell(x, y) != old(
                    matrix,
                ).cell(x, y)) == flood_region(*old(matrix), point.x as int, point.y as int, x, y)),
    {
        let mut stack: Vec<Point2> = Vec::new();
        stack.push(point);
        proof {
            assert forall|x: int, y: int|
                matrix.in_bounds(x, y) implies #[trigger] tex_covered(*matrix, stack@, x, y) by {
                assert(tex_ok(*matrix, x, y));
            };
            assert(stack@[0] == point);
            if matrix.in_bounds(point.x as int, point.y as int) && matrix.cell(
                point.x as int,
                point.y as int,
            ) == FilledHoleElement::Blank {
                assert(in_stack(stack@, point.x as int, point.y as int));
                assert(flood_reaches(
                    *matrix,
                    point.x as int,
                    point.y as int,
                    point.x as int,
                    point.y as int,
                    0,
                ));
            }
        }
        while stack.len() > 0
            invariant
                matrix.wf(),
                same_dims(*old(matrix), *matrix),
                only_blank_to_texture(*old(matrix), *matrix),
                forall|i: int|
                    0 <= i < stack@.len() ==> within(#[trigger] stack@[i], 2 * PIXEL_LIMIT as int),
                forall|x: int, y: int|
                    matrix.in_bounds(x, y) ==> #[trigger] tex_covered(*matrix, stack@, x, y),
                matrix.in_bounds(point.x as int, point.y as int) && matrix.cell(
                    point.x as int,
                    point.y as int,
                ) == FilledHoleElement::Blank ==> in_stack(stack@, point.x as int, point.y as int),
                forall|x0: int, y0: int|
                    old(matrix).in_bounds(x0, y0) && #[trigger] matrix.cell(x0, y0) != old(
                        matrix,
                    ).cell(x0, y0) ==> flood_region(
                        *old(matrix),
                        point.x as int,
                        point.y as int,
                        x0,
                        y0,
                    ),
                forall|i: int|
                    0 <= i < stack@.len() ==> ((matrix.in_bounds(
                        (#[trigger] stack@[i]).x as int,
                        stack@[i].y as int,
                    ) && matrix.cell(stack@[i].x as int, stack@[i].y as int)
                        == FilledHoleElement::Blank) ==> flood_region(
                        *old(matrix),
                        point.x as int,
                        point.y as int,
                        stack@[i].x as int,
                        stack@[i].y as int,
                    )),
            decreases count_blank(matrix.elems@), stack@.len(),
        {
            let ghost stk_before = stack@;
            let p = stack.pop().unwrap();
            proof {
                assert(p == stk_before.last());
                assert(stack@ =~= stk_before.drop_last());
            }
            if p.x < 0 || p.y < 0 || p.x >= matrix.width as i64 || p.y >= matrix.height as i64 {
                proof {
                    lemma_pop_keeps_cover(*matrix, stk_before, p);
                    lemma_seed_stays(*matrix, stk_before, p, point);
                }
                continue;
            }
            let x = p.x as usize;
            let y = p.y as usize;
            let c = matrix.get(x, y);
            if !matches!(c, FilledHoleElement::Blank) {
                proof {
                    lemma_pop_keeps_cover(*matrix, stk_before, p);
                    lemma_seed_stays(*matrix, stk_before, p, point);
                }
                continue;
            }
            let ghost m_before = *matrix;
            proof {
                assert(flood_region(*old(matrix), point.x as int, point.y as int, p.x as int, p.y as int));
            }
            matrix.set(x, y, FilledHoleElement::Texture);
            proof {
                lemma_grid_index(matrix.width as int, matrix.height as int, x as int, y as int);
                lemma_count_blank_update(
                    m_before.elems@,
                    (y as int) * m_before.width + x,
                    FilledHoleElement::Texture,
                );
            }
            stack.push(Point2 { x: p.x + 1, y: p.y });
            stack.push(Point2 { x: p.x, y: p.y + 1 });
            stack.push(Point2 { x: p.x - 1, y: p.y });
            stack.push(Point2 { x: p.x, y: p.y - 1 });
            proof {
                let m2 = *matrix;
                let stk2 = stack@;
                assert(in_stack(stk2, p.x + 1, p.y as int)) by {
                    assert(stk2[stk2.len() - 4].x == p.x + 1 && stk2[stk2.len() - 4].y == p.y);
                };
                assert(in_stack(stk2, p.x as int, p.y + 1)) by {
                    assert(stk2[stk2.len() - 3].x == p.x && stk2[stk2.len() - 3].y == p.y + 1);
                };
                assert(in_stack(stk2, p.x - 1, p.y as int)) by {
                    assert(stk2[stk2.len() - 2].x == p.x - 1 && stk2[stk2.len() - 2].y == p.y);
                };
                assert(in_stack(stk2, p.x as int, p.y - 1)) by {
                    assert(stk2[stk2.len() - 1].x == p.x && stk2[stk2.len() - 1].y == p.y - 1);
                };
                assert forall|x0: int, y0: int|
                    m2.in_bounds(x0, y0) implies #[trigger] tex_covered(m2, stk2, x0, y0) by {
                    assert(tex_covered(m_before, stk_before, x0, y0));
                    if m2.cell(x0, y0) == FilledHoleElement::Texture {
                        lemma_neighbor_cover_step(m_before, m2, stk_before, stk2, p, x0, y0);
                    }
                };
                if m2.in_bounds(point.x as int, point.y as int) && m2.cell(
                    point.x as int,
                    point.y as int,
                ) == FilledHoleElement::Blank {
                    assert(!(point.x == p.x && point.y == p.y));
                    assert(m_before.cell(point.x as int, point.y as int)
                        == FilledHoleElement::Blank);
                    assert(in_stack(stk_before, point.x as int, point.y as int));
                    let i = choose|i: int|
                        0 <= i < stk_before.len() && stk_before[i].x == point.x && stk_before[i].y
                            == point.y;
                    if i == stk_before.len() - 1 {
                        assert(false);
                    } else {
                        assert(stk2[i].x == point.x && stk2[i].y == point.y);
                        assert(in_stack(stk2, point.x as int, point.y as int));
                    }
                }
                let m0 = *old(matrix);
                let sx = point.x as int;
                let sy = point.y as int;
                assert(m_before.cell(p.x as int, p.y as int) == FilledHoleElement::Blank);
                assert(m0.cell(p.x as int, p.y as int) == FilledHoleElement::Blank);
                assert forall|x0: int, y0: int|
                    m0.in_bounds(x0, y0) && #[trigger] m2.cell(x0, y0) != m0.cell(x0, y0)
                    implies flood_region(m0, sx, sy, x0, y0) by {
                    if !(x0 == p.x as int && y0 == p.y as int) {
                        assert(m2.cell(x0, y0) == m_before.cell(x0, y0));
                    }
                };
                assert forall|i: int|
                    0 <= i < stk2.len() implies ((m2.in_bounds(
                    (#[trigger] stk2[i]).x as int,
                    stk2[i].y as int,
                ) && m2.cell(stk2[i].x as int, stk2[i].y as int) == FilledHoleElement::Blank)
                    ==> flood_region(m0, sx, sy, stk2[i].x as int, stk2[i].y as int)) by {
                    if m2.in_bounds(stk2[i].x as int, stk2[i].y as int) && m2.cell(
                        stk2[i].x as int,
                        stk2[i].y as int,
                    ) == FilledHoleElement::Blank {
                        if i < stk_before.len() - 1 {
                            assert(stk2[i] == stk_before[i]);
                            assert(m_before.cell(stk2[i].x as int, stk2[i].y as int)
                                == FilledHoleElement::Blank);
                        } else {
                            let e = stk2[i];
                            assert(m0.cell(e.x as int, e.y as int) == FilledHoleElement::Blank);
                            lemma_region_step(
                                m0,
                                sx,
                                sy,
                                p.x as int,
                                p.y as int,
                                e.x as int,
                                e.y as int,
                            );
                        }
                    }
                };
            }
        }
        proof {
            assert forall|x: int, y: int|
                matrix.in_bounds(x, y) implies #[trigger] tex_ok(*matrix, x, y) by {
                assert(tex_covered(*matrix, stack@, x, y));
            };
            let m0 = *old(matrix);
            let m1 = *matrix;
            let sx = point.x as int;
            let sy = point.y as int;
            assert forall|x: int, y: int|
                m0.in_bounds(x, y) implies ((#[trigger] m1.cell(x, y) != m0.cell(x, y))
                == flood_region(m0, sx, sy, x, y)) by {
                if flood_region(m0, sx, sy, x, y) {
                    let k = choose|k: nat| flood_reaches(m0, sx, sy, x, y, k);
                    if m0.in_bounds(sx, sy) && m0.cell(sx, sy) == FilledHoleElement::Blank {
                        assert(!in_stack(stack@, sx, sy));
                        assert(m1.cell(sx, sy) != FilledHoleElement::Blank);
                        assert(m1.cell(sx, sy) == FilledHoleElement::Texture);
                    }
                    lemma_region_painted(m0, m1, sx, sy, x, y, k);
                    assert(m0.cell(x, y) == FilledHoleElement::Blank);
                }
            };
        }
    }
}

/// A blank in-bounds seed stays on the stack when an entry that is not the
/// seed's blank cell is popped without painting.
proof fn lemma_seed_stays(m: FilledHoleMatrix, stk: Seq<Point2>, p: Point2, seed: Point2)
    requires
        stk.len() > 0,
        p == stk.last(),
        !(m.in_bounds(p.x as int, p.y as int) && m.cell(p.x as int, p.y as int)
            == FilledHoleElement::Blank),
        m.in_bounds(seed.x as int, seed.y as int) && m.cell(seed.x as int, seed.y as int)
            == FilledHoleElement::Blank ==> in_stack(stk, seed.x as int, seed.y as int),
    ensures
        m.in_bounds(seed.x as int, seed.y as int) && m.cell(seed.x as int, seed.y as int)
            == FilledHoleElement::Blank ==> in_stack(stk.drop_last(), seed.x as int, seed.y as int),
{
    if m.in_bounds(seed.x as int, seed.y as int) && m.cell(seed.x as int, seed.y as int)
        == FilledHoleElement::Blank {
        let i = choose|i: int| 0 <= i < stk.len() && stk[i].x == seed.x && stk[i].y == seed.y;
        if i == stk.len() - 1 {
            assert(p.x == seed.x && p.y == seed.y);
            assert(false);
        } else {
            assert(stk.drop_last()[i].x == seed.x && stk.drop_last()[i].y == seed.y);
        }
    }
}

/// Popping an entry that is not painted keeps every texture cell covered,
/// because the popped point is either out of bounds or not blank.
proof fn lemma_pop_keeps_cover(m: FilledHoleMatrix, stk: Seq<Point2>, p: Point2)
    requires
        stk.len() > 0,
        p == stk.last(),
        !(m.in_bounds(p.x as int, p.y as int) && m.cell(p.x as int, p.y as int)
            == FilledHoleElement::Blank),
        forall|x: int, y: int| m.in_bounds(x, y) ==> #[trigger] tex_covered(m, stk, x, y),
    ensures
        forall|x: int, y: int|
            m.in_bounds(x, y) ==> #[trigger] tex_covered(m, stk.drop_last(), x, y),
{
    assert forall|x: int, y: int|
        m.in_bounds(x, y) implies #[trigger] tex_covered(m, stk.drop_last(), x, y) by {
        assert(tex_covered(m, stk, x, y));
        if m.cell(x, y) == FilledHoleElement::Texture {
            lemma_stack_shrink(m, stk, p, x + 1, y);
            lemma_stack_shrink(m, stk, p, x - 1, y);
            lemma_stack_shrink(m, stk, p, x, y + 1);
            lemma_stack_shrink(m, stk, p, x, y - 1);
        }
    };
}

/// A blank in-bounds cell that was on the stack is still on it after the
/// last entry — known not to be a blank in-bounds cell — is popped.
proof fn lemma_stack_shrink(m: FilledHoleMatrix, stk: Seq<Point2>, p: Point2, nx: int, ny: int)
    requires
        stk.len() > 0,
        p == stk.last(),
        !(m.in_bounds(p.x as int, p.y as int) && m.cell(p.x as int, p.y as int)
            == FilledHoleElement::Blank),
    ensures
        m.in_bounds(nx, ny) && m.cell(nx, ny) == FilledHoleElement::Blank && in_stack(stk, nx, ny)
            ==> in_stack(stk.drop_last(), nx, ny),
{
    if m.in_bounds(nx, ny) && m.cell(nx, ny) == FilledHoleElement::Blank && in_stack(stk, nx, ny) {
        let i = choose|i: int| 0 <= i < stk.len() && stk[i].x == nx && stk[i].y == ny;
        if i == stk.len() - 1 {
            assert(p.x == nx && p.y == ny);
            assert(false);
        } else {
            assert(stk.drop_last()[i].x == nx && stk.drop_last()[i].y == ny);
        }
    }
}

/// After painting `p` and pushing its 4 neighbors, every texture cell's
/// blank neighbors are still on the stack.
proof fn lemma_neighbor_cover_step(
    m1: FilledHoleMatrix,
    m2: FilledHoleMatrix,
    stk1: Seq<Point2>,
    stk2: Seq<Point2>,
    p: Point2,
    x0: int,
    y0: int,
)
    requires
        same_dims(m1, m2),
        m1.wf(),
        m2.wf(),
        m1.in_bounds(p.x as int, p.y as int),
        m2.cell(p.x as int, p.y as int) == FilledHoleElement::Texture,
        forall|x: int, y: int|
            m1.in_bounds(x, y) && !(x == p.x as int && y == p.y as int) ==> m2.cell(x, y)
                == m1.cell(x, y),
        stk1.len() > 0,
        p == stk1.last(),
        stk2 =~= stk1.drop_last().push(Point2 { x: (p.x + 1) as i64, y: p.y }).push(
            Point2 { x: p.x, y: (p.y + 1) as i64 },
        ).push(Point2 { x: (p.x - 1) as i64, y: p.y }).push(
            Point2 { x: p.x, y: (p.y - 1) as i64 },
        ),
        in_stack(stk2, p.x + 1, p.y as int),
        in_stack(stk2, p.x as int, p.y + 1),
        in_stack(stk2, p.x - 1, p.y as int),
        in_stack(stk2, p.x as int, p.y - 1),
        m2.in_bounds(x0, y0),
        m2.cell(x0, y0) == FilledHoleElement::Texture,
        tex_covered(m1, stk1, x0, y0),
    ensures
        tex_covered(m2, stk2, x0, y0),
{
    if x0 == p.x as int && y0 == p.y as int {
        assert(tex_covered(m2, stk2, x0, y0));
    } else {
        assert(m1.cell(x0, y0) == FilledHoleElement::Texture);
        lemma_cover_one_neighbor(m1, m2, stk1, stk2, p, x0 + 1, y0);
        lemma_cover_one_neighbor(m1, m2, stk1, stk2, p, x0 - 1, y0);
        lemma_cover_one_neighbor(m1, m2, stk1, stk2, p, x0, y0 + 1);
        lemma_cover_one_neighbor(m1, m2, stk1, stk2, p, x0, y0 - 1);
    }
}

/// One neighbor position of a texture cell stays covered across the paint
/// step.
proof fn lemma_cover_one_neighbor(
    m1: FilledHoleMatrix,
    m2: FilledHoleMatrix,
    stk1: Seq<Point2>,
    stk2: Seq<Point2>,
    p: Point2,
    nx: int,
    ny: int,
)
    requires
        same_dims(m1, m2),
        m1.in_bounds(p.x as int, p.y as int),
        m2.cell(p.x as int, p.y as int) == FilledHoleElement::Texture,
        forall|x: int, y: int|
            m1.in_bounds(x, y) && !(x == p.x as int && y == p.y as int) ==> m2.cell(x, y)
                == m1.cell(x, y),
        stk1.len() > 0,
        p == stk1.last(),
        stk2 =~= stk1.drop_last().push(Point2 { x: (p.x + 1) as i64, y: p.y }).push(
            Point2 { x: p.x, y: (p.y + 1) as i64 },
        ).push(Point2 { x: (p.x - 1) as i64, y: p.y }).push(
            Point2 { x: p.x, y: (p.y - 1) as i64 },
        ),
        m1.in_bounds(nx, ny) ==> m1.cell(nx, ny) != FilledHoleElement::Blank || in_stack(
            stk1,
            nx,
            ny,
        ),
    ensures
        m2.in_bounds(nx, ny) ==> m2.cell(nx, ny) != FilledHoleElement::Blank || in_stack(
            stk2,
            nx,
            ny,
        ),
{
    if m2.in_bounds(nx, ny) {
        if nx == p.x as int && ny == p.y as int {
            assert(m2.cell(nx, ny) != FilledHoleElement::Blank);
        } else {
            assert(m2.cell(nx, ny) == m1.cell(nx, ny));
            if m1.cell(nx, ny) == FilledHoleElement::Blank && in_stack(stk1, nx, ny) {
                let i = choose|i: int| 0 <= i < stk1.len() && stk1[i].x == nx && stk1[i].y == ny;
                if i == stk1.len() - 1 {
                    assert(false);
                } else {
                    assert(stk2[i].x == nx && stk2[i].y == ny);
                }
            }
        }
    }
}


/// Quantization level of a cubic segment: four samples per unit of the
/// control polygon's length in pixels, and at least four samples.
pub open spec fn quant_spec(c: CubicCurve) -> int {
    4 * tdiv(
        dist_spec(c.start, c.ctrl1) + dist_spec(c.ctrl1, c.ctrl2) + dist_spec(c.ctrl2, c.end),
        SCALE as int,
    ) + 4
}

/// Numerator of the Bezier polynomial at parameter `i / q` for one
/// coordinate, scaled by `q^3`.
pub open spec fn bez_num(a0: int, a1: int, a2: int, a3: int, q: int, i: int) -> int {
    let s = q - i;
    s * s * s * a0 + 3 * s * s * i * a1 + 3 * s * i * i * a2 + i * i * i * a3
}

/// Pixel coordinate of the Bezier sample at parameter `i / q`.
pub open spec fn sample_px(a0: int, a1: int, a2: int, a3: int, q: int, i: int) -> int {
    tdiv(bez_num(a0, a1, a2, a3, q, i), q * q * q * SCALE)
}

/// Clamp to `[0, hi]`, the way a saturating cast to an index behaves.
pub open spec fn clamp_idx(v: int, hi: int) -> int {
    if v < 0 {
        0
    } else if v > hi {
        hi
    } else {
        v
    }
}

/// The rasterization of segment `c` touches the cell `(x, y)` of a `w` by
/// `h` matrix.
pub open spec fn curve_hits(c: CubicCurve, w: int, h: int, x: int, y: int) -> bool {
    exists|i: int|
        0 <= i < quant_spec(c) && clamp_idx(
            #[trigger] sample_px(c.start.x as int, c.ctrl1.x as int, c.ctrl2.x as int, c.end.x as int, quant_spec(c), i),
            w - 1,
        ) == x && clamp_idx(
            sample_px(c.start.y as int, c.ctrl1.y as int, c.ctrl2.y as int, c.end.y as int, quant_spec(c), i),
            h - 1,
        ) == y
}

/// The segment translated so that the hole's top-left pixel is the origin.
pub open spec fn shift_curve(c: CubicCurve, origin: Point2) -> CubicCurve {
    CubicCurve {
        start: Point2 {
            x: (c.start.x - origin.x * SCALE) as i64,
            y: (c.start.y - origin.y * SCALE) as i64,
        },
        ctrl1: Point2 {
            x: (c.ctrl1.x - origin.x * SCALE) as i64,
            y: (c.ctrl1.y - origin.y * SCALE) as i64,
        },
        ctrl2: Point2 {
            x: (c.ctrl2.x - origin.x * SCALE) as i64,
            y: (c.ctrl2.y - origin.y * SCALE) as i64,
        },
        end: Point2 {
            x: (c.end.x - origin.x * SCALE) as i64,
            y: (c.end.y - origin.y * SCALE) as i64,
        },
    }
}

/// Some segment of some connector, shifted to the hole frame, touches the
/// cell `(x, y)`.
pub open spec fn any_hit(cs: Seq<Spline>, origin: Point2, w: int, h: int, x: int, y: int) -> bool {
    exists|k: int, l: int|
        0 <= k < cs.len() && 0 <= l < cs[k].curves@.len() && curve_hits(
            shift_curve(#[trigger] cs[k].curves@[l], origin),
            w,
            h,
            x,
            y,
        )
}

/// As [`any_hit`], restricted to segments strictly before position
/// `(k, l)` in the iteration order.
pub open spec fn hit_before(
    cs: Seq<Spline>,
    origin: Point2,
    k: int,
    l: int,
    w: int,
    h: int,
    x: int,
    y: int,
) -> bool {
    exists|k0: int, l0: int|
        0 <= k0 < cs.len() && 0 <= l0 < cs[k0].curves@.len() && (k0 < k || (k0 == k && l0 < l))
            && curve_hits(shift_curve(#[trigger] cs[k0].curves@[l0], origin), w, h, x, y)
}

/// One coordinate of the Bezier sample at parameter `i / q`, exactly as
/// [`sample_px`] states it.
fn bez_coord(a0: i64, a1: i64, a2: i64, a3: i64, q: i64, i: i64) -> (r: i64)
    requires
        -2 * SPLINE_LIMIT <= a0 <= 2 * SPLINE_LIMIT,
        -2 * SPLINE_LIMIT <= a1 <= 2 * SPLINE_LIMIT,
        -2 * SPLINE_LIMIT <= a2 <= 2 * SPLINE_LIMIT,
        -2 * SPLINE_LIMIT <= a3 <= 2 * SPLINE_LIMIT,
        0 <= i < q,
        4 <= q <= 0x40_0000,
    ensures
        r == sample_px(a0 as int, a1 as int, a2 as int, a3 as int, q as int, i as int),
        -2 * (2 * PIXEL_LIMIT as int + 2) <= r <= 2 * (2 * PIXEL_LIMIT as int + 2),
{
    let s: i128 = (q - i) as i128;
    let ii: i128 = i as i128;
    let qq: i128 = q as i128;
    proof {
        lemma_bez_bounds(a0 as int, a1 as int, a2 as int, a3 as int, q as int, i as int);
        assert(s * s <= 0x1000_0000_0000 && s * s >= 0) by (nonlinear_arith)
            requires
                0 <= s <= 0x40_0000,
        ;
        assert(ii * ii <= 0x1000_0000_0000 && ii * ii >= 0) by (nonlinear_arith)
            requires
                0 <= ii <= 0x40_0000,
        ;
        assert(qq * qq <= 0x1000_0000_0000 && qq * qq > 0) by (nonlinear_arith)
            requires
                0 < qq <= 0x40_0000,
        ;
    }
    let s2: i128 = s * s;
    let i2: i128 = ii * ii;
    let q2: i128 = qq * qq;
    proof {
        assert(s2 * s <= 0x4_0000_0000_0000_0000 && s2 * s >= 0) by (nonlinear_arith)
            requires
                0 <= s2 <= 0x1000_0000_0000,
                0 <= s <= 0x40_0000,
        ;
        assert(i2 * ii <= 0x4_0000_0000_0000_0000 && i2 * ii >= 0) by (nonlinear_arith)
            requires
                0 <= i2 <= 0x1000_0000_0000,
                0 <= ii <= 0x40_0000,
        ;
        assert(q2 * qq <= 0x4_0000_0000_0000_0000 && q2 * qq > 0) by (nonlinear_arith)
            requires
                0 < q2 <= 0x1000_0000_0000,
                0 < qq <= 0x40_0000,
        ;
        assert(s2 * ii <= 0x4_0000_0000_0000_0000 && s2 * ii >= 0) by (nonlinear_arith)
            requires
                0 <= s2 <= 0x1000_0000_0000,
                0 <= ii <= 0x40_0000,
        ;
        assert(s * i2 <= 0x4_0000_0000_0000_0000 && s * i2 >= 0) by (nonlinear_arith)
            requires
                0 <= i2 <= 0x1000_0000_0000,
                0 <= s <= 0x40_0000,
        ;
    }
    let s3: i128 = s2 * s;
    let i3: i128 = i2 * ii;
    let q3: i128 = q2 * qq;
    let s2i: i128 = s2 * ii;
    let si2: i128 = s * i2;
    proof {
        assert(2 * SPLINE_LIMIT as int <= 0x400_0000) by (nonlinear_arith)
            requires
                SPLINE_LIMIT == (2 * PIXEL_LIMIT + 2) * SCALE,
                PIXEL_LIMIT == 0x4000,
                SCALE == 1000,
        ;
        let b: int = 0x4_0000_0000_0000_0000;
        let a: int = 0x400_0000;
        lemma_mul_bounds_abs(s3 as int, a0 as int, b, a);
        lemma_mul_bounds_abs(s2i as int, a1 as int, b, a);
        lemma_mul_bounds_abs(si2 as int, a2 as int, b, a);
        lemma_mul_bounds_abs(i3 as int, a3 as int, b, a);
        assert(b * a < 0x1_0000_0000_0000_0000_0000_0000_0000) by (nonlinear_arith)
            requires
                b == 0x4_0000_0000_0000_0000,
                a == 0x400_0000,
        ;
        assert(q3 * (SCALE as int) <= 0x1_0000_0000_0000_0000_0000 && q3 * (SCALE as int) > 0)
            by (nonlinear_arith)
            requires
                0 < q3 <= 0x4_0000_0000_0000_0000,
                SCALE == 1000,
        ;
        assert(s3 * (a0 as int) == s * s * s * a0) by (nonlinear_arith)
            requires
                s3 == s2 * s,
                s2 == s * s,
        ;
        assert(3 * (s2i * (a1 as int)) == 3 * s * s * ii * a1) by (nonlinear_arith)
            requires
                s2i == s2 * ii,
                s2 == s * s,
        ;
        assert(3 * (si2 * (a2 as int)) == 3 * s * ii * ii * a2) by (nonlinear_arith)
            requires
                si2 == s * i2,
                i2 == ii * ii,
        ;
        assert(i3 * (a3 as int) == ii * ii * ii * a3) by (nonlinear_arith)
            requires
                i3 == i2 * ii,
                i2 == ii * ii,
        ;
        assert(q3 * (SCALE as int) == qq * qq * qq * SCALE) by (nonlinear_arith)
            requires
                q3 == q2 * qq,
                q2 == qq * qq,
        ;
    }
    let num: i128 = s3 * (a0 as i128) + 3 * (s2i * (a1 as i128)) + 3 * (si2 * (a2 as i128)) + i3
        * (a3 as i128);
    let denom: i128 = q3 * (SCALE as i128);
    let v = tdiv128(num, denom);
    v as i64
}

/// The Bezier numerator is bounded by `q^3` times the coordinate bound,
/// because the Bernstein weights sum to `q^3`; the sample is therefore a
/// convex-combination pixel value.
proof fn lemma_bez_bounds(a0: int, a1: int, a2: int, a3: int, q: int, i: int)
    requires
        -2 * SPLINE_LIMIT <= a0 <= 2 * SPLINE_LIMIT,
        -2 * SPLINE_LIMIT <= a1 <= 2 * SPLINE_LIMIT,
        -2 * SPLINE_LIMIT <= a2 <= 2 * SPLINE_LIMIT,
        -2 * SPLINE_LIMIT <= a3 <= 2 * SPLINE_LIMIT,
        0 <= i < q,
        4 <= q <= 0x40_0000,
    ensures
        -0x1_0000_0000_0000_0000_0000_0000i128 <= bez_num(a0, a1, a2, a3, q, i)
            <= 0x1_0000_0000_0000_0000_0000_0000i128,
        q * q * q * SCALE > 0,
        -2 * (2 * PIXEL_LIMIT as int + 2) <= sample_px(a0, a1, a2, a3, q, i) <= 2 * (2
            * PIXEL_LIMIT as int + 2),
{
    let s = q - i;
    let a = 2 * SPLINE_LIMIT as int;
    assert(s * s * s + 3 * s * s * i + 3 * s * i * i + i * i * i == q * q * q) by (nonlinear_arith)
        requires
            s == q - i,
    ;
    assert(s * s * s >= 0 && 3 * s * s * i >= 0 && 3 * s * i * i >= 0 && i * i * i >= 0)
        by (nonlinear_arith)
        requires
            s >= 0,
            i >= 0,
    ;
    assert(q * q * q <= 0x4_0000_0000_0000_0000 && q * q * q > 0) by (nonlinear_arith)
        requires
            0 < q <= 0x40_0000,
    ;
    lemma_mul_bounds_abs(s * s * s, a0, s * s * s, a);
    lemma_mul_bounds_abs(3 * s * s * i, a1, 3 * s * s * i, a);
    lemma_mul_bounds_abs(3 * s * i * i, a2, 3 * s * i * i, a);
    lemma_mul_bounds_abs(i * i * i, a3, i * i * i, a);
    assert((s * s * s) * a + (3 * s * s * i) * a + (3 * s * i * i) * a + (i * i * i) * a == (q * q
        * q) * a) by (nonlinear_arith)
        requires
            s * s * s + 3 * s * s * i + 3 * s * i * i + i * i * i == q * q * q,
    ;
    assert(a <= 0x400_0000) by (nonlinear_arith)
        requires
            a == 2 * SPLINE_LIMIT as int,
            SPLINE_LIMIT == (2 * PIXEL_LIMIT + 2) * SCALE,
            PIXEL_LIMIT == 0x4000,
            SCALE == 1000,
    ;
    assert((q * q * q) * a <= 0x1_0000_0000_0000_0000_0000_0000i128) by (nonlinear_arith)
        requires
            0 < q * q * q <= 0x4_0000_0000_0000_0000,
            0 < a <= 0x400_0000,
    ;
    assert(q * q * q * SCALE > 0) by (nonlinear_arith)
        requires
            q > 0,
    ;
    let m = 2 * (2 * PIXEL_LIMIT as int + 2);
    assert((q * q * q) * a == (q * q * q * SCALE) * m) by (nonlinear_arith)
        requires
            a == 2 * SPLINE_LIMIT as int,
            SPLINE_LIMIT == (2 * PIXEL_LIMIT + 2) * SCALE,
            m == 2 * (2 * PIXEL_LIMIT as int + 2),
    ;
    assert(q * q * q * SCALE == (q * q * q) * SCALE);
    assert((q * q * q * SCALE) * m == m * (q * q * q * SCALE)) by (nonlinear_arith);
    lemma_tdiv_scale_bound(bez_num(a0, a1, a2, a3, q, i), q * q * q * SCALE, m);
}

impl HoleFiller {
    /// Rasterize one cubic segment (already in the hole frame): sample the
    /// curve at its quantization levels and mark the cell under each
    /// sample, clamped to the matrix, as STRUCTURE. Cells become STRUCTURE
    /// exactly at the clamped samples; all others keep their value.
    pub fn rasterize_bezier_curve(matrix: &mut FilledHoleMatrix, c: &CubicCurve)
        requires
            old(matrix).wf(),
            curve_within(*c, 2 * SPLINE_LIMIT as int),
        ensures
            final(matrix).wf(),
            same_dims(*old(matrix), *final(matrix)),
            forall|x: int, y: int|
                final(matrix).in_bounds(x, y) ==> final(matrix).cell(x, y) == (if curve_hits(
                    *c,
                    old(matrix).width as int,
                    old(matrix).height as int,
                    x,
                    y,
                ) {
                    FilledHoleElement::Structure
                } else {
                    old(matrix).cell(x, y)
                }),
    {
        proof {
            lemma_dist_bound(c.start, c.ctrl1, 2 * SPLINE_LIMIT as int);
            lemma_dist_bound(c.ctrl1, c.ctrl2, 2 * SPLINE_LIMIT as int);
            lemma_dist_bound(c.ctrl2, c.end, 2 * SPLINE_LIMIT as int);
            lemma_tdiv_abs(
                dist_spec(c.start, c.ctrl1) + dist_spec(c.ctrl1, c.ctrl2) + dist_spec(
                    c.ctrl2,
                    c.end,
                ),
                SCALE as int,
            );
            assert(0x10_0000int * SCALE as int >= 24 * SPLINE_LIMIT as int) by (nonlinear_arith)
                requires
                    SPLINE_LIMIT == (2 * PIXEL_LIMIT + 2) * SCALE,
                    PIXEL_LIMIT == 0x4000,
                    SCALE == 1000,
            ;
            lemma_tdiv_scale_bound(
                dist_spec(c.start, c.ctrl1) + dist_spec(c.ctrl1, c.ctrl2) + dist_spec(
                    c.ctrl2,
                    c.end,
                ),
                SCALE as int,
                0x10_0000,
            );
        }
        let d1 = c.start.distance_to(c.ctrl1);
        let d2 = c.ctrl1.distance_to(c.ctrl2);
        let d3 = c.ctrl2.distance_to(c.end);
        let q = 4 * crate::fixed::tdiv64(d1 + d2 + d3, SCALE) + 4;
        proof {
            assert(q == quant_spec(*c));
        }
        let w = matrix.width;
        let h = matrix.height;
        let ghost m0 = *matrix;
        let mut i: i64 = 0;
        while i < q
            invariant
                matrix.wf(),
                same_dims(m0, *matrix),
                m0.wf(),
                w == matrix.width,
                h == matrix.height,
                curve_within(*c, 2 * SPLINE_LIMIT as int),
                4 <= q <= 0x40_0000,
                q == quant_spec(*c),
                0 <= i <= q,
                forall|x: int, y: int|
                    matrix.in_bounds(x, y) ==> matrix.cell(x, y) == (if hits_upto(
                        *c,
                        w as int,
                        h as int,
                        x,
                        y,
                        i as int,
                    ) {
                        FilledHoleElement::Structure
                    } else {
                        m0.cell(x, y)
                    }),
            decreases q - i,
        {
            let px = bez_coord(c.start.x, c.ctrl1.x, c.ctrl2.x, c.end.x, q, i);
            let py = bez_coord(c.start.y, c.ctrl1.y, c.ctrl2.y, c.end.y, q, i);
            let cx: usize = if px < 0 {
                0
            } else if px > (w - 1) as i64 {
                w - 1
            } else {
                px as usize
            };
            let cy: usize = if py < 0 {
                0
            } else if py > (h - 1) as i64 {
                h - 1
            } else {
                py as usize
            };
            let ghost m_prev = *matrix;
            matrix.set(cx, cy, FilledHoleElement::Structure);
            proof {
                assert forall|x: int, y: int|
                    matrix.in_bounds(x, y) implies matrix.cell(x, y) == (if hits_upto(
                    *c,
                    w as int,
                    h as int,
                    x,
                    y,
                    i as int + 1,
                ) {
                    FilledHoleElement::Structure
                } else {
                    m0.cell(x, y)
                }) by {
                    if x == cx && y == cy {
                        assert(hits_upto(*c, w as int, h as int, x, y, i as int + 1)) by {
                            assert(clamp_idx(
                                sample_px(
                                    c.start.x as int,
                                    c.ctrl1.x as int,
                                    c.ctrl2.x as int,
                                    c.end.x as int,
                                    quant_spec(*c),
                                    i as int,
                                ),
                                w - 1,
                            ) == x);
                        };
                    } else {
                        assert(matrix.cell(x, y) == m_prev.cell(x, y));
                        if hits_upto(*c, w as int, h as int, x, y, i as int + 1) {
                            let i0 = choose|i0: int|
                                0 <= i0 < i + 1 && clamp_idx(
                                    #[trigger] sample_px(
                                        c.start.x as int,
                                        c.ctrl1.x as int,
                                        c.ctrl2.x as int,
                                        c.end.x as int,
                                        quant_spec(*c),
                                        i0,
                                    ),
                                    w - 1,
                                ) == x && clamp_idx(
                                    sample_px(
                                        c.start.y as int,
                                        c.ctrl1.y as int,
                                        c.ctrl2.y as int,
                                        c.end.y as int,
                                        quant_spec(*c),
                                        i0,
                                    ),
                                    h - 1,
                                ) == y;
                            assert(i0 < i);
                            assert(hits_upto(*c, w as int, h as int, x, y, i as int));
                        }
                    }
                };
            }
            i = i + 1;
        }
        proof {
            assert forall|x: int, y: int|
                matrix.in_bounds(x, y) implies matrix.cell(x, y) == (if curve_hits(
                *c,
                w as int,
                h as int,
                x,
                y,
            ) {
                FilledHoleElement::Structure
            } else {
                m0.cell(x, y)
            }) by {
                assert(hits_upto(*c, w as int, h as int, x, y, quant_spec(*c)) == curve_hits(
                    *c,
                    w as int,
                    h as int,
                    x,
                    y,
                ));
            };
        }
    }
}

/// As [`curve_hits`], restricted to samples with index below `n`.
pub open spec fn hits_upto(c: CubicCurve, w: int, h: int, x: int, y: int, n: int) -> bool {
    exists|i: int|
        0 <= i < n && i < quant_spec(c) && clamp_idx(
            #[trigger] sample_px(c.start.x as int, c.ctrl1.x as int, c.ctrl2.x as int, c.end.x as int, quant_spec(c), i),
            w - 1,
        ) == x && clamp_idx(
            sample_px(c.start.y as int, c.ctrl1.y as int, c.ctrl2.y as int, c.end.y as int, quant_spec(c), i),
            h - 1,
        ) == y
}


/// Composition of two fill steps still only paints blank cells as texture.
proof fn lemma_obt_trans(a: FilledHoleMatrix, b: FilledHoleMatrix, c: FilledHoleMatrix)
    requires
        only_blank_to_texture(a, b),
        only_blank_to_texture(b, c),
    ensures
        only_blank_to_texture(a, c),
{
    assert forall|x: int, y: int|
        a.in_bounds(x, y) implies (c.cell(x, y) == a.cell(x, y) || (a.cell(x, y)
        == FilledHoleElement::Blank && c.cell(x, y) == FilledHoleElement::Texture)) by {
        assert(b.cell(x, y) == a.cell(x, y) || (a.cell(x, y) == FilledHoleElement::Blank && b.cell(
            x,
            y,
        ) == FilledHoleElement::Texture));
        assert(c.cell(x, y) == b.cell(x, y) || (b.cell(x, y) == FilledHoleElement::Blank && c.cell(
            x,
            y,
        ) == FilledHoleElement::Texture));
    };
}

/// Whether `p` is one of the points of `v`.
pub fn contains_point(v: &Vec<Point2>, p: Point2) -> (r: bool)
    ensures
        r == exists|i: int| 0 <= i < v@.len() && v@[i] == p,
{
    let mut i: usize = 0;
    while i < v.len()
        invariant
            i <= v@.len(),
            forall|j: int| 0 <= j < i ==> v@[j] != p,
        decreases v@.len() - i,
    {
        if v[i].x == p.x && v[i].y == p.y {
            proof {
                assert(v@[i as int] == p);
            }
            return true;
        }
        i = i + 1;
    }
    false
}

/// The middle rim index between `from` and `to`, walking forward
/// cyclically.
fn sample_point_between(from: usize, to: usize, num: usize) -> (r: usize)
    requires
        from < num,
        to < num,
        num <= 0x10_0000,
    ensures
        r < num,
        r == sample_between_spec(from as int, to as int, num as int),
{
    let cyclic_dist = if to >= from {
        to - from
    } else {
        num - (from - to)
    };
    (from + (cyclic_dist / 2)) % num
}

/// Where an endpoint that is not exactly on the rim is snapped to: straight
/// to the nearer horizontal side when it is horizontally within the hole,
/// straight to the nearer vertical side when vertically within, else to the
/// nearest corner (the first of top-left, top-right, bottom-left,
/// bottom-right at minimal squared distance).
pub open spec fn adjusted_endpoint(rect: BoundingRect, p: Point2) -> Point2 {
    if rect.near_boundary(p, 0) {
        p
    } else if rect.left <= p.x <= rect.right {
        Point2 {
            x: p.x,
            y: if vstd::math::abs(rect.top - p.y) < vstd::math::abs(rect.bottom - p.y) {
                rect.top
            } else {
                rect.bottom
            },
        }
    } else if rect.top <= p.y <= rect.bottom {
        Point2 {
            x: if vstd::math::abs(rect.left - p.x) < vstd::math::abs(rect.right - p.x) {
                rect.left
            } else {
                rect.right
            },
            y: p.y,
        }
    } else {
        let tl = Point2 { x: rect.left, y: rect.top };
        let tr = Point2 { x: rect.right, y: rect.top };
        let bl = Point2 { x: rect.left, y: rect.bottom };
        let br = Point2 { x: rect.right, y: rect.bottom };
        let c1 = if norm_sq(psub(tr, p)) < norm_sq(psub(tl, p)) {
            tr
        } else {
            tl
        };
        let c2 = if norm_sq(psub(bl, p)) < norm_sq(psub(c1, p)) {
            bl
        } else {
            c1
        };
        if norm_sq(psub(br, p)) < norm_sq(psub(c2, p)) {
            br
        } else {
            c2
        }
    }
}

impl HoleFiller {
    /// Snap each endpoint that is not exactly on the rim onto the rim, as
    /// [`adjusted_endpoint`] states; every result lies exactly on the rim
    /// frame.
    pub fn adjust_endpoints(hole_rect: &BoundingRect, endpoints: Vec<Point2>) -> (r: Vec<Point2>)
        requires
            hole_rect.wf(),
            forall|i: int|
                0 <= i < endpoints@.len() ==> within(#[trigger] endpoints@[i], 2 * PIXEL_LIMIT as int),
        ensures
            r@.len() == endpoints@.len(),
            forall|i: int|
                0 <= i < endpoints@.len() ==> #[trigger] r@[i] == adjusted_endpoint(
                    *hole_rect,
                    endpoints@[i],
                ),
            forall|i: int| 0 <= i < r@.len() ==> hole_rect.on_frame(#[trigger] r@[i]),
    {
        let mut out: Vec<Point2> = Vec::new();
        let mut i: usize = 0;
        let n = endpoints.len();
        while i < n
            invariant
                n == endpoints@.len(),
                hole_rect.wf(),
                forall|j: int|
                    0 <= j < n ==> within(#[trigger] endpoints@[j], 2 * PIXEL_LIMIT as int),
                i <= n,
                out@.len() == i,
                forall|j: int|
                    0 <= j < i ==> #[trigger] out@[j] == adjusted_endpoint(
                        *hole_rect,
                        endpoints@[j],
                    ),
                forall|j: int| 0 <= j < i ==> hole_rect.on_frame(#[trigger] out@[j]),
            decreases n - i,
        {
            let p = endpoints[i];
            let a = Self::adjust_one(hole_rect, p);
            out.push(a);
            i = i + 1;
        }
        out
    }

    /// Snap one endpoint to the rim.
    fn adjust_one(rect: &BoundingRect, p: Point2) -> (r: Point2)
        requires
            rect.wf(),
            within(p, 2 * PIXEL_LIMIT as int),
        ensures
            r == adjusted_endpoint(*rect, p),
            rect.on_frame(r),
    {
        if rect.have_point_on_boundary(p, 0) {
            return p;
        }
        if rect.left <= p.x && p.x <= rect.right {
            let dt = if rect.top >= p.y {
                rect.top - p.y
            } else {
                p.y - rect.top
            };
            let db = if rect.bottom >= p.y {
                rect.bottom - p.y
            } else {
                p.y - rect.bottom
            };
            let y = if dt < db {
                rect.top
            } else {
                rect.bottom
            };
            Point2 { x: p.x, y }
        } else if rect.top <= p.y && p.y <= rect.bottom {
            let dl = if rect.left >= p.x {
                rect.left - p.x
            } else {
                p.x - rect.left
            };
            let dr = if rect.right >= p.x {
                rect.right - p.x
            } else {
                p.x - rect.right
            };
            let x = if dl < dr {
                rect.left
            } else {
                rect.right
            };
            Point2 { x, y: p.y }
        } else {
            let tl = Point2 { x: rect.left, y: rect.top };
            let tr = Point2 { x: rect.right, y: rect.top };
            let bl = Point2 { x: rect.left, y: rect.bottom };
            let br = Point2 { x: rect.right, y: rect.bottom };
            let d_tl = tl.minus(p).dot(tl.minus(p));
            let d_tr = tr.minus(p).dot(tr.minus(p));
            let d_bl = bl.minus(p).dot(bl.minus(p));
            let d_br = br.minus(p).dot(br.minus(p));
            let (c1, d1) = if d_tr < d_tl {
                (tr, d_tr)
            } else {
                (tl, d_tl)
            };
            let (c2, d2) = if d_bl < d1 {
                (bl, d_bl)
            } else {
                (c1, d1)
            };
            if d_br < d2 {
                br
            } else {
                c2
            }
        }
    }

    /// Rasterize all connector segments into the matrix, translated so the
    /// hole's top-left pixel is the origin. Cells become STRUCTURE exactly
    /// where some segment's sample lands; all others keep their value.
    pub fn rasterize_interpolated_curves(
        matrix: FilledHoleMatrix,
        curves: &Vec<Spline>,
        origin: Point2,
    ) -> (r: FilledHoleMatrix)
        requires
            matrix.wf(),
            within(origin, PIXEL_LIMIT as int),
            forall|k: int| 0 <= k < curves@.len() ==> (#[trigger] curves@[k]).wf(),
        ensures
            r.wf(),
            same_dims(matrix, r),
            forall|x: int, y: int|
                r.in_bounds(x, y) ==> r.cell(x, y) == (if any_hit(
                    curves@,
                    origin,
                    matrix.width as int,
                    matrix.height as int,
                    x,
                    y,
                ) {
                    FilledHoleElement::Structure
                } else {
                    matrix.cell(x, y)
                }),
    {
        let ghost m0 = matrix;
        let ghost w = matrix.width as int;
        let ghost h = matrix.height as int;
        let mut m = matrix;
        let off = origin.to_fixed();
        let mut k: usize = 0;
        while k < curves.len()
            invariant
                m.wf(),
                same_dims(m0, m),
                m0.wf(),
                w == m0.width as int,
                h == m0.height as int,
                within(origin, PIXEL_LIMIT as int),
                off.x == origin.x * SCALE,
                off.y == origin.y * SCALE,
                forall|k0: int| 0 <= k0 < curves@.len() ==> (#[trigger] curves@[k0]).wf(),
                k <= curves@.len(),
                forall|x: int, y: int|
                    m.in_bounds(x, y) ==> m.cell(x, y) == (if hit_before(
                        curves@,
                        origin,
                        k as int,
                        0,
                        w,
                        h,
                        x,
                        y,
                    ) {
                        FilledHoleElement::Structure
                    } else {
                        m0.cell(x, y)
                    }),
            decreases curves@.len() - k,
        {
            let nsegs = curves[k].curves.len();
            let mut l: usize = 0;
            while l < nsegs
                invariant
                    m.wf(),
                    same_dims(m0, m),
                    m0.wf(),
                    w == m0.width as int,
                    h == m0.height as int,
                    within(origin, PIXEL_LIMIT as int),
                    off.x == origin.x * SCALE,
                    off.y == origin.y * SCALE,
                    forall|k0: int| 0 <= k0 < curves@.len() ==> (#[trigger] curves@[k0]).wf(),
                    k < curves@.len(),
                    nsegs == curves@[k as int].curves@.len(),
                    l <= nsegs,
                    forall|x: int, y: int|
                        m.in_bounds(x, y) ==> m.cell(x, y) == (if hit_before(
                            curves@,
                            origin,
                            k as int,
                            l as int,
                            w,
                            h,
                            x,
                            y,
                        ) {
                            FilledHoleElement::Structure
                        } else {
                            m0.cell(x, y)
                        }),
                decreases nsegs - l,
            {
                let c = curves[k].curves[l];
                let shifted = CubicCurve {
                    start: c.start.minus(off),
                    ctrl1: c.ctrl1.minus(off),
                    ctrl2: c.ctrl2.minus(off),
                    end: c.end.minus(off),
                };
                proof {
                    assert(curve_within(curves@[k as int].curves@[l as int], SPLINE_LIMIT as int));
                    assert(shifted == shift_curve(curves@[k as int].curves@[l as int], origin));
                    assert(curve_within(shifted, 2 * SPLINE_LIMIT as int));
                }
                let ghost m_prev = m;
                Self::rasterize_bezier_curve(&mut m, &shifted);
                proof {
                    assert forall|x: int, y: int|
                        m.in_bounds(x, y) implies m.cell(x, y) == (if hit_before(
                        curves@,
                        origin,
                        k as int,
                        l as int + 1,
                        w,
                        h,
                        x,
                        y,
                    ) {
                        FilledHoleElement::Structure
                    } else {
                        m0.cell(x, y)
                    }) by {
                        if curve_hits(shifted, w, h, x, y) {
                            assert(hit_before(curves@, origin, k as int, l as int + 1, w, h, x, y));
                        } else if hit_before(curves@, origin, k as int, l as int + 1, w, h, x, y) {
                            let (k0, l0) = choose|k0: int, l0: int|
                                0 <= k0 < curves@.len() && 0 <= l0 < curves@[k0].curves@.len() && (
                                k0 < k as int || (k0 == k as int && l0 < l as int + 1))
                                    && curve_hits(
                                    shift_curve(#[trigger] curves@[k0].curves@[l0], origin),
                                    w,
                                    h,
                                    x,
                                    y,
                                );
                            if k0 == k as int && l0 == l as int {
                                assert(false);
                            } else {
                                assert(hit_before(curves@, origin, k as int, l as int, w, h, x, y));
                            }
                        }
                    };
                }
                l = l + 1;
            }
            proof {
                assert forall|x: int, y: int|
                    m.in_bounds(x, y) implies m.cell(x, y) == (if hit_before(
                    curves@,
                    origin,
                    k as int + 1,
                    0,
                    w,
                    h,
                    x,
                    y,
                ) {
                    FilledHoleElement::Structure
                } else {
                    m0.cell(x, y)
                }) by {
                    if hit_before(curves@, origin, k as int + 1, 0, w, h, x, y) {
                        let (k0, l0) = choose|k0: int, l0: int|
                            0 <= k0 < curves@.len() && 0 <= l0 < curves@[k0].curves@.len() && (k0
                                < k as int + 1 || (k0 == k as int + 1 && l0 < 0)) && curve_hits(
                                shift_curve(#[trigger] curves@[k0].curves@[l0], origin),
                                w,
                                h,
                                x,
                                y,
                            );
                        assert(hit_before(curves@, origin, k as int, nsegs as int, w, h, x, y));
                    }
                    if hit_before(curves@, origin, k as int, nsegs as int, w, h, x, y) {
                        let (k0, l0) = choose|k0: int, l0: int|
                            0 <= k0 < curves@.len() && 0 <= l0 < curves@[k0].curves@.len() && (k0
                                < k as int || (k0 == k as int && l0 < nsegs as int)) && curve_hits(
                                shift_curve(#[trigger] curves@[k0].curves@[l0], origin),
                                w,
                                h,
                                x,
                                y,
                            );
                        assert(hit_before(curves@, origin, k as int + 1, 0, w, h, x, y));
                    }
                };
            }
            k = k + 1;
        }
        proof {
            assert forall|x: int, y: int|
                m.in_bounds(x, y) implies m.cell(x, y) == (if any_hit(curves@, origin, w, h, x, y) {
                FilledHoleElement::Structure
            } else {
                m0.cell(x, y)
            }) by {
                if any_hit(curves@, origin, w, h, x, y) {
                    let (k0, l0) = choose|k0: int, l0: int|
                        0 <= k0 < curves@.len() && 0 <= l0 < curves@[k0].curves@.len() && curve_hits(
                            shift_curve(#[trigger] curves@[k0].curves@[l0], origin),
                            w,
                            h,
                            x,
                            y,
                        );
                    assert(hit_before(curves@, origin, curves@.len() as int, 0, w, h, x, y));
                }
                if hit_before(curves@, origin, curves@.len() as int, 0, w, h, x, y) {
                    let (k0, l0) = choose|k0: int, l0: int|
                        0 <= k0 < curves@.len() && 0 <= l0 < curves@[k0].curves@.len() && (k0
                            < curves@.len() as int || (k0 == curves@.len() as int && l0 < 0))
                            && curve_hits(
                            shift_curve(#[trigger] curves@[k0].curves@[l0], origin),
                            w,
                            h,
                            x,
                            y,
                        );
                    assert(any_hit(curves@, origin, w, h, x, y));
                }
            };
        }
        m
    }
}


impl HoleFiller {
    /// Walk the rim in endpoint-delimited arcs starting from the first
    /// endpoint; for each arc decide by majority whether the pixel row just
    /// outside the hole is foreground, and if so flood texture from three
    /// sampled interior seeds of the arc. Structure cells never change,
    /// only blank cells are painted, and every flood runs to exhaustion.
    pub fn fill_holes(
        matrix: FilledHoleMatrix,
        image: &BinaryImage,
        hole_rect: BoundingRect,
        endpoints: Vec<Point2>,
    ) -> (r: FilledHoleMatrix)
        requires
            matrix.wf(),
            saturated(matrix),
            image.wf(),
            hole_rect.wf(),
            matrix.width == hole_rect.right - hole_rect.left,
            matrix.height == hole_rect.bottom - hole_rect.top,
            endpoints@.len() >= 1,
            forall|i: int|
                0 <= i < endpoints@.len() ==> within(#[trigger] endpoints@[i], 2 * PIXEL_LIMIT as int),
        ensures
            r.wf(),
            same_dims(matrix, r),
            only_blank_to_texture(matrix, r),
            saturated(r),
            forall|x: int, y: int|
                matrix.in_bounds(x, y) ==> ((#[trigger] r.cell(x, y) != matrix.cell(x, y))
                    == region_of_any(
                    matrix,
                    fill_holes_seeds(*image, hole_rect, endpoints@),
                    x,
                    y,
                )),
    {
        let offset = Point2 { x: hole_rect.left, y: hole_rect.top };
        let adjusted = Self::adjust_endpoints(&hole_rect, endpoints);
        let bounding = hole_rect.get_boundary_points_from(adjusted[0]);
        let num = bounding.len();
        let ghost sspec = fill_holes_seeds(*image, hole_rect, endpoints@);
        proof {
            assert(num >= 4);
            assert(num <= 8 * PIXEL_LIMIT);
            assert(bounding@[0] == adjusted@[0]);
            let adjs = Seq::new(
                endpoints@.len(),
                |i: int| adjusted_endpoint(hole_rect, endpoints@[i]),
            );
            assert(adjusted@ =~= adjs);
            let i0 = hole_rect.frame_index_of_spec(adjs[0]);
            let bnd = Seq::new(
                hole_rect.frame_len() as nat,
                |k: int| hole_rect.frame_point((i0 + k) % hole_rect.frame_len()),
            );
            assert(bounding@ =~= bnd);
            assert(scan_seeds(*image, hole_rect, bounding@, adjusted@, offset, 1, 0, 0, 0)
                == sspec);
        }
        let ghost m0 = matrix;
        let mut m = matrix;
        let ghost mut collected: Seq<Point2> = Seq::<Point2>::empty();
        let mut current: usize = 0;
        proof {
            assert(collected + scan_seeds(
                *image,
                hole_rect,
                bounding@,
                adjusted@,
                offset,
                1,
                0,
                0,
                0,
            ) =~= sspec);
        }
        loop
            invariant_except_break
                collected + scan_seeds(
                    *image,
                    hole_rect,
                    bounding@,
                    adjusted@,
                    offset,
                    current as int + 1,
                    current as int,
                    0,
                    0,
                ) == sspec,
            invariant
                m.wf(),
                same_dims(m0, m),
                m0.wf(),
                only_blank_to_texture(m0, m),
                saturated(m),
                image.wf(),
                hole_rect.wf(),
                m.width == hole_rect.right - hole_rect.left,
                m.height == hole_rect.bottom - hole_rect.top,
                offset.x == hole_rect.left,
                offset.y == hole_rect.top,
                4 <= num <= 8 * PIXEL_LIMIT,
                num == bounding@.len(),
                num == hole_rect.frame_len(),
                forall|j: int| 0 <= j < num ==> hole_rect.on_frame(#[trigger] bounding@[j]),
                adjusted@.len() >= 1,
                bounding@[0] == adjusted@[0],
                current < num,
                forall|x0: int, y0: int|
                    m0.in_bounds(x0, y0) && #[trigger] m.cell(x0, y0) != m0.cell(x0, y0)
                        ==> region_of_any(m0, collected, x0, y0),
                forall|i: int|
                    0 <= i < collected.len() ==> seed_painted(m0, m, #[trigger] collected[i]),
            ensures
                m.wf(),
                same_dims(m0, m),
                only_blank_to_texture(m0, m),
                saturated(m),
                collected == sspec,
                forall|x0: int, y0: int|
                    m0.in_bounds(x0, y0) && #[trigger] m.cell(x0, y0) != m0.cell(x0, y0)
                        ==> region_of_any(m0, collected, x0, y0),
                forall|i: int|
                    0 <= i < collected.len() ==> seed_painted(m0, m, #[trigger] collected[i]),
            decreases num - current,
        {
            let ghost entry = current;
            let mut total: usize = 0;
            let mut filled: usize = 0;
            let prev_endpoint = current;
            loop
                invariant_except_break
                    image.wf(),
                    hole_rect.wf(),
                    offset.x == hole_rect.left,
                    offset.y == hole_rect.top,
                    4 <= num <= 8 * PIXEL_LIMIT,
                    num == bounding@.len(),
                    forall|j: int| 0 <= j < num ==> hole_rect.on_frame(#[trigger] bounding@[j]),
                    adjusted@.len() >= 1,
                    bounding@[0] == adjusted@[0],
                    entry < num,
                    current == entry || (entry < current < num),
                    total as int == current as int - entry,
                    filled <= total,
                    collected + scan_seeds(
                        *image,
                        hole_rect,
                        bounding@,
                        adjusted@,
                        offset,
                        current as int + 1,
                        entry as int,
                        total as int,
                        filled as int,
                    ) == sspec,
                ensures
                    current < num,
                    current == 0 || entry < current,
                    filled <= total,
                    collected + (if filled as int >= total as int / 2 {
                        arc_seed_list(hole_rect, bounding@, offset, entry as int, current as int)
                    } else {
                        Seq::<Point2>::empty()
                    }) + (if current != 0 {
                        scan_seeds(
                            *image,
                            hole_rect,
                            bounding@,
                            adjusted@,
                            offset,
                            current as int + 1,
                            current as int,
                            0,
                            0,
                        )
                    } else {
                        Seq::<Point2>::empty()
                    }) == sspec,
                decreases num - current,
            {
                let ghost cur0 = current;
                let ghost total0 = total as int;
                current = (current + 1) % num;
                proof {
                    if cur0 + 1 < num {
                        vstd::arithmetic::div_mod::lemma_small_mod((cur0 + 1) as nat, num as nat);
                    } else {
                        broadcast use vstd::arithmetic::div_mod::lemma_mod_self_0;

                        assert(cur0 + 1 == num);
                        assert(current == 0);
                    }
                    if current == 0 {
                        assert(exists|i: int|
                            0 <= i < adjusted@.len() && adjusted@[i] == bounding@[0]) by {
                            assert(adjusted@[0] == bounding@[0]);
                        };
                    }
                }
                total = total + 1;
                let pv = bounding[current];
                let outside_point = if pv.x == hole_rect.right || pv.y == hole_rect.bottom {
                    pv
                } else {
                    hole_rect.get_closest_point_outside(pv)
                };
                proof {
                    assert(within(outside_point, 4 * PIXEL_LIMIT as int));
                    assert(outside_point == rim_outside_probe(hole_rect, bounding@[current as int]));
                }
                if image.get_pixel_at_safe(outside_point) {
                    filled = filled + 1;
                }
                let at_endpoint = contains_point(&adjusted, bounding[current]);
                proof {
                    let kk = cur0 as int + 1;
                    assert(current as int == (if kk == num as int {
                        0int
                    } else {
                        kk
                    }));
                    assert(at_endpoint == holds_point(adjusted@, bounding@[current as int]));
                    assert(total as int == total0 + 1);
                }
                if at_endpoint {
                    break;
                }
                proof {
                    assert(current != 0);
                }
            }
            if filled >= total / 2 {
                let sampled_mid = sample_point_between(prev_endpoint, current, num);
                let s_a = sample_point_between(prev_endpoint, sampled_mid, num);
                let s_c = sample_point_between(sampled_mid, current, num);
                let ghost arc = arc_seed_list(
                    hole_rect,
                    bounding@,
                    offset,
                    entry as int,
                    current as int,
                );
                proof {
                    assert(arc[0] == rim_inside_seed(hole_rect, bounding@[s_a as int], offset));
                    assert(arc[1] == rim_inside_seed(
                        hole_rect,
                        bounding@[sampled_mid as int],
                        offset,
                    ));
                    assert(arc[2] == rim_inside_seed(hole_rect, bounding@[s_c as int], offset));
                }
                let ghost m_a = m;
                Self::flood_from_rim_sample(&mut m, &bounding, s_a, &hole_rect, offset);
                let ghost m_b = m;
                Self::flood_from_rim_sample(&mut m, &bounding, sampled_mid, &hole_rect, offset);
                proof {
                    lemma_obt_trans(m_a, m_b, m);
                }
                let ghost m_c = m;
                Self::flood_from_rim_sample(&mut m, &bounding, s_c, &hole_rect, offset);
                proof {
                    lemma_obt_trans(m_a, m_c, m);
                    lemma_obt_trans(m0, m_a, m);
                    lemma_obt_trans(m0, m_a, m_b);
                    lemma_obt_trans(m0, m_b, m_c);
                    let ghost old_collected = collected;
                    collected = collected + arc;
                    assert forall|x0: int, y0: int|
                        m0.in_bounds(x0, y0) && #[trigger] m.cell(x0, y0) != m0.cell(x0, y0)
                            implies region_of_any(m0, collected, x0, y0) by {
                        if m_a.cell(x0, y0) != m0.cell(x0, y0) {
                            assert(region_of_any(m0, old_collected, x0, y0));
                            let i = choose|i: int|
                                0 <= i < old_collected.len() && flood_region(
                                    m0,
                                    (#[trigger] old_collected[i]).x as int,
                                    old_collected[i].y as int,
                                    x0,
                                    y0,
                                );
                            assert(collected[i] == old_collected[i]);
                        } else if m_b.cell(x0, y0) != m_a.cell(x0, y0) {
                            let k = choose|k: nat|
                                flood_reaches(m_a, arc[0].x as int, arc[0].y as int, x0, y0, k);
                            lemma_region_monotone(
                                m0,
                                m_a,
                                arc[0].x as int,
                                arc[0].y as int,
                                x0,
                                y0,
                                k,
                            );
                            assert(collected[old_collected.len() as int] == arc[0]);
                        } else if m_c.cell(x0, y0) != m_b.cell(x0, y0) {
                            let k = choose|k: nat|
                                flood_reaches(m_b, arc[1].x as int, arc[1].y as int, x0, y0, k);
                            lemma_region_monotone(
                                m0,
                                m_b,
                                arc[1].x as int,
                                arc[1].y as int,
                                x0,
                                y0,
                                k,
                            );
                            assert(collected[old_collected.len() as int + 1] == arc[1]);
                        } else {
                            assert(m.cell(x0, y0) != m_c.cell(x0, y0));
                            let k = choose|k: nat|
                                flood_reaches(m_c, arc[2].x as int, arc[2].y as int, x0, y0, k);
                            lemma_region_monotone(
                                m0,
                                m_c,
                                arc[2].x as int,
                                arc[2].y as int,
                                x0,
                                y0,
                                k,
                            );
                            assert(collected[old_collected.len() as int + 2] == arc[2]);
                        }
                    };
                    assert forall|i: int|
                        0 <= i < collected.len() implies seed_painted(
                        m0,
                        m,
                        #[trigger] collected[i],
                    ) by {
                        if i < old_collected.len() {
                            assert(seed_painted(m0, m_a, old_collected[i]));
                            assert(collected[i] == old_collected[i]);
                        } else if i == old_collected.len() {
                            assert(collected[i] == arc[0]);
                            assert(seed_painted(m_a, m_b, arc[0]));
                        } else if i == old_collected.len() + 1 {
                            assert(collected[i] == arc[1]);
                            assert(seed_painted(m_b, m_c, arc[1]));
                        } else {
                            assert(collected[i] == arc[2]);
                            assert(seed_painted(m_c, m, arc[2]));
                        }
                    };
                    assert(collected + (if current != 0 {
                        scan_seeds(
                            *image,
                            hole_rect,
                            bounding@,
                            adjusted@,
                            offset,
                            current as int + 1,
                            current as int,
                            0,
                            0,
                        )
                    } else {
                        Seq::<Point2>::empty()
                    }) =~= sspec);
                }
            } else {
                proof {
                    assert(collected + Seq::<Point2>::empty() + (if current != 0 {
                        scan_seeds(
                            *image,
                            hole_rect,
                            bounding@,
                            adjusted@,
                            offset,
                            current as int + 1,
                            current as int,
                            0,
                            0,
                        )
                    } else {
                        Seq::<Point2>::empty()
                    }) == sspec);
                    assert(collected + (if current != 0 {
                        scan_seeds(
                            *image,
                            hole_rect,
                            bounding@,
                            adjusted@,
                            offset,
                            current as int + 1,
                            current as int,
                            0,
                            0,
                        )
                    } else {
                        Seq::<Point2>::empty()
                    }) =~= sspec);
                }
            }
            if current == 0 {
                proof {
                    assert(collected =~= sspec);
                }
                break;
            }
        }
        proof {
            assert forall|x: int, y: int|
                m0.in_bounds(x, y) implies ((#[trigger] m.cell(x, y) != m0.cell(x, y))
                == region_of_any(m0, sspec, x, y)) by {
                if region_of_any(m0, sspec, x, y) {
                    let i = choose|i: int|
                        0 <= i < sspec.len() && flood_region(
                            m0,
                            (#[trigger] sspec[i]).x as int,
                            sspec[i].y as int,
                            x,
                            y,
                        );
                    let k = choose|k: nat|
                        flood_reaches(m0, sspec[i].x as int, sspec[i].y as int, x, y, k);
                    assert(seed_painted(m0, m, sspec[i]));
                    lemma_region_painted(m0, m, sspec[i].x as int, sspec[i].y as int, x, y, k);
                    assert(m0.cell(x, y) == FilledHoleElement::Blank);
                }
            };
        }
        m
    }

    /// Flood from the hole pixel nearest the sampled rim point.
    fn flood_from_rim_sample(
        m: &mut FilledHoleMatrix,
        bounding: &Vec<Point2>,
        idx: usize,
        hole_rect: &BoundingRect,
        offset: Point2,
    )
        requires
            old(m).wf(),
            saturated(*old(m)),
            hole_rect.wf(),
            idx < bounding@.len(),
            forall|j: int| 0 <= j < bounding@.len() ==> hole_rect.on_frame(#[trigger] bounding@[j]),
            offset == (Point2 { x: hole_rect.left, y: hole_rect.top }),
        ensures
            final(m).wf(),
            only_blank_to_texture(*old(m), *final(m)),
            saturated(*final(m)),
            forall|x: int, y: int|
                old(m).in_bounds(x, y) ==> ((#[trigger] final(m).cell(x, y) != old(m).cell(x, y))
                    == flood_region(
                    *old(m),
                    rim_inside_seed(*hole_rect, bounding@[idx as int], offset).x as int,
                    rim_inside_seed(*hole_rect, bounding@[idx as int], offset).y as int,
                    x,
                    y,
                )),
            seed_painted(
                *old(m),
                *final(m),
                rim_inside_seed(*hole_rect, bounding@[idx as int], offset),
            ),
    {
        let pv = bounding[idx];
        let inside_point = if pv.x == hole_rect.left || pv.y == hole_rect.top {
            pv
        } else {
            hole_rect.get_closest_point_inside(pv)
        };
        let seed = inside_point.minus(offset);
        proof {
            assert(within(seed, 2 * PIXEL_LIMIT as int));
            assert(seed == rim_inside_seed(*hole_rect, bounding@[idx as int], offset));
        }
        HoleFiller::fill_hole_recursive(m, seed);
    }

    /// Fill the hole: rasterize the connectors as STRUCTURE into a fresh
    /// matrix the size of the hole, then flood texture into the foreground
    /// side of each rim arc. STRUCTURE cells are exactly the rasterized
    /// samples; no TEXTURE cell is 4-adjacent to a BLANK cell.
    pub fn fill(
        image: &BinaryImage,
        hole_rect: BoundingRect,
        intrapolated_curves: Vec<Spline>,
        endpoints: Vec<Point2>,
    ) -> (r: FilledHoleMatrix)
        requires
            image.wf(),
            hole_rect.wf(),
            forall|k: int|
                0 <= k < intrapolated_curves@.len() ==> (#[trigger] intrapolated_curves@[k]).wf(),
            endpoints@.len() >= 1,
            forall|i: int|
                0 <= i < endpoints@.len() ==> within(#[trigger] endpoints@[i], 2 * PIXEL_LIMIT as int),
        ensures
            r.wf(),
            r.width == hole_rect.right - hole_rect.left,
            r.height == hole_rect.bottom - hole_rect.top,
            forall|x: int, y: int|
                r.in_bounds(x, y) ==> ((r.cell(x, y) == FilledHoleElement::Structure) == any_hit(
                    intrapolated_curves@,
                    Point2 { x: hole_rect.left, y: hole_rect.top },
                    r.width as int,
                    r.height as int,
                    x,
                    y,
                )),
            saturated(r),
            exists|mid: FilledHoleMatrix|
                {
                    &&& #[trigger] same_dims(mid, r)
                    &&& mid.wf()
                    &&& (forall|x: int, y: int|
                        mid.in_bounds(x, y) ==> #[trigger] mid.cell(x, y) == (if any_hit(
                            intrapolated_curves@,
                            Point2 { x: hole_rect.left, y: hole_rect.top },
                            mid.width as int,
                            mid.height as int,
                            x,
                            y,
                        ) {
                            FilledHoleElement::Structure
                        } else {
                            FilledHoleElement::Blank
                        }))
                    &&& (forall|x: int, y: int|
                        mid.in_bounds(x, y) ==> ((#[trigger] r.cell(x, y) != mid.cell(x, y))
                            == region_of_any(
                            mid,
                            fill_holes_seeds(*image, hole_rect, endpoints@),
                            x,
                            y,
                        )))
                },
    {
        let w = (hole_rect.right - hole_rect.left) as usize;
        let h = (hole_rect.bottom - hole_rect.top) as usize;
        let matrix = FilledHoleMatrix::new(w, h);
        let origin = Point2 { x: hole_rect.left, y: hole_rect.top };
        let rasterized = Self::rasterize_interpolated_curves(matrix, &intrapolated_curves, origin);
        proof {
            assert forall|x: int, y: int|
                rasterized.in_bounds(x, y) implies #[trigger] tex_ok(rasterized, x, y) by {
                assert(rasterized.cell(x, y) != FilledHoleElement::Texture);
            };
        }
        let ghost mid_view = rasterized;
        let filled = Self::fill_holes(rasterized, image, hole_rect, endpoints);
        proof {
            assert(same_dims(mid_view, filled));
            assert forall|x: int, y: int|
                mid_view.in_bounds(x, y) implies #[trigger] mid_view.cell(x, y) == (if any_hit(
                intrapolated_curves@,
                origin,
                mid_view.width as int,
                mid_view.height as int,
                x,
                y,
            ) {
                FilledHoleElement::Structure
            } else {
                FilledHoleElement::Blank
            }) by {
                assert(matrix.cell(x, y) == FilledHoleElement::Blank);
            };
            assert forall|x: int, y: int|
                filled.in_bounds(x, y) implies ((filled.cell(x, y) == FilledHoleElement::Structure)
                == any_hit(
                intrapolated_curves@,
                origin,
                filled.width as int,
                filled.height as int,
                x,
                y,
            )) by {
                assert(rasterized.in_bounds(x, y));
                assert(filled.cell(x, y) == rasterized.cell(x, y) || (rasterized.cell(x, y)
                    == FilledHoleElement::Blank && filled.cell(x, y)
                    == FilledHoleElement::Texture));
            };
        }
        filled
    }
}

} // verus!
