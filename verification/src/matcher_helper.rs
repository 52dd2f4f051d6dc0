//! Match items, matchings, and the square distance matrix with its
//! minimum-sum assignment solver.
//!
//! The assignment itself is computed by the `hungarian` crate; the trusted
//! contract states exactly what that crate documents: every row is assigned
//! a distinct column and the summed cost is minimal among all assignments.

use vstd::prelude::*;
use crate::point::{Point2, within, dist_spec, lemma_dist_bound};
use crate::spline::SPLINE_LIMIT;

verus! {

/// The tail point of a segment together with its outward unit direction.
#[derive(Clone, Copy, Debug, PartialEq, Eq, Structural)]
pub struct MatchItem {
    pub id: usize,
    pub point: Point2,
    pub direction: Point2,
}

/// An ordered list of match items.
#[derive(Debug)]
pub struct MatchItemSet {
    pub items: Vec<MatchItem>,
}

/// An ordered list of id pairs.
#[derive(Debug)]
pub struct Matching {
    pub index_pairs: Vec<(usize, usize)>,
}

/// Coordinates of `m` are small enough for the distance computations.
pub open spec fn item_bounded(m: MatchItem) -> bool {
    within(m.point, SPLINE_LIMIT as int) && within(m.direction, SPLINE_LIMIT as int)
}

impl MatchItemSet {
    /// All items are coordinate-bounded.
    pub open spec fn bounded(self) -> bool {
        forall|k: int| 0 <= k < self.items@.len() ==> item_bounded(#[trigger] self.items@[k])
    }

    /// The id of each item is its index.
    pub open spec fn ids_sequential(self) -> bool {
        forall|k: int| 0 <= k < self.items@.len() ==> (#[trigger] self.items@[k]).id == k
    }

    /// An empty set.
    pub fn new() -> (r: Self)
        ensures
            r.items@.len() == 0,
            r.bounded(),
            r.ids_sequential(),
    {
        Self { items: Vec::new() }
    }

    /// Take the given items and overwrite their ids with their indices, so
    /// that ids are unique.
    pub fn from_match_items_and_set_ids(items: Vec<MatchItem>) -> (r: Self)
        ensures
            r.items@.len() == items@.len(),
            forall|k: int|
                0 <= k < items@.len() ==> #[trigger] r.items@[k] == (MatchItem {
                    id: k as usize,
                    ..items@[k]
                }),
            r.ids_sequential(),
    {
        let mut out: Vec<MatchItem> = Vec::new();
        let mut i: usize = 0;
        let n = items.len();
        while i < n
            invariant
                n == items@.len(),
                out@.len() == i,
                i <= n,
                forall|k: int|
                    0 <= k < i ==> #[trigger] out@[k] == (MatchItem { id: k as usize, ..items@[k] }),
            decreases n - i,
        {
            let it = items[i];
            out.push(MatchItem { id: i, point: it.point, direction: it.direction });
            i = i + 1;
        }
        Self { items: out }
    }

    /// Number of items.
    pub fn len(&self) -> (r: usize)
        ensures
            r == self.items@.len(),
    {
        self.items.len()
    }

    /// Whether the set is empty.
    pub fn is_empty(&self) -> (r: bool)
        ensures
            r == (self.items@.len() == 0),
    {
        self.items.len() == 0
    }

    /// The item at `index`.
    pub fn get(&self, index: usize) -> (r: MatchItem)
        requires
            index < self.items@.len(),
        ensures
            r == self.items@[index as int],
    {
        self.items[index]
    }

    /// Remove and return the item at `index`, shifting later items down.
    pub fn remove(&mut self, index: usize) -> (r: MatchItem)
        requires
            index < old(self).items@.len(),
        ensures
            r == old(self).items@[index as int],
            final(self).items@ == old(self).items@.remove(index as int),
    {
        self.items.remove(index)
    }

    /// Append `match_item` with its id set to its new index, keeping ids
    /// unique.
    pub fn push_and_set_id(&mut self, match_item: MatchItem)
        ensures
            final(self).items@ == old(self).items@.push(
                MatchItem { id: old(self).items@.len() as usize, ..match_item },
            ),
    {
        let id = self.items.len();
        self.items.push(MatchItem { id, point: match_item.point, direction: match_item.direction });
    }

    /// Append `match_item` keeping its id.
    pub fn push_as_is(&mut self, match_item: MatchItem)
        ensures
            final(self).items@ == old(self).items@.push(match_item),
    {
        self.items.push(match_item);
    }
}

impl Matching {
    /// An empty matching.
    pub fn new() -> (r: Self)
        ensures
            r.index_pairs@.len() == 0,
    {
        Self { index_pairs: Vec::new() }
    }

    /// A matching holding exactly the given pairs.
    pub fn from_pairs(pairs: Vec<(usize, usize)>) -> (r: Self)
        ensures
            r.index_pairs@ == pairs@,
    {
        Self { index_pairs: pairs }
    }

    /// The pairs, in order.
    pub fn into_iter(self) -> (r: Vec<(usize, usize)>)
        ensures
            r@ == self.index_pairs@,
    {
        self.index_pairs
    }

    /// Pair each row index with the column the assignment solver chose for
    /// it.
    pub fn from_hungarian_result(hungarian_result: Vec<Option<usize>>) -> (r: Self)
        requires
            forall|i: int|
                0 <= i < hungarian_result@.len() ==> (#[trigger] hungarian_result@[i]) is Some,
        ensures
            r.index_pairs@.len() == hungarian_result@.len(),
            forall|k: int|
                0 <= k < hungarian_result@.len() ==> #[trigger] r.index_pairs@[k] == (
                    k as usize,
                    hungarian_result@[k].unwrap(),
                ),
    {
        let mut pairs: Vec<(usize, usize)> = Vec::new();
        let n = hungarian_result.len();
        let mut i: usize = 0;
        while i < n
            invariant
                n == hungarian_result@.len(),
                forall|k: int|
                    0 <= k < hungarian_result@.len() ==> (#[trigger] hungarian_result@[k]) is Some,
                pairs@.len() == i,
                i <= n,
                forall|k: int|
                    0 <= k < i ==> #[trigger] pairs@[k] == (
                        k as usize,
                        hungarian_result@[k].unwrap(),
                    ),
            decreases n - i,
        {
            let j = hungarian_result[i].unwrap();
            pairs.push((i, j));
            i = i + 1;
        }
        Self { index_pairs: pairs }
    }
}

/// A column choice per row: `n` columns, each below `n`, all distinct.
pub open spec fn cols_valid(c: Seq<usize>, n: nat) -> bool {
    &&& c.len() == n
    &&& forall|k: int| 0 <= k < n ==> (#[trigger] c[k]) < n
    &&& forall|k1: int, k2: int| 0 <= k1 < k2 < n ==> c[k1] != c[k2]
}

/// Total cost of choosing column `c[k]` in row `k` of the `n` by `n`
/// row-major matrix `m`.
pub open spec fn cols_cost(m: Seq<u64>, n: nat, c: Seq<usize>) -> int
    decreases c.len(),
{
    if c.len() == 0 {
        0
    } else {
        cols_cost(m, n, c.drop_last()) + m[(c.len() - 1) * n + c[c.len() - 1]]
    }
}

/// The columns chosen by a solver result with every row assigned.
pub open spec fn unwrap_cols(r: Seq<Option<usize>>) -> Seq<usize> {
    Seq::new(r.len(), |i: int| r[i].unwrap())
}

/// Relies on `hungarian::minimize`: for a square nonnegative cost matrix it
/// returns, per row, the column of a minimum-total-cost assignment; every
/// row is assigned, and no two rows share a column.
///
/// The solver adjusts matrix entries with plain `u64` arithmetic, so entry
/// magnitudes must leave room for its row and column reductions; with
/// entries below `2^32` and at most 4096 rows every intermediate value
/// stays far below the `u64` range.
#[verifier::external_body]
fn hungarian_minimize(matrix: &Vec<u64>, n: usize) -> (r: Vec<Option<usize>>)
    requires
        matrix@.len() == n * n,
        1 <= n <= 4096,
        forall|k: int| 0 <= k < matrix@.len() ==> #[trigger] matrix@[k] <= 0x1_0000_0000u64,
    ensures
        r@.len() == n,
        forall|i: int| 0 <= i < n ==> (#[trigger] r@[i]) is Some,
        cols_valid(unwrap_cols(r@), n as nat),
        forall|c: Seq<usize>|
            #[trigger] cols_valid(c, n as nat) ==> cols_cost(matrix@, n as nat, unwrap_cols(r@))
                <= cols_cost(matrix@, n as nat, c),
{
    hungarian::minimize(matrix.as_slice(), n, n)
}

/// The pairwise distances between the points of two equally sized match
/// item sets, row-major, truncated to whole fixed-point units.
pub struct SquareDistanceMatrix {
    pub n: usize,
    pub distances: Vec<u64>,
}

impl SquareDistanceMatrix {
    /// The matrix is square, small enough for the solver, and its entries
    /// are within the solver's safe magnitude.
    pub open spec fn wf(self) -> bool {
        &&& self.distances@.len() == self.n * self.n
        &&& self.n <= 4096
        &&& forall|k: int|
            0 <= k < self.distances@.len() ==> #[trigger] self.distances@[k] <= 0x1_0000_0000u64
    }

    /// Fill the matrix with the distances from each item of `set1` to each
    /// item of `set2`.
    pub fn from_two_sets(set1: &MatchItemSet, set2: &MatchItemSet) -> (r: Self)
        requires
            set1.items@.len() == set2.items@.len(),
            set1.items@.len() <= 4096,
            set1.bounded(),
            set2.bounded(),
        ensures
            r.n == set1.items@.len(),
            r.wf(),
            forall|i: int, j: int|
                0 <= i < r.n && 0 <= j < r.n ==> #[trigger] r.distances@[i * r.n + j] == dist_spec(
                    set1.items@[i].point,
                    set2.items@[j].point,
                ),
    {
        let n = set1.len();
        let mut distances: Vec<u64> = Vec::new();
        let mut i: usize = 0;
        while i < n
            invariant
                n == set1.items@.len(),
                n == set2.items@.len(),
                n <= 4096,
                set1.bounded(),
                set2.bounded(),
                i <= n,
                distances@.len() == i * n,
                forall|k: int| 0 <= k < distances@.len() ==> #[trigger] distances@[k] <= 0x1_0000_0000u64,
                forall|i0: int, j0: int|
                    0 <= i0 < i && 0 <= j0 < n ==> #[trigger] distances@[i0 * n + j0] == dist_spec(
                        set1.items@[i0].point,
                        set2.items@[j0].point,
                    ),
            decreases n - i,
        {
            let a = set1.get(i);
            let mut j: usize = 0;
            while j < n
                invariant
                    n == set1.items@.len(),
                    n == set2.items@.len(),
                    n <= 4096,
                    set1.bounded(),
                    set2.bounded(),
                    i < n,
                    a == set1.items@[i as int],
                    j <= n,
                    distances@.len() == i * n + j,
                    forall|k: int|
                        0 <= k < distances@.len() ==> #[trigger] distances@[k] <= 0x1_0000_0000u64,
                    forall|i0: int, j0: int|
                        0 <= i0 < i && 0 <= j0 < n ==> #[trigger] distances@[i0 * n + j0]
                            == dist_spec(set1.items@[i0].point, set2.items@[j0].point),
                    forall|j0: int|
                        0 <= j0 < j ==> #[trigger] distances@[i * n + j0] == dist_spec(
                            set1.items@[i as int].point,
                            set2.items@[j0].point,
                        ),
                decreases n - j,
            {
                let b = set2.get(j);
                proof {
                    lemma_dist_bound(a.point, b.point, SPLINE_LIMIT as int);
                    assert(4 * SPLINE_LIMIT as int <= 0x1_0000_0000int) by (nonlinear_arith)
                        requires
                            SPLINE_LIMIT == (2 * crate::rect::PIXEL_LIMIT + 2)
                                * crate::fixed::SCALE,
                            crate::rect::PIXEL_LIMIT == 0x4000,
                            crate::fixed::SCALE == 1000,
                    ;
                }
                let d = a.point.distance_to(b.point);
                let ghost old_ds = distances@;
                distances.push(d as u64);
                proof {
                    assert(i * n + j + 1 == i * n + (j + 1));
                    assert forall|i0: int, j0: int| 0 <= i0 < i && 0 <= j0 < n implies #[trigger]
                        distances@[i0 * n + j0] == dist_spec(
                        set1.items@[i0].point,
                        set2.items@[j0].point,
                    ) by {
                        vstd::arithmetic::mul::lemma_mul_inequality(i0 + 1, i as int, n as int);
                        assert((i0 + 1) * n == i0 * n + n) by (nonlinear_arith);
                        assert(i0 * n + j0 < old_ds.len());
                        assert(distances@[i0 * n + j0] == old_ds[i0 * n + j0]);
                    };
                }
                j = j + 1;
            }
            proof {
                assert(i * n + n == (i + 1) * n) by (nonlinear_arith);
            }
            i = i + 1;
        }
        proof {
            assert(n * n == n * n);
        }
        Self { n, distances }
    }

    /// Solve the assignment problem on this matrix: the result pairs each
    /// row with a distinct column, and among all such assignments the sum
    /// of the selected distances is minimal.
    pub fn into_matching(self) -> (r: Matching)
        requires
            self.wf(),
            self.n >= 1,
        ensures
            r.index_pairs@.len() == self.n,
            forall|k: int|
                0 <= k < self.n ==> (#[trigger] r.index_pairs@[k]).0 == k,
            cols_valid(
                r.index_pairs@.map_values(|p: (usize, usize)| p.1),
                self.n as nat,
            ),
            forall|c: Seq<usize>|
                #[trigger] cols_valid(c, self.n as nat) ==> cols_cost(
                    self.distances@,
                    self.n as nat,
                    r.index_pairs@.map_values(|p: (usize, usize)| p.1),
                ) <= cols_cost(self.distances@, self.n as nat, c),
    {
        let n = self.n;
        let hungarian_result = hungarian_minimize(&self.distances, n);
        let m = Matching::from_hungarian_result(hungarian_result);
        proof {
            let ghost hr = unwrap_cols(hungarian_result@);
            let ghost mc = m.index_pairs@.map_values(|p: (usize, usize)| p.1);
            assert(mc =~= hr);
        }
        m
    }
}

} // verus!
