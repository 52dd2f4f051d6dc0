//! Enumeration of candidate bipartitions of the match items and, for each,
//! the minimum-sum pairing; the resulting matchings are deduplicated as sets
//! of unordered pairs and ordered by a directional variance score.
//!
//! A matching is valid when every id appears in exactly one slot of one
//! pair; [`slot_count`] counts the slots holding an id and the lemmas here
//! let that count be tracked through construction and reordering.

use vstd::prelude::*;
use crate::fixed::{SCALE, tdiv, tdiv64, lemma_tdiv_abs};
use crate::point::{Point2, within, dist_spec, unit_x, unit_y, lemma_dist_bound};
use crate::matcher_helper::{MatchItem, MatchItemSet, Matching, SquareDistanceMatrix, cols_valid,
    item_bounded};
use crate::spline::SPLINE_LIMIT;

use permutator::Combination;

verus! {

/// How many slots of the pair `p` hold `id`.
pub open spec fn pair_slots(p: (usize, usize), id: int) -> int {
    (if p.0 == id {
        1int
    } else {
        0int
    }) + (if p.1 == id {
        1int
    } else {
        0int
    })
}

/// How many slots of all the pairs hold `id`.
pub open spec fn slot_count(pairs: Seq<(usize, usize)>, id: int) -> int
    decreases pairs.len(),
{
    if pairs.len() == 0 {
        0
    } else {
        slot_count(pairs.drop_last(), id) + pair_slots(pairs.last(), id)
    }
}

/// A perfect pairing of the ids `0 .. n`: `n / 2` pairs of ids below `n`,
/// and every such id fills exactly one slot.
pub open spec fn matching_valid(pairs: Seq<(usize, usize)>, n: nat) -> bool {
    &&& pairs.len() == n / 2
    &&& forall|k: int| 0 <= k < pairs.len() ==> (#[trigger] pairs[k]).0 < n && pairs[k].1 < n
    &&& forall|id: int| 0 <= id < n ==> slot_count(pairs, id) == 1
}

/// Appending a pair adds its contribution to every count.
pub proof fn lemma_slot_count_push(s: Seq<(usize, usize)>, e: (usize, usize), id: int)
    ensures
        slot_count(s.push(e), id) == slot_count(s, id) + pair_slots(e, id),
{
    assert(s.push(e).drop_last() =~= s);
    assert(s.push(e).last() == e);
}

/// Removing a pair takes away its contribution from every count.
pub proof fn lemma_slot_count_remove(s: Seq<(usize, usize)>, j: int, id: int)
    requires
        0 <= j < s.len(),
    ensures
        slot_count(s.remove(j), id) == slot_count(s, id) - pair_slots(s[j], id),
    decreases s.len(),
{
    if j == s.len() - 1 {
        assert(s.remove(j) =~= s.drop_last());
    } else {
        assert(s.remove(j).drop_last() =~= s.drop_last().remove(j));
        assert(s.remove(j).last() == s.last());
        lemma_slot_count_remove(s.drop_last(), j, id);
    }
}

/// If no pair holds `id`, the count is zero.
pub proof fn lemma_slot_count_zero(s: Seq<(usize, usize)>, id: int)
    requires
        forall|k: int| 0 <= k < s.len() ==> pair_slots(#[trigger] s[k], id) == 0,
    ensures
        slot_count(s, id) == 0,
    decreases s.len(),
{
    if s.len() > 0 {
        lemma_slot_count_zero(s.drop_last(), id);
    }
}

/// If exactly one position holds `id` in exactly one slot, the count is one.
pub proof fn lemma_slot_count_single(s: Seq<(usize, usize)>, id: int, k0: int)
    requires
        0 <= k0 < s.len(),
        pair_slots(s[k0], id) == 1,
        forall|k: int| 0 <= k < s.len() && k != k0 ==> pair_slots(#[trigger] s[k], id) == 0,
    ensures
        slot_count(s, id) == 1,
    decreases s.len(),
{
    if k0 == s.len() - 1 {
        lemma_slot_count_zero(s.drop_last(), id);
    } else {
        lemma_slot_count_single(s.drop_last(), id, k0);
    }
}

/// Some position of `c` holds the value `v`.
pub open spec fn takes_value(c: Seq<usize>, v: int) -> bool {
    exists|k: int| 0 <= k < c.len() && c[k] == v
}

/// A sequence of `m` distinct values below `m` takes every value below `m`.
pub proof fn lemma_distinct_below_is_surjective(c: Seq<usize>, m: nat)
    requires
        c.len() == m,
        forall|k: int| 0 <= k < m ==> (#[trigger] c[k]) < m,
        forall|k1: int, k2: int| 0 <= k1 < k2 < m ==> c[k1] != c[k2],
    ensures
        forall|v: int| 0 <= v < m ==> #[trigger] takes_value(c, v),
{
    broadcast use vstd::seq_lib::seq_to_set_is_finite;

    let ci = Seq::<int>::new(m, |k: int| c[k] as int);
    assert(ci.no_duplicates()) by {
        assert forall|k1: int, k2: int| 0 <= k1 < k2 < m implies ci[k1] != ci[k2] by {
            assert(c[k1] != c[k2]);
        };
    };
    ci.unique_seq_to_set();
    let range = vstd::set_lib::set_int_range(0, m as int);
    vstd::set_lib::lemma_int_range(0, m as int);
    assert(ci.to_set().subset_of(range)) by {
        assert forall|v: int| ci.to_set().contains(v) implies range.contains(v) by {
            assert(ci.contains(v));
            let k = choose|k: int| 0 <= k < ci.len() && ci[k] == v;
            assert(0 <= c[k] < m);
        };
    };
    vstd::set_lib::lemma_subset_equality(ci.to_set(), range);
    assert forall|v: int| 0 <= v < m implies #[trigger] takes_value(c, v) by {
        assert(range.contains(v));
        assert(ci.to_set().contains(v));
        assert(ci.contains(v));
        let k = choose|k: int| 0 <= k < ci.len() && ci[k] == v;
        assert(0 <= k < c.len() && c[k] == v);
    };
}

/// A positive slot count exhibits a pair holding the id.
pub proof fn lemma_positive_count_has_position(s: Seq<(usize, usize)>, id: int)
    requires
        slot_count(s, id) > 0,
    ensures
        exists|k: int| 0 <= k < s.len() && ((#[trigger] s[k]).0 == id || s[k].1 == id),
    decreases s.len(),
{
    if pair_slots(s.last(), id) > 0 {
        assert(s[s.len() - 1].0 == id || s[s.len() - 1].1 == id);
    } else {
        lemma_positive_count_has_position(s.drop_last(), id);
        let k = choose|k: int|
            0 <= k < s.drop_last().len() && ((#[trigger] s.drop_last()[k]).0 == id
                || s.drop_last()[k].1 == id);
        assert(s[k].0 == id || s[k].1 == id);
    }
}

/// Every id below `n` is matched by some pair of a valid matching: no id
/// is left unmatched, and by the unit slot counts none appears twice.
pub proof fn lemma_valid_matching_covers(pairs: Seq<(usize, usize)>, n: nat, id: int)
    requires
        matching_valid(pairs, n),
        0 <= id < n,
    ensures
        exists|k: int| 0 <= k < pairs.len() && ((#[trigger] pairs[k]).0 == id || pairs[k].1 == id),
{
    lemma_positive_count_has_position(pairs, id);
}

/// `e` is one of the pairs of `s`.
pub open spec fn appears_in(e: (usize, usize), s: Seq<(usize, usize)>) -> bool {
    exists|j: int| 0 <= j < s.len() && s[j] == e
}

/// Reorder the pairs of a matching ascending by first id, by repeatedly
/// extracting the least remaining pair. Every id keeps its slot count.
fn sort_pairs_by_first(pairs: Vec<(usize, usize)>) -> (r: Vec<(usize, usize)>)
    ensures
        r@.len() == pairs@.len(),
        forall|id: int| slot_count(r@, id) == slot_count(pairs@, id),
        forall|k: int| 0 <= k < r@.len() ==> appears_in(#[trigger] r@[k], pairs@),
        forall|k1: int, k2: int| 0 <= k1 < k2 < r@.len() ==> (#[trigger] r@[k1]).0 <= (#[trigger] r@[k2]).0,
{
    let ghost orig = pairs@;
    let mut src = pairs;
    let mut out: Vec<(usize, usize)> = Vec::new();
    while src.len() > 0
        invariant
            out@.len() + src@.len() == orig.len(),
            forall|id: int|
                #[trigger] slot_count(out@, id) + slot_count(src@, id) == slot_count(orig, id),
            forall|k: int| 0 <= k < out@.len() ==> appears_in(#[trigger] out@[k], orig),
            forall|j: int| 0 <= j < src@.len() ==> appears_in(#[trigger] src@[j], orig),
            forall|k1: int, k2: int|
                0 <= k1 < k2 < out@.len() ==> (#[trigger] out@[k1]).0 <= (#[trigger] out@[k2]).0,
            forall|k: int, j: int|
                0 <= k < out@.len() && 0 <= j < src@.len() ==> (#[trigger] out@[k]).0 <= (
                #[trigger] src@[j]).0,
        decreases src@.len(),
    {
        let mut best: usize = 0;
        let mut t: usize = 1;
        while t < src.len()
            invariant
                src@.len() > 0,
                best < src@.len(),
                t <= src@.len(),
                forall|j: int| 0 <= j < t ==> (#[trigger] src@[j]).0 >= src@[best as int].0,
            decreases src@.len() - t,
        {
            if src[t].0 < src[best].0 {
                best = t;
            }
            t = t + 1;
        }
        let ghost src_before = src@;
        let e = src.remove(best);
        proof {
            assert forall|id: int|
                slot_count(out@.push(e), id) + slot_count(src@, id) == slot_count(
                    orig,
                    id,
                ) by {
                lemma_slot_count_push(out@, e, id);
                lemma_slot_count_remove(src_before, best as int, id);
            };
        }
        out.push(e);
    }
    out
}


/// Number of `r`-element subsets of an `n`-element set, by Pascal's rule.
pub open spec fn binom(n: nat, r: nat) -> nat
    decreases n,
{
    if r == 0 {
        1
    } else if n == 0 {
        0
    } else {
        binom((n - 1) as nat, (r - 1) as nat) + binom((n - 1) as nat, r)
    }
}

/// Every subset count with `r <= n` is at least one.
proof fn lemma_binom_pos(n: nat, r: nat)
    requires
        r <= n,
    ensures
        binom(n, r) >= 1,
    decreases n,
{
    if r != 0 && n != 0 {
        lemma_binom_pos((n - 1) as nat, (r - 1) as nat);
    }
}

/// A proper middle subset size has at least two subsets.
proof fn lemma_binom_at_least_two(n: nat, r: nat)
    requires
        1 <= r < n,
    ensures
        binom(n, r) >= 2,
{
    lemma_binom_pos((n - 1) as nat, (r - 1) as nat);
    lemma_binom_pos((n - 1) as nat, r);
}

/// Every pair lists its smaller id first.
pub open spec fn pairs_normalized(p: Seq<(usize, usize)>) -> bool {
    forall|k: int| 0 <= k < p.len() ==> (#[trigger] p[k]).0 <= p[k].1
}

/// No two matchings in the list have the same pair list.
pub open spec fn matchings_distinct(s: Seq<Matching>) -> bool {
    forall|i: int, j: int|
        0 <= i < j < s.len() ==> (#[trigger] s[i]).index_pairs@ != (#[trigger] s[j]).index_pairs@
}

/// No two scored matchings in the list have the same pair list.
pub open spec fn scored_distinct(s: Seq<(Matching, i64)>) -> bool {
    forall|i: int, j: int|
        0 <= i < j < s.len() ==> (#[trigger] s[i]).0.index_pairs@ != (
        #[trigger] s[j]).0.index_pairs@
}

/// The ids of the items, in order.
pub open spec fn ids_of(items: Seq<MatchItem>) -> Seq<usize> {
    Seq::new(items.len(), |k: int| items[k].id)
}

/// Relies on permutator's `Combination` trait (`LargeCombinationIterator`):
/// enumerates all `n` choose `r` combinations of the indices `0 .. n`. Each
/// emitted combination holds strictly increasing indices below `n`. The
/// iterator's length bookkeeping multiplies factorial quotients, which stays
/// within machine range for `n` at most 20.
#[verifier::external_body]
fn combinations_of_indices(n: usize, r: usize) -> (res: Vec<Vec<usize>>)
    requires
        1 <= r <= n,
        n <= 20,
    ensures
        res@.len() == binom(n as nat, r as nat),
        forall|k: int| 0 <= k < res@.len() ==> (#[trigger] res@[k])@.len() == r,
        forall|k: int, t: int|
            0 <= k < res@.len() && 0 <= t < r ==> #[trigger] res@[k]@[t] < n,
        forall|k: int, t1: int, t2: int|
            0 <= k < res@.len() && 0 <= t1 < t2 < r ==> #[trigger] res@[k]@[t1] < #[trigger] res@[k]@[t2],
{
    let domain: Vec<usize> = (0..n).collect();
    domain.combination(r).map(|c| c.into_iter().copied().collect()).collect()
}

/// Split the items into those whose index is in `combo` and the rest,
/// preserving order. Ids on the left are exactly the combination's indices;
/// ids on the right are the complement, ascending.
fn split_by_combo(items: &MatchItemSet, combo: &Vec<usize>) -> (r: (MatchItemSet, MatchItemSet))
    requires
        items.ids_sequential(),
        items.bounded(),
        combo@.len() <= items.items@.len(),
        forall|t: int| 0 <= t < combo@.len() ==> #[trigger] combo@[t] < items.items@.len(),
        forall|t1: int, t2: int| 0 <= t1 < t2 < combo@.len() ==> combo@[t1] < combo@[t2],
    ensures
        r.0.items@.len() == combo@.len(),
        r.1.items@.len() == items.items@.len() - combo@.len(),
        r.0.bounded(),
        r.1.bounded(),
        forall|k: int| 0 <= k < combo@.len() ==> (#[trigger] r.0.items@[k]).id == combo@[k],
        forall|j: int|
            0 <= j < r.1.items@.len() ==> (#[trigger] r.1.items@[j]).id < items.items@.len()
                && !takes_value(combo@, r.1.items@[j].id as int),
        forall|j1: int, j2: int|
            0 <= j1 < j2 < r.1.items@.len() ==> r.1.items@[j1].id < r.1.items@[j2].id,
        forall|v: int|
            0 <= v < items.items@.len() && !takes_value(combo@, v) ==> takes_value(
                ids_of(r.1.items@),
                v,
            ),
{
    let n = items.len();
    let rr = combo.len();
    let mut set1 = MatchItemSet::new();
    let mut set2 = MatchItemSet::new();
    let mut t: usize = 0;
    let mut i: usize = 0;
    while i < n
        invariant
            n == items.items@.len(),
            rr == combo@.len(),
            items.ids_sequential(),
            items.bounded(),
            forall|t0: int| 0 <= t0 < rr ==> #[trigger] combo@[t0] < n,
            forall|t1: int, t2: int| 0 <= t1 < t2 < rr ==> combo@[t1] < combo@[t2],
            i <= n,
            t <= rr,
            t <= i,
            set1.items@.len() == t,
            set2.items@.len() == i - t,
            set1.bounded(),
            set2.bounded(),
            forall|t0: int| 0 <= t0 < t ==> #[trigger] combo@[t0] < i,
            t < rr ==> combo@[t as int] >= i,
            forall|k: int| 0 <= k < t ==> (#[trigger] set1.items@[k]).id == combo@[k],
            forall|j: int|
                0 <= j < set2.items@.len() ==> (#[trigger] set2.items@[j]).id < i
                    && !takes_value(combo@, set2.items@[j].id as int),
            forall|j1: int, j2: int|
                0 <= j1 < j2 < set2.items@.len() ==> set2.items@[j1].id < set2.items@[j2].id,
            forall|v: int|
                0 <= v < i && !takes_value(combo@, v) ==> takes_value(ids_of(set2.items@), v),
        decreases n - i,
    {
        let it = items.get(i);
        if t < rr && combo[t] == i {
            set1.push_as_is(it);
            t = t + 1;
        } else {
            proof {
                assert forall|t0: int| 0 <= t0 < rr implies #[trigger] combo@[t0] != i by {
                    if t0 < t {
                        assert(combo@[t0] < i);
                    } else {
                        assert(t < rr);
                        assert(combo@[t as int] > i || combo@[t as int] < i || combo@[t as int]
                            == i);
                        assert(combo@[t as int] != i);
                        assert(combo@[t as int] >= i);
                        if t0 > t {
                            assert(combo@[t as int] < combo@[t0]);
                        }
                    }
                };
                assert(!takes_value(combo@, i as int));
            }
            let ghost prev = set2.items@;
            set2.push_as_is(it);
            proof {
                assert forall|v: int|
                    0 <= v < i + 1 && !takes_value(combo@, v) implies takes_value(
                    ids_of(set2.items@),
                    v,
                ) by {
                    if v < i {
                        assert(takes_value(ids_of(prev), v));
                        let j = choose|j: int| 0 <= j < ids_of(prev).len() && ids_of(prev)[j] == v;
                        assert(ids_of(set2.items@)[j] == v);
                    } else {
                        assert(set2.items@[set2.items@.len() - 1].id == i);
                        assert(ids_of(set2.items@)[set2.items@.len() - 1] == i);
                    }
                };
            }
        }
        i = i + 1;
    }
    proof {
        if t < rr {
            assert(combo@[t as int] >= n);
            assert(combo@[t as int] < n);
        }
    }
    (set1, set2)
}

/// Sum of the direction x components.
pub open spec fn dir_sum_x(items: Seq<MatchItem>) -> int
    decreases items.len(),
{
    if items.len() == 0 {
        0
    } else {
        dir_sum_x(items.drop_last()) + items.last().direction.x
    }
}

/// Sum of the direction y components.
pub open spec fn dir_sum_y(items: Seq<MatchItem>) -> int
    decreases items.len(),
{
    if items.len() == 0 {
        0
    } else {
        dir_sum_y(items.drop_last()) + items.last().direction.y
    }
}

/// The normalized mean direction of the items.
pub open spec fn avg_dir(items: Seq<MatchItem>) -> Point2
    recommends
        items.len() > 0,
{
    let m = Point2 {
        x: tdiv(dir_sum_x(items), items.len() as int) as i64,
        y: tdiv(dir_sum_y(items), items.len() as int) as i64,
    };
    Point2 { x: unit_x(m) as i64, y: unit_y(m) as i64 }
}

/// Sum of the distances from each normalized direction to `avg`.
pub open spec fn var_sum(items: Seq<MatchItem>, avg: Point2) -> int
    decreases items.len(),
{
    if items.len() == 0 {
        0
    } else {
        var_sum(items.drop_last(), avg) + dist_spec(
            Point2 {
                x: unit_x(items.last().direction) as i64,
                y: unit_y(items.last().direction) as i64,
            },
            avg,
        )
    }
}

/// Directional variance of one side: mean distance of the normalized
/// directions from their normalized mean, zero for a single item.
pub open spec fn side_variance(items: Seq<MatchItem>) -> int
    recommends
        items.len() > 0,
{
    if items.len() <= 1 {
        0
    } else {
        tdiv(var_sum(items, avg_dir(items)), items.len() - 1)
    }
}

/// Directional variance of one side, computed exactly as [`side_variance`]
/// states it.
fn side_variance_exec(set: &MatchItemSet) -> (r: i64)
    requires
        set.bounded(),
        1 <= set.items@.len() <= 4096,
    ensures
        r == side_variance(set.items@),
        0 <= r <= 4096 * 4 * SCALE,
{
    let n = set.len();
    if n == 1 {
        return 0;
    }
    let mut sx: i64 = 0;
    let mut sy: i64 = 0;
    let mut k: usize = 0;
    while k < n
        invariant
            n == set.items@.len(),
            n <= 4096,
            set.bounded(),
            k <= n,
            sx == dir_sum_x(set.items@.take(k as int)),
            sy == dir_sum_y(set.items@.take(k as int)),
            -((k as int) * SPLINE_LIMIT) <= sx <= (k as int) * SPLINE_LIMIT,
            -((k as int) * SPLINE_LIMIT) <= sy <= (k as int) * SPLINE_LIMIT,
        decreases n - k,
    {
        let it = set.get(k);
        proof {
            assert(item_bounded(set.items@[k as int]));
            assert(set.items@.take(k as int + 1).drop_last() =~= set.items@.take(k as int));
            assert(set.items@.take(k as int + 1).last() == set.items@[k as int]);
            assert((k as int + 1) * SPLINE_LIMIT == (k as int) * SPLINE_LIMIT + SPLINE_LIMIT)
                by (nonlinear_arith);
            assert((k as int + 1) * SPLINE_LIMIT <= 4096 * SPLINE_LIMIT) by (nonlinear_arith)
                requires
                    k as int + 1 <= 4096,
            ;
            assert(4096 * SPLINE_LIMIT + SPLINE_LIMIT < i64::MAX) by (nonlinear_arith);
        }
        sx = sx + it.direction.x;
        sy = sy + it.direction.y;
        k = k + 1;
    }
    proof {
        assert(set.items@.take(n as int) =~= set.items@);
        assert((n as int) * SPLINE_LIMIT <= 4096 * SPLINE_LIMIT) by (nonlinear_arith)
            requires
                n <= 4096,
        ;
        assert(4096 * SPLINE_LIMIT + SPLINE_LIMIT < i64::MAX) by (nonlinear_arith);
        lemma_tdiv_abs(sx as int, n as int);
        lemma_tdiv_abs(sy as int, n as int);
    }
    let ax = tdiv64(sx, n as i64);
    let ay = tdiv64(sy, n as i64);
    let avg = Point2 { x: ax, y: ay }.get_normalized();
    proof {
        assert(avg == avg_dir(set.items@));
    }
    let mut acc: i64 = 0;
    let mut k2: usize = 0;
    while k2 < n
        invariant
            n == set.items@.len(),
            n <= 4096,
            set.bounded(),
            avg == avg_dir(set.items@),
            within(avg, SCALE as int),
            k2 <= n,
            acc == var_sum(set.items@.take(k2 as int), avg),
            0 <= acc <= (k2 as int) * (4 * SCALE as int),
        decreases n - k2,
    {
        let it = set.get(k2);
        let u = it.direction.get_normalized();
        proof {
            assert(item_bounded(set.items@[k2 as int]));
            lemma_dist_bound(u, avg, SCALE as int);
            assert(set.items@.take(k2 as int + 1).drop_last() =~= set.items@.take(k2 as int));
            assert(set.items@.take(k2 as int + 1).last() == set.items@[k2 as int]);
            assert((k2 as int + 1) * (4 * SCALE as int) == (k2 as int) * (4 * SCALE as int) + 4
                * SCALE as int) by (nonlinear_arith);
            assert((k2 as int + 1) * (4 * SCALE as int) <= 4096 * (4 * SCALE as int))
                by (nonlinear_arith)
                requires
                    k2 as int + 1 <= 4096,
            ;
        }
        let d = u.distance_to(avg);
        acc = acc + d;
        k2 = k2 + 1;
    }
    proof {
        assert(set.items@.take(n as int) =~= set.items@);
        assert((n as int) * (4 * SCALE as int) <= 4096 * 4 * SCALE as int) by (nonlinear_arith)
            requires
                n <= 4096,
        ;
        lemma_tdiv_abs(acc as int, n as int - 1);
    }
    tdiv64(acc, n as i64 - 1)
}

/// Given a set of an even number of points with direction vectors at those
/// points, find complete disjoint pair matchings of the points.
pub struct Matcher;

impl Matcher {
    /// Build the matching for one bipartition: the minimum-sum assignment
    /// between the two sides, as normalized id pairs sorted by first id,
    /// together with the bipartition's directional variance score.
    fn build_matching_for_combo(items: &MatchItemSet, combo: &Vec<usize>) -> (r: (Matching, i64))
        requires
            items.ids_sequential(),
            items.bounded(),
            items.items@.len() % 2 == 0,
            2 <= items.items@.len() <= 4096,
            combo@.len() == items.items@.len() / 2,
            forall|t: int| 0 <= t < combo@.len() ==> #[trigger] combo@[t] < items.items@.len(),
            forall|t1: int, t2: int| 0 <= t1 < t2 < combo@.len() ==> combo@[t1] < combo@[t2],
        ensures
            matching_valid(r.0.index_pairs@, items.items@.len() as nat),
            pairs_normalized(r.0.index_pairs@),
    {
        let n = items.len();
        let rr = combo.len();
        let (set1, set2) = split_by_combo(items, combo);
        let ghost ids2 = ids_of(set2.items@);
        let variance = Self::calculate_average_variance(&set1, &set2);
        let dm = SquareDistanceMatrix::from_two_sets(&set1, &set2);
        let im = dm.into_matching();
        let ghost cols = im.index_pairs@.map_values(|p: (usize, usize)| p.1);
        let ipairs = im.into_iter();
        let mut pairs: Vec<(usize, usize)> = Vec::new();
        let mut k: usize = 0;
        while k < rr
            invariant
                n == items.items@.len(),
                rr == combo@.len(),
                rr == set1.items@.len(),
                rr == set2.items@.len(),
                rr >= 1,
                ipairs@.len() == rr,
                cols == ipairs@.map_values(|p: (usize, usize)| p.1),
                cols_valid(cols, rr as nat),
                forall|k0: int| 0 <= k0 < rr ==> (#[trigger] ipairs@[k0]).0 == k0,
                forall|k0: int| 0 <= k0 < rr ==> (#[trigger] set1.items@[k0]).id == combo@[k0],
                forall|t0: int| 0 <= t0 < rr ==> #[trigger] combo@[t0] < n,
                forall|t1: int, t2: int| 0 <= t1 < t2 < rr ==> combo@[t1] < combo@[t2],
                ids2 == ids_of(set2.items@),
                forall|j: int|
                    0 <= j < rr ==> (#[trigger] set2.items@[j]).id < n && !takes_value(
                        combo@,
                        set2.items@[j].id as int,
                    ),
                forall|j1: int, j2: int|
                    0 <= j1 < j2 < rr ==> set2.items@[j1].id < set2.items@[j2].id,
                forall|v: int|
                    0 <= v < n && !takes_value(combo@, v) ==> takes_value(ids2, v),
                k <= rr,
                pairs@.len() == k,
                pairs_normalized(pairs@),
                forall|k0: int|
                    0 <= k0 < k ==> (#[trigger] pairs@[k0] == (
                        combo@[k0],
                        set2.items@[cols[k0] as int].id,
                    ) || pairs@[k0] == (set2.items@[cols[k0] as int].id, combo@[k0])),
            decreases rr - k,
        {
            let (row, col) = ipairs[k];
            proof {
                assert(ipairs@[k as int].0 == k);
                assert(cols[k as int] == ipairs@[k as int].1);
                assert(cols[k as int] < rr);
            }
            let a = set1.get(row).id;
            let b = set2.get(col).id;
            if a <= b {
                pairs.push((a, b));
            } else {
                pairs.push((b, a));
            }
            k = k + 1;
        }
        proof {
            lemma_distinct_below_is_surjective(cols, rr as nat);
            assert forall|id: int| 0 <= id < n implies slot_count(pairs@, id) == 1 by {
                if takes_value(combo@, id) {
                    let k0 = choose|k0: int| 0 <= k0 < combo@.len() && combo@[k0] == id;
                    assert(pair_slots(pairs@[k0], id) == 1) by {
                        assert(!takes_value(combo@, set2.items@[cols[k0] as int].id as int));
                        assert(set2.items@[cols[k0] as int].id != id);
                    };
                    assert forall|k1: int| 0 <= k1 < pairs@.len() && k1 != k0 implies pair_slots(
                        #[trigger] pairs@[k1],
                        id,
                    ) == 0 by {
                        if k1 < k0 {
                            assert(combo@[k1] < combo@[k0]);
                        } else {
                            assert(combo@[k0] < combo@[k1]);
                        }
                        assert(combo@[k1] != id);
                        assert(!takes_value(combo@, set2.items@[cols[k1] as int].id as int));
                        assert(set2.items@[cols[k1] as int].id != id);
                    };
                    lemma_slot_count_single(pairs@, id, k0);
                } else {
                    assert(takes_value(ids2, id));
                    let j0 = choose|j0: int| 0 <= j0 < ids2.len() && ids2[j0] == id;
                    assert(set2.items@[j0].id == id);
                    assert(takes_value(cols, j0));
                    let k0 = choose|k0: int| 0 <= k0 < cols.len() && cols[k0] == j0;
                    assert(pair_slots(pairs@[k0], id) == 1) by {
                        assert(!takes_value(combo@, id));
                        assert forall|t0: int| 0 <= t0 < combo@.len() implies #[trigger] combo@[t0]
                            != id by {
                            if combo@[t0] == id {
                                assert(takes_value(combo@, id));
                            }
                        };
                    };
                    assert forall|k1: int| 0 <= k1 < pairs@.len() && k1 != k0 implies pair_slots(
                        #[trigger] pairs@[k1],
                        id,
                    ) == 0 by {
                        assert(cols[k1] != cols[k0]);
                        let j1 = cols[k1] as int;
                        assert(0 <= j1 < rr);
                        if j1 < j0 {
                            assert(set2.items@[j1].id < set2.items@[j0].id);
                        } else {
                            assert(set2.items@[j0].id < set2.items@[j1].id);
                        }
                        assert(set2.items@[j1].id != id);
                        if combo@[k1] == id {
                            assert(takes_value(combo@, id));
                        }
                        assert(combo@[k1] != id);
                    };
                    lemma_slot_count_single(pairs@, id, k0);
                }
            };
        }
        let sorted = sort_pairs_by_first(pairs);
        proof {
            assert forall|k0: int| 0 <= k0 < sorted@.len() implies (#[trigger] sorted@[k0]).0 < n
                && sorted@[k0].1 < n && sorted@[k0].0 <= sorted@[k0].1 by {
                assert(appears_in(sorted@[k0], pairs@));
                let j = choose|j: int| 0 <= j < pairs@.len() && pairs@[j] == sorted@[k0];
                assert(combo@[j] < n);
                assert(set2.items@[cols[j] as int].id < n);
            };
        }
        (Matching::from_pairs(sorted), variance)
    }

    /// The average directional variance of the two sides: for each side the
    /// mean distance of its normalized directions from their normalized
    /// mean, the two sides averaged.
    pub fn calculate_average_variance(set1: &MatchItemSet, set2: &MatchItemSet) -> (r: i64)
        requires
            set1.bounded(),
            set2.bounded(),
            1 <= set1.items@.len() <= 4096,
            1 <= set2.items@.len() <= 4096,
        ensures
            r == tdiv(side_variance(set1.items@) + side_variance(set2.items@), 2),
            r >= 0,
    {
        let v1 = side_variance_exec(set1);
        let v2 = side_variance_exec(set2);
        proof {
            lemma_tdiv_abs(v1 as int + v2 as int, 2);
        }
        tdiv64(v1 + v2, 2)
    }

    /// All candidate matchings: for the first half of the combinations of
    /// half the ids, solve the minimum-sum assignment between the two sides
    /// of the bipartition; keep each distinct matching (as a set of
    /// unordered pairs, normalized and sorted) with its least variance
    /// score, and return them ascending by score. At least one matching
    /// comes back, every returned matching pairs each id exactly once with
    /// the smaller id first in each pair, no two returned matchings hold
    /// the same pairs, and two items always yield exactly their one
    /// pairing.
    pub fn find_all_possible_matchings(match_items: MatchItemSet) -> (r: Vec<Matching>)
        requires
            match_items.items@.len() % 2 == 0,
            0 < match_items.items@.len() <= 20,
            match_items.ids_sequential(),
            match_items.bounded(),
        ensures
            forall|k: int|
                0 <= k < r@.len() ==> matching_valid(
                    (#[trigger] r@[k]).index_pairs@,
                    match_items.items@.len() as nat,
                ),
            r@.len() >= 1,
            matchings_distinct(r@),
            forall|k: int| 0 <= k < r@.len() ==> pairs_normalized((#[trigger] r@[k]).index_pairs@),
            match_items.items@.len() == 2 ==> (r@.len() == 1 && r@[0].index_pairs@ == seq![
                (0usize, 1usize),
            ]),
    {
        let n = match_items.len();
        let ghost nn = match_items.items@.len() as nat;
        let rr = n / 2;
        let combos = combinations_of_indices(n, rr);
        proof {
            lemma_binom_at_least_two(n as nat, rr as nat);
            if n == 2 {
                assert(binom(2, 1) == 2) by {
                    reveal_with_fuel(binom, 4);
                };
            }
        }
        let half = combos.len() / 2;
        let mut scored: Vec<(Matching, i64)> = Vec::new();
        let mut c: usize = 0;
        while c < half
            invariant
                nn == match_items.items@.len() as nat,
                n == match_items.items@.len(),
                match_items.items@.len() % 2 == 0,
                0 < match_items.items@.len() <= 20,
                match_items.ids_sequential(),
                match_items.bounded(),
                rr == n / 2,
                half <= combos@.len(),
                n == 2 ==> half == 1,
                forall|k: int| 0 <= k < combos@.len() ==> (#[trigger] combos@[k])@.len() == rr,
                forall|k: int, t: int|
                    0 <= k < combos@.len() && 0 <= t < rr ==> #[trigger] combos@[k]@[t] < n,
                forall|k: int, t1: int, t2: int|
                    0 <= k < combos@.len() && 0 <= t1 < t2 < rr ==> #[trigger] combos@[k]@[t1]
                        < #[trigger] combos@[k]@[t2],
                c <= half,
                c == 0 ==> scored@.len() == 0,
                c >= 1 ==> scored@.len() >= 1,
                forall|k: int|
                    0 <= k < scored@.len() ==> matching_valid(
                        (#[trigger] scored@[k]).0.index_pairs@,
                        nn,
                    ),
                forall|k: int|
                    0 <= k < scored@.len() ==> pairs_normalized(
                        (#[trigger] scored@[k]).0.index_pairs@,
                    ),
                scored_distinct(scored@),
                n == 2 && c >= 1 ==> (scored@.len() == 1 && scored@[0].0.index_pairs@ == seq![
                    (0usize, 1usize),
                ]),
            decreases half - c,
        {
            let (m, v) = Self::build_matching_for_combo(&match_items, &combos[c]);
            proof {
                if n == 2 {
                    let p = m.index_pairs@;
                    assert(p.len() == 1);
                    let empty_p = Seq::<(usize, usize)>::empty();
                    assert(p.drop_last() =~= empty_p);
                    assert(slot_count(empty_p, 0) == 0);
                    assert(slot_count(empty_p, 1) == 0);
                    assert(slot_count(p, 0) == slot_count(p.drop_last(), 0) + pair_slots(
                        p.last(),
                        0,
                    ));
                    assert(slot_count(p, 1) == slot_count(p.drop_last(), 1) + pair_slots(
                        p.last(),
                        1,
                    ));
                    assert(pair_slots(p[0], 0) == 1);
                    assert(pair_slots(p[0], 1) == 1);
                    assert(p[0].0 <= p[0].1);
                    assert(p[0] == (0usize, 1usize));
                    assert(p =~= seq![(0usize, 1usize)]);
                    assert(p == seq![(0usize, 1usize)]);
                }
            }
            let mut found = false;
            let mut idx: usize = 0;
            while idx < scored.len() && !found
                invariant
                    idx <= scored@.len(),
                    found ==> idx < scored@.len() && (scored@[idx as int].0.index_pairs@
                        == m.index_pairs@),
                    !found ==> (forall|k: int|
                        0 <= k < idx ==> (#[trigger] scored@[k]).0.index_pairs@
                            != m.index_pairs@),
                decreases scored@.len() - idx + (if found {
                    0int
                } else {
                    1int
                }),
            {
                if pairs_equal(&scored[idx].0.index_pairs, &m.index_pairs) {
                    found = true;
                } else {
                    idx = idx + 1;
                }
            }
            if found {
                if v < scored[idx].1 {
                    let ghost before = scored@;
                    let _ = scored.remove(idx);
                    scored.push((m, v));
                    proof {
                        assert forall|k: int|
                            0 <= k < scored@.len() implies matching_valid(
                            (#[trigger] scored@[k]).0.index_pairs@,
                            nn,
                        ) && pairs_normalized(scored@[k].0.index_pairs@) by {
                            if k < scored@.len() - 1 {
                                assert(scored@[k] == before.remove(idx as int)[k]);
                            }
                        };
                        assert forall|i: int, j: int|
                            0 <= i < j < scored@.len() implies (
                        #[trigger] scored@[i]).0.index_pairs@ != (
                        #[trigger] scored@[j]).0.index_pairs@ by {
                            let i0 = if i < idx {
                                i
                            } else {
                                i + 1
                            };
                            if j == scored@.len() - 1 {
                                assert(scored@[i] == before[i0]);
                                assert(scored@[j].0.index_pairs@ == before[idx as int].0.index_pairs@);
                            } else {
                                let j0 = if j < idx {
                                    j
                                } else {
                                    j + 1
                                };
                                assert(scored@[i] == before[i0]);
                                assert(scored@[j] == before[j0]);
                            }
                        };
                    }
                }
            } else {
                let ghost scored_before = scored@;
                scored.push((m, v));
                proof {
                    if n == 2 {
                        assert(scored_before.len() == 0);
                        assert(scored@.len() == 1);
                        assert(scored@[0].0.index_pairs@ == m.index_pairs@);
                    }
                }
            }
            c = c + 1;
        }
        let ghost scored_view = scored@;
        let mut ordered = sort_scored(scored);
        proof {
            assert forall|k0: int|
                0 <= k0 < ordered@.len() implies matching_valid(
                (#[trigger] ordered@[k0]).0.index_pairs@,
                nn,
            ) && pairs_normalized(ordered@[k0].0.index_pairs@) by {
                assert(appears_scored(ordered@[k0], scored_view));
                let j = choose|j: int| 0 <= j < scored_view.len() && scored_view[j] == ordered@[k0];
                assert(matching_valid(scored_view[j].0.index_pairs@, nn));
            };
            if n == 2 {
                assert(ordered@.len() == 1);
                assert(appears_scored(ordered@[0], scored_view));
                let j = choose|j: int| 0 <= j < scored_view.len() && scored_view[j] == ordered@[0];
                assert(ordered@[0].0.index_pairs@ == seq![(0usize, 1usize)]);
            }
        }
        let total_count = ordered.len();
        let mut out: Vec<Matching> = Vec::new();
        while ordered.len() > 0
            invariant
                out@.len() + ordered@.len() == total_count,
                forall|k0: int|
                    0 <= k0 < ordered@.len() ==> matching_valid(
                        (#[trigger] ordered@[k0]).0.index_pairs@,
                        nn,
                    ),
                forall|k0: int|
                    0 <= k0 < out@.len() ==> matching_valid((#[trigger] out@[k0]).index_pairs@, nn),
                forall|k0: int|
                    0 <= k0 < ordered@.len() ==> pairs_normalized(
                        (#[trigger] ordered@[k0]).0.index_pairs@,
                    ),
                forall|k0: int|
                    0 <= k0 < out@.len() ==> pairs_normalized((#[trigger] out@[k0]).index_pairs@),
                scored_distinct(ordered@),
                matchings_distinct(out@),
                forall|k0: int, j0: int|
                    0 <= k0 < out@.len() && 0 <= j0 < ordered@.len() ==> (
                    #[trigger] out@[k0]).index_pairs@ != (#[trigger] ordered@[j0]).0.index_pairs@,
                n == 2 ==> total_count == 1,
                n == 2 && out@.len() == 1 ==> out@[0].index_pairs@ == seq![(0usize, 1usize)],
                n == 2 && ordered@.len() == 1 ==> ordered@[0].0.index_pairs@ == seq![
                    (0usize, 1usize),
                ],
            decreases ordered@.len(),
        {
            let ghost ord_before = ordered@;
            let ghost out_before = out@;
            let e = ordered.remove(0);
            out.push(e.0);
            proof {
                assert forall|i: int, j: int|
                    0 <= i < j < out@.len() implies (#[trigger] out@[i]).index_pairs@ != (
                #[trigger] out@[j]).index_pairs@ by {
                    if j == out@.len() - 1 {
                        assert(out@[i] == out_before[i]);
                        assert(out@[j].index_pairs@ == ord_before[0].0.index_pairs@);
                    } else {
                        assert(out@[i] == out_before[i]);
                        assert(out@[j] == out_before[j]);
                    }
                };
                assert forall|k0: int, j0: int|
                    0 <= k0 < out@.len() && 0 <= j0 < ordered@.len() implies (
                #[trigger] out@[k0]).index_pairs@ != (#[trigger] ordered@[j0]).0.index_pairs@ by {
                    assert(ordered@[j0] == ord_before[j0 + 1]);
                    if k0 == out@.len() - 1 {
                        assert(out@[k0].index_pairs@ == ord_before[0].0.index_pairs@);
                    } else {
                        assert(out@[k0] == out_before[k0]);
                    }
                };
                assert forall|i: int, j: int|
                    0 <= i < j < ordered@.len() implies (#[trigger] ordered@[i]).0.index_pairs@
                    != (#[trigger] ordered@[j]).0.index_pairs@ by {
                    assert(ordered@[i] == ord_before[i + 1]);
                    assert(ordered@[j] == ord_before[j + 1]);
                };
            }
        }
        out
    }
}

/// Whether two pair lists are equal element for element.
fn pairs_equal(x: &Vec<(usize, usize)>, y: &Vec<(usize, usize)>) -> (r: bool)
    ensures
        r == (x@ =~= y@),
{
    if x.len() != y.len() {
        return false;
    }
    let mut i: usize = 0;
    while i < x.len()
        invariant
            x@.len() == y@.len(),
            i <= x@.len(),
            forall|j: int| 0 <= j < i ==> x@[j] == y@[j],
        decreases x@.len() - i,
    {
        if x[i].0 != y[i].0 || x[i].1 != y[i].1 {
            return false;
        }
        i = i + 1;
    }
    true
}

/// Order scored matchings ascending by score by repeatedly extracting the
/// least remaining score; each output entry is one of the inputs, and
/// pairwise-distinct pair lists stay pairwise distinct.
fn sort_scored(scored: Vec<(Matching, i64)>) -> (r: Vec<(Matching, i64)>)
    ensures
        r@.len() == scored@.len(),
        forall|k: int| 0 <= k < r@.len() ==> appears_scored(#[trigger] r@[k], scored@),
        forall|k1: int, k2: int|
            0 <= k1 < k2 < r@.len() ==> (#[trigger] r@[k1]).1 <= (#[trigger] r@[k2]).1,
        scored_distinct(scored@) ==> scored_distinct(r@),
{
    let ghost orig = scored@;
    let mut src = scored;
    let mut out: Vec<(Matching, i64)> = Vec::new();
    while src.len() > 0
        invariant
            out@.len() + src@.len() == orig.len(),
            forall|k: int| 0 <= k < out@.len() ==> appears_scored(#[trigger] out@[k], orig),
            forall|j: int| 0 <= j < src@.len() ==> appears_scored(#[trigger] src@[j], orig),
            forall|k1: int, k2: int|
                0 <= k1 < k2 < out@.len() ==> (#[trigger] out@[k1]).1 <= (#[trigger] out@[k2]).1,
            forall|k: int, j: int|
                0 <= k < out@.len() && 0 <= j < src@.len() ==> (#[trigger] out@[k]).1 <= (
                #[trigger] src@[j]).1,
            scored_distinct(orig) ==> scored_distinct(out@),
            scored_distinct(orig) ==> scored_distinct(src@),
            scored_distinct(orig) ==> (forall|k: int, j: int|
                0 <= k < out@.len() && 0 <= j < src@.len() ==> (#[trigger] out@[k]).0.index_pairs@
                    != (#[trigger] src@[j]).0.index_pairs@),
        decreases src@.len(),
    {
        let mut best: usize = 0;
        let mut t: usize = 1;
        while t < src.len()
            invariant
                src@.len() > 0,
                best < src@.len(),
                t <= src@.len(),
                forall|j: int| 0 <= j < t ==> (#[trigger] src@[j]).1 >= src@[best as int].1,
            decreases src@.len() - t,
        {
            if src[t].1 < src[best].1 {
                best = t;
            }
            t = t + 1;
        }
        let e = src.remove(best);
        out.push(e);
    }
    out
}

/// `e` is one of the scored entries of `s`.
pub open spec fn appears_scored(e: (Matching, i64), s: Seq<(Matching, i64)>) -> bool {
    exists|j: int| 0 <= j < s.len() && s[j] == e
}


/// `e` is one of the items of `s`.
pub open spec fn item_from(e: MatchItem, s: Seq<MatchItem>) -> bool {
    exists|j: int| 0 <= j < s.len() && s[j] == e
}

/// Both sides hold only items drawn from `src`, and together as many items
/// as `src` has.
pub open spec fn partition_of(a: MatchItemSet, b: MatchItemSet, src: Seq<MatchItem>) -> bool {
    &&& a.items@.len() + b.items@.len() == src.len()
    &&& forall|k: int| 0 <= k < a.items@.len() ==> item_from(#[trigger] a.items@[k], src)
    &&& forall|k: int| 0 <= k < b.items@.len() ==> item_from(#[trigger] b.items@[k], src)
}

impl Matcher {
    /// Split the items by direction against one reference item: an item
    /// joins the first side when the distance between its unit direction
    /// and the reference's, normalized to a fixed-point fraction of the
    /// opposite-direction distance of two, is within the threshold.
    pub fn get_one_partition(
        items: &MatchItemSet,
        reference_item: &MatchItem,
        direction_difference_threshold: i64,
    ) -> (r: (MatchItemSet, MatchItemSet))
        requires
            items.bounded(),
            item_bounded(*reference_item),
            0 <= direction_difference_threshold <= SCALE,
        ensures
            partition_of(r.0, r.1, items.items@),
            r.0.bounded(),
            r.1.bounded(),
    {
        let reference_direction = reference_item.direction.get_normalized();
        let mut set1 = MatchItemSet::new();
        let mut set2 = MatchItemSet::new();
        let n = items.len();
        let mut i: usize = 0;
        while i < n
            invariant
                n == items.items@.len(),
                items.bounded(),
                within(reference_direction, SCALE as int),
                i <= n,
                set1.items@.len() + set2.items@.len() == i,
                set1.bounded(),
                set2.bounded(),
                forall|k: int|
                    0 <= k < set1.items@.len() ==> item_from(#[trigger] set1.items@[k], items.items@),
                forall|k: int|
                    0 <= k < set2.items@.len() ==> item_from(#[trigger] set2.items@[k], items.items@),
            decreases n - i,
        {
            let it = items.get(i);
            proof {
                assert(item_bounded(items.items@[i as int]));
                assert(item_from(items.items@[i as int], items.items@));
            }
            let u = it.direction.get_normalized();
            proof {
                lemma_dist_bound(reference_direction, u, SCALE as int);
                lemma_tdiv_abs(dist_spec(reference_direction, u), 2);
            }
            let direction_difference = reference_direction.distance_to(u);
            // The distance of two unit directions is at most two; halving it
            // normalizes to the unit scale.
            let normalized = tdiv64(direction_difference, 2);
            if normalized <= direction_difference_threshold {
                set1.push_as_is(it);
            } else {
                set2.push_as_is(it);
            }
            i = i + 1;
        }
        (set1, set2)
    }

    /// Partition by direction, trying each item in turn as the reference
    /// and keeping the most balanced split; the first balanced one found is
    /// kept.
    pub fn partition_by_direction(
        items: &MatchItemSet,
        direction_difference_threshold: i64,
    ) -> (r: (MatchItemSet, MatchItemSet))
        requires
            items.bounded(),
            0 <= direction_difference_threshold <= SCALE,
        ensures
            partition_of(r.0, r.1, items.items@),
            r.0.bounded(),
            r.1.bounded(),
    {
        let mut best1 = MatchItemSet::new();
        let mut best2 = MatchItemSet::new();
        let n = items.len();
        let mut i: usize = 0;
        while i < n
            invariant
                n == items.items@.len(),
                items.bounded(),
                0 <= direction_difference_threshold <= SCALE,
                i <= n,
                i > 0 ==> partition_of(best1, best2, items.items@) && best1.bounded()
                    && best2.bounded(),
            decreases n - i,
        {
            let reference = items.get(i);
            proof {
                assert(item_bounded(items.items@[i as int]));
            }
            if i == 0 || best1.is_empty() || best2.is_empty() {
                let (s1, s2) = Self::get_one_partition(
                    items,
                    &reference,
                    direction_difference_threshold,
                );
                best1 = s1;
                best2 = s2;
            } else if best1.len() == best2.len() {
                // The first balanced split found is final.
            } else {
                let (s1, s2) = Self::get_one_partition(
                    items,
                    &reference,
                    direction_difference_threshold,
                );
                let best_diff = if best1.len() >= best2.len() {
                    best1.len() - best2.len()
                } else {
                    best2.len() - best1.len()
                };
                let cur_diff = if s1.len() >= s2.len() {
                    s1.len() - s2.len()
                } else {
                    s2.len() - s1.len()
                };
                if cur_diff < best_diff {
                    best1 = s1;
                    best2 = s2;
                }
            }
            i = i + 1;
        }
        if n == 0 {
            (MatchItemSet::new(), MatchItemSet::new())
        } else {
            (best1, best2)
        }
    }

    /// Index of the item farthest from the item at `src_index`.
    fn find_furthest_from(items: &MatchItemSet, src_index: usize) -> (r: usize)
        requires
            items.bounded(),
            items.items@.len() >= 2,
            src_index < items.items@.len(),
        ensures
            r < items.items@.len(),
            r != src_index,
    {
        let src = items.get(src_index);
        proof {
            assert(item_bounded(items.items@[src_index as int]));
        }
        let n = items.len();
        let mut best: usize = if src_index == 0 {
            1
        } else {
            0
        };
        let mut best_dist: i64 = {
            let it = items.get(best);
            proof {
                assert(item_bounded(items.items@[best as int]));
            }
            src.point.distance_to(it.point)
        };
        let mut j: usize = 0;
        while j < n
            invariant
                n == items.items@.len(),
                n >= 2,
                items.bounded(),
                src_index < n,
                src == items.items@[src_index as int],
                j <= n,
                best < n,
                best != src_index,
            decreases n - j,
        {
            if j != src_index {
                let it = items.get(j);
                proof {
                    assert(item_bounded(items.items@[j as int]));
                }
                let d = src.point.distance_to(it.point);
                if d > best_dist {
                    best = j;
                    best_dist = d;
                }
            }
            j = j + 1;
        }
        best
    }

    /// Partition by distance: repeatedly take a far-apart pair of points —
    /// found by a bounded walk of farthest-from steps — and move one to
    /// each side.
    pub fn partition_by_distance(items: MatchItemSet) -> (r: (MatchItemSet, MatchItemSet))
        requires
            items.bounded(),
            items.items@.len() % 2 == 0,
        ensures
            r.0.items@.len() == items.items@.len() / 2,
            r.1.items@.len() == items.items@.len() / 2,
            r.0.bounded(),
            r.1.bounded(),
    {
        let ghost total = items.items@.len();
        let mut rest = items;
        let mut set1 = MatchItemSet::new();
        let mut set2 = MatchItemSet::new();
        while rest.len() >= 2
            invariant
                rest.bounded(),
                set1.bounded(),
                set2.bounded(),
                set1.items@.len() == set2.items@.len(),
                2 * set1.items@.len() + rest.items@.len() == total,
                rest.items@.len() % 2 == 0,
            decreases rest.items@.len(),
        {
            let mut prev: usize = 0;
            let mut curr = Self::find_furthest_from(&rest, prev);
            let mut hops: usize = 10;
            while hops > 0
                invariant
                    rest.bounded(),
                    rest.items@.len() >= 2,
                    prev < rest.items@.len(),
                    curr < rest.items@.len(),
                    prev != curr,
                decreases hops,
            {
                let next = Self::find_furthest_from(&rest, curr);
                if prev == next {
                    break;
                }
                prev = curr;
                curr = next;
                hops = hops - 1;
            }
            let ghost before = rest.items@;
            let a = rest.remove(prev);
            let curr_adj = if curr > prev {
                curr - 1
            } else {
                curr
            };
            let b = rest.remove(curr_adj);
            proof {
                assert(rest.items@ == before.remove(prev as int).remove(curr_adj as int));
                assert(item_bounded(a));
                assert(item_bounded(b));
            }
            set1.push_as_is(a);
            set2.push_as_is(b);
        }
        (set1, set2)
    }

    /// Move trailing items from the larger side to the smaller until both
    /// sides are the same size.
    pub fn force_balance_partition(set1: MatchItemSet, set2: MatchItemSet) -> (r: (
        MatchItemSet,
        MatchItemSet,
    ))
        requires
            set1.bounded(),
            set2.bounded(),
            (set1.items@.len() + set2.items@.len()) % 2 == 0,
        ensures
            r.0.items@.len() == r.1.items@.len(),
            r.0.items@.len() + r.1.items@.len() == set1.items@.len() + set2.items@.len(),
            r.0.bounded(),
            r.1.bounded(),
    {
        let mut s1 = set1;
        let mut s2 = set2;
        while s1.len() != s2.len()
            invariant
                s1.bounded(),
                s2.bounded(),
                s1.items@.len() + s2.items@.len() == set1.items@.len() + set2.items@.len(),
                (s1.items@.len() + s2.items@.len()) % 2 == 0,
            decreases (if s1.items@.len() >= s2.items@.len() {
                s1.items@.len() - s2.items@.len()
            } else {
                s2.items@.len() - s1.items@.len()
            }),
        {
            if s1.len() > s2.len() {
                let e = s1.remove(s1.len() - 1);
                proof {
                    assert(item_bounded(e));
                }
                s2.push_as_is(e);
            } else {
                let e = s2.remove(s2.len() - 1);
                proof {
                    assert(item_bounded(e));
                }
                s1.push_as_is(e);
            }
        }
        (s1, s2)
    }

    /// Partition the items into two equally sized sides: by direction
    /// against the threshold when that yields two non-empty sides, else by
    /// distance, forced into balance either way.
    pub fn partition(items: MatchItemSet, direction_difference_threshold: i64) -> (r: (
        MatchItemSet,
        MatchItemSet,
    ))
        requires
            items.bounded(),
            items.items@.len() % 2 == 0,
            0 <= direction_difference_threshold <= SCALE,
        ensures
            r.0.items@.len() == r.1.items@.len(),
            r.0.items@.len() + r.1.items@.len() == items.items@.len(),
            r.0.bounded(),
            r.1.bounded(),
    {
        let (set1, set2) = Self::partition_by_direction(&items, direction_difference_threshold);
        if !set1.is_empty() && !set2.is_empty() {
            Self::force_balance_partition(set1, set2)
        } else {
            let (d1, d2) = Self::partition_by_distance(items);
            Self::force_balance_partition(d1, d2)
        }
    }

    /// One overall matching: partition the items into two equal sides and
    /// pair them by the minimum-sum assignment. Each pair holds one id from
    /// each side; the pair count is half the item count.
    pub fn find_matching(match_items: MatchItemSet, direction_difference_threshold: i64) -> (r:
        Matching)
        requires
            match_items.bounded(),
            match_items.items@.len() % 2 == 0,
            0 < match_items.items@.len() <= 4096,
            0 <= direction_difference_threshold <= SCALE,
        ensures
            r.index_pairs@.len() == match_items.items@.len() / 2,
    {
        let ghost n0 = match_items.items@.len();
        let (set1, set2) = Self::partition(match_items, direction_difference_threshold);
        let dm = SquareDistanceMatrix::from_two_sets(&set1, &set2);
        let im = dm.into_matching();
        let ipairs = im.into_iter();
        let rr = set1.len();
        let mut pairs: Vec<(usize, usize)> = Vec::new();
        let mut k: usize = 0;
        while k < rr
            invariant
                rr == set1.items@.len(),
                rr == set2.items@.len(),
                ipairs@.len() == rr,
                cols_valid(ipairs@.map_values(|p: (usize, usize)| p.1), rr as nat),
                forall|k0: int| 0 <= k0 < rr ==> (#[trigger] ipairs@[k0]).0 == k0,
                k <= rr,
                pairs@.len() == k,
            decreases rr - k,
        {
            let (row, col) = ipairs[k];
            proof {
                assert(ipairs@.map_values(|p: (usize, usize)| p.1)[k as int] == ipairs@[k as int].1);
            }
            let a = set1.get(row).id;
            let b = set2.get(col).id;
            pairs.push((a, b));
            k = k + 1;
        }
        Matching::from_pairs(pairs)
    }
}

} // verus!
