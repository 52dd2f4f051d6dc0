use shapecompletion::fixed::SCALE;
use shapecompletion::matcher::Matcher;
use shapecompletion::matcher_helper::{MatchItem, MatchItemSet, SquareDistanceMatrix};
use shapecompletion::point::Point2;

fn fx(v: i64) -> i64 {
    v * SCALE
}

fn item(x: i64, y: i64, dx: i64, dy: i64) -> MatchItem {
    MatchItem { id: 0, point: Point2 { x, y }, direction: Point2 { x: dx, y: dy } }
}

fn set_of(items: Vec<MatchItem>) -> MatchItemSet {
    let mut set = MatchItemSet::new();
    for it in items {
        set.push_and_set_id(it);
    }
    set
}

#[test]
fn square_distance_matrix_correct_distances() {
    // Matrix entries are the pairwise point distances, row by column.
    let pts1 = vec![(0, 0), (0, 2000), (3199, 82300), (9800, 2718), (76200, 35890), (19840, 85800)];
    let pts2 = vec![
        (12680, 29860),
        (84600, 20460),
        (16200, 214500),
        (89640, 23500),
        (64700, 29750),
        (49720, 83000),
    ];
    let set1 = set_of(pts1.iter().map(|&(x, y)| item(x, y, 0, 0)).collect());
    let set2 = set_of(pts2.iter().map(|&(x, y)| item(x, y, 0, 0)).collect());
    let dm = SquareDistanceMatrix::from_two_sets(&set1, &set2);
    assert_eq!(dm.n, 6);
    for i in 0..6 {
        for j in 0..6 {
            let a = Point2 { x: pts1[i].0, y: pts1[i].1 };
            let b = Point2 { x: pts2[j].0, y: pts2[j].1 };
            let d = a.distance_to(b);
            assert_eq!(dm.distances[i * 6 + j], d as u64);
        }
    }
}

#[test]
fn distance_matrix_solves_identity_assignment() {
    // Two sets mirroring each other: the cheapest pairing is the identity.
    let set1 = set_of(vec![item(0, 0, 0, 0), item(fx(100), 0, 0, 0)]);
    let set2 = set_of(vec![item(0, fx(1), 0, 0), item(fx(100), fx(1), 0, 0)]);
    let dm = SquareDistanceMatrix::from_two_sets(&set1, &set2);
    let m = dm.into_matching();
    let pairs = m.into_iter();
    assert_eq!(pairs, vec![(0, 0), (1, 1)]);
}

#[test]
fn two_items_give_single_pairing() {
    let items = set_of(vec![
        item(0, 0, 0, -SCALE),
        item(fx(20), 0, 0, -SCALE),
    ]);
    let matchings = Matcher::find_all_possible_matchings(items);
    assert_eq!(matchings.len(), 1);
    assert_eq!(matchings[0].index_pairs, vec![(0, 1)]);
}

#[test]
fn four_items_give_valid_pairings() {
    // Every returned matching uses each id exactly once.
    let items = set_of(vec![
        item(0, 0, 0, -SCALE),
        item(fx(20), 0, 0, -SCALE),
        item(0, fx(20), 0, SCALE),
        item(fx(20), fx(20), 0, SCALE),
    ]);
    let matchings = Matcher::find_all_possible_matchings(items);
    assert!(matchings.len() >= 1);
    for m in &matchings {
        assert_eq!(m.index_pairs.len(), 2);
        let mut seen = [false; 4];
        for &(a, b) in &m.index_pairs {
            assert!(a < 4 && b < 4 && a != b);
            assert!(!seen[a] && !seen[b]);
            seen[a] = true;
            seen[b] = true;
        }
        assert!(seen.iter().all(|&s| s));
    }
}

#[test]
fn average_variance_of_aligned_directions_is_zero() {
    let set1 = set_of(vec![item(0, 0, 0, SCALE), item(fx(5), 0, 0, SCALE)]);
    let set2 = set_of(vec![item(0, fx(9), 0, -SCALE), item(fx(5), fx(9), 0, -SCALE)]);
    let v = Matcher::calculate_average_variance(&set1, &set2);
    assert_eq!(v, 0);
}

#[test]
fn find_matching_pairs_each_side_once() {
    // Two upward and two downward directions partition into two sides of
    // two; the matching pairs one id of each side.
    let items = set_of(vec![
        item(0, 0, 0, -SCALE),
        item(fx(20), 0, 0, -SCALE),
        item(0, fx(20), 0, SCALE),
        item(fx(20), fx(20), 0, SCALE),
    ]);
    let m = Matcher::find_matching(items, 100);
    assert_eq!(m.index_pairs.len(), 2);
    let mut seen = [false; 4];
    for &(a, b) in &m.index_pairs {
        assert!(a < 4 && b < 4 && a != b);
        assert!(!seen[a] && !seen[b]);
        seen[a] = true;
        seen[b] = true;
    }
}

#[test]
fn partition_by_distance_balances_the_sides() {
    let items = set_of(vec![
        item(0, 0, 0, SCALE),
        item(fx(100), 0, 0, SCALE),
        item(fx(1), 0, 0, SCALE),
        item(fx(99), 0, 0, SCALE),
    ]);
    let (a, b) = Matcher::partition_by_distance(items);
    assert_eq!(a.len(), 2);
    assert_eq!(b.len(), 2);
}

#[test]
fn force_balance_moves_surplus_items() {
    let a = set_of(vec![
        item(0, 0, 0, SCALE),
        item(fx(1), 0, 0, SCALE),
        item(fx(2), 0, 0, SCALE),
        item(fx(3), 0, 0, SCALE),
    ]);
    let b = set_of(vec![]);
    let (a2, b2) = Matcher::force_balance_partition(a, b);
    assert_eq!(a2.len(), 2);
    assert_eq!(b2.len(), 2);
}
