use shapecompletion::fixed::SCALE;
use shapecompletion::geo::{
    calculate_in_between_point, calculate_intersection, calculate_midpoint,
    calculate_unit_normal_of_line, find_corners, find_new_point_from_4_point_scheme,
    retract_point, LineIntersectionResult,
};
use shapecompletion::point::Point2;
use shapecompletion::rect::BoundingRect;

fn fx(v: i64) -> i64 {
    v * SCALE
}

fn p(x: i64, y: i64) -> Point2 {
    Point2 { x, y }
}

#[test]
fn midpoint_of_opposite_corners() {
    let m = calculate_midpoint(p(fx(0), fx(0)), p(fx(10), fx(20)));
    assert_eq!(m, p(fx(5), fx(10)));
}

#[test]
fn in_between_at_quarter() {
    let r = calculate_in_between_point(p(fx(0), fx(0)), p(fx(8), fx(4)), SCALE / 4);
    assert_eq!(r, p(fx(2), fx(1)));
}

#[test]
fn in_between_ends_at_zero_and_one() {
    let a = p(fx(3), fx(-7));
    let b = p(fx(-5), fx(11));
    assert_eq!(calculate_in_between_point(a, b, 0), a);
    assert_eq!(calculate_in_between_point(a, b, SCALE), b);
}

#[test]
fn unit_normal_of_horizontal_line_points_down() {
    // In screen coordinates (y down), the right-hand side of a
    // left-to-right line is below it.
    let n = calculate_unit_normal_of_line(p(0, 0), p(fx(10), 0));
    assert_eq!(n, p(0, SCALE));
}

#[test]
fn unit_normal_of_downward_line_points_left() {
    let n = calculate_unit_normal_of_line(p(0, 0), p(0, fx(10)));
    assert_eq!(n, p(-SCALE, 0));
}

#[test]
fn intersection_of_crossing_lines() {
    // From (0,0) heading +x and from (5,5) heading -y meet at (5,0).
    let r = calculate_intersection(
        p(0, 0),
        p(fx(1), 0),
        p(fx(5), fx(5)),
        p(fx(5), fx(4)),
    );
    match r {
        LineIntersectionResult::Intersect(q) => assert_eq!(q, p(fx(5), 0)),
        other => panic!("expected a forward intersection, got {:?}", other),
    }
}

#[test]
fn intersection_of_parallel_lines() {
    let r = calculate_intersection(p(0, 0), p(fx(1), 0), p(0, fx(1)), p(fx(1), fx(1)));
    assert!(matches!(r, LineIntersectionResult::Parallel));
}

#[test]
fn intersection_of_coincident_lines() {
    let r = calculate_intersection(p(0, 0), p(fx(1), 0), p(0, 0), p(fx(2), 0));
    assert!(matches!(r, LineIntersectionResult::Coincidence));
}

#[test]
fn intersection_only_backward() {
    // Both rays point away from each other.
    let r = calculate_intersection(
        p(0, 0),
        p(-fx(1), 0),
        p(fx(5), fx(5)),
        p(fx(5), fx(6)),
    );
    assert!(matches!(r, LineIntersectionResult::NotForward));
}

#[test]
fn corners_of_right_angle_path() {
    // A right-angle turn is a corner at the default threshold (cosine 0);
    // endpoints are never corners.
    let path = vec![p(0, 0), p(fx(10), 0), p(fx(10), fx(10))];
    let corners = find_corners(&path, 0);
    assert_eq!(corners, vec![false, true, false]);
}

#[test]
fn corners_of_straight_path() {
    let path = vec![p(0, 0), p(fx(5), 0), p(fx(10), 0)];
    let corners = find_corners(&path, 0);
    assert_eq!(corners, vec![false, false, false]);
}

#[test]
fn four_point_scheme_of_collinear_points_is_midpoint() {
    // With all four points collinear the outset offset vanishes.
    let r = find_new_point_from_4_point_scheme(
        p(fx(2), 0),
        p(fx(4), 0),
        p(0, 0),
        p(fx(6), 0),
        8 * SCALE,
    );
    assert_eq!(r, p(fx(3), 0));
}

#[test]
fn four_point_scheme_outsets_away_from_frame_midpoint() {
    // Inner points above the frame midpoint: the new point moves further up.
    let r = find_new_point_from_4_point_scheme(
        p(fx(4), fx(8)),
        p(fx(6), fx(8)),
        p(fx(2), 0),
        p(fx(8), 0),
        8 * SCALE,
    );
    assert_eq!(r.x, fx(5));
    assert!(r.y > fx(8));
}

#[test]
fn retract_point_lands_inside_the_hole() {
    let rect = BoundingRect::new_x_y_w_h(10, 10, 10, 10);
    // Far outside the hole, retracting toward its center.
    let from = p(fx(100), fx(100));
    let to = p(fx(15), fx(15));
    let r = retract_point(from, to, 400, &rect);
    let px = r.x / SCALE;
    let py = r.y / SCALE;
    assert!(9 <= px && px <= 21 && 9 <= py && py <= 21);
}

#[test]
fn retract_point_keeps_an_inside_point() {
    let rect = BoundingRect::new_x_y_w_h(10, 10, 10, 10);
    let from = p(fx(15), fx(15));
    let r = retract_point(from, p(fx(12), fx(12)), 400, &rect);
    assert_eq!(r, from);
}

#[test]
fn pointf64_rotate() {
    // Rotate (1, 0) a quarter turn counter-clockwise about the origin:
    // cosine 0, sine 1 in fixed point gives exactly (0, 1).
    let p = Point2 { x: SCALE, y: 0 };
    let r = p.rotate(Point2 { x: 0, y: 0 }, 0, SCALE);
    assert_eq!(r.x, 0);
    assert_eq!(r.y, SCALE);
}
