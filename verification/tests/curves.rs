use shapecompletion::curve::{CurveIntrapolator, CurveIntrapolatorConfig};
use shapecompletion::fixed::SCALE;
use shapecompletion::point::Point2;
use shapecompletion::rect::BoundingRect;
use shapecompletion::simplify::reduce;

fn fx(v: i64) -> i64 {
    v * SCALE
}

fn p(x: i64, y: i64) -> Point2 {
    Point2 { x, y }
}

#[test]
fn whole_curve_with_forward_intersection_is_one_piece() {
    let rect = BoundingRect::new_x_y_w_h(0, 0, 40, 30);
    let ci = CurveIntrapolator::new(CurveIntrapolatorConfig::default(), rect);
    let e1 = p(fx(10), fx(20));
    let e2 = p(fx(20), fx(10));
    let spline = ci
        .calculate_whole_curve(e1, p(0, -SCALE), e2, p(-SCALE, 0))
        .expect("tangent lines meet forward");
    assert_eq!(spline.curves.len(), 1);
    assert_eq!(spline.curves[0].start, e1);
    assert_eq!(spline.curves[0].end, e2);
}

#[test]
fn whole_curve_with_opposed_parallel_tangents_is_an_s_shape() {
    // Anti-parallel tangents force the S-shaped split: two cubic pieces
    // joined at the midpoint of the endpoints.
    let rect = BoundingRect::new_x_y_w_h(0, 0, 40, 20);
    let ci = CurveIntrapolator::new(CurveIntrapolatorConfig::default(), rect);
    let e1 = p(fx(10), fx(10));
    let e2 = p(fx(30), fx(10));
    let spline = ci
        .calculate_whole_curve(e1, p(0, SCALE), e2, p(0, -SCALE))
        .expect("both halves are parallel cases");
    assert_eq!(spline.curves.len(), 2);
    assert_eq!(spline.curves[0].start, e1);
    assert_eq!(spline.curves[0].end, p(fx(20), fx(10)));
    assert_eq!(spline.curves[1].start, p(fx(20), fx(10)));
    assert_eq!(spline.curves[1].end, e2);
}

#[test]
fn whole_curve_control_points_project_into_the_hole() {
    let rect = BoundingRect::new_x_y_w_h(0, 0, 40, 30);
    let ci = CurveIntrapolator::new(CurveIntrapolatorConfig::default(), rect);
    let e1 = p(fx(2), fx(15));
    let e2 = p(fx(38), fx(15));
    let spline = ci
        .calculate_whole_curve(e1, p(SCALE, 0), e2, p(-SCALE, 0))
        .expect("facing tangents connect");
    for c in &spline.curves {
        for q in [c.ctrl1, c.ctrl2] {
            let px = q.x / SCALE;
            let py = q.y / SCALE;
            assert!(-1 <= px && px <= 41, "control point x {} outside hole", px);
            assert!(-1 <= py && py <= 31, "control point y {} outside hole", py);
        }
    }
}

#[test]
fn reduce_collapses_collinear_points() {
    let pts: Vec<Point2> = (0..11).map(|i| p(i, 0)).collect();
    let r = reduce(&pts, 2000);
    assert_eq!(r, vec![p(0, 0), p(10, 0)]);
}

#[test]
fn reduce_keeps_a_sharp_corner() {
    let mut pts: Vec<Point2> = (0..11).map(|i| p(i, 0)).collect();
    pts.extend((1..11).map(|i| p(10, i)));
    let r = reduce(&pts, 2000);
    assert_eq!(r, vec![p(0, 0), p(10, 0), p(10, 10)]);
}

#[test]
fn reduce_is_idempotent_on_an_l_shape() {
    let mut pts: Vec<Point2> = (0..11).map(|i| p(i, 0)).collect();
    pts.extend((1..11).map(|i| p(10, i)));
    let once = reduce(&pts, 2000);
    let twice = reduce(&once, 2000);
    assert_eq!(once, twice);
}

#[test]
fn smoothing_is_a_no_op_once_converged() {
    // Segments below the minimum length are never subdivided, so the first
    // pass changes nothing and a further step reports no change.
    let cfg = CurveIntrapolatorConfig::default();
    let path = vec![p(fx(1), 0), p(fx(2), 0), p(fx(3), fx(1)), p(fx(4), fx(1))];
    let (smoothed, mut corners) = CurveIntrapolator::smooth_open_curve_iterative(
        path.clone(),
        cfg.outset_ratio,
        cfg.min_segment_length,
        cfg.smooth_max_iterations,
        cfg.corner_cos_threshold,
    );
    assert_eq!(smoothed, path);
    let mut again = smoothed.clone();
    let no_change = CurveIntrapolator::smooth_open_curve_step(
        &mut again,
        &mut corners,
        cfg.outset_ratio,
        cfg.min_segment_length,
    );
    assert!(no_change);
    assert_eq!(again, path);
}

#[test]
fn smoothing_subdivides_long_straight_segments() {
    let cfg = CurveIntrapolatorConfig::default();
    let path = vec![p(0, 0), p(fx(10), 0), p(fx(20), 0), p(fx(30), 0)];
    let (smoothed, corners) = CurveIntrapolator::smooth_open_curve_iterative(
        path.clone(),
        cfg.outset_ratio,
        cfg.min_segment_length,
        1,
        cfg.corner_cos_threshold,
    );
    assert!(smoothed.len() > path.len());
    assert_eq!(smoothed.len(), corners.len());
    assert_eq!(smoothed[0], path[0]);
    assert_eq!(*smoothed.last().unwrap(), *path.last().unwrap());
}
