use shapecompletion::completor::{ClusterContours, CompletionError, ShapeCompletor};
use shapecompletion::curve::CurveIntrapolatorConfig;
use shapecompletion::debugger::DummyDebugger;
use shapecompletion::filler::FilledHoleElement;
use shapecompletion::image::BinaryImage;
use shapecompletion::point::Point2;
use shapecompletion::rect::BoundingRect;

/// Moore-neighbor boundary tracing, the external contour primitive for the
/// tests.
struct MooreTracer;

const DIRS: [(i64, i64); 8] = [
    (-1, -1),
    (0, -1),
    (1, -1),
    (1, 0),
    (1, 1),
    (0, 1),
    (-1, 1),
    (-1, 0),
];

fn fg(image: &BinaryImage, x: i64, y: i64) -> bool {
    image.get_pixel_at_safe(Point2 { x, y })
}

fn dir_index(dx: i64, dy: i64) -> usize {
    DIRS.iter().position(|&d| d == (dx, dy)).unwrap()
}

impl ClusterContours for MooreTracer {
    fn cluster_contours(&self, image: &BinaryImage) -> Vec<Vec<Point2>> {
        let w = image.width as i64;
        let h = image.height as i64;
        let mut visited = vec![vec![false; image.width]; image.height];
        let mut contours: Vec<Vec<Point2>> = Vec::new();
        for y in 0..h {
            for x in 0..w {
                if !fg(image, x, y) || visited[y as usize][x as usize] {
                    continue;
                }
                if fg(image, x - 1, y) {
                    continue;
                }
                // Trace the boundary starting here, backtracking from the west.
                let start = (x, y);
                let mut contour = vec![Point2 { x, y }];
                visited[y as usize][x as usize] = true;
                let mut c = start;
                let mut b = (x - 1, y);
                loop {
                    let di = dir_index(b.0 - c.0, b.1 - c.1);
                    let mut found = None;
                    for k in 1..=8 {
                        let nd = DIRS[(di + k) % 8];
                        let n = (c.0 + nd.0, c.1 + nd.1);
                        if fg(image, n.0, n.1) {
                            let bd = DIRS[(di + k - 1) % 8];
                            found = Some((n, (c.0 + bd.0, c.1 + bd.1)));
                            break;
                        }
                    }
                    match found {
                        None => break,
                        Some((n, back)) => {
                            if n == start {
                                break;
                            }
                            contour.push(Point2 { x: n.0, y: n.1 });
                            visited[n.1 as usize][n.0 as usize] = true;
                            b = back;
                            c = n;
                        }
                    }
                }
                if contour.len() > 5 {
                    contours.push(contour);
                }
            }
        }
        contours
    }
}

fn erase_hole(image: &mut BinaryImage, rect: &BoundingRect) {
    for y in rect.top..rect.bottom {
        for x in rect.left..rect.right {
            image.set_pixel(x as usize, y as usize, false);
        }
    }
}

fn completor(image: BinaryImage) -> ShapeCompletor<MooreTracer, DummyDebugger> {
    ShapeCompletor::new(
        image,
        2000,
        CurveIntrapolatorConfig::default(),
        MooreTracer,
        DummyDebugger,
    )
}

fn count_kind(
    m: &shapecompletion::filler::FilledHoleMatrix,
    kind: FilledHoleElement,
) -> usize {
    let mut n = 0;
    for y in 0..m.height {
        for x in 0..m.width {
            if m.get(x, y) == kind {
                n += 1;
            }
        }
    }
    n
}

#[test]
fn horizontal_bar_is_reconnected_across_the_hole() {
    // A single horizontal black bar crossing the hole: the two cut
    // boundaries are paired, near-straight connectors rasterize across the
    // hole, and the bar's interior rows are flooded as texture.
    let mut image = BinaryImage::new(100, 100);
    for y in 40..=50 {
        for x in 0..100 {
            image.set_pixel(x, y, true);
        }
    }
    let rect = BoundingRect::new_x_y_w_h(40, 30, 20, 30);
    erase_hole(&mut image, &rect);
    let sc = completor(image);
    let filled = sc.complete_shape(rect).expect("completion should succeed");
    assert_eq!(filled.width, 20);
    assert_eq!(filled.height, 30);
    assert!(count_kind(&filled, FilledHoleElement::Structure) > 0);
    // The middle of the bar band is texture; far above and below is blank.
    assert_eq!(filled.get(10, 15), FilledHoleElement::Texture);
    assert_eq!(filled.get(10, 2), FilledHoleElement::Blank);
    assert_eq!(filled.get(10, 27), FilledHoleElement::Blank);
}

#[test]
fn disk_enclosing_the_hole_yields_no_segments() {
    // A disk of radius 20 at (50,50) strictly contains the 20x20 hole at
    // (40,40): the disk's boundary never crosses the rim, so no segments
    // are extracted and the matrix stays all BLANK.
    let mut image = BinaryImage::new(100, 100);
    for y in 0..100i64 {
        for x in 0..100i64 {
            let dx = x - 50;
            let dy = y - 50;
            if dx * dx + dy * dy <= 20 * 20 {
                image.set_pixel(x as usize, y as usize, true);
            }
        }
    }
    let rect = BoundingRect::new_x_y_w_h(40, 40, 20, 20);
    erase_hole(&mut image, &rect);
    let sc = completor(image);
    let filled = sc.complete_shape(rect).expect("completion should succeed");
    assert_eq!(count_kind(&filled, FilledHoleElement::Structure), 0);
    assert_eq!(count_kind(&filled, FilledHoleElement::Texture), 0);
}

#[test]
fn disk_crossing_the_hole_rim_completes() {
    // A disk whose boundary crosses the hole rim: completion succeeds and
    // reconstructs structure through the hole.
    let mut image = BinaryImage::new(100, 100);
    for y in 0..100i64 {
        for x in 0..100i64 {
            let dx = x - 50;
            let dy = y - 50;
            if dx * dx + dy * dy <= 12 * 12 {
                image.set_pixel(x as usize, y as usize, true);
            }
        }
    }
    let rect = BoundingRect::new_x_y_w_h(40, 40, 20, 20);
    erase_hole(&mut image, &rect);
    let sc = completor(image);
    match sc.complete_shape(rect) {
        Ok(filled) => {
            assert!(count_kind(&filled, FilledHoleElement::Structure) > 0);
        }
        Err(e) => panic!("completion failed: {}", e.message()),
    }
}

#[test]
fn empty_hole_on_empty_image_is_all_blank() {
    let image = BinaryImage::new(100, 100);
    let rect = BoundingRect::new_x_y_w_h(40, 30, 20, 30);
    let sc = completor(image);
    let filled = sc.complete_shape(rect).expect("completion should succeed");
    assert_eq!(filled.width, 20);
    assert_eq!(filled.height, 30);
    assert_eq!(count_kind(&filled, FilledHoleElement::Structure), 0);
    assert_eq!(count_kind(&filled, FilledHoleElement::Texture), 0);
}

#[test]
fn too_many_endpoints_aggregate_errors_in_expansion_order() {
    // A comb of many teeth crossing the rim overflows the bipartition
    // enumeration; the hole touches the left image edge, so the first
    // (leftward) expansion is out of range and the remaining expansions
    // fail the same way as the unexpanded hole.
    let mut image = BinaryImage::new(100, 60);
    for t in 0..12 {
        let y0 = 2 + 4 * t;
        for y in y0..y0 + 2 {
            for x in 0..60 {
                image.set_pixel(x, y, true);
            }
        }
    }
    let rect = BoundingRect::new_x_y_w_h(0, 0, 40, 56);
    erase_hole(&mut image, &rect);
    let sc = completor(image);
    match sc.complete_shape(rect) {
        Err(CompletionError::TooManyEndpoints) => {}
        other => panic!("expected too many endpoints, got {:?}", other.map(|_| ())),
    }
    match sc.complete_shape_and_draw_expandable(rect) {
        Err(errors) => {
            assert_eq!(errors.len(), 5);
            assert_eq!(errors[0], CompletionError::TooManyEndpoints);
            assert_eq!(errors[1], CompletionError::ExpansionOutOfRange);
        }
        Ok(()) => panic!("expected the expandable completion to fail"),
    }
}

#[test]
fn odd_segment_count_is_reported() {
    // Three segments cannot be paired.
    let seg = vec![
        vec![Point2 { x: 0, y: 0 }, Point2 { x: 1, y: 0 }],
        vec![Point2 { x: 5, y: 0 }, Point2 { x: 6, y: 0 }],
        vec![Point2 { x: 9, y: 0 }, Point2 { x: 8, y: 0 }],
    ];
    let image = BinaryImage::new(10, 10);
    let sc = completor(image);
    match sc.construct_match_item_set(&seg) {
        Err(e) => {
            assert_eq!(e, CompletionError::OddSegments);
            assert_eq!(e.message(), "There must be an even number of path segments.");
        }
        Ok(_) => panic!("expected the odd segment count to be rejected"),
    }
}

#[test]
fn completion_is_deterministic() {
    // The same image, hole and configuration give the same matrix.
    let mut image = BinaryImage::new(100, 100);
    for y in 40..=50 {
        for x in 0..100 {
            image.set_pixel(x, y, true);
        }
    }
    let rect = BoundingRect::new_x_y_w_h(40, 30, 20, 30);
    erase_hole(&mut image, &rect);
    let sc = completor(image);
    let a = sc.complete_shape(rect).expect("first run");
    let b = sc.complete_shape(rect).expect("second run");
    assert_eq!(a.width, b.width);
    assert_eq!(a.height, b.height);
    for y in 0..a.height {
        for x in 0..a.width {
            assert_eq!(a.get(x, y), b.get(x, y));
        }
    }
}

#[test]
fn crossing_lines_scenario_runs_to_a_sound_outcome() {
    // Two thin crossing diagonals with the hole over the crossing: either
    // some matching yields non-crossing connectors and structure is drawn,
    // or every candidate matching is rejected by the crossing test.
    let mut image = BinaryImage::new(100, 100);
    for i in 0..100i64 {
        for d in 0..2i64 {
            let y1 = i + d;
            let y2 = 99 - i + d;
            if 0 <= y1 && y1 < 100 {
                image.set_pixel(i as usize, y1 as usize, true);
            }
            if 0 <= y2 && y2 < 100 {
                image.set_pixel(i as usize, y2 as usize, true);
            }
        }
    }
    let rect = BoundingRect::new_x_y_w_h(40, 40, 20, 20);
    erase_hole(&mut image, &rect);
    let sc = completor(image);
    match sc.complete_shape(rect) {
        Ok(filled) => {
            assert!(count_kind(&filled, FilledHoleElement::Structure) > 0);
        }
        Err(e) => {
            assert_eq!(e, CompletionError::NotIntrapolated);
        }
    }
}

#[test]
fn error_messages_match_their_variants() {
    assert_eq!(
        CompletionError::OddSegments.message(),
        "There must be an even number of path segments."
    );
    assert_eq!(CompletionError::NotIntrapolated.message(), "Still not intrapolated.");
    assert_eq!(CompletionError::ExpansionOutOfRange.message(), "Expansion out of range.");
    assert_eq!(
        CompletionError::TooManyEndpoints.message(),
        "Too many segments to enumerate bipartitions."
    );
}
