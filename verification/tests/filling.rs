use shapecompletion::filler::{FilledHoleElement, FilledHoleMatrix, HoleFiller};
use shapecompletion::image::BinaryImage;
use shapecompletion::point::Point2;
use shapecompletion::rect::BoundingRect;
use shapecompletion::spline::{CubicCurve, Spline};

fn cell(m: &FilledHoleMatrix, x: usize, y: usize) -> FilledHoleElement {
    m.get(x, y)
}

fn assert_saturated(m: &FilledHoleMatrix) {
    for y in 0..m.height {
        for x in 0..m.width {
            if cell(m, x, y) == FilledHoleElement::Texture {
                if x + 1 < m.width {
                    assert_ne!(cell(m, x + 1, y), FilledHoleElement::Blank);
                }
                if x > 0 {
                    assert_ne!(cell(m, x - 1, y), FilledHoleElement::Blank);
                }
                if y + 1 < m.height {
                    assert_ne!(cell(m, x, y + 1), FilledHoleElement::Blank);
                }
                if y > 0 {
                    assert_ne!(cell(m, x, y - 1), FilledHoleElement::Blank);
                }
            }
        }
    }
}

#[test]
fn new_matrix_is_all_blank() {
    let m = FilledHoleMatrix::new(4, 3);
    assert_eq!(m.width, 4);
    assert_eq!(m.height, 3);
    for y in 0..3 {
        for x in 0..4 {
            assert_eq!(cell(&m, x, y), FilledHoleElement::Blank);
        }
    }
}

#[test]
fn flood_fill_paints_whole_blank_region() {
    let mut m = FilledHoleMatrix::new(5, 5);
    HoleFiller::fill_hole_recursive(&mut m, Point2 { x: 2, y: 2 });
    for y in 0..5 {
        for x in 0..5 {
            assert_eq!(cell(&m, x, y), FilledHoleElement::Texture);
        }
    }
}

#[test]
fn flood_fill_stops_at_structure() {
    // A vertical structure wall at x == 2 confines the flood to the left.
    let mut m = FilledHoleMatrix::new(5, 3);
    for y in 0..3 {
        m.set(2, y, FilledHoleElement::Structure);
    }
    HoleFiller::fill_hole_recursive(&mut m, Point2 { x: 0, y: 1 });
    for y in 0..3 {
        assert_eq!(cell(&m, 0, y), FilledHoleElement::Texture);
        assert_eq!(cell(&m, 1, y), FilledHoleElement::Texture);
        assert_eq!(cell(&m, 2, y), FilledHoleElement::Structure);
        assert_eq!(cell(&m, 3, y), FilledHoleElement::Blank);
        assert_eq!(cell(&m, 4, y), FilledHoleElement::Blank);
    }
    assert_saturated(&m);
}

#[test]
fn flood_fill_out_of_bounds_seed_is_noop() {
    let mut m = FilledHoleMatrix::new(3, 3);
    HoleFiller::fill_hole_recursive(&mut m, Point2 { x: -1, y: 7 });
    for y in 0..3 {
        for x in 0..3 {
            assert_eq!(cell(&m, x, y), FilledHoleElement::Blank);
        }
    }
}

#[test]
fn rasterized_straight_curve_marks_structure_row() {
    // A straight horizontal cubic across a 10 by 5 hole at y == 2.
    let s = 1000i64;
    let c = CubicCurve {
        start: Point2 { x: 0, y: 2 * s },
        ctrl1: Point2 { x: 3 * s, y: 2 * s },
        ctrl2: Point2 { x: 6 * s, y: 2 * s },
        end: Point2 { x: 9 * s, y: 2 * s },
    };
    let mut m = FilledHoleMatrix::new(10, 5);
    HoleFiller::rasterize_bezier_curve(&mut m, &c);
    for x in 0..9 {
        assert_eq!(cell(&m, x, 2), FilledHoleElement::Structure, "column {}", x);
    }
    for x in 0..10 {
        assert_eq!(cell(&m, x, 0), FilledHoleElement::Blank);
        assert_eq!(cell(&m, x, 4), FilledHoleElement::Blank);
    }
}

#[test]
fn adjust_endpoints_snaps_to_nearest_side() {
    let rect = BoundingRect::new_x_y_w_h(10, 10, 10, 10);
    let endpoints = vec![
        Point2 { x: 12, y: 10 },  // already on the rim
        Point2 { x: 15, y: 12 },  // inside, nearer the top
        Point2 { x: 15, y: 18 },  // inside, nearer the bottom
        Point2 { x: 5, y: 5 },    // outside both bands: top-left corner
    ];
    let adjusted = HoleFiller::adjust_endpoints(&rect, endpoints);
    assert_eq!(adjusted[0], Point2 { x: 12, y: 10 });
    assert_eq!(adjusted[1], Point2 { x: 15, y: 10 });
    assert_eq!(adjusted[2], Point2 { x: 15, y: 20 });
    assert_eq!(adjusted[3], Point2 { x: 10, y: 10 });
}

#[test]
fn fill_with_straight_connector_floods_foreground_side() {
    // Image: foreground above the hole (y < 10); hole at (0, 10) size 8x6.
    // One straight connector across the hole at its top row keeps the
    // flood near the foreground side.
    let mut image = BinaryImage::new(8, 20);
    for y in 0..10 {
        for x in 0..8 {
            image.set_pixel(x, y, true);
        }
    }
    let rect = BoundingRect::new_x_y_w_h(0, 10, 8, 6);
    let s = 1000i64;
    let connector = Spline {
        curves: vec![CubicCurve {
            start: Point2 { x: 0, y: 11 * s },
            ctrl1: Point2 { x: 2 * s, y: 11 * s },
            ctrl2: Point2 { x: 5 * s, y: 11 * s },
            end: Point2 { x: 7 * s, y: 11 * s },
        }],
    };
    let endpoints = vec![Point2 { x: 0, y: 11 }, Point2 { x: 7, y: 11 }];
    let filled = HoleFiller::fill(&image, rect, vec![connector], endpoints);
    assert_eq!(filled.width, 8);
    assert_eq!(filled.height, 6);
    assert_saturated(&filled);
    let mut structures = 0;
    for y in 0..6 {
        for x in 0..8 {
            if cell(&filled, x, y) == FilledHoleElement::Structure {
                structures += 1;
            }
        }
    }
    assert!(structures >= 6);
}

#[test]
fn trimming_drops_the_requested_column_and_row() {
    let mut m = FilledHoleMatrix::new(3, 2);
    m.set(0, 0, FilledHoleElement::Structure);
    m.set(2, 1, FilledHoleElement::Texture);
    let no_first_col = m.new_without_column(0);
    assert_eq!(no_first_col.width, 2);
    assert_eq!(no_first_col.height, 2);
    assert_eq!(no_first_col.get(0, 0), FilledHoleElement::Blank);
    assert_eq!(no_first_col.get(1, 1), FilledHoleElement::Texture);
    let no_last_row = m.new_without_row(1);
    assert_eq!(no_last_row.width, 3);
    assert_eq!(no_last_row.height, 1);
    assert_eq!(no_last_row.get(0, 0), FilledHoleElement::Structure);
    assert_eq!(no_last_row.get(2, 0), FilledHoleElement::Blank);
}
