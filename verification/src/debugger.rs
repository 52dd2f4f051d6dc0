//! The optional drawing sink injected into the completor.
//!
//! Debug drawing is never load-bearing: the completor's result does not
//! depend on which sink is attached, and the default sink does nothing.

use vstd::prelude::*;
use crate::point::Point2;
use crate::spline::Spline;
use crate::filler::FilledHoleMatrix;

verus! {

/// A sink for intermediate drawings of the completion pipeline.
pub trait Debugger {
    /// Whether simplified segments should be drawn.
    fn should_draw_simplified(&self) -> bool;

    /// Whether smoothed segments should be drawn.
    fn should_draw_smoothed(&self) -> bool;

    /// Whether connector control points should be drawn.
    fn should_draw_control_points(&self) -> bool;

    /// Whether tail tangents should be drawn.
    fn should_draw_tail_tangents(&self) -> bool;

    /// Draw an integer polyline.
    fn draw_path(&self, path: &Vec<Point2>);

    /// Draw a cross at a point.
    fn draw_cross(&self, center: Point2);

    /// Draw a connector spline.
    fn draw_spline(&self, spline: &Spline);

    /// Draw the filled hole at its origin.
    fn draw_filled_hole(&self, filled_hole: &FilledHoleMatrix, origin: Point2);

    /// Log a message.
    fn log(&self, msg: &str);
}

/// The default sink: draws nothing and asks for nothing.
#[derive(Clone, Copy, Debug, Default)]
pub struct DummyDebugger;

impl Debugger for DummyDebugger {
    fn should_draw_simplified(&self) -> bool {
        false
    }

    fn should_draw_smoothed(&self) -> bool {
        false
    }

    fn should_draw_control_points(&self) -> bool {
        false
    }

    fn should_draw_tail_tangents(&self) -> bool {
        false
    }

    fn draw_path(&self, _path: &Vec<Point2>) {
    }

    fn draw_cross(&self, _center: Point2) {
    }

    fn draw_spline(&self, _spline: &Spline) {
    }

    fn draw_filled_hole(&self, _filled_hole: &FilledHoleMatrix, _origin: Point2) {
    }

    fn log(&self, _msg: &str) {
    }
}

} // verus!
