//! Reconstruction of the missing interior of a rectangular hole punched out
//! of a binary raster image.
//!
//! Foreground boundary curves that enter the hole from its rim are located,
//! paired, and connected by smooth cubic-Bezier connectors whose tangents
//! continue the observed boundaries; the connectors are rasterized into a
//! classification matrix and the foreground side is flood-filled as texture.
//!
//! All continuous coordinates are fixed-point integers (see [`fixed`]), so
//! every stage of the pipeline is expressed over plain integer values.

pub mod fixed;
pub mod point;
pub mod rect;
pub mod geo;
pub mod spline;
pub mod matcher_helper;
pub mod matcher;
pub mod curve;
pub mod image;
pub mod filler;
pub mod debugger;
pub mod simplify;
pub mod completor;
