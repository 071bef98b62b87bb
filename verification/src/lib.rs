//! Renders a rectangular slice of a geospatial dataset as an SVG document.
//!
//! The library holds the verified core of the pipeline: a point index
//! mapping node identifiers to projected planar coordinates, a bounding
//! region with a strict-interior membership test, a priority-ordered style
//! table, a priority-bucketed drawing accumulator, and the per-entity
//! rendering and document serialization logic. Reading the dataset,
//! projecting geographic coordinates, and writing the output file are left
//! to the surrounding application.

pub mod node_index;
pub mod numfmt;
pub mod render;
pub mod select_box;
pub mod style;
pub mod svg;
