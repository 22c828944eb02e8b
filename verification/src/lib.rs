//! Data layer for an interactive line/stack chart.
//!
//! Given an ordered sequence of records, a declarative list of line and
//! stack definitions, and optional axis-range overrides, this crate
//! computes the coordinate domain of the chart (ranges, normalized
//! positions, a bounding box) and answers nearest-point queries for
//! pointer-driven interaction. Rendering, pointer capture and layout are
//! external collaborators: they hand this crate plain values and take
//! plain values back.

pub mod bounds;
pub mod pos;
pub mod series;
pub mod use_data;
