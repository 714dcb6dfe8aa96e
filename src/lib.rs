//! Iso-contour extraction for a sampled 2D scalar field: threshold
//! classification, marching-squares topology codes, case-table
//! triangulation with greedy merging of uniform interior regions, and
//! vertex welding on bit-exact coordinates.
//!
//! Scalar samples and coordinates are carried as the IEEE-754 bit patterns
//! of `f32` values (`u32`), so that every decision made here is exact.

pub mod cases;
pub mod field_source;
pub mod float_bits;
pub mod grid;
pub mod laws;
pub mod marching_squares;
pub mod threshold_layer;
pub mod triangulation;
