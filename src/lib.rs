//! Content-aware crop selection: resolution planning, candidate enumeration,
//! selection of the best-scoring candidate and the integer feature channels.

pub mod geometry;
pub mod candidates;
pub mod select;
pub mod plan;
pub mod features;
pub mod finish;
pub mod resample;

pub use geometry::{CropError, CropSize};
