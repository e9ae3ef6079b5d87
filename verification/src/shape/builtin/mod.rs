//! Shapes that are not tied to any question.

pub mod circle;
pub mod geodesic;
