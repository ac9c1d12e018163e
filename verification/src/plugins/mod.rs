//! Transformation units: what every unit offers, and the path optimizer.

pub mod path;
pub mod traits;
