//! Tuning support: the packed layout of the parameters with their bounds, move notation and
//! game records.
pub mod types;
pub mod san;
pub mod pgn;
pub mod emit;
pub mod dataset;
pub mod render;
