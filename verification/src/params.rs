//! Evaluation parameters and the helpers that flatten them for tuning.
pub mod helpers;
pub mod types;
