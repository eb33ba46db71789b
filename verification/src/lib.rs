//! Samplers for language-model logits: a verified pipeline that turns a
//! vector of per-token scores into one selected token, through composable
//! filter, penalty, and selector stages with a reflection-based
//! configuration layer. Scores are held in signed 64-bit fixed point
//! with 24 fractional bits; a container holds at most 2^24 entries (one
//! per raw probability unit), a bound the float boundary checks before
//! construction.

pub mod chain;
pub mod configure;
pub mod prelude;
pub mod fixed;
pub mod fxmath;
pub mod rand;
pub mod resource;
pub mod samplers;
pub mod types;

pub use fixed::Fx;
