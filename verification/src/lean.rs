//! The Lean sources.

pub mod elan;
