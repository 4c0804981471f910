//! Stable public API for the composition root.

pub mod confirmation;
pub mod host;
pub mod types;
