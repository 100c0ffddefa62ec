//! Matrix and transform types.

pub mod transform;
