//! Value transformations.
pub mod string_ops;
