//! Helpers over options, results and sequences of them.

pub mod collection;
pub mod conversion;
pub mod iteration;
