//! Sequencing of result effects over options and over sequences, keeping the shape of the input.

pub mod iter;
pub mod option;
