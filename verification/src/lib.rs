//! Verified core of a design-by-meaning toolkit: collection and traversal helpers, a data-shape
//! algebra, words of a text, a direct HTTP interpretation, the scenario its conformance is read by,
//! and what a benchmark run says of itself.

pub mod sdk;
pub mod traversable;
pub mod shape;
pub mod text;
pub mod http;
pub mod conformance;
pub mod bench;
