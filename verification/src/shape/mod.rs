//! Data shapes: the algebra an interpretation implements, the operations derived from it, shape
//! declarations, what a layout's attributes state, how names are spelled, and one interpretation
//! that describes a shape as readable text.

pub mod algebra;
pub mod derived;
pub mod edge;
pub mod program;
pub mod spell;
pub mod std_shapes;
pub mod description;
pub mod layout;
