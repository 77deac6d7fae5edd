//! Where a Rust type meets a term.

use vstd::prelude::*;

verus! {

/// States a type's shape in whichever vocabulary an interpretation provides.
pub trait ShapeOf<Alg> {
    /// The shape the interpretation builds for this type.
    type Shape: View;

    /// The shape this type states under one interpretation.
    spec fn spec_shape_of(alg: &Alg) -> <Self::Shape as View>::V;

    /// Describes this type to the interpretation.
    fn shape_of(alg: &Alg) -> (r: Self::Shape)
        ensures
            r@ == Self::spec_shape_of(alg),
    ;
}

} // verus!
