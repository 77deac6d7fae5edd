//! A shape stated as a declaration.
//!
//! A declaration becomes a program: a value that answers with a shape once an algebra is handed to
//! it. A declaration reaches its primitives and its members through the same receiver, which is why
//! the operations below are extensions over the algebra rather than methods on a builder of their
//! own.

use crate::shape::algebra::{views_of, words_view, FieldAlg, ShapeAlg, Sorts, Words};
use crate::shape::derived::ShapeExt;
use crate::shape::edge::ShapeOf;
use vstd::prelude::*;

verus! {

/// States the shape a declaration denotes, once an algebra interprets it.
pub trait ShapeProgramAlg<Alg>: Sized {
    /// The shape the algebra builds.
    type Ty: View;

    /// The shape this declaration denotes under the algebra.
    spec fn spec_compile_shape(self, alg: &Alg) -> <Self::Ty as View>::V;

    /// Folds this declaration with the algebra.
    fn compile_shape(self, alg: &Alg) -> (r: Self::Ty)
        ensures
            r@ == self.spec_compile_shape(alg),
    ;
}

/// Compiles a shape declaration with an interpretation.
pub trait ShapeProgramExt: Sized {
    /// Folds a declaration with this interpretation.
    fn compile_shape<Program: ShapeProgramAlg<Self>>(&self, program: Program) -> (r: Program::Ty)
        ensures
            r@ == program.spec_compile_shape(self),
    {
        program.compile_shape(self)
    }
}

impl<This> ShapeProgramExt for This {

}

/// A product being stated, holding the algebra it is stated against.
///
/// Members are built as they arrive, since a declaration has the algebra in hand from its first
/// call.
pub struct Record<'a, A> where A: Sorts {
    alg: &'a A,
    words: Words<'a>,
    members: Vec<A::Field>,
}

impl<'a, A> Record<'a, A> where A: Sorts {
    /// The algebra the product is stated against.
    pub closed spec fn algebra(&self) -> A {
        *self.alg
    }

    /// The name the product is stated under.
    pub closed spec fn name(&self) -> Seq<Seq<char>> {
        words_view(self.words)
    }

    /// The members stated so far, in order.
    pub closed spec fn members(&self) -> Seq<<A::Field as View>::V> {
        views_of(self.members@)
    }
}

impl<'a, A> Record<'a, A> where A: ShapeAlg + FieldAlg {
    /// States one member, under the name it is written with.
    pub fn field(self, words: Words<'_>, shape: A::Ty) -> (r: Self)
        ensures
            r.algebra() == self.algebra(),
            r.name() == self.name(),
            r.members() == self.members().push(
                self.algebra().spec_field(words_view(words), shape@),
            ),
    {
        let mut this = self;
        let member = this.alg.field(words, shape);
        this.members.push(member);
        this
    }

    /// States one member, and the type a layout carries it in.
    ///
    /// The type is the layout's business and not this one's: nothing here reads it.
    pub fn field_as<Carrier>(self, words: Words<'_>, shape: A::Ty) -> (r: Self)
        ensures
            r.algebra() == self.algebra(),
            r.name() == self.name(),
            r.members() == self.members().push(
                self.algebra().spec_field(words_view(words), shape@),
            ),
    {
        let mut this = self;
        let member = this.alg.field(words, shape);
        this.members.push(member);
        this
    }

    /// States one member whose shape its own type states.
    pub fn field_of<Carrier>(self, words: Words<'_>) -> (r: Self) where
        Carrier: ShapeOf<A, Shape = A::Ty>,

        ensures
            r.algebra() == self.algebra(),
            r.name() == self.name(),
            r.members() == self.members().push(
                self.algebra().spec_field(words_view(words), Carrier::spec_shape_of(&self.algebra())),
            ),
    {
        let mut this = self;
        let shape = Carrier::shape_of(this.alg);
        let member = this.alg.field(words, shape);
        this.members.push(member);
        this
    }

    /// States another product's members as this one's own.
    pub fn merge(self, shape: A::Ty) -> (r: Self)
        ensures
            r.algebra() == self.algebra(),
            r.name() == self.name(),
            r.members() == self.members().push(self.algebra().spec_merge(shape@)),
    {
        let mut this = self;
        let member = this.alg.merge(shape);
        this.members.push(member);
        this
    }

    /// Answers with the shape this product states: the named product of its members.
    pub fn into_shape(self) -> (r: A::Ty)
        ensures
            r@ == self.algebra().spec_named(
                self.name(),
                self.algebra().spec_product(self.members()),
            ),
    {
        self.alg.named_product(self.words, self.members)
    }
}

/// The operations a declaration's body states.
pub trait ShapeDeclareExt: ShapeAlg + FieldAlg + Sized {
    /// Opens the product a declaration states, under the name the declaration carries.
    fn record<'a>(&'a self, words: Words<'a>) -> (r: Record<'a, Self>)
        ensures
            r.algebra() == *self,
            r.name() == words_view(words),
            r.members() == Seq::<<Self::Field as View>::V>::empty(),
    {
        Record { alg: self, words, members: Vec::new() }
    }

    /// The shape another declaration states, folded here.
    fn program<Program>(&self, program: Program) -> (r: Self::Ty) where
        Program: ShapeProgramAlg<Self, Ty = Self::Ty>,

        ensures
            r@ == program.spec_compile_shape(self),
    {
        program.compile_shape(self)
    }
}

impl<This: ShapeAlg + FieldAlg> ShapeDeclareExt for This {

}

} // verus!
