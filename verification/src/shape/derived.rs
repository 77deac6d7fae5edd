//! The operations a shape's primitives derive.
//!
//! Nothing here is observed by an interpretation. Every tagged encoding of a choice is a choice of
//! products over a name-valued discriminant, so an interpretation implements the primitives and gets
//! all of them, and each states, over the primitives' own values, which term it builds.

use crate::shape::algebra::{views_of, words_view, FieldAlg, ShapeAlg, Words};
use vstd::prelude::*;

verus! {

/// The shapes of the alternatives, without their names.
pub open spec fn alternative_shapes<'w, T: View>(alternatives: Seq<(Words<'w>, T)>) -> Seq<T::V> {
    alternatives.map_values(|alternative: (Words<'w>, T)| alternative.1@)
}

/// A choice between names alone: one name-valued constant per name.
pub open spec fn names_choice<'w, A: ShapeAlg + ?Sized>(alg: &A, names: Seq<Words<'w>>) -> <A::Ty as View>::V {
    alg.spec_choice(names.map_values(|words: Words<'w>| alg.spec_name_word(words_view(words))))
}

/// One object keyed by the alternative's name.
pub open spec fn external_alternative<'w, A: ShapeAlg + FieldAlg + ?Sized>(
    alg: &A,
    alternative: (Words<'w>, A::Ty),
) -> <A::Ty as View>::V {
    alg.spec_product(seq![alg.spec_field(words_view(alternative.0), alternative.1@)])
}

/// One object carrying the alternative's name under `tag`, beside its own members.
pub open spec fn internal_alternative<'w, A: ShapeAlg + FieldAlg + ?Sized>(
    alg: &A,
    tag: Words<'w>,
    alternative: (Words<'w>, A::Ty),
) -> <A::Ty as View>::V {
    alg.spec_product(
        seq![
            alg.spec_field(words_view(tag), alg.spec_name_word(words_view(alternative.0))),
            alg.spec_merge(alternative.1@),
        ],
    )
}

/// One object carrying the alternative's name under `tag` and its value under `content`.
pub open spec fn adjacent_alternative<'w, A: ShapeAlg + FieldAlg + ?Sized>(
    alg: &A,
    tag: Words<'w>,
    content: Words<'w>,
    alternative: (Words<'w>, A::Ty),
) -> <A::Ty as View>::V {
    alg.spec_product(
        seq![
            alg.spec_field(words_view(tag), alg.spec_name_word(words_view(alternative.0))),
            alg.spec_field(words_view(content), alternative.1@),
        ],
    )
}

/// The shape operations that follow from the primitives alone.
pub trait ShapeExt: ShapeAlg {
    /// Bytes written as hexadecimal.
    fn bytes_hex(&self, len: Option<usize>) -> (r: Self::Ty)
        ensures
            r@ == self.spec_hex(self.spec_bytes(len)),
    {
        let bytes = self.bytes(len);
        self.hex(bytes)
    }

    /// Bytes written as an array of JSON numbers, which is a sequence of octets and nothing more.
    fn bytes_array(&self) -> (r: Self::Ty)
        ensures
            r@ == self.spec_seq(self.spec_integer(false, 8)),
    {
        let octet = self.integer(false, 8);
        self.seq(octet)
    }

    /// An integer written as decimal digits, for a width a JSON number cannot hold.
    fn int_decimal(&self, signed: bool, bits: u16) -> (r: Self::Ty)
        ensures
            r@ == self.spec_decimal(self.spec_integer(signed, bits)),
    {
        let item = self.integer(signed, bits);
        self.decimal(item)
    }

    /// An integer written as a `0x` quantity, as the Ethereum JSON-RPC specification states one.
    fn int_hex(&self, signed: bool, bits: u16) -> (r: Self::Ty)
        ensures
            r@ == self.spec_hex(self.spec_integer(signed, bits)),
    {
        let item = self.integer(signed, bits);
        self.hex(item)
    }

    /// A named product: the shape most types have.
    fn named_product(&self, words: Words<'_>, fields: Vec<Self::Field>) -> (r: Self::Ty)
        ensures
            r@ == self.spec_named(words_view(words), self.spec_product(views_of(fields@))),
    {
        let body = self.product(fields);
        self.named(words, body)
    }

    /// A choice written as the alternative's value alone, with no discriminant on the wire.
    fn sum_untagged<'w>(&self, alternatives: Vec<(Words<'w>, Self::Ty)>) -> (r: Self::Ty)
        ensures
            r@ == self.spec_choice(alternative_shapes(alternatives@)),
    {
        let ghost all = alternatives@;
        let mut shapes: Vec<Self::Ty> = Vec::new();
        for alternative in it: alternatives.into_iter()
            invariant
                all == alternatives@,
                it.seq() == all,
                it.index() <= all.len(),
                views_of(shapes@) == alternative_shapes(all.take(it.index() as int)),
        {
            let ghost index = it.index() as int;
            assert(alternative == all[index]);
            let (_, shape) = alternative;
            shapes.push(shape);
            proof {
                assert(alternative_shapes(all.take(index + 1)) =~= alternative_shapes(
                    all.take(index),
                ).push(shape@));
            }
        }
        proof {
            assert(all.take(all.len() as int) =~= all);
        }
        self.choice(shapes)
    }

    /// A choice between names alone, which is a choice between name-valued constants.
    fn sum_of_names<'w>(&self, names: Vec<Words<'w>>) -> (r: Self::Ty)
        ensures
            r@ == names_choice(self, names@),
    {
        let ghost all = names@;
        let mut shapes: Vec<Self::Ty> = Vec::new();
        for words in it: names.into_iter()
            invariant
                all == names@,
                it.seq() == all,
                it.index() <= all.len(),
                views_of(shapes@) == all.take(it.index() as int).map_values(
                    |words: Words<'w>| self.spec_name_word(words_view(words)),
                ),
        {
            let ghost index = it.index() as int;
            assert(words == all[index]);
            let shape = self.name_word(words);
            shapes.push(shape);
            proof {
                assert(all.take(index + 1).map_values(
                    |words: Words<'w>| self.spec_name_word(words_view(words)),
                ) =~= all.take(index).map_values(
                    |words: Words<'w>| self.spec_name_word(words_view(words)),
                ).push(shape@));
            }
        }
        proof {
            assert(all.take(all.len() as int) =~= all);
        }
        self.choice(shapes)
    }
}

impl<This: ShapeAlg> ShapeExt for This {

}

/// The encodings of a choice that state a discriminant, which is what needs a member to state it in.
pub trait ShapeTaggedExt: ShapeAlg + FieldAlg {
    /// A choice written as one object per alternative, keyed by its name.
    fn sum_external<'w>(&self, alternatives: Vec<(Words<'w>, Self::Ty)>) -> (r: Self::Ty)
        ensures
            r@ == self.spec_choice(
                alternatives@.map_values(
                    |alternative: (Words<'w>, Self::Ty)| external_alternative(self, alternative),
                ),
            ),
    {
        let ghost all = alternatives@;
        let mut shapes: Vec<Self::Ty> = Vec::new();
        for alternative in it: alternatives.into_iter()
            invariant
                all == alternatives@,
                it.seq() == all,
                it.index() <= all.len(),
                views_of(shapes@) == all.take(it.index() as int).map_values(
                    |alternative: (Words<'w>, Self::Ty)| external_alternative(self, alternative),
                ),
        {
            let ghost index = it.index() as int;
            assert(alternative == all[index]);
            let (words, shape) = alternative;
            let member = self.field(words, shape);
            let ghost stated = seq![member@];
            let members = vec![member];
            assert(views_of(members@) =~= stated);
            let shape = self.product(members);
            assert(shape@ == external_alternative(self, alternative));
            shapes.push(shape);
            proof {
                assert(all.take(index + 1).map_values(
                    |alternative: (Words<'w>, Self::Ty)| external_alternative(self, alternative),
                ) =~= all.take(index).map_values(
                    |alternative: (Words<'w>, Self::Ty)| external_alternative(self, alternative),
                ).push(shape@));
            }
        }
        proof {
            assert(all.take(all.len() as int) =~= all);
        }
        self.choice(shapes)
    }

    /// A choice written as one object carrying its name under `tag`, beside its own members.
    fn sum_internal<'w>(&self, tag: Words<'w>, alternatives: Vec<(Words<'w>, Self::Ty)>) -> (r:
        Self::Ty)
        ensures
            r@ == self.spec_choice(
                alternatives@.map_values(
                    |alternative: (Words<'w>, Self::Ty)|
                        internal_alternative(self, tag, alternative),
                ),
            ),
    {
        let ghost all = alternatives@;
        let mut shapes: Vec<Self::Ty> = Vec::new();
        for alternative in it: alternatives.into_iter()
            invariant
                all == alternatives@,
                it.seq() == all,
                it.index() <= all.len(),
                views_of(shapes@) == all.take(it.index() as int).map_values(
                    |alternative: (Words<'w>, Self::Ty)|
                        internal_alternative(self, tag, alternative),
                ),
        {
            let ghost index = it.index() as int;
            assert(alternative == all[index]);
            let (words, shape) = alternative;
            let name = self.name_word(words);
            let discriminant = self.field(tag, name);
            let merged = self.merge(shape);
            let ghost stated = seq![discriminant@, merged@];
            let members = vec![discriminant, merged];
            assert(views_of(members@) =~= stated);
            let shape = self.product(members);
            assert(shape@ == internal_alternative(self, tag, alternative));
            shapes.push(shape);
            proof {
                assert(all.take(index + 1).map_values(
                    |alternative: (Words<'w>, Self::Ty)|
                        internal_alternative(self, tag, alternative),
                ) =~= all.take(index).map_values(
                    |alternative: (Words<'w>, Self::Ty)|
                        internal_alternative(self, tag, alternative),
                ).push(shape@));
            }
        }
        proof {
            assert(all.take(all.len() as int) =~= all);
        }
        self.choice(shapes)
    }

    /// A choice written as one object carrying its name under `tag` and its value under `content`.
    fn sum_adjacent<'w>(
        &self,
        tag: Words<'w>,
        content: Words<'w>,
        alternatives: Vec<(Words<'w>, Self::Ty)>,
    ) -> (r: Self::Ty)
        ensures
            r@ == self.spec_choice(
                alternatives@.map_values(
                    |alternative: (Words<'w>, Self::Ty)|
                        adjacent_alternative(self, tag, content, alternative),
                ),
            ),
    {
        let ghost all = alternatives@;
        let mut shapes: Vec<Self::Ty> = Vec::new();
        for alternative in it: alternatives.into_iter()
            invariant
                all == alternatives@,
                it.seq() == all,
                it.index() <= all.len(),
                views_of(shapes@) == all.take(it.index() as int).map_values(
                    |alternative: (Words<'w>, Self::Ty)|
                        adjacent_alternative(self, tag, content, alternative),
                ),
        {
            let ghost index = it.index() as int;
            assert(alternative == all[index]);
            let (words, shape) = alternative;
            let name = self.name_word(words);
            let discriminant = self.field(tag, name);
            let value = self.field(content, shape);
            let ghost stated = seq![discriminant@, value@];
            let members = vec![discriminant, value];
            assert(views_of(members@) =~= stated);
            let shape = self.product(members);
            assert(shape@ == adjacent_alternative(self, tag, content, alternative));
            shapes.push(shape);
            proof {
                assert(all.take(index + 1).map_values(
                    |alternative: (Words<'w>, Self::Ty)|
                        adjacent_alternative(self, tag, content, alternative),
                ) =~= all.take(index).map_values(
                    |alternative: (Words<'w>, Self::Ty)|
                        adjacent_alternative(self, tag, content, alternative),
                ).push(shape@));
            }
        }
        proof {
            assert(all.take(all.len() as int) =~= all);
        }
        self.choice(shapes)
    }
}

impl<This: ShapeAlg + FieldAlg> ShapeTaggedExt for This {

}

} // verus!
