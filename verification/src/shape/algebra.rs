//! The sorts of a data shape, and the primitives over them.
//!
//! Each primitive states, beside itself, the value it answers with, so what an operation derived
//! from the primitives answers is stated over those values too.

use vstd::prelude::*;

verus! {

/// A name: the words it is made of, in order. Spelling is not part of a name.
pub type Words<'a> = &'a [&'a str];

/// The words of a name, as text.
pub open spec fn words_view(words: &[&str]) -> Seq<Seq<char>> {
    words_seq(words@)
}

/// A sequence of words, as text.
pub open spec fn words_seq(words: Seq<&str>) -> Seq<Seq<char>> {
    words.map_values(|word: &str| word@)
}

/// The sorts of a data shape.
pub trait Sorts {
    /// A shape.
    type Ty: View;
    /// One member of a product.
    type Field: View;
}

/// The values of a sequence of shapes or members.
pub open spec fn views_of<T: View>(items: Seq<T>) -> Seq<T::V> {
    items.map_values(|item: T| item@)
}

/// The shape sort: what data is, and how it is written.
pub trait ShapeAlg: Sorts {
    /// The boolean shape this interpretation states.
    spec fn spec_truth(&self) -> <Self::Ty as View>::V;

    /// The empty value this interpretation states.
    spec fn spec_unit(&self) -> <Self::Ty as View>::V;

    /// The text shape this interpretation states.
    spec fn spec_text(&self) -> <Self::Ty as View>::V;

    /// The shape of one fixed piece of text.
    spec fn spec_literal(&self, text: Seq<char>) -> <Self::Ty as View>::V;

    /// The shape of a value whose content is a name.
    spec fn spec_name_word(&self, words: Seq<Seq<char>>) -> <Self::Ty as View>::V;

    /// The shape of an integer of a stated width and signedness.
    spec fn spec_integer(&self, signed: bool, bits: u16) -> <Self::Ty as View>::V;

    /// The shape of a floating-point number of a stated width.
    spec fn spec_float(&self, bits: u16) -> <Self::Ty as View>::V;

    /// The shape of opaque bytes.
    spec fn spec_bytes(&self, len: Option<usize>) -> <Self::Ty as View>::V;

    /// The shape written as hexadecimal.
    spec fn spec_hex(&self, item: <Self::Ty as View>::V) -> <Self::Ty as View>::V;

    /// The shape written as decimal digits in text.
    spec fn spec_decimal(&self, item: <Self::Ty as View>::V) -> <Self::Ty as View>::V;

    /// The shape written as base64 text.
    spec fn spec_base64(&self, item: <Self::Ty as View>::V) -> <Self::Ty as View>::V;

    /// The shape of a value that may be absent.
    spec fn spec_opt(&self, item: <Self::Ty as View>::V) -> <Self::Ty as View>::V;

    /// The shape of an ordered sequence.
    spec fn spec_seq(&self, item: <Self::Ty as View>::V) -> <Self::Ty as View>::V;

    /// The shape of an association.
    spec fn spec_map(&self, key: <Self::Ty as View>::V, value: <Self::Ty as View>::V) -> <Self::Ty as View>::V;

    /// The shape of a product of members.
    spec fn spec_product(&self, fields: Seq<<Self::Field as View>::V>) -> <Self::Ty as View>::V;

    /// The shape of a choice between alternatives.
    spec fn spec_choice(&self, alternatives: Seq<<Self::Ty as View>::V>) -> <Self::Ty as View>::V;

    /// The shape introduced under a name.
    spec fn spec_named(&self, words: Seq<Seq<char>>, body: <Self::Ty as View>::V) -> <Self::Ty as View>::V;

    /// The shape named elsewhere.
    spec fn spec_reference(&self, words: Seq<Seq<char>>) -> <Self::Ty as View>::V;

    /// A boolean.
    fn truth(&self) -> (r: Self::Ty)
        ensures
            r@ == self.spec_truth(),
    ;

    /// The empty value: `null`, or an absent member.
    fn unit(&self) -> (r: Self::Ty)
        ensures
            r@ == self.spec_unit(),
    ;

    /// Text.
    fn text(&self) -> (r: Self::Ty)
        ensures
            r@ == self.spec_text(),
    ;

    /// One fixed piece of text, as a value: content that happens to be constant.
    fn literal(&self, text: &str) -> (r: Self::Ty)
        ensures
            r@ == self.spec_literal(text@),
    ;

    /// A value whose content is a name, spelled however the interpretation spells names.
    fn name_word(&self, words: Words<'_>) -> (r: Self::Ty)
        ensures
            r@ == self.spec_name_word(words_view(words)),
    ;

    /// An integer of a stated width and signedness.
    fn integer(&self, signed: bool, bits: u16) -> (r: Self::Ty)
        ensures
            r@ == self.spec_integer(signed, bits),
    ;

    /// A floating-point number of a stated width.
    fn float(&self, bits: u16) -> (r: Self::Ty)
        ensures
            r@ == self.spec_float(bits),
    ;

    /// Opaque bytes, of a stated length when fixed.
    fn bytes(&self, len: Option<usize>) -> (r: Self::Ty)
        ensures
            r@ == self.spec_bytes(len),
    ;

    /// Written as `0x`-prefixed hexadecimal, rather than however the item would appear alone.
    fn hex(&self, item: Self::Ty) -> (r: Self::Ty)
        ensures
            r@ == self.spec_hex(item@),
    ;

    /// Written as decimal digits in text, which is what a width beyond a JSON number requires.
    fn decimal(&self, item: Self::Ty) -> (r: Self::Ty)
        ensures
            r@ == self.spec_decimal(item@),
    ;

    /// Written as base64 text.
    fn base64(&self, item: Self::Ty) -> (r: Self::Ty)
        ensures
            r@ == self.spec_base64(item@),
    ;

    /// A value that may be absent.
    fn opt(&self, item: Self::Ty) -> (r: Self::Ty)
        ensures
            r@ == self.spec_opt(item@),
    ;

    /// An ordered sequence of one shape.
    fn seq(&self, item: Self::Ty) -> (r: Self::Ty)
        ensures
            r@ == self.spec_seq(item@),
    ;

    /// An association from one shape to another.
    fn map(&self, key: Self::Ty, value: Self::Ty) -> (r: Self::Ty)
        ensures
            r@ == self.spec_map(key@, value@),
    ;

    /// A product of members.
    fn product(&self, fields: Vec<Self::Field>) -> (r: Self::Ty)
        ensures
            r@ == self.spec_product(views_of(fields@)),
    ;

    /// A choice between alternatives, carrying no discriminant of its own.
    fn choice(&self, alternatives: Vec<Self::Ty>) -> (r: Self::Ty)
        ensures
            r@ == self.spec_choice(views_of(alternatives@)),
    ;

    /// Introduces a name for a shape, so an interpretation can state it once.
    fn named(&self, words: Words<'_>, body: Self::Ty) -> (r: Self::Ty)
        ensures
            r@ == self.spec_named(words_view(words), body@),
    ;

    /// Uses a name introduced elsewhere, which is what makes recursion expressible.
    fn reference(&self, words: Words<'_>) -> (r: Self::Ty)
        ensures
            r@ == self.spec_reference(words_view(words)),
    ;
}

/// The member sort: the ways one member of a product arises.
pub trait FieldAlg: Sorts {
    /// The member stated under a name.
    spec fn spec_field(&self, words: Seq<Seq<char>>, shape: <Self::Ty as View>::V) -> <Self::Field as View>::V;

    /// Another product's members, observed as this product's own.
    spec fn spec_merge(&self, shape: <Self::Ty as View>::V) -> <Self::Field as View>::V;

    /// A member under the name it is written with.
    fn field(&self, words: Words<'_>, shape: Self::Ty) -> (r: Self::Field)
        ensures
            r@ == self.spec_field(words_view(words), shape@),
    ;

    /// Another product's members, observed as this product's own.
    fn merge(&self, shape: Self::Ty) -> (r: Self::Field)
        ensures
            r@ == self.spec_merge(shape@),
    ;
}

} // verus!
