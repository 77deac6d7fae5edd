//! What the standard types describe.
//!
//! Each states what `serde` writes for that type and nothing more: an integer is a number of its
//! width, not a number written some particular way, because how a quantity should appear is a
//! domain's statement rather than a width's.

use crate::shape::algebra::ShapeAlg;
use crate::shape::edge::ShapeOf;
use std::collections::{BTreeMap, HashMap};
use vstd::arithmetic::power2::{lemma2_to64, lemma2_to64_rest, lemma_pow2_adds, pow2};
use vstd::prelude::*;

verus! {

/// `u8` is an unsigned integer of 8 bits.
impl<A: ShapeAlg> ShapeOf<A> for u8 {
    type Shape = A::Ty;

    open spec fn spec_shape_of(alg: &A) -> <A::Ty as View>::V {
        alg.spec_integer(false, 8)
    }

    fn shape_of(alg: &A) -> (r: A::Ty) {
        alg.integer(false, 8)
    }
}

/// `u16` is an unsigned integer of 16 bits.
impl<A: ShapeAlg> ShapeOf<A> for u16 {
    type Shape = A::Ty;

    open spec fn spec_shape_of(alg: &A) -> <A::Ty as View>::V {
        alg.spec_integer(false, 16)
    }

    fn shape_of(alg: &A) -> (r: A::Ty) {
        alg.integer(false, 16)
    }
}

/// `u32` is an unsigned integer of 32 bits.
impl<A: ShapeAlg> ShapeOf<A> for u32 {
    type Shape = A::Ty;

    open spec fn spec_shape_of(alg: &A) -> <A::Ty as View>::V {
        alg.spec_integer(false, 32)
    }

    fn shape_of(alg: &A) -> (r: A::Ty) {
        alg.integer(false, 32)
    }
}

/// `u64` is an unsigned integer of 64 bits.
impl<A: ShapeAlg> ShapeOf<A> for u64 {
    type Shape = A::Ty;

    open spec fn spec_shape_of(alg: &A) -> <A::Ty as View>::V {
        alg.spec_integer(false, 64)
    }

    fn shape_of(alg: &A) -> (r: A::Ty) {
        alg.integer(false, 64)
    }
}

/// `u128` is an unsigned integer of 128 bits.
impl<A: ShapeAlg> ShapeOf<A> for u128 {
    type Shape = A::Ty;

    open spec fn spec_shape_of(alg: &A) -> <A::Ty as View>::V {
        alg.spec_integer(false, 128)
    }

    fn shape_of(alg: &A) -> (r: A::Ty) {
        alg.integer(false, 128)
    }
}

/// `i8` is a signed integer of 8 bits.
impl<A: ShapeAlg> ShapeOf<A> for i8 {
    type Shape = A::Ty;

    open spec fn spec_shape_of(alg: &A) -> <A::Ty as View>::V {
        alg.spec_integer(true, 8)
    }

    fn shape_of(alg: &A) -> (r: A::Ty) {
        alg.integer(true, 8)
    }
}

/// `i16` is a signed integer of 16 bits.
impl<A: ShapeAlg> ShapeOf<A> for i16 {
    type Shape = A::Ty;

    open spec fn spec_shape_of(alg: &A) -> <A::Ty as View>::V {
        alg.spec_integer(true, 16)
    }

    fn shape_of(alg: &A) -> (r: A::Ty) {
        alg.integer(true, 16)
    }
}

/// `i32` is a signed integer of 32 bits.
impl<A: ShapeAlg> ShapeOf<A> for i32 {
    type Shape = A::Ty;

    open spec fn spec_shape_of(alg: &A) -> <A::Ty as View>::V {
        alg.spec_integer(true, 32)
    }

    fn shape_of(alg: &A) -> (r: A::Ty) {
        alg.integer(true, 32)
    }
}

/// `i64` is a signed integer of 64 bits.
impl<A: ShapeAlg> ShapeOf<A> for i64 {
    type Shape = A::Ty;

    open spec fn spec_shape_of(alg: &A) -> <A::Ty as View>::V {
        alg.spec_integer(true, 64)
    }

    fn shape_of(alg: &A) -> (r: A::Ty) {
        alg.integer(true, 64)
    }
}

/// `i128` is a signed integer of 128 bits.
impl<A: ShapeAlg> ShapeOf<A> for i128 {
    type Shape = A::Ty;

    open spec fn spec_shape_of(alg: &A) -> <A::Ty as View>::V {
        alg.spec_integer(true, 128)
    }

    fn shape_of(alg: &A) -> (r: A::Ty) {
        alg.integer(true, 128)
    }
}

/// `usize` is an unsigned integer of 64 bits.
impl<A: ShapeAlg> ShapeOf<A> for usize {
    type Shape = A::Ty;

    open spec fn spec_shape_of(alg: &A) -> <A::Ty as View>::V {
        alg.spec_integer(false, 64)
    }

    fn shape_of(alg: &A) -> (r: A::Ty) {
        alg.integer(false, 64)
    }
}

/// `isize` is a signed integer of 64 bits.
impl<A: ShapeAlg> ShapeOf<A> for isize {
    type Shape = A::Ty;

    open spec fn spec_shape_of(alg: &A) -> <A::Ty as View>::V {
        alg.spec_integer(true, 64)
    }

    fn shape_of(alg: &A) -> (r: A::Ty) {
        alg.integer(true, 64)
    }
}

/// A `bool` is a boolean.
impl<A: ShapeAlg> ShapeOf<A> for bool {
    type Shape = A::Ty;

    open spec fn spec_shape_of(alg: &A) -> <A::Ty as View>::V {
        alg.spec_truth()
    }

    fn shape_of(alg: &A) -> (r: A::Ty) {
        alg.truth()
    }
}

/// A `String` is text.
impl<A: ShapeAlg> ShapeOf<A> for String {
    type Shape = A::Ty;

    open spec fn spec_shape_of(alg: &A) -> <A::Ty as View>::V {
        alg.spec_text()
    }

    fn shape_of(alg: &A) -> (r: A::Ty) {
        alg.text()
    }
}

/// A `str` is text.
impl<A: ShapeAlg> ShapeOf<A> for str {
    type Shape = A::Ty;

    open spec fn spec_shape_of(alg: &A) -> <A::Ty as View>::V {
        alg.spec_text()
    }

    fn shape_of(alg: &A) -> (r: A::Ty) {
        alg.text()
    }
}

/// The unit type is the empty value.
impl<A: ShapeAlg> ShapeOf<A> for () {
    type Shape = A::Ty;

    open spec fn spec_shape_of(alg: &A) -> <A::Ty as View>::V {
        alg.spec_unit()
    }

    fn shape_of(alg: &A) -> (r: A::Ty) {
        alg.unit()
    }
}

/// An optional value is a value that may be absent.
impl<A: ShapeAlg, T: ShapeOf<A, Shape = A::Ty>> ShapeOf<A> for Option<T> {
    type Shape = A::Ty;

    open spec fn spec_shape_of(alg: &A) -> <A::Ty as View>::V {
        alg.spec_opt(T::spec_shape_of(alg))
    }

    fn shape_of(alg: &A) -> (r: A::Ty) {
        let item = T::shape_of(alg);
        alg.opt(item)
    }
}

/// A vector is an ordered sequence of its element's shape.
impl<A: ShapeAlg, T: ShapeOf<A, Shape = A::Ty>> ShapeOf<A> for Vec<T> {
    type Shape = A::Ty;

    open spec fn spec_shape_of(alg: &A) -> <A::Ty as View>::V {
        alg.spec_seq(T::spec_shape_of(alg))
    }

    fn shape_of(alg: &A) -> (r: A::Ty) {
        let item = T::shape_of(alg);
        alg.seq(item)
    }
}

/// A slice is an ordered sequence of its element's shape.
impl<A: ShapeAlg, T: ShapeOf<A, Shape = A::Ty>> ShapeOf<A> for [T] {
    type Shape = A::Ty;

    open spec fn spec_shape_of(alg: &A) -> <A::Ty as View>::V {
        alg.spec_seq(T::spec_shape_of(alg))
    }

    fn shape_of(alg: &A) -> (r: A::Ty) {
        let item = T::shape_of(alg);
        alg.seq(item)
    }
}

/// An array is an ordered sequence of its element's shape.
impl<A: ShapeAlg, T: ShapeOf<A, Shape = A::Ty>, const N: usize> ShapeOf<A> for [T; N] {
    type Shape = A::Ty;

    open spec fn spec_shape_of(alg: &A) -> <A::Ty as View>::V {
        alg.spec_seq(T::spec_shape_of(alg))
    }

    fn shape_of(alg: &A) -> (r: A::Ty) {
        let item = T::shape_of(alg);
        alg.seq(item)
    }
}

/// A box states what it holds.
impl<A: ShapeAlg, T: ShapeOf<A, Shape = A::Ty>> ShapeOf<A> for Box<T> {
    type Shape = A::Ty;

    open spec fn spec_shape_of(alg: &A) -> <A::Ty as View>::V {
        T::spec_shape_of(alg)
    }

    fn shape_of(alg: &A) -> (r: A::Ty) {
        T::shape_of(alg)
    }
}

/// A hash map is an association from its key's shape to its value's.
impl<A: ShapeAlg, K: ShapeOf<A, Shape = A::Ty>, V: ShapeOf<A, Shape = A::Ty>> ShapeOf<A> for HashMap<K, V> {
    type Shape = A::Ty;

    open spec fn spec_shape_of(alg: &A) -> <A::Ty as View>::V {
        alg.spec_map(K::spec_shape_of(alg), V::spec_shape_of(alg))
    }

    fn shape_of(alg: &A) -> (r: A::Ty) {
        let key = K::shape_of(alg);
        let value = V::shape_of(alg);
        alg.map(key, value)
    }
}

/// An ordered map is an association from its key's shape to its value's.
impl<A: ShapeAlg, K: ShapeOf<A, Shape = A::Ty>, V: ShapeOf<A, Shape = A::Ty>> ShapeOf<A> for BTreeMap<K, V> {
    type Shape = A::Ty;

    open spec fn spec_shape_of(alg: &A) -> <A::Ty as View>::V {
        alg.spec_map(K::spec_shape_of(alg), V::spec_shape_of(alg))
    }

    fn shape_of(alg: &A) -> (r: A::Ty) {
        let key = K::shape_of(alg);
        let value = V::shape_of(alg);
        alg.map(key, value)
    }
}

/// The least value an integer of this signedness and width holds.
pub open spec fn least_held(signed: bool, bits: u16) -> int {
    if signed {
        -(pow2((bits - 1) as nat) as int)
    } else {
        0
    }
}

/// The greatest value an integer of this signedness and width holds.
pub open spec fn greatest_held(signed: bool, bits: u16) -> int {
    if signed {
        pow2((bits - 1) as nat) - 1
    } else {
        pow2(bits as nat) - 1
    }
}

/// Whether a shape is an integer of a signedness and width that holds exactly the values from
/// `least` to `greatest`.
pub open spec fn states_integers_from<A: ShapeAlg>(
    alg: &A,
    shape: <A::Ty as View>::V,
    least: int,
    greatest: int,
) -> bool {
    exists|signed: bool, bits: u16|
        #[trigger] alg.spec_integer(signed, bits) == shape && least_held(signed, bits) == least
            && greatest_held(signed, bits) == greatest
}

/// Each fixed-width integer type states an integer shape that holds exactly the values the type
/// holds: a signed type a signed shape of its own width, an unsigned type an unsigned one.
pub proof fn law_integer_types_state_their_range<A: ShapeAlg>(alg: &A)
    ensures
        states_integers_from(alg, <u8 as ShapeOf<A>>::spec_shape_of(alg), u8::MIN as int, u8::MAX as int),
        states_integers_from(alg, <u16 as ShapeOf<A>>::spec_shape_of(alg), u16::MIN as int, u16::MAX as int),
        states_integers_from(alg, <u32 as ShapeOf<A>>::spec_shape_of(alg), u32::MIN as int, u32::MAX as int),
        states_integers_from(alg, <u64 as ShapeOf<A>>::spec_shape_of(alg), u64::MIN as int, u64::MAX as int),
        states_integers_from(alg, <u128 as ShapeOf<A>>::spec_shape_of(alg), u128::MIN as int, u128::MAX as int),
        states_integers_from(alg, <i8 as ShapeOf<A>>::spec_shape_of(alg), i8::MIN as int, i8::MAX as int),
        states_integers_from(alg, <i16 as ShapeOf<A>>::spec_shape_of(alg), i16::MIN as int, i16::MAX as int),
        states_integers_from(alg, <i32 as ShapeOf<A>>::spec_shape_of(alg), i32::MIN as int, i32::MAX as int),
        states_integers_from(alg, <i64 as ShapeOf<A>>::spec_shape_of(alg), i64::MIN as int, i64::MAX as int),
        states_integers_from(alg, <i128 as ShapeOf<A>>::spec_shape_of(alg), i128::MIN as int, i128::MAX as int),
{
    lemma2_to64();
    lemma2_to64_rest();
    lemma_pow2_adds(64, 63);
    lemma_pow2_adds(64, 64);
    assert(pow2(127) == pow2(64) * pow2(63));
    assert(pow2(128) == pow2(64) * pow2(64));
    assert(states_integers_from(alg, <u8 as ShapeOf<A>>::spec_shape_of(alg), u8::MIN as int, u8::MAX as int)) by {
        assert(least_held(false, 8) == u8::MIN as int && greatest_held(false, 8) == u8::MAX as int);
        assert(alg.spec_integer(false, 8) == <u8 as ShapeOf<A>>::spec_shape_of(alg));
    }
    assert(states_integers_from(alg, <u16 as ShapeOf<A>>::spec_shape_of(alg), u16::MIN as int, u16::MAX as int)) by {
        assert(least_held(false, 16) == u16::MIN as int && greatest_held(false, 16) == u16::MAX as int);
        assert(alg.spec_integer(false, 16) == <u16 as ShapeOf<A>>::spec_shape_of(alg));
    }
    assert(states_integers_from(alg, <u32 as ShapeOf<A>>::spec_shape_of(alg), u32::MIN as int, u32::MAX as int)) by {
        assert(least_held(false, 32) == u32::MIN as int && greatest_held(false, 32) == u32::MAX as int);
        assert(alg.spec_integer(false, 32) == <u32 as ShapeOf<A>>::spec_shape_of(alg));
    }
    assert(states_integers_from(alg, <u64 as ShapeOf<A>>::spec_shape_of(alg), u64::MIN as int, u64::MAX as int)) by {
        assert(least_held(false, 64) == u64::MIN as int && greatest_held(false, 64) == u64::MAX as int);
        assert(alg.spec_integer(false, 64) == <u64 as ShapeOf<A>>::spec_shape_of(alg));
    }
    assert(states_integers_from(alg, <u128 as ShapeOf<A>>::spec_shape_of(alg), u128::MIN as int, u128::MAX as int)) by {
        assert(least_held(false, 128) == u128::MIN as int && greatest_held(false, 128) == u128::MAX as int);
        assert(alg.spec_integer(false, 128) == <u128 as ShapeOf<A>>::spec_shape_of(alg));
    }
    assert(states_integers_from(alg, <i8 as ShapeOf<A>>::spec_shape_of(alg), i8::MIN as int, i8::MAX as int)) by {
        assert(least_held(true, 8) == i8::MIN as int && greatest_held(true, 8) == i8::MAX as int);
        assert(alg.spec_integer(true, 8) == <i8 as ShapeOf<A>>::spec_shape_of(alg));
    }
    assert(states_integers_from(alg, <i16 as ShapeOf<A>>::spec_shape_of(alg), i16::MIN as int, i16::MAX as int)) by {
        assert(least_held(true, 16) == i16::MIN as int && greatest_held(true, 16) == i16::MAX as int);
        assert(alg.spec_integer(true, 16) == <i16 as ShapeOf<A>>::spec_shape_of(alg));
    }
    assert(states_integers_from(alg, <i32 as ShapeOf<A>>::spec_shape_of(alg), i32::MIN as int, i32::MAX as int)) by {
        assert(least_held(true, 32) == i32::MIN as int && greatest_held(true, 32) == i32::MAX as int);
        assert(alg.spec_integer(true, 32) == <i32 as ShapeOf<A>>::spec_shape_of(alg));
    }
    assert(states_integers_from(alg, <i64 as ShapeOf<A>>::spec_shape_of(alg), i64::MIN as int, i64::MAX as int)) by {
        assert(least_held(true, 64) == i64::MIN as int && greatest_held(true, 64) == i64::MAX as int);
        assert(alg.spec_integer(true, 64) == <i64 as ShapeOf<A>>::spec_shape_of(alg));
    }
    assert(states_integers_from(alg, <i128 as ShapeOf<A>>::spec_shape_of(alg), i128::MIN as int, i128::MAX as int)) by {
        assert(least_held(true, 128) == i128::MIN as int && greatest_held(true, 128) == i128::MAX as int);
        assert(alg.spec_integer(true, 128) == <i128 as ShapeOf<A>>::spec_shape_of(alg));
    }
}

} // verus!
