//! Exact and fallible collection.

use core::array::TryFromSliceError;
use vstd::prelude::*;

verus! {

/// What collecting a sequence of results into one result states: every value in order, or the
/// first error.
pub open spec fn sequenced<T, E>(s: Seq<Result<T, E>>) -> Result<Seq<T>, E>
    decreases s.len(),
{
    if s.len() == 0 {
        Ok(Seq::empty())
    } else {
        match sequenced(s.drop_last()) {
            Err(e) => Err(e),
            Ok(done) => match s.last() {
                Ok(t) => Ok(done.push(t)),
                Err(e) => Err(e),
            },
        }
    }
}

/// Once a prefix has failed, every longer prefix fails with the same error.
pub proof fn lemma_sequenced_failed_prefix<T, E>(s: Seq<Result<T, E>>, i: int)
    requires
        0 <= i <= s.len(),
        sequenced(s.take(i)) is Err,
    ensures
        sequenced(s) == sequenced(s.take(i)),
    decreases s.len() - i,
{
    if i < s.len() {
        assert(s.take(i + 1).drop_last() =~= s.take(i));
        lemma_sequenced_failed_prefix(s, i + 1);
    } else {
        assert(s.take(i) =~= s);
    }
}

/// Collecting results keeps the shape of what was collected: it succeeds exactly when every result
/// does, then with one value per result, each the value that result held; otherwise it fails with
/// the error of the first result that failed.
pub proof fn law_sequenced_shape<T, E>(s: Seq<Result<T, E>>)
    ensures
        sequenced(s) is Ok <==> forall|i: int| 0 <= i < s.len() ==> #[trigger] s[i] is Ok,
        sequenced(s) matches Ok(values) ==> values.len() == s.len() && forall|i: int|
            0 <= i < s.len() ==> #[trigger] s[i] == Ok::<T, E>(values[i]),
        sequenced(s) matches Err(e) ==> exists|k: int|
            0 <= k < s.len() && #[trigger] s[k] == Err::<T, E>(e) && forall|j: int|
                0 <= j < k ==> #[trigger] s[j] is Ok,
    decreases s.len(),
{
    if s.len() > 0 {
        let before = s.drop_last();
        law_sequenced_shape(before);
        assert forall|i: int| 0 <= i < before.len() implies before[i] == s[i] by {}
        let last = s.len() - 1;
        assert(s.last() == s[last]);
        match sequenced(before) {
            Ok(values) => {
                match s.last() {
                    Ok(t) => {
                        assert forall|i: int| 0 <= i < s.len() implies #[trigger] s[i] == Ok::<T, E>(
                            values.push(t)[i],
                        ) by {
                            if i < last {
                                assert(before[i] == s[i]);
                            }
                        }
                    },
                    Err(e) => {
                        assert forall|j: int| 0 <= j < last implies #[trigger] s[j] is Ok by {
                            assert(before[j] == s[j]);
                        }
                    },
                }
            },
            Err(e) => {
                let k = choose|k: int|
                    0 <= k < before.len() && #[trigger] before[k] == Err::<T, E>(e) && forall|j: int|
                        0 <= j < k ==> #[trigger] before[j] is Ok;
                assert(s[k] == before[k]);
                assert forall|j: int| 0 <= j < k implies #[trigger] s[j] is Ok by {
                    assert(before[j] == s[j]);
                }
            },
        }
    }
}

/// Collects results in order, answering the first error without collecting later values.
pub fn try_collect_vec<T, E>(items: Vec<Result<T, E>>) -> (r: Result<Vec<T>, E>)
    ensures
        r matches Ok(v) ==> sequenced(items@) == Ok::<Seq<T>, E>(v@),
        r matches Err(e) ==> sequenced(items@) == Err::<Seq<T>, E>(e),
{
    let ghost all = items@;
    let mut done: Vec<T> = Vec::new();
    for item in it: items.into_iter()
        invariant
            it.seq() == all,
            it.index() <= all.len(),
            sequenced(all.take(it.index() as int)) == Ok::<Seq<T>, E>(done@),
    {
        proof {
            assert(all.take(it.index() + 1).drop_last() =~= all.take(it.index() as int));
        }
        match item {
            Ok(t) => {
                done.push(t);
            },
            Err(e) => {
                proof {
                    lemma_sequenced_failed_prefix(all, it.index() + 1);
                }
                return Err(e);
            },
        }
    }
    proof {
        assert(all.take(all.len() as int) =~= all);
    }
    Ok(done)
}


/// Takes exactly `n` elements: the elements themselves when there are exactly `n`, and nothing
/// otherwise.
pub fn collect_exact<T>(items: Vec<T>, n: usize) -> (r: Option<Vec<T>>)
    ensures
        r is Some <==> items@.len() == n,
        r matches Some(v) ==> v@ == items@,
{
    if items.len() == n {
        Some(items)
    } else {
        None
    }
}

/// The firsts of a sequence of pairs.
pub open spec fn firsts<A, B>(pairs: Seq<(A, B)>) -> Seq<A> {
    pairs.map_values(|pair: (A, B)| pair.0)
}

/// The seconds of a sequence of pairs.
pub open spec fn seconds<A, B>(pairs: Seq<(A, B)>) -> Seq<B> {
    pairs.map_values(|pair: (A, B)| pair.1)
}

/// Splits results of pairs into two vectors in order, answering the first error instead.
pub fn try_unzip<A, B, E>(items: Vec<Result<(A, B), E>>) -> (r: Result<(Vec<A>, Vec<B>), E>)
    ensures
        r matches Ok((va, vb)) ==> sequenced(items@) matches Ok(pairs) && va@ == firsts(pairs)
            && vb@ == seconds(pairs),
        r matches Err(e) ==> sequenced(items@) == Err::<Seq<(A, B)>, E>(e),
{
    let ghost all = items@;
    let ghost mut pairs: Seq<(A, B)> = Seq::empty();
    let mut va: Vec<A> = Vec::new();
    let mut vb: Vec<B> = Vec::new();
    for item in it: items.into_iter()
        invariant
            it.seq() == all,
            it.index() <= all.len(),
            sequenced(all.take(it.index() as int)) == Ok::<Seq<(A, B)>, E>(pairs),
            va@ == firsts(pairs),
            vb@ == seconds(pairs),
    {
        proof {
            assert(all.take(it.index() + 1).drop_last() =~= all.take(it.index() as int));
        }
        match item {
            Ok((a, b)) => {
                proof {
                    pairs = pairs.push((a, b));
                }
                va.push(a);
                vb.push(b);
                assert(va@ =~= firsts(pairs));
                assert(vb@ =~= seconds(pairs));
            },
            Err(e) => {
                proof {
                    lemma_sequenced_failed_prefix(all, it.index() + 1);
                }
                return Err(e);
            },
        }
    }
    proof {
        assert(all.take(all.len() as int) =~= all);
    }
    Ok((va, vb))
}

#[verifier::external_type_specification]
#[verifier::external_body]
pub struct ExTryFromSliceError(TryFromSliceError);

/// `<&[T; N]>::try_from(&[T])` from std: succeeds exactly when the slice holds `N` elements, and
/// then answers those elements as an array.
#[verifier::external_body]
fn slice_as_array<'a, T, const N: usize>(slice: &'a [T]) -> (r: Result<&'a [T; N], TryFromSliceError>)
    ensures
        r is Ok <==> slice@.len() == N,
        r matches Ok(array) ==> array@ == slice@,
{
    slice.try_into()
}

/// Answers the first `N` elements as an array, where there are at least `N`.
pub fn try_to_const<'a, Item, const N: usize>(slice: &'a [Item]) -> (r: Result<&'a [Item; N], TryFromSliceError>)
    ensures
        r is Ok <==> slice@.len() >= N,
        r matches Ok(array) ==> array@ == slice@.take(N as int),
{
    if slice.len() > N {
        slice_as_array(vstd::slice::slice_subrange(slice, 0, N))
    } else {
        let r = slice_as_array(slice);
        proof {
            if slice@.len() == N {
                assert(slice@.take(N as int) =~= slice@);
            }
        }
        r
    }
}


/// `<&mut [T; N]>::try_from(&mut [T])` from std: succeeds exactly when the slice holds `N` elements,
/// and then lends those elements as an array, so what is written through it is what the slice holds.
#[verifier::external_body]
fn slice_as_array_mut<'a, T, const N: usize>(slice: &'a mut [T]) -> (r: Result<&'a mut [T; N], TryFromSliceError>)
    ensures
        r is Ok <==> old(slice)@.len() == N,
        r matches Ok(array) ==> array@ == old(slice)@ && final(slice)@ == final(array)@,
        r is Err ==> final(slice)@ == old(slice)@,
{
    slice.try_into()
}

/// `&mut slice[..n]` from std: lends the first `n` elements; what is written through the prefix is
/// what the slice then starts with, and the rest is left as it was.
#[verifier::external_body]
fn prefix_mut<'a, T>(slice: &'a mut [T], n: usize) -> (r: &'a mut [T])
    requires
        n <= old(slice)@.len(),
    ensures
        r@ == old(slice)@.take(n as int),
        final(r)@.len() == n ==> final(slice)@ == final(r)@ + old(slice)@.skip(n as int),
{
    &mut slice[..n]
}

/// Lends the first `N` elements as an array, where there are at least `N`; what is written through
/// it is what the slice then starts with.
pub fn try_to_const_mut<'a, Item, const N: usize>(slice: &'a mut [Item]) -> (r: Result<&'a mut [Item; N], TryFromSliceError>)
    ensures
        r is Ok <==> old(slice)@.len() >= N,
        r matches Ok(array) ==> array@ == old(slice)@.take(N as int)
            && final(slice)@ == final(array)@ + old(slice)@.skip(N as int),
        r is Err ==> final(slice)@ == old(slice)@,
{
    if slice.len() > N {
        let prefix = prefix_mut(slice, N);
        slice_as_array_mut(prefix)
    } else {
        let r = slice_as_array_mut(slice);
        proof {
            if old(slice)@.len() == N {
                assert(old(slice)@.take(N as int) =~= old(slice)@);
                assert(old(slice)@.skip(N as int) =~= Seq::<Item>::empty());
            }
        }
        r
    }
}

} // verus!
