//! Traversal of a sequence: the effect of each element in order, stopping at the first error.

use crate::sdk::collection::{sequenced, try_collect_vec};
use vstd::prelude::*;

verus! {

/// A result of a vector, read as a result of the sequence it holds.
pub open spec fn viewed<R, E>(r: Result<Vec<R>, E>) -> Result<Seq<R>, E> {
    match r {
        Ok(v) => Ok(v@),
        Err(e) => Err(e),
    }
}

/// Collecting results of optional values: the first error, or every present value in order.
pub open spec fn sequenced_opt<T, E>(s: Seq<Result<Option<T>, E>>) -> Result<Seq<T>, E>
    decreases s.len(),
{
    if s.len() == 0 {
        Ok(Seq::empty())
    } else {
        match sequenced_opt(s.drop_last()) {
            Err(e) => Err(e),
            Ok(done) => match s.last() {
                Ok(Some(t)) => Ok(done.push(t)),
                Ok(None) => Ok(done),
                Err(e) => Err(e),
            },
        }
    }
}

/// Collecting results of vectors: the first error, or every vector's elements, in order, joined.
pub open spec fn sequenced_flat<T, E>(s: Seq<Result<Vec<T>, E>>) -> Result<Seq<T>, E>
    decreases s.len(),
{
    if s.len() == 0 {
        Ok(Seq::empty())
    } else {
        match sequenced_flat(s.drop_last()) {
            Err(e) => Err(e),
            Ok(done) => match s.last() {
                Ok(v) => Ok(done + v@),
                Err(e) => Err(e),
            },
        }
    }
}

/// What calling `f` on a sequence in order, stopping at the first error, may state: one result per
/// element called, each one `f` may answer for that element, every one but the last a success, and
/// a last one that failed wherever elements were left uncalled.
pub open spec fn called_in_order<T, R, E, F: FnOnce(T) -> Result<R, E>>(
    f: F,
    items: Seq<T>,
    ys: Seq<Result<R, E>>,
) -> bool {
    &&& ys.len() <= items.len()
    &&& forall|i: int| 0 <= i < ys.len() ==> #[trigger] call_ensures(f, (items[i],), ys[i])
    &&& forall|i: int| 0 <= i < ys.len() - 1 ==> #[trigger] ys[i] is Ok
    &&& ys.len() < items.len() ==> ys.len() > 0 && ys.last() is Err
}

/// Applies `f` to each element in order, answering every value it states or its first error.
pub fn traverse<T, R, E, F: FnMut(T) -> Result<R, E>>(items: Vec<T>, f: F) -> (r: Result<Vec<R>, E>)
    requires
        forall|i: int| 0 <= i < items@.len() ==> call_requires(f, (#[trigger] items@[i],)),
    ensures
        exists|ys: Seq<Result<R, E>>|
            called_in_order(f, items@, ys) && viewed(r) == sequenced(
                ys,
            ),
        r is Ok ==> exists|ys: Seq<Result<R, E>>|
            called_in_order(f, items@, ys) && ys.len()
                == items@.len(),
{
    broadcast use vstd::function::group_function_axioms;

    let ghost all = items@;
    let ghost stated = f;
    let ghost mut ys: Seq<Result<R, E>> = Seq::empty();
    let mut calling = f;
    let mut done: Vec<R> = Vec::new();
    for item in it: items.into_iter()
        invariant
            calling == stated,
            stated == f,
            all == items@,
            it.seq() == all,
            it.index() <= all.len(),
            ys.len() == it.index(),
            forall|i: int| 0 <= i < all.len() ==> call_requires(stated, (#[trigger] all[i],)),
            forall|i: int| 0 <= i < ys.len() ==> #[trigger] call_ensures(stated, (all[i],), ys[i]),
            forall|i: int| 0 <= i < ys.len() ==> #[trigger] ys[i] is Ok,
            sequenced(ys) == Ok::<Seq<R>, E>(done@),
    {
        let ghost index = it.index() as int;
        assert(item == all[index]);
        let y = calling(item);
        let ghost before = ys;
        proof {
            ys = ys.push(y);
            assert(ys.drop_last() =~= before);
        }
        match y {
            Ok(v) => {
                done.push(v);
            },
            Err(e) => {
                proof {
                    assert(called_in_order(stated, all, ys));
                }
                return Err(e);
            },
        }
    }
    proof {
        assert(called_in_order(stated, all, ys));
    }
    Ok(done)
}


/// Applies `f` to each element in order, answering every present value it states or its first
/// error; a value `f` states as absent is left out.
pub fn traverse_opt<T, R, E, F: FnMut(T) -> Result<Option<R>, E>>(items: Vec<T>, f: F) -> (r: Result<
    Vec<R>,
    E,
>)
    requires
        forall|i: int| 0 <= i < items@.len() ==> call_requires(f, (#[trigger] items@[i],)),
    ensures
        exists|ys: Seq<Result<Option<R>, E>>|
            called_in_order(f, items@, ys) && viewed(r) == sequenced_opt(ys),
{
    broadcast use vstd::function::group_function_axioms;

    let ghost all = items@;
    let ghost stated = f;
    let ghost mut ys: Seq<Result<Option<R>, E>> = Seq::empty();
    let mut calling = f;
    let mut done: Vec<R> = Vec::new();
    for item in it: items.into_iter()
        invariant
            calling == stated,
            stated == f,
            all == items@,
            it.seq() == all,
            it.index() <= all.len(),
            ys.len() == it.index(),
            forall|i: int| 0 <= i < all.len() ==> call_requires(stated, (#[trigger] all[i],)),
            forall|i: int| 0 <= i < ys.len() ==> #[trigger] call_ensures(stated, (all[i],), ys[i]),
            forall|i: int| 0 <= i < ys.len() ==> #[trigger] ys[i] is Ok,
            sequenced_opt(ys) == Ok::<Seq<R>, E>(done@),
    {
        let ghost index = it.index() as int;
        assert(item == all[index]);
        let y = calling(item);
        let ghost before = ys;
        proof {
            ys = ys.push(y);
            assert(ys.drop_last() =~= before);
        }
        match y {
            Ok(Some(v)) => {
                done.push(v);
            },
            Ok(None) => {},
            Err(e) => {
                proof {
                    assert(called_in_order(stated, all, ys));
                }
                return Err(e);
            },
        }
    }
    proof {
        assert(called_in_order(stated, all, ys));
    }
    Ok(done)
}

/// Applies `f` to each element in order, answering every value of every vector it states, joined,
/// or its first error.
pub fn traverse_iter<T, R, E, F: FnMut(T) -> Result<Vec<R>, E>>(items: Vec<T>, f: F) -> (r: Result<
    Vec<R>,
    E,
>)
    requires
        forall|i: int| 0 <= i < items@.len() ==> call_requires(f, (#[trigger] items@[i],)),
    ensures
        exists|ys: Seq<Result<Vec<R>, E>>|
            called_in_order(f, items@, ys) && viewed(r) == sequenced_flat(ys),
{
    broadcast use vstd::function::group_function_axioms;

    let ghost all = items@;
    let ghost stated = f;
    let ghost mut ys: Seq<Result<Vec<R>, E>> = Seq::empty();
    let mut calling = f;
    let mut done: Vec<R> = Vec::new();
    for item in it: items.into_iter()
        invariant
            calling == stated,
            stated == f,
            all == items@,
            it.seq() == all,
            it.index() <= all.len(),
            ys.len() == it.index(),
            forall|i: int| 0 <= i < all.len() ==> call_requires(stated, (#[trigger] all[i],)),
            forall|i: int| 0 <= i < ys.len() ==> #[trigger] call_ensures(stated, (all[i],), ys[i]),
            forall|i: int| 0 <= i < ys.len() ==> #[trigger] ys[i] is Ok,
            sequenced_flat(ys) == Ok::<Seq<R>, E>(done@),
    {
        let ghost index = it.index() as int;
        assert(item == all[index]);
        let y = calling(item);
        let ghost before = ys;
        proof {
            ys = ys.push(y);
            assert(ys.drop_last() =~= before);
        }
        match y {
            Ok(mut v) => {
                let ghost prior = done@;
                done.append(&mut v);
                assert(done@ =~= prior + ys.last()->Ok_0@);
            },
            Err(e) => {
                proof {
                    assert(called_in_order(stated, all, ys));
                }
                return Err(e);
            },
        }
    }
    proof {
        assert(called_in_order(stated, all, ys));
    }
    Ok(done)
}

/// Collects results in order, answering the first error.
pub fn sequence<T, E>(items: Vec<Result<T, E>>) -> (r: Result<Vec<T>, E>)
    ensures
        viewed(r) == sequenced(items@),
{
    try_collect_vec(items)
}

/// Collects results of optional values in order: every present value, or the first error.
pub fn sequence_opt<T, E>(items: Vec<Result<Option<T>, E>>) -> (r: Result<Vec<T>, E>)
    ensures
        viewed(r) == sequenced_opt(items@),
{
    let ghost all = items@;
    let mut done: Vec<T> = Vec::new();
    for item in it: items.into_iter()
        invariant
            it.seq() == all,
            it.index() <= all.len(),
            sequenced_opt(all.take(it.index() as int)) == Ok::<Seq<T>, E>(done@),
    {
        proof {
            assert(all.take(it.index() + 1).drop_last() =~= all.take(it.index() as int));
        }
        match item {
            Ok(Some(t)) => {
                done.push(t);
            },
            Ok(None) => {},
            Err(e) => {
                proof {
                    lemma_sequenced_opt_failed_prefix(all, it.index() + 1);
                }
                return Err(e);
            },
        }
    }
    proof {
        assert(all.take(all.len() as int) =~= all);
    }
    Ok(done)
}

/// Once a prefix has failed, every longer prefix fails with the same error.
pub proof fn lemma_sequenced_opt_failed_prefix<T, E>(s: Seq<Result<Option<T>, E>>, i: int)
    requires
        0 <= i <= s.len(),
        sequenced_opt(s.take(i)) is Err,
    ensures
        sequenced_opt(s) == sequenced_opt(s.take(i)),
    decreases s.len() - i,
{
    if i < s.len() {
        assert(s.take(i + 1).drop_last() =~= s.take(i));
        lemma_sequenced_opt_failed_prefix(s, i + 1);
    } else {
        assert(s.take(i) =~= s);
    }
}

/// Once a prefix has failed, every longer prefix fails with the same error.
pub proof fn lemma_sequenced_flat_failed_prefix<T, E>(s: Seq<Result<Vec<T>, E>>, i: int)
    requires
        0 <= i <= s.len(),
        sequenced_flat(s.take(i)) is Err,
    ensures
        sequenced_flat(s) == sequenced_flat(s.take(i)),
    decreases s.len() - i,
{
    if i < s.len() {
        assert(s.take(i + 1).drop_last() =~= s.take(i));
        lemma_sequenced_flat_failed_prefix(s, i + 1);
    } else {
        assert(s.take(i) =~= s);
    }
}

/// Collects results of vectors in order: every vector's values joined, or the first error.
pub fn sequence_iter<T, E>(items: Vec<Result<Vec<T>, E>>) -> (r: Result<Vec<T>, E>)
    ensures
        viewed(r) == sequenced_flat(items@),
{
    let ghost all = items@;
    let mut done: Vec<T> = Vec::new();
    for item in it: items.into_iter()
        invariant
            it.seq() == all,
            it.index() <= all.len(),
            sequenced_flat(all.take(it.index() as int)) == Ok::<Seq<T>, E>(done@),
    {
        proof {
            assert(all.take(it.index() + 1).drop_last() =~= all.take(it.index() as int));
        }
        match item {
            Ok(mut v) => {
                let ghost prior = done@;
                let ghost whole = v@;
                done.append(&mut v);
                assert(done@ =~= prior + whole);
            },
            Err(e) => {
                proof {
                    lemma_sequenced_flat_failed_prefix(all, it.index() + 1);
                }
                return Err(e);
            },
        }
    }
    proof {
        assert(all.take(all.len() as int) =~= all);
    }
    Ok(done)
}

/// Sequencing is traversing with the identity: where each item is handed to the identity in order,
/// each call answering the item itself, every item being taken until the first error and none after
/// it, what traversal collects is what sequencing collects.
pub proof fn law_sequence_iter_is_traverse_of_identity<T, E>(
    items: Seq<Result<Vec<T>, E>>,
    ys: Seq<Result<Vec<T>, E>>,
)
    requires
        ys.len() <= items.len(),
        forall|i: int| 0 <= i < ys.len() ==> #[trigger] ys[i] == items[i],
        forall|i: int| 0 <= i < ys.len() - 1 ==> #[trigger] ys[i] is Ok,
        ys.len() < items.len() ==> ys.len() > 0 && ys.last() is Err,
    ensures
        sequenced_flat(ys) == sequenced_flat(items),
{
    if ys.len() == items.len() {
        assert(ys =~= items);
    } else {
        let k = ys.len() as int;
        assert(ys =~= items.take(k));
        assert(ys.drop_last() =~= items.take(k - 1));
        assert(ys.last() == ys[k - 1]);
        assert(sequenced_flat(ys) is Err);
        lemma_sequenced_flat_failed_prefix(items, k);
    }
}

} // verus!
