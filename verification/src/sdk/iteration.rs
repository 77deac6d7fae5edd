//! Omitting one position, and stopping after a predicate holds.

use vstd::prelude::*;

verus! {

/// A sequence with the item at one position left out, where there is one there.
pub open spec fn without<T>(s: Seq<T>, position: int) -> Seq<T> {
    if 0 <= position < s.len() {
        s.remove(position)
    } else {
        s
    }
}

/// Omits the item at one zero-based position.
pub fn skip_nth<T>(items: Vec<T>, position: usize) -> (r: Vec<T>)
    ensures
        r@ == without(items@, position as int),
{
    let ghost all = items@;
    let total = items.len();
    let mut kept: Vec<T> = Vec::new();
    let mut at: usize = 0;
    for item in it: items.into_iter()
        invariant
            all.len() == total,
            it.seq() == all,
            it.index() <= all.len(),
            at == it.index(),
            kept@ == without(all.take(it.index() as int), position as int),
    {
        let ghost index = it.index() as int;
        proof {
            assert(all.take(index + 1) =~= all.take(index).push(item));
        }
        if at != position {
            kept.push(item);
            proof {
                if position < index {
                    assert(all.take(index).push(item).remove(position as int) =~= all.take(index).remove(
                        position as int,
                    ).push(item));
                }
            }
        } else {
            proof {
                assert(all.take(index).push(item).remove(position as int) =~= all.take(index));
            }
        }
        at = at + 1;
    }
    proof {
        assert(all.take(all.len() as int) =~= all);
    }
    kept
}

/// Includes items through the first one satisfying `predicate`, then stops.
///
/// What is kept is a prefix. Every kept item but the last is one the predicate may answer `false`
/// for, and where items were left over, the last kept item is one it may answer `true` for.
pub fn stop_if<T, Predicate>(items: Vec<T>, predicate: Predicate) -> (r: Vec<T>) where
    Predicate: FnMut(&T) -> bool,

    requires
        forall|i: int| 0 <= i < items@.len() ==> call_requires(predicate, (&items@[i],)),
    ensures
        r@.len() <= items@.len(),
        r@ == items@.take(r@.len() as int),
        forall|i: int| 0 <= i < r@.len() - 1 ==> call_ensures(predicate, (&items@[i],), false),
        r@.len() < items@.len() ==> r@.len() > 0 && call_ensures(
            predicate,
            (&items@[r@.len() - 1],),
            true,
        ),
{
    broadcast use vstd::function::group_function_axioms;

    let ghost all = items@;
    let ghost stated = predicate;
    let mut stopping = predicate;
    let mut kept: Vec<T> = Vec::new();
    for item in it: items.into_iter()
        invariant
            stopping == stated,
            stated == predicate,
            all == items@,
            it.seq() == all,
            it.index() <= all.len(),
            kept@ == all.take(it.index() as int),
            forall|i: int| 0 <= i < all.len() ==> call_requires(stated, (&all[i],)),
            forall|i: int| 0 <= i < kept@.len() ==> call_ensures(stated, (&all[i],), false),
    {
        let ghost index = it.index() as int;
        let stops = stopping(&item);
        proof {
            assert(all.take(index + 1) =~= all.take(index).push(item));
            assert(item == all[index]);
            assert(call_ensures(stated, (&item,), stops));
        }
        kept.push(item);
        if stops {
            return kept;
        }
    }
    proof {
        assert(all.take(all.len() as int) =~= all);
    }
    kept
}

} // verus!
