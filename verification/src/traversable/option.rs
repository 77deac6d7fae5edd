//! Traversal of an option: the effect of the value it holds, if it holds one.

use vstd::prelude::*;

verus! {

/// An optional result read as a result of an option: `transpose`.
pub open spec fn sequenced_option<T, E>(option: Option<Result<T, E>>) -> Result<Option<T>, E> {
    match option {
        Some(Ok(t)) => Ok(Some(t)),
        Some(Err(e)) => Err(e),
        None => Ok(None),
    }
}

/// An optional result of an option read as a result of an option, an absent value being absent.
pub open spec fn sequenced_option_opt<T, E>(option: Option<Result<Option<T>, E>>) -> Result<
    Option<T>,
    E,
> {
    match option {
        Some(Ok(t)) => Ok(t),
        Some(Err(e)) => Err(e),
        None => Ok(None),
    }
}

/// Applies `f` to the value an option holds, and answers the option of what it states.
///
/// This is `sequence` after mapping: nothing is called for an absent value.
pub fn traverse<T, R, E, F: FnOnce(T) -> Result<R, E>>(option: Option<T>, f: F) -> (r: Result<
    Option<R>,
    E,
>)
    requires
        option matches Some(t) ==> call_requires(f, (t,)),
    ensures
        option is None ==> r == Ok::<Option<R>, E>(None),
        option matches Some(t) ==> exists|y: Result<R, E>|
            #[trigger] call_ensures(f, (t,), y) && r == sequenced_option(Some(y)),
{
    match option {
        Some(t) => {
            let y = f(t);
            match y {
                Ok(v) => Ok(Some(v)),
                Err(e) => Err(e),
            }
        },
        None => Ok(None),
    }
}

/// Applies `f` to the value an option holds, where `f` may itself state no value.
pub fn traverse_opt<T, R, E, F: FnOnce(T) -> Result<Option<R>, E>>(option: Option<T>, f: F) -> (r:
    Result<Option<R>, E>)
    requires
        option matches Some(t) ==> call_requires(f, (t,)),
    ensures
        option is None ==> r == Ok::<Option<R>, E>(None),
        option matches Some(t) ==> exists|y: Result<Option<R>, E>|
            #[trigger] call_ensures(f, (t,), y) && r == sequenced_option_opt(Some(y)),
{
    match option {
        Some(t) => f(t),
        None => Ok(None),
    }
}

/// Reads an optional result as a result of an option.
pub fn sequence<T, E>(option: Option<Result<T, E>>) -> (r: Result<Option<T>, E>)
    ensures
        r == sequenced_option(option),
{
    match option {
        Some(Ok(t)) => Ok(Some(t)),
        Some(Err(e)) => Err(e),
        None => Ok(None),
    }
}

/// Reads an optional result of an option as a result of an option.
pub fn sequence_opt<T, E>(option: Option<Result<Option<T>, E>>) -> (r: Result<Option<T>, E>)
    ensures
        r == sequenced_option_opt(option),
{
    match option {
        Some(Ok(t)) => Ok(t),
        Some(Err(e)) => Err(e),
        None => Ok(None),
    }
}

/// Sequencing an option of plain values wrapped as successes gives the option back: `Ok` is the
/// identity of traversal.
pub proof fn law_sequence_of_successes<T, E>(option: Option<T>)
    ensures
        sequenced_option(
            match option {
                Some(t) => Some(Ok::<T, E>(t)),
                None => None,
            },
        ) == Ok::<Option<T>, E>(option),
{
}

/// Sequencing with an absent value read as an absent value agrees with plain sequencing of the
/// option of what the value held.
pub proof fn law_sequence_opt_of_present<T, E>(option: Option<Result<T, E>>)
    ensures
        sequenced_option_opt(
            match option {
                Some(Ok(t)) => Some(Ok::<Option<T>, E>(Some(t))),
                Some(Err(e)) => Some(Err(e)),
                None => None,
            },
        ) == sequenced_option(option),
{
}

/// Traversing an option with a function of its value: nothing for an absent value, and otherwise
/// the function's result carried into an option.
pub open spec fn traversed_option<T, R, E>(option: Option<T>, f: spec_fn(T) -> Result<R, E>) -> Result<
    Option<R>,
    E,
> {
    match option {
        Some(t) => match f(t) {
            Ok(value) => Ok(Some(value)),
            Err(error) => Err(error),
        },
        None => Ok(None),
    }
}

/// Traversing is mapping, then sequencing: applying `f` to the value an option holds and reading the
/// optional result as a result of an option gives what traversal gives.
pub proof fn law_traverse_is_map_then_sequence<T, R, E>(option: Option<T>, f: spec_fn(T) -> Result<R, E>)
    ensures
        traversed_option(option, f) == sequenced_option(
            match option {
                Some(t) => Some(f(t)),
                None => None,
            },
        ),
{
}

} // verus!
