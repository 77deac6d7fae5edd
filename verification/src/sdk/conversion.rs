//! Conversions stated after the value, and the option and result helpers built on them.

use vstd::prelude::*;
use vstd::std_specs::cmp::PartialEqSpec;

verus! {

/// What converting with `Into` states for one value, where the conversion states anything.
pub open spec fn converted<T: Into<R>, R>(value: T, r: R) -> bool {
    <T as vstd::std_specs::convert::IntoSpec<R>>::obeys_into_spec() ==> r
        == <T as vstd::std_specs::convert::IntoSpec<R>>::into_spec(value)
}

/// Converts with `Into`, with the target named where it is called.
pub fn to<This, R>(value: This) -> (r: R) where This: Into<R>
    ensures
        converted(value, r),
{
    value.into()
}

/// Whether an option holds a value equal to `other`.
pub fn is_some_eq<T: PartialEq>(option: &Option<T>, other: &T) -> (r: bool)
    ensures
        option is None ==> !r,
        option matches Some(t) ==> (T::obeys_eq_spec() ==> r == t.eq_spec(
            other,
        )),
{
    match option {
        Some(t) => t == other,
        None => false,
    }
}

/// Maps the value an option holds with `Into`.
pub fn option_map_into<T: Into<R>, R>(option: Option<T>) -> (r: Option<R>)
    ensures
        option is None <==> r is None,
        option matches Some(t) ==> r matches Some(v) && converted(t, v),
{
    match option {
        Some(t) => Some(t.into()),
        None => None,
    }
}

/// Maps the value a result holds with `Into`, leaving an error as it is.
pub fn result_map_into<T: Into<R>, R, E>(result: Result<T, E>) -> (r: Result<R, E>)
    ensures
        result matches Ok(t) ==> r matches Ok(v) && converted(t, v),
        result matches Err(e) ==> r == Err::<R, E>(e),
{
    match result {
        Ok(t) => Ok(t.into()),
        Err(e) => Err(e),
    }
}

/// Converts the error a result holds with `Into`, leaving a value as it is.
pub fn map_err_into<T, E: Into<E2>, E2>(result: Result<T, E>) -> (r: Result<T, E2>)
    ensures
        result matches Ok(t) ==> r == Ok::<T, E2>(t),
        result matches Err(e) ==> r matches Err(v) && converted(e, v),
{
    match result {
        Ok(t) => Ok(t),
        Err(e) => Err(e.into()),
    }
}

/// Maps the value an optional value inside a result holds.
pub fn map_opt<T, E, R, F: FnOnce(T) -> R>(result: Result<Option<T>, E>, f: F) -> (r: Result<Option<R>, E>)
    requires
        result matches Ok(Some(t)) ==> call_requires(f, (t,)),
    ensures
        result matches Ok(Some(t)) ==> r matches Ok(Some(v)) && call_ensures(f, (t,), v),
        result matches Ok(None) ==> r == Ok::<Option<R>, E>(None),
        result matches Err(e) ==> r == Err::<Option<R>, E>(e),
{
    match result {
        Ok(Some(t)) => Ok(Some(f(t))),
        Ok(None) => Ok(None),
        Err(e) => Err(e),
    }
}

} // verus!
