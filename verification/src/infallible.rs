//! Results that cannot be errors.
use core::convert::Infallible;
use vstd::pervasive::unreached;
use vstd::prelude::*;

verus! {

/// Takes the value out of a result whose error type has no values.
///
/// No `Infallible` exists when the program runs, so every result that reaches
/// this function is `Ok`; a caller shows it from what it knows of the result.
pub fn unwrap_infallible<T>(res: Result<T, Infallible>) -> (value: T)
    requires
        res is Ok,
    ensures
        res == Ok::<T, Infallible>(value),
{
    match res {
        Ok(value) => value,
        Err(_) => unreached(),
    }
}

} // verus!
