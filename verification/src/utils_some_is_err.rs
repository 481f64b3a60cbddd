//! Turning an optional error into a result.
use vstd::prelude::*;

verus! {

/// `Err` with the error where there is one, `Ok(())` where there is none.
pub fn some_is_err<E>(optional: Option<E>) -> (r: Result<(), E>)
    ensures
        match optional {
            Some(e) => r == Err::<(), E>(e),
            None => r == Ok::<(), E>(()),
        },
{
    match optional {
        Some(e) => Err(e),
        None => Ok(()),
    }
}

/// An optional error that can be turned into a result.
pub trait SomeIsErr {
    type Error;

    /// `Err` with the error where there is one, `Ok(())` where there is none.
    fn some_is_err(self) -> Result<(), Self::Error>;
}

impl<E> SomeIsErr for Option<E> {
    type Error = E;

    fn some_is_err(self) -> (r: Result<(), E>)
        ensures
            match self {
                Some(e) => r == Err::<(), E>(e),
                None => r == Ok::<(), E>(()),
            },
    {
        match self {
            Some(e) => Err(e),
            None => Ok(()),
        }
    }
}

} // verus!
