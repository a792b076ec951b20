//! The runtime error type: a plain reason string, surfaced to subscribers as
//! failure updates rather than aborting the fabric.
use vstd::prelude::*;

verus! {

/// A runtime error carrying its reason.
#[derive(Debug)]
pub struct InternalError {
    pub reason: String,
}

impl InternalError {
    /// An error with the given reason.
    pub fn new(reason: String) -> (r: InternalError)
        ensures
            r.reason@ == reason@,
    {
        InternalError { reason }
    }

    /// An error wrapping another error's description.
    pub fn wrap(err: &str) -> (r: InternalError)
        ensures
            r.reason@ == err@,
    {
        InternalError { reason: err.to_owned() }
    }

    /// The reason, rendered.
    pub fn render(&self) -> (r: String)
        ensures
            r@ == self.reason@,
    {
        self.reason.clone()
    }
}

impl Clone for InternalError {
    /// The clone carries the same reason.
    fn clone(&self) -> (r: Self)
        ensures
            r.reason@ == self.reason@,
    {
        InternalError { reason: self.reason.clone() }
    }
}

} // verus!
