//! The library's error type. Every fallible display-boundary operation
//! reports what failed through one of these.

use vstd::prelude::*;

verus! {

/// The main error type of this library: a human-readable description of the
/// request or operation that failed.
pub struct Error {
    pub msg: String,
}

impl View for Error {
    type V = Seq<char>;

    open spec fn view(&self) -> Seq<char> {
        self.msg@
    }
}

impl Error {
    /// Wraps a description of a failed operation.
    pub fn new(msg: String) -> (e: Error)
        ensures
            e@ == msg@,
    {
        Error { msg }
    }

    /// The error's description, for diagnostics.
    pub fn message(&self) -> (m: &String)
        ensures
            m@ == self@,
    {
        &self.msg
    }
}

/// Builds an [`Error`] from a description.
pub fn err(msg: String) -> (e: Error)
    ensures
        e@ == msg@,
{
    Error::new(msg)
}

} // verus!
