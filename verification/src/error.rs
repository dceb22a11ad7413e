//! The library's domain error: a user-facing message.

use vstd::prelude::*;

verus! {

/// A user-facing failure; its message is printed as `{"error": msg}` or `Error: msg`.
#[derive(Debug)]
pub struct DomainError(pub String);

impl DomainError {
    /// An error carrying `message`.
    pub fn new(message: &str) -> (e: DomainError)
        ensures
            e.0@ == message@,
    {
        DomainError(message.to_owned())
    }

    /// An error carrying an already built message.
    pub fn from_string(message: String) -> (e: DomainError)
        ensures
            e.0@ == message@,
    {
        DomainError(message)
    }
}

} // verus!
