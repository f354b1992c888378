//! The failure conditions of the service, as a tagged error type.

use vstd::prelude::*;

verus! {

/// The two ways an operation can fail: the store's lock could not be
/// acquired (a server-side fault, raised by the layer that owns the lock),
/// or a looked-up identifier has no mapping (an ordinary, expected outcome).
#[derive(Clone, Copy, Debug, PartialEq, Eq, Structural)]
pub enum LinkError {
    LockUnavailable,
    NotFound,
}

impl LinkError {
    /// The client-visible message for this error.
    pub fn message(&self) -> (m: String)
        ensures
            m@ == (match self {
                LinkError::LockUnavailable => "Error with locks"@,
                LinkError::NotFound => "Url not found"@,
            }),
    {
        match self {
            LinkError::LockUnavailable => String::from_str("Error with locks"),
            LinkError::NotFound => String::from_str("Url not found"),
        }
    }
}

} // verus!
