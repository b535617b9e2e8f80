//! Error taxonomy of the core.
//!
//! `NotFound` and `Unauthorized` are expected, recoverable outcomes and
//! are returned as typed results.  `PersistenceFailure` stands for a
//! backend I/O or serialization error; the core never retries it, the
//! request that hit it is aborted as a whole.

use vstd::prelude::*;

verus! {

/// Why an operation yielded no result.
#[derive(Clone, Copy, Debug, PartialEq, Eq, Structural)]
pub enum ServiceError {
    /// A referenced entity (retro, user, lane or card) does not exist.
    NotFound,
    /// The acting user is not permitted to perform the mutation.
    Unauthorized,
    /// The backend failed to read or write; the request is aborted.
    PersistenceFailure,
}

impl ServiceError {
    /// A short human-readable description of the error.
    pub fn message(&self) -> (res: &'static str)
        ensures
            *self == ServiceError::NotFound ==> res@ == "not found"@,
            *self == ServiceError::Unauthorized ==> res@ == "unauthorized"@,
            *self == ServiceError::PersistenceFailure ==> res@ == "persistence failure"@,
    {
        match self {
            ServiceError::NotFound => "not found",
            ServiceError::Unauthorized => "unauthorized",
            ServiceError::PersistenceFailure => "persistence failure",
        }
    }
}

} // verus!
