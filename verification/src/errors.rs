//! The library's error type.
//!
//! The unverified shell maps failures of its collaborators — the
//! database driver, the RPC providers — onto this closed set before
//! handing them to callers.

use vstd::prelude::*;

verus! {

/// A failure, by the collaborator it came from.
#[derive(Debug)]
pub enum AppError {
    Database(String),
    Network(String),
    Unknown(String),
}

impl AppError {
    /// The message the failure carries.
    pub fn message(&self) -> (r: &str)
        ensures
            self matches AppError::Database(m) ==> r@ == m@,
            self matches AppError::Network(m) ==> r@ == m@,
            self matches AppError::Unknown(m) ==> r@ == m@,
    {
        match self {
            AppError::Database(m) => m.as_str(),
            AppError::Network(m) => m.as_str(),
            AppError::Unknown(m) => m.as_str(),
        }
    }
}

} // verus!
