//! The error surface returned per request.
//!
//! Faults come in exactly two kinds: validation faults, attributable to the
//! request submitter, and internal faults, attributable to the system.

use vstd::prelude::*;

verus! {

/// A fault surfaced to the caller of the handler entry point.
///
/// `InvalidTransaction` marks a validation fault: the payload failed
/// structural or type validation. `InternalError` marks an internal fault:
/// the byte stream could not be parsed at all, serialization failed, or the
/// delegated store write failed.
#[derive(Debug)]
pub enum ApplyError {
    InvalidTransaction(String),
    InternalError(String),
}

impl ApplyError {
    /// The human-readable message carried by the fault.
    pub open spec fn spec_message(&self) -> Seq<char> {
        match self {
            ApplyError::InvalidTransaction(m) => m@,
            ApplyError::InternalError(m) => m@,
        }
    }

    /// The human-readable message carried by the fault.
    pub fn message(&self) -> (r: &String)
        ensures
            r@ == self.spec_message(),
    {
        match self {
            ApplyError::InvalidTransaction(m) => m,
            ApplyError::InternalError(m) => m,
        }
    }
}

} // verus!
