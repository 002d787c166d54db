//! The recoverable failures of the tracker's operations.

use vstd::prelude::*;

verus! {

/// Why an operation on the tracker did not take effect. Every failure leaves
/// the tracker exactly as it was.
#[derive(Clone, Copy, Debug, PartialEq, Eq, Structural)]
pub enum TrackerError {
    /// A record with the same key is already tracked.
    DuplicateKey,
    /// No tracked record has the requested key.
    NotFound,
    /// The requested position is not below the current length.
    IndexOutOfRange,
}

impl TrackerError {
    /// A short description of the failure, for messages.
    pub fn describe(&self) -> (text: &'static str)
        ensures
            text@ == match *self {
                TrackerError::DuplicateKey => "duplicate key"@,
                TrackerError::NotFound => "key not found"@,
                TrackerError::IndexOutOfRange => "position out of range"@,
            },
    {
        match self {
            TrackerError::DuplicateKey => "duplicate key",
            TrackerError::NotFound => "key not found",
            TrackerError::IndexOutOfRange => "position out of range",
        }
    }
}

} // verus!
