//! The failures that the ledger reports as errors.

use vstd::prelude::*;

verus! {

/// Why the ledger refused an operation. An operation that is refused changes
/// nothing.
#[derive(Clone, Copy, Debug, PartialEq, Eq, Structural)]
pub enum LedgerError {
    /// An account that is not eligible was offered to the `operators` pool.
    PermissionDenied,
    /// The payload of an event is not a well-formed JSON document.
    InvalidPayload,
}

impl LedgerError {
    /// The error in words.
    pub fn message(&self) -> (text: String)
        ensures
            text@ == match *self {
                LedgerError::PermissionDenied => "operator not eligible"@,
                LedgerError::InvalidPayload => "Invalid JSON"@,
            },
    {
        match self {
            LedgerError::PermissionDenied => "operator not eligible".to_owned(),
            LedgerError::InvalidPayload => "Invalid JSON".to_owned(),
        }
    }
}

} // verus!
