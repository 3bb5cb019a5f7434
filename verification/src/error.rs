//! Error kinds surfaced by the claiming and scheduling core.

use vstd::prelude::*;

verus! {

/// One error kind for every failure the core reports.
///
/// `Validation` means the caller's input was malformed and nothing was
/// mutated.  `NotFound` and `Ambiguous` come from identifier resolution
/// and carry the offending token.  `AlreadyClaimed`, `LeaseMismatch` and
/// `LeaseExpired` are normal failure results of the lease protocol, never
/// crashes.  `IssueNotFound` names an id that is not in the store.
#[derive(Debug)]
pub enum BeadsError {
    Validation { field: String, message: String },
    NotFound { token: String },
    Ambiguous { token: String },
    AlreadyClaimed { id: String },
    LeaseMismatch { id: String },
    LeaseExpired { id: String },
    IssueNotFound { id: String },
}

impl BeadsError {
    /// Builds a `Validation` error from a field name and a message.
    pub fn validation(field: &str, message: &str) -> (r: BeadsError)
        ensures
            (r matches BeadsError::Validation { field: f, message: m } && f@ == field@ && m@
                == message@),
    {
        BeadsError::Validation { field: field.to_owned(), message: message.to_owned() }
    }

    /// True on the `Validation` variant alone.
    pub fn is_validation(&self) -> (r: bool)
        ensures
            r == (self is Validation),
    {
        match self {
            BeadsError::Validation { .. } => true,
            _ => false,
        }
    }
}

} // verus!
