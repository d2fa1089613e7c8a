//! The library's error type.
use vstd::prelude::*;

verus! {

/// What went wrong, by class.
#[derive(Clone, Copy, Debug, PartialEq, Eq, Structural)]
pub enum ErrorKind {
    /// A manifest, a project root or a declared source path is missing.
    NotFound,
    /// Something is in the way where a clean place is required.
    AlreadyExists,
    /// A manifest, a reference or a name cannot be used as it is written.
    InvalidData,
    /// An answer or an argument is not one of the accepted forms.
    InvalidInput,
    /// A fetch failed in transport.
    Network,
    /// An external tool exited with a failure status.
    ExternalToolFailure,
    /// The user declined a confirmation.
    Cancelled,
    /// Any other failure, such as a rule of a template that is not met.
    Other,
}

/// An error with its class and a message that names the path, key or url involved.
#[derive(Clone, Debug)]
pub struct SyncError {
    pub kind: ErrorKind,
    pub message: String,
}

impl SyncError {
    pub fn new(kind: ErrorKind, message: String) -> (r: SyncError)
        ensures
            r.kind == kind,
            r.message@ == message@,
    {
        SyncError { kind, message }
    }

    pub fn with_message(kind: ErrorKind, message: &str) -> (r: SyncError)
        ensures
            r.kind == kind,
            r.message@ == message@,
    {
        SyncError { kind, message: message.to_string() }
    }

    /// The message, for display.
    pub fn to_string(&self) -> (r: String)
        ensures
            r@ == self.message@,
    {
        self.message.clone()
    }
}

} // verus!
