//! Failures of the operating system, as plain values.

use vstd::prelude::*;

verus! {

/// What kind of operation failed, as far as any rule depends on it.
#[derive(Debug, Clone, Copy, PartialEq, Eq, Structural)]
pub enum IoErrorKind {
    NotFound,
    AlreadyExists,
    PermissionDenied,
    BrokenPipe,
    Other,
}

/// A failed operation: its kind and the text that describes it.
#[derive(Debug, Clone, PartialEq, Eq)]
pub struct IoError {
    pub kind: IoErrorKind,
    pub message: String,
}

/// What an `IoError` says.
pub struct IoErrorView {
    pub kind: IoErrorKind,
    pub message: Seq<char>,
}

impl View for IoError {
    type V = IoErrorView;

    open spec fn view(&self) -> IoErrorView {
        IoErrorView { kind: self.kind, message: self.message@ }
    }
}

impl IoError {
    pub fn new(kind: IoErrorKind, message: &str) -> (r: IoError)
        ensures
            r@ == (IoErrorView { kind, message: message@ }),
    {
        IoError { kind, message: message.to_owned() }
    }

    /// A copy with the same content.
    pub fn copy(&self) -> (r: IoError)
        ensures
            r == *self,
    {
        IoError { kind: self.kind, message: self.message.clone() }
    }
}

} // verus!
