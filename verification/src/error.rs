//! The errors that operations report.

use vstd::prelude::*;

verus! {

/// What went wrong, as far as a caller tells failures apart.
#[derive(Clone, Copy, Debug, PartialEq, Eq, Structural)]
pub enum ErrorKind {
    NotFound,
    AlreadyExists,
    WouldBlock,
    TimedOut,
    ConnectionReset,
    ConnectionRefused,
    HostUnreachable,
    NetworkUnreachable,
    AddrNotAvailable,
    BrokenPipe,
    InvalidInput,
    InvalidData,
    Unsupported,
    Other,
}

/// A failure: its kind and a fixed explanation.
#[derive(Clone, Copy, Debug, PartialEq, Eq)]
pub struct Error {
    pub kind: ErrorKind,
    pub message: &'static str,
}

impl Error {
    /// A failure of the given kind.
    pub fn new(kind: ErrorKind, message: &'static str) -> (error: Error)
        ensures
            error.kind == kind,
            error.message@ == message@,
    {
        Error { kind, message }
    }

    /// Whether this is the failure of kind `kind` that `message` explains.
    pub open spec fn is(self, kind: ErrorKind, message: &str) -> bool {
        self.kind == kind && self.message@ == message@
    }
}

/// What an operation that can fail comes to, as mathematical values: its
/// value, or the kind and the explanation of its failure.
pub enum Verdict<T> {
    Done(T),
    Fails(ErrorKind, Seq<char>),
}

impl From<ErrorKind> for Error {
    fn from(kind: ErrorKind) -> (error: Error) {
        Error { kind, message: "" }
    }
}

impl vstd::std_specs::convert::FromSpecImpl<ErrorKind> for Error {
    open spec fn obeys_from_spec() -> bool {
        true
    }

    open spec fn from_spec(kind: ErrorKind) -> Error {
        Error { kind, message: "" }
    }
}

} // verus!
