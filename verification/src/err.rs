//! The error type shared by every fallible operation of the library.

use vstd::prelude::*;

verus! {

/// What went wrong, independent of the wording of the message.
#[derive(Debug, Clone, Copy, PartialEq, Eq, Structural)]
pub enum ErrorKind {
    /// A free-form error that carries only its message.
    Other,
    /// The catalogue holds no usable symbol.
    EmptySymbolSet,
    /// A word list could not be read as text.
    Io,
    /// The operating system's entropy source could not seed a generator.
    RngInit,
    /// No output of the requested shape can satisfy the constraints.
    ImpossibleConstraint,
    /// Every draw within the allowed number of attempts was rejected.
    RetriesExhausted,
    /// The password hash could not be computed.
    Hash,
}

/// An error: a kind and a human-readable message.
#[derive(Debug)]
pub struct Error {
    kind: ErrorKind,
    message: String,
}

impl Error {
    /// The kind of this error.
    pub closed spec fn spec_kind(&self) -> ErrorKind {
        self.kind
    }

    /// The characters of this error's message.
    pub closed spec fn spec_message(&self) -> Seq<char> {
        self.message@
    }

    /// A free-form error with the given message.
    pub fn new(msg: String) -> (e: Error)
        ensures
            e.spec_kind() == ErrorKind::Other,
            e.spec_message() == msg@,
    {
        Error { kind: ErrorKind::Other, message: msg }
    }

    /// An error of the given kind with the given message.
    pub fn with_kind(kind: ErrorKind, msg: &str) -> (e: Error)
        ensures
            e.spec_kind() == kind,
            e.spec_message() == msg@,
    {
        Error { kind, message: msg.to_owned() }
    }

    /// The kind of this error.
    #[verifier::when_used_as_spec(spec_kind)]
    pub fn kind(&self) -> (k: ErrorKind)
        ensures
            k == self.spec_kind(),
    {
        self.kind
    }

    /// The message of this error.
    pub fn message(&self) -> (s: String)
        ensures
            s@ == self.spec_message(),
    {
        self.message.clone()
    }
}

/// The result is an error of the given kind.
pub open spec fn fails_with<T>(r: Result<T, Error>, kind: ErrorKind) -> bool {
    match r {
        Ok(_) => false,
        Err(e) => e.spec_kind() == kind,
    }
}

} // verus!
