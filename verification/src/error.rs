//! The common error type of the library.
//!
//! An error carries a machine-readable category, a human-readable message,
//! and an optional underlying cause, so that callers can branch on what
//! went wrong while a person still sees layered diagnostics.

use vstd::prelude::*;

verus! {

/// Machine-readable error categories.
///
/// Protocol violations, local precondition violations and not-found
/// outcomes each have their own variant, so contracts can state exactly
/// which failure a function reports on which input.
#[derive(Clone, Copy, Debug, PartialEq, Eq, Structural)]
pub enum ErrorKind {
    /// A tag byte outside the known action enumeration was received.
    UnknownAction,
    /// A recognized action that this side does not serve was received.
    UnhandledAction,
    /// A message was shorter than its layout demands.
    IncompleteMessage,
    /// A name overran its accumulator, or bytes followed the terminator.
    TooMuchData,
    /// Collected name bytes were not valid ASCII text.
    InvalidEncoding,
    /// A requested filename held a parent, root or prefix component.
    InvalidPath,
    /// The resolved file could not be opened for reading.
    OpenFailed,
    /// An operation that needs a prior successful join was attempted first.
    NotJoined,
    /// A filename handed in by the caller was not pure ASCII.
    NonAsciiFilename,
    /// The local listener bound to a non-IPv4 address.
    UnsupportedAddressFamily,
    /// A search found no peer holding the file.
    FileNotFound,
    /// A peer closed the connection before sending any reply byte.
    NoData,
    /// A peer answered a fetch with the carried non-zero response tag.
    PeerRejected(u8),
    /// A transport read, write or connect failed.
    Io,
    /// Any other failure, described only by the message.
    Other,
}

/// The common error type of the library: a category, a message, and an
/// optional underlying cause, so that diagnostics can be layered without
/// losing what a caller can branch on.
#[derive(Debug)]
pub struct Error {
    /// What went wrong, as a closed category.
    pub kind: ErrorKind,
    /// A message indicating what the error is about.
    pub context: String,
    /// The error this one wraps, if it grew out of another.
    pub source: Option<Box<Error>>,
}

impl Error {
    /// Creates a new `Error` of the general category with the given message.
    pub fn new(cxt: &str) -> (r: Error)
        ensures
            r.kind == ErrorKind::Other,
            r.context@ == cxt@,
            r.source is None,
    {
        Error { kind: ErrorKind::Other, context: cxt.to_owned(), source: None }
    }

    /// Creates a new `Error` of the given category with the given message.
    pub fn with_kind(kind: ErrorKind, cxt: &str) -> (r: Error)
        ensures
            r.kind == kind,
            r.context@ == cxt@,
            r.source is None,
    {
        Error { kind, context: cxt.to_owned(), source: None }
    }

    /// Wraps an error under a new message, keeping its category so that
    /// callers can still branch on what originally went wrong.
    pub fn with(cxt: &str, source: Error) -> (r: Error)
        ensures
            r.kind == source.kind,
            r.context@ == cxt@,
            r.source matches Some(s) && *s == source,
    {
        let kind = source.kind;
        Error { kind, context: cxt.to_owned(), source: Some(Box::new(source)) }
    }

    /// The category of this error.
    pub fn kind(&self) -> (r: ErrorKind)
        ensures
            r == self.kind,
    {
        self.kind
    }

    /// The human-readable message of this error.
    pub fn message(&self) -> (r: &String)
        ensures
            r@ == self.context@,
    {
        &self.context
    }
}

/// Attaches a message to a failing outcome, turning it into the library's
/// error type: a missing value becomes a fresh error with no cause, a
/// failed `Result` keeps its error as the cause.
pub trait Context<T>: Sized {
    /// The value carried on success, if any.
    spec fn spec_value(&self) -> Option<T>;

    /// The category the outcome fails with when it fails.
    spec fn spec_fail_kind(&self) -> ErrorKind;

    /// The underlying error the outcome fails with, if it carries one.
    spec fn spec_fail_source(&self) -> Option<Error>;

    /// Maps success through unchanged; describes failure with `cxt`,
    /// keeping the underlying error, where there is one, as the cause.
    fn context(self, cxt: &str) -> (r: Result<T, Error>)
        ensures
            self.spec_value() matches Some(v) ==> (r matches Ok(x) && x == v),
            self.spec_value() is None ==> (r matches Err(e) && e.kind == self.spec_fail_kind()
                && e.context@ == cxt@ && (match self.spec_fail_source() {
                Some(src) => e.source matches Some(cause) && *cause == src,
                None => e.source is None,
            })),
    ;
}

impl<T> Context<T> for Option<T> {
    open spec fn spec_value(&self) -> Option<T> {
        *self
    }

    open spec fn spec_fail_kind(&self) -> ErrorKind {
        ErrorKind::Other
    }

    open spec fn spec_fail_source(&self) -> Option<Error> {
        None
    }

    fn context(self, cxt: &str) -> (r: Result<T, Error>) {
        match self {
            Some(v) => Ok(v),
            None => Err(Error::new(cxt)),
        }
    }
}

impl<T> Context<T> for Result<T, Error> {
    open spec fn spec_value(&self) -> Option<T> {
        match self {
            Ok(v) => Some(*v),
            Err(_) => None,
        }
    }

    open spec fn spec_fail_kind(&self) -> ErrorKind {
        match self {
            Ok(_) => ErrorKind::Other,
            Err(e) => e.kind,
        }
    }

    open spec fn spec_fail_source(&self) -> Option<Error> {
        match self {
            Ok(_) => None,
            Err(e) => Some(*e),
        }
    }

    fn context(self, cxt: &str) -> (r: Result<T, Error>) {
        match self {
            Ok(v) => Ok(v),
            Err(e) => Err(Error::with(cxt, e)),
        }
    }
}

} // verus!
