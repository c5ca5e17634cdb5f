//! The error that every operation on a host resource returns, whatever
//! stands between the caller and the resource.

use vstd::prelude::*;
use crate::boundary::BoundaryError;

verus! {

/// The general kind of an error.
#[derive(Clone, Copy, Debug, PartialEq, Eq, Hash, Structural)]
pub enum ErrorKind {
    NotFound,
    PermissionDenied,
    ConnectionRefused,
    ConnectionReset,
    ConnectionAborted,
    NotConnected,
    AddrInUse,
    AddrNotAvailable,
    BrokenPipe,
    AlreadyExists,
    WouldBlock,
    InvalidInput,
    InvalidData,
    TimedOut,
    WriteZero,
    Interrupted,
    Other,
    UnexpectedEof,
}

/// An error: its kind, the status that the host reported if it came from
/// there, and a message.
#[derive(Clone, Debug, PartialEq, Eq)]
pub struct Error {
    kind: ErrorKind,
    code: Option<i32>,
    message: &'static str,
}

impl Error {
    /// The kind of the error.
    pub closed spec fn spec_kind(&self) -> ErrorKind {
        self.kind
    }

    /// The status that the host reported, if the error came from there.
    pub closed spec fn spec_raw_os_error(&self) -> Option<i32> {
        self.code
    }

    /// The message of the error.
    pub closed spec fn spec_message(&self) -> Seq<char> {
        self.message@
    }

    /// The error of the given kind and message that did not come from the
    /// host.
    pub open spec fn is_const(&self, kind: ErrorKind, message: Seq<char>) -> bool {
        &&& self.spec_kind() == kind
        &&& self.spec_raw_os_error().is_none()
        &&& self.spec_message() == message
    }

    /// An error of the given kind with a fixed message.
    pub fn new_const(kind: ErrorKind, message: &'static str) -> (e: Error)
        ensures
            e.is_const(kind, message@),
    {
        Error { kind, code: None, message }
    }

    /// The error for a status that the host reported.
    pub fn from_raw_os_error(code: i32) -> (e: Error)
        ensures
            e.spec_kind() == ErrorKind::Other,
            e.spec_raw_os_error() == Some(code),
            e.spec_message() == "the host reported a failure"@,
    {
        Error { kind: ErrorKind::Other, code: Some(code), message: "the host reported a failure" }
    }

    /// The kind of the error.
    #[verifier::when_used_as_spec(spec_kind)]
    pub fn kind(&self) -> (kind: ErrorKind)
        ensures
            kind == self.spec_kind(),
    {
        self.kind
    }

    /// The status that the host reported, if the error came from there.
    #[verifier::when_used_as_spec(spec_raw_os_error)]
    pub fn raw_os_error(&self) -> (code: Option<i32>)
        ensures
            code == self.spec_raw_os_error(),
    {
        self.code
    }

    /// The message of the error.
    pub fn message(&self) -> (message: &'static str)
        ensures
            message@ == self.spec_message(),
    {
        self.message
    }
}

impl From<BoundaryError> for Error {
    /// A failure of the boundary in the shape of any other failure: only
    /// the kind tells them apart.
    fn from(e: BoundaryError) -> (r: Error) {
        match e {
            BoundaryError::CapacityExceeded => Error {
                kind: ErrorKind::InvalidInput,
                code: None,
                message: "request exceeds the shared buffer",
            },
            BoundaryError::UntrustedSizeMismatch => Error {
                kind: ErrorKind::InvalidData,
                code: None,
                message: "response length disagrees with the shared region",
            },
            BoundaryError::HostRejected(code) => Error {
                kind: ErrorKind::Other,
                code: Some(code),
                message: "the host reported a failure",
            },
        }
    }
}

impl vstd::std_specs::convert::FromSpecImpl<BoundaryError> for Error {
    open spec fn obeys_from_spec() -> bool {
        true
    }

    open spec fn from_spec(e: BoundaryError) -> Error {
        boundary_error(e)
    }
}

/// The error that stands for a failure of the boundary.
pub closed spec fn boundary_error(e: BoundaryError) -> Error {
    match e {
        BoundaryError::CapacityExceeded => Error {
            kind: ErrorKind::InvalidInput,
            code: None,
            message: "request exceeds the shared buffer",
        },
        BoundaryError::UntrustedSizeMismatch => Error {
            kind: ErrorKind::InvalidData,
            code: None,
            message: "response length disagrees with the shared region",
        },
        BoundaryError::HostRejected(code) => Error {
            kind: ErrorKind::Other,
            code: Some(code),
            message: "the host reported a failure",
        },
    }
}

/// The kind, status and message of the error that stands for a failure
/// of the boundary.
pub proof fn lemma_boundary_error(e: BoundaryError)
    ensures
        boundary_error(e).spec_message() == match e {
            BoundaryError::CapacityExceeded => "request exceeds the shared buffer"@,
            BoundaryError::UntrustedSizeMismatch =>
                "response length disagrees with the shared region"@,
            BoundaryError::HostRejected(_) => "the host reported a failure"@,
        },
        boundary_error(e).spec_kind() == match e {
            BoundaryError::CapacityExceeded => ErrorKind::InvalidInput,
            BoundaryError::UntrustedSizeMismatch => ErrorKind::InvalidData,
            BoundaryError::HostRejected(_) => ErrorKind::Other,
        },
        boundary_error(e).spec_raw_os_error() == match e {
            BoundaryError::HostRejected(code) => Some(code),
            _ => None,
        },
{
}

/// `r` is what a caller sees of the outcome `reply` of a crossing: the
/// value as it is, or the error that stands for the failure.
pub open spec fn is_surfaced<T>(reply: Result<T, BoundaryError>, r: Result<T, Error>) -> bool {
    match reply {
        Ok(value) => r == Ok::<T, Error>(value),
        Err(e) => r == Err::<T, Error>(boundary_error(e)),
    }
}

/// Turns the outcome of a crossing into what a caller sees of it: a
/// failure of the boundary becomes the error that stands for it.
pub fn surface<T>(reply: Result<T, BoundaryError>) -> (r: Result<T, Error>)
    ensures
        is_surfaced(reply, r),
{
    match reply {
        Ok(value) => Ok(value),
        Err(e) => Err(Error::from(e)),
    }
}

} // verus!
