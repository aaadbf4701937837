//! Errors of the server and how failed I/O is classified.
use vstd::prelude::*;

verus! {

#[verifier::external_type_specification]
#[verifier::external_body]
pub struct ExIoError(std::io::Error);

/// The kinds of failed I/O that the server tells apart.
#[derive(Clone, Copy, Debug, PartialEq, Eq, Structural)]
pub enum IoErrorKind {
    UnexpectedEof,
    ConnectionReset,
    BrokenPipe,
    Other,
}

impl IoErrorKind {
    /// Whether a failure of this kind means that the peer has gone.
    pub open spec fn is_disconnect(self) -> bool {
        self is UnexpectedEof || self is ConnectionReset || self is BrokenPipe
    }
}

/// Calls `std::io::Error::kind` and tells its variants apart, one arm each;
/// every kind but the three named ones is `Other`. The error is opaque here,
/// and for an error that carries an operating-system code the kind depends on
/// the platform's table of codes, so the kind is not a function of the value
/// alone and gets no name: nothing is stated of which kind comes back.
/// [`ServerError::from_io_kind`] and `RequestError::from_io_kind` take the
/// kind as an argument and are exact for each one.
#[verifier::external_body]
pub(crate) fn io_error_kind(e: &std::io::Error) -> IoErrorKind {
    match e.kind() {
        std::io::ErrorKind::UnexpectedEof => IoErrorKind::UnexpectedEof,
        std::io::ErrorKind::ConnectionReset => IoErrorKind::ConnectionReset,
        std::io::ErrorKind::BrokenPipe => IoErrorKind::BrokenPipe,
        _ => IoErrorKind::Other,
    }
}

#[derive(Debug)]
pub enum ServerError {
    InvalidVersion,
    InvalidMethod,
    InvalidRequest,
    Disconnected,
    NoRootFolder,
    Io(std::io::Error),
}

impl ServerError {
    /// The error for a failed I/O operation of the given kind: the peer's
    /// going away is `Disconnected`, anything else carries the I/O error.
    pub fn from_io_kind(kind: IoErrorKind, e: std::io::Error) -> (r: ServerError)
        ensures
            kind.is_disconnect() ==> r is Disconnected,
            !kind.is_disconnect() ==> (r matches ServerError::Io(x) && x == e),
    {
        match kind {
            IoErrorKind::UnexpectedEof | IoErrorKind::ConnectionReset | IoErrorKind::BrokenPipe => {
                ServerError::Disconnected
            },
            IoErrorKind::Other => ServerError::Io(e),
        }
    }

    /// The server's error for a request that could not be read: each kind
    /// carries over as itself.
    pub fn from_request_error(e: crate::request::RequestError) -> (r: ServerError)
        ensures
            match e {
                crate::request::RequestError::InvalidVersion => r is InvalidVersion,
                crate::request::RequestError::InvalidMethod => r is InvalidMethod,
                crate::request::RequestError::InvalidRequest => r is InvalidRequest,
                crate::request::RequestError::Disconnected => r is Disconnected,
                crate::request::RequestError::Io(x) => r matches ServerError::Io(y) && y == x,
            },
    {
        match e {
            crate::request::RequestError::InvalidVersion => ServerError::InvalidVersion,
            crate::request::RequestError::InvalidMethod => ServerError::InvalidMethod,
            crate::request::RequestError::InvalidRequest => ServerError::InvalidRequest,
            crate::request::RequestError::Disconnected => ServerError::Disconnected,
            crate::request::RequestError::Io(x) => ServerError::Io(x),
        }
    }

    /// The error for a failed I/O operation.
    pub fn from(e: std::io::Error) -> (r: ServerError)
        ensures
            r is Disconnected || (r matches ServerError::Io(x) && x == e),
    {
        let kind = io_error_kind(&e);
        ServerError::from_io_kind(kind, e)
    }
}

} // verus!
