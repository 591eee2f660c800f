//! The named failures of an HTTP exchange.

use vstd::prelude::*;

verus! {

/// How an operation on an HTTP exchange can fail.
///
/// Protocol and usage errors are synchronous named failures; a peer
/// disconnect is reported as `AlreadyCompleted` after the writer has been
/// forced to its terminal state; `Fatal` names any other transport failure.
#[derive(Clone, Copy, PartialEq, Eq, Structural, Debug)]
pub enum HttpError {
    /// A second header write on the same exchange.
    AlreadySent,
    /// The response receiver was gone when the headers were delivered.
    ConnectionClosed,
    /// A body write before the headers were written.
    NoHeaders,
    /// A write after the writer reached its terminal state, or a write on a
    /// severed sink (peer disconnect).
    AlreadyCompleted,
    /// The exchange was busy with another operation.
    InUse,
    /// A response header name was not a valid token.
    InvalidHeaderName,
    /// A response header value held a byte that no header value may hold.
    InvalidHeaderValue,
    /// A transport failure that is not a peer disconnect.
    Fatal,
}

impl HttpError {
    /// The failure's message, as reported to the host runtime.
    pub fn message(&self) -> (r: &'static str)
        ensures
            r@ == self.spec_message(),
    {
        match self {
            HttpError::AlreadySent => "response headers already sent",
            HttpError::ConnectionClosed => "connection closed while sending response",
            HttpError::NoHeaders => "no response headers",
            HttpError::AlreadyCompleted => "response already completed",
            HttpError::InUse => "already in use",
            HttpError::InvalidHeaderName => "invalid header name",
            HttpError::InvalidHeaderValue => "invalid header value",
            HttpError::Fatal => "fatal transport failure",
        }
    }

    /// What `message` returns, variant by variant.
    pub open spec fn spec_message(&self) -> Seq<char> {
        match self {
            HttpError::AlreadySent => "response headers already sent"@,
            HttpError::ConnectionClosed => "connection closed while sending response"@,
            HttpError::NoHeaders => "no response headers"@,
            HttpError::AlreadyCompleted => "response already completed"@,
            HttpError::InUse => "already in use"@,
            HttpError::InvalidHeaderName => "invalid header name"@,
            HttpError::InvalidHeaderValue => "invalid header value"@,
            HttpError::Fatal => "fatal transport failure"@,
        }
    }
}

} // verus!
