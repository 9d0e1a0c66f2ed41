//! Error values of the connection layer.

use vstd::prelude::*;

verus! {

/// The cause of a terminal transport failure.
#[derive(Clone, Copy, Debug, PartialEq, Eq, Structural)]
pub enum IoFault {
    /// The operating system reported an error on a read or write; the payload
    /// is its error code (0 where the transport gave none).
    Os(i32),
    /// A pending request stayed unanswered beyond the configured timeout.
    Timeout,
    /// Inbound bytes did not form a valid frame.
    Decode,
}

/// A terminal connection error. Once recorded it is permanent for the life of
/// the connection: there is no transition back to healthy.
#[derive(Clone, Copy, Debug, PartialEq, Eq, Structural)]
pub enum ConnError {
    /// The user closed the connection.
    Closed,
    /// The transport failed.
    IoError(IoFault),
}

/// Why a request could not be encoded into a frame.
#[derive(Clone, Copy, Debug, PartialEq, Eq, Structural)]
pub enum CodecError {
    /// More than 65_535 arguments: the count does not fit the header's `u16`.
    TooManyArgs,
    /// An argument longer than `u32::MAX` bytes: its length does not fit the
    /// header's `u32` length field.
    ArgTooLong,
}

/// Why a request was rejected without being written to the transport.
#[derive(Clone, Copy, Debug, PartialEq, Eq, Structural)]
pub enum ReqError {
    /// The connection is in a terminal state; no I/O was attempted.
    Terminal(ConnError),
    /// The arguments exceed the wire format's bounds.
    Encode(CodecError),
}

impl ConnError {
    /// A short description, in place of a `Display` impl.
    pub fn describe(&self) -> (s: String)
        ensures
            s@ == match self {
                ConnError::Closed => "previously closed"@,
                ConnError::IoError(_) => "transport failure"@,
            },
    {
        match self {
            ConnError::Closed => "previously closed".to_string(),
            ConnError::IoError(_) => "transport failure".to_string(),
        }
    }
}

} // verus!
