//! A uniform error carrier for every failure a fetch can produce.
//!
//! Failures come from two stages: the HTTP transport (network unreachable,
//! non-success status) and the decoder (malformed payload, schema mismatch).
//! Both are normalized into one `Error` value that keeps the stage as a tag
//! and the underlying failure's description as a message string.

use vstd::prelude::*;

verus! {

/// The stage of a fetch that produced a failure.
#[derive(Clone, Copy, Debug, PartialEq, Eq, Structural)]
pub enum ErrorKind {
    /// The HTTP transport failed: network unreachable, refused connection,
    /// or a non-success response surfaced by the transport.
    Transport,
    /// The response body could not be decoded: malformed document, missing
    /// required field, or a field of the wrong shape.
    Decode,
}

/// The mathematical value of an [`Error`]: its stage tag and the message text.
pub struct ErrorView {
    pub kind: ErrorKind,
    pub message: Seq<char>,
}

/// A normalized failure: which stage it came from, and the underlying
/// failure's human-readable description.
#[derive(Clone, Debug)]
pub struct Error {
    pub kind: ErrorKind,
    pub message: String,
}

impl View for Error {
    type V = ErrorView;

    open spec fn view(&self) -> ErrorView {
        ErrorView { kind: self.kind, message: self.message@ }
    }
}

impl Error {
    /// Wraps a transport-stage failure description.
    pub fn transport(message: String) -> (r: Error)
        ensures
            r@.kind == ErrorKind::Transport,
            r@.message == message@,
    {
        Error { kind: ErrorKind::Transport, message }
    }

    /// Wraps a decode-stage failure description.
    pub fn decode(message: String) -> (r: Error)
        ensures
            r@.kind == ErrorKind::Decode,
            r@.message == message@,
    {
        Error { kind: ErrorKind::Decode, message }
    }

    /// True exactly when this failure came from the transport stage.
    pub fn is_transport(&self) -> (r: bool)
        ensures
            r == (self@.kind == ErrorKind::Transport),
    {
        match self.kind {
            ErrorKind::Transport => true,
            ErrorKind::Decode => false,
        }
    }

    /// True exactly when this failure came from the decode stage.
    pub fn is_decode(&self) -> (r: bool)
        ensures
            r == (self@.kind == ErrorKind::Decode),
    {
        match self.kind {
            ErrorKind::Transport => false,
            ErrorKind::Decode => true,
        }
    }

    /// The underlying failure's description.
    pub fn message(&self) -> (r: String)
        ensures
            r@ == self@.message,
    {
        self.message.clone()
    }
}

} // verus!
