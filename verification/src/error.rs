//! Error categories for RESP framing and client operations.

use vstd::prelude::*;

verus! {

/// The closed set of failure categories surfaced by this crate.
///
/// `IncompleteFrame` is an internal signal of the connection's read loop and
/// never reaches a caller of the client layer; every other category does.
#[derive(Debug)]
pub enum RedisError {
    /// The underlying byte stream failed: reset, write failure, or a peer
    /// that closed the stream in the middle of a frame.
    Io(String),
    /// The buffer holds a valid prefix of a frame; more bytes are needed.
    IncompleteFrame,
    /// The bytes cannot form a valid frame; fatal for the connection.
    InvalidFrame,
    /// The server answered with an error frame; its text is kept verbatim.
    ServerError(Vec<u8>),
    /// The server answered with a well-formed frame of the wrong shape for
    /// the issued command.
    UnexpectedResponseType,
    /// A response payload failed to coerce to the requested type, such as an
    /// integer reply whose text is not a decimal number.
    EncodingError,
    /// Catch-all for branches that are believed unreachable.
    Unknown,
}

impl RedisError {
    /// A short descriptive label for the error category.
    pub fn describe(&self) -> (r: &'static str)
        ensures
            self is Io ==> r@ == "error from io"@,
            self is IncompleteFrame ==> r@ == "incomplete frame"@,
            self is InvalidFrame ==> r@ == "invalid frame"@,
            self is ServerError ==> r@ == "server error"@,
            self is UnexpectedResponseType ==> r@ == "unexpected response type"@,
            self is EncodingError ==> r@ == "encoding error"@,
            self is Unknown ==> r@ == "unknown error"@,
    {
        match self {
            RedisError::Io(_) => "error from io",
            RedisError::IncompleteFrame => "incomplete frame",
            RedisError::InvalidFrame => "invalid frame",
            RedisError::ServerError(_) => "server error",
            RedisError::UnexpectedResponseType => "unexpected response type",
            RedisError::EncodingError => "encoding error",
            RedisError::Unknown => "unknown error",
        }
    }
}

} // verus!
