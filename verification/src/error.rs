//! Errors of reading and parsing.

use vstd::prelude::*;

verus! {

/// What an [`Error`] is about.
#[derive(Clone, Copy, Debug, PartialEq, Eq, Structural)]
pub enum ErrorKind {
    /// The bytes that were read do not have the expected form.
    InvalidData,
    /// The input ended inside a value of known length.
    UnexpectedEof,
}

/// A failure to read or to parse.
#[derive(Debug)]
pub struct Error {
    pub kind: ErrorKind,
    pub message: String,
}

impl Error {
    /// Whether this is an [`ErrorKind::InvalidData`] error with the given message.
    pub open spec fn is_invalid_data(self, message: &str) -> bool {
        self.kind == ErrorKind::InvalidData && self.message@ == message@
    }
}

/// An error that reports malformed data.
pub fn invalid_data(message: &str) -> (error: Error)
    ensures
        error.is_invalid_data(message),
{
    Error { kind: ErrorKind::InvalidData, message: message.to_owned() }
}

/// An error that reports an input that ended too soon.
pub fn unexpected_eof(message: &str) -> (error: Error)
    ensures
        error.kind == ErrorKind::UnexpectedEof,
        error.message@ == message@,
{
    Error { kind: ErrorKind::UnexpectedEof, message: message.to_owned() }
}

} // verus!
