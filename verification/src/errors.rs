//! Error types of the parser and of the execution engine.

use vstd::prelude::*;

verus! {

/// The kinds of failure a command parse can end in.
#[derive(Debug, Clone, Copy, PartialEq, Eq, Structural)]
pub enum ParserErrorType {
    /// A token fits no position and carries no recognized sigil.
    InvalidToken,
    /// An attribute misses `=`, its key, or its value.
    MalformedAttribute,
    /// No method token was found.
    UnresolvedMethod,
    /// No URL token was found.
    UnresolvedUrl,
}

/// A parse failure: its kind and a human-readable message.
#[derive(Debug, Clone, PartialEq)]
pub struct ParserError {
    pub error: ParserErrorType,
    pub message: String,
}

impl ParserError {
    pub fn new(error: ParserErrorType, message: String) -> (r: Self)
        ensures
            r.error == error,
            r.message == message,
    {
        ParserError { error, message }
    }
}

/// An error wrapper carrying a bare message, kept for request dispatch
/// failures.
#[derive(Debug, Clone, PartialEq)]
pub struct RequestError(pub String);

/// The kinds of failure an execution can end in.
#[derive(Debug, Clone, PartialEq)]
pub enum RunError {
    /// The command failed to parse; parsing happens again after dependency
    /// substitution, so this can also surface at execution time.
    Parse(ParserError),
    /// `req` named a variable missing from the heap.
    UnresolvedVariable(String),
    /// The method is none of the accepted ones.
    UnknownMethod(String),
    /// The HTTP transfer or response decoding failed; carries the message.
    Transport(String),
    /// A selector in first-match mode found nothing.
    SelectorNoMatch(String),
    /// The response was not JSON, or the selector failed to apply.
    SelectorInvalid(String),
    /// A command file could not be read; carries the message.
    FileRead(String),
}

} // verus!
