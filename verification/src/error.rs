//! The error type shared by every layer of the library.

use vstd::prelude::*;

verus! {

/// How an error is classified.
///
/// Every failure the library reports falls in one of these kinds; the
/// kind decides how a caller should react, while the message only
/// explains the failure to a human reader.
#[derive(Debug, Clone, Copy, PartialEq, Eq)]
pub enum ErrorType {
    /// No more precise classification applies.
    Default,
    /// Spawning the subordinate process failed, one of its pipes failed,
    /// or it did not answer within the configured timeout.
    Process,
    /// The subordinate process emitted bytes that are not valid UTF-8.
    Utf8,
    /// The subordinate process emitted text that does not match the
    /// expected grammar.
    Protocol,
    /// A caller handed an add-word operation a word with non-alphabetic
    /// characters.
    InvalidWord,
}

/// An error, classified by [`ErrorType`] and carrying a human-readable
/// message.
#[derive(Debug, PartialEq)]
pub struct Error {
    /// The human-readable message.
    pub msg: String,
    /// The classification of this error.
    pub variant: ErrorType,
}

impl Error {
    /// Creates a new default error.
    pub fn new(msg: &str) -> (e: Error)
        ensures
            e.variant == ErrorType::Default,
            e.msg@ == msg@,
    {
        Error { msg: msg.to_owned(), variant: ErrorType::Default }
    }

    /// Creates a new process error
    ///
    /// (for errors launching or talking to the subordinate process).
    pub fn process(msg: &str) -> (e: Error)
        ensures
            e.variant == ErrorType::Process,
            e.msg@ == msg@,
    {
        Error { msg: msg.to_owned(), variant: ErrorType::Process }
    }

    /// Creates a new UTF-8 error
    ///
    /// (for output that could not be decoded as UTF-8).
    pub fn utf8(msg: &str) -> (e: Error)
        ensures
            e.variant == ErrorType::Utf8,
            e.msg@ == msg@,
    {
        Error { msg: msg.to_owned(), variant: ErrorType::Utf8 }
    }

    /// Creates a new protocol error
    ///
    /// (for output that does not match the expected grammar).
    pub fn protocol(msg: &str) -> (e: Error)
        ensures
            e.variant == ErrorType::Protocol,
            e.msg@ == msg@,
    {
        Error { msg: msg.to_owned(), variant: ErrorType::Protocol }
    }

    /// Creates a new invalid-word error
    ///
    /// (for add-word operations handed a word they must refuse).
    pub fn invalid_word(msg: &str) -> (e: Error)
        ensures
            e.variant == ErrorType::InvalidWord,
            e.msg@ == msg@,
    {
        Error { msg: msg.to_owned(), variant: ErrorType::InvalidWord }
    }

    /// The human-readable message, for callers that want to print it.
    pub fn message(&self) -> (m: &str)
        ensures
            m@ == self.msg@,
    {
        self.msg.as_str()
    }
}

} // verus!
