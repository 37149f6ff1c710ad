//! What can go wrong while a program is parsed or run.

use vstd::prelude::*;

verus! {

/// `std::io::Error`, the standard library's I/O failure. Nothing is claimed
/// of it: the library carries such a value from the host to the caller and
/// never looks inside.
#[verifier::external_type_specification]
#[verifier::external_body]
pub struct ExIoError(std::io::Error);

/// A failure of the parser or of the machine.
#[derive(Debug)]
pub enum TrainfuckError {
    /// A `[` at this character position has no matching `]`.
    UnmatchedOpenBracket(usize),
    /// A `]` at this character position closes no `[`.
    UnmatchedCloseBracket(usize),
    /// Reading the input stream, or writing or flushing a stream, failed.
    IoError(std::io::Error),
    /// A socket operation failed; the text says which and why.
    NetworkError(String),
}

/// The mathematical value of a [`TrainfuckError`]: positions are naturals
/// and the text is a sequence of characters.
pub enum Fault {
    /// A `[` at this character position has no matching `]`.
    UnmatchedOpenBracket(nat),
    /// A `]` at this character position closes no `[`.
    UnmatchedCloseBracket(nat),
    /// A stream failed with this cause.
    IoError(std::io::Error),
    /// A socket operation failed; the text says which and why.
    NetworkError(Seq<char>),
}

impl View for TrainfuckError {
    type V = Fault;

    open spec fn view(&self) -> Fault {
        match self {
            TrainfuckError::UnmatchedOpenBracket(at) => Fault::UnmatchedOpenBracket(*at as nat),
            TrainfuckError::UnmatchedCloseBracket(at) => Fault::UnmatchedCloseBracket(*at as nat),
            TrainfuckError::IoError(cause) => Fault::IoError(*cause),
            TrainfuckError::NetworkError(text) => Fault::NetworkError(text@),
        }
    }
}

} // verus!
