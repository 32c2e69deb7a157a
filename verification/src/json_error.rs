//! The error type shared by the lexer and the parser: a message together
//! with the line and column of the offending character or token.

use vstd::prelude::*;
use crate::text::{dec_rep, usize_to_string};

verus! {

/// The mathematical model of a [`JSONError`]: the message text and the
/// 1-indexed source location it points at.
pub struct SpecError {
    pub message: Seq<char>,
    pub line: nat,
    pub column: nat,
}

/// A lexing or parsing error, carrying a human-readable message and the
/// source location the error was raised at.
#[derive(Debug)]
pub struct JSONError {
    message: String,
    line: usize,
    column: usize,
}

/// The full text reported for an error: the message followed by its
/// location, formatted as `<message> (line <L> column <C>)`.
pub open spec fn full_message(e: SpecError) -> Seq<char> {
    e.message + " (line "@ + dec_rep(e.line) + " column "@ + dec_rep(e.column) + ")"@
}

impl View for JSONError {
    type V = SpecError;

    closed spec fn view(&self) -> SpecError {
        SpecError { message: self.message@, line: self.line as nat, column: self.column as nat }
    }
}

impl Clone for JSONError {
    fn clone(&self) -> (result: Self)
        ensures
            result@ == self@,
    {
        JSONError { message: self.message.clone(), line: self.line, column: self.column }
    }
}

impl JSONError {
    /// Create a new error from a message and the location it points at.
    pub fn new(message: &str, line: usize, column: usize) -> (result: Self)
        ensures
            result@ == (SpecError { message: message@, line: line as nat, column: column as nat }),
    {
        JSONError { message: String::from_str(message), line, column }
    }

    /// Create a new error from an already owned message.
    pub(crate) fn from_parts(message: String, line: usize, column: usize) -> (result: Self)
        ensures
            result@ == (SpecError { message: message@, line: line as nat, column: column as nat }),
    {
        JSONError { message, line, column }
    }

    /// The message followed by the source location.
    pub fn get_message(&self) -> (result: String)
        ensures
            result@ == full_message(self@),
    {
        let mut result = self.message.clone();
        result.append(" (line ");
        let line = usize_to_string(self.line);
        result.append(line.as_str());
        result.append(" column ");
        let column = usize_to_string(self.column);
        result.append(column.as_str());
        result.append(")");
        proof {
            assert(result@ =~= full_message(self@));
        }
        result
    }
}

} // verus!
