//! The JSON number value.
//!
//! A number is kept as its source literal — the exact digit string read by
//! the lexer (or handed to the constructor) — so that the value model stays
//! free of machine floating point.  Converting a literal to a binary
//! floating-point value is left to the caller.

use vstd::prelude::*;

verus! {

/// A JSON number, wrapping its decimal source literal.
#[derive(Debug)]
pub struct JSONNumber {
    data: String,
}

impl View for JSONNumber {
    type V = Seq<char>;

    closed spec fn view(&self) -> Seq<char> {
        self.data@
    }
}

impl Clone for JSONNumber {
    fn clone(&self) -> (result: Self)
        ensures
            result == *self,
    {
        JSONNumber { data: self.data.clone() }
    }
}

impl JSONNumber {
    /// Create a new JSON Number from its decimal literal.
    pub fn new(data: String) -> (result: Self)
        ensures
            result@ == data@,
    {
        JSONNumber { data }
    }

    /// Render JSON Number as source text: the literal itself.
    pub fn to_string(&self) -> (result: String)
        ensures
            result@ == self@,
    {
        self.data.clone()
    }

    /// Get the number's decimal literal as an owned Rust string.
    pub fn get_number(&self) -> (result: String)
        ensures
            result@ == self@,
    {
        self.data.clone()
    }
}

} // verus!
