//! The JSON `null` value.

use vstd::prelude::*;

verus! {

/// The JSON `null` value, a unit type.
#[derive(Debug)]
pub struct JSONNull;

impl Clone for JSONNull {
    fn clone(&self) -> (result: Self)
        ensures
            result == *self,
    {
        JSONNull {}
    }
}

impl JSONNull {
    /// Create a new JSON Null.
    pub fn new() -> (result: Self)
        ensures
            result == (JSONNull {}),
    {
        JSONNull {}
    }

    /// Render JSON Null as source text.
    pub fn to_string(&self) -> (result: String)
        ensures
            result@ == "null"@,
    {
        String::from_str("null")
    }
}

} // verus!
