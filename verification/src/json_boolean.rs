//! The JSON boolean values.

use vstd::prelude::*;

verus! {

/// A JSON boolean, wrapping a Rust `bool`.
#[derive(Debug)]
pub struct JSONBoolean {
    data: bool,
}

impl Clone for JSONBoolean {
    fn clone(&self) -> (result: Self)
        ensures
            result == *self,
    {
        JSONBoolean { data: self.data }
    }
}

impl JSONBoolean {
    /// The wrapped boolean.
    pub closed spec fn spec_boolean(&self) -> bool {
        self.data
    }

    /// Create a new JSON Boolean from a Rust `bool`.
    pub fn new(data: bool) -> (result: Self)
        ensures
            result.spec_boolean() == data,
    {
        JSONBoolean { data }
    }

    /// Render JSON Boolean as source text, `true` or `false`.
    pub fn to_string(&self) -> (result: String)
        ensures
            result@ == (if self.spec_boolean() {
                "true"@
            } else {
                "false"@
            }),
    {
        if self.data {
            String::from_str("true")
        } else {
            String::from_str("false")
        }
    }

    /// Get the wrapped Rust `bool`.
    pub fn get_boolean(&self) -> (result: bool)
        ensures
            result == self.spec_boolean(),
    {
        self.data
    }
}

} // verus!
