//! The JSON string value.

use vstd::prelude::*;

verus! {

/// A JSON string, wrapping an owned Rust string.
///
/// The wrapped text is kept exactly as it stood between the quotes of the
/// source: escape sequences are stored as their two-character source form
/// (a backslash and the escaped character), not decoded.
#[derive(Debug)]
pub struct JSONString {
    data: String,
}

impl Clone for JSONString {
    fn clone(&self) -> (result: Self)
        ensures
            result == *self,
    {
        JSONString { data: self.data.clone() }
    }
}

impl JSONString {
    /// The wrapped text, as a sequence of characters.
    pub closed spec fn spec_string(&self) -> Seq<char> {
        self.data@
    }

    /// Create a new JSON String from an owned Rust string.
    pub fn new(data: String) -> (result: Self)
        ensures
            result.spec_string() == data@,
    {
        JSONString { data }
    }

    /// Render JSON String as source text: the wrapped text surrounded by
    /// double quotes.
    pub fn to_string(&self) -> (result: String)
        ensures
            result@ == "\""@ + self.spec_string() + "\""@,
    {
        let mut result = String::from_str("\"");
        result.append(self.data.as_str());
        result.append("\"");
        proof {
            assert(result@ == "\""@ + self.spec_string() + "\""@);
        }
        result
    }

    /// Get the wrapped text as an owned Rust string.
    pub fn get_string(&self) -> (result: String)
        ensures
            result@ == self.spec_string(),
    {
        self.data.clone()
    }
}

} // verus!
