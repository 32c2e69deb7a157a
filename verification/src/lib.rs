//! A JSON parsing and serialization library, verified with Verus.
//!
//! Source text is lexed into a sequence of located tokens, parsed by
//! recursive descent into a tagged value tree, and rendered back to text in
//! a compact or an indented form.  Every stage carries a full functional
//! specification: the exec code is proved to return exactly what the spec
//! lexer, spec parser and spec renderers describe, and every failure carries
//! the line and column of the offending character or token.

use vstd::prelude::*;

pub mod json_array;
pub mod json_boolean;
pub mod json_error;
pub mod json_null;
pub mod json_number;
pub mod json_object;
pub mod json_string;
pub mod json_value;
pub mod lexer;
pub mod parser;
pub mod roundtrip;
pub mod text;
pub mod token;

pub use json_array::JSONArray;
pub use json_boolean::JSONBoolean;
pub use json_error::JSONError;
pub use json_null::JSONNull;
pub use json_number::JSONNumber;
pub use json_object::JSONObject;
pub use json_string::JSONString;
pub use json_value::JSONType;
pub use json_value::JSONValue;
pub use lexer::Lexer;
pub use parser::Parser;
pub use token::Token;
pub use token::TokenType;

use json_error::SpecError;
use json_value::SpecValue;
use lexer::spec_lex;
use parser::spec_parse;

verus! {

/// Parsing source text: lexing it into tokens and parsing those into a
/// value tree, short-circuiting on the first error.
pub open spec fn spec_parse_text(s: Seq<char>) -> Result<SpecValue, SpecError> {
    match spec_lex(s) {
        Ok(tokens) => spec_parse(tokens),
        Err(e) => Err(e),
    }
}

/// Parse JSON in the form of a `&str` into a JSON Value, or fail with the
/// first lexing or parsing error.
pub fn parse(json: &str) -> (result: Result<JSONValue, JSONError>)
    ensures
        match spec_parse_text(json@) {
            Ok(v) => result matches Ok(value) && value@ == v,
            Err(e) => result matches Err(err) && err@ == e,
        },
{
    let lexer = Lexer::new(String::from_str(json));
    match lexer.get_tokens() {
        Ok(tokens) => {
            let parser = Parser::new(tokens);
            parser.parse()
        },
        Err(err) => Err(err),
    }
}

} // verus!
