//! The token model: classified lexical units, each carrying the source
//! location it was read at.

use vstd::prelude::*;
use vstd::std_specs::cmp::PartialEqSpecImpl;

verus! {

/// The mathematical model of a token kind, with text payloads as character
/// sequences.
pub enum SpecTokenType {
    OpenCurly,
    CloseCurly,
    OpenSquare,
    CloseSquare,
    Colon,
    Comma,
    Str { text: Seq<char> },
    Num { literal: Seq<char> },
    Bool { value: bool },
    Null,
}

/// The mathematical model of a [`Token`]: its kind and its 1-indexed
/// source location.
pub struct SpecToken {
    pub token_type: SpecTokenType,
    pub line: nat,
    pub column: nat,
}

/// The kind of a token.
///
/// A string token carries the text between the quotes, with escape
/// sequences kept in their two-character source form.  A number token
/// carries the literal exactly as it stood in the source.
#[derive(Debug)]
pub enum TokenType {
    OpenCurlyBracket,
    CloseCurlyBracket,
    OpenSquareBracket,
    CloseSquareBracket,
    Colon,
    Comma,
    String(String),
    Number(String),
    Boolean(bool),
    Null,
}

/// A token together with the line and column it was read at.
#[derive(Debug)]
pub struct Token {
    pub token_type: TokenType,
    pub line: usize,
    pub column: usize,
}

impl View for TokenType {
    type V = SpecTokenType;

    open spec fn view(&self) -> SpecTokenType {
        match self {
            TokenType::OpenCurlyBracket => SpecTokenType::OpenCurly,
            TokenType::CloseCurlyBracket => SpecTokenType::CloseCurly,
            TokenType::OpenSquareBracket => SpecTokenType::OpenSquare,
            TokenType::CloseSquareBracket => SpecTokenType::CloseSquare,
            TokenType::Colon => SpecTokenType::Colon,
            TokenType::Comma => SpecTokenType::Comma,
            TokenType::String(text) => SpecTokenType::Str { text: text@ },
            TokenType::Number(literal) => SpecTokenType::Num { literal: literal@ },
            TokenType::Boolean(value) => SpecTokenType::Bool { value: *value },
            TokenType::Null => SpecTokenType::Null,
        }
    }
}

impl View for Token {
    type V = SpecToken;

    open spec fn view(&self) -> SpecToken {
        SpecToken {
            token_type: self.token_type@,
            line: self.line as nat,
            column: self.column as nat,
        }
    }
}

impl PartialEq for TokenType {
    fn eq(&self, other: &Self) -> (result: bool)
        ensures
            result == (self@ == other@),
    {
        match (self, other) {
            (TokenType::OpenCurlyBracket, TokenType::OpenCurlyBracket) => true,
            (TokenType::CloseCurlyBracket, TokenType::CloseCurlyBracket) => true,
            (TokenType::OpenSquareBracket, TokenType::OpenSquareBracket) => true,
            (TokenType::CloseSquareBracket, TokenType::CloseSquareBracket) => true,
            (TokenType::Colon, TokenType::Colon) => true,
            (TokenType::Comma, TokenType::Comma) => true,
            (TokenType::String(text), TokenType::String(other_text)) => *text == *other_text,
            (TokenType::Number(literal), TokenType::Number(other_literal)) => *literal
                == *other_literal,
            (TokenType::Boolean(value), TokenType::Boolean(other_value)) => *value == *other_value,
            (TokenType::Null, TokenType::Null) => true,
            _ => false,
        }
    }
}

impl PartialEqSpecImpl for TokenType {
    open spec fn obeys_eq_spec() -> bool {
        true
    }

    open spec fn eq_spec(&self, other: &Self) -> bool {
        self@ == other@
    }
}

impl PartialEq for Token {
    /// Tokens compare by kind and payload alone: the location takes no
    /// part in equality.
    fn eq(&self, other: &Self) -> (result: bool)
        ensures
            result == (self.token_type@ == other.token_type@),
    {
        self.token_type == other.token_type
    }
}

impl PartialEqSpecImpl for Token {
    open spec fn obeys_eq_spec() -> bool {
        true
    }

    open spec fn eq_spec(&self, other: &Self) -> bool {
        self.token_type@ == other.token_type@
    }
}

impl Clone for TokenType {
    fn clone(&self) -> (result: Self)
        ensures
            result@ == self@,
    {
        match self {
            TokenType::OpenCurlyBracket => TokenType::OpenCurlyBracket,
            TokenType::CloseCurlyBracket => TokenType::CloseCurlyBracket,
            TokenType::OpenSquareBracket => TokenType::OpenSquareBracket,
            TokenType::CloseSquareBracket => TokenType::CloseSquareBracket,
            TokenType::Colon => TokenType::Colon,
            TokenType::Comma => TokenType::Comma,
            TokenType::String(text) => TokenType::String(text.clone()),
            TokenType::Number(literal) => TokenType::Number(literal.clone()),
            TokenType::Boolean(value) => TokenType::Boolean(*value),
            TokenType::Null => TokenType::Null,
        }
    }
}

impl Clone for Token {
    fn clone(&self) -> (result: Self)
        ensures
            result@ == self@,
    {
        Token { token_type: self.token_type.clone(), line: self.line, column: self.column }
    }
}

/// The models of a token sequence, in order.
pub open spec fn tokens_view(s: Seq<Token>) -> Seq<SpecToken> {
    s.map_values(|t: Token| t@)
}

/// How a token kind is written into an error message: string text between
/// quotes, a number's literal, the keywords, or the structural character
/// itself.
pub open spec fn token_type_display(t: SpecTokenType) -> Seq<char> {
    match t {
        SpecTokenType::OpenCurly => "{"@,
        SpecTokenType::CloseCurly => "}"@,
        SpecTokenType::OpenSquare => "["@,
        SpecTokenType::CloseSquare => "]"@,
        SpecTokenType::Colon => ":"@,
        SpecTokenType::Comma => ","@,
        SpecTokenType::Str { text } => "\""@ + text + "\""@,
        SpecTokenType::Num { literal } => literal,
        SpecTokenType::Bool { value } => if value {
            "true"@
        } else {
            "false"@
        },
        SpecTokenType::Null => "null"@,
    }
}

impl Token {
    /// Create a token at the given location.
    pub fn new(token_type: TokenType, line: usize, column: usize) -> (result: Self)
        ensures
            result@ == (SpecToken {
                token_type: token_type@,
                line: line as nat,
                column: column as nat,
            }),
    {
        Token { token_type, line, column }
    }
}

impl TokenType {
    /// Render this token kind as it appears inside error messages.
    pub fn display_string(&self) -> (result: String)
        ensures
            result@ == token_type_display(self@),
    {
        match self {
            TokenType::OpenCurlyBracket => String::from_str("{"),
            TokenType::CloseCurlyBracket => String::from_str("}"),
            TokenType::OpenSquareBracket => String::from_str("["),
            TokenType::CloseSquareBracket => String::from_str("]"),
            TokenType::Colon => String::from_str(":"),
            TokenType::Comma => String::from_str(","),
            TokenType::String(text) => {
                let mut result = String::from_str("\"");
                result.append(text.as_str());
                result.append("\"");
                proof {
                    assert(result@ =~= token_type_display(self@));
                }
                result
            },
            TokenType::Number(literal) => literal.clone(),
            TokenType::Boolean(value) => {
                if *value {
                    String::from_str("true")
                } else {
                    String::from_str("false")
                }
            },
            TokenType::Null => String::from_str("null"),
        }
    }
}

} // verus!
