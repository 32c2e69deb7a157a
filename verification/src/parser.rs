//! The parser: consumes the token sequence by recursive descent and
//! builds a value tree, or fails with a located error.
//!
//! Exactly one value must occupy the whole token sequence.  Inside a
//! container, a scalar value must be followed by a stop token — a comma or
//! the container's closing bracket; a nested container is delimited by its
//! own closing bracket.  Object keys must be string tokens, and a repeated
//! key overwrites the earlier value while keeping its position.

use vstd::prelude::*;
use crate::json_array::JSONArray;
use crate::json_boolean::JSONBoolean;
use crate::json_error::{JSONError, SpecError};
use crate::json_null::JSONNull;
use crate::json_number::JSONNumber;
use crate::json_object::{upsert, JSONObject};
use crate::json_string::JSONString;
use crate::json_value::{JSONValue, SpecValue};
use crate::token::{token_type_display, tokens_view, SpecToken, SpecTokenType, Token, TokenType};

verus! {

/// Whether a token can start a value.
pub open spec fn is_value_start(t: SpecTokenType) -> bool {
    match t {
        SpecTokenType::Str { .. } => true,
        SpecTokenType::Num { .. } => true,
        SpecTokenType::Bool { .. } => true,
        SpecTokenType::Null => true,
        SpecTokenType::OpenSquare => true,
        SpecTokenType::OpenCurly => true,
        _ => false,
    }
}

/// Whether a token may end a scalar value inside a container: a comma, or
/// the closing bracket of the enclosing container.
pub open spec fn is_stop(t: SpecTokenType, in_object: bool) -> bool {
    t is Comma || (if in_object {
        t is CloseCurly
    } else {
        t is CloseSquare
    })
}

/// A placeholder error returned only on paths the parser never reaches;
/// it keeps the specification functions total.
pub open spec fn vacuous_error() -> SpecError {
    SpecError { message: Seq::empty(), line: 0, column: 0 }
}

/// The location a parse failure points at: the token at position `p`,
/// or, when the tokens are exhausted, the last token — where the input
/// ended.
pub open spec fn location_of(ts: Seq<SpecToken>, p: int) -> (nat, nat) {
    if 0 <= p < ts.len() {
        (ts[p].line, ts[p].column)
    } else if ts.len() > 0 {
        (ts[ts.len() - 1].line, ts[ts.len() - 1].column)
    } else {
        (1nat, 1nat)
    }
}

/// Parsing one value at position `i`, which must hold a value-start
/// token.  On success the result carries the value and the position right
/// after it.  A scalar is accepted only when followed by a stop token; an
/// error names the scalar and its location.
pub open spec fn spec_parse_value(ts: Seq<SpecToken>, i: int, in_object: bool) -> Result<
    (SpecValue, int),
    SpecError,
>
    decreases ts.len() - i, 1int,
{
    if 0 <= i < ts.len() {
        match ts[i].token_type {
            SpecTokenType::Str { text } => if i + 1 < ts.len() && is_stop(
                ts[i + 1].token_type,
                in_object,
            ) {
                Ok((SpecValue::Str { text }, i + 1))
            } else {
                Err(
                    SpecError {
                        message: "Unexpected end of file <"@ + text + ">"@,
                        line: ts[i].line,
                        column: ts[i].column,
                    },
                )
            },
            SpecTokenType::Num { literal } => if i + 1 < ts.len() && is_stop(
                ts[i + 1].token_type,
                in_object,
            ) {
                Ok((SpecValue::Num { literal }, i + 1))
            } else {
                Err(
                    SpecError {
                        message: "Unexpected end of file <"@ + literal + ">"@,
                        line: ts[i].line,
                        column: ts[i].column,
                    },
                )
            },
            SpecTokenType::Bool { value } => if i + 1 < ts.len() && is_stop(
                ts[i + 1].token_type,
                in_object,
            ) {
                Ok((SpecValue::Bool { value }, i + 1))
            } else {
                Err(
                    SpecError {
                        message: "Unexpected end of file <"@ + (if value {
                            "true"@
                        } else {
                            "false"@
                        }) + ">"@,
                        line: ts[i].line,
                        column: ts[i].column,
                    },
                )
            },
            SpecTokenType::Null => if i + 1 < ts.len() && is_stop(
                ts[i + 1].token_type,
                in_object,
            ) {
                Ok((SpecValue::Null, i + 1))
            } else {
                Err(
                    SpecError {
                        message: "Unexpected end of file <null>"@,
                        line: ts[i].line,
                        column: ts[i].column,
                    },
                )
            },
            SpecTokenType::OpenSquare => spec_parse_array(ts, i),
            SpecTokenType::OpenCurly => spec_parse_object(ts, i),
            _ => Err(vacuous_error()),
        }
    } else {
        Err(vacuous_error())
    }
}

/// Parsing an array whose opening bracket stands at position `i`.
pub open spec fn spec_parse_array(ts: Seq<SpecToken>, i: int) -> Result<
    (SpecValue, int),
    SpecError,
>
    decreases ts.len() - i, 0int,
{
    if 0 <= i < ts.len() && ts[i].token_type is OpenSquare {
        if i + 1 < ts.len() && ts[i + 1].token_type is CloseSquare {
            Ok((SpecValue::Arr { items: Seq::empty() }, i + 2))
        } else {
            spec_parse_array_items(ts, i + 1, Seq::empty())
        }
    } else {
        Err(vacuous_error())
    }
}

/// Parsing the remaining items of a non-empty array, `acc` holding the
/// items already parsed.  A missing value or a missing end of the array
/// errs at the offending token, or at the last token when the input is
/// exhausted.
pub open spec fn spec_parse_array_items(
    ts: Seq<SpecToken>,
    j: int,
    acc: Seq<SpecValue>,
) -> Result<(SpecValue, int), SpecError>
    decreases ts.len() - j, 2int,
{
    if j < 0 || j > ts.len() {
        Err(vacuous_error())
    } else if j == ts.len() {
        Err(
            SpecError {
                message: "Unexpected end of file before finding open square bracket"@,
                line: location_of(ts, j).0,
                column: location_of(ts, j).1,
            },
        )
    } else if !is_value_start(ts[j].token_type) {
        Err(
            SpecError {
                message: "Unexpected end of file"@,
                line: location_of(ts, j).0,
                column: location_of(ts, j).1,
            },
        )
    } else {
        match spec_parse_value(ts, j, false) {
            Err(e) => Err(e),
            Ok((v, j2)) => {
                let acc2 = acc.push(v);
                if j2 >= ts.len() {
                    Err(
                        SpecError {
                            message: "Unexpected end of file"@,
                            line: location_of(ts, j2).0,
                            column: location_of(ts, j2).1,
                        },
                    )
                } else if ts[j2].token_type is CloseSquare {
                    Ok((SpecValue::Arr { items: acc2 }, j2 + 1))
                } else if ts[j2].token_type is Comma {
                    if j < j2 + 1 {
                        spec_parse_array_items(ts, j2 + 1, acc2)
                    } else {
                        Err(vacuous_error())
                    }
                } else {
                    Err(
                        SpecError {
                            message: "Unexpected character <"@ + token_type_display(
                                ts[j2].token_type,
                            ) + ">"@,
                            line: ts[j2].line,
                            column: ts[j2].column,
                        },
                    )
                }
            },
        }
    }
}

/// Parsing an object whose opening bracket stands at position `i`.
pub open spec fn spec_parse_object(ts: Seq<SpecToken>, i: int) -> Result<
    (SpecValue, int),
    SpecError,
>
    decreases ts.len() - i, 0int,
{
    if 0 <= i < ts.len() && ts[i].token_type is OpenCurly {
        if i + 1 < ts.len() && ts[i + 1].token_type is CloseCurly {
            Ok((SpecValue::Obj { entries: Seq::empty() }, i + 2))
        } else {
            spec_parse_object_items(ts, i + 1, Seq::empty())
        }
    } else {
        Err(vacuous_error())
    }
}

/// Parsing the remaining entries of a non-empty object, `entries` holding
/// the entries already parsed.  Each entry needs a string key, a colon and
/// a value; a missing piece errs at the offending token, or at the last
/// token when the input is exhausted.
pub open spec fn spec_parse_object_items(
    ts: Seq<SpecToken>,
    j: int,
    entries: Seq<(Seq<char>, SpecValue)>,
) -> Result<(SpecValue, int), SpecError>
    decreases ts.len() - j, 2int,
{
    if j < 0 || j > ts.len() {
        Err(vacuous_error())
    } else if j == ts.len() {
        Err(
            SpecError {
                message: "Unexpected end of file before finding open curly bracket"@,
                line: location_of(ts, j).0,
                column: location_of(ts, j).1,
            },
        )
    } else {
        match ts[j].token_type {
            SpecTokenType::Str { text: key } => {
                if j + 1 >= ts.len() {
                    Err(
                        SpecError {
                            message: "Unexpected end of file"@,
                            line: location_of(ts, j + 1).0,
                            column: location_of(ts, j + 1).1,
                        },
                    )
                } else if !(ts[j + 1].token_type is Colon) {
                    Err(
                        SpecError {
                            message: "Expected colon after key in object, got <"@
                                + token_type_display(ts[j + 1].token_type) + ">"@,
                            line: ts[j + 1].line,
                            column: ts[j + 1].column,
                        },
                    )
                } else if j + 2 >= ts.len() || !is_value_start(ts[j + 2].token_type) {
                    Err(
                        SpecError {
                            message: "Unexpected end of file"@,
                            line: location_of(ts, j + 2).0,
                            column: location_of(ts, j + 2).1,
                        },
                    )
                } else {
                    match spec_parse_value(ts, j + 2, true) {
                        Err(e) => Err(e),
                        Ok((v, j3)) => {
                            let entries2 = upsert(entries, key, v);
                            if j3 >= ts.len() {
                                Err(
                                    SpecError {
                                        message: "Unexpected end of file"@,
                                        line: location_of(ts, j3).0,
                                        column: location_of(ts, j3).1,
                                    },
                                )
                            } else if ts[j3].token_type is CloseCurly {
                                Ok((SpecValue::Obj { entries: entries2 }, j3 + 1))
                            } else if ts[j3].token_type is Comma {
                                if j < j3 + 1 {
                                    spec_parse_object_items(ts, j3 + 1, entries2)
                                } else {
                                    Err(vacuous_error())
                                }
                            } else {
                                Err(
                                    SpecError {
                                        message: "Unexpected character <"@ + token_type_display(
                                            ts[j3].token_type,
                                        ) + ">"@,
                                        line: ts[j3].line,
                                        column: ts[j3].column,
                                    },
                                )
                            }
                        },
                    }
                }
            },
            _ => Err(
                SpecError {
                    message: "Expected string key in object, got <"@ + token_type_display(
                        ts[j].token_type,
                    ) + ">"@,
                    line: ts[j].line,
                    column: ts[j].column,
                },
            ),
        }
    }
}

/// Parsing a whole token sequence: exactly one value must occupy all of
/// it.  An empty sequence, leftover tokens after a complete value, or a
/// structural token at the start fail with a located error.
pub open spec fn spec_parse(ts: Seq<SpecToken>) -> Result<SpecValue, SpecError> {
    if ts.len() == 0 {
        Err(SpecError { message: "No tokens found"@, line: 1, column: 1 })
    } else {
        match ts[0].token_type {
            SpecTokenType::OpenSquare => spec_parse_trailing(ts, spec_parse_array(ts, 0)),
            SpecTokenType::OpenCurly => spec_parse_trailing(ts, spec_parse_object(ts, 0)),
            SpecTokenType::Str { text } => if ts.len() == 1 {
                Ok(SpecValue::Str { text })
            } else {
                Err(
                    SpecError {
                        message: "Expected end of file, got <"@ + text + ">"@,
                        line: ts[0].line,
                        column: ts[0].column,
                    },
                )
            },
            SpecTokenType::Num { literal } => if ts.len() == 1 {
                Ok(SpecValue::Num { literal })
            } else {
                Err(
                    SpecError {
                        message: "Expected end of file, got <"@ + literal + ">"@,
                        line: ts[0].line,
                        column: ts[0].column,
                    },
                )
            },
            SpecTokenType::Bool { value } => if ts.len() == 1 {
                Ok(SpecValue::Bool { value })
            } else {
                Err(
                    SpecError {
                        message: "Expected end of file, got <"@ + (if value {
                            "true"@
                        } else {
                            "false"@
                        }) + ">"@,
                        line: ts[0].line,
                        column: ts[0].column,
                    },
                )
            },
            SpecTokenType::Null => if ts.len() == 1 {
                Ok(SpecValue::Null)
            } else {
                Err(
                    SpecError {
                        message: "Expected end of file, got <null>"@,
                        line: ts[0].line,
                        column: ts[0].column,
                    },
                )
            },
            SpecTokenType::CloseCurly => Err(
                SpecError {
                    message: "Unexpected start of file <}>"@,
                    line: ts[0].line,
                    column: ts[0].column,
                },
            ),
            SpecTokenType::CloseSquare => Err(
                SpecError {
                    message: "Unexpected start of file <]>"@,
                    line: ts[0].line,
                    column: ts[0].column,
                },
            ),
            SpecTokenType::Colon => Err(
                SpecError {
                    message: "Unexpected start of file <:>"@,
                    line: ts[0].line,
                    column: ts[0].column,
                },
            ),
            SpecTokenType::Comma => Err(
                SpecError {
                    message: "Unexpected start of file <,>"@,
                    line: ts[0].line,
                    column: ts[0].column,
                },
            ),
        }
    }
}

/// A top-level container must consume the rest of the tokens: anything
/// left after it is an error at the first leftover token.
pub open spec fn spec_parse_trailing(
    ts: Seq<SpecToken>,
    parsed: Result<(SpecValue, int), SpecError>,
) -> Result<SpecValue, SpecError> {
    match parsed {
        Err(e) => Err(e),
        Ok((v, j)) => if j == ts.len() {
            Ok(v)
        } else if 0 <= j < ts.len() {
            Err(
                SpecError {
                    message: "Expected end of file, got <"@ + token_type_display(ts[j].token_type)
                        + ">"@,
                    line: ts[j].line,
                    column: ts[j].column,
                },
            )
        } else {
            Err(vacuous_error())
        },
    }
}

/// The parser, holding the token sequence.
pub struct Parser {
    tokens: Vec<Token>,
}

impl View for Parser {
    type V = Seq<SpecToken>;

    closed spec fn view(&self) -> Seq<SpecToken> {
        tokens_view(self.tokens@)
    }
}

impl Parser {
    /// Create a parser over the given token sequence.
    pub fn new(tokens: Vec<Token>) -> (result: Self)
        ensures
            result@ == tokens_view(tokens@),
    {
        Parser { tokens }
    }

    /// Parse the token sequence into a value tree, or fail with the first
    /// error.
    pub fn parse(&self) -> (result: Result<JSONValue, JSONError>)
        ensures
            match spec_parse(self@) {
                Ok(v) => result matches Ok(value) && value@ == v,
                Err(e) => result matches Err(err) && err@ == e,
            },
    {
        let ghost ts = self@;
        let n = self.tokens.len();
        if n == 0 {
            return Err(JSONError::new("No tokens found", 1, 1));
        }
        let first = &self.tokens[0];
        proof {
            assert(ts[0] == self.tokens@[0]@);
        }
        match &first.token_type {
            TokenType::OpenSquareBracket => {
                let parsed = parse_array(&self.tokens, 0);
                match parsed {
                    Err(err) => Err(err),
                    Ok((value, j)) => {
                        if j == n {
                            Ok(value)
                        } else {
                            let mut message = String::from_str("Expected end of file, got <");
                            let shown = self.tokens[j].token_type.display_string();
                            message.append(shown.as_str());
                            message.append(">");
                            proof {
                                assert(ts[j as int] == self.tokens@[j as int]@);
                                assert(message@ =~= "Expected end of file, got <"@
                                    + token_type_display(ts[j as int].token_type) + ">"@);
                            }
                            Err(
                                JSONError::from_parts(
                                    message,
                                    self.tokens[j].line,
                                    self.tokens[j].column,
                                ),
                            )
                        }
                    },
                }
            },
            TokenType::OpenCurlyBracket => {
                let parsed = parse_object(&self.tokens, 0);
                match parsed {
                    Err(err) => Err(err),
                    Ok((value, j)) => {
                        if j == n {
                            Ok(value)
                        } else {
                            let mut message = String::from_str("Expected end of file, got <");
                            let shown = self.tokens[j].token_type.display_string();
                            message.append(shown.as_str());
                            message.append(">");
                            proof {
                                assert(ts[j as int] == self.tokens@[j as int]@);
                                assert(message@ =~= "Expected end of file, got <"@
                                    + token_type_display(ts[j as int].token_type) + ">"@);
                            }
                            Err(
                                JSONError::from_parts(
                                    message,
                                    self.tokens[j].line,
                                    self.tokens[j].column,
                                ),
                            )
                        }
                    },
                }
            },
            TokenType::String(text) => {
                if n == 1 {
                    Ok(JSONValue::from_string(JSONString::new(text.clone())))
                } else {
                    let mut message = String::from_str("Expected end of file, got <");
                    message.append(text.as_str());
                    message.append(">");
                    proof {
                        assert(message@ =~= "Expected end of file, got <"@
                            + ts[0].token_type->Str_text + ">"@);
                    }
                    Err(JSONError::from_parts(message, first.line, first.column))
                }
            },
            TokenType::Number(literal) => {
                if n == 1 {
                    Ok(JSONValue::from_number(JSONNumber::new(literal.clone())))
                } else {
                    let mut message = String::from_str("Expected end of file, got <");
                    message.append(literal.as_str());
                    message.append(">");
                    proof {
                        assert(message@ =~= "Expected end of file, got <"@
                            + ts[0].token_type->Num_literal + ">"@);
                    }
                    Err(JSONError::from_parts(message, first.line, first.column))
                }
            },
            TokenType::Boolean(value) => {
                if n == 1 {
                    Ok(JSONValue::from_boolean(JSONBoolean::new(*value)))
                } else {
                    let mut message = String::from_str("Expected end of file, got <");
                    if *value {
                        message.append("true");
                    } else {
                        message.append("false");
                    }
                    message.append(">");
                    proof {
                        assert(message@ =~= "Expected end of file, got <"@ + (if *value {
                            "true"@
                        } else {
                            "false"@
                        }) + ">"@);
                    }
                    Err(JSONError::from_parts(message, first.line, first.column))
                }
            },
            TokenType::Null => {
                if n == 1 {
                    Ok(JSONValue::from_null(JSONNull::new()))
                } else {
                    Err(JSONError::new("Expected end of file, got <null>", first.line, first.column))
                }
            },
            TokenType::CloseCurlyBracket => Err(
                JSONError::new("Unexpected start of file <}>", first.line, first.column),
            ),
            TokenType::CloseSquareBracket => Err(
                JSONError::new("Unexpected start of file <]>", first.line, first.column),
            ),
            TokenType::Colon => Err(
                JSONError::new("Unexpected start of file <:>", first.line, first.column),
            ),
            TokenType::Comma => Err(
                JSONError::new("Unexpected start of file <,>", first.line, first.column),
            ),
        }
    }
}

/// Whether a token can start a value.
fn is_value_start_token(t: &TokenType) -> (result: bool)
    ensures
        result == is_value_start(t@),
{
    match t {
        TokenType::String(_) => true,
        TokenType::Number(_) => true,
        TokenType::Boolean(_) => true,
        TokenType::Null => true,
        TokenType::OpenSquareBracket => true,
        TokenType::OpenCurlyBracket => true,
        _ => false,
    }
}

/// Whether a token may end a scalar value inside a container.
fn is_stop_token(t: &TokenType, in_object: bool) -> (result: bool)
    ensures
        result == is_stop(t@, in_object),
{
    match t {
        TokenType::Comma => true,
        TokenType::CloseCurlyBracket => in_object,
        TokenType::CloseSquareBracket => !in_object,
        _ => false,
    }
}

/// Build the error for a scalar not followed by a stop token.
fn scalar_stop_error(payload: &str, line: usize, column: usize) -> (result: JSONError)
    ensures
        result@ == (SpecError {
            message: "Unexpected end of file <"@ + payload@ + ">"@,
            line: line as nat,
            column: column as nat,
        }),
{
    let mut message = String::from_str("Unexpected end of file <");
    message.append(payload);
    message.append(">");
    proof {
        assert(message@ =~= "Unexpected end of file <"@ + payload@ + ">"@);
    }
    JSONError::from_parts(message, line, column)
}

/// Parse one value starting at position `i`, which must hold a
/// value-start token.
fn parse_value(tokens: &Vec<Token>, i: usize, in_object: bool) -> (result: Result<
    (JSONValue, usize),
    JSONError,
>)
    requires
        i < tokens@.len(),
        is_value_start(tokens@[i as int].token_type@),
    ensures
        match spec_parse_value(tokens_view(tokens@), i as int, in_object) {
            Ok((v, j)) => result matches Ok(p) && p.0@ == v && p.1 == j && i < p.1
                <= tokens@.len(),
            Err(e) => result matches Err(err) && err@ == e,
        },
    decreases tokens@.len() - i, 1int,
{
    let ghost ts = tokens_view(tokens@);
    proof {
        assert(ts[i as int] == tokens@[i as int]@);
    }
    match &tokens[i].token_type {
        TokenType::String(_) => parse_string(tokens, i, in_object),
        TokenType::Number(_) => parse_number(tokens, i, in_object),
        TokenType::Boolean(_) => parse_boolean(tokens, i, in_object),
        TokenType::Null => parse_null(tokens, i, in_object),
        TokenType::OpenSquareBracket => parse_array(tokens, i),
        TokenType::OpenCurlyBracket => parse_object(tokens, i),
        _ => unreached(),
    }
}

/// Parse a string scalar at position `i`, checking its stop token.
fn parse_string(tokens: &Vec<Token>, i: usize, in_object: bool) -> (result: Result<
    (JSONValue, usize),
    JSONError,
>)
    requires
        i < tokens@.len(),
        tokens@[i as int].token_type@ is Str,
    ensures
        match spec_parse_value(tokens_view(tokens@), i as int, in_object) {
            Ok((v, j)) => result matches Ok(p) && p.0@ == v && p.1 == j && i < p.1
                <= tokens@.len(),
            Err(e) => result matches Err(err) && err@ == e,
        },
{
    let ghost ts = tokens_view(tokens@);
    proof {
        assert(ts[i as int] == tokens@[i as int]@);
        if i + 1 < tokens@.len() {
            assert(ts[i as int + 1] == tokens@[i as int + 1]@);
        }
    }
    let n = tokens.len();
    let token = &tokens[i];
    match &token.token_type {
        TokenType::String(text) => {
            if i + 1 < n && is_stop_token(&tokens[i + 1].token_type, in_object) {
                Ok((JSONValue::from_string(JSONString::new(text.clone())), i + 1))
            } else {
                Err(scalar_stop_error(text.as_str(), token.line, token.column))
            }
        },
        _ => unreached(),
    }
}

/// Parse a number scalar at position `i`, checking its stop token.
fn parse_number(tokens: &Vec<Token>, i: usize, in_object: bool) -> (result: Result<
    (JSONValue, usize),
    JSONError,
>)
    requires
        i < tokens@.len(),
        tokens@[i as int].token_type@ is Num,
    ensures
        match spec_parse_value(tokens_view(tokens@), i as int, in_object) {
            Ok((v, j)) => result matches Ok(p) && p.0@ == v && p.1 == j && i < p.1
                <= tokens@.len(),
            Err(e) => result matches Err(err) && err@ == e,
        },
{
    let ghost ts = tokens_view(tokens@);
    proof {
        assert(ts[i as int] == tokens@[i as int]@);
        if i + 1 < tokens@.len() {
            assert(ts[i as int + 1] == tokens@[i as int + 1]@);
        }
    }
    let n = tokens.len();
    let token = &tokens[i];
    match &token.token_type {
        TokenType::Number(literal) => {
            if i + 1 < n && is_stop_token(&tokens[i + 1].token_type, in_object) {
                Ok((JSONValue::from_number(JSONNumber::new(literal.clone())), i + 1))
            } else {
                Err(scalar_stop_error(literal.as_str(), token.line, token.column))
            }
        },
        _ => unreached(),
    }
}

/// Parse a boolean scalar at position `i`, checking its stop token.
fn parse_boolean(tokens: &Vec<Token>, i: usize, in_object: bool) -> (result: Result<
    (JSONValue, usize),
    JSONError,
>)
    requires
        i < tokens@.len(),
        tokens@[i as int].token_type@ is Bool,
    ensures
        match spec_parse_value(tokens_view(tokens@), i as int, in_object) {
            Ok((v, j)) => result matches Ok(p) && p.0@ == v && p.1 == j && i < p.1
                <= tokens@.len(),
            Err(e) => result matches Err(err) && err@ == e,
        },
{
    let ghost ts = tokens_view(tokens@);
    proof {
        assert(ts[i as int] == tokens@[i as int]@);
        if i + 1 < tokens@.len() {
            assert(ts[i as int + 1] == tokens@[i as int + 1]@);
        }
    }
    let n = tokens.len();
    let token = &tokens[i];
    match &token.token_type {
        TokenType::Boolean(value) => {
            if i + 1 < n && is_stop_token(&tokens[i + 1].token_type, in_object) {
                Ok((JSONValue::from_boolean(JSONBoolean::new(*value)), i + 1))
            } else if *value {
                Err(scalar_stop_error("true", token.line, token.column))
            } else {
                Err(scalar_stop_error("false", token.line, token.column))
            }
        },
        _ => unreached(),
    }
}

/// Parse a null scalar at position `i`, checking its stop token.
fn parse_null(tokens: &Vec<Token>, i: usize, in_object: bool) -> (result: Result<
    (JSONValue, usize),
    JSONError,
>)
    requires
        i < tokens@.len(),
        tokens@[i as int].token_type@ is Null,
    ensures
        match spec_parse_value(tokens_view(tokens@), i as int, in_object) {
            Ok((v, j)) => result matches Ok(p) && p.0@ == v && p.1 == j && i < p.1
                <= tokens@.len(),
            Err(e) => result matches Err(err) && err@ == e,
        },
{
    let ghost ts = tokens_view(tokens@);
    proof {
        assert(ts[i as int] == tokens@[i as int]@);
        if i + 1 < tokens@.len() {
            assert(ts[i as int + 1] == tokens@[i as int + 1]@);
        }
    }
    let n = tokens.len();
    let token = &tokens[i];
    if i + 1 < n && is_stop_token(&tokens[i + 1].token_type, in_object) {
        Ok((JSONValue::from_null(JSONNull::new()), i + 1))
    } else {
        Err(JSONError::new("Unexpected end of file <null>", token.line, token.column))
    }
}

/// Build an error located per `location_of`: at the token at position
/// `p`, or at the last token when the tokens are exhausted.
fn located_error(tokens: &Vec<Token>, p: usize, message: &str) -> (result: JSONError)
    ensures
        result@ == (SpecError {
            message: message@,
            line: location_of(tokens_view(tokens@), p as int).0,
            column: location_of(tokens_view(tokens@), p as int).1,
        }),
{
    let ghost ts = tokens_view(tokens@);
    let n = tokens.len();
    if p < n {
        proof {
            assert(ts[p as int] == tokens@[p as int]@);
        }
        JSONError::new(message, tokens[p].line, tokens[p].column)
    } else if n > 0 {
        proof {
            assert(ts[n - 1 as int] == tokens@[n - 1 as int]@);
        }
        JSONError::new(message, tokens[n - 1].line, tokens[n - 1].column)
    } else {
        JSONError::new(message, 1, 1)
    }
}

/// Build the error for an unexpected token after a container item.
fn unexpected_character_error(t: &TokenType, line: usize, column: usize) -> (result: JSONError)
    ensures
        result@ == (SpecError {
            message: "Unexpected character <"@ + token_type_display(t@) + ">"@,
            line: line as nat,
            column: column as nat,
        }),
{
    let mut message = String::from_str("Unexpected character <");
    let shown = t.display_string();
    message.append(shown.as_str());
    message.append(">");
    proof {
        assert(message@ =~= "Unexpected character <"@ + token_type_display(t@) + ">"@);
    }
    JSONError::from_parts(message, line, column)
}

/// Parse an array whose opening bracket stands at position `i`.
fn parse_array(tokens: &Vec<Token>, i: usize) -> (result: Result<(JSONValue, usize), JSONError>)
    requires
        i < tokens@.len(),
        tokens@[i as int].token_type@ is OpenSquare,
    ensures
        match spec_parse_array(tokens_view(tokens@), i as int) {
            Ok((v, j)) => result matches Ok(p) && p.0@ == v && p.1 == j && i < p.1
                <= tokens@.len(),
            Err(e) => result matches Err(err) && err@ == e,
        },
    decreases tokens@.len() - i, 0int,
{
    let ghost ts = tokens_view(tokens@);
    proof {
        assert(ts[i as int] == tokens@[i as int]@);
        if i + 1 < tokens@.len() {
            assert(ts[i as int + 1] == tokens@[i as int + 1]@);
        }
    }
    let n = tokens.len();
    if i + 1 < n {
        if let TokenType::CloseSquareBracket = &tokens[i + 1].token_type {
            let empty = JSONArray::new();
            return Ok((JSONValue::from_array(empty), i + 2));
        }
    }
    let mut array = JSONArray::new();
    let mut j = i + 1;
    proof {
        assert(spec_parse_array(ts, i as int) == spec_parse_array_items(
            ts,
            i as int + 1,
            Seq::empty(),
        ));
        assert(array@ =~= Seq::<SpecValue>::empty());
    }
    loop
        invariant
            i < j <= n,
            n == tokens@.len(),
            ts == tokens_view(tokens@),
            i < tokens@.len(),
            spec_parse_array(ts, i as int) == spec_parse_array_items(ts, j as int, array@),
        decreases n - j,
    {
        proof {
            if j < n {
                assert(ts[j as int] == tokens@[j as int]@);
            }
        }
        if j == n {
            return Err(
                located_error(tokens, j, "Unexpected end of file before finding open square bracket"),
            );
        }
        if !is_value_start_token(&tokens[j].token_type) {
            return Err(located_error(tokens, j, "Unexpected end of file"));
        }
        match parse_value(tokens, j, false) {
            Err(err) => {
                return Err(err);
            },
            Ok((value, j2)) => {
                array.push(value);
                proof {
                    if j2 < n {
                        assert(ts[j2 as int] == tokens@[j2 as int]@);
                    }
                }
                if j2 == n {
                    return Err(located_error(tokens, j2, "Unexpected end of file"));
                }
                match &tokens[j2].token_type {
                    TokenType::CloseSquareBracket => {
                        return Ok((JSONValue::from_array(array), j2 + 1));
                    },
                    TokenType::Comma => {
                        j = j2 + 1;
                    },
                    _ => {
                        return Err(
                            unexpected_character_error(
                                &tokens[j2].token_type,
                                tokens[j2].line,
                                tokens[j2].column,
                            ),
                        );
                    },
                }
            },
        }
    }
}

/// Parse an object whose opening bracket stands at position `i`.
fn parse_object(tokens: &Vec<Token>, i: usize) -> (result: Result<(JSONValue, usize), JSONError>)
    requires
        i < tokens@.len(),
        tokens@[i as int].token_type@ is OpenCurly,
    ensures
        match spec_parse_object(tokens_view(tokens@), i as int) {
            Ok((v, j)) => result matches Ok(p) && p.0@ == v && p.1 == j && i < p.1
                <= tokens@.len(),
            Err(e) => result matches Err(err) && err@ == e,
        },
    decreases tokens@.len() - i, 0int,
{
    let ghost ts = tokens_view(tokens@);
    proof {
        assert(ts[i as int] == tokens@[i as int]@);
        if i + 1 < tokens@.len() {
            assert(ts[i as int + 1] == tokens@[i as int + 1]@);
        }
    }
    let n = tokens.len();
    if i + 1 < n {
        if let TokenType::CloseCurlyBracket = &tokens[i + 1].token_type {
            let empty = JSONObject::new();
            return Ok((JSONValue::from_object(empty), i + 2));
        }
    }
    let mut object = JSONObject::new();
    let mut j = i + 1;
    proof {
        assert(spec_parse_object(ts, i as int) == spec_parse_object_items(
            ts,
            i as int + 1,
            Seq::empty(),
        ));
        assert(object@ =~= Seq::<(Seq<char>, SpecValue)>::empty());
    }
    loop
        invariant
            i < j <= n,
            n == tokens@.len(),
            ts == tokens_view(tokens@),
            i < tokens@.len(),
            spec_parse_object(ts, i as int) == spec_parse_object_items(ts, j as int, object@),
        decreases n - j,
    {
        proof {
            if j < n {
                assert(ts[j as int] == tokens@[j as int]@);
            }
            if j + 1 < n {
                assert(ts[j as int + 1] == tokens@[j as int + 1]@);
            }
        }
        if j == n {
            return Err(
                located_error(tokens, j, "Unexpected end of file before finding open curly bracket"),
            );
        }
        let key_token = &tokens[j];
        let key = match &key_token.token_type {
            TokenType::String(text) => text.clone(),
            _ => {
                let mut message = String::from_str("Expected string key in object, got <");
                let shown = key_token.token_type.display_string();
                message.append(shown.as_str());
                message.append(">");
                proof {
                    assert(message@ =~= "Expected string key in object, got <"@
                        + token_type_display(ts[j as int].token_type) + ">"@);
                }
                return Err(JSONError::from_parts(message, key_token.line, key_token.column));
            },
        };
        if j + 1 == n {
            return Err(located_error(tokens, j + 1, "Unexpected end of file"));
        }
        match &tokens[j + 1].token_type {
            TokenType::Colon => {},
            _ => {
                let mut message = String::from_str("Expected colon after key in object, got <");
                let shown = tokens[j + 1].token_type.display_string();
                message.append(shown.as_str());
                message.append(">");
                proof {
                    assert(message@ =~= "Expected colon after key in object, got <"@
                        + token_type_display(ts[j as int + 1].token_type) + ">"@);
                }
                return Err(
                    JSONError::from_parts(message, tokens[j + 1].line, tokens[j + 1].column),
                );
            },
        }
        proof {
            if j + 2 < n {
                assert(ts[j as int + 2] == tokens@[j as int + 2]@);
            }
        }
        if j + 2 == n || !is_value_start_token(&tokens[j + 2].token_type) {
            return Err(located_error(tokens, j + 2, "Unexpected end of file"));
        }
        match parse_value(tokens, j + 2, true) {
            Err(err) => {
                return Err(err);
            },
            Ok((value, j3)) => {
                object.set(key, value);
                proof {
                    if j3 < n {
                        assert(ts[j3 as int] == tokens@[j3 as int]@);
                    }
                }
                if j3 == n {
                    return Err(located_error(tokens, j3, "Unexpected end of file"));
                }
                match &tokens[j3].token_type {
                    TokenType::CloseCurlyBracket => {
                        return Ok((JSONValue::from_object(object), j3 + 1));
                    },
                    TokenType::Comma => {
                        j = j3 + 1;
                    },
                    _ => {
                        return Err(
                            unexpected_character_error(
                                &tokens[j3].token_type,
                                tokens[j3].line,
                                tokens[j3].column,
                            ),
                        );
                    },
                }
            },
        }
    }
}

} // verus!
