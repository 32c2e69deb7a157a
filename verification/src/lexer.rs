//! The lexer: turns source text into a sequence of located tokens, or
//! fails with a located error.
//!
//! The functions here are verified against the specification functions
//! `spec_lex` and its helpers, which describe tokenization character by
//! character: location counters advance per consumed character, a line
//! feed increments the line and resets the column to 1, and a carriage
//! return is consumed without advancing the column.

use vstd::prelude::*;
use crate::json_error::{JSONError, SpecError};
use crate::text::{chars_string, push_char, str_chars};
use crate::token::{tokens_view, SpecToken, SpecTokenType, Token, TokenType};

verus! {

/// Whether a character is a decimal digit.
pub open spec fn is_digit(c: char) -> bool {
    48 <= c as u32 <= 57
}

/// The characters that may follow a backslash in a string: `r`, `n`, `t`,
/// the backslash itself and the double quote.
pub open spec fn is_escapable(c: char) -> bool {
    c == 'r' || c == 'n' || c == 't' || c == '\\' || c == '"'
}

/// Scanning the body of a string, after its opening quote.
///
/// `i` is the position of the next character and `line`/`col` its
/// location; `escape` says whether the previous character was an
/// unconsumed backslash, and `data` holds the text read so far, escape
/// sequences kept verbatim.  The location advances per consumed character
/// exactly as outside strings: a line feed starts the next line at column
/// 1, a carriage return does not advance the column.  On success the
/// result carries the string's text, the position right after the closing
/// quote and the location right after it.
pub open spec fn scan_string(
    s: Seq<char>,
    i: int,
    line: int,
    col: int,
    escape: bool,
    data: Seq<char>,
) -> Result<(Seq<char>, int, int, int), SpecError>
    decreases s.len() - i,
{
    if i < 0 || i >= s.len() {
        Err(
            SpecError {
                message: "Unexpected end of string"@,
                line: line as nat,
                column: col as nat,
            },
        )
    } else {
        let c = s[i];
        if escape {
            if is_escapable(c) {
                scan_string(s, i + 1, line, col + 1, false, data.push(c))
            } else {
                Err(
                    SpecError {
                        message: "Invalid escape of character <"@ + seq![c] + ">"@,
                        line: line as nat,
                        column: col as nat,
                    },
                )
            }
        } else if c == '\\' {
            scan_string(s, i + 1, line, col + 1, true, data.push(c))
        } else if c == '"' {
            Ok((data, i + 1, line, col + 1))
        } else if c == '\n' {
            scan_string(s, i + 1, line + 1, 1, false, data.push(c))
        } else if c == '\r' {
            scan_string(s, i + 1, line, col, false, data.push(c))
        } else {
            scan_string(s, i + 1, line, col + 1, false, data.push(c))
        }
    }
}

/// Scanning a number literal: digits always continue it; a minus sign is
/// accepted only first or right after an exponent marker; an exponent
/// marker only after a digit and only once; a dot only after a digit and
/// only before any exponent marker.  Any other character ends the scan.
/// On success the result carries the accumulated literal, the position of
/// the first character not consumed and its column.
pub open spec fn scan_number(
    s: Seq<char>,
    i: int,
    line: int,
    col: int,
    data: Seq<char>,
) -> Result<(Seq<char>, int, int), SpecError>
    decreases s.len() - i,
{
    if i < 0 || i >= s.len() {
        Ok((data, i, col))
    } else {
        let c = s[i];
        if is_digit(c) {
            scan_number(s, i + 1, line, col + 1, data.push(c))
        } else if c == '-' {
            if data.len() == 0 || data.last() == 'e' || data.last() == 'E' {
                scan_number(s, i + 1, line, col + 1, data.push(c))
            } else {
                Err(
                    SpecError {
                        message: "Invalid character in number <->"@,
                        line: line as nat,
                        column: col as nat,
                    },
                )
            }
        } else if c == 'e' || c == 'E' {
            if data.len() > 0 && is_digit(data.last()) && !data.contains('e') && !data.contains(
                'E',
            ) {
                scan_number(s, i + 1, line, col + 1, data.push(c))
            } else {
                Err(
                    SpecError {
                        message: "Invalid character in number <e>"@,
                        line: line as nat,
                        column: col as nat,
                    },
                )
            }
        } else if c == '.' {
            if data.len() > 0 && is_digit(data.last()) && !data.contains('e') && !data.contains(
                'E',
            ) {
                scan_number(s, i + 1, line, col + 1, data.push(c))
            } else {
                Err(
                    SpecError {
                        message: "Invalid character in number <.>"@,
                        line: line as nat,
                        column: col as nat,
                    },
                )
            }
        } else {
            Ok((data, i, col))
        }
    }
}

/// The step function of the number-literal grammar `-? d+ (. d*)? ([eE] -? d+)?`,
/// where an exponent marker needs a digit right before it (so a marker
/// directly after the dot is rejected, as the scanner rejects it).
///
/// States: 0 nothing read; 1 leading minus read; 2 integer digits; 3 dot
/// read with no fraction digit yet; 4 fraction digits; 5 exponent marker
/// read; 6 exponent minus read; 7 exponent digits; 8 rejected.
pub open spec fn num_state_step(state: int, c: char) -> int {
    if state == 0 {
        if c == '-' {
            1
        } else if is_digit(c) {
            2
        } else {
            8
        }
    } else if state == 1 {
        if is_digit(c) {
            2
        } else {
            8
        }
    } else if state == 2 {
        if is_digit(c) {
            2
        } else if c == '.' {
            3
        } else if c == 'e' || c == 'E' {
            5
        } else {
            8
        }
    } else if state == 3 {
        if is_digit(c) {
            4
        } else {
            8
        }
    } else if state == 4 {
        if is_digit(c) {
            4
        } else if c == 'e' || c == 'E' {
            5
        } else {
            8
        }
    } else if state == 5 {
        if c == '-' {
            6
        } else if is_digit(c) {
            7
        } else {
            8
        }
    } else if state == 6 || state == 7 {
        if is_digit(c) {
            7
        } else {
            8
        }
    } else {
        8
    }
}

/// Running the number-literal grammar over a literal from position `i` in
/// state `state`.
pub open spec fn num_run(s: Seq<char>, i: int, state: int) -> int
    decreases s.len() - i,
{
    if i < 0 || i >= s.len() {
        state
    } else {
        num_run(s, i + 1, num_state_step(state, s[i]))
    }
}

/// Whether a scanned literal is a well-formed number: an optional minus,
/// at least one integer digit, an optional fraction part, an optional
/// exponent with an optional minus and at least one digit.  A literal the
/// scanner accepted but this grammar rejects (a lone minus, a second dot,
/// an exponent without digits) is reported as a malformed-number error.
pub open spec fn is_number_literal(s: Seq<char>) -> bool {
    let state = num_run(s, 0, 0);
    state == 2 || state == 3 || state == 4 || state == 7
}

/// Whether `true` stands at position `i`.
pub open spec fn is_true_at(s: Seq<char>, i: int) -> bool {
    i + 4 <= s.len() && s[i] == 't' && s[i + 1] == 'r' && s[i + 2] == 'u' && s[i + 3] == 'e'
}

/// Whether `false` stands at position `i`.
pub open spec fn is_false_at(s: Seq<char>, i: int) -> bool {
    i + 5 <= s.len() && s[i] == 'f' && s[i + 1] == 'a' && s[i + 2] == 'l' && s[i + 3] == 's' && s[i
        + 4] == 'e'
}

/// Whether `null` stands at position `i`.
pub open spec fn is_null_at(s: Seq<char>, i: int) -> bool {
    i + 4 <= s.len() && s[i] == 'n' && s[i + 1] == 'u' && s[i + 2] == 'l' && s[i + 3] == 'l'
}

/// A finished prefix of the token sequence combined with the outcome of
/// lexing the rest.
pub open spec fn lex_combine(
    done: Seq<SpecToken>,
    rest: Result<Seq<SpecToken>, SpecError>,
) -> Result<Seq<SpecToken>, SpecError> {
    match rest {
        Ok(tokens) => Ok(done + tokens),
        Err(e) => Err(e),
    }
}

/// One token followed by the outcome of lexing the rest.
pub open spec fn prepend_token(
    token: SpecToken,
    rest: Result<Seq<SpecToken>, SpecError>,
) -> Result<Seq<SpecToken>, SpecError> {
    match rest {
        Ok(tokens) => Ok(seq![token] + tokens),
        Err(e) => Err(e),
    }
}

/// Moving a token from the head of the rest to the end of the finished
/// prefix does not change the combined outcome.
pub proof fn lemma_lex_combine_push(
    done: Seq<SpecToken>,
    token: SpecToken,
    rest: Result<Seq<SpecToken>, SpecError>,
)
    ensures
        lex_combine(done, prepend_token(token, rest)) == lex_combine(done.push(token), rest),
{
    match rest {
        Ok(tokens) => {
            assert(done + (seq![token] + tokens) =~= done.push(token) + tokens);
        },
        Err(_) => {},
    }
}

/// Lexing the whole source from position `i` at location `line:col`.
///
/// Whitespace is consumed without producing a token; a tab or space
/// advances the column, a carriage return does not, a line feed starts the
/// next line at column 1.  A double quote starts a string; a digit, minus
/// sign, dot or exponent marker enters the number scanner, which rejects
/// a misplaced dot or marker; `true`/`false`/`null` give their keyword
/// tokens, and the six structural characters their tokens.  Any other
/// character fails with an `Unexpected character` error at its location.
/// Every token carries the location of its first character.
pub open spec fn spec_lex_from(s: Seq<char>, i: int, line: int, col: int) -> Result<
    Seq<SpecToken>,
    SpecError,
>
    decreases s.len() - i,
{
    if i < 0 || i >= s.len() {
        Ok(Seq::empty())
    } else {
        let c = s[i];
        if c == '"' {
            match scan_string(s, i + 1, line, col + 1, false, Seq::empty()) {
                Ok((data, j, line2, col2)) => if i < j <= s.len() {
                    prepend_token(
                        SpecToken {
                            token_type: SpecTokenType::Str { text: data },
                            line: line as nat,
                            column: col as nat,
                        },
                        spec_lex_from(s, j, line2, col2),
                    )
                } else {
                    Ok(Seq::empty())
                },
                Err(e) => Err(e),
            }
        } else if is_digit(c) || c == '-' || c == '.' || c == 'e' || c == 'E' {
            match scan_number(s, i, line, col, Seq::empty()) {
                Ok((data, j, endcol)) => if is_number_literal(data) {
                    if i < j <= s.len() {
                        prepend_token(
                            SpecToken {
                                token_type: SpecTokenType::Num { literal: data },
                                line: line as nat,
                                column: col as nat,
                            },
                            spec_lex_from(s, j, line, endcol),
                        )
                    } else {
                        Ok(Seq::empty())
                    }
                } else {
                    Err(
                        SpecError {
                            message: "Invalid number <"@ + data + ">"@,
                            line: line as nat,
                            column: col as nat,
                        },
                    )
                },
                Err(e) => Err(e),
            }
        } else if is_true_at(s, i) {
            prepend_token(
                SpecToken {
                    token_type: SpecTokenType::Bool { value: true },
                    line: line as nat,
                    column: col as nat,
                },
                spec_lex_from(s, i + 4, line, col + 4),
            )
        } else if is_false_at(s, i) {
            prepend_token(
                SpecToken {
                    token_type: SpecTokenType::Bool { value: false },
                    line: line as nat,
                    column: col as nat,
                },
                spec_lex_from(s, i + 5, line, col + 5),
            )
        } else if is_null_at(s, i) {
            prepend_token(
                SpecToken {
                    token_type: SpecTokenType::Null,
                    line: line as nat,
                    column: col as nat,
                },
                spec_lex_from(s, i + 4, line, col + 4),
            )
        } else if c == ' ' || c == '\t' {
            spec_lex_from(s, i + 1, line, col + 1)
        } else if c == '\r' {
            spec_lex_from(s, i + 1, line, col)
        } else if c == '\n' {
            spec_lex_from(s, i + 1, line + 1, 1)
        } else if c == '{' {
            prepend_token(
                SpecToken {
                    token_type: SpecTokenType::OpenCurly,
                    line: line as nat,
                    column: col as nat,
                },
                spec_lex_from(s, i + 1, line, col + 1),
            )
        } else if c == '}' {
            prepend_token(
                SpecToken {
                    token_type: SpecTokenType::CloseCurly,
                    line: line as nat,
                    column: col as nat,
                },
                spec_lex_from(s, i + 1, line, col + 1),
            )
        } else if c == '[' {
            prepend_token(
                SpecToken {
                    token_type: SpecTokenType::OpenSquare,
                    line: line as nat,
                    column: col as nat,
                },
                spec_lex_from(s, i + 1, line, col + 1),
            )
        } else if c == ']' {
            prepend_token(
                SpecToken {
                    token_type: SpecTokenType::CloseSquare,
                    line: line as nat,
                    column: col as nat,
                },
                spec_lex_from(s, i + 1, line, col + 1),
            )
        } else if c == ',' {
            prepend_token(
                SpecToken {
                    token_type: SpecTokenType::Comma,
                    line: line as nat,
                    column: col as nat,
                },
                spec_lex_from(s, i + 1, line, col + 1),
            )
        } else if c == ':' {
            prepend_token(
                SpecToken {
                    token_type: SpecTokenType::Colon,
                    line: line as nat,
                    column: col as nat,
                },
                spec_lex_from(s, i + 1, line, col + 1),
            )
        } else {
            Err(
                SpecError {
                    message: "Unexpected character <"@ + seq![c] + ">"@,
                    line: line as nat,
                    column: col as nat,
                },
            )
        }
    }
}

/// Lexing a whole source string, from its first character at line 1,
/// column 1.
pub open spec fn spec_lex(s: Seq<char>) -> Result<Seq<SpecToken>, SpecError> {
    spec_lex_from(s, 0, 1, 1)
}

/// The lexer, holding the source text.
pub struct Lexer {
    pub json: String,
}

impl Lexer {
    /// Create a lexer over the given source text.
    pub fn new(json: String) -> (result: Self)
        ensures
            result.json@ == json@,
    {
        Lexer { json }
    }

    /// Tokenize the source: the full token sequence, or the first error.
    pub fn get_tokens(&self) -> (result: Result<Vec<Token>, JSONError>)
        ensures
            match spec_lex(self.json@) {
                Ok(tokens) => result matches Ok(v) && tokens_view(v@) == tokens,
                Err(e) => result matches Err(err) && err@ == e,
            },
    {
        let cs = str_chars(self.json.as_str());
        let mut tokens: Vec<Token> = Vec::new();
        let mut i: usize = 0;
        let mut line: usize = 1;
        let mut col: usize = 1;
        while i < cs.len()
            invariant
                cs@ == self.json@,
                cs@.len() <= usize::MAX / 4,
                i <= cs@.len(),
                1 <= line <= i + 1,
                1 <= col <= i + 1,
                spec_lex(self.json@) == lex_combine(
                    tokens_view(tokens@),
                    spec_lex_from(cs@, i as int, line as int, col as int),
                ),
            decreases cs@.len() - i,
        {
            let ghost done = tokens_view(tokens@);
            let ghost rest = spec_lex_from(cs@, i as int, line as int, col as int);
            let c = cs[i];
            if c == '"' {
                match lex_string(&cs, i, line, col) {
                    Ok((data, j, line2, col2)) => {
                        let text = chars_string(&data);
                        let token = Token::new(TokenType::String(text), line, col);
                        proof {
                            lemma_lex_combine_push(
                                done,
                                token@,
                                spec_lex_from(cs@, j as int, line2 as int, col2 as int),
                            );
                            assert(tokens_view(tokens@.push(token)) =~= done.push(token@));
                        }
                        tokens.push(token);
                        i = j;
                        line = line2;
                        col = col2;
                    },
                    Err(err) => {
                        return Err(err);
                    },
                }
            } else if is_digit_char(c) || c == '-' || c == '.' || c == 'e' || c == 'E' {
                match lex_number(&cs, i, line, col) {
                    Ok((data, j, endcol)) => {
                        if check_number_literal(&data) {
                            let literal = chars_string(&data);
                            let token = Token::new(TokenType::Number(literal), line, col);
                            proof {
                                lemma_lex_combine_push(
                                    done,
                                    token@,
                                    spec_lex_from(cs@, j as int, line as int, endcol as int),
                                );
                                assert(tokens_view(tokens@.push(token)) =~= done.push(token@));
                            }
                            tokens.push(token);
                            i = j;
                            col = endcol;
                        } else {
                            let mut message = String::from_str("Invalid number <");
                            let literal = chars_string(&data);
                            message.append(literal.as_str());
                            message.append(">");
                            proof {
                                assert(message@ =~= "Invalid number <"@ + data@ + ">"@);
                            }
                            return Err(JSONError::from_parts(message, line, col));
                        }
                    },
                    Err(err) => {
                        return Err(err);
                    },
                }
            } else if c == 't' && is_true_here(&cs, i) {
                let token = Token::new(TokenType::Boolean(true), line, col);
                proof {
                    lemma_lex_combine_push(
                        done,
                        token@,
                        spec_lex_from(cs@, i + 4 as int, line as int, col + 4 as int),
                    );
                    assert(tokens_view(tokens@.push(token)) =~= done.push(token@));
                }
                tokens.push(token);
                i = i + 4;
                col = col + 4;
            } else if c == 'f' && is_false_here(&cs, i) {
                let token = Token::new(TokenType::Boolean(false), line, col);
                proof {
                    lemma_lex_combine_push(
                        done,
                        token@,
                        spec_lex_from(cs@, i + 5 as int, line as int, col + 5 as int),
                    );
                    assert(tokens_view(tokens@.push(token)) =~= done.push(token@));
                }
                tokens.push(token);
                i = i + 5;
                col = col + 5;
            } else if c == 'n' && is_null_here(&cs, i) {
                let token = Token::new(TokenType::Null, line, col);
                proof {
                    lemma_lex_combine_push(
                        done,
                        token@,
                        spec_lex_from(cs@, i + 4 as int, line as int, col + 4 as int),
                    );
                    assert(tokens_view(tokens@.push(token)) =~= done.push(token@));
                }
                tokens.push(token);
                i = i + 4;
                col = col + 4;
            } else if c == ' ' || c == '\t' {
                i = i + 1;
                col = col + 1;
            } else if c == '\r' {
                i = i + 1;
            } else if c == '\n' {
                i = i + 1;
                line = line + 1;
                col = 1;
            } else if c == '{' || c == '}' || c == '[' || c == ']' || c == ',' || c == ':' {
                let token_type = if c == '{' {
                    TokenType::OpenCurlyBracket
                } else if c == '}' {
                    TokenType::CloseCurlyBracket
                } else if c == '[' {
                    TokenType::OpenSquareBracket
                } else if c == ']' {
                    TokenType::CloseSquareBracket
                } else if c == ',' {
                    TokenType::Comma
                } else {
                    TokenType::Colon
                };
                let token = Token::new(token_type, line, col);
                proof {
                    lemma_lex_combine_push(
                        done,
                        token@,
                        spec_lex_from(cs@, i + 1 as int, line as int, col + 1 as int),
                    );
                    assert(tokens_view(tokens@.push(token)) =~= done.push(token@));
                }
                tokens.push(token);
                i = i + 1;
                col = col + 1;
            } else {
                let mut message = String::from_str("Unexpected character <");
                push_char(&mut message, c);
                message.append(">");
                proof {
                    assert(message@ =~= "Unexpected character <"@ + seq![c] + ">"@);
                }
                return Err(JSONError::from_parts(message, line, col));
            }
        }
        proof {
            assert(tokens_view(tokens@) + Seq::<SpecToken>::empty() =~= tokens_view(tokens@));
        }
        Ok(tokens)
    }
}

/// Whether a character is a decimal digit.
fn is_digit_char(c: char) -> (result: bool)
    ensures
        result == is_digit(c),
{
    let u = c as u32;
    48 <= u && u <= 57
}

/// Whether `true` stands at position `i` of the character vector.
fn is_true_here(cs: &Vec<char>, i: usize) -> (result: bool)
    requires
        i < cs@.len(),
        cs@.len() <= usize::MAX / 4,
    ensures
        result == is_true_at(cs@, i as int),
{
    i + 4 <= cs.len() && cs[i] == 't' && cs[i + 1] == 'r' && cs[i + 2] == 'u' && cs[i + 3] == 'e'
}

/// Whether `false` stands at position `i` of the character vector.
fn is_false_here(cs: &Vec<char>, i: usize) -> (result: bool)
    requires
        i < cs@.len(),
        cs@.len() <= usize::MAX / 4,
    ensures
        result == is_false_at(cs@, i as int),
{
    i + 5 <= cs.len() && cs[i] == 'f' && cs[i + 1] == 'a' && cs[i + 2] == 'l' && cs[i + 3] == 's'
        && cs[i + 4] == 'e'
}

/// Whether `null` stands at position `i` of the character vector.
fn is_null_here(cs: &Vec<char>, i: usize) -> (result: bool)
    requires
        i < cs@.len(),
        cs@.len() <= usize::MAX / 4,
    ensures
        result == is_null_at(cs@, i as int),
{
    i + 4 <= cs.len() && cs[i] == 'n' && cs[i + 1] == 'u' && cs[i + 2] == 'l' && cs[i + 3] == 'l'
}

/// Lex one string token whose opening quote stands at position `i`,
/// returning the text between the quotes, the position right after the
/// closing quote and the location right after it.
fn lex_string(cs: &Vec<char>, i: usize, line: usize, col: usize) -> (result: Result<
    (Vec<char>, usize, usize, usize),
    JSONError,
>)
    requires
        i < cs@.len(),
        cs@[i as int] == '"',
        cs@.len() <= usize::MAX / 4,
        col <= i + 1,
        1 <= line <= i + 1,
    ensures
        match scan_string(cs@, i + 1 as int, line as int, (col + 1) as int, false, Seq::empty()) {
            Ok((data, j, line2, col2)) => result matches Ok((d, jj, ll, cc)) && d@ == data && jj
                == j && ll == line2 && cc == col2 && i < jj <= cs@.len() && line <= ll <= line + (
            jj - i) && 1 <= cc <= col + (jj - i),
            Err(e) => result matches Err(err) && err@ == e,
        },
{
    let mut data: Vec<char> = Vec::new();
    let mut j: usize = i + 1;
    let mut sline: usize = line;
    let mut scol: usize = col + 1;
    let mut escape: bool = false;
    while j < cs.len()
        invariant
            i + 1 <= j <= cs@.len(),
            cs@.len() <= usize::MAX / 4,
            col <= i + 1,
            1 <= line <= i + 1,
            line <= sline <= line + (j - i - 1),
            1 <= scol <= col + (j - i),
            scan_string(cs@, i + 1 as int, line as int, (col + 1) as int, false, Seq::empty())
                == scan_string(cs@, j as int, sline as int, scol as int, escape, data@),
        decreases cs@.len() - j,
    {
        let c = cs[j];
        if escape {
            if c == 'r' || c == 'n' || c == 't' || c == '\\' || c == '"' {
                data.push(c);
                escape = false;
                j = j + 1;
                scol = scol + 1;
            } else {
                let mut message = String::from_str("Invalid escape of character <");
                push_char(&mut message, c);
                message.append(">");
                proof {
                    assert(message@ =~= "Invalid escape of character <"@ + seq![c] + ">"@);
                }
                return Err(JSONError::from_parts(message, sline, scol));
            }
        } else if c == '\\' {
            data.push(c);
            escape = true;
            j = j + 1;
            scol = scol + 1;
        } else if c == '"' {
            return Ok((data, j + 1, sline, scol + 1));
        } else if c == '\n' {
            data.push(c);
            j = j + 1;
            sline = sline + 1;
            scol = 1;
        } else if c == '\r' {
            data.push(c);
            j = j + 1;
        } else {
            data.push(c);
            j = j + 1;
            scol = scol + 1;
        }
    }
    Err(JSONError::new("Unexpected end of string", sline, scol))
}

/// Lex one number literal starting at position `i`, returning the
/// accumulated literal, the position of the first character not consumed
/// and its column.  The literal is not yet checked against the
/// number-literal grammar.
fn lex_number(cs: &Vec<char>, i: usize, line: usize, col: usize) -> (result: Result<
    (Vec<char>, usize, usize),
    JSONError,
>)
    requires
        i < cs@.len(),
        is_digit(cs@[i as int]) || cs@[i as int] == '-' || cs@[i as int] == '.' || cs@[i as int]
            == 'e' || cs@[i as int] == 'E',
        cs@.len() <= usize::MAX / 4,
        col <= i + 1,
    ensures
        match scan_number(cs@, i as int, line as int, col as int, Seq::empty()) {
            Ok((data, j, endcol)) => result matches Ok((d, jj, cc)) && d@ == data && jj == j && cc
                == endcol && i < jj <= cs@.len() && cc == col + (jj - i),
            Err(e) => result matches Err(err) && err@ == e,
        },
{
    let mut data: Vec<char> = Vec::new();
    let mut j: usize = i;
    let mut ncol: usize = col;
    let mut has_exp: bool = false;
    while j < cs.len()
        invariant
            i <= j <= cs@.len(),
            cs@.len() <= usize::MAX / 4,
            col <= i + 1,
            ncol == col + (j - i),
            data@.len() == j - i,
            has_exp == (data@.contains('e') || data@.contains('E')),
            j > i ==> data@.last() == cs@[j - 1],
            scan_number(cs@, i as int, line as int, col as int, Seq::empty()) == scan_number(
                cs@,
                j as int,
                line as int,
                ncol as int,
                data@,
            ),
            i < cs@.len(),
            is_digit(cs@[i as int]) || cs@[i as int] == '-' || cs@[i as int] == '.'
                || cs@[i as int] == 'e' || cs@[i as int] == 'E',
        decreases cs@.len() - j,
    {
        let c = cs[j];
        if is_digit_char(c) {
            proof {
                lemma_contains_push(data@, c, 'e');
                lemma_contains_push(data@, c, 'E');
            }
            data.push(c);
            j = j + 1;
            ncol = ncol + 1;
        } else if c == '-' {
            let ok = if data.len() == 0 {
                true
            } else {
                let last = data[data.len() - 1];
                last == 'e' || last == 'E'
            };
            if ok {
                proof {
                    lemma_contains_push(data@, c, 'e');
                    lemma_contains_push(data@, c, 'E');
                }
                data.push(c);
                j = j + 1;
                ncol = ncol + 1;
            } else {
                return Err(JSONError::new("Invalid character in number <->", line, ncol));
            }
        } else if c == 'e' || c == 'E' {
            let ok = if data.len() == 0 || has_exp {
                false
            } else {
                let last = data[data.len() - 1];
                is_digit_char(last)
            };
            if ok {
                proof {
                    lemma_contains_push(data@, c, 'e');
                    lemma_contains_push(data@, c, 'E');
                }
                data.push(c);
                has_exp = true;
                j = j + 1;
                ncol = ncol + 1;
            } else {
                return Err(JSONError::new("Invalid character in number <e>", line, ncol));
            }
        } else if c == '.' {
            let ok = if data.len() == 0 || has_exp {
                false
            } else {
                let last = data[data.len() - 1];
                is_digit_char(last)
            };
            if ok {
                proof {
                    lemma_contains_push(data@, c, 'e');
                    lemma_contains_push(data@, c, 'E');
                }
                data.push(c);
                j = j + 1;
                ncol = ncol + 1;
            } else {
                return Err(JSONError::new("Invalid character in number <.>", line, ncol));
            }
        } else {
            return Ok((data, j, ncol));
        }
    }
    Ok((data, j, ncol))
}

/// Check a scanned literal against the number-literal grammar.
fn check_number_literal(data: &Vec<char>) -> (result: bool)
    ensures
        result == is_number_literal(data@),
{
    let mut state: u8 = 0;
    let mut i: usize = 0;
    while i < data.len()
        invariant
            i <= data@.len(),
            state <= 8,
            num_run(data@, 0, 0) == num_run(data@, i as int, state as int),
        decreases data@.len() - i,
    {
        let c = data[i];
        let next: u8 = if state == 0 {
            if c == '-' {
                1
            } else if is_digit_char(c) {
                2
            } else {
                8
            }
        } else if state == 1 {
            if is_digit_char(c) {
                2
            } else {
                8
            }
        } else if state == 2 {
            if is_digit_char(c) {
                2
            } else if c == '.' {
                3
            } else if c == 'e' || c == 'E' {
                5
            } else {
                8
            }
        } else if state == 3 {
            if is_digit_char(c) {
                4
            } else {
                8
            }
        } else if state == 4 {
            if is_digit_char(c) {
                4
            } else if c == 'e' || c == 'E' {
                5
            } else {
                8
            }
        } else if state == 5 {
            if c == '-' {
                6
            } else if is_digit_char(c) {
                7
            } else {
                8
            }
        } else if state == 6 || state == 7 {
            if is_digit_char(c) {
                7
            } else {
                8
            }
        } else {
            8
        };
        proof {
            assert(next as int == num_state_step(state as int, c));
        }
        state = next;
        i = i + 1;
    }
    state == 2 || state == 3 || state == 4 || state == 7
}

/// Pushing a character onto a sequence leaves exactly the old contents
/// plus the new character.
proof fn lemma_contains_push(s: Seq<char>, c: char, x: char)
    ensures
        s.push(c).contains(x) == (s.contains(x) || c == x),
{
    if s.contains(x) {
        let k = choose|k: int| 0 <= k < s.len() && s[k] == x;
        assert(s.push(c)[k] == x);
    }
    if c == x {
        assert(s.push(c)[s.len() as int] == x);
    }
    if s.push(c).contains(x) {
        let k = choose|k: int| 0 <= k < s.push(c).len() && s.push(c)[k] == x;
        if k < s.len() {
            assert(s[k] == x);
        }
    }
}

} // verus!
