//! Small helpers for moving between `String`/`&str` and character
//! sequences, shared by the lexer, the serializers and the error type.

use vstd::prelude::*;

verus! {

/// Relies on `String::push`: appends exactly the given character at the end
/// of the string.
#[verifier::external_body]
pub(crate) fn push_char(s: &mut String, c: char)
    ensures
        final(s)@ == old(s)@.push(c),
{
    s.push(c);
}

/// Relies on `str::chars`: yields the string's characters in order, so
/// collecting them gives a vector whose view is the string's view.  The
/// length bound holds because the vector stores four bytes per character
/// and std never allocates more than `isize::MAX` bytes.
#[verifier::external_body]
pub(crate) fn str_chars(s: &str) -> (result: Vec<char>)
    ensures
        result@ == s@,
        result@.len() <= usize::MAX / 4,
{
    s.chars().collect()
}

/// Build a string from the characters in order.
pub(crate) fn chars_string(cs: &Vec<char>) -> (result: String)
    ensures
        result@ == cs@,
{
    let mut result = String::new();
    let mut i: usize = 0;
    while i < cs.len()
        invariant
            i <= cs@.len(),
            result@ == cs@.subrange(0, i as int),
        decreases cs@.len() - i,
    {
        push_char(&mut result, cs[i]);
        proof {
            assert(result@ =~= cs@.subrange(0, i as int + 1));
        }
        i = i + 1;
    }
    proof {
        assert(cs@.subrange(0, cs@.len() as int) =~= cs@);
    }
    result
}

/// The decimal digit characters, `'0'` through `'9'`.
pub open spec fn digit_char(d: int) -> char {
    if d == 0 {
        '0'
    } else if d == 1 {
        '1'
    } else if d == 2 {
        '2'
    } else if d == 3 {
        '3'
    } else if d == 4 {
        '4'
    } else if d == 5 {
        '5'
    } else if d == 6 {
        '6'
    } else if d == 7 {
        '7'
    } else if d == 8 {
        '8'
    } else {
        '9'
    }
}

/// The usual decimal rendering of a natural number: most significant digit
/// first, no leading zeros (except for zero itself).
pub open spec fn dec_rep(n: nat) -> Seq<char>
    decreases n,
{
    if n < 10 {
        seq![digit_char(n as int)]
    } else {
        dec_rep(n / 10) + seq![digit_char((n % 10) as int)]
    }
}

/// Build a string of `n` spaces.
pub(crate) fn make_spaces(n: usize) -> (result: String)
    ensures
        result@ == crate::json_value::pad_seq(n as int),
{
    let mut result = String::new();
    let mut i: usize = 0;
    while i < n
        invariant
            i <= n,
            result@ == crate::json_value::pad_seq(i as int),
        decreases n - i,
    {
        push_char(&mut result, ' ');
        proof {
            assert(result@ =~= crate::json_value::pad_seq(i as int + 1));
        }
        i = i + 1;
    }
    result
}

/// One decimal digit as a character.
fn digit_to_char(d: usize) -> (result: char)
    requires
        d < 10,
    ensures
        result == digit_char(d as int),
{
    if d == 0 {
        '0'
    } else if d == 1 {
        '1'
    } else if d == 2 {
        '2'
    } else if d == 3 {
        '3'
    } else if d == 4 {
        '4'
    } else if d == 5 {
        '5'
    } else if d == 6 {
        '6'
    } else if d == 7 {
        '7'
    } else if d == 8 {
        '8'
    } else {
        '9'
    }
}

/// Render a number in decimal, matching `dec_rep`.
pub(crate) fn usize_to_string(n: usize) -> (result: String)
    ensures
        result@ == dec_rep(n as nat),
    decreases n,
{
    if n < 10 {
        let mut result = String::new();
        push_char(&mut result, digit_to_char(n));
        proof {
            assert(result@ =~= dec_rep(n as nat));
        }
        result
    } else {
        let mut result = usize_to_string(n / 10);
        push_char(&mut result, digit_to_char(n % 10));
        proof {
            assert(result@ =~= dec_rep(n as nat));
        }
        result
    }
}

} // verus!
