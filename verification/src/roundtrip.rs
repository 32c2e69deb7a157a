//! The round-trip law: parsing the compact rendering of a well-formed
//! value tree gives back exactly that tree.
//!
//! The proof runs in two halves.  The token half shows that the parser,
//! fed the token sequence a value renders to, rebuilds the value.  The
//! text half shows that the lexer, fed the rendered text, produces
//! exactly that token sequence.  [`lemma_parse_render_roundtrip`] puts
//! the halves together.

use vstd::prelude::*;
use crate::json_error::SpecError;
use crate::json_object::{find_key, lemma_find_key, unique_keys, upsert};
use crate::json_value::{
    render_entries,
    render_entry,
    render_items,
    render_value,
    SpecValue,
};
use crate::lexer::{
    is_digit,
    is_escapable,
    is_number_literal,
    lex_combine,
    num_run,
    num_state_step,
    prepend_token,
    scan_number,
    scan_string,
    spec_lex,
    spec_lex_from,
};
use crate::parser::{
    is_stop,
    is_value_start,
    spec_parse,
    spec_parse_array,
    spec_parse_array_items,
    spec_parse_object,
    spec_parse_object_items,
    spec_parse_value,
};
use crate::token::{SpecToken, SpecTokenType};

verus! {

/// Whether a value is a scalar: not an array and not an object.
pub open spec fn is_scalar(v: SpecValue) -> bool {
    !(v is Arr) && !(v is Obj)
}

/// Whether text can stand between the quotes of a string: every backslash
/// starts a valid two-character escape sequence, and no double quote
/// stands outside one.  `escape` says whether the previous character was
/// an unconsumed backslash.
pub open spec fn scan_clean(s: Seq<char>, i: int, escape: bool) -> bool
    decreases s.len() - i,
{
    if i >= s.len() {
        !escape
    } else if escape {
        is_escapable(s[i]) && scan_clean(s, i + 1, false)
    } else if s[i] == '\\' {
        scan_clean(s, i + 1, true)
    } else {
        s[i] != '"' && scan_clean(s, i + 1, false)
    }
}

/// Whether text lexes back to itself when rendered between quotes.
pub open spec fn wf_text(s: Seq<char>) -> bool {
    scan_clean(s, 0, false)
}

/// Whether a value tree renders to text that parses back to it: string
/// payloads and object keys are escape-clean, number literals are
/// well-formed, and object keys are unique.
pub open spec fn wf_value(v: SpecValue) -> bool
    decreases v,
{
    match v {
        SpecValue::Str { text } => wf_text(text),
        SpecValue::Num { literal } => is_number_literal(literal),
        SpecValue::Bool { .. } => true,
        SpecValue::Null => true,
        SpecValue::Arr { items } => wf_items(items),
        SpecValue::Obj { entries } => unique_keys(entries) && wf_entries(entries),
    }
}

/// Every item of a sequence is well-formed.
pub open spec fn wf_items(items: Seq<SpecValue>) -> bool
    decreases items,
{
    if items.len() == 0 {
        true
    } else {
        wf_value(items[0]) && wf_items(items.subrange(1, items.len() as int))
    }
}

/// Every entry of a sequence has escape-clean key text and a well-formed
/// value.
pub open spec fn wf_entries(entries: Seq<(Seq<char>, SpecValue)>) -> bool
    decreases entries,
{
    if entries.len() == 0 {
        true
    } else {
        wf_text(entries[0].0) && wf_value(entries[0].1) && wf_entries(
            entries.subrange(1, entries.len() as int),
        )
    }
}

/// The token kinds a value renders to.
pub open spec fn tok_value(v: SpecValue) -> Seq<SpecTokenType>
    decreases v,
{
    match v {
        SpecValue::Str { text } => seq![SpecTokenType::Str { text }],
        SpecValue::Num { literal } => seq![SpecTokenType::Num { literal }],
        SpecValue::Bool { value } => seq![SpecTokenType::Bool { value }],
        SpecValue::Null => seq![SpecTokenType::Null],
        SpecValue::Arr { items } => seq![SpecTokenType::OpenSquare] + tok_items(items) + seq![
            SpecTokenType::CloseSquare,
        ],
        SpecValue::Obj { entries } => seq![SpecTokenType::OpenCurly] + tok_entries(entries) + seq![
            SpecTokenType::CloseCurly,
        ],
    }
}

/// The token kinds an array's items render to, separated by commas.
pub open spec fn tok_items(items: Seq<SpecValue>) -> Seq<SpecTokenType>
    decreases items,
{
    if items.len() == 0 {
        Seq::empty()
    } else if items.len() == 1 {
        tok_value(items[0])
    } else {
        tok_value(items[0]) + seq![SpecTokenType::Comma] + tok_items(
            items.subrange(1, items.len() as int),
        )
    }
}

/// The token kinds one object entry renders to: the key string, a colon,
/// then the value.
pub open spec fn tok_entry(e: (Seq<char>, SpecValue)) -> Seq<SpecTokenType>
    decreases e,
{
    seq![SpecTokenType::Str { text: e.0 }, SpecTokenType::Colon] + tok_value(e.1)
}

/// The token kinds an object's entries render to, separated by commas.
pub open spec fn tok_entries(entries: Seq<(Seq<char>, SpecValue)>) -> Seq<SpecTokenType>
    decreases entries,
{
    if entries.len() == 0 {
        Seq::empty()
    } else if entries.len() == 1 {
        tok_entry(entries[0])
    } else {
        tok_entry(entries[0]) + seq![SpecTokenType::Comma] + tok_entries(
            entries.subrange(1, entries.len() as int),
        )
    }
}

/// Whether the given token kinds stand at position `i` of the token
/// sequence.
pub open spec fn kinds_at(ts: Seq<SpecToken>, i: int, kinds: Seq<SpecTokenType>) -> bool {
    0 <= i && i + kinds.len() <= ts.len() && forall|k: int|
        0 <= k < kinds.len() ==> ts[i + k].token_type == kinds[k]
}

/// A value's token rendering is non-empty and starts with a value-start
/// token.
proof fn lemma_tok_value_first(v: SpecValue)
    ensures
        tok_value(v).len() >= 1,
        is_value_start(tok_value(v)[0]),
{
    match v {
        SpecValue::Str { text } => {},
        SpecValue::Num { literal } => {},
        SpecValue::Bool { value } => {},
        SpecValue::Null => {},
        SpecValue::Arr { items } => {},
        SpecValue::Obj { entries } => {},
    }
}

/// The token half of the round trip, for one value inside a container:
/// the parser, standing on the value's token rendering with the right
/// stop token after a scalar, rebuilds the value and stops right after
/// its tokens.
proof fn lemma_parse_value_tokens(ts: Seq<SpecToken>, i: int, in_object: bool, v: SpecValue)
    requires
        wf_value(v),
        kinds_at(ts, i, tok_value(v)),
        is_scalar(v) ==> i + 1 < ts.len() && is_stop(ts[i + 1].token_type, in_object),
    ensures
        spec_parse_value(ts, i, in_object) == Ok::<(SpecValue, int), SpecError>(
            (v, i + tok_value(v).len()),
        ),
    decreases v,
{
    assert(ts[i].token_type == tok_value(v)[0]);
    match v {
        SpecValue::Str { text } => {},
        SpecValue::Num { literal } => {},
        SpecValue::Bool { value } => {},
        SpecValue::Null => {},
        SpecValue::Arr { items } => {
            if items.len() == 0 {
                assert(ts[i + 1].token_type == tok_value(v)[1]);
                assert(tok_value(v).len() == 2);
                assert(items =~= Seq::<SpecValue>::empty());
            } else {
                lemma_tok_value_first(items[0]);
                assert(ts[i + 1].token_type == tok_value(v)[1]);
                assert(tok_value(v)[1] == tok_items(items)[0]);
                assert(tok_items(items)[0] == tok_value(items[0])[0]);
                assert(!(ts[i + 1].token_type is CloseSquare));
                assert(kinds_at(
                    ts,
                    i + 1,
                    tok_items(items).push(SpecTokenType::CloseSquare),
                )) by {
                    assert forall|k: int|
                        0 <= k < tok_items(items).len() + 1 implies ts[i + 1
                        + k].token_type == tok_items(items).push(SpecTokenType::CloseSquare)[k] by {
                        assert(ts[i + 1 + k].token_type == tok_value(v)[1 + k]);
                    }
                }
                lemma_parse_array_items_tokens(ts, i + 1, Seq::empty(), items);
                assert(Seq::<SpecValue>::empty() + items =~= items);
                assert(tok_value(v).len() == tok_items(items).len() + 2);
            }
        },
        SpecValue::Obj { entries } => {
            if entries.len() == 0 {
                assert(ts[i + 1].token_type == tok_value(v)[1]);
                assert(tok_value(v).len() == 2);
                assert(entries =~= Seq::<(Seq<char>, SpecValue)>::empty());
            } else {
                lemma_tok_value_first(entries[0].1);
                assert(tok_entry(entries[0]).len() == 2 + tok_value(entries[0].1).len());
                assert(tok_entries(entries).len() >= 1);
                assert(ts[i + 1].token_type == tok_value(v)[1]);
                assert(tok_value(v)[1] == tok_entries(entries)[0]);
                assert(tok_entries(entries)[0] == tok_entry(entries[0])[0]);
                assert(!(ts[i + 1].token_type is CloseCurly));
                assert(kinds_at(
                    ts,
                    i + 1,
                    tok_entries(entries).push(SpecTokenType::CloseCurly),
                )) by {
                    assert forall|k: int|
                        0 <= k < tok_entries(entries).len() + 1 implies ts[i + 1
                        + k].token_type == tok_entries(entries).push(
                        SpecTokenType::CloseCurly,
                    )[k] by {
                        assert(ts[i + 1 + k].token_type == tok_value(v)[1 + k]);
                    }
                }
                lemma_parse_object_items_tokens(ts, i + 1, Seq::empty(), entries);
                assert(Seq::<(Seq<char>, SpecValue)>::empty() + entries =~= entries);
                assert(tok_value(v).len() == tok_entries(entries).len() + 2);
            }
        },
    }
}

/// The token half of the round trip, for the items of a non-empty array:
/// standing on the items' tokens followed by the closing bracket, the
/// parser appends the items to what it has and stops after the bracket.
proof fn lemma_parse_array_items_tokens(
    ts: Seq<SpecToken>,
    j: int,
    acc: Seq<SpecValue>,
    items: Seq<SpecValue>,
)
    requires
        items.len() > 0,
        wf_items(items),
        kinds_at(ts, j, tok_items(items).push(SpecTokenType::CloseSquare)),
    ensures
        spec_parse_array_items(ts, j, acc) == Ok::<(SpecValue, int), SpecError>(
            (SpecValue::Arr { items: acc + items }, j + tok_items(items).len() + 1),
        ),
    decreases items,
{
    let head = items[0];
    let t0 = tok_value(head);
    let window = tok_items(items).push(SpecTokenType::CloseSquare);
    lemma_tok_value_first(head);
    assert(kinds_at(ts, j, t0)) by {
        assert forall|k: int| 0 <= k < t0.len() implies ts[j + k].token_type == t0[k] by {
            assert(ts[j + k].token_type == window[k]);
            if items.len() == 1 {
            } else {
                assert(tok_items(items)[k] == t0[k]);
            }
        }
    }
    assert(ts[j].token_type == t0[0]);
    let j2 = j + t0.len();
    assert(ts[j2].token_type == window[t0.len() as int]);
    if items.len() == 1 {
        assert(window[t0.len() as int] == SpecTokenType::CloseSquare);
        if is_scalar(head) {
            assert(t0.len() == 1);
            assert(is_stop(ts[j + 1].token_type, false));
        }
        lemma_parse_value_tokens(ts, j, false, head);
        assert(acc.push(head) =~= acc + items);
    } else {
        let rest = items.subrange(1, items.len() as int);
        assert(window[t0.len() as int] == (t0 + seq![SpecTokenType::Comma] + tok_items(rest))[t0.len() as int]);
        assert(ts[j2].token_type is Comma);
        if is_scalar(head) {
            assert(t0.len() == 1);
            assert(is_stop(ts[j + 1].token_type, false));
        }
        lemma_parse_value_tokens(ts, j, false, head);
        assert(kinds_at(ts, j2 + 1, tok_items(rest).push(SpecTokenType::CloseSquare))) by {
            assert forall|k: int|
                0 <= k < tok_items(rest).len() + 1 implies ts[j2 + 1 + k].token_type == tok_items(
                rest,
            ).push(SpecTokenType::CloseSquare)[k] by {
                assert(ts[j2 + 1 + k].token_type == window[t0.len() + 1 + k]);
            }
        }
        lemma_parse_array_items_tokens(ts, j2 + 1, acc.push(head), rest);
        assert(acc.push(head) + rest =~= acc + items);
    }
}

/// The token half of the round trip, for the entries of a non-empty
/// object: standing on the entries' tokens followed by the closing
/// bracket, the parser appends the entries to what it has and stops after
/// the bracket.  Since all keys are distinct, each insertion appends.
proof fn lemma_parse_object_items_tokens(
    ts: Seq<SpecToken>,
    j: int,
    acc: Seq<(Seq<char>, SpecValue)>,
    entries: Seq<(Seq<char>, SpecValue)>,
)
    requires
        entries.len() > 0,
        wf_entries(entries),
        unique_keys(acc + entries),
        kinds_at(ts, j, tok_entries(entries).push(SpecTokenType::CloseCurly)),
    ensures
        spec_parse_object_items(ts, j, acc) == Ok::<(SpecValue, int), SpecError>(
            (SpecValue::Obj { entries: acc + entries }, j + tok_entries(entries).len() + 1),
        ),
    decreases entries,
{
    let head = entries[0];
    let key = head.0;
    let te = tok_entry(head);
    let t0 = tok_value(head.1);
    let window = tok_entries(entries).push(SpecTokenType::CloseCurly);
    lemma_tok_value_first(head.1);
    assert(kinds_at(ts, j, te)) by {
        assert forall|k: int| 0 <= k < te.len() implies ts[j + k].token_type == te[k] by {
            assert(ts[j + k].token_type == window[k]);
            if entries.len() == 1 {
            } else {
                assert(tok_entries(entries)[k] == te[k]);
            }
        }
    }
    assert(ts[j].token_type == te[0]);
    assert(ts[j].token_type == (SpecTokenType::Str { text: key }));
    assert(ts[j + 1].token_type == te[1]);
    assert(ts[j + 1].token_type is Colon);
    assert(kinds_at(ts, j + 2, t0)) by {
        assert forall|k: int| 0 <= k < t0.len() implies ts[j + 2 + k].token_type == t0[k] by {
            assert(ts[j + 2 + k].token_type == te[2 + k]);
        }
    }
    assert(ts[j + 2].token_type == t0[0]);
    let j3 = j + 2 + t0.len();
    assert(ts[j3].token_type == window[te.len() as int]);
    // The new key is absent from the accumulated entries, so the
    // insertion appends it.
    assert(find_key(acc, key) == -1) by {
        lemma_find_key(acc, key);
        if find_key(acc, key) >= 0 {
            let m = find_key(acc, key);
            assert((acc + entries)[m].0 == key);
            assert((acc + entries)[acc.len() as int].0 == key);
        }
    }
    assert(upsert(acc, key, head.1) == acc.push((key, head.1)));
    if entries.len() == 1 {
        assert(window[te.len() as int] == SpecTokenType::CloseCurly);
        if is_scalar(head.1) {
            assert(t0.len() == 1);
            assert(is_stop(ts[j + 3].token_type, true));
        }
        lemma_parse_value_tokens(ts, j + 2, true, head.1);
        assert(acc.push((key, head.1)) =~= acc + entries);
    } else {
        let rest = entries.subrange(1, entries.len() as int);
        assert(window[te.len() as int] == (te + seq![SpecTokenType::Comma] + tok_entries(
            rest,
        ))[te.len() as int]);
        assert(ts[j3].token_type is Comma);
        if is_scalar(head.1) {
            assert(t0.len() == 1);
            assert(is_stop(ts[j + 3].token_type, true));
        }
        lemma_parse_value_tokens(ts, j + 2, true, head.1);
        assert(kinds_at(ts, j3 + 1, tok_entries(rest).push(SpecTokenType::CloseCurly))) by {
            assert forall|k: int|
                0 <= k < tok_entries(rest).len() + 1 implies ts[j3 + 1 + k].token_type
                == tok_entries(rest).push(SpecTokenType::CloseCurly)[k] by {
                assert(ts[j3 + 1 + k].token_type == window[te.len() + 1 + k]);
            }
        }
        assert(acc.push((key, head.1)) + rest =~= acc + entries);
        lemma_parse_object_items_tokens(ts, j3 + 1, acc.push((key, head.1)), rest);
    }
}

/// A character that ends a number scan: not a digit and none of the four
/// special number characters.
pub open spec fn is_num_breaker(c: char) -> bool {
    !is_digit(c) && c != '-' && c != '.' && c != 'e' && c != 'E'
}

/// The string scanner consumes escape-clean text up to its closing quote
/// and returns exactly that text.  `k` characters are already consumed;
/// the rest of the text and the closing quote stand at position `i`.
proof fn lemma_scan_string_clean(
    s: Seq<char>,
    i: int,
    line: int,
    col: int,
    text: Seq<char>,
    k: int,
    escape: bool,
)
    requires
        0 <= i,
        0 <= k <= text.len(),
        i + (text.len() - k) + 1 <= s.len(),
        forall|m: int| 0 <= m < text.len() - k ==> #[trigger] s[i + m] == text[k + m],
        s[i + (text.len() - k)] == '"',
        scan_clean(text, k, escape),
    ensures
        scan_string(s, i, line, col, escape, text.subrange(0, k)) matches Ok(r) && r.0 == text
            && r.1 == i + (text.len() - k) + 1,
    decreases text.len() - k,
{
    if k == text.len() {
        assert(s[i] == '"');
        assert(text.subrange(0, k) =~= text);
    } else {
        let c = s[i];
        assert(s[i + 0] == text[k + 0]);
        assert(c == text[k]);
        assert(text.subrange(0, k).push(c) =~= text.subrange(0, k + 1));
        assert forall|m: int| 0 <= m < text.len() - (k + 1) implies #[trigger] s[(i + 1) + m]
            == text[(k + 1) + m] by {
            assert(s[i + (m + 1)] == text[k + (m + 1)]);
        }
        assert(s[(i + 1) + (text.len() - (k + 1))] == '"');
        if escape {
            lemma_scan_string_clean(s, i + 1, line, col + 1, text, k + 1, false);
        } else if c == '\\' {
            lemma_scan_string_clean(s, i + 1, line, col + 1, text, k + 1, true);
        } else if c == '\n' {
            assert(c != '"');
            lemma_scan_string_clean(s, i + 1, line + 1, 1, text, k + 1, false);
        } else if c == '\r' {
            assert(c != '"');
            lemma_scan_string_clean(s, i + 1, line, col, text, k + 1, false);
        } else {
            assert(c != '"');
            lemma_scan_string_clean(s, i + 1, line, col + 1, text, k + 1, false);
        }
    }
}

/// The state of the number-literal grammar after the first `k` characters
/// of a literal.
pub open spec fn num_state_at(lit: Seq<char>, k: int) -> int
    decreases k,
{
    if k <= 0 {
        0
    } else {
        num_state_step(num_state_at(lit, k - 1), lit[k - 1])
    }
}

/// Running the grammar over the whole literal equals running it over the
/// rest from the state after the first `k` characters.
proof fn lemma_num_run_split(lit: Seq<char>, k: int)
    requires
        0 <= k <= lit.len(),
    ensures
        num_run(lit, 0, 0) == num_run(lit, k, num_state_at(lit, k)),
    decreases k,
{
    if k > 0 {
        lemma_num_run_split(lit, k - 1);
        assert(num_run(lit, k - 1, num_state_at(lit, k - 1)) == num_run(lit, k, num_state_at(lit, k)));
    }
}

/// The reject state absorbs.
proof fn lemma_num_run_reject(lit: Seq<char>, k: int)
    requires
        0 <= k <= lit.len(),
    ensures
        num_run(lit, k, 8) == 8,
    decreases lit.len() - k,
{
    if k < lit.len() {
        lemma_num_run_reject(lit, k + 1);
    }
}

/// No prefix of a well-formed literal reaches the reject state.
proof fn lemma_num_state_not_reject(lit: Seq<char>, k: int)
    requires
        is_number_literal(lit),
        0 <= k <= lit.len(),
    ensures
        num_state_at(lit, k) != 8,
{
    if num_state_at(lit, k) == 8 {
        lemma_num_run_split(lit, k);
        lemma_num_run_reject(lit, k);
    }
}

/// What each grammar state says about the characters read so far: which
/// character came last, and that no exponent marker was read before the
/// exponent states.
proof fn lemma_num_state_props(lit: Seq<char>, k: int)
    requires
        0 <= k <= lit.len(),
    ensures
        ({
            let st = num_state_at(lit, k);
            &&& (st == 0 ==> k == 0)
            &&& (st == 1 ==> k >= 1 && lit[k - 1] == '-')
            &&& (st == 2 ==> k >= 1 && is_digit(lit[k - 1]))
            &&& (st == 3 ==> k >= 1 && lit[k - 1] == '.')
            &&& (st == 4 ==> k >= 1 && is_digit(lit[k - 1]))
            &&& (st == 5 ==> k >= 1 && (lit[k - 1] == 'e' || lit[k - 1] == 'E'))
            &&& (st == 6 ==> k >= 1 && lit[k - 1] == '-')
            &&& (st == 7 ==> k >= 1 && is_digit(lit[k - 1]))
            &&& (0 <= st <= 4 ==> forall|m: int| 0 <= m < k ==> lit[m] != 'e' && lit[m] != 'E')
            &&& 0 <= st <= 8
        }),
    decreases k,
{
    if k > 0 {
        lemma_num_state_props(lit, k - 1);
    }
}

/// A well-formed literal is non-empty and starts with a digit or a minus
/// sign.
proof fn lemma_num_literal_start(lit: Seq<char>)
    requires
        is_number_literal(lit),
    ensures
        lit.len() >= 1,
        is_digit(lit[0]) || lit[0] == '-',
{
    if lit.len() == 0 {
        assert(num_run(lit, 0, 0) == 0);
    } else {
        lemma_num_state_not_reject(lit, 1);
        assert(num_state_at(lit, 0) == 0);
        assert(num_state_at(lit, 1) == num_state_step(0, lit[0]));
    }
}

/// The number scanner consumes a well-formed literal up to the next
/// breaking character and returns exactly that literal.  `k` characters
/// are already consumed; the rest of the literal stands at position `i`,
/// and right after it comes the end of the input or a breaking character.
proof fn lemma_scan_number_literal(
    s: Seq<char>,
    i: int,
    line: int,
    col: int,
    lit: Seq<char>,
    k: int,
)
    requires
        0 <= i,
        0 <= k <= lit.len(),
        is_number_literal(lit),
        i + (lit.len() - k) <= s.len(),
        forall|m: int| 0 <= m < lit.len() - k ==> #[trigger] s[i + m] == lit[k + m],
        i + (lit.len() - k) == s.len() || is_num_breaker(s[i + (lit.len() - k)]),
    ensures
        scan_number(s, i, line, col, lit.subrange(0, k)) == Ok::<(Seq<char>, int, int), SpecError>(
            (lit, i + (lit.len() - k), col + (lit.len() - k)),
        ),
    decreases lit.len() - k,
{
    let data = lit.subrange(0, k);
    if k == lit.len() {
        assert(data =~= lit);
    } else {
        let c = s[i];
        assert(s[i + 0] == lit[k + 0]);
        assert(c == lit[k]);
        assert(data.push(c) =~= lit.subrange(0, k + 1));
        assert forall|m: int| 0 <= m < lit.len() - (k + 1) implies #[trigger] s[(i + 1) + m]
            == lit[(k + 1) + m] by {
            assert(s[i + (m + 1)] == lit[k + (m + 1)]);
        }
        let st = num_state_at(lit, k);
        lemma_num_state_props(lit, k);
        lemma_num_state_not_reject(lit, k);
        lemma_num_state_not_reject(lit, k + 1);
        assert(num_state_at(lit, k + 1) == num_state_step(st, c));
        if is_digit(c) {
            lemma_scan_number_literal(s, i + 1, line, col + 1, lit, k + 1);
        } else if c == '-' {
            // The step is not rejected, so the state admits a minus:
            // nothing read yet, or an exponent marker just read.
            assert(st == 0 || st == 5);
            if st == 0 {
                assert(data.len() == 0);
            } else {
                assert(data.last() == lit[k - 1]);
            }
            lemma_scan_number_literal(s, i + 1, line, col + 1, lit, k + 1);
        } else if c == 'e' || c == 'E' {
            assert(st == 2 || st == 4);
            assert(data.last() == lit[k - 1]);
            assert(!data.contains('e') && !data.contains('E')) by {
                if data.contains('e') {
                    let m = choose|m: int| 0 <= m < data.len() && data[m] == 'e';
                    assert(lit[m] == 'e');
                }
                if data.contains('E') {
                    let m = choose|m: int| 0 <= m < data.len() && data[m] == 'E';
                    assert(lit[m] == 'E');
                }
            }
            lemma_scan_number_literal(s, i + 1, line, col + 1, lit, k + 1);
        } else if c == '.' {
            assert(st == 2);
            assert(data.last() == lit[k - 1]);
            assert(!data.contains('e') && !data.contains('E')) by {
                if data.contains('e') {
                    let m = choose|m: int| 0 <= m < data.len() && data[m] == 'e';
                    assert(lit[m] == 'e');
                }
                if data.contains('E') {
                    let m = choose|m: int| 0 <= m < data.len() && data[m] == 'E';
                    assert(lit[m] == 'E');
                }
            }
            lemma_scan_number_literal(s, i + 1, line, col + 1, lit, k + 1);
        } else {
            // A breaking character inside the literal is impossible: the
            // step out of a non-reject state would reject.
            assert(false);
        }
    }
}

/// Whether the given characters stand at position `i` of the source.
pub open spec fn text_at(s: Seq<char>, i: int, w: Seq<char>) -> bool {
    0 <= i && i + w.len() <= s.len() && forall|m: int|
        0 <= m < w.len() ==> #[trigger] s[i + m] == w[m]
}

/// The kinds of a token sequence, in order.
pub open spec fn kinds_of(ts: Seq<SpecToken>) -> Seq<SpecTokenType> {
    ts.map_values(|t: SpecToken| t.token_type)
}

/// Kinds distribute over concatenation.
proof fn lemma_kinds_concat(a: Seq<SpecToken>, b: Seq<SpecToken>)
    ensures
        kinds_of(a + b) == kinds_of(a) + kinds_of(b),
{
    assert(kinds_of(a + b) =~= kinds_of(a) + kinds_of(b));
}

/// Prepending one token is combining with the singleton sequence.
proof fn lemma_prepend_is_combine(t: SpecToken, rest: Result<Seq<SpecToken>, SpecError>)
    ensures
        prepend_token(t, rest) == lex_combine(seq![t], rest),
{
}

/// Combining twice is combining once with the concatenation.
proof fn lemma_combine_assoc(
    a: Seq<SpecToken>,
    b: Seq<SpecToken>,
    rest: Result<Seq<SpecToken>, SpecError>,
)
    ensures
        lex_combine(a, lex_combine(b, rest)) == lex_combine(a + b, rest),
{
    match rest {
        Ok(ts) => {
            assert(a + (b + ts) =~= (a + b) + ts);
        },
        Err(_) => {},
    }
}

/// The text half of the round trip, for one value: the lexer, standing on
/// the value's rendering (with nothing after it that could extend a
/// number literal), produces exactly the value's tokens and continues
/// right after the rendering on the same line.
#[verifier::rlimit(100)]
proof fn lemma_lex_value(s: Seq<char>, i: int, line: int, col: int, v: SpecValue)
    requires
        wf_value(v),
        text_at(s, i, render_value(v)),
        v is Num ==> (i + render_value(v).len() == s.len() || is_num_breaker(
            s[i + render_value(v).len()],
        )),
    ensures
        exists|toks: Seq<SpecToken>, line2: int, col2: int|
            #![trigger lex_combine(
                toks,
                spec_lex_from(s, i + render_value(v).len(), line2, col2),
            )]
            kinds_of(toks) == tok_value(v) && spec_lex_from(s, i, line, col) == lex_combine(
                toks,
                spec_lex_from(s, i + render_value(v).len(), line2, col2),
            ),
    decreases v,
{
    let w = render_value(v);
    match v {
        SpecValue::Bool { value } => {
            if value {
                reveal_strlit("true");
                assert(s[i + 0] == w[0]);
                assert(s[i + 1] == w[1] && s[i + 2] == w[2] && s[i + 3] == w[3]);
                assert(crate::lexer::is_true_at(s, i));
                let tok = SpecToken {
                    token_type: SpecTokenType::Bool { value: true },
                    line: line as nat,
                    column: col as nat,
                };
                let rest = spec_lex_from(s, i + 4, line, col + 4);
                assert(spec_lex_from(s, i, line, col) == prepend_token(tok, rest));
                lemma_prepend_is_combine(tok, rest);
                assert(kinds_of(seq![tok]) =~= tok_value(v));
                assert(kinds_of(seq![tok]) == tok_value(v) && spec_lex_from(s, i, line, col)
                    == lex_combine(
                    seq![tok],
                    spec_lex_from(s, i + render_value(v).len(), line, col + 4),
                ));
            } else {
                reveal_strlit("false");
                assert(s[i + 0] == w[0]);
                assert(s[i + 1] == w[1] && s[i + 2] == w[2] && s[i + 3] == w[3] && s[i + 4]
                    == w[4]);
                assert(crate::lexer::is_false_at(s, i));
                assert(!crate::lexer::is_true_at(s, i));
                let tok = SpecToken {
                    token_type: SpecTokenType::Bool { value: false },
                    line: line as nat,
                    column: col as nat,
                };
                let rest = spec_lex_from(s, i + 5, line, col + 5);
                assert(spec_lex_from(s, i, line, col) == prepend_token(tok, rest));
                lemma_prepend_is_combine(tok, rest);
                assert(kinds_of(seq![tok]) =~= tok_value(v));
                assert(kinds_of(seq![tok]) == tok_value(v) && spec_lex_from(s, i, line, col)
                    == lex_combine(
                    seq![tok],
                    spec_lex_from(s, i + render_value(v).len(), line, col + 5),
                ));
            }
        },
        SpecValue::Null => {
            reveal_strlit("null");
            assert(s[i + 0] == w[0]);
            assert(s[i + 1] == w[1] && s[i + 2] == w[2] && s[i + 3] == w[3]);
            assert(crate::lexer::is_null_at(s, i));
            assert(!crate::lexer::is_true_at(s, i));
            assert(!crate::lexer::is_false_at(s, i));
            let tok = SpecToken {
                token_type: SpecTokenType::Null,
                line: line as nat,
                column: col as nat,
            };
            let rest = spec_lex_from(s, i + 4, line, col + 4);
            assert(spec_lex_from(s, i, line, col) == prepend_token(tok, rest));
            lemma_prepend_is_combine(tok, rest);
            assert(kinds_of(seq![tok]) =~= tok_value(v));
            assert(kinds_of(seq![tok]) == tok_value(v) && spec_lex_from(s, i, line, col)
                == lex_combine(
                seq![tok],
                spec_lex_from(s, i + render_value(v).len(), line, col + 4),
            ));
        },
        SpecValue::Num { literal } => {
            lemma_num_literal_start(literal);
            assert(s[i + 0] == w[0]);
            let len = literal.len() as int;
            assert(Seq::<char>::empty() =~= literal.subrange(0, 0));
            assert forall|m: int| 0 <= m < literal.len() - 0 implies #[trigger] s[i + m]
                == literal[0 + m] by {
                assert(s[i + m] == w[m]);
            }
            lemma_scan_number_literal(s, i, line, col, literal, 0);
            assert(scan_number(s, i, line, col, Seq::empty()) == Ok::<
                (Seq<char>, int, int),
                SpecError,
            >((literal, i + len, col + len)));
            let tok = SpecToken {
                token_type: SpecTokenType::Num { literal },
                line: line as nat,
                column: col as nat,
            };
            let rest = spec_lex_from(s, i + len, line, col + len);
            assert(spec_lex_from(s, i, line, col) == prepend_token(tok, rest));
            lemma_prepend_is_combine(tok, rest);
            assert(kinds_of(seq![tok]) =~= tok_value(v));
            assert(kinds_of(seq![tok]) == tok_value(v) && spec_lex_from(s, i, line, col)
                == lex_combine(
                seq![tok],
                spec_lex_from(s, i + render_value(v).len(), line, col + len),
            ));
        },
        SpecValue::Str { text } => {
            reveal_strlit("\"");
            let tlen = text.len() as int;
            assert(s[i + 0] == w[0]);
            assert(w.len() == tlen + 2);
            assert(s[i] == '"');
            assert forall|m: int| 0 <= m < text.len() - 0 implies #[trigger] s[(i + 1) + m]
                == text[0 + m] by {
                assert(s[i + (1 + m)] == w[1 + m]);
                assert(w[1 + m] == text[m]);
            }
            assert(s[(i + 1) + tlen] == '"') by {
                assert(s[i + (1 + tlen)] == w[1 + tlen]);
            }
            assert(Seq::<char>::empty() =~= text.subrange(0, 0));
            lemma_scan_string_clean(s, i + 1, line, col + 1, text, 0, false);
            let scanned = scan_string(s, i + 1, line, col + 1, false, Seq::empty());
            assert(scanned matches Ok(r) && r.0 == text && r.1 == i + tlen + 2);
            let r = scanned->Ok_0;
            let tok = SpecToken {
                token_type: SpecTokenType::Str { text },
                line: line as nat,
                column: col as nat,
            };
            let rest = spec_lex_from(s, i + tlen + 2, r.2, r.3);
            assert(spec_lex_from(s, i, line, col) == prepend_token(tok, rest));
            lemma_prepend_is_combine(tok, rest);
            assert(kinds_of(seq![tok]) =~= tok_value(v));
            assert(kinds_of(seq![tok]) == tok_value(v) && spec_lex_from(s, i, line, col)
                == lex_combine(
                seq![tok],
                spec_lex_from(s, i + render_value(v).len(), r.2, r.3),
            ));
        },
        SpecValue::Arr { items } => {
            reveal_strlit("[ ");
            reveal_strlit(" ]");
            assert(s[i + 0] == w[0]);
            let ri = render_items(items);
            let rl = ri.len() as int;
            assert(w.len() == rl + 4);
            assert(s[i] == '[');
            assert(s[i + 1] == w[1]);
            let t1 = SpecToken {
                token_type: SpecTokenType::OpenSquare,
                line: line as nat,
                column: col as nat,
            };
            assert(spec_lex_from(s, i, line, col) == prepend_token(
                t1,
                spec_lex_from(s, i + 1, line, col + 1),
            ));
            assert(spec_lex_from(s, i + 1, line, col + 1) == spec_lex_from(
                s,
                i + 2,
                line,
                col + 2,
            ));
            if items.len() == 0 {
                assert(s[i + 2] == w[2] && s[i + 3] == w[3]);
                assert(s[i + 2] == ' ' && s[i + 3] == ']');
                assert(spec_lex_from(s, i + 2, line, col + 2) == spec_lex_from(
                    s,
                    i + 3,
                    line,
                    col + 3,
                ));
                let t2 = SpecToken {
                    token_type: SpecTokenType::CloseSquare,
                    line: line as nat,
                    column: (col + 3) as nat,
                };
                let rest = spec_lex_from(s, i + 4, line, col + 4);
                assert(spec_lex_from(s, i + 3, line, col + 3) == prepend_token(t2, rest));
                lemma_prepend_is_combine(t2, rest);
                lemma_prepend_is_combine(t1, lex_combine(seq![t2], rest));
                lemma_combine_assoc(seq![t1], seq![t2], rest);
                assert(seq![t1] + seq![t2] =~= seq![t1, t2]);
                assert(kinds_of(seq![t1, t2]) =~= tok_value(v));
                assert(kinds_of(seq![t1, t2]) == tok_value(v) && spec_lex_from(s, i, line, col)
                    == lex_combine(
                    seq![t1, t2],
                    spec_lex_from(s, i + render_value(v).len(), line, col + 4),
                ));
            } else {
                assert forall|m: int| 0 <= m < ri.len() implies #[trigger] s[(i + 2) + m]
                    == ri[m] by {
                    assert(s[i + (2 + m)] == w[2 + m]);
                    assert(w[2 + m] == ri[m]);
                }
                let p_end = i + 2 + rl;
                assert(s[p_end] == ' ') by {
                    assert(s[i + (2 + rl)] == w[2 + rl]);
                }
                assert(s[p_end + 1] == ']') by {
                    assert(s[i + (3 + rl)] == w[3 + rl]);
                }
                lemma_lex_items(s, i + 2, line, col + 2, items);
                let (toks_i, line_i, col_i) = choose|
                    toks_i: Seq<SpecToken>,
                    line_i: int,
                    col_i: int,
                |
                    #![trigger lex_combine(toks_i, spec_lex_from(s, p_end, line_i, col_i))]
                    kinds_of(toks_i) == tok_items(items) && spec_lex_from(s, i + 2, line, col + 2)
                        == lex_combine(toks_i, spec_lex_from(s, p_end, line_i, col_i));
                assert(spec_lex_from(s, p_end, line_i, col_i) == spec_lex_from(
                    s,
                    p_end + 1,
                    line_i,
                    col_i + 1,
                ));
                let t2 = SpecToken {
                    token_type: SpecTokenType::CloseSquare,
                    line: line_i as nat,
                    column: (col_i + 1) as nat,
                };
                let rest = spec_lex_from(s, p_end + 2, line_i, col_i + 2);
                assert(spec_lex_from(s, p_end + 1, line_i, col_i + 1) == prepend_token(t2, rest));
                lemma_prepend_is_combine(t2, rest);
                lemma_combine_assoc(toks_i, seq![t2], rest);
                lemma_prepend_is_combine(t1, lex_combine(toks_i + seq![t2], rest));
                lemma_combine_assoc(seq![t1], toks_i + seq![t2], rest);
                let toks = seq![t1] + (toks_i + seq![t2]);
                lemma_kinds_concat(toks_i, seq![t2]);
                lemma_kinds_concat(seq![t1], toks_i + seq![t2]);
                assert(kinds_of(seq![t1]) =~= seq![SpecTokenType::OpenSquare]);
                assert(kinds_of(seq![t2]) =~= seq![SpecTokenType::CloseSquare]);
                assert(kinds_of(toks) == tok_value(v)) by {
                    assert(seq![SpecTokenType::OpenSquare] + (kinds_of(toks_i) + seq![
                        SpecTokenType::CloseSquare,
                    ]) =~= seq![SpecTokenType::OpenSquare] + tok_items(items) + seq![
                        SpecTokenType::CloseSquare,
                    ]);
                }
                assert(p_end + 2 == i + render_value(v).len());
                assert(kinds_of(toks) == tok_value(v) && spec_lex_from(s, i, line, col)
                    == lex_combine(
                    toks,
                    spec_lex_from(s, i + render_value(v).len(), line_i, col_i + 2),
                ));
            }
        },
        SpecValue::Obj { entries } => {
            reveal_strlit("{ ");
            reveal_strlit(" }");
            assert(s[i + 0] == w[0]);
            let re = render_entries(entries);
            let rl = re.len() as int;
            assert(w.len() == rl + 4);
            assert(s[i] == '{');
            assert(s[i + 1] == w[1]);
            let t1 = SpecToken {
                token_type: SpecTokenType::OpenCurly,
                line: line as nat,
                column: col as nat,
            };
            assert(spec_lex_from(s, i, line, col) == prepend_token(
                t1,
                spec_lex_from(s, i + 1, line, col + 1),
            ));
            assert(spec_lex_from(s, i + 1, line, col + 1) == spec_lex_from(
                s,
                i + 2,
                line,
                col + 2,
            ));
            if entries.len() == 0 {
                assert(s[i + 2] == w[2] && s[i + 3] == w[3]);
                assert(s[i + 2] == ' ' && s[i + 3] == '}');
                assert(spec_lex_from(s, i + 2, line, col + 2) == spec_lex_from(
                    s,
                    i + 3,
                    line,
                    col + 3,
                ));
                let t2 = SpecToken {
                    token_type: SpecTokenType::CloseCurly,
                    line: line as nat,
                    column: (col + 3) as nat,
                };
                let rest = spec_lex_from(s, i + 4, line, col + 4);
                assert(spec_lex_from(s, i + 3, line, col + 3) == prepend_token(t2, rest));
                lemma_prepend_is_combine(t2, rest);
                lemma_prepend_is_combine(t1, lex_combine(seq![t2], rest));
                lemma_combine_assoc(seq![t1], seq![t2], rest);
                assert(seq![t1] + seq![t2] =~= seq![t1, t2]);
                assert(kinds_of(seq![t1, t2]) =~= tok_value(v));
                assert(kinds_of(seq![t1, t2]) == tok_value(v) && spec_lex_from(s, i, line, col)
                    == lex_combine(
                    seq![t1, t2],
                    spec_lex_from(s, i + render_value(v).len(), line, col + 4),
                ));
            } else {
                assert forall|m: int| 0 <= m < re.len() implies #[trigger] s[(i + 2) + m]
                    == re[m] by {
                    assert(s[i + (2 + m)] == w[2 + m]);
                    assert(w[2 + m] == re[m]);
                }
                let p_end = i + 2 + rl;
                assert(s[p_end] == ' ') by {
                    assert(s[i + (2 + rl)] == w[2 + rl]);
                }
                assert(s[p_end + 1] == '}') by {
                    assert(s[i + (3 + rl)] == w[3 + rl]);
                }
                lemma_lex_entries(s, i + 2, line, col + 2, entries);
                let (toks_e, line_e, col_e) = choose|
                    toks_e: Seq<SpecToken>,
                    line_e: int,
                    col_e: int,
                |
                    #![trigger lex_combine(toks_e, spec_lex_from(s, p_end, line_e, col_e))]
                    kinds_of(toks_e) == tok_entries(entries) && spec_lex_from(
                        s,
                        i + 2,
                        line,
                        col + 2,
                    ) == lex_combine(toks_e, spec_lex_from(s, p_end, line_e, col_e));
                assert(spec_lex_from(s, p_end, line_e, col_e) == spec_lex_from(
                    s,
                    p_end + 1,
                    line_e,
                    col_e + 1,
                ));
                let t2 = SpecToken {
                    token_type: SpecTokenType::CloseCurly,
                    line: line_e as nat,
                    column: (col_e + 1) as nat,
                };
                let rest = spec_lex_from(s, p_end + 2, line_e, col_e + 2);
                assert(spec_lex_from(s, p_end + 1, line_e, col_e + 1) == prepend_token(t2, rest));
                lemma_prepend_is_combine(t2, rest);
                lemma_combine_assoc(toks_e, seq![t2], rest);
                lemma_prepend_is_combine(t1, lex_combine(toks_e + seq![t2], rest));
                lemma_combine_assoc(seq![t1], toks_e + seq![t2], rest);
                let toks = seq![t1] + (toks_e + seq![t2]);
                lemma_kinds_concat(toks_e, seq![t2]);
                lemma_kinds_concat(seq![t1], toks_e + seq![t2]);
                assert(kinds_of(seq![t1]) =~= seq![SpecTokenType::OpenCurly]);
                assert(kinds_of(seq![t2]) =~= seq![SpecTokenType::CloseCurly]);
                assert(kinds_of(toks) == tok_value(v)) by {
                    assert(seq![SpecTokenType::OpenCurly] + (kinds_of(toks_e) + seq![
                        SpecTokenType::CloseCurly,
                    ]) =~= seq![SpecTokenType::OpenCurly] + tok_entries(entries) + seq![
                        SpecTokenType::CloseCurly,
                    ]);
                }
                assert(p_end + 2 == i + render_value(v).len());
                assert(kinds_of(toks) == tok_value(v) && spec_lex_from(s, i, line, col)
                    == lex_combine(
                    toks,
                    spec_lex_from(s, i + render_value(v).len(), line_e, col_e + 2),
                ));
            }
        },
    }
}

/// The text half of the round trip, for the items of a non-empty array:
/// the lexer, standing on the items' rendering with a breaking character
/// after it, produces the items' tokens with a comma token between
/// consecutive items.
proof fn lemma_lex_items(s: Seq<char>, p: int, line: int, col: int, items: Seq<SpecValue>)
    requires
        items.len() >= 1,
        wf_items(items),
        text_at(s, p, render_items(items)),
        p + render_items(items).len() < s.len(),
        is_num_breaker(s[p + render_items(items).len()]),
    ensures
        exists|toks: Seq<SpecToken>, line2: int, col2: int|
            #![trigger lex_combine(
                toks,
                spec_lex_from(s, p + render_items(items).len(), line2, col2),
            )]
            kinds_of(toks) == tok_items(items) && spec_lex_from(s, p, line, col) == lex_combine(
                toks,
                spec_lex_from(s, p + render_items(items).len(), line2, col2),
            ),
    decreases items,
{
    let head = items[0];
    let rh = render_value(head);
    let ri = render_items(items);
    if items.len() == 1 {
        assert(ri == rh);
        lemma_lex_value(s, p, line, col, head);
    } else {
        reveal_strlit(", ");
        let rest_items = items.subrange(1, items.len() as int);
        let rr = render_items(rest_items);
        assert(ri == rh + ", "@ + rr);
        assert(text_at(s, p, rh)) by {
            assert forall|m: int| 0 <= m < rh.len() implies #[trigger] s[p + m] == rh[m] by {
                assert(s[p + m] == ri[m]);
            }
        }
        let q = p + rh.len() as int;
        assert(s[q] == ',') by {
            assert(s[p + rh.len() as int] == ri[rh.len() as int]);
        }
        assert(s[q + 1] == ' ') by {
            assert(s[p + (rh.len() + 1) as int] == ri[(rh.len() + 1) as int]);
        }
        lemma_lex_value(s, p, line, col, head);
        let (toks1, lh, ch) = choose|toks1: Seq<SpecToken>, lh: int, ch: int|
            #![trigger lex_combine(toks1, spec_lex_from(s, q, lh, ch))]
            kinds_of(toks1) == tok_value(head) && spec_lex_from(s, p, line, col) == lex_combine(
                toks1,
                spec_lex_from(s, q, lh, ch),
            );
        let tc = SpecToken {
            token_type: SpecTokenType::Comma,
            line: lh as nat,
            column: ch as nat,
        };
        assert(spec_lex_from(s, q, lh, ch) == prepend_token(
            tc,
            spec_lex_from(s, q + 1, lh, ch + 1),
        ));
        assert(spec_lex_from(s, q + 1, lh, ch + 1) == spec_lex_from(s, q + 2, lh, ch + 2));
        assert(text_at(s, q + 2, rr)) by {
            assert forall|m: int| 0 <= m < rr.len() implies #[trigger] s[(q + 2) + m] == rr[m] by {
                assert(s[p + (rh.len() + 2 + m)] == ri[(rh.len() + 2 + m) as int]);
            }
        }
        assert((q + 2) + rr.len() == p + ri.len());
        lemma_lex_items(s, q + 2, lh, ch + 2, rest_items);
        let (toks2, l3, c3) = choose|toks2: Seq<SpecToken>, l3: int, c3: int|
            #![trigger lex_combine(toks2, spec_lex_from(s, p + ri.len(), l3, c3))]
            kinds_of(toks2) == tok_items(rest_items) && spec_lex_from(s, q + 2, lh, ch + 2)
                == lex_combine(toks2, spec_lex_from(s, p + ri.len(), l3, c3));
        lemma_prepend_is_combine(tc, spec_lex_from(s, q + 1, lh, ch + 1));
        lemma_combine_assoc(seq![tc], toks2, spec_lex_from(s, p + ri.len(), l3, c3));
        lemma_combine_assoc(toks1, seq![tc] + toks2, spec_lex_from(s, p + ri.len(), l3, c3));
        let toks = toks1 + (seq![tc] + toks2);
        lemma_kinds_concat(seq![tc], toks2);
        lemma_kinds_concat(toks1, seq![tc] + toks2);
        assert(kinds_of(seq![tc]) =~= seq![SpecTokenType::Comma]);
        assert(kinds_of(toks) == tok_items(items)) by {
            assert(tok_value(head) + (seq![SpecTokenType::Comma] + tok_items(rest_items))
                =~= tok_value(head) + seq![SpecTokenType::Comma] + tok_items(rest_items));
        }
        assert(kinds_of(toks) == tok_items(items) && spec_lex_from(s, p, line, col)
            == lex_combine(toks, spec_lex_from(s, p + render_items(items).len(), l3, c3)));
    }
}

/// The text half of the round trip, for the entries of a non-empty
/// object: the lexer, standing on the entries' rendering with a breaking
/// character after it, produces for each entry its key string token, a
/// colon token and the value's tokens, with a comma token between
/// consecutive entries.
proof fn lemma_lex_entries(
    s: Seq<char>,
    p: int,
    line: int,
    col: int,
    entries: Seq<(Seq<char>, SpecValue)>,
)
    requires
        entries.len() >= 1,
        wf_entries(entries),
        text_at(s, p, render_entries(entries)),
        p + render_entries(entries).len() < s.len(),
        is_num_breaker(s[p + render_entries(entries).len()]),
    ensures
        exists|toks: Seq<SpecToken>, line2: int, col2: int|
            #![trigger lex_combine(
                toks,
                spec_lex_from(s, p + render_entries(entries).len(), line2, col2),
            )]
            kinds_of(toks) == tok_entries(entries) && spec_lex_from(s, p, line, col)
                == lex_combine(
                toks,
                spec_lex_from(s, p + render_entries(entries).len(), line2, col2),
            ),
    decreases entries,
{
    let head = entries[0];
    let re = render_entry(head);
    let res = render_entries(entries);
    let follow: int = if entries.len() == 1 {
        p + res.len()
    } else {
        p + re.len()
    };
    assert(text_at(s, p, re)) by {
        if entries.len() == 1 {
            assert(res == re);
        }
        assert forall|m: int| 0 <= m < re.len() implies #[trigger] s[p + m] == re[m] by {
            assert(s[p + m] == res[m]);
        }
    }
    if entries.len() > 1 {
        reveal_strlit(", ");
        assert(s[follow] == ',') by {
            assert(s[p + re.len() as int] == res[re.len() as int]);
        }
    }
    lemma_lex_entry(s, p, line, col, head, follow);
    let (toks1, l2, c2) = choose|toks1: Seq<SpecToken>, l2: int, c2: int|
        #![trigger lex_combine(toks1, spec_lex_from(s, p + re.len(), l2, c2))]
        kinds_of(toks1) == tok_entry(head) && spec_lex_from(s, p, line, col) == lex_combine(
            toks1,
            spec_lex_from(s, p + re.len(), l2, c2),
        );
    if entries.len() == 1 {
        assert(res == re);
    } else {
        reveal_strlit(", ");
        let rest_entries = entries.subrange(1, entries.len() as int);
        let rr = render_entries(rest_entries);
        assert(res == re + ", "@ + rr);
        let q = p + re.len() as int;
        assert(s[q] == ',');
        assert(s[q + 1] == ' ') by {
            assert(s[p + (re.len() + 1) as int] == res[(re.len() + 1) as int]);
        }
        let tc = SpecToken {
            token_type: SpecTokenType::Comma,
            line: l2 as nat,
            column: c2 as nat,
        };
        assert(spec_lex_from(s, q, l2, c2) == prepend_token(
            tc,
            spec_lex_from(s, q + 1, l2, c2 + 1),
        ));
        assert(spec_lex_from(s, q + 1, l2, c2 + 1) == spec_lex_from(s, q + 2, l2, c2 + 2));
        assert(text_at(s, q + 2, rr)) by {
            assert forall|m: int| 0 <= m < rr.len() implies #[trigger] s[(q + 2) + m] == rr[m] by {
                assert(s[p + (re.len() + 2 + m)] == res[(re.len() + 2 + m) as int]);
            }
        }
        assert((q + 2) + rr.len() == p + res.len());
        lemma_lex_entries(s, q + 2, l2, c2 + 2, rest_entries);
        let (toks2, l3, c3) = choose|toks2: Seq<SpecToken>, l3: int, c3: int|
            #![trigger lex_combine(toks2, spec_lex_from(s, p + res.len(), l3, c3))]
            kinds_of(toks2) == tok_entries(rest_entries) && spec_lex_from(s, q + 2, l2, c2 + 2)
                == lex_combine(toks2, spec_lex_from(s, p + res.len(), l3, c3));
        lemma_prepend_is_combine(tc, spec_lex_from(s, q + 1, l2, c2 + 1));
        lemma_combine_assoc(seq![tc], toks2, spec_lex_from(s, p + res.len(), l3, c3));
        lemma_combine_assoc(toks1, seq![tc] + toks2, spec_lex_from(s, p + res.len(), l3, c3));
        let toks = toks1 + (seq![tc] + toks2);
        lemma_kinds_concat(seq![tc], toks2);
        lemma_kinds_concat(toks1, seq![tc] + toks2);
        assert(kinds_of(seq![tc]) =~= seq![SpecTokenType::Comma]);
        assert(kinds_of(toks) == tok_entries(entries)) by {
            assert(tok_entry(head) + (seq![SpecTokenType::Comma] + tok_entries(rest_entries))
                =~= tok_entry(head) + seq![SpecTokenType::Comma] + tok_entries(rest_entries));
        }
        assert(kinds_of(toks) == tok_entries(entries) && spec_lex_from(s, p, line, col)
            == lex_combine(toks, spec_lex_from(s, p + render_entries(entries).len(), l3, c3)));
    }
}

/// The text half of the round trip, for one object entry: the lexer,
/// standing on the entry's rendering, produces the key string token, a
/// colon token and the value's tokens.  `follow` is the position right
/// after the entry; the character there (or the end of the input) must
/// not extend a number literal.
proof fn lemma_lex_entry(
    s: Seq<char>,
    p: int,
    line: int,
    col: int,
    e: (Seq<char>, SpecValue),
    follow: int,
)
    requires
        wf_text(e.0),
        wf_value(e.1),
        text_at(s, p, render_entry(e)),
        follow == p + render_entry(e).len(),
        follow == s.len() || is_num_breaker(s[follow]),
    ensures
        exists|toks: Seq<SpecToken>, line2: int, col2: int|
            #![trigger lex_combine(
                toks,
                spec_lex_from(s, p + render_entry(e).len(), line2, col2),
            )]
            kinds_of(toks) == tok_entry(e) && spec_lex_from(s, p, line, col) == lex_combine(
                toks,
                spec_lex_from(s, p + render_entry(e).len(), line2, col2),
            ),
    decreases e,
{
    reveal_strlit("\"");
    reveal_strlit(": ");
    let key = e.0;
    let klen = key.len() as int;
    let re = render_entry(e);
    let rv = render_value(e.1);
    assert(re == "\""@ + key + "\""@ + ": "@ + rv);
    assert(re.len() == klen + 4 + rv.len());
    assert(s[p + 0] == re[0]);
    assert(s[p] == '"');
    assert forall|m: int| 0 <= m < key.len() - 0 implies #[trigger] s[(p + 1) + m]
        == key[0 + m] by {
        assert(s[p + (1 + m)] == re[1 + m]);
        assert(re[1 + m] == key[m]);
    }
    assert(s[(p + 1) + klen] == '"') by {
        assert(s[p + (1 + klen)] == re[1 + klen]);
    }
    assert(Seq::<char>::empty() =~= key.subrange(0, 0));
    lemma_scan_string_clean(s, p + 1, line, col + 1, key, 0, false);
    let scanned = scan_string(s, p + 1, line, col + 1, false, Seq::empty());
    assert(scanned matches Ok(r) && r.0 == key && r.1 == p + klen + 2);
    let r = scanned->Ok_0;
    let tk = SpecToken {
        token_type: SpecTokenType::Str { text: key },
        line: line as nat,
        column: col as nat,
    };
    let q = p + klen + 2;
    let lq = r.2;
    let cq = r.3;
    assert(spec_lex_from(s, p, line, col) == prepend_token(tk, spec_lex_from(s, q, lq, cq)));
    assert(s[q] == ':') by {
        assert(s[p + (klen + 2)] == re[klen + 2]);
    }
    assert(s[q + 1] == ' ') by {
        assert(s[p + (klen + 3)] == re[klen + 3]);
    }
    let tc = SpecToken {
        token_type: SpecTokenType::Colon,
        line: lq as nat,
        column: cq as nat,
    };
    assert(spec_lex_from(s, q, lq, cq) == prepend_token(
        tc,
        spec_lex_from(s, q + 1, lq, cq + 1),
    ));
    assert(spec_lex_from(s, q + 1, lq, cq + 1) == spec_lex_from(s, q + 2, lq, cq + 2));
    assert(text_at(s, q + 2, rv)) by {
        assert forall|m: int| 0 <= m < rv.len() implies #[trigger] s[(q + 2) + m] == rv[m] by {
            assert(s[p + (klen + 4 + m)] == re[klen + 4 + m]);
        }
    }
    assert((q + 2) + rv.len() == follow);
    lemma_lex_value(s, q + 2, lq, cq + 2, e.1);
    let (toksv, l3, c3) = choose|toksv: Seq<SpecToken>, l3: int, c3: int|
        #![trigger lex_combine(toksv, spec_lex_from(s, follow, l3, c3))]
        kinds_of(toksv) == tok_value(e.1) && spec_lex_from(s, q + 2, lq, cq + 2) == lex_combine(
            toksv,
            spec_lex_from(s, follow, l3, c3),
        );
    lemma_prepend_is_combine(tc, spec_lex_from(s, q + 1, lq, cq + 1));
    lemma_combine_assoc(seq![tc], toksv, spec_lex_from(s, follow, l3, c3));
    lemma_prepend_is_combine(tk, spec_lex_from(s, q, lq, cq));
    lemma_combine_assoc(seq![tk], seq![tc] + toksv, spec_lex_from(s, follow, l3, c3));
    let toks = seq![tk] + (seq![tc] + toksv);
    lemma_kinds_concat(seq![tc], toksv);
    lemma_kinds_concat(seq![tk], seq![tc] + toksv);
    assert(kinds_of(seq![tk]) =~= seq![SpecTokenType::Str { text: key }]);
    assert(kinds_of(seq![tc]) =~= seq![SpecTokenType::Colon]);
    assert(kinds_of(toks) == tok_entry(e)) by {
        assert(seq![SpecTokenType::Str { text: key }] + (seq![SpecTokenType::Colon] + tok_value(
            e.1,
        )) =~= tok_entry(e));
    }
    assert(kinds_of(toks) == tok_entry(e) && spec_lex_from(s, p, line, col) == lex_combine(
        toks,
        spec_lex_from(s, p + render_entry(e).len(), l3, c3),
    ));
}

/// The token half of the round trip, whole: a token sequence carrying
/// exactly a well-formed value's token rendering parses to that value.
pub proof fn lemma_parse_tokens(ts: Seq<SpecToken>, v: SpecValue)
    requires
        wf_value(v),
        ts.len() == tok_value(v).len(),
        kinds_at(ts, 0, tok_value(v)),
    ensures
        spec_parse(ts) == Ok::<SpecValue, SpecError>(v),
{
    lemma_tok_value_first(v);
    assert(ts[0].token_type == tok_value(v)[0]);
    match v {
        SpecValue::Str { text } => {
            assert(ts.len() == 1);
        },
        SpecValue::Num { literal } => {
            assert(ts.len() == 1);
        },
        SpecValue::Bool { value } => {
            assert(ts.len() == 1);
        },
        SpecValue::Null => {
            assert(ts.len() == 1);
        },
        SpecValue::Arr { items } => {
            lemma_parse_value_tokens(ts, 0, false, v);
            assert(spec_parse_array(ts, 0) == Ok::<(SpecValue, int), SpecError>(
                (v, ts.len() as int),
            ));
        },
        SpecValue::Obj { entries } => {
            lemma_parse_value_tokens(ts, 0, false, v);
            assert(spec_parse_object(ts, 0) == Ok::<(SpecValue, int), SpecError>(
                (v, ts.len() as int),
            ));
        },
    }
}

/// Whether a token could have come out of the lexer: string payloads are
/// escape-clean and number payloads are well-formed literals.
pub open spec fn wf_token(t: SpecTokenType) -> bool {
    match t {
        SpecTokenType::Str { text } => wf_text(text),
        SpecTokenType::Num { literal } => is_number_literal(literal),
        _ => true,
    }
}

/// Every token of the sequence is well-formed.
pub open spec fn wf_tokens(ts: Seq<SpecToken>) -> bool {
    forall|k: int| 0 <= k < ts.len() ==> wf_token(#[trigger] ts[k].token_type)
}

/// A sequence of well-formed items stays well-formed when one more
/// well-formed item is appended.
proof fn lemma_wf_items_push(items: Seq<SpecValue>, v: SpecValue)
    requires
        wf_items(items),
        wf_value(v),
    ensures
        wf_items(items.push(v)),
    decreases items.len(),
{
    let pushed = items.push(v);
    if items.len() == 0 {
        reveal_with_fuel(wf_items, 2);
        assert(pushed[0] == v);
        assert(pushed.subrange(1, pushed.len() as int) =~= Seq::<SpecValue>::empty());
    } else {
        assert(pushed.subrange(1, pushed.len() as int) =~= items.subrange(
            1,
            items.len() as int,
        ).push(v));
        lemma_wf_items_push(items.subrange(1, items.len() as int), v);
    }
}

/// A sequence of well-formed entries stays well-formed when one more
/// well-formed entry is appended.
proof fn lemma_wf_entries_push(entries: Seq<(Seq<char>, SpecValue)>, e: (Seq<char>, SpecValue))
    requires
        wf_entries(entries),
        wf_text(e.0),
        wf_value(e.1),
    ensures
        wf_entries(entries.push(e)),
    decreases entries.len(),
{
    let pushed = entries.push(e);
    if entries.len() == 0 {
        reveal_with_fuel(wf_entries, 2);
        assert(pushed[0] == e);
        assert(pushed.subrange(1, pushed.len() as int) =~= Seq::<(Seq<char>, SpecValue)>::empty());
    } else {
        assert(pushed.subrange(1, pushed.len() as int) =~= entries.subrange(
            1,
            entries.len() as int,
        ).push(e));
        lemma_wf_entries_push(entries.subrange(1, entries.len() as int), e);
    }
}

/// A sequence of well-formed entries stays well-formed when one entry is
/// replaced by a well-formed entry.
proof fn lemma_wf_entries_update(
    entries: Seq<(Seq<char>, SpecValue)>,
    i: int,
    e: (Seq<char>, SpecValue),
)
    requires
        wf_entries(entries),
        0 <= i < entries.len(),
        wf_text(e.0),
        wf_value(e.1),
    ensures
        wf_entries(entries.update(i, e)),
    decreases entries.len(),
{
    let updated = entries.update(i, e);
    if i == 0 {
        assert(updated[0] == e);
        assert(updated.subrange(1, updated.len() as int) =~= entries.subrange(
            1,
            entries.len() as int,
        ));
    } else {
        assert(updated[0] == entries[0]);
        assert(updated.subrange(1, updated.len() as int) =~= entries.subrange(
            1,
            entries.len() as int,
        ).update(i - 1, e));
        lemma_wf_entries_update(entries.subrange(1, entries.len() as int), i - 1, e);
    }
}

/// Inserting a well-formed key and value into well-formed entries keeps
/// them well-formed.
proof fn lemma_wf_entries_upsert(
    entries: Seq<(Seq<char>, SpecValue)>,
    key: Seq<char>,
    value: SpecValue,
)
    requires
        wf_entries(entries),
        wf_text(key),
        wf_value(value),
    ensures
        wf_entries(upsert(entries, key, value)),
{
    lemma_find_key(entries, key);
    if find_key(entries, key) < 0 {
        lemma_wf_entries_push(entries, (key, value));
    } else {
        lemma_wf_entries_update(entries, find_key(entries, key), (key, value));
    }
}

/// Whatever text the string scanner returns is escape-clean from the
/// state the scan was in: the scanner only accepts valid escape pairs and
/// stops at the first unescaped quote.
proof fn lemma_scan_string_out_clean(
    s: Seq<char>,
    i: int,
    line: int,
    col: int,
    escape: bool,
    data: Seq<char>,
)
    ensures
        match scan_string(s, i, line, col, escape, data) {
            Ok((out, j, l2, ec)) => out.len() >= data.len() && out.subrange(0, data.len() as int)
                == data && scan_clean(out, data.len() as int, escape),
            Err(_) => true,
        },
    decreases s.len() - i,
{
    if i < 0 || i >= s.len() {
    } else {
        let c = s[i];
        let extended = data.push(c);
        if escape {
            if is_escapable(c) {
                lemma_scan_string_out_clean(s, i + 1, line, col + 1, false, extended);
                match scan_string(s, i + 1, line, col + 1, false, extended) {
                    Ok((out, j, l2, ec)) => {
                        assert(out.subrange(0, extended.len() as int)[data.len() as int]
                            == out[data.len() as int]);
                        assert(out[data.len() as int] == c);
                        assert(out.subrange(0, data.len() as int) =~= data);
                    },
                    Err(_) => {},
                }
            }
        } else if c == '\\' {
            lemma_scan_string_out_clean(s, i + 1, line, col + 1, true, extended);
            match scan_string(s, i + 1, line, col + 1, true, extended) {
                Ok((out, j, l2, ec)) => {
                    assert(out.subrange(0, extended.len() as int)[data.len() as int]
                        == out[data.len() as int]);
                    assert(out[data.len() as int] == c);
                    assert(out.subrange(0, data.len() as int) =~= data);
                },
                Err(_) => {},
            }
        } else if c == '"' {
            assert(data.subrange(0, data.len() as int) =~= data);
        } else if c == '\n' {
            lemma_scan_string_out_clean(s, i + 1, line + 1, 1, false, extended);
            match scan_string(s, i + 1, line + 1, 1, false, extended) {
                Ok((out, j, l2, ec)) => {
                    assert(out.subrange(0, extended.len() as int)[data.len() as int]
                        == out[data.len() as int]);
                    assert(out[data.len() as int] == c);
                    assert(out.subrange(0, data.len() as int) =~= data);
                },
                Err(_) => {},
            }
        } else if c == '\r' {
            lemma_scan_string_out_clean(s, i + 1, line, col, false, extended);
            match scan_string(s, i + 1, line, col, false, extended) {
                Ok((out, j, l2, ec)) => {
                    assert(out.subrange(0, extended.len() as int)[data.len() as int]
                        == out[data.len() as int]);
                    assert(out[data.len() as int] == c);
                    assert(out.subrange(0, data.len() as int) =~= data);
                },
                Err(_) => {},
            }
        } else {
            lemma_scan_string_out_clean(s, i + 1, line, col + 1, false, extended);
            match scan_string(s, i + 1, line, col + 1, false, extended) {
                Ok((out, j, l2, ec)) => {
                    assert(out.subrange(0, extended.len() as int)[data.len() as int]
                        == out[data.len() as int]);
                    assert(out[data.len() as int] == c);
                    assert(out.subrange(0, data.len() as int) =~= data);
                },
                Err(_) => {},
            }
        }
    }
}

/// Every token the lexer produces is well-formed: string payloads are
/// escape-clean and number literals pass the number grammar.
proof fn lemma_lex_wf(s: Seq<char>, i: int, line: int, col: int)
    ensures
        match spec_lex_from(s, i, line, col) {
            Ok(ts) => wf_tokens(ts),
            Err(_) => true,
        },
    decreases s.len() - i,
{
    if i < 0 || i >= s.len() {
        assert(match spec_lex_from(s, i, line, col) {
            Ok(ts) => wf_tokens(ts),
            Err(_) => true,
        });
    } else {
        let c = s[i];
        if c == '"' {
            match scan_string(s, i + 1, line, col + 1, false, Seq::empty()) {
                Ok((data, j, line2, col2)) => {
                    if i < j <= s.len() {
                        lemma_scan_string_out_clean(s, i + 1, line, col + 1, false, Seq::empty());
                        assert(wf_text(data));
                        lemma_lex_wf(s, j, line2, col2);
                        lemma_prepend_wf(
                            SpecToken {
                                token_type: SpecTokenType::Str { text: data },
                                line: line as nat,
                                column: col as nat,
                            },
                            spec_lex_from(s, j, line2, col2),
                        );
                    }
                },
                Err(_) => {},
            }
        } else if is_digit(c) || c == '-' || c == '.' || c == 'e' || c == 'E' {
            match scan_number(s, i, line, col, Seq::empty()) {
                Ok((data, j, endcol)) => {
                    if is_number_literal(data) && i < j <= s.len() {
                        lemma_lex_wf(s, j, line, endcol);
                        lemma_prepend_wf(
                            SpecToken {
                                token_type: SpecTokenType::Num { literal: data },
                                line: line as nat,
                                column: col as nat,
                            },
                            spec_lex_from(s, j, line, endcol),
                        );
                    }
                },
                Err(_) => {},
            }
        } else if crate::lexer::is_true_at(s, i) {
            lemma_lex_wf(s, i + 4, line, col + 4);
            lemma_prepend_wf(
                SpecToken {
                    token_type: SpecTokenType::Bool { value: true },
                    line: line as nat,
                    column: col as nat,
                },
                spec_lex_from(s, i + 4, line, col + 4),
            );
        } else if crate::lexer::is_false_at(s, i) {
            lemma_lex_wf(s, i + 5, line, col + 5);
            lemma_prepend_wf(
                SpecToken {
                    token_type: SpecTokenType::Bool { value: false },
                    line: line as nat,
                    column: col as nat,
                },
                spec_lex_from(s, i + 5, line, col + 5),
            );
        } else if crate::lexer::is_null_at(s, i) {
            lemma_lex_wf(s, i + 4, line, col + 4);
            lemma_prepend_wf(
                SpecToken {
                    token_type: SpecTokenType::Null,
                    line: line as nat,
                    column: col as nat,
                },
                spec_lex_from(s, i + 4, line, col + 4),
            );
        } else if c == ' ' || c == '\t' {
            lemma_lex_wf(s, i + 1, line, col + 1);
        } else if c == '\r' {
            lemma_lex_wf(s, i + 1, line, col);
        } else if c == '\n' {
            lemma_lex_wf(s, i + 1, line + 1, 1);
        } else if c == '{' || c == '}' || c == '[' || c == ']' || c == ',' || c == ':' {
            lemma_lex_wf(s, i + 1, line, col + 1);
            let token_type = if c == '{' {
                SpecTokenType::OpenCurly
            } else if c == '}' {
                SpecTokenType::CloseCurly
            } else if c == '[' {
                SpecTokenType::OpenSquare
            } else if c == ']' {
                SpecTokenType::CloseSquare
            } else if c == ',' {
                SpecTokenType::Comma
            } else {
                SpecTokenType::Colon
            };
            lemma_prepend_wf(
                SpecToken { token_type, line: line as nat, column: col as nat },
                spec_lex_from(s, i + 1, line, col + 1),
            );
        } else {
        }
    }
}

/// Prepending a well-formed token to a well-formed rest keeps the whole
/// sequence well-formed.
proof fn lemma_prepend_wf(token: SpecToken, rest: Result<Seq<SpecToken>, SpecError>)
    requires
        wf_token(token.token_type),
        rest matches Ok(ts) ==> wf_tokens(ts),
    ensures
        prepend_token(token, rest) matches Ok(ts) ==> wf_tokens(ts),
{
    match rest {
        Ok(ts) => {
            let whole = seq![token] + ts;
            assert forall|k: int| 0 <= k < whole.len() implies wf_token(
                #[trigger] whole[k].token_type,
            ) by {
                if k > 0 {
                    assert(whole[k] == ts[k - 1]);
                }
            }
        },
        Err(_) => {},
    }
}

/// Every value the parser builds from well-formed tokens is well-formed.
proof fn lemma_parse_value_wf(ts: Seq<SpecToken>, i: int, in_object: bool)
    requires
        wf_tokens(ts),
    ensures
        spec_parse_value(ts, i, in_object) matches Ok(p) ==> wf_value(p.0),
    decreases ts.len() - i, 1int,
{
    if 0 <= i < ts.len() {
        assert(wf_token(ts[i].token_type));
        match ts[i].token_type {
            SpecTokenType::OpenSquare => {
                lemma_parse_array_wf(ts, i);
            },
            SpecTokenType::OpenCurly => {
                lemma_parse_object_wf(ts, i);
            },
            _ => {},
        }
    }
}

/// Every array the parser builds from well-formed tokens is well-formed.
proof fn lemma_parse_array_wf(ts: Seq<SpecToken>, i: int)
    ensures
        wf_tokens(ts) ==> (spec_parse_array(ts, i) matches Ok(p) ==> wf_value(p.0)),
    decreases ts.len() - i, 0int,
{
    if wf_tokens(ts) && 0 <= i < ts.len() && ts[i].token_type is OpenSquare {
        if i + 1 < ts.len() && ts[i + 1].token_type is CloseSquare {
        } else {
            lemma_parse_array_items_wf(ts, i + 1, Seq::empty());
        }
    }
}

/// Every array the parser assembles item by item from well-formed tokens
/// and well-formed accumulated items is well-formed.
proof fn lemma_parse_array_items_wf(ts: Seq<SpecToken>, j: int, acc: Seq<SpecValue>)
    ensures
        wf_tokens(ts) && wf_items(acc) ==> (spec_parse_array_items(ts, j, acc) matches Ok(p)
            ==> wf_value(p.0)),
    decreases ts.len() - j, 2int,
{
    if wf_tokens(ts) && wf_items(acc) && 0 <= j < ts.len() && is_value_start(ts[j].token_type) {
        lemma_parse_value_wf(ts, j, false);
        match spec_parse_value(ts, j, false) {
            Err(_) => {},
            Ok((v, j2)) => {
                lemma_wf_items_push(acc, v);
                if j2 >= ts.len() {
                } else if ts[j2].token_type is CloseSquare {
                } else if ts[j2].token_type is Comma {
                    if j < j2 + 1 {
                        lemma_parse_array_items_wf(ts, j2 + 1, acc.push(v));
                    }
                } else {
                }
            },
        }
    }
}

/// Every object the parser builds from well-formed tokens is well-formed.
proof fn lemma_parse_object_wf(ts: Seq<SpecToken>, i: int)
    ensures
        wf_tokens(ts) ==> (spec_parse_object(ts, i) matches Ok(p) ==> wf_value(p.0)),
    decreases ts.len() - i, 0int,
{
    if wf_tokens(ts) && 0 <= i < ts.len() && ts[i].token_type is OpenCurly {
        if i + 1 < ts.len() && ts[i + 1].token_type is CloseCurly {
            assert(unique_keys(Seq::<(Seq<char>, SpecValue)>::empty()));
        } else {
            lemma_parse_object_items_wf(ts, i + 1, Seq::empty());
        }
    }
}

/// Every object the parser assembles entry by entry from well-formed
/// tokens and well-formed, uniquely keyed accumulated entries is
/// well-formed.
proof fn lemma_parse_object_items_wf(
    ts: Seq<SpecToken>,
    j: int,
    entries: Seq<(Seq<char>, SpecValue)>,
)
    ensures
        wf_tokens(ts) && wf_entries(entries) && unique_keys(entries) ==> (spec_parse_object_items(
            ts,
            j,
            entries,
        ) matches Ok(p) ==> wf_value(p.0)),
    decreases ts.len() - j, 2int,
{
    if wf_tokens(ts) && wf_entries(entries) && unique_keys(entries) && 0 <= j < ts.len() {
        match ts[j].token_type {
            SpecTokenType::Str { text: key } => {
                assert(wf_token(ts[j].token_type));
                if j + 1 < ts.len() && ts[j + 1].token_type is Colon && j + 2 < ts.len()
                    && is_value_start(ts[j + 2].token_type) {
                    lemma_parse_value_wf(ts, j + 2, true);
                    match spec_parse_value(ts, j + 2, true) {
                        Err(_) => {},
                        Ok((v, j3)) => {
                            lemma_wf_entries_upsert(entries, key, v);
                            crate::json_object::lemma_upsert_unique(entries, key, v);
                            if j3 >= ts.len() {
                            } else if ts[j3].token_type is CloseCurly {
                            } else if ts[j3].token_type is Comma {
                                if j < j3 + 1 {
                                    lemma_parse_object_items_wf(
                                        ts,
                                        j3 + 1,
                                        upsert(entries, key, v),
                                    );
                                }
                            } else {
                            }
                        },
                    }
                }
            },
            _ => {},
        }
    }
}

/// Every value tree that parsing source text produces is well-formed, so
/// the round-trip law applies to it.
pub proof fn lemma_parse_text_wf(s: Seq<char>)
    ensures
        crate::spec_parse_text(s) matches Ok(v) ==> wf_value(v),
{
    match spec_lex(s) {
        Ok(ts) => {
            lemma_lex_wf(s, 0, 1, 1);
            if ts.len() > 0 {
                match ts[0].token_type {
                    SpecTokenType::OpenSquare => {
                        lemma_parse_array_wf(ts, 0);
                    },
                    SpecTokenType::OpenCurly => {
                        lemma_parse_object_wf(ts, 0);
                    },
                    _ => {
                        assert(wf_token(ts[0].token_type));
                    },
                }
            }
        },
        Err(_) => {},
    }
}

/// Parse, render, parse again: rendering a parsed tree and parsing the
/// rendering gives the same tree back.
pub proof fn lemma_parse_render_stable(s: Seq<char>, v: SpecValue)
    requires
        crate::spec_parse_text(s) == Ok::<SpecValue, SpecError>(v),
    ensures
        crate::spec_parse_text(render_value(v)) == Ok::<SpecValue, SpecError>(v),
{
    lemma_parse_text_wf(s);
    lemma_parse_render_roundtrip(v);
}

/// The round-trip law: for any well-formed value tree, parsing its
/// compact rendering gives back a tree equal to it — same tags, same
/// string and number payloads, same element order, same entry order.
pub proof fn lemma_parse_render_roundtrip(v: SpecValue)
    requires
        wf_value(v),
    ensures
        crate::spec_parse_text(render_value(v)) == Ok::<SpecValue, SpecError>(v),
{
    let s = render_value(v);
    lemma_lex_value(s, 0, 1, 1, v);
    let (toks, line2, col2) = choose|toks: Seq<SpecToken>, line2: int, col2: int|
        #![trigger lex_combine(
            toks,
            spec_lex_from(s, 0 + render_value(v).len() as int, line2, col2),
        )]
        kinds_of(toks) == tok_value(v) && spec_lex_from(s, 0, 1, 1) == lex_combine(
            toks,
            spec_lex_from(s, 0 + render_value(v).len() as int, line2, col2),
        );
    assert(spec_lex_from(s, s.len() as int, line2, col2) == Ok::<Seq<SpecToken>, SpecError>(
        Seq::empty(),
    ));
    assert(toks + Seq::<SpecToken>::empty() =~= toks);
    assert(spec_lex(s) == Ok::<Seq<SpecToken>, SpecError>(toks));
    assert(toks.len() == tok_value(v).len());
    assert(kinds_at(toks, 0, tok_value(v))) by {
        assert forall|k: int| 0 <= k < tok_value(v).len() implies toks[0 + k].token_type
            == tok_value(v)[k] by {
            assert(kinds_of(toks)[k] == toks[k].token_type);
        }
    }
    lemma_parse_tokens(toks, v);
}

} // verus!
