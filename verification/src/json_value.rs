//! The JSON value tree: a closed tagged union of the six JSON types,
//! together with its mathematical model and the compact rendering
//! specification.

use vstd::prelude::*;
use crate::json_array::JSONArray;
use crate::json_boolean::JSONBoolean;
use crate::json_null::JSONNull;
use crate::json_number::JSONNumber;
use crate::json_object::JSONObject;
use crate::json_string::JSONString;

verus! {

/// The mathematical model of a JSON value tree.
///
/// String payloads keep escape sequences in their two-character source
/// form; number payloads are the decimal source literal; object entries
/// are ordered key/value pairs, first insertion first.
pub enum SpecValue {
    Str { text: Seq<char> },
    Num { literal: Seq<char> },
    Bool { value: bool },
    Null,
    Arr { items: Seq<SpecValue> },
    Obj { entries: Seq<(Seq<char>, SpecValue)> },
}

/// The compact rendering of a value: a single space after `{` and `[` and
/// before `}` and `]`, and one after each `:` and `,`.  An empty container
/// renders with two spaces between its brackets.
pub open spec fn render_value(v: SpecValue) -> Seq<char>
    decreases v,
{
    match v {
        SpecValue::Str { text } => "\""@ + text + "\""@,
        SpecValue::Num { literal } => literal,
        SpecValue::Bool { value } => if value {
            "true"@
        } else {
            "false"@
        },
        SpecValue::Null => "null"@,
        SpecValue::Arr { items } => "[ "@ + render_items(items) + " ]"@,
        SpecValue::Obj { entries } => "{ "@ + render_entries(entries) + " }"@,
    }
}

/// The compact rendering of an array's items, separated by `, `.
pub open spec fn render_items(items: Seq<SpecValue>) -> Seq<char>
    decreases items,
{
    if items.len() == 0 {
        Seq::empty()
    } else if items.len() == 1 {
        render_value(items[0])
    } else {
        render_value(items[0]) + ", "@ + render_items(items.subrange(1, items.len() as int))
    }
}

/// The compact rendering of one object entry: the quoted key, a colon and
/// a space, then the value.
pub open spec fn render_entry(entry: (Seq<char>, SpecValue)) -> Seq<char>
    decreases entry,
{
    "\""@ + entry.0 + "\""@ + ": "@ + render_value(entry.1)
}

/// The compact rendering of an object's entries, separated by `, `.
pub open spec fn render_entries(entries: Seq<(Seq<char>, SpecValue)>) -> Seq<char>
    decreases entries,
{
    if entries.len() == 0 {
        Seq::empty()
    } else if entries.len() == 1 {
        render_entry(entries[0])
    } else {
        render_entry(entries[0]) + ", "@ + render_entries(
            entries.subrange(1, entries.len() as int),
        )
    }
}

/// Rendering an item sequence extended by one more item appends a
/// separator (unless the sequence was empty) and the new item's rendering.
pub proof fn lemma_render_items_push(items: Seq<SpecValue>, v: SpecValue)
    ensures
        render_items(items.push(v)) == if items.len() == 0 {
            render_value(v)
        } else {
            render_items(items) + ", "@ + render_value(v)
        },
    decreases items.len(),
{
    let pushed = items.push(v);
    if items.len() == 0 {
        assert(pushed[0] == v);
    } else {
        assert(pushed.subrange(1, pushed.len() as int) =~= items.subrange(
            1,
            items.len() as int,
        ).push(v));
        lemma_render_items_push(items.subrange(1, items.len() as int), v);
    }
}

/// Rendering an entry sequence extended by one more entry appends a
/// separator (unless the sequence was empty) and the new entry's rendering.
pub proof fn lemma_render_entries_push(entries: Seq<(Seq<char>, SpecValue)>, e: (Seq<char>, SpecValue))
    ensures
        render_entries(entries.push(e)) == if entries.len() == 0 {
            render_entry(e)
        } else {
            render_entries(entries) + ", "@ + render_entry(e)
        },
    decreases entries.len(),
{
    let pushed = entries.push(e);
    if entries.len() == 0 {
        assert(pushed[0] == e);
    } else {
        assert(pushed.subrange(1, pushed.len() as int) =~= entries.subrange(
            1,
            entries.len() as int,
        ).push(e));
        lemma_render_entries_push(entries.subrange(1, entries.len() as int), e);
    }
}

/// A run of `n` spaces (none for a negative `n`).
pub open spec fn pad_seq(n: int) -> Seq<char> {
    Seq::new(
        if n < 0 {
            0
        } else {
            n as nat
        },
        |i: int| ' ',
    )
}

/// The nesting height of a value: scalars have height 0, a container is
/// one higher than its deepest child.
pub open spec fn spec_height(v: SpecValue) -> nat
    decreases v,
{
    match v {
        SpecValue::Arr { items } => 1 + spec_height_items(items),
        SpecValue::Obj { entries } => 1 + spec_height_entries(entries),
        _ => 0,
    }
}

/// The greatest height among a sequence of values.
pub open spec fn spec_height_items(items: Seq<SpecValue>) -> nat
    decreases items,
{
    if items.len() == 0 {
        0
    } else {
        let head = spec_height(items[0]);
        let rest = spec_height_items(items.subrange(1, items.len() as int));
        if head >= rest {
            head
        } else {
            rest
        }
    }
}

/// The greatest height among the values of a sequence of entries.
pub open spec fn spec_height_entries(entries: Seq<(Seq<char>, SpecValue)>) -> nat
    decreases entries,
{
    if entries.len() == 0 {
        0
    } else {
        let head = spec_height(entries[0].1);
        let rest = spec_height_entries(entries.subrange(1, entries.len() as int));
        if head >= rest {
            head
        } else {
            rest
        }
    }
}

/// No element is higher than the whole sequence.
pub proof fn lemma_height_items_index(items: Seq<SpecValue>, k: int)
    requires
        0 <= k < items.len(),
    ensures
        spec_height(items[k]) <= spec_height_items(items),
    decreases k,
{
    if k > 0 {
        lemma_height_items_index(items.subrange(1, items.len() as int), k - 1);
    }
}

/// No entry's value is higher than the whole sequence.
pub proof fn lemma_height_entries_index(entries: Seq<(Seq<char>, SpecValue)>, k: int)
    requires
        0 <= k < entries.len(),
    ensures
        spec_height(entries[k].1) <= spec_height_entries(entries),
    decreases k,
{
    if k > 0 {
        lemma_height_entries_index(entries.subrange(1, entries.len() as int), k - 1);
    }
}

/// Whether indented rendering of a value of height `h` at indent level
/// `ind` with `sp` spaces per level stays within the machine's integer
/// limits: the deepest indent level still fits an `i32` and the widest pad
/// still fits a `usize`.
pub open spec fn fmt_in_bounds(h: int, ind: int, sp: int) -> bool {
    0 <= ind && 0 <= sp && ind + 1 + h <= i32::MAX && (ind + 1 + h) * sp <= usize::MAX
}

/// Staying in bounds is inherited one container level down.
pub proof fn lemma_fmt_in_bounds_step(h: int, child: int, ind: int, sp: int)
    requires
        fmt_in_bounds(h, ind, sp),
        0 <= child,
        child + 1 <= h,
    ensures
        fmt_in_bounds(child, ind + 1, sp),
    {
    vstd::arithmetic::mul::lemma_mul_inequality(ind + 2 + child, ind + 1 + h, sp);
}

/// The indented rendering of a value.  Scalars render as in compact mode.
/// An empty container renders as its two brackets; a non-empty container
/// opens its bracket, renders each child on its own line indented one
/// level deeper with a comma after it (the last one included), and closes
/// its bracket on its own line at the parent's indent level.
pub open spec fn render_fmt(v: SpecValue, ind: int, sp: int) -> Seq<char>
    decreases v,
{
    match v {
        SpecValue::Str { text } => "\""@ + text + "\""@,
        SpecValue::Num { literal } => literal,
        SpecValue::Bool { value } => if value {
            "true"@
        } else {
            "false"@
        },
        SpecValue::Null => "null"@,
        SpecValue::Arr { items } => if items.len() == 0 {
            "[]"@
        } else {
            "["@ + render_fmt_items(items, ind, sp) + "\n"@ + pad_seq(ind * sp) + "]"@
        },
        SpecValue::Obj { entries } => if entries.len() == 0 {
            "{}"@
        } else {
            "{"@ + render_fmt_entries(entries, ind, sp) + "\n"@ + pad_seq(ind * sp) + "}"@
        },
    }
}

/// The indented rendering of an array's items: a line break, the pad one
/// level deeper, the item, and a comma — for every item.
pub open spec fn render_fmt_items(items: Seq<SpecValue>, ind: int, sp: int) -> Seq<char>
    decreases items,
{
    if items.len() == 0 {
        Seq::empty()
    } else {
        "\n"@ + pad_seq((ind + 1) * sp) + render_fmt(items[0], ind + 1, sp) + ","@
            + render_fmt_items(items.subrange(1, items.len() as int), ind, sp)
    }
}

/// The indented rendering of an object's entries: a line break, the pad
/// one level deeper, the quoted key, a colon and a space, the value, and a
/// comma — for every entry.
pub open spec fn render_fmt_entries(entries: Seq<(Seq<char>, SpecValue)>, ind: int, sp: int) -> Seq<
    char,
>
    decreases entries,
{
    if entries.len() == 0 {
        Seq::empty()
    } else {
        "\n"@ + pad_seq((ind + 1) * sp) + "\""@ + entries[0].0 + "\""@ + ": "@ + render_fmt(
            entries[0].1,
            ind + 1,
            sp,
        ) + ","@ + render_fmt_entries(entries.subrange(1, entries.len() as int), ind, sp)
    }
}

/// Appending one more item appends its line to the rendering.
pub proof fn lemma_render_fmt_items_push(items: Seq<SpecValue>, v: SpecValue, ind: int, sp: int)
    ensures
        render_fmt_items(items.push(v), ind, sp) == render_fmt_items(items, ind, sp) + ("\n"@
            + pad_seq((ind + 1) * sp) + render_fmt(v, ind + 1, sp) + ","@),
    decreases items.len(),
{
    let pushed = items.push(v);
    if items.len() == 0 {
        reveal_with_fuel(render_fmt_items, 2);
        assert(pushed[0] == v);
        assert(pushed.subrange(1, pushed.len() as int) =~= Seq::<SpecValue>::empty());
        assert(render_fmt_items(items.push(v), ind, sp) =~= render_fmt_items(items, ind, sp) + (
        "\n"@ + pad_seq((ind + 1) * sp) + render_fmt(v, ind + 1, sp) + ","@));
    } else {
        assert(pushed.subrange(1, pushed.len() as int) =~= items.subrange(
            1,
            items.len() as int,
        ).push(v));
        lemma_render_fmt_items_push(items.subrange(1, items.len() as int), v, ind, sp);
        assert(render_fmt_items(items.push(v), ind, sp) =~= render_fmt_items(items, ind, sp) + (
        "\n"@ + pad_seq((ind + 1) * sp) + render_fmt(v, ind + 1, sp) + ","@));
    }
}

/// Appending one more entry appends its line to the rendering.
pub proof fn lemma_render_fmt_entries_push(
    entries: Seq<(Seq<char>, SpecValue)>,
    e: (Seq<char>, SpecValue),
    ind: int,
    sp: int,
)
    ensures
        render_fmt_entries(entries.push(e), ind, sp) == render_fmt_entries(entries, ind, sp) + (
        "\n"@ + pad_seq((ind + 1) * sp) + "\""@ + e.0 + "\""@ + ": "@ + render_fmt(
            e.1,
            ind + 1,
            sp,
        ) + ","@),
    decreases entries.len(),
{
    let pushed = entries.push(e);
    if entries.len() == 0 {
        reveal_with_fuel(render_fmt_entries, 2);
        assert(pushed[0] == e);
        assert(pushed.subrange(1, pushed.len() as int) =~= Seq::<(Seq<char>, SpecValue)>::empty());
        assert(render_fmt_entries(entries.push(e), ind, sp) =~= render_fmt_entries(entries, ind, sp)
            + ("\n"@ + pad_seq((ind + 1) * sp) + "\""@ + e.0 + "\""@ + ": "@ + render_fmt(
            e.1,
            ind + 1,
            sp,
        ) + ","@));
    } else {
        assert(pushed.subrange(1, pushed.len() as int) =~= entries.subrange(
            1,
            entries.len() as int,
        ).push(e));
        lemma_render_fmt_entries_push(entries.subrange(1, entries.len() as int), e, ind, sp);
        assert(render_fmt_entries(entries.push(e), ind, sp) =~= render_fmt_entries(entries, ind, sp)
            + ("\n"@ + pad_seq((ind + 1) * sp) + "\""@ + e.0 + "\""@ + ": "@ + render_fmt(
            e.1,
            ind + 1,
            sp,
        ) + ","@));
    }
}

/// The type of a JSON value, each variant wrapping the value itself.
#[derive(Debug)]
pub enum JSONType {
    String(JSONString),
    Number(JSONNumber),
    Boolean(JSONBoolean),
    Null(JSONNull),
    Array(JSONArray),
    Object(JSONObject),
}

/// A JSON value: exactly one of the six JSON types.
#[derive(Debug)]
pub struct JSONValue {
    data: JSONType,
}

/// The model of a [`JSONType`].
pub closed spec fn view_type(t: JSONType) -> SpecValue
    decreases t,
{
    match t {
        JSONType::String(s) => SpecValue::Str { text: s.spec_string() },
        JSONType::Number(n) => SpecValue::Num { literal: n@ },
        JSONType::Boolean(b) => SpecValue::Bool { value: b.spec_boolean() },
        JSONType::Null(_) => SpecValue::Null,
        JSONType::Array(a) => SpecValue::Arr { items: view_items(a.data@) },
        JSONType::Object(o) => SpecValue::Obj { entries: view_entries(o.data@) },
    }
}

/// The model of a [`JSONValue`].
pub closed spec fn view_value(v: JSONValue) -> SpecValue
    decreases v,
{
    view_type(v.data)
}

/// The models of an array's elements, in order.
pub open spec fn view_items(s: Seq<JSONValue>) -> Seq<SpecValue>
    decreases s,
{
    if s.len() == 0 {
        Seq::empty()
    } else {
        seq![view_value(s[0])] + view_items(s.subrange(1, s.len() as int))
    }
}

/// The models of an object's entries, in order.
pub open spec fn view_entries(s: Seq<(String, JSONValue)>) -> Seq<(Seq<char>, SpecValue)>
    decreases s,
{
    if s.len() == 0 {
        Seq::empty()
    } else {
        seq![(s[0].0@, view_value(s[0].1))] + view_entries(s.subrange(1, s.len() as int))
    }
}

/// An element sequence and its model have the same length.
pub broadcast proof fn lemma_view_items_len(s: Seq<JSONValue>)
    ensures
        #[trigger] view_items(s).len() == s.len(),
    decreases s.len(),
{
    if s.len() > 0 {
        lemma_view_items_len(s.subrange(1, s.len() as int));
    }
}

/// The model of an element sequence is its elements' models, in order.
pub broadcast proof fn lemma_view_items_index(s: Seq<JSONValue>, i: int)
    requires
        0 <= i < s.len(),
    ensures
        #[trigger] view_items(s)[i] == view_value(s[i]),
    decreases i,
{
    lemma_view_items_len(s);
    if i > 0 {
        lemma_view_items_index(s.subrange(1, s.len() as int), i - 1);
    }
}

/// An entry sequence and its model have the same length.
pub broadcast proof fn lemma_view_entries_len(s: Seq<(String, JSONValue)>)
    ensures
        #[trigger] view_entries(s).len() == s.len(),
    decreases s.len(),
{
    if s.len() > 0 {
        lemma_view_entries_len(s.subrange(1, s.len() as int));
    }
}

/// The model of an entry sequence is its entries' models, in order.
pub broadcast proof fn lemma_view_entries_index(s: Seq<(String, JSONValue)>, i: int)
    requires
        0 <= i < s.len(),
    ensures
        #[trigger] view_entries(s)[i] == (s[i].0@, view_value(s[i].1)),
    decreases i,
{
    lemma_view_entries_len(s);
    if i > 0 {
        lemma_view_entries_index(s.subrange(1, s.len() as int), i - 1);
    }
}

/// The facts connecting element and entry sequences with their models.
pub broadcast group group_view_lemmas {
    lemma_view_items_len,
    lemma_view_items_index,
    lemma_view_entries_len,
    lemma_view_entries_index,
}

impl View for JSONType {
    type V = SpecValue;

    open spec fn view(&self) -> SpecValue {
        view_type(*self)
    }
}

impl View for JSONValue {
    type V = SpecValue;

    open spec fn view(&self) -> SpecValue {
        view_value(*self)
    }
}

impl Clone for JSONValue {
    fn clone(&self) -> (result: Self)
        ensures
            result@ == self@,
        decreases *self,
    {
        JSONValue { data: self.data.clone() }
    }
}

impl Clone for JSONType {
    fn clone(&self) -> (result: Self)
        ensures
            result@ == self@,
        decreases *self,
    {
        match self {
            JSONType::String(s) => JSONType::String(s.clone()),
            JSONType::Number(n) => JSONType::Number(n.clone()),
            JSONType::Boolean(b) => JSONType::Boolean(b.clone()),
            JSONType::Null(n) => JSONType::Null(n.clone()),
            JSONType::Array(a) => {
                let copy = a.clone();
                proof {
                    crate::json_array::lemma_array_view(a);
                    crate::json_array::lemma_array_view(&copy);
                }
                JSONType::Array(copy)
            },
            JSONType::Object(o) => {
                let copy = o.clone();
                proof {
                    crate::json_object::lemma_object_view(o);
                    crate::json_object::lemma_object_view(&copy);
                }
                JSONType::Object(copy)
            },
        }
    }
}

impl JSONValue {
    /// Whether this value is a JSON String.
    pub open spec fn spec_is_string(&self) -> bool {
        self@ matches SpecValue::Str { .. }
    }

    /// Whether this value is a JSON Number.
    pub open spec fn spec_is_number(&self) -> bool {
        self@ matches SpecValue::Num { .. }
    }

    /// Whether this value is a JSON Boolean.
    pub open spec fn spec_is_boolean(&self) -> bool {
        self@ matches SpecValue::Bool { .. }
    }

    /// Whether this value is JSON Null.
    pub open spec fn spec_is_null(&self) -> bool {
        self@ matches SpecValue::Null
    }

    /// Whether this value is a JSON Array.
    pub open spec fn spec_is_array(&self) -> bool {
        self@ matches SpecValue::Arr { .. }
    }

    /// Whether this value is a JSON Object.
    pub open spec fn spec_is_object(&self) -> bool {
        self@ matches SpecValue::Obj { .. }
    }

    /// Create a new JSON Value from a JSON String.
    pub fn from_string(json_string: JSONString) -> (result: Self)
        ensures
            result@ == (SpecValue::Str { text: json_string.spec_string() }),
    {
        JSONValue { data: JSONType::String(json_string) }
    }

    /// Create a new JSON Value from a JSON Number.
    pub fn from_number(json_number: JSONNumber) -> (result: Self)
        ensures
            result@ == (SpecValue::Num { literal: json_number@ }),
    {
        JSONValue { data: JSONType::Number(json_number) }
    }

    /// Create a new JSON Value from a JSON Boolean.
    pub fn from_boolean(json_boolean: JSONBoolean) -> (result: Self)
        ensures
            result@ == (SpecValue::Bool { value: json_boolean.spec_boolean() }),
    {
        JSONValue { data: JSONType::Boolean(json_boolean) }
    }

    /// Create a new JSON Value from a JSON Null.
    pub fn from_null(json_null: JSONNull) -> (result: Self)
        ensures
            result@ == SpecValue::Null,
    {
        JSONValue { data: JSONType::Null(json_null) }
    }

    /// Create a new JSON Value from a JSON Array.
    pub fn from_array(json_array: JSONArray) -> (result: Self)
        ensures
            result@ == (SpecValue::Arr { items: json_array@ }),
    {
        proof {
            crate::json_array::lemma_array_view(&json_array);
        }
        JSONValue { data: JSONType::Array(json_array) }
    }

    /// Create a new JSON Value from a JSON Object.
    pub fn from_object(json_object: JSONObject) -> (result: Self)
        ensures
            result@ == (SpecValue::Obj { entries: json_object@ }),
    {
        proof {
            crate::json_object::lemma_object_view(&json_object);
        }
        JSONValue { data: JSONType::Object(json_object) }
    }

    /// Get the type of the JSON Value, wrapping a copy of the value.
    pub fn get_type(&self) -> (result: JSONType)
        ensures
            result@ == self@,
    {
        self.data.clone()
    }

    /// Cast the JSON Value to a Rust owned string.  Calling this on a
    /// value that is not a JSON String is a caller error, ruled out by the
    /// precondition.
    pub fn get_string(&self) -> (result: String)
        requires
            self.spec_is_string(),
        ensures
            self@ matches SpecValue::Str { text } && result@ == text,
    {
        match &self.data {
            JSONType::String(json_string) => json_string.get_string(),
            _ => unreached(),
        }
    }

    /// Cast the JSON Value to its number literal.  Calling this on a value
    /// that is not a JSON Number is a caller error, ruled out by the
    /// precondition.
    pub fn get_number(&self) -> (result: String)
        requires
            self.spec_is_number(),
        ensures
            self@ matches SpecValue::Num { literal } && result@ == literal,
    {
        match &self.data {
            JSONType::Number(json_number) => json_number.get_number(),
            _ => unreached(),
        }
    }

    /// Cast the JSON Value to a Rust bool.  Calling this on a value that
    /// is not a JSON Boolean is a caller error, ruled out by the
    /// precondition.
    pub fn get_boolean(&self) -> (result: bool)
        requires
            self.spec_is_boolean(),
        ensures
            self@ matches SpecValue::Bool { value } && result == value,
    {
        match &self.data {
            JSONType::Boolean(json_boolean) => json_boolean.get_boolean(),
            _ => unreached(),
        }
    }

    /// Cast the JSON Value to JSON Null.  Calling this on a value that is
    /// not JSON Null is a caller error, ruled out by the precondition.
    pub fn get_null(&self) -> (result: &JSONNull)
        requires
            self.spec_is_null(),
    {
        match &self.data {
            JSONType::Null(json_null) => json_null,
            _ => unreached(),
        }
    }

    /// Cast the JSON Value to JSON Array.  Calling this on a value that is
    /// not a JSON Array is a caller error, ruled out by the precondition.
    pub fn get_array(&self) -> (result: &JSONArray)
        requires
            self.spec_is_array(),
        ensures
            self@ matches SpecValue::Arr { items } && result@ == items,
    {
        match &self.data {
            JSONType::Array(json_array) => {
                proof {
                    crate::json_array::lemma_array_view(json_array);
                }
                json_array
            },
            _ => unreached(),
        }
    }

    /// Cast the JSON Value to JSON Object.  Calling this on a value that
    /// is not a JSON Object is a caller error, ruled out by the
    /// precondition.
    pub fn get_object(&self) -> (result: &JSONObject)
        requires
            self.spec_is_object(),
        ensures
            self@ matches SpecValue::Obj { entries } && result@ == entries,
    {
        match &self.data {
            JSONType::Object(json_object) => {
                proof {
                    crate::json_object::lemma_object_view(json_object);
                }
                json_object
            },
            _ => unreached(),
        }
    }

    /// If the JSON Value is a JSON String.
    #[verifier::when_used_as_spec(spec_is_string)]
    pub fn is_string(&self) -> (result: bool)
        ensures
            result == self.spec_is_string(),
    {
        match self.data {
            JSONType::String(_) => true,
            _ => false,
        }
    }

    /// If the JSON Value is a JSON Number.
    #[verifier::when_used_as_spec(spec_is_number)]
    pub fn is_number(&self) -> (result: bool)
        ensures
            result == self.spec_is_number(),
    {
        match self.data {
            JSONType::Number(_) => true,
            _ => false,
        }
    }

    /// If the JSON Value is a JSON Boolean.
    #[verifier::when_used_as_spec(spec_is_boolean)]
    pub fn is_boolean(&self) -> (result: bool)
        ensures
            result == self.spec_is_boolean(),
    {
        match self.data {
            JSONType::Boolean(_) => true,
            _ => false,
        }
    }

    /// If the JSON Value is JSON Null.
    #[verifier::when_used_as_spec(spec_is_null)]
    pub fn is_null(&self) -> (result: bool)
        ensures
            result == self.spec_is_null(),
    {
        match self.data {
            JSONType::Null(_) => true,
            _ => false,
        }
    }

    /// If the JSON Value is a JSON Array.
    #[verifier::when_used_as_spec(spec_is_array)]
    pub fn is_array(&self) -> (result: bool)
        ensures
            result == self.spec_is_array(),
    {
        match self.data {
            JSONType::Array(_) => true,
            _ => false,
        }
    }

    /// If the JSON Value is a JSON Object.
    #[verifier::when_used_as_spec(spec_is_object)]
    pub fn is_object(&self) -> (result: bool)
        ensures
            result == self.spec_is_object(),
    {
        match self.data {
            JSONType::Object(_) => true,
            _ => false,
        }
    }

    /// Render the JSON Value as indented source text, each container
    /// entry on its own line, indented `spaces` columns per nesting level
    /// starting at level `indents`.
    pub fn format_string(&self, indents: i32, spaces: i32) -> (result: String)
        requires
            fmt_in_bounds(spec_height(self@) as int, indents as int, spaces as int),
        ensures
            result@ == render_fmt(self@, indents as int, spaces as int),
        decreases *self,
    {
        match &self.data {
            JSONType::String(json_string) => json_string.to_string(),
            JSONType::Number(json_number) => json_number.to_string(),
            JSONType::Boolean(json_boolean) => json_boolean.to_string(),
            JSONType::Null(json_null) => json_null.to_string(),
            JSONType::Array(json_array) => {
                proof {
                    crate::json_array::lemma_array_view(json_array);
                }
                json_array.format_string(indents, spaces)
            },
            JSONType::Object(json_object) => {
                proof {
                    crate::json_object::lemma_object_view(json_object);
                }
                json_object.format_string(indents, spaces)
            },
        }
    }

    /// Render the JSON Value as compact source text.
    pub fn to_string(&self) -> (result: String)
        ensures
            result@ == render_value(self@),
        decreases *self,
    {
        match &self.data {
            JSONType::String(json_string) => json_string.to_string(),
            JSONType::Number(json_number) => json_number.to_string(),
            JSONType::Boolean(json_boolean) => json_boolean.to_string(),
            JSONType::Null(json_null) => json_null.to_string(),
            JSONType::Array(json_array) => {
                let rendered = json_array.to_string();
                proof {
                    crate::json_array::lemma_array_view(json_array);
                }
                rendered
            },
            JSONType::Object(json_object) => {
                let rendered = json_object.to_string();
                proof {
                    crate::json_object::lemma_object_view(json_object);
                }
                rendered
            },
        }
    }
}

} // verus!
