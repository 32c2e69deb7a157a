//! The JSON object value: an ordered mapping from string keys to JSON
//! values.  Entries keep their insertion order; setting an existing key
//! replaces its value in place, so the last write wins without moving the
//! key.

use vstd::prelude::*;
use vstd::pervasive::VecAdditionalExecFns;
use crate::json_value::{
    fmt_in_bounds,
    lemma_fmt_in_bounds_step,
    lemma_height_entries_index,
    lemma_render_entries_push,
    lemma_render_fmt_entries_push,
    lemma_view_entries_index,
    lemma_view_entries_len,
    pad_seq,
    render_entries,
    render_entry,
    render_fmt_entries,
    spec_height,
    spec_height_entries,
    view_entries,
    JSONValue,
    SpecValue,
};
use crate::text::make_spaces;

verus! {

broadcast use
    crate::json_value::group_view_lemmas,
    vstd::std_specs::hash::axiom_random_state_builds_valid_hashers,
;

/// The index of the first entry with the given key, or `-1` when no entry
/// has it.
pub open spec fn find_key(entries: Seq<(Seq<char>, SpecValue)>, key: Seq<char>) -> int
    decreases entries.len(),
{
    if entries.len() == 0 {
        -1
    } else if entries[0].0 == key {
        0
    } else {
        let rest = find_key(entries.subrange(1, entries.len() as int), key);
        if rest < 0 {
            -1
        } else {
            rest + 1
        }
    }
}

/// Insertion into an ordered key/value sequence: an existing key keeps its
/// position and gets the new value; a new key is appended at the end.
pub open spec fn upsert(
    entries: Seq<(Seq<char>, SpecValue)>,
    key: Seq<char>,
    value: SpecValue,
) -> Seq<(Seq<char>, SpecValue)> {
    let i = find_key(entries, key);
    if i < 0 {
        entries.push((key, value))
    } else {
        entries.update(i, (key, value))
    }
}

/// Lookup in an ordered key/value sequence.
pub open spec fn spec_get(entries: Seq<(Seq<char>, SpecValue)>, key: Seq<char>) -> Option<
    SpecValue,
> {
    let i = find_key(entries, key);
    if i < 0 {
        None
    } else {
        Some(entries[i].1)
    }
}

/// No two entries share a key.
pub open spec fn unique_keys(entries: Seq<(Seq<char>, SpecValue)>) -> bool {
    forall|i: int, j: int| 0 <= i < j < entries.len() ==> entries[i].0 != entries[j].0
}

/// `find_key` returns a valid index of an entry with the key, the first
/// one, or `-1` when no entry has the key.
pub proof fn lemma_find_key(entries: Seq<(Seq<char>, SpecValue)>, key: Seq<char>)
    ensures
        -1 <= find_key(entries, key) < entries.len(),
        find_key(entries, key) >= 0 ==> entries[find_key(entries, key)].0 == key,
        forall|j: int|
            0 <= j < entries.len() && entries[j].0 == key ==> find_key(entries, key) >= 0
                && find_key(entries, key) <= j,
    decreases entries.len(),
{
    if entries.len() > 0 && entries[0].0 != key {
        let rest = entries.subrange(1, entries.len() as int);
        lemma_find_key(rest, key);
        assert forall|j: int| 0 <= j < entries.len() && entries[j].0 == key implies find_key(
            entries,
            key,
        ) >= 0 && find_key(entries, key) <= j by {
            assert(rest[j - 1] == entries[j]);
        }
    }
}

/// Insertion preserves key uniqueness.
pub proof fn lemma_upsert_unique(
    entries: Seq<(Seq<char>, SpecValue)>,
    key: Seq<char>,
    value: SpecValue,
)
    requires
        unique_keys(entries),
    ensures
        unique_keys(upsert(entries, key, value)),
{
    lemma_find_key(entries, key);
    let result = upsert(entries, key, value);
    assert forall|i: int, j: int| 0 <= i < j < result.len() implies result[i].0 != result[j].0 by {
        if find_key(entries, key) < 0 {
            if j == entries.len() {
                assert(result[j].0 == key);
                assert(entries[i].0 != key);
            }
        }
    }
}

/// Appending an entry leaves every present key at its index; an absent
/// key is found at the end exactly when the new entry carries it.
pub proof fn lemma_find_key_push(
    entries: Seq<(Seq<char>, SpecValue)>,
    e: (Seq<char>, SpecValue),
    key: Seq<char>,
)
    ensures
        find_key(entries.push(e), key) == (if find_key(entries, key) >= 0 {
            find_key(entries, key)
        } else if e.0 == key {
            entries.len() as int
        } else {
            -1
        }),
    decreases entries.len(),
{
    let pushed = entries.push(e);
    if entries.len() == 0 {
        assert(pushed[0] == e);
        assert(pushed.subrange(1, 1) =~= Seq::<(Seq<char>, SpecValue)>::empty());
        assert(find_key(Seq::<(Seq<char>, SpecValue)>::empty(), key) == -1);
    } else {
        assert(pushed[0] == entries[0]);
        assert(pushed.subrange(1, pushed.len() as int) =~= entries.subrange(
            1,
            entries.len() as int,
        ).push(e));
        lemma_find_key_push(entries.subrange(1, entries.len() as int), e, key);
    }
}

/// Looking a key up below a non-matching head entry is looking it up in
/// the tail.
pub proof fn lemma_spec_get_tail(entries: Seq<(Seq<char>, SpecValue)>, key: Seq<char>)
    requires
        entries.len() > 0,
        entries[0].0 != key,
    ensures
        spec_get(entries, key) == spec_get(entries.subrange(1, entries.len() as int), key),
{
    let rest = entries.subrange(1, entries.len() as int);
    lemma_find_key(rest, key);
    if find_key(rest, key) >= 0 {
        assert(entries[find_key(rest, key) + 1] == rest[find_key(rest, key)]);
    }
}

/// After insertion the key resolves to the new value; other keys are
/// untouched.
pub proof fn lemma_upsert_get(
    entries: Seq<(Seq<char>, SpecValue)>,
    key: Seq<char>,
    value: SpecValue,
    other: Seq<char>,
)
    ensures
        spec_get(upsert(entries, key, value), key) == Some(value),
        other != key ==> spec_get(upsert(entries, key, value), other) == spec_get(entries, other),
    decreases entries.len(),
{
    lemma_find_key(entries, key);
    let result = upsert(entries, key, value);
    if entries.len() == 0 {
        assert(result =~= seq![(key, value)]);
        assert(result[0].0 == key);
        if other != key {
            assert(result.subrange(1, 1) =~= Seq::<(Seq<char>, SpecValue)>::empty());
            lemma_spec_get_tail(result, other);
        }
    } else {
        let rest = entries.subrange(1, entries.len() as int);
        lemma_find_key(rest, key);
        if entries[0].0 == key {
            // The head entry is updated in place.
            assert(result == entries.update(0, (key, value)));
            assert(result[0].0 == key);
            if other != key {
                assert(result.subrange(1, result.len() as int) =~= rest);
                lemma_spec_get_tail(result, other);
                lemma_spec_get_tail(entries, other);
            }
        } else {
            // The head entry is untouched; the insertion happens in the tail.
            lemma_upsert_get(rest, key, value, other);
            assert(result[0] == entries[0]);
            assert(result.subrange(1, result.len() as int) =~= upsert(rest, key, value));
            lemma_spec_get_tail(result, key);
            if other != key {
                if entries[0].0 == other {
                    lemma_find_key(result, other);
                    lemma_find_key(entries, other);
                    assert(spec_get(result, other) == Some(result[0].1));
                    assert(spec_get(entries, other) == Some(entries[0].1));
                } else {
                    lemma_spec_get_tail(result, other);
                    lemma_spec_get_tail(entries, other);
                }
            }
        }
    }
}

/// A JSON object, an insertion-ordered mapping from string keys to JSON
/// values with unique keys.
#[derive(Debug)]
pub struct JSONObject {
    pub(crate) data: Vec<(String, JSONValue)>,
}

impl View for JSONObject {
    type V = Seq<(Seq<char>, SpecValue)>;

    closed spec fn view(&self) -> Seq<(Seq<char>, SpecValue)> {
        view_entries(self.data@)
    }
}

/// An object's model is the sequence of its entries' models.
pub(crate) proof fn lemma_object_view(o: &JSONObject)
    ensures
        o@ == view_entries(o.data@),
{
}

impl Clone for JSONObject {
    fn clone(&self) -> (result: Self)
        ensures
            result@ == self@,
        decreases *self,
    {
        let mut data: Vec<(String, JSONValue)> = Vec::new();
        let mut i: usize = 0;
        while i < self.data.len()
            invariant
                i <= self.data.len(),
                data@.len() == i as int,
                forall|j: int|
                    0 <= j < i ==> data@[j].0@ == self.data@[j].0@ && data@[j].1@
                        == self.data@[j].1@,
            decreases self.data.len() - i,
        {
            let entry = &self.data[i];
            let key = entry.0.clone();
            let value = entry.1.clone();
            data.push((key, value));
            i += 1;
        }
        let result = JSONObject { data };
        proof {
            assert(result@ =~= self@);
        }
        result
    }
}

impl JSONObject {
    /// Create a new empty JSON Object.
    pub fn new() -> (result: Self)
        ensures
            result@ == Seq::<(Seq<char>, SpecValue)>::empty(),
    {
        let result = JSONObject { data: Vec::new() };
        proof {
            assert(result@ =~= Seq::<(Seq<char>, SpecValue)>::empty());
        }
        result
    }

    /// Render JSON Object as compact source text: `"key": value` entries
    /// separated by `, `, between `{ ` and ` }`.
    pub fn to_string(&self) -> (result: String)
        ensures
            result@ == "{ "@ + render_entries(self@) + " }"@,
        decreases *self,
    {
        let mut result = String::from_str("{ ");
        let mut i: usize = 0;
        while i < self.data.len()
            invariant
                i <= self.data.len(),
                self@ == view_entries(self.data@),
                result@ == "{ "@ + render_entries(self@.subrange(0, i as int)),
            decreases self.data.len() - i,
        {
            let entry = &self.data[i];
            let rendered = entry.1.to_string();
            if i > 0 {
                result.append(", ");
            }
            result.append("\"");
            result.append(entry.0.as_str());
            result.append("\"");
            result.append(": ");
            result.append(rendered.as_str());
            proof {
                lemma_view_entries_len(self.data@);
                lemma_view_entries_index(self.data@, i as int);
                let prefix = self@.subrange(0, i as int);
                assert(self@.subrange(0, i as int + 1) =~= prefix.push(self@[i as int]));
                lemma_render_entries_push(prefix, self@[i as int]);
                assert(render_entry(self@[i as int]) =~= "\""@ + entry.0@ + "\""@ + ": "@
                    + rendered@);
                assert(result@ =~= "{ "@ + render_entries(self@.subrange(0, i as int + 1)));
            }
            i += 1;
        }
        result.append(" }");
        proof {
            assert(self@.subrange(0, self.data.len() as int) =~= self@);
            assert(result@ =~= "{ "@ + render_entries(self@) + " }"@);
        }
        result
    }

    /// Render JSON Object as indented source text: `{}` when empty, else
    /// each entry on its own line one level deeper as `"key": value` with
    /// a comma after every entry, and the closing bracket on its own line
    /// at this level.
    pub fn format_string(&self, indents: i32, spaces: i32) -> (result: String)
        requires
            fmt_in_bounds((1 + spec_height_entries(self@)) as int, indents as int, spaces as int),
        ensures
            result@ == (if self@.len() == 0 {
                "{}"@
            } else {
                "{"@ + render_fmt_entries(self@, indents as int, spaces as int) + "\n"@ + pad_seq(
                    (indents as int) * (spaces as int),
                ) + "}"@
            }),
        decreases *self,
    {
        let ghost ind = indents as int;
        let ghost sp = spaces as int;
        let ghost h = 1 + spec_height_entries(self@);
        let n = self.data.len();
        proof {
            lemma_view_entries_len(self.data@);
        }
        if n == 0 {
            return String::from_str("{}");
        }
        proof {
            vstd::arithmetic::mul::lemma_mul_inequality(ind + 1, ind + 1 + h, sp);
            vstd::arithmetic::mul::lemma_mul_inequality(ind, ind + 1 + h, sp);
            vstd::arithmetic::mul::lemma_mul_nonnegative(ind + 1, sp);
            vstd::arithmetic::mul::lemma_mul_nonnegative(ind, sp);
        }
        let pad = make_spaces(((indents + 1) as usize) * (spaces as usize));
        let mut result = String::from_str("{");
        let mut i: usize = 0;
        while i < n
            invariant
                n == self.data@.len(),
                self@ == view_entries(self.data@),
                self@.len() == n,
                i <= n,
                fmt_in_bounds((1 + spec_height_entries(self@)) as int, ind, sp),
                ind == indents as int,
                sp == spaces as int,
                pad@ == pad_seq((ind + 1) * sp),
                result@ == "{"@ + render_fmt_entries(self@.subrange(0, i as int), ind, sp),
            decreases n - i,
        {
            result.append("\n");
            result.append(pad.as_str());
            proof {
                lemma_view_entries_index(self.data@, i as int);
                lemma_height_entries_index(self@, i as int);
                lemma_fmt_in_bounds_step(
                    (1 + spec_height_entries(self@)) as int,
                    spec_height(self@[i as int].1) as int,
                    ind,
                    sp,
                );
            }
            let entry = &self.data[i];
            result.append("\"");
            result.append(entry.0.as_str());
            result.append("\"");
            result.append(": ");
            let rendered = entry.1.format_string(indents + 1, spaces);
            result.append(rendered.as_str());
            result.append(",");
            proof {
                let prefix = self@.subrange(0, i as int);
                assert(self@.subrange(0, i as int + 1) =~= prefix.push(self@[i as int]));
                lemma_render_fmt_entries_push(prefix, self@[i as int], ind, sp);
                assert(result@ =~= "{"@ + render_fmt_entries(
                    self@.subrange(0, i as int + 1),
                    ind,
                    sp,
                ));
            }
            i += 1;
        }
        result.append("\n");
        let closing = make_spaces((indents as usize) * (spaces as usize));
        result.append(closing.as_str());
        result.append("}");
        proof {
            assert(self@.subrange(0, n as int) =~= self@);
            assert(result@ =~= "{"@ + render_fmt_entries(self@, ind, sp) + "\n"@ + pad_seq(ind * sp)
                + "}"@);
        }
        result
    }

    /// Copy the JSON Object into a Rust `HashMap`.
    ///
    /// vstd gives `HashMap` operations meaning only under
    /// `obeys_key_model` for the key type, which it does not provide for
    /// `String`; the contract therefore holds under that hypothesis.  It
    /// also supposes unique keys, which every object built through
    /// [`Self::set`] has: then every key of the result looks up the
    /// object's value for it, and every entry's key is present.
    pub fn to_hashmap(&self) -> (result: std::collections::HashMap<String, JSONValue>)
        ensures
            vstd::std_specs::hash::obeys_key_model::<String>() && unique_keys(self@) ==> {
                &&& forall|k: String| #[trigger]
                    result@.contains_key(k) ==> spec_get(self@, k@) == Some(result@[k]@)
                &&& forall|j: int|
                    #![trigger self@[j]]
                    0 <= j < self@.len() ==> exists|k: String| #[trigger]
                        result@.contains_key(k) && k@ == self@[j].0
            },
    {
        proof {
            lemma_view_entries_len(self.data@);
        }
        let ghost model_ok = vstd::std_specs::hash::obeys_key_model::<String>() && unique_keys(
            self@,
        );
        let mut result: std::collections::HashMap<String, JSONValue> =
            std::collections::HashMap::new();
        let mut i: usize = 0;
        while i < self.data.len()
            invariant
                i <= self.data@.len(),
                self@ == view_entries(self.data@),
                self@.len() == self.data@.len(),
                vstd::std_specs::hash::builds_valid_hashers::<
                    std::collections::hash_map::RandomState,
                >(),
                model_ok == (vstd::std_specs::hash::obeys_key_model::<String>() && unique_keys(
                    self@,
                )),
                model_ok ==> forall|k: String| #[trigger]
                    result@.contains_key(k) ==> exists|j: int|
                        0 <= j < i && k == self.data@[j].0,
                model_ok ==> forall|j: int|
                    0 <= j < i ==> result@.contains_key(#[trigger] self.data@[j].0),
                model_ok ==> forall|k: String| #[trigger]
                    result@.contains_key(k) ==> spec_get(self@.subrange(0, i as int), k@) == Some(
                        result@[k]@,
                    ),
            decreases self.data@.len() - i,
        {
            proof {
                lemma_view_entries_index(self.data@, i as int);
            }
            let entry = &self.data[i];
            let key = entry.0.clone();
            let value = entry.1.clone();
            let ghost before = result@;
            result.insert(key, value);
            proof {
                if model_ok {
                    let prefix = self@.subrange(0, i as int);
                    let grown = self@.subrange(0, i as int + 1);
                    assert(grown =~= prefix.push(self@[i as int]));
                    assert forall|m: int| 0 <= m < prefix.len() implies #[trigger] prefix[m]
                        == self@[m] by {}
                    // The new key's text is absent from the earlier entries.
                    lemma_find_key(prefix, self@[i as int].0);
                    assert(find_key(prefix, self@[i as int].0) == -1) by {
                        if find_key(prefix, self@[i as int].0) >= 0 {
                            assert(prefix[find_key(prefix, self@[i as int].0)].0 == self@[
                                i as int].0);
                        }
                    }
                    assert forall|k: String| #[trigger]
                        result@.contains_key(k) implies exists|j: int|
                        0 <= j < i + 1 && k == self.data@[j].0 by {
                        if k == self.data@[i as int].0 {
                            assert(0 <= (i as int) < i + 1 && k == self.data@[i as int].0);
                        } else {
                            assert(before.contains_key(k));
                        }
                    }
                    assert forall|k: String| #[trigger]
                        result@.contains_key(k) implies spec_get(grown, k@) == Some(
                        result@[k]@,
                    ) by {
                        lemma_find_key_push(prefix, self@[i as int], k@);
                        if k == self.data@[i as int].0 {
                            assert(k@ == self@[i as int].0);
                            assert(find_key(grown, k@) == i as int);
                            assert(result@[k]@ == self@[i as int].1);
                        } else {
                            assert(before.contains_key(k));
                            let j = choose|j: int| 0 <= j < i && k == self.data@[j].0;
                            assert(k@ == self@[j].0);
                            lemma_find_key(prefix, k@);
                            assert(prefix[j].0 == k@);
                            assert(find_key(prefix, k@) >= 0);
                            assert(find_key(grown, k@) == find_key(prefix, k@));
                            assert(grown[find_key(prefix, k@)] == prefix[find_key(prefix, k@)]);
                            assert(result@[k] == before[k]);
                        }
                    }
                }
            }
            i += 1;
        }
        proof {
            if model_ok {
                assert(self@.subrange(0, self.data@.len() as int) =~= self@);
                assert forall|j: int| #![trigger self@[j]] 0 <= j < self@.len() implies exists|
                    k: String,
                | #[trigger]
                    result@.contains_key(k) && k@ == self@[j].0 by {
                    lemma_view_entries_index(self.data@, j);
                    assert(result@.contains_key(self.data@[j].0) && self.data@[j].0@ == self@[
                        j].0);
                }
            }
        }
        result
    }

    /// Get the number of entries in the JSON Object.
    pub fn len(&self) -> (result: usize)
        ensures
            result == self@.len(),
    {
        self.data.len()
    }

    /// Get the value stored under a key, `None` when the key is absent.
    pub fn get(&self, key: &str) -> (result: Option<&JSONValue>)
        ensures
            result matches Some(v) ==> spec_get(self@, key@) == Some(v@),
            result is None ==> spec_get(self@, key@) is None,
    {
        let owned = String::from_str(key);
        let mut i: usize = 0;
        while i < self.data.len()
            invariant
                i <= self.data.len(),
                owned@ == key@,
                forall|j: int| 0 <= j < i ==> self@[j].0 != key@,
            decreases self.data.len() - i,
        {
            proof {
                lemma_view_entries_len(self.data@);
                lemma_view_entries_index(self.data@, i as int);
            }
            if self.data[i].0 == owned {
                proof {
                    lemma_find_key(self@, key@);
                    assert(self@[i as int].0 == key@);
                    assert(find_key(self@, key@) == i as int);
                }
                return Some(&self.data[i].1);
            }
            i += 1;
        }
        proof {
            lemma_find_key(self@, key@);
            assert(find_key(self@, key@) == -1) by {
                lemma_find_key(self@, key@);
                if find_key(self@, key@) >= 0 {
                    assert(self@[find_key(self@, key@)].0 == key@);
                }
            }
        }
        None
    }

    /// Store a value under a key.  An existing key keeps its position in
    /// the entry order and gets the new value — the last write wins; a new
    /// key is appended at the end.  Key uniqueness is preserved.
    pub fn set(&mut self, key: String, value: JSONValue)
        ensures
            final(self)@ == upsert(old(self)@, key@, value@),
            unique_keys(old(self)@) ==> unique_keys(final(self)@),
    {
        let mut i: usize = 0;
        while i < self.data.len()
            invariant
                i <= self.data.len(),
                *self == *old(self),
                forall|j: int| 0 <= j < i ==> old(self)@[j].0 != key@,
            decreases self.data.len() - i,
        {
            proof {
                lemma_view_entries_len(self.data@);
                lemma_view_entries_index(self.data@, i as int);
            }
            if self.data[i].0 == key {
                proof {
                    lemma_find_key(old(self)@, key@);
                    assert(old(self)@[i as int].0 == key@);
                    assert(find_key(old(self)@, key@) == i as int);
                    if unique_keys(old(self)@) {
                        lemma_upsert_unique(old(self)@, key@, value@);
                    }
                }
                self.data.set(i, (key, value));
                proof {
                    assert(self@ =~= upsert(old(self)@, key@, value@));
                }
                return ;
            }
            i += 1;
        }
        proof {
            lemma_find_key(old(self)@, key@);
            assert(find_key(old(self)@, key@) == -1) by {
                if find_key(old(self)@, key@) >= 0 {
                    assert(old(self)@[find_key(old(self)@, key@)].0 == key@);
                }
            }
            if unique_keys(old(self)@) {
                lemma_upsert_unique(old(self)@, key@, value@);
            }
        }
        self.data.push((key, value));
        proof {
            assert(self@ =~= upsert(old(self)@, key@, value@));
        }
    }
}

} // verus!
