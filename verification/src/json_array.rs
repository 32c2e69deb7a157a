//! The JSON array value: an ordered sequence of JSON values.

use vstd::prelude::*;
use crate::json_value::{
    fmt_in_bounds,
    lemma_fmt_in_bounds_step,
    lemma_height_items_index,
    lemma_render_fmt_items_push,
    lemma_render_items_push,
    lemma_view_items_index,
    lemma_view_items_len,
    pad_seq,
    render_fmt_items,
    render_items,
    spec_height,
    spec_height_items,
    view_items,
    JSONValue,
    SpecValue,
};
use crate::text::make_spaces;

verus! {

broadcast use crate::json_value::group_view_lemmas;

/// A JSON array, an ordered sequence of JSON values.
#[derive(Debug)]
pub struct JSONArray {
    pub(crate) data: Vec<JSONValue>,
}

impl View for JSONArray {
    type V = Seq<SpecValue>;

    closed spec fn view(&self) -> Seq<SpecValue> {
        view_items(self.data@)
    }
}

/// An array's model is the sequence of its elements' models.
pub(crate) proof fn lemma_array_view(a: &JSONArray)
    ensures
        a@ == view_items(a.data@),
{
}

impl Clone for JSONArray {
    fn clone(&self) -> (result: Self)
        ensures
            result@ == self@,
        decreases *self,
    {
        let mut data: Vec<JSONValue> = Vec::new();
        let mut i: usize = 0;
        while i < self.data.len()
            invariant
                i <= self.data.len(),
                data@.len() == i as int,
                forall|j: int| 0 <= j < i ==> data@[j]@ == self.data@[j]@,
            decreases self.data.len() - i,
        {
            let element = self.data[i].clone();
            data.push(element);
            i += 1;
        }
        let result = JSONArray { data };
        proof {
            assert(result@ =~= self@);
        }
        result
    }
}

impl JSONArray {
    /// Create a new empty JSON Array.
    pub fn new() -> (result: Self)
        ensures
            result@ == Seq::<SpecValue>::empty(),
    {
        let result = JSONArray { data: Vec::new() };
        proof {
            assert(result@ =~= Seq::<SpecValue>::empty());
        }
        result
    }

    /// Render JSON Array as compact source text: the elements separated by
    /// `, `, between `[ ` and ` ]`.
    pub fn to_string(&self) -> (result: String)
        ensures
            result@ == "[ "@ + render_items(self@) + " ]"@,
        decreases *self,
    {
        let mut result = String::from_str("[ ");
        let mut i: usize = 0;
        while i < self.data.len()
            invariant
                i <= self.data.len(),
                self@ == view_items(self.data@),
                result@ == "[ "@ + render_items(self@.subrange(0, i as int)),
            decreases self.data.len() - i,
        {
            let rendered = self.data[i].to_string();
            if i > 0 {
                result.append(", ");
            }
            result.append(rendered.as_str());
            proof {
                let prefix = self@.subrange(0, i as int);
                assert(self@.subrange(0, i as int + 1) =~= prefix.push(self@[i as int]));
                lemma_render_items_push(prefix, self@[i as int]);
                assert(result@ =~= "[ "@ + render_items(self@.subrange(0, i as int + 1)));
            }
            i += 1;
        }
        result.append(" ]");
        proof {
            assert(self@.subrange(0, self.data.len() as int) =~= self@);
            assert(result@ =~= "[ "@ + render_items(self@) + " ]"@);
        }
        result
    }

    /// Render JSON Array as indented source text: `[]` when empty, else
    /// each element on its own line one level deeper, a comma after every
    /// element, and the closing bracket on its own line at this level.
    pub fn format_string(&self, indents: i32, spaces: i32) -> (result: String)
        requires
            fmt_in_bounds((1 + spec_height_items(self@)) as int, indents as int, spaces as int),
        ensures
            result@ == (if self@.len() == 0 {
                "[]"@
            } else {
                "["@ + render_fmt_items(self@, indents as int, spaces as int) + "\n"@ + pad_seq(
                    (indents as int) * (spaces as int),
                ) + "]"@
            }),
        decreases *self,
    {
        let ghost ind = indents as int;
        let ghost sp = spaces as int;
        let ghost h = 1 + spec_height_items(self@);
        let n = self.data.len();
        proof {
            lemma_view_items_len(self.data@);
        }
        if n == 0 {
            return String::from_str("[]");
        }
        proof {
            vstd::arithmetic::mul::lemma_mul_inequality(ind + 1, ind + 1 + h, sp);
            vstd::arithmetic::mul::lemma_mul_inequality(ind, ind + 1 + h, sp);
            vstd::arithmetic::mul::lemma_mul_nonnegative(ind + 1, sp);
            vstd::arithmetic::mul::lemma_mul_nonnegative(ind, sp);
        }
        let pad = make_spaces(((indents + 1) as usize) * (spaces as usize));
        let mut result = String::from_str("[");
        let mut i: usize = 0;
        while i < n
            invariant
                n == self.data@.len(),
                self@ == view_items(self.data@),
                self@.len() == n,
                i <= n,
                fmt_in_bounds((1 + spec_height_items(self@)) as int, ind, sp),
                ind == indents as int,
                sp == spaces as int,
                pad@ == pad_seq((ind + 1) * sp),
                result@ == "["@ + render_fmt_items(self@.subrange(0, i as int), ind, sp),
            decreases n - i,
        {
            result.append("\n");
            result.append(pad.as_str());
            proof {
                lemma_view_items_index(self.data@, i as int);
                lemma_height_items_index(self@, i as int);
                lemma_fmt_in_bounds_step(
                    (1 + spec_height_items(self@)) as int,
                    spec_height(self@[i as int]) as int,
                    ind,
                    sp,
                );
            }
            let rendered = self.data[i].format_string(indents + 1, spaces);
            result.append(rendered.as_str());
            result.append(",");
            proof {
                let prefix = self@.subrange(0, i as int);
                assert(self@.subrange(0, i as int + 1) =~= prefix.push(self@[i as int]));
                lemma_render_fmt_items_push(prefix, self@[i as int], ind, sp);
                assert(result@ =~= "["@ + render_fmt_items(
                    self@.subrange(0, i as int + 1),
                    ind,
                    sp,
                ));
            }
            i += 1;
        }
        result.append("\n");
        let closing = make_spaces((indents as usize) * (spaces as usize));
        result.append(closing.as_str());
        result.append("]");
        proof {
            assert(self@.subrange(0, n as int) =~= self@);
            assert(result@ =~= "["@ + render_fmt_items(self@, ind, sp) + "\n"@ + pad_seq(ind * sp)
                + "]"@);
        }
        result
    }

    /// Copy the JSON Array into a Rust vector of its elements.
    pub fn to_vec(&self) -> (result: Vec<JSONValue>)
        ensures
            view_items(result@) == self@,
    {
        let copy = self.clone();
        proof {
            lemma_array_view(&copy);
        }
        copy.data
    }

    /// Get the number of elements in the JSON Array.
    pub fn len(&self) -> (result: usize)
        ensures
            result == self@.len(),
    {
        self.data.len()
    }

    /// Push a JSON Value onto the back of the JSON Array.
    pub fn push(&mut self, value: JSONValue)
        ensures
            final(self)@ == old(self)@.push(value@),
    {
        self.data.push(value);
        proof {
            assert(self@ =~= old(self)@.push(value@));
        }
    }

    /// Get the value at a specific index in the JSON Array, `None` when
    /// the index is out of bounds.
    pub fn get(&self, index: usize) -> (result: Option<&JSONValue>)
        ensures
            index < self@.len() ==> (result matches Some(v) && v@ == self@[index as int]),
            index >= self@.len() ==> result is None,
    {
        if index < self.data.len() {
            Some(&self.data[index])
        } else {
            None
        }
    }
}

} // verus!
