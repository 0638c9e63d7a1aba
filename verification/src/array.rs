//! The indexed-array value of a shell variable.

use vstd::prelude::*;
use crate::text;

verus! {

#[derive(Debug, Default)]
pub struct ArrayData {
    pub data: Vec<String>,
}

/// The element views of an array.
pub open spec fn spec_array_view(v: Seq<String>) -> Seq<Seq<char>> {
    v.map_values(|s: String| s@)
}

impl ArrayData {
    pub fn from_vec(v: Vec<String>) -> (r: ArrayData)
        ensures
            r.data@ == v@,
    {
        ArrayData { data: v }
    }

    /// Overwrites the element at `pos`; out-of-range writes are refused.
    pub fn set(&mut self, pos: usize, val: &String) -> (r: bool)
        ensures
            pos < old(self).data@.len() ==> r && final(self).data@ == old(self).data@.update(
                pos as int,
                *val,
            ),
            pos >= old(self).data@.len() ==> !r && final(self).data@ == old(self).data@,
{
        if self.data.len() > pos {
            let copy = val.clone();
            self.data.set(pos, copy);
            true
        } else {
            false
        }
    }

    /// The element at `pos`, if there is one.
    pub fn get(&self, pos: usize) -> (r: Option<String>)
        ensures
            pos < self.data@.len() ==> (r matches Some(s) && s == self.data@[pos as int]),
            pos >= self.data@.len() ==> r is None,
    {
        if pos < self.data.len() {
            Some(self.data[pos].clone())
        } else {
            None
        }
    }

    /// A copy of all elements, in order.
    pub fn get_all(&self) -> (r: Vec<String>)
        ensures
            r@ == self.data@,
    {
        let mut out: Vec<String> = Vec::new();
        let n = self.data.len();
        let mut i: usize = 0;
        while i < n
            invariant
                i <= n,
                n == self.data@.len(),
                out@.len() == i,
                forall|j: int| 0 <= j < i ==> out@[j] == self.data@[j],
            decreases n - i,
        {
            out.push(self.data[i].clone());
            i += 1;
        }
        assert(out@ =~= self.data@);
        out
    }

    /// All elements joined with the given separator.
    pub fn join(&self, space: &str) -> (r: String)
        ensures
            r@ == text::spec_join(spec_array_view(self.data@), space@),
    {
        text::join_strings(&self.data, space)
    }

    pub fn len(&self) -> (r: usize)
        ensures
            r == self.data@.len(),
    {
        self.data.len()
    }
}

} // verus!
