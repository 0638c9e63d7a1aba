//! The tagged value of one shell variable, with its attributes. A dynamic
//! variable keeps only its immutable seed in the stored representation;
//! every read computes the value afresh.

use vstd::prelude::*;
use crate::array::ArrayData;
use crate::clock;
use crate::pairs;
use crate::random;

verus! {

/// A scalar value.
#[derive(Debug, Default)]
pub struct SingleData {
    pub data: String,
}

/// Which computation a dynamic variable runs on every read.
#[derive(Debug, Clone, Copy, PartialEq, Eq, Structural)]
pub enum DynamicGetter {
    /// No computation: reads hand the stored value back.
    Frozen,
    /// Whole seconds since the seed instant.
    Seconds,
    /// Whole seconds since the epoch.
    EpochSeconds,
    /// Seconds and microseconds since the epoch.
    EpochRealtime,
    /// The next value of the shell's own generator, 0 to 32767.
    Random,
    /// The next raw state of the shell's own generator.
    SRandom,
}

/// The seed and the computation of a dynamic variable.
#[derive(Debug)]
pub struct SpecialData {
    pub data: String,
    pub getter: DynamicGetter,
}

/// An associative-array value.
#[derive(Debug, Default)]
pub struct AssocData {
    pub data: Vec<(String, String)>,
}

/// The pair views of an associative array.
pub open spec fn spec_assoc_view(s: Seq<(String, String)>) -> Seq<(Seq<char>, Seq<char>)> {
    s.map_values(|p: (String, String)| (p.0@, p.1@))
}

impl AssocData {
    /// Binds `key` to `val`, replacing an earlier binding of the same key.
    pub fn set(&mut self, key: String, val: String)
        ensures
            pairs::spec_pairs_get(final(self).data@, key@) matches Some(s) && s@ == val@,
            forall|k: Seq<char>|
                k != key@ ==> #[trigger] pairs::spec_pairs_opt_view(final(self).data@, k)
                    == pairs::spec_pairs_opt_view(old(self).data@, k),
    {
        pairs::pairs_set(&mut self.data, key.as_str(), val.as_str());
    }

    /// The value bound to `key`, if any.
    pub fn get(&self, key: &str) -> (r: Option<String>)
        ensures
            match r {
                Some(s) => pairs::spec_pairs_opt_view(self.data@, key@) == Some(s@),
                None => pairs::spec_pairs_opt_view(self.data@, key@) is None,
            },
    {
        pairs::pairs_get_copy(&self.data, key)
    }

    pub fn len(&self) -> (r: usize)
        ensures
            r == self.data@.len(),
    {
        self.data.len()
    }

    /// A fresh list with the same pairs.
    pub fn copied(&self) -> (r: AssocData)
        ensures
            r.data@ == self.data@,
    {
        let mut out: Vec<(String, String)> = Vec::new();
        let n = self.data.len();
        let mut i: usize = 0;
        while i < n
            invariant
                i <= n,
                n == self.data@.len(),
                out@.len() == i,
                forall|j: int| 0 <= j < i ==> out@[j] == self.data@[j],
            decreases n - i,
        {
            out.push((self.data[i].0.clone(), self.data[i].1.clone()));
            proof {
                assert(out@[i as int].0 == self.data@[i as int].0);
                assert(out@[i as int] == self.data@[i as int]);
            }
            i += 1;
        }
        assert(out@ =~= self.data@);
        AssocData { data: out }
    }
}

/// The value of a variable: nothing yet, a dynamic value, a scalar, or one
/// of the two array forms.
#[derive(Debug)]
pub enum Value {
    Unset,
    Special(SpecialData),
    Single(SingleData),
    AssocArray(AssocData),
    Array(ArrayData),
}

impl Default for Value {
    fn default() -> (r: Self)
        ensures
            r is Unset,
    {
        Value::Unset
    }
}

/// Two values hold the same content.
pub open spec fn spec_value_like(a: Value, b: Value) -> bool {
    match a {
        Value::Unset => b is Unset,
        Value::Special(sd) => b matches Value::Special(t) && t.data@ == sd.data@ && t.getter
            == sd.getter,
        Value::Single(sd) => b matches Value::Single(t) && t.data@ == sd.data@,
        Value::AssocArray(ad) => b matches Value::AssocArray(t) && spec_assoc_view(t.data@)
            == spec_assoc_view(ad.data@),
        Value::Array(ad) => b matches Value::Array(t) && t.data@.map_values(|s: String| s@)
            == ad.data@.map_values(|s: String| s@),
    }
}

impl Value {
    /// A fresh value with the same content.
    pub fn duplicate(&self) -> (r: Value)
        ensures
            spec_value_like(*self, r),
    {
        match self {
            Value::Unset => Value::Unset,
            Value::Special(sd) => Value::Special(
                SpecialData { data: sd.data.clone(), getter: sd.getter },
            ),
            Value::Single(sd) => Value::Single(SingleData { data: sd.data.clone() }),
            Value::AssocArray(ad) => {
                let mut out: Vec<(String, String)> = Vec::new();
                let n = ad.data.len();
                let mut i: usize = 0;
                while i < n
                    invariant
                        i <= n,
                        n == ad.data@.len(),
                        out@.len() == i,
                        forall|j: int|
                            0 <= j < i ==> (#[trigger] out@[j]).0@ == ad.data@[j].0@ && out@[j].1@
                                == ad.data@[j].1@,
                    decreases n - i,
                {
                    out.push((ad.data[i].0.clone(), ad.data[i].1.clone()));
                    i += 1;
                }
                proof {
                    assert(spec_assoc_view(out@) =~= spec_assoc_view(ad.data@));
                }
                Value::AssocArray(AssocData { data: out })
            },
            Value::Array(ad) => {
                let copy = ad.get_all();
                Value::Array(ArrayData { data: copy })
            },
        }
    }
}

/// One shell variable: its value and its attribute characters (for
/// instance `r` for readonly, `x` for exported).
#[derive(Debug, Default)]
pub struct Variable {
    pub value: Value,
    pub attributes: String,
}

impl Variable {
    /// A scalar variable with no attributes.
    pub fn from_str_value(s: &str) -> (r: Variable)
        ensures
            r.value matches Value::Single(sd) && sd.data@ == s@,
            r.attributes@.len() == 0,
    {
        Variable { value: Value::Single(SingleData { data: String::from_str(s) }), attributes: String::new() }
    }

    /// An indexed-array variable with no attributes.
    pub fn from_vec_value(v: Vec<String>) -> (r: Variable)
        ensures
            r.value matches Value::Array(ad) && ad.data@ == v@,
            r.attributes@.len() == 0,
    {
        Variable { value: Value::Array(ArrayData { data: v }), attributes: String::new() }
    }

    /// Overwrites the stored text of a scalar or of a dynamic seed; any
    /// other value is left alone.
    pub fn set_data(&mut self, data: String)
        ensures
            old(self).value is Single ==> (final(self).value matches Value::Single(sd)
                && sd.data@ == data@),
            old(self).value is Special ==> (final(self).value matches Value::Special(sd)
                && sd.data@ == data@ && sd.getter == old(self).value->Special_0.getter),
            !(old(self).value is Single || old(self).value is Special) ==> final(self).value
                == old(self).value,
            final(self).attributes == old(self).attributes,
    {
        match &mut self.value {
            Value::Single(s) => s.data = data,
            Value::Special(s) => s.data = data,
            _ => {},
        }
    }

    /// The current value: dynamic variables compute it, the others hand a
    /// copy of the stored content back. Reading a Random or SRandom
    /// variable steps the stored generator state.
    pub fn get_value(&mut self) -> (r: Value)
        ensures
            !(old(self).value is Special) ==> spec_value_like(old(self).value, r) && *final(self)
                == *old(self),
            old(self).value is Special ==> final(self).attributes == old(self).attributes,
            old(self).value matches Value::Special(sd) ==> match sd.getter {
                DynamicGetter::Frozen => spec_value_like(old(self).value, r) && *final(self)
                    == *old(self),
                DynamicGetter::Seconds => r is Single && *final(self) == *old(self),
                DynamicGetter::EpochSeconds => r is Single && *final(self) == *old(self),
                DynamicGetter::EpochRealtime => r is Single && *final(self) == *old(self),
                DynamicGetter::Random => {
                    let seed = random::spec_seed_of(sd.data@);
                    &&& r matches Value::Single(out) && out.data@ == crate::text::spec_int_string(
                        random::spec_random_value(seed),
                    )
                    &&& final(self).value matches Value::Special(nd) && nd.getter
                        == DynamicGetter::Random && nd.data@ == crate::text::spec_int_string(
                        random::spec_lcg_next(seed),
                    )
                },
                DynamicGetter::SRandom => {
                    let seed = random::spec_seed_of(sd.data@);
                    &&& r matches Value::Single(out) && out.data@ == crate::text::spec_int_string(
                        random::spec_lcg_next(seed),
                    )
                    &&& final(self).value matches Value::Special(nd) && nd.getter
                        == DynamicGetter::SRandom && nd.data@ == crate::text::spec_int_string(
                        random::spec_lcg_next(seed),
                    )
                },
            },
    {
        let getter = match &self.value {
            Value::Special(sd) => sd.getter,
            _ => {
                return self.value.duplicate();
            },
        };
        match getter {
            DynamicGetter::Frozen => self.value.duplicate(),
            DynamicGetter::Seconds => clock::get_seconds(self),
            DynamicGetter::EpochSeconds => clock::get_epochseconds(),
            DynamicGetter::EpochRealtime => clock::get_epochrealtime(),
            DynamicGetter::Random => random::get_random(self),
            DynamicGetter::SRandom => random::get_srandom(self),
        }
    }

    /// The historical identity getter: reads hand the stored value back.
    pub fn not_set(v: &mut Variable, _var: &str) -> (r: Value)
        ensures
            spec_value_like(old(v).value, r),
            *final(v) == *old(v),
    {
        v.value.duplicate()
    }

    /// Sets one element of an associative array; false when the variable
    /// holds anything else.
    pub fn set_assoc_elem(&mut self, key: &String, val: &String) -> (r: bool)
        ensures
            old(self).value is AssocArray <==> r,
            r ==> (final(self).value matches Value::AssocArray(ad) && {
                &&& pairs::spec_pairs_get(ad.data@, key@) matches Some(s) && s@ == val@
                &&& forall|k: Seq<char>|
                    k != key@ ==> #[trigger] pairs::spec_pairs_opt_view(ad.data@, k)
                        == pairs::spec_pairs_opt_view(
                        old(self).value->AssocArray_0.data@,
                        k,
                    )
            }),
            !r ==> *final(self) == *old(self),
            final(self).attributes == old(self).attributes,
    {
        match &mut self.value {
            Value::AssocArray(a) => {
                a.set(key.clone(), val.clone());
                true
            },
            _ => false,
        }
    }

    /// Sets one element of an indexed array; false when the variable holds
    /// anything else or the index is out of range.
    pub fn set_array_elem(&mut self, pos: usize, val: &String) -> (r: bool)
        ensures
            r <==> (old(self).value is Array && pos < old(self).value->Array_0.data@.len()),
            r ==> (final(self).value matches Value::Array(ad) && ad.data@ == old(self).value->Array_0.data@.update(pos as int, *val)),
            old(self).value is Array && pos >= old(self).value->Array_0.data@.len() ==> (final(self).value matches Value::Array(ad) && ad.data@ == old(self).value->Array_0.data@),
            !(old(self).value is Array) ==> *final(self) == *old(self),
            final(self).attributes == old(self).attributes,
    {
        match &mut self.value {
            Value::Array(a) => a.set(pos, val),
            _ => false,
        }
    }
}

} // verus!
