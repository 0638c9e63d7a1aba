//! The layered variable database: an ordered stack of scope layers over one
//! global layer, with the alias, function and position-parameter tables and
//! the last exit status. Name resolution and mutation always pick the
//! innermost layer that already holds the name; fresh bindings go to an
//! explicitly chosen layer. A readonly attribute anywhere in the stack
//! protects the name until the binding dies.

use vstd::prelude::*;
use crate::clock;
use crate::pairs::{
    self, spec_pairs_get, spec_pairs_has, spec_pairs_idx, spec_pairs_opt_view,
};
use crate::sys;
use crate::text;
use crate::utils;
use crate::variable::{DynamicGetter, SingleData, SpecialData, Value, Variable};

verus! {

#[derive(Debug)]
pub struct DataBase {
    /// Single-character shell options, for instance `i` for interactive.
    pub flags: String,
    pub params: Vec<Vec<(String, Variable)>>,
    /// One list per scope that owns position parameters; element 0 of the
    /// innermost list is the script name.
    pub position_parameters: Vec<Vec<String>>,
    pub aliases: Vec<(String, String)>,
    pub functions: Vec<(String, String)>,
    /// The substitutions the alias pass has made, oldest first.
    pub alias_memo: Vec<(String, String)>,
    /// The value `$?` reads.
    pub exit_status: i32,
    /// The value `$_` reads.
    pub last_arg: String,
    pub env_vars: Vec<(String, String)>,
}

impl DataBase {
    /// The scope layers, global first.
    pub open spec fn layers(self) -> Seq<Seq<(String, Variable)>> {
        self.params@.map_values(|l: Vec<(String, Variable)>| l@)
    }

    pub open spec fn num_layers(self) -> int {
        self.layers().len() as int
    }

    /// There is always a global layer.
    pub open spec fn wf(self) -> bool {
        self.num_layers() >= 1
    }

    pub open spec fn layer_has(self, layer: int, name: Seq<char>) -> bool {
        spec_pairs_has(self.layers()[layer], name)
    }

    /// The binding of `name` in one layer.
    pub open spec fn layer_entry(self, layer: int, name: Seq<char>) -> Option<Variable> {
        spec_pairs_get(self.layers()[layer], name)
    }

    /// The innermost layer, at or below `from`, that holds `name`; -1 when
    /// none does.
    pub open spec fn spec_solve_from(self, name: Seq<char>, from: int) -> int
        decreases from + 1 when from >= -1
    {
        if from < 0 {
            -1
        } else if self.layer_has(from, name) {
            from
        } else {
            self.spec_solve_from(name, from - 1)
        }
    }

    /// The innermost layer that holds `name`; -1 when none does.
    pub open spec fn top_layer_of(self, name: Seq<char>) -> int {
        self.spec_solve_from(name, self.num_layers() - 1)
    }

    pub open spec fn has_name(self, name: Seq<char>) -> bool {
        self.top_layer_of(name) >= 0
    }

    /// The binding that resolution picks.
    pub open spec fn lookup(self, name: Seq<char>) -> Option<Variable> {
        if self.has_name(name) {
            self.layer_entry(self.top_layer_of(name), name)
        } else {
            None
        }
    }

    /// The scalar text that a plain read of `name` yields from its stored
    /// binding.
    pub open spec fn lookup_single(self, name: Seq<char>) -> Option<Seq<char>> {
        match self.lookup(name) {
            Some(v) => Some(spec_value_single(v.value)),
            None => None,
        }
    }

    /// Some binding of `name`, at any layer, carries the readonly
    /// attribute.
    pub open spec fn readonly(self, name: Seq<char>) -> bool {
        exists|l: int|
            0 <= l < self.num_layers() && ((#[trigger] self.layer_entry(l, name)) matches Some(v)
                && v.attributes@.contains('r'))
    }

    /// Some binding of `name`, at any layer, carries the export
    /// attribute.
    pub open spec fn exported(self, name: Seq<char>) -> bool {
        exists|l: int|
            0 <= l < self.num_layers() && ((#[trigger] self.layer_entry(l, name)) matches Some(v)
                && v.attributes@.contains('x'))
    }

    /// The environment model: what the process environment held at start,
    /// updated by exported writes.
    pub open spec fn env(self) -> Seq<(String, String)> {
        self.env_vars@
    }

    pub open spec fn alias_list(self) -> Seq<(String, String)> {
        self.aliases@
    }

    pub open spec fn function_list(self) -> Seq<(String, String)> {
        self.functions@
    }
}

/// What a scalar read makes of a stored value: a scalar's text, an array's
/// first element, an associative array's entry at key "0", else empty.
pub open spec fn spec_value_single(v: Value) -> Seq<char> {
    match v {
        Value::Single(sd) => sd.data@,
        Value::Special(sd) => sd.data@,
        Value::Array(ad) => if ad.data@.len() > 0 {
            ad.data@[0]@
        } else {
            Seq::empty()
        },
        Value::AssocArray(ad) => match spec_pairs_opt_view(ad.data@, "0"@) {
            Some(s) => s,
            None => Seq::empty(),
        },
        Value::Unset => Seq::empty(),
    }
}

impl DataBase {
    /// Whether some binding of `name` carries the export attribute.
    pub fn is_exported(&self, name: &str) -> (r: bool)
        ensures
            r == self.exported(name@),
    {
        let n = self.params.len();
        let mut l: usize = 0;
        while l < n
            invariant
                l <= n,
                n == self.num_layers(),
                forall|j: int|
                    0 <= j < l ==> !((#[trigger] self.layer_entry(j, name@)) matches Some(v)
                        && v.attributes@.contains('x')),
            decreases n - l,
        {
            match pairs::pairs_find(&self.params[l], name) {
                Some(i) => {
                    if text::str_contains_char(self.params[l][i].1.attributes.as_str(), 'x') {
                        proof {
                            assert(self.layer_entry(l as int, name@) matches Some(v)
                                && v.attributes@.contains('x'));
                        }
                        return true;
                    }
                },
                None => {},
            }
            proof {
                assert(!(self.layer_entry(l as int, name@) matches Some(v)
                    && v.attributes@.contains('x')));
            }
            l += 1;
        }
        false
    }

    /// Whether some binding of `name` is readonly.
    pub fn is_readonly(&self, name: &str) -> (r: bool)
        ensures
            r == self.readonly(name@),
    {
        let n = self.params.len();
        let mut l: usize = 0;
        while l < n
            invariant
                l <= n,
                n == self.num_layers(),
                forall|j: int|
                    0 <= j < l ==> !((#[trigger] self.layer_entry(j, name@)) matches Some(v)
                        && v.attributes@.contains('r')),
            decreases n - l,
        {
            match pairs::pairs_find(&self.params[l], name) {
                Some(i) => {
                    if text::str_contains_char(self.params[l][i].1.attributes.as_str(), 'r') {
                        proof {
                            assert(self.layer_entry(l as int, name@) matches Some(v)
                                && v.attributes@.contains('r'));
                        }
                        return true;
                    }
                },
                None => {},
            }
            proof {
                assert(!(self.layer_entry(l as int, name@) matches Some(v)
                    && v.attributes@.contains('r')));
            }
            l += 1;
        }
        false
    }

    /// The innermost layer that holds `name`, if any.
    pub fn get_layer_pos(&self, name: &str) -> (r: Option<usize>)
        requires
            self.wf(),
        ensures
            match r {
                Some(l) => self.top_layer_of(name@) == l && l < self.num_layers(),
                None => !self.has_name(name@),
            },
    {
        let n = self.params.len();
        let mut l: usize = n;
        while l > 0
            invariant
                l <= n,
                n == self.num_layers(),
                self.spec_solve_from(name@, n - 1) == self.spec_solve_from(name@, l - 1),
            decreases l,
        {
            match pairs::pairs_find(&self.params[l - 1], name) {
                Some(_) => {
                    return Some(l - 1);
                },
                None => {},
            }
            l -= 1;
        }
        None
    }

    /// The layer a mutation of `name` resolves to: the innermost holding
    /// it, else the global layer.
    fn solve_layer(&self, name: &str) -> (r: usize)
        requires
            self.wf(),
        ensures
            r == (if self.has_name(name@) {
                self.top_layer_of(name@)
            } else {
                0int
            }),
            r < self.num_layers(),
    {
        match self.get_layer_pos(name) {
            Some(l) => {
                proof {
                    lemma_solve_from_range(*self, name@, self.num_layers() - 1);
                }
                l
            },
            None => 0,
        }
    }

    pub fn has_value(&self, name: &str) -> (r: bool)
        requires
            self.wf(),
        ensures
            r == self.has_name(name@),
    {
        self.get_layer_pos(name).is_some()
    }

    pub fn get_layer_num(&self) -> (r: usize)
        ensures
            r == self.num_layers(),
    {
        self.params.len()
    }

    /// Opens a scope: a fresh, empty innermost layer.
    pub fn push_local(&mut self)
        requires
            old(self).wf(),
        ensures
            final(self).wf(),
            final(self).layers() == old(self).layers().push(Seq::empty()),
            unchanged_but_params(*old(self), *final(self)),
    {
        self.params.push(Vec::new());
        proof {
            assert(self.layers() =~= old(self).layers().push(Seq::empty()));
        }
    }

    /// Closes the innermost scope and every binding made in it. The global
    /// layer stays.
    pub fn pop_local(&mut self)
        requires
            old(self).wf(),
            old(self).num_layers() > 1,
        ensures
            final(self).wf(),
            final(self).layers() == old(self).layers().drop_last(),
            unchanged_but_params(*old(self), *final(self)),
    {
        self.params.pop();
        proof {
            assert(self.layers() =~= old(self).layers().drop_last());
        }
    }

    /// Makes exit status 0 into 1 and anything else into 0, as a leading
    /// `!` asks.
    pub fn flip_exit_status(&mut self)
        ensures
            final(self).exit_status == (if old(self).exit_status == 0 {
                1int
            } else {
                0int
            }),
            final(self).layers() == old(self).layers(),
            final(self).position_parameters == old(self).position_parameters,
            final(self).env() == old(self).env(),
            final(self).alias_list() == old(self).alias_list(),
            final(self).flags == old(self).flags,
    {
        if self.exit_status == 0 {
            self.exit_status = 1;
        } else {
            self.exit_status = 0;
        }
    }

    /// Records one pair of the process environment, as handed over at
    /// start-up.
    pub fn init_env_var(&mut self, name: &str, val: &str)
        ensures
            spec_pairs_opt_view(final(self).env(), name@) == Some(val@),
            forall|k: Seq<char>|
                k != name@ ==> #[trigger] spec_pairs_opt_view(final(self).env(), k)
                    == spec_pairs_opt_view(old(self).env(), k),
            final(self).layers() == old(self).layers(),
            unchanged_but_params_env(*old(self), *final(self)),
    {
        pairs::pairs_set(&mut self.env_vars, name, val);
    }

    /// A copy of the environment model, for handing a child process its
    /// environment.
    pub fn env_pairs(&self) -> (r: Vec<(String, String)>)
        ensures
            r@ == self.env(),
    {
        let mut out: Vec<(String, String)> = Vec::new();
        let n = self.env_vars.len();
        let mut i: usize = 0;
        while i < n
            invariant
                i <= n,
                n == self.env_vars@.len(),
                out@.len() == i,
                forall|j: int| 0 <= j < i ==> out@[j] == self.env_vars@[j],
            decreases n - i,
        {
            out.push((self.env_vars[i].0.clone(), self.env_vars[i].1.clone()));
            proof {
                assert(out@[i as int].0 == self.env_vars@[i as int].0);
                assert(out@[i as int] == self.env_vars@[i as int]);
            }
            i += 1;
        }
        assert(out@ =~= self.env_vars@);
        out
    }

    /// Writes `val` into the binding of `name` at the given layer: fails on
    /// a readonly name, updates a scalar in place, creates the binding when
    /// the layer lacks one, and silently leaves a non-scalar unchanged. A
    /// name the environment knows is mirrored there.
    pub fn set_layer_param(&mut self, name: &str, val: &str, layer: usize) -> (r: Result<
        (),
        String,
    >)
        requires
            old(self).wf(),
            layer < old(self).num_layers(),
        ensures
            final(self).wf(),
            final(self).num_layers() == old(self).num_layers(),
            old(self).readonly(name@) ==> r is Err && final(self).layers() == old(self).layers()
                && final(self).exit_status == 1 && final(self).env() == old(self).env(),
            !old(self).readonly(name@) ==> final(self).exit_status == old(self).exit_status
                && env_mirrored(*old(self), *final(self), name@, val@),
            !old(self).readonly(name@) && !old(self).layer_has(layer as int, name@)
                && !utils::spec_is_param(name@) ==> r is Err && final(self).layers() == old(
                self,
            ).layers(),
            !old(self).readonly(name@) && !old(self).layer_has(layer as int, name@)
                && utils::spec_is_param(name@) ==> r is Ok && layer_binding_set(
                *old(self),
                *final(self),
                layer as int,
                name@,
                val@,
            ),
            !old(self).readonly(name@) && old(self).layer_has(layer as int, name@) ==> r is Ok
                && layer_binding_updated(*old(self), *final(self), layer as int, name@, val@),
            final(self).position_parameters == old(self).position_parameters,
            final(self).alias_list() == old(self).alias_list(),
            final(self).function_list() == old(self).function_list(),
            final(self).flags == old(self).flags,
            final(self).last_arg == old(self).last_arg,
    {
        if self.is_readonly(name) {
            self.exit_status = 1;
            return Err(readonly_message(name));
        }
        if pairs::pairs_find(&self.env_vars, name).is_some() || self.is_exported(name) {
            pairs::pairs_set(&mut self.env_vars, name, val);
        }
        let ghost pre = *self;
        let found = pairs::pairs_find(&self.params[layer], name);
        match found {
            Some(i) => {
                let is_single = match &self.params[layer][i].1.value {
                    Value::Single(_) => true,
                    _ => false,
                };
                if is_single {
                    let key_copy = self.params[layer][i].0.clone();
                    let attr_copy = self.params[layer][i].1.attributes.clone();
                    let ghost old_layer = self.layers()[layer as int];
                    let lv = &mut self.params[layer];
                    lv.set(
                        i,
                        (
                            key_copy,
                            Variable {
                                value: Value::Single(SingleData { data: String::from_str(val) }),
                                attributes: attr_copy,
                            },
                        ),
                    );
                    proof {
                        lemma_layers_after_inner_update(pre, *self, layer as int);
                        let nl = self.layers()[layer as int];
                        assert(nl =~= old_layer.update(
                            i as int,
                            (old_layer[i as int].0, nl[i as int].1),
                        ));
                        lemma_binding_update_effect(pre, *self, layer as int, i as int, name@);
                    }
                }
                Ok(())
            },
            None => {
                let owned = String::from_str(name);
                if !utils::is_param(&owned) {
                    return Err(identifier_message(name));
                }
                let ghost old_layer = self.layers()[layer as int];
                let lv = &mut self.params[layer];
                lv.push(
                    (
                        String::from_str(name),
                        Variable {
                            value: Value::Single(SingleData { data: String::from_str(val) }),
                            attributes: String::new(),
                        },
                    ),
                );
                proof {
                    lemma_layers_after_inner_update(pre, *self, layer as int);
                    let nl = self.layers()[layer as int];
                    assert(nl =~= old_layer.push(nl.last()));
                    lemma_binding_push_effect(pre, *self, layer as int, name@);
                }
                Ok(())
            },
        }
    }

    /// Writes `val` into `name` at the layer resolution picks. A stored
    /// scalar (or a fresh name) reads back as `val`; a stored array form is
    /// silently left as it was.
    pub fn set_param(&mut self, name: &str, val: &str) -> (r: Result<(), String>)
        requires
            old(self).wf(),
        ensures
            final(self).wf(),
            final(self).num_layers() == old(self).num_layers(),
            old(self).readonly(name@) ==> r is Err && final(self).layers() == old(self).layers()
                && final(self).exit_status == 1,
            !old(self).readonly(name@) && (match old(self).lookup(name@) {
                Some(v) => v.value is Single,
                None => utils::spec_is_param(name@),
            }) ==> r is Ok && final(self).lookup_single(name@) == Some(val@),
            !old(self).readonly(name@) && (old(self).lookup(name@) matches Some(v) && !(v.value
                is Single)) ==> r is Ok && final(self).layers() == old(self).layers(),
            !old(self).readonly(name@) && old(self).lookup(name@) is None
                && !utils::spec_is_param(name@) ==> r is Err && final(self).layers() == old(
                self,
            ).layers(),
            !old(self).readonly(name@) ==> final(self).exit_status == old(self).exit_status,
            !old(self).readonly(name@) ==> env_mirrored(*old(self), *final(self), name@, val@),
            old(self).readonly(name@) ==> final(self).env() == old(self).env(),
            final(self).position_parameters == old(self).position_parameters,
            final(self).alias_list() == old(self).alias_list(),
            final(self).function_list() == old(self).function_list(),
            final(self).flags == old(self).flags,
            final(self).last_arg == old(self).last_arg,
    {
        let layer = self.solve_layer(name);
        let ghost pre = *self;
        proof {
            lemma_solve_from_range(pre, name@, pre.num_layers() - 1);
            lemma_solve_upper_empty(pre, name@, pre.num_layers() - 1);
        }
        let r = self.set_layer_param(name, val, layer);
        proof {
            if !pre.readonly(name@) && (pre.layer_has(layer as int, name@)
                || utils::spec_is_param(name@)) {
                lemma_set_resolved_lookup(pre, *self, layer as int, name@, val@);
            }
        }
        r
    }
}

/// An indexed array after writing `val` at `pos`: in range the element is
/// replaced; past the end the array grows, empty strings filling the gap.
pub open spec fn spec_elem_pad(s: Seq<Seq<char>>, pos: int, val: Seq<char>) -> Seq<Seq<char>> {
    if pos < s.len() {
        s.update(pos, val)
    } else {
        s + Seq::new((pos - s.len()) as nat, |i: int| Seq::<char>::empty()).push(val)
    }
}

impl DataBase {
    /// Replaces or creates the binding of `name` at `layer` with the given
    /// value; an existing binding keeps its attributes. No readonly check:
    /// the callers make it first.
    fn put_binding(&mut self, layer: usize, name: &str, value: Value)
        requires
            old(self).wf(),
            layer < old(self).num_layers(),
        ensures
            final(self).wf(),
            binding_put(*old(self), *final(self), layer as int, name@, value),
            unchanged_but_params(*old(self), *final(self)),
    {
        let ghost pre = *self;
        let found = pairs::pairs_find(&self.params[layer], name);
        match found {
            Some(i) => {
                let key_copy = self.params[layer][i].0.clone();
                let attr_copy = self.params[layer][i].1.attributes.clone();
                let ghost old_layer = self.layers()[layer as int];
                let lv = &mut self.params[layer];
                lv.set(i, (key_copy, Variable { value, attributes: attr_copy }));
                proof {
                    lemma_layers_after_inner_update(pre, *self, layer as int);
                    let nl = self.layers()[layer as int];
                    assert(nl =~= old_layer.update(
                        i as int,
                        (old_layer[i as int].0, nl[i as int].1),
                    ));
                    lemma_binding_update_effect(pre, *self, layer as int, i as int, name@);
                }
            },
            None => {
                let ghost old_layer = self.layers()[layer as int];
                let lv = &mut self.params[layer];
                lv.push((String::from_str(name), Variable { value, attributes: String::new() }));
                proof {
                    lemma_layers_after_inner_update(pre, *self, layer as int);
                    let nl = self.layers()[layer as int];
                    assert(nl =~= old_layer.push(nl.last()));
                    lemma_binding_push_effect(pre, *self, layer as int, name@);
                }
            },
        }
    }

    /// Stores a whole indexed array under `name` at the given layer.
    pub fn set_layer_array(&mut self, name: &str, v: Vec<String>, layer: usize) -> (r: Result<
        (),
        String,
    >)
        requires
            old(self).wf(),
            layer < old(self).num_layers(),
        ensures
            final(self).wf(),
            old(self).readonly(name@) ==> r is Err && final(self).layers() == old(self).layers()
                && final(self).exit_status == 1,
            !old(self).readonly(name@) ==> r is Ok && final(self).exit_status == old(
                self,
            ).exit_status && binding_put_array(*old(self), *final(self), layer as int, name@, v@),
            final(self).position_parameters == old(self).position_parameters,
            final(self).alias_list() == old(self).alias_list(),
            final(self).function_list() == old(self).function_list(),
            final(self).env() == old(self).env(),
            final(self).flags == old(self).flags,
            final(self).last_arg == old(self).last_arg,
    {
        if self.is_readonly(name) {
            self.exit_status = 1;
            return Err(readonly_message(name));
        }
        self.put_binding(layer, name, Value::Array(crate::array::ArrayData { data: v }));
        Ok(())
    }

    /// Stores a fresh, empty associative array under `name` at the layer.
    pub fn set_layer_assoc(&mut self, name: &str, layer: usize) -> (r: Result<(), String>)
        requires
            old(self).wf(),
            layer < old(self).num_layers(),
        ensures
            final(self).wf(),
            old(self).readonly(name@) ==> r is Err && final(self).layers() == old(self).layers()
                && final(self).exit_status == 1,
            !old(self).readonly(name@) ==> r is Ok && final(self).exit_status == old(
                self,
            ).exit_status && (binding_put_shape(*old(self), *final(self), layer as int, name@)
                && (final(self).layer_entry(layer as int, name@)->Some_0.value matches
                Value::AssocArray(ad) && ad.data@.len() == 0)),
            final(self).position_parameters == old(self).position_parameters,
            final(self).alias_list() == old(self).alias_list(),
            final(self).env() == old(self).env(),
            final(self).flags == old(self).flags,
            final(self).last_arg == old(self).last_arg,
    {
        if self.is_readonly(name) {
            self.exit_status = 1;
            return Err(readonly_message(name));
        }
        self.put_binding(layer, name, Value::AssocArray(crate::variable::AssocData { data: Vec::new() }));
        Ok(())
    }

    /// Writes one element of the indexed array `name` at the layer,
    /// creating the array when the name is free and growing it when `pos`
    /// lies past the end. A binding of another kind is refused.
    pub fn set_layer_array_elem(&mut self, name: &str, val: &String, layer: usize, pos: usize)
        -> (r: Result<(), String>)
        requires
            old(self).wf(),
            layer < old(self).num_layers(),
        ensures
            final(self).wf(),
            old(self).readonly(name@) ==> r is Err && final(self).layers() == old(self).layers()
                && final(self).exit_status == 1,
            !old(self).readonly(name@) ==> final(self).exit_status == old(self).exit_status
                && (match old(self).layer_entry(layer as int, name@) {
                Some(ov) => match ov.value {
                    Value::Array(ad) => r is Ok && binding_put_shape(
                        *old(self),
                        *final(self),
                        layer as int,
                        name@,
                    ) && (final(self).layer_entry(layer as int, name@)->Some_0.value matches
                        Value::Array(nd) && nd.data@.map_values(|s: String| s@) == spec_elem_pad(
                        ad.data@.map_values(|s: String| s@),
                        pos as int,
                        val@,
                    )),
                    Value::Unset => r is Ok && binding_put_shape(
                        *old(self),
                        *final(self),
                        layer as int,
                        name@,
                    ) && (final(self).layer_entry(layer as int, name@)->Some_0.value matches
                        Value::Array(nd) && nd.data@.map_values(|s: String| s@) == spec_elem_pad(
                        Seq::empty(),
                        pos as int,
                        val@,
                    )),
                    _ => r is Err && final(self).layers() == old(self).layers(),
                },
                None => r is Ok && binding_put_shape(
                    *old(self),
                    *final(self),
                    layer as int,
                    name@,
                ) && (final(self).layer_entry(layer as int, name@)->Some_0.value matches
                    Value::Array(nd) && nd.data@.map_values(|s: String| s@) == spec_elem_pad(
                    Seq::empty(),
                    pos as int,
                    val@,
                )),
            }),
            final(self).position_parameters == old(self).position_parameters,
            final(self).alias_list() == old(self).alias_list(),
            final(self).env() == old(self).env(),
            final(self).flags == old(self).flags,
            final(self).last_arg == old(self).last_arg,
    {
        if self.is_readonly(name) {
            self.exit_status = 1;
            return Err(readonly_message(name));
        }
        let found = pairs::pairs_find(&self.params[layer], name);
        let old_elems: Vec<String> = match found {
            Some(i) => {
                match &self.params[layer][i].1.value {
                    Value::Array(ad) => ad.get_all(),
                    Value::Unset => Vec::new(),
                    _ => {
                        return Err(not_array_message(name));
                    },
                }
            },
            None => Vec::new(),
        };
        let padded = pad_elems(old_elems, pos, val);
        self.put_binding(layer, name, Value::Array(crate::array::ArrayData { data: padded }));
        Ok(())
    }

    /// Writes one element of the associative array `name` at the layer,
    /// creating the array when the name is free. A binding of another kind
    /// is refused.
    pub fn set_layer_assoc_elem(&mut self, name: &str, key: &String, val: &String, layer: usize)
        -> (r: Result<(), String>)
        requires
            old(self).wf(),
            layer < old(self).num_layers(),
        ensures
            final(self).wf(),
            old(self).readonly(name@) ==> r is Err && final(self).layers() == old(self).layers()
                && final(self).exit_status == 1,
            !old(self).readonly(name@) ==> final(self).exit_status == old(self).exit_status
                && (match old(self).layer_entry(layer as int, name@) {
                Some(ov) => match ov.value {
                    Value::AssocArray(ad) => r is Ok && binding_put_shape(
                        *old(self),
                        *final(self),
                        layer as int,
                        name@,
                    ) && (final(self).layer_entry(layer as int, name@)->Some_0.value matches
                        Value::AssocArray(nd) && spec_pairs_opt_view(nd.data@, key@) == Some(val@)
                        && (forall|k: Seq<char>|
                        k != key@ ==> #[trigger] spec_pairs_opt_view(nd.data@, k)
                            == spec_pairs_opt_view(ad.data@, k))),
                    Value::Unset => r is Ok && binding_put_shape(
                        *old(self),
                        *final(self),
                        layer as int,
                        name@,
                    ) && (final(self).layer_entry(layer as int, name@)->Some_0.value matches
                        Value::AssocArray(nd) && spec_pairs_opt_view(nd.data@, key@) == Some(
                        val@,
                    )),
                    _ => r is Err && final(self).layers() == old(self).layers(),
                },
                None => r is Ok && binding_put_shape(
                    *old(self),
                    *final(self),
                    layer as int,
                    name@,
                ) && (final(self).layer_entry(layer as int, name@)->Some_0.value matches
                    Value::AssocArray(nd) && spec_pairs_opt_view(nd.data@, key@) == Some(val@)),
            }),
            final(self).position_parameters == old(self).position_parameters,
            final(self).alias_list() == old(self).alias_list(),
            final(self).env() == old(self).env(),
            final(self).flags == old(self).flags,
            final(self).last_arg == old(self).last_arg,
    {
        if self.is_readonly(name) {
            self.exit_status = 1;
            return Err(readonly_message(name));
        }
        let found = pairs::pairs_find(&self.params[layer], name);
        let mut assoc: crate::variable::AssocData = match found {
            Some(i) => {
                match &self.params[layer][i].1.value {
                    Value::AssocArray(ad) => ad.copied(),
                    Value::Unset => crate::variable::AssocData { data: Vec::new() },
                    _ => {
                        return Err(not_assoc_message(name));
                    },
                }
            },
            None => crate::variable::AssocData { data: Vec::new() },
        };
        let ghost ad0 = assoc.data@;
        assoc.set(key.clone(), val.clone());
        self.put_binding(layer, name, Value::AssocArray(assoc));
        Ok(())
    }

    /// Writes a whole indexed array at the layer resolution picks.
    pub fn set_array(&mut self, name: &str, v: Vec<String>) -> (r: Result<(), String>)
        requires
            old(self).wf(),
        ensures
            final(self).wf(),
            old(self).readonly(name@) ==> r is Err && final(self).layers() == old(self).layers()
                && final(self).exit_status == 1,
            !old(self).readonly(name@) ==> r is Ok && (final(self).lookup(name@) matches Some(nv)
                && nv.value matches Value::Array(nd) && nd.data@.map_values(|s: String| s@)
                == v@.map_values(|s: String| s@)),
            final(self).position_parameters == old(self).position_parameters,
            final(self).flags == old(self).flags,
            final(self).last_arg == old(self).last_arg,
    {
        let layer = self.solve_layer(name);
        let ghost pre = *self;
        proof {
            lemma_solve_from_range(pre, name@, pre.num_layers() - 1);
            lemma_solve_upper_empty(pre, name@, pre.num_layers() - 1);
        }
        let r = self.set_layer_array(name, v, layer);
        proof {
            if !pre.readonly(name@) {
                lemma_put_resolved_lookup(pre, *self, layer as int, name@);
            }
        }
        r
    }

    /// Creates an empty associative array at the layer resolution picks.
    pub fn set_assoc(&mut self, name: &str) -> (r: Result<(), String>)
        requires
            old(self).wf(),
        ensures
            final(self).wf(),
            old(self).readonly(name@) ==> r is Err && final(self).layers() == old(self).layers()
                && final(self).exit_status == 1,
            !old(self).readonly(name@) ==> r is Ok && (final(self).lookup(name@) matches Some(nv)
                && nv.value matches Value::AssocArray(nd) && nd.data@.len() == 0),
            final(self).flags == old(self).flags,
            final(self).last_arg == old(self).last_arg,
    {
        let layer = self.solve_layer(name);
        let ghost pre = *self;
        proof {
            lemma_solve_from_range(pre, name@, pre.num_layers() - 1);
            lemma_solve_upper_empty(pre, name@, pre.num_layers() - 1);
        }
        let r = self.set_layer_assoc(name, layer);
        proof {
            if !pre.readonly(name@) {
                lemma_put_resolved_lookup(pre, *self, layer as int, name@);
            }
        }
        r
    }

    /// Writes one indexed-array element at the layer resolution picks.
    pub fn set_array_elem(&mut self, name: &str, val: &String, pos: usize) -> (r: Result<
        (),
        String,
    >)
        requires
            old(self).wf(),
        ensures
            final(self).wf(),
            old(self).readonly(name@) ==> r is Err && final(self).layers() == old(self).layers()
                && final(self).exit_status == 1,
            !old(self).readonly(name@) && (match old(self).lookup(name@) {
                Some(ov) => ov.value is Array || ov.value is Unset,
                None => true,
            }) ==> r is Ok && (final(self).lookup(name@) matches Some(nv)
                && nv.value matches Value::Array(nd) && nd.data@.map_values(|s: String| s@)
                == spec_elem_pad(
                (match old(self).lookup(name@) {
                    Some(ov) => match ov.value {
                        Value::Array(ad) => ad.data@.map_values(|s: String| s@),
                        _ => Seq::empty(),
                    },
                    None => Seq::empty(),
                }),
                pos as int,
                val@,
            )),
            !old(self).readonly(name@) && (old(self).lookup(name@) matches Some(ov) && !(ov.value
                is Array || ov.value is Unset)) ==> r is Err && final(self).layers() == old(
                self,
            ).layers(),
            final(self).flags == old(self).flags,
            final(self).last_arg == old(self).last_arg,
    {
        let layer = self.solve_layer(name);
        let ghost pre = *self;
        proof {
            lemma_solve_from_range(pre, name@, pre.num_layers() - 1);
            lemma_solve_upper_empty(pre, name@, pre.num_layers() - 1);
            if pre.has_name(name@) {
                assert(pre.lookup(name@) == pre.layer_entry(layer as int, name@));
            } else {
                assert(!pre.layer_has(layer as int, name@));
                assert(pre.layer_entry(layer as int, name@) is None);
            }
        }
        let r = self.set_layer_array_elem(name, val, layer, pos);
        proof {
            if !pre.readonly(name@) && r is Ok {
                lemma_put_resolved_lookup(pre, *self, layer as int, name@);
            }
        }
        r
    }

    /// Writes one associative-array element at the layer resolution picks.
    pub fn set_assoc_elem(&mut self, name: &str, key: &String, val: &String) -> (r: Result<
        (),
        String,
    >)
        requires
            old(self).wf(),
        ensures
            final(self).wf(),
            old(self).readonly(name@) ==> r is Err && final(self).layers() == old(self).layers()
                && final(self).exit_status == 1,
            !old(self).readonly(name@) && (match old(self).lookup(name@) {
                Some(ov) => ov.value is AssocArray || ov.value is Unset,
                None => true,
            }) ==> r is Ok && (final(self).lookup(name@) matches Some(nv)
                && nv.value matches Value::AssocArray(nd) && spec_pairs_opt_view(nd.data@, key@)
                == Some(val@)),
            !old(self).readonly(name@) && (old(self).lookup(name@) matches Some(ov) && !(ov.value
                is AssocArray || ov.value is Unset)) ==> r is Err && final(self).layers() == old(
                self,
            ).layers(),
            final(self).flags == old(self).flags,
            final(self).last_arg == old(self).last_arg,
    {
        let layer = self.solve_layer(name);
        let ghost pre = *self;
        proof {
            lemma_solve_from_range(pre, name@, pre.num_layers() - 1);
            lemma_solve_upper_empty(pre, name@, pre.num_layers() - 1);
            if pre.has_name(name@) {
                assert(pre.lookup(name@) == pre.layer_entry(layer as int, name@));
            } else {
                assert(!pre.layer_has(layer as int, name@));
                assert(pre.layer_entry(layer as int, name@) is None);
            }
        }
        let r = self.set_layer_assoc_elem(name, key, val, layer);
        proof {
            if !pre.readonly(name@) && r is Ok {
                lemma_put_resolved_lookup(pre, *self, layer as int, name@);
            }
        }
        r
    }
}

/// One element write, at the concrete level: pads with empty strings to
/// reach `pos` when needed.
fn pad_elems(elems: Vec<String>, pos: usize, val: &String) -> (r: Vec<String>)
    ensures
        r@.map_values(|s: String| s@) == spec_elem_pad(
            elems@.map_values(|s: String| s@),
            pos as int,
            val@,
        ),
{
    let mut out = elems;
    if pos < out.len() {
        let ghost before = out@.map_values(|s: String| s@);
        out.set(pos, val.clone());
        proof {
            assert(out@.map_values(|s: String| s@) =~= before.update(pos as int, val@));
        }
        out
    } else {
        let ghost before = out@.map_values(|s: String| s@);
        while out.len() < pos
            invariant
                out@.len() <= pos,
                out@.map_values(|s: String| s@) == before + Seq::new(
                    (out@.len() - before.len()) as nat,
                    |i: int| Seq::<char>::empty(),
                ),
                before.len() <= out@.len(),
            decreases pos - out@.len(),
        {
            let ghost mid = out@.map_values(|s: String| s@);
            out.push(String::new());
            proof {
                assert(out@.map_values(|s: String| s@) =~= mid.push(Seq::<char>::empty()));
                assert(out@.map_values(|s: String| s@) =~= before + Seq::new(
                    (out@.len() - before.len()) as nat,
                    |i: int| Seq::<char>::empty(),
                ));
            }
        }
        let ghost mid = out@.map_values(|s: String| s@);
        out.push(val.clone());
        proof {
            assert(out@.map_values(|s: String| s@) =~= mid.push(val@));
            assert(out@.map_values(|s: String| s@) =~= spec_elem_pad(before, pos as int, val@));
        }
        out
    }
}

fn not_array_message(name: &str) -> (r: String)
    ensures
        r@ == name@ + ": not an indexed array"@,
{
    let mut m = String::from_str(name);
    m.append(": not an indexed array");
    m
}

fn not_assoc_message(name: &str) -> (r: String)
    ensures
        r@ == name@ + ": not an associative array"@,
{
    let mut m = String::from_str(name);
    m.append(": not an associative array");
    m
}

/// After a `put_binding`: the named layer binds `name` to exactly `value`,
/// attributes surviving from an earlier binding; all else is untouched.
pub open spec fn binding_put(
    a: DataBase,
    b: DataBase,
    layer: int,
    name: Seq<char>,
    value: Value,
) -> bool {
    &&& binding_put_shape(a, b, layer, name)
    &&& b.layer_entry(layer, name)->Some_0.value == value
}

/// The shape every binding write leaves behind: only the named binding of
/// the named layer changed, and its attributes survived (a fresh binding
/// has none).
pub open spec fn binding_put_shape(a: DataBase, b: DataBase, layer: int, name: Seq<char>) -> bool {
    &&& b.num_layers() == a.num_layers()
    &&& forall|l: int| 0 <= l < a.num_layers() && l != layer ==> #[trigger] b.layers()[l]
        == a.layers()[l]
    &&& b.layer_entry(layer, name) is Some
    &&& b.layer_entry(layer, name)->Some_0.attributes@ == (match a.layer_entry(layer, name) {
        Some(ov) => ov.attributes@,
        None => Seq::<char>::empty(),
    })
    &&& forall|k: Seq<char>|
        k != name ==> #[trigger] spec_entry_view(b, layer, k) == spec_entry_view(a, layer, k)
}

/// A binding stored as an indexed array with exactly these elements.
pub open spec fn binding_put_array(
    a: DataBase,
    b: DataBase,
    layer: int,
    name: Seq<char>,
    elems: Seq<String>,
) -> bool {
    &&& binding_put_shape(a, b, layer, name)
    &&& b.layer_entry(layer, name)->Some_0.value matches Value::Array(ad) && ad.data@ == elems
}

/// After a put at the layer that resolution picked, the resolved read sees
/// the fresh binding.
pub proof fn lemma_put_resolved_lookup(a: DataBase, b: DataBase, layer: int, name: Seq<char>)
    requires
        a.wf(),
        b.wf(),
        b.num_layers() == a.num_layers(),
        layer == (if a.has_name(name) {
            a.top_layer_of(name)
        } else {
            0int
        }),
        binding_put_shape(a, b, layer, name),
    ensures
        b.lookup(name) == b.layer_entry(layer, name),
{
    lemma_solve_from_range(a, name, a.num_layers() - 1);
    lemma_solve_upper_empty(a, name, a.num_layers() - 1);
    assert(spec_pairs_idx(b.layers()[layer], name) >= 0) by {
        pairs::lemma_pairs_idx_props(b.layers()[layer], name);
        if spec_pairs_idx(b.layers()[layer], name) == -1 {
            assert(b.layer_entry(layer, name) is None);
        }
    }
    assert forall|l: int| layer < l < b.num_layers() implies !(#[trigger] b.layer_has(l, name)) by {
        assert(b.layers()[l] == a.layers()[l]);
        assert(!a.layer_has(l, name));
    }
    lemma_solve_from_found(b, name, b.num_layers() - 1, layer);
}

/// The fields that layer mutations leave alone.
pub open spec fn unchanged_but_params(a: DataBase, b: DataBase) -> bool {
    &&& b.position_parameters == a.position_parameters
    &&& b.alias_list() == a.alias_list()
    &&& b.function_list() == a.function_list()
    &&& b.alias_memo == a.alias_memo
    &&& b.exit_status == a.exit_status
    &&& b.last_arg == a.last_arg
    &&& b.env() == a.env()
    &&& b.flags == a.flags
}

/// The fields that an environment write leaves alone.
pub open spec fn unchanged_but_params_env(a: DataBase, b: DataBase) -> bool {
    &&& b.position_parameters == a.position_parameters
    &&& b.alias_list() == a.alias_list()
    &&& b.function_list() == a.function_list()
    &&& b.alias_memo == a.alias_memo
    &&& b.exit_status == a.exit_status
    &&& b.last_arg == a.last_arg
    &&& b.flags == a.flags
}

/// The environment model after a write of `name`: updated when it already
/// knew the name or the name carries the export attribute, untouched
/// otherwise; other names keep their values.
pub open spec fn env_mirrored(a: DataBase, b: DataBase, name: Seq<char>, val: Seq<char>) -> bool {
    &&& spec_pairs_has(a.env(), name) || a.exported(name) ==> spec_pairs_opt_view(b.env(), name)
        == Some(val)
    &&& !(spec_pairs_has(a.env(), name) || a.exported(name)) ==> b.env() == a.env()
    &&& forall|k: Seq<char>|
        k != name ==> #[trigger] spec_pairs_opt_view(b.env(), k) == spec_pairs_opt_view(a.env(), k)
}

/// After creating a binding: the named layer gains `name` bound to a plain
/// scalar; everything else is as it was.
pub open spec fn layer_binding_set(
    a: DataBase,
    b: DataBase,
    layer: int,
    name: Seq<char>,
    val: Seq<char>,
) -> bool {
    &&& b.num_layers() == a.num_layers()
    &&& forall|l: int| 0 <= l < a.num_layers() && l != layer ==> #[trigger] b.layers()[l]
        == a.layers()[l]
    &&& b.layer_entry(layer, name) matches Some(v) && (v.value matches Value::Single(sd)
        && sd.data@ == val) && v.attributes@.len() == 0
    &&& forall|k: Seq<char>|
        k != name ==> #[trigger] spec_entry_view(b, layer, k) == spec_entry_view(a, layer, k)
}

/// After overwriting a binding: a scalar took the new text and kept its
/// attributes; any other kind of value stayed exactly as it was.
pub open spec fn layer_binding_updated(
    a: DataBase,
    b: DataBase,
    layer: int,
    name: Seq<char>,
    val: Seq<char>,
) -> bool {
    &&& b.num_layers() == a.num_layers()
    &&& forall|l: int| 0 <= l < a.num_layers() && l != layer ==> #[trigger] b.layers()[l]
        == a.layers()[l]
    &&& a.layer_entry(layer, name) matches Some(ov) && ({
        &&& ov.value is Single ==> (b.layer_entry(layer, name) matches Some(v) && (
        v.value matches Value::Single(sd) && sd.data@ == val) && v.attributes@
            == ov.attributes@)
        &&& !(ov.value is Single) ==> b.layers() == a.layers()
    })
    &&& forall|k: Seq<char>|
        k != name ==> #[trigger] spec_entry_view(b, layer, k) == spec_entry_view(a, layer, k)
}

/// A layer's binding of `k`, as an optional Variable; the shape contracts
/// quantify over.
pub open spec fn spec_entry_view(d: DataBase, layer: int, k: Seq<char>) -> Option<Variable> {
    d.layer_entry(layer, k)
}

impl DataBase {
    /// A fresh database: one global layer, default flags, exit status 0,
    /// and the built-in dynamic variables registered with their seeds.
    pub fn new() -> (db: DataBase)
        ensures
            db.wf(),
            db.num_layers() == 1,
            db.exit_status == 0,
            db.flags@ == "B"@,
            db.position_parameters@.len() == 1,
            db.alias_list().len() == 0,
            db.function_list().len() == 0,
            db.env().len() == 0,
            db.lookup_single("OPTIND"@) == Some("1"@),
            db.lookup_single("BASH_SUBSHELL"@) == Some("0"@),
            db.lookup("RANDOM"@) matches Some(v) && (v.value matches Value::Special(sd)
                && sd.getter == DynamicGetter::Random),
            db.lookup("SECONDS"@) matches Some(v) && (v.value matches Value::Special(sd)
                && sd.getter == DynamicGetter::Seconds),
    {
        let mut params: Vec<Vec<(String, Variable)>> = Vec::new();
        params.push(Vec::new());
        let mut position_parameters: Vec<Vec<String>> = Vec::new();
        let mut first_positions: Vec<String> = Vec::new();
        first_positions.push(String::from_str("sush"));
        position_parameters.push(first_positions);
        let mut db = DataBase {
            flags: String::from_str("B"),
            params,
            position_parameters,
            aliases: Vec::new(),
            functions: Vec::new(),
            alias_memo: Vec::new(),
            exit_status: 0,
            last_arg: String::new(),
            env_vars: Vec::new(),
        };
        let pid = sys::sys_getpid();
        let pid_str = text::i32_to_string(pid);
        db.put_binding(0, "$", Value::Single(SingleData { data: pid_str.clone() }));
        db.put_binding(0, "BASHPID", Value::Single(SingleData { data: pid_str }));
        let empty_names: Vec<String> = Vec::new();
        db.put_binding(0, "FUNCNAME", Value::Array(crate::array::ArrayData { data: empty_names }));
        let seed = clock::seconds_seed();
        db.set_special_variable("EPOCHREALTIME", DynamicGetter::EpochRealtime, String::new());
        db.set_special_variable("EPOCHSECONDS", DynamicGetter::EpochSeconds, String::new());
        let srandom_seed = crate::random::random_seed_string();
        db.set_special_variable("SRANDOM", DynamicGetter::SRandom, srandom_seed);
        let random_seed = crate::random::random_seed_string();
        db.set_special_variable("SECONDS", DynamicGetter::Seconds, seed);
        let ghost d1 = db;
        db.set_special_variable("RANDOM", DynamicGetter::Random, random_seed);
        let ghost d2 = db;
        db.put_binding(0, "BASH_SUBSHELL", Value::Single(SingleData { data: String::from_str("0") }));
        let ghost d3 = db;
        db.put_binding(0, "OPTIND", Value::Single(SingleData { data: String::from_str("1") }));
        proof {
            reveal_strlit("OPTIND");
            reveal_strlit("BASH_SUBSHELL");
            reveal_strlit("RANDOM");
            reveal_strlit("SECONDS");
            reveal_strlit("B");
            reveal_strlit("0");
            reveal_strlit("1");
            assert("BASH_SUBSHELL"@.len() == 13 && "OPTIND"@.len() == 6 && "RANDOM"@.len() == 6
                && "SECONDS"@.len() == 7);
            assert("RANDOM"@[0] == 'R' && "OPTIND"@[0] == 'O');
            assert("BASH_SUBSHELL"@ != "OPTIND"@);
            assert("RANDOM"@ != "OPTIND"@);
            assert(spec_entry_view(db, 0, "BASH_SUBSHELL"@) == spec_entry_view(
                d3,
                0,
                "BASH_SUBSHELL"@,
            ));
            assert(spec_entry_view(db, 0, "RANDOM"@) == spec_entry_view(d3, 0, "RANDOM"@));
            assert(spec_entry_view(d3, 0, "RANDOM"@) == spec_entry_view(d2, 0, "RANDOM"@));
            assert(spec_entry_view(db, 0, "SECONDS"@) == spec_entry_view(d3, 0, "SECONDS"@));
            assert(spec_entry_view(d3, 0, "SECONDS"@) == spec_entry_view(d2, 0, "SECONDS"@));
            assert(spec_entry_view(d2, 0, "SECONDS"@) == spec_entry_view(d1, 0, "SECONDS"@));
            lemma_one_layer_lookup(db, "OPTIND"@);
            lemma_one_layer_lookup(db, "BASH_SUBSHELL"@);
            lemma_one_layer_lookup(db, "RANDOM"@);
            lemma_one_layer_lookup(db, "SECONDS"@);
        }
                db
    }

    /// Registers a dynamic variable in the global layer, with the seed its
    /// getter starts from.
    pub fn set_special_variable(&mut self, key: &str, getter: DynamicGetter, seed: String)
        requires
            old(self).wf(),
        ensures
            final(self).wf(),
            binding_put_shape(*old(self), *final(self), 0, key@),
            final(self).layer_entry(0, key@)->Some_0.value matches Value::Special(sd)
                && sd.getter == getter && sd.data@ == seed@,
            unchanged_but_params(*old(self), *final(self)),
    {
        self.put_binding(0, key, Value::Special(SpecialData { data: seed, getter }));
    }

    /// The character length, element count or pair count of the innermost
    /// binding; 0 for an absent name.
    pub fn len(&self, key: &str) -> (r: usize)
        requires
            self.wf(),
        ensures
            r == spec_value_len(self.lookup(key@)),
    {
        match self.get_layer_pos(key) {
            Some(l) => {
                match pairs::pairs_find(&self.params[l], key) {
                    Some(i) => {
                        match &self.params[l][i].1.value {
                            Value::Single(sd) => sd.data.as_str().unicode_len(),
                            Value::Special(sd) => sd.data.as_str().unicode_len(),
                            Value::Array(ad) => ad.len(),
                            Value::AssocArray(ad) => ad.len(),
                            Value::Unset => 0,
                        }
                    },
                    None => {
                        proof {
                            lemma_solve_from_range(*self, key@, self.num_layers() - 1);
                        }
                        assert(false);
                        0
                    },
                }
            },
            None => 0,
        }
    }

    /// Whether the innermost binding holds an indexed array.
    pub fn is_array(&self, name: &str) -> (r: bool)
        requires
            self.wf(),
        ensures
            r == (self.lookup(name@) matches Some(v) && v.value is Array),
    {
        match self.get_layer_pos(name) {
            Some(l) => {
                match pairs::pairs_find(&self.params[l], name) {
                    Some(i) => {
                        match &self.params[l][i].1.value {
                            Value::Array(_) => true,
                            _ => false,
                        }
                    },
                    None => {
                        proof {
                            lemma_solve_from_range(*self, name@, self.num_layers() - 1);
                        }
                        assert(false);
                        false
                    },
                }
            },
            None => false,
        }
    }

    /// Whether the innermost binding holds an associative array.
    pub fn is_assoc(&self, name: &str) -> (r: bool)
        requires
            self.wf(),
        ensures
            r == (self.lookup(name@) matches Some(v) && v.value is AssocArray),
    {
        match self.get_layer_pos(name) {
            Some(l) => {
                match pairs::pairs_find(&self.params[l], name) {
                    Some(i) => {
                        match &self.params[l][i].1.value {
                            Value::AssocArray(_) => true,
                            _ => false,
                        }
                    },
                    None => {
                        proof {
                            lemma_solve_from_range(*self, name@, self.num_layers() - 1);
                        }
                        assert(false);
                        false
                    },
                }
            },
            None => false,
        }
    }

    /// All elements of the indexed array `name`, empty for anything else.
    pub fn get_array_all(&self, key: &str) -> (r: Vec<String>)
        requires
            self.wf(),
        ensures
            r@.map_values(|s: String| s@) == (match self.lookup(key@) {
                Some(v) => match v.value {
                    Value::Array(ad) => ad.data@.map_values(|s: String| s@),
                    _ => Seq::<Seq<char>>::empty(),
                },
                None => Seq::<Seq<char>>::empty(),
            }),
    {
        match self.get_layer_pos(key) {
            Some(l) => {
                match pairs::pairs_find(&self.params[l], key) {
                    Some(i) => {
                        match &self.params[l][i].1.value {
                            Value::Array(ad) => {
                                let r = ad.get_all();
                                r
                            },
                            _ => Vec::new(),
                        }
                    },
                    None => {
                        proof {
                            lemma_solve_from_range(*self, key@, self.num_layers() - 1);
                        }
                        assert(false);
                        Vec::new()
                    },
                }
            },
            None => Vec::new(),
        }
    }

    /// One element of the array or associative array `name`: `@` joins an
    /// indexed array with blanks; an index out of range or of the wrong
    /// shape gives the empty string.
    pub fn get_array(&self, name: &str, pos: &str) -> (r: String)
        requires
            self.wf(),
        ensures
            r@ == spec_get_array(*self, name@, pos@),
    {
        proof {
            reveal_strlit("@");
        }
        match self.get_layer_pos(name) {
            Some(l) => {
                match pairs::pairs_find(&self.params[l], name) {
                    Some(i) => {
                        match &self.params[l][i].1.value {
                            Value::AssocArray(ad) => {
                                match ad.get(pos) {
                                    Some(s) => s,
                                    None => String::new(),
                                }
                            },
                            Value::Array(ad) => {
                                if text::str_eq(pos, "@") {
                                    ad.join(" ")
                                } else {
                                    match text::parse_usize(pos) {
                                        Some(n) => {
                                            match ad.get(n) {
                                                Some(s) => s,
                                                None => String::new(),
                                            }
                                        },
                                        None => String::new(),
                                    }
                                }
                            },
                            _ => String::new(),
                        }
                    },
                    None => {
                        proof {
                            lemma_solve_from_range(*self, name@, self.num_layers() - 1);
                        }
                        assert(false);
                        String::new()
                    },
                }
            },
            None => String::new(),
        }
    }

    /// The position parameters of the innermost scope, without the leading
    /// script name.
    pub fn get_position_params(&self) -> (r: Vec<String>)
        ensures
            r@.map_values(|s: String| s@) == spec_tail_positions(*self),
    {
        let n = self.position_parameters.len();
        if n == 0 {
            let r: Vec<String> = Vec::new();
            assert(r@.map_values(|s: String| s@) =~= spec_tail_positions(*self));
            return r;
        }
        let last = &self.position_parameters[n - 1];
        let m = last.len();
        let mut out: Vec<String> = Vec::new();
        if m == 0 {
            assert(out@.map_values(|s: String| s@) =~= spec_tail_positions(*self));
            return out;
        }
        let mut i: usize = 1;
        while i < m
            invariant
                1 <= i <= m,
                m == last@.len(),
                last == self.position_parameters@[self.position_parameters@.len() - 1],
                out@.len() == i - 1,
                forall|j: int| 0 <= j < i - 1 ==> out@[j] == last@[j + 1],
            decreases m - i,
        {
            out.push(last[i].clone());
            i += 1;
        }
        assert(out@.map_values(|s: String| s@) =~= spec_tail_positions(*self));
        out
    }

    /// Drops every binding of `name` from every layer.
    pub fn unset_var(&mut self, name: &str)
        requires
            old(self).wf(),
        ensures
            final(self).wf(),
            final(self).num_layers() == old(self).num_layers(),
            forall|l: int|
                0 <= l < final(self).num_layers() ==> !(#[trigger] final(self).layer_has(
                    l,
                    name@,
                )),
            forall|l: int, k: Seq<char>|
                0 <= l < final(self).num_layers() && k != name@ ==> #[trigger] spec_entry_view(
                    *final(self),
                    l,
                    k,
                ) == spec_entry_view(*old(self), l, k),
            !final(self).has_name(name@),
            !final(self).readonly(name@),
            unchanged_but_params(*old(self), *final(self)),
    {
        let n = self.params.len();
        let ghost pre = *self;
        let mut l: usize = 0;
        while l < n
            invariant
                l <= n,
                n == self.num_layers(),
                n == pre.num_layers(),
                self.position_parameters == pre.position_parameters,
                self.aliases == pre.aliases,
                self.functions == pre.functions,
                self.alias_memo == pre.alias_memo,
                self.exit_status == pre.exit_status,
                self.last_arg == pre.last_arg,
                self.env_vars == pre.env_vars,
                self.flags == pre.flags,
                forall|j: int| l <= j < n ==> #[trigger] self.layers()[j] == pre.layers()[j],
                forall|j: int| 0 <= j < l ==> !(#[trigger] self.layer_has(j, name@)),
                forall|j: int, k: Seq<char>|
                    0 <= j < l && k != name@ ==> #[trigger] spec_entry_view(*self, j, k)
                        == spec_entry_view(pre, j, k),
            decreases n - l,
        {
            let ghost before = *self;
            let lv = &mut self.params[l];
            pairs::pairs_remove_all(lv, name);
            proof {
                assert(forall|j: int|
                    0 <= j < n && j != l ==> #[trigger] self.layers()[j] == before.layers()[j]);
                assert(!self.layer_has(l as int, name@));
                assert(forall|k: Seq<char>|
                    k != name@ ==> #[trigger] spec_pairs_get(self.layers()[l as int], k)
                        == spec_pairs_get(before.layers()[l as int], k));
                assert forall|j: int| 0 <= j < l + 1 implies !(#[trigger] self.layer_has(
                    j,
                    name@,
                )) by {
                    if j < l {
                        assert(self.layers()[j] == before.layers()[j]);
                        assert(!before.layer_has(j, name@));
                    }
                }
                assert forall|j: int, k: Seq<char>|
                    0 <= j < l + 1 && k != name@ implies #[trigger] spec_entry_view(
                    *self,
                    j,
                    k,
                ) == spec_entry_view(pre, j, k) by {
                    if j < l {
                        assert(self.layers()[j] == before.layers()[j]);
                        assert(spec_entry_view(before, j, k) == spec_entry_view(pre, j, k));
                    } else {
                        assert(spec_pairs_get(self.layers()[l as int], k) == spec_pairs_get(
                            before.layers()[l as int],
                            k,
                        ));
                        assert(before.layers()[j] == pre.layers()[j]);
                    }
                }
            }
            l += 1;
        }
        proof {
            lemma_solve_no_layer(*self, name@, self.num_layers() - 1);
            assert forall|j: int| 0 <= j < self.num_layers() implies !((#[trigger] self.layer_entry(
                j,
                name@,
            )) matches Some(v) && v.attributes@.contains('r')) by {
                assert(!self.layer_has(j, name@));
                pairs::lemma_pairs_idx_props(self.layers()[j], name@);
            }
        }
    }

    /// Forgets the function definition stored under `name`, if any.
    pub fn unset_function(&mut self, name: &str)
        ensures
            !spec_pairs_has(final(self).function_list(), name@),
            forall|k: Seq<char>|
                k != name@ ==> #[trigger] spec_pairs_get(final(self).function_list(), k)
                    == spec_pairs_get(old(self).function_list(), k),
            final(self).layers() == old(self).layers(),
            final(self).alias_list() == old(self).alias_list(),
            final(self).exit_status == old(self).exit_status,
            final(self).flags == old(self).flags,
            final(self).env() == old(self).env(),
            final(self).position_parameters == old(self).position_parameters,
    {
        pairs::pairs_remove_all(&mut self.functions, name);
    }

    /// Drops both the variable and the function of that name.
    pub fn unset(&mut self, name: &str)
        requires
            old(self).wf(),
        ensures
            final(self).wf(),
            !final(self).has_name(name@),
            !spec_pairs_has(final(self).function_list(), name@),
            forall|l: int, k: Seq<char>|
                0 <= l < final(self).num_layers() && k != name@ ==> #[trigger] spec_entry_view(
                    *final(self),
                    l,
                    k,
                ) == spec_entry_view(*old(self), l, k),
            final(self).exit_status == old(self).exit_status,
            final(self).alias_list() == old(self).alias_list(),
    {
        self.unset_var(name);
        let ghost mid = *self;
        self.unset_function(name);
        proof {
            lemma_solve_layers_eq(mid, *self, name@, self.num_layers() - 1);
            assert forall|l: int, k: Seq<char>|
                0 <= l < final(self).num_layers() && k != name@ implies #[trigger] spec_entry_view(
                *self,
                l,
                k,
            ) == spec_entry_view(*old(self), l, k) by {
                assert(self.layers()[l] == mid.layers()[l]);
                assert(spec_entry_view(mid, l, k) == spec_entry_view(*old(self), l, k));
            }
        }
    }

    /// Stores a function definition's text under its name.
    pub fn set_function(&mut self, name: &str, body: &str)
        ensures
            spec_pairs_opt_view(final(self).function_list(), name@) == Some(body@),
            forall|k: Seq<char>|
                k != name@ ==> #[trigger] spec_pairs_opt_view(final(self).function_list(), k)
                    == spec_pairs_opt_view(old(self).function_list(), k),
            final(self).layers() == old(self).layers(),
            final(self).alias_list() == old(self).alias_list(),
            final(self).exit_status == old(self).exit_status,
            final(self).flags == old(self).flags,
    {
        pairs::pairs_set(&mut self.functions, name, body);
    }

    /// The stored text of the function `name`.
    pub fn get_function(&self, name: &str) -> (r: Option<String>)
        ensures
            match r {
                Some(s) => spec_pairs_opt_view(self.function_list(), name@) == Some(s@),
                None => spec_pairs_opt_view(self.function_list(), name@) is None,
            },
    {
        pairs::pairs_get_copy(&self.functions, name)
    }

    /// Marks the resolved binding of `name` with an attribute character,
    /// creating an unset global binding when the name is free.
    pub fn set_flag(&mut self, name: &str, flag: char)
        requires
            old(self).wf(),
        ensures
            final(self).wf(),
            final(self).num_layers() == old(self).num_layers(),
            flag == 'r' ==> final(self).readonly(name@),
            unchanged_but_params(*old(self), *final(self)),
    {
        let layer = self.solve_layer(name);
        let ghost pre = *self;
        let found = pairs::pairs_find(&self.params[layer], name);
        match found {
            Some(i) => {
                let key_copy = self.params[layer][i].0.clone();
                let mut attrs = self.params[layer][i].1.attributes.clone();
                text::push_char(&mut attrs, flag);
                let value = match &self.params[layer][i].1.value {
                    Value::Single(sd) => Value::Single(SingleData { data: sd.data.clone() }),
                    Value::Special(sd) => Value::Special(
                        SpecialData { data: sd.data.clone(), getter: sd.getter },
                    ),
                    Value::Array(ad) => Value::Array(
                        crate::array::ArrayData { data: ad.get_all() },
                    ),
                    Value::AssocArray(ad) => Value::AssocArray(ad.copied()),
                    Value::Unset => Value::Unset,
                };
                let ghost old_layer = self.layers()[layer as int];
                let lv = &mut self.params[layer];
                lv.set(i, (key_copy, Variable { value, attributes: attrs }));
                proof {
                    lemma_layers_after_inner_update(pre, *self, layer as int);
                    let nl = self.layers()[layer as int];
                    assert(nl =~= old_layer.update(
                        i as int,
                        (old_layer[i as int].0, nl[i as int].1),
                    ));
                    lemma_binding_update_effect(pre, *self, layer as int, i as int, name@);
                    if flag == 'r' {
                        let v = self.layer_entry(layer as int, name@)->Some_0;
                        assert(v.attributes@.last() == 'r');
                        assert(v.attributes@.contains('r'));
                        assert(0 <= layer < self.num_layers() && ((#[trigger] self.layer_entry(
                            layer as int,
                            name@,
                        )) matches Some(w) && w.attributes@.contains('r')));
                    }
                }
            },
            None => {
                let mut attrs = String::new();
                text::push_char(&mut attrs, flag);
                let ghost old_layer = self.layers()[layer as int];
                let lv = &mut self.params[layer];
                lv.push((String::from_str(name), Variable { value: Value::Unset, attributes: attrs }));
                proof {
                    lemma_layers_after_inner_update(pre, *self, layer as int);
                    let nl = self.layers()[layer as int];
                    assert(nl =~= old_layer.push(nl.last()));
                    lemma_binding_push_effect(pre, *self, layer as int, name@);
                    if flag == 'r' {
                        let v = self.layer_entry(layer as int, name@)->Some_0;
                        assert(v.attributes@ =~= Seq::<char>::empty().push(flag));
                        assert(v.attributes@.last() == 'r');
                        assert(v.attributes@.contains('r'));
                        assert(0 <= layer < self.num_layers() && ((#[trigger] self.layer_entry(
                            layer as int,
                            name@,
                        )) matches Some(w) && w.attributes@.contains('r')));
                    }
                }
            },
        }
    }
}

impl DataBase {
    /// The innermost layer, at or below `from`, whose binding of `name` is
    /// dynamic; -1 when none is.
    pub open spec fn spec_special_from(self, name: Seq<char>, from: int) -> int
        decreases from + 1 when from >= -1
    {
        if from < 0 {
            -1
        } else if self.layer_entry(from, name) matches Some(v) && v.value is Special {
            from
        } else {
            self.spec_special_from(name, from - 1)
        }
    }

    /// The number of position parameters, not counting the script name.
    pub open spec fn spec_position_count(self) -> int {
        if self.position_parameters@.len() == 0 {
            0
        } else if self.position_parameters@.last()@.len() == 0 {
            0
        } else {
            self.position_parameters@.last()@.len() - 1
        }
    }

    /// Reads one parameter: special names first, then position parameters,
    /// then dynamic variables, then stored bindings, and at last the
    /// process environment, whose hit is cached as a global binding.
    ///
    /// An invalid name is the one error. A dynamic RANDOM or SRANDOM read
    /// steps the stored generator state; every other read leaves the
    /// database unchanged, except for the environment cache.
    pub fn get_param(&mut self, name: &str) -> (r: Result<String, String>)
        requires
            old(self).wf(),
        ensures
            final(self).wf(),
            final(self).num_layers() == old(self).num_layers(),
            !utils::spec_is_param(name@) ==> r is Err && *final(self) == *old(self),
            utils::spec_is_param(name@) ==> r is Ok,
            name@ == "-"@ ==> (r matches Ok(v) && v@ == old(self).flags@) && *final(self) == *old(
                self,
            ),
            name@ == "?"@ ==> (r matches Ok(v) && v@ == text::spec_int_string(
                old(self).exit_status as int,
            )) && *final(self) == *old(self),
            name@ == "_"@ ==> (r matches Ok(v) && v@ == old(self).last_arg@) && *final(self)
                == *old(self),
            name@ == "#"@ ==> (r matches Ok(v) && v@ == text::spec_nat_digits(
                old(self).spec_position_count() as nat,
            )) && *final(self) == *old(self),
            (name@ == "@"@ || name@ == "*"@) ==> (r matches Ok(v) && v@ == text::spec_join(
                spec_tail_positions(*old(self)),
                " "@,
            )) && *final(self) == *old(self),
            spec_is_position_name(name@) ==> (r matches Ok(v) && v@ == spec_position_value(
                *old(self),
                name@,
            )) && *final(self) == *old(self),
            spec_is_generic_name(name@) && old(self).spec_special_from(
                name@,
                old(self).num_layers() - 1,
            ) == -1 && old(self).has_name(name@) ==> (r matches Ok(v) && v@ == spec_value_single(
                old(self).lookup(name@)->Some_0.value,
            )) && *final(self) == *old(self),
            spec_is_generic_name(name@) && old(self).spec_special_from(
                name@,
                old(self).num_layers() - 1,
            ) == -1 && !old(self).has_name(name@) && !old(self).readonly(name@) ==> (match
                spec_pairs_opt_view(old(self).env(), name@) {
                Some(ev) => (r matches Ok(v) && v@ == ev) && final(self).lookup_single(name@)
                    == Some(ev),
                None => (r matches Ok(v) && v@ == Seq::<char>::empty()) && *final(self) == *old(
                    self,
                ),
            }),
            spec_is_generic_name(name@) && old(self).spec_special_from(
                name@,
                old(self).num_layers() - 1,
            ) >= 0 ==> dynamic_read_effect(*old(self), *final(self), name@, r),
            final(self).last_arg == old(self).last_arg,
            final(self).exit_status == old(self).exit_status,
            final(self).position_parameters == old(self).position_parameters,
            final(self).alias_list() == old(self).alias_list(),
            final(self).function_list() == old(self).function_list(),
            final(self).flags == old(self).flags,
    {
        proof {
            reveal_strlit("-");
            reveal_strlit("?");
            reveal_strlit("_");
            reveal_strlit("#");
            reveal_strlit("@");
            reveal_strlit("*");
            assert(utils::spec_is_param("-"@));
            assert(utils::spec_is_param("?"@));
            assert(utils::spec_is_param("_"@));
            assert(utils::spec_is_param("#"@));
            assert(utils::spec_is_param("@"@));
            assert(utils::spec_is_param("*"@));
        }
        let owned = String::from_str(name);
        if !utils::is_param(&owned) {
            return Err(identifier_message(name));
        }
        let len = name.unicode_len();
        if len == 1 {
            let c = name.get_char(0);
            if c == '-' {
                assert(name@ =~= "-"@);
                return Ok(self.flags.clone());
            }
            if c == '?' {
                assert(name@ =~= "?"@);
                return Ok(text::i32_to_string(self.exit_status));
            }
            if c == '_' {
                assert(name@ =~= "_"@);
                return Ok(self.last_arg.clone());
            }
            if c == '#' {
                assert(name@ =~= "#"@);
                let count: usize = if self.position_parameters.len() == 0 {
                    0
                } else {
                    let last = &self.position_parameters[self.position_parameters.len() - 1];
                    if last.len() == 0 {
                        0
                    } else {
                        last.len() - 1
                    }
                };
                return Ok(text::usize_to_string(count));
            }
            if c == '@' || c == '*' {
                assert(name@ =~= (if c == '@' {
                    "@"@
                } else {
                    "*"@
                }));
                let tail = self.get_position_params();
                return Ok(text::join_strings(&tail, " "));
            }
            proof {
                assert(name@ != "-"@ && name@ != "?"@ && name@ != "_"@ && name@ != "#"@ && name@
                    != "@"@ && name@ != "*"@);
            }
        } else {
            proof {
                assert(name@.len() != 1);
            }
        }
        if is_position_name(name) {
            let n = match text::parse_usize(name) {
                Some(n) => n,
                None => {
                    assert(false);
                    0
                },
            };
            let m = self.position_parameters.len();
            if m == 0 {
                assert(spec_position_value(*self, name@) =~= Seq::<char>::empty());
                return Ok(String::new());
            }
            let last = &self.position_parameters[m - 1];
            if n < last.len() {
                return Ok(last[n].clone());
            }
            assert(spec_position_value(*self, name@) =~= Seq::<char>::empty());
            return Ok(String::new());
        }
        match self.find_special_layer(name) {
            Some((l, i)) => {
                let ghost pre = *self;
                let lv = &mut self.params[l];
                let entry = &mut lv[i];
                let value = entry.1.get_value();
                proof {
                    assert(self.params@.len() == pre.params@.len());
                    lemma_layers_after_inner_update(pre, *self, l as int);
                    let nl = self.layers()[l as int];
                    assert(nl =~= pre.layers()[l as int].update(
                        i as int,
                        (pre.layers()[l as int][i as int].0, nl[i as int].1),
                    ));
                    lemma_binding_update_effect(pre, *self, l as int, i as int, name@);
                }
                let out = match value {
                    Value::Single(sd) => sd.data,
                    Value::Special(sd) => sd.data,
                    _ => String::new(),
                };
                return Ok(out);
            },
            None => {},
        }
        let ghost pre = *self;
        match self.get_layer_pos(name) {
            Some(l) => {
                match pairs::pairs_find(&self.params[l], name) {
                    Some(i) => {
                        let v = match &self.params[l][i].1.value {
                            Value::Single(sd) => sd.data.clone(),
                            Value::Special(sd) => sd.data.clone(),
                            Value::Array(ad) => {
                                match ad.get(0) {
                                    Some(s) => s,
                                    None => String::new(),
                                }
                            },
                            Value::AssocArray(ad) => {
                                proof {
                                    reveal_strlit("0");
                                }
                                match ad.get("0") {
                                    Some(s) => s,
                                    None => String::new(),
                                }
                            },
                            Value::Unset => String::new(),
                        };
                        proof {
                            assert(self.lookup(name@) == self.layer_entry(l as int, name@));
                            if self.lookup(name@)->Some_0.value is Array {
                                assert(spec_value_single(self.lookup(name@)->Some_0.value) == v@);
                            }
                        }
                        Ok(v)
                    },
                    None => {
                        proof {
                            lemma_solve_from_range(*self, name@, self.num_layers() - 1);
                        }
                        assert(false);
                        Ok(String::new())
                    },
                }
            },
            None => {
                match pairs::pairs_get_copy(&self.env_vars, name) {
                    Some(v) => {
                        proof {
                            lemma_no_binding_not_readonly(*self, name@);
                        }
                        let res = self.set_layer_param(name, v.as_str(), 0);
                        proof {
                            lemma_solve_from_range(pre, name@, pre.num_layers() - 1);
                            lemma_solve_upper_empty(pre, name@, pre.num_layers() - 1);
                            lemma_set_resolved_lookup(pre, *self, 0, name@, v@);
                            assert(!pre.layer_has(0, name@));
                            assert(pre.layer_entry(0, name@) is None);
                        }
                        Ok(v)
                    },
                    None => Ok(String::new()),
                }
            },
        }
    }
}

impl DataBase {
    /// The innermost dynamic binding of `name`: its layer and its position
    /// in that layer.
    fn find_special_layer(&self, name: &str) -> (r: Option<(usize, usize)>)
        requires
            self.wf(),
        ensures
            match r {
                Some((l, i)) => {
                    &&& self.spec_special_from(name@, self.num_layers() - 1) == l
                    &&& l < self.num_layers()
                    &&& i < self.layers()[l as int].len()
                    &&& spec_pairs_idx(self.layers()[l as int], name@) == i
                    &&& self.layers()[l as int][i as int].1.value is Special
                },
                None => self.spec_special_from(name@, self.num_layers() - 1) == -1,
            },
    {
        let nlayers = self.params.len();
        let mut l: usize = nlayers;
        while l > 0
            invariant
                l <= nlayers,
                nlayers == self.num_layers(),
                self.wf(),
                self.spec_special_from(name@, nlayers - 1) == self.spec_special_from(
                    name@,
                    l - 1,
                ),
            decreases l,
        {
            match pairs::pairs_find(&self.params[l - 1], name) {
                Some(i) => {
                    let is_special = match &self.params[l - 1][i].1.value {
                        Value::Special(_) => true,
                        _ => false,
                    };
                    if is_special {
                        proof {
                            assert(self.layer_entry(l - 1, name@) matches Some(v) && v.value
                                is Special);
                        }
                        return Some((l - 1, i));
                    }
                    proof {
                        assert(!(self.layer_entry(l - 1, name@) matches Some(v) && v.value
                            is Special));
                    }
                },
                None => {
                    proof {
                        assert(!(self.layer_entry(l - 1, name@) matches Some(v) && v.value
                            is Special));
                    }
                },
            }
            l -= 1;
        }
        None
    }
}

/// A name made only of digits that fits a machine index.
pub open spec fn spec_is_position_name(name: Seq<char>) -> bool {
    name.len() > 0 && text::all_digits(name) && text::spec_digits_val(name) <= usize::MAX
        && !(name.len() == 1 && (name[0] == '@' || name[0] == '*' || name[0] == '-' || name[0]
        == '?' || name[0] == '_' || name[0] == '#'))
}

/// The value of a position parameter read: the entry of the innermost
/// scope at that index, or empty.
pub open spec fn spec_position_value(d: DataBase, name: Seq<char>) -> Seq<char> {
    let n = text::spec_digits_val(name);
    if d.position_parameters@.len() == 0 {
        Seq::empty()
    } else if n < d.position_parameters@.last()@.len() {
        d.position_parameters@.last()@[n]@
    } else {
        Seq::empty()
    }
}

/// A database in which BASH_SUBSHELL is not yet bound anywhere, is not in
/// the environment model, and is not readonly, while BASHPID is writable
/// and scalar at the global layer: the state of a first subshell.
pub open spec fn fresh_subshell(d: DataBase) -> bool {
    &&& !d.has_name("BASH_SUBSHELL"@)
    &&& spec_pairs_opt_view(d.env(), "BASH_SUBSHELL"@) is None
    &&& !d.readonly("BASH_SUBSHELL"@)
    &&& d.spec_special_from("BASH_SUBSHELL"@, d.num_layers() - 1) == -1
    &&& !d.readonly("BASHPID"@)
    &&& (match d.layer_entry(0, "BASHPID"@) {
        Some(v) => v.value is Single,
        None => true,
    })
}

/// An unresolved name has no binding in any layer.
proof fn lemma_solve_no_layer_from_none(d: DataBase, name: Seq<char>)
    requires
        d.wf(),
        !d.has_name(name),
    ensures
        forall|l: int| 0 <= l < d.num_layers() ==> !(#[trigger] d.layer_has(l, name)),
        forall|l: int| 0 <= l < d.num_layers() ==> (#[trigger] d.layer_entry(l, name)) is None,
{
    lemma_solve_upper_empty(d, name, d.num_layers() - 1);
    assert forall|l: int| 0 <= l < d.num_layers() implies (#[trigger] d.layer_entry(l, name))
        is None by {
        assert(!d.layer_has(l, name));
        pairs::lemma_pairs_idx_props(d.layers()[l], name);
    }
}

/// What a read of a dynamic variable does: only that one binding changes,
/// its getter survives, and a RANDOM read is exactly one generator step.
pub open spec fn dynamic_read_effect(
    a: DataBase,
    b: DataBase,
    name: Seq<char>,
    r: Result<String, String>,
) -> bool {
    let l = a.spec_special_from(name, a.num_layers() - 1);
    &&& r is Ok
    &&& b.num_layers() == a.num_layers()
    &&& (forall|l2: int|
        0 <= l2 < a.num_layers() && l2 != l ==> #[trigger] b.layers()[l2] == a.layers()[l2])
    &&& (forall|k: Seq<char>|
        k != name ==> #[trigger] spec_entry_view(b, l, k) == spec_entry_view(a, l, k))
    &&& (b.layer_entry(l, name) matches Some(nv) && (nv.value matches Value::Special(nd)
        && a.layer_entry(l, name) matches Some(ov) && (ov.value matches Value::Special(od)
        && nd.getter == od.getter)))
    &&& (a.layer_entry(l, name)->Some_0.value->Special_0.getter == DynamicGetter::Random ==> ({
        let seed = crate::random::spec_seed_of(
            a.layer_entry(l, name)->Some_0.value->Special_0.data@,
        );
        &&& r->Ok_0@ == text::spec_int_string(crate::random::spec_random_value(seed))
        &&& b.layer_entry(l, name)->Some_0.value->Special_0.data@ == text::spec_int_string(
            crate::random::spec_lcg_next(seed),
        )
    }))
}

/// A parameter name that reaches the generic lookup: valid, not special,
/// not a position number.
pub open spec fn spec_is_generic_name(name: Seq<char>) -> bool {
    utils::spec_is_param(name) && !spec_is_position_name(name) && name != "-"@ && name != "?"@
        && name != "_"@ && name != "#"@ && name != "@"@ && name != "*"@
}

fn is_position_name(name: &str) -> (r: bool)
    ensures
        r == spec_is_position_name(name@),
{
    proof {
        reveal_strlit("@");
        reveal_strlit("*");
        reveal_strlit("-");
        reveal_strlit("?");
        reveal_strlit("_");
        reveal_strlit("#");
    }
    let len = name.unicode_len();
    if len == 0 {
        return false;
    }
    if len == 1 {
        let c = name.get_char(0);
        if c == '@' || c == '*' || c == '-' || c == '?' || c == '_' || c == '#' {
            return false;
        }
    }
    match text::parse_usize(name) {
        Some(_) => true,
        None => {
            proof {
                if name@.len() > 0 && text::all_digits(name@) && text::spec_digits_val(name@)
                    <= usize::MAX {
                    text::lemma_digits_val_nonneg(name@);
                }
            }
            false
        },
    }
}

/// A name with no binding anywhere cannot be readonly.
proof fn lemma_no_binding_not_readonly(d: DataBase, name: Seq<char>)
    requires
        d.wf(),
        !d.has_name(name),
    ensures
        !d.readonly(name),
{
    lemma_solve_upper_empty(d, name, d.num_layers() - 1);
    assert forall|l: int| 0 <= l < d.num_layers() implies !((#[trigger] d.layer_entry(l, name))
        matches Some(v) && v.attributes@.contains('r')) by {
        assert(!d.layer_has(l, name));
        pairs::lemma_pairs_idx_props(d.layers()[l], name);
    }
}

impl DataBase {
    /// The trace prompt: `PS4`, without trailing whitespace, written once
    /// more for every nesting level.
    pub fn get_ps4(&mut self, depth: usize) -> (r: String)
        requires
            old(self).wf(),
        ensures
            final(self).wf(),
            spec_is_generic_name("PS4"@) && old(self).spec_special_from(
                "PS4"@,
                old(self).num_layers() - 1,
            ) == -1 && old(self).has_name("PS4"@) ==> r@ == spec_repeat(
                crate::jobs::spec_trim_end(
                    spec_value_single(old(self).lookup("PS4"@)->Some_0.value),
                ),
                depth as nat + 1,
            ) && *final(self) == *old(self),
    {
        let raw = match self.get_param("PS4") {
            Ok(v) => v,
            Err(_) => String::new(),
        };
        let ps4 = crate::jobs::trim_end_copy(&raw);
        let mut out = ps4.clone();
        let ghost unit = ps4@;
        proof {
            assert(spec_repeat(unit, 0) =~= Seq::<char>::empty());
            assert(out@ =~= spec_repeat(unit, 0) + unit);
        }
        let mut i: usize = 0;
        while i < depth
            invariant
                i <= depth,
                unit == ps4@,
                out@ == spec_repeat(unit, i as nat + 1),
            decreases depth - i,
        {
            out.append(ps4.as_str());
            i += 1;
        }
        out
    }

    /// On entering a subshell: BASHPID becomes the child's own pid and
    /// BASH_SUBSHELL counts one level deeper (or restarts at zero when the
    /// old value is unreadable). For a first subshell — BASH_SUBSHELL not
    /// yet bound anywhere and absent from the environment — both bindings
    /// are pinned exactly.
    pub fn set_subshell_parameters(&mut self)
        requires
            old(self).wf(),
        ensures
            final(self).wf(),
            final(self).num_layers() == old(self).num_layers(),
            fresh_subshell(*old(self)) ==> (final(self).layer_entry(0, "BASHPID"@) matches Some(
                pv,
            ) && (pv.value matches Value::Single(ps) && (exists|d: int|
                ps.data@ == text::spec_int_string(d)))) && (final(self).layer_entry(
                0,
                "BASH_SUBSHELL"@,
            ) matches Some(sv) && (sv.value matches Value::Single(ss) && ss.data@ == "0"@)),
    {
        proof {
            reveal_strlit("BASHPID");
            reveal_strlit("BASH_SUBSHELL");
            reveal_strlit("-");
            reveal_strlit("?");
            reveal_strlit("_");
            reveal_strlit("#");
            reveal_strlit("@");
            reveal_strlit("*");
            reveal_strlit("0");
            assert("BASHPID"@.len() == 7 && "BASH_SUBSHELL"@.len() == 13);
            if fresh_subshell(*old(self)) {
                assert(utils::spec_is_param("BASH_SUBSHELL"@));
                assert(!text::all_digits("BASH_SUBSHELL"@)) by {
                    assert("BASH_SUBSHELL"@[0] == 'B');
                }
                assert(spec_is_generic_name("BASH_SUBSHELL"@));
            }
        }
        let ghost d0 = *old(self);
        let depth = match self.get_param("BASH_SUBSHELL") {
            Ok(v) => {
                match text::parse_usize(v.as_str()) {
                    Some(n) => {
                        if n < usize::MAX {
                            n + 1
                        } else {
                            0
                        }
                    },
                    None => 0,
                }
            },
            Err(_) => 0,
        };
        proof {
            if fresh_subshell(d0) {
                lemma_solve_no_layer_from_none(d0, "BASH_SUBSHELL"@);
                assert(*self == d0);
                assert(depth == 0);
            }
        }
        let pid = sys::sys_getpid();
        let pid_str = text::i32_to_string(pid);
        let _ = self.set_layer_param("BASHPID", pid_str.as_str(), 0);
        let ghost mid = *self;
        proof {
            if fresh_subshell(d0) {
                assert(mid.layer_entry(0, "BASHPID"@) matches Some(pv) && (
                pv.value matches Value::Single(ps) && ps.data@ == pid_str@));
                assert(exists|d: int| pid_str@ == text::spec_int_string(d)) by {
                    assert(pid_str@ == text::spec_int_string(pid as int));
                }
                assert forall|l: int| 0 <= l < d0.num_layers() implies #[trigger] mid.layer_entry(
                    l,
                    "BASH_SUBSHELL"@,
                ) == d0.layer_entry(l, "BASH_SUBSHELL"@) by {
                    if l == 0 {
                        assert(spec_entry_view(mid, 0, "BASH_SUBSHELL"@) == spec_entry_view(
                            d0,
                            0,
                            "BASH_SUBSHELL"@,
                        ));
                    } else {
                        assert(mid.layers()[l] == d0.layers()[l]);
                    }
                }
                lemma_readonly_same_entries(d0, mid, "BASH_SUBSHELL"@);
                assert(!mid.layer_has(0, "BASH_SUBSHELL"@)) by {
                    lemma_solve_no_layer_from_none(d0, "BASH_SUBSHELL"@);
                    pairs::lemma_pairs_idx_props(mid.layers()[0], "BASH_SUBSHELL"@);
                    if mid.layer_has(0, "BASH_SUBSHELL"@) {
                        assert(mid.layer_entry(0, "BASH_SUBSHELL"@) is Some);
                        assert(d0.layer_entry(0, "BASH_SUBSHELL"@) is Some);
                        pairs::lemma_pairs_idx_props(d0.layers()[0], "BASH_SUBSHELL"@);
                        assert(false);
                    }
                }
            }
        }
        let depth_str = text::usize_to_string(depth);
        let _ = self.set_layer_param("BASH_SUBSHELL", depth_str.as_str(), 0);
        proof {
            if fresh_subshell(d0) {
                assert(spec_entry_view(*self, 0, "BASHPID"@) == spec_entry_view(
                    mid,
                    0,
                    "BASHPID"@,
                ));
                assert(depth_str@ == text::spec_nat_digits(0));
                assert(text::spec_nat_digits(0) =~= "0"@);
            }
        }
    }
}

/// `s` written `k` times over.
pub open spec fn spec_repeat(s: Seq<char>, k: nat) -> Seq<char>
    decreases k,
{
    if k == 0 {
        Seq::empty()
    } else {
        spec_repeat(s, (k - 1) as nat) + s
    }
}

/// A sorted key list: neighbours in order.
pub open spec fn spec_sorted_keys(s: Seq<String>) -> bool {
    forall|j: int| 0 <= j < s.len() - 1 ==> text::spec_str_le((#[trigger] s[j])@, s[j + 1]@)
}

/// No key appears twice.
pub open spec fn spec_distinct_keys(s: Seq<String>) -> bool {
    forall|j: int, m: int| 0 <= j < m < s.len() ==> (#[trigger] s[j])@ != (#[trigger] s[m])@
}

/// Whether the list holds a string with this view.
pub open spec fn seq_has_view(s: Seq<String>, k: Seq<char>) -> bool {
    exists|i: int| 0 <= i < s.len() && (#[trigger] s[i])@ == k
}

/// Whether some layer binds the name, or a function carries it.
pub open spec fn spec_has_key(d: DataBase, k: Seq<char>) -> bool {
    (exists|l: int, i: int|
        0 <= l < d.num_layers() && 0 <= i < d.layers()[l].len() && (#[trigger] d.layers()[l][i]).0@
            == k) || (exists|i: int|
        0 <= i < d.function_list().len() && (#[trigger] d.function_list()[i]).0@ == k)
}

/// The names bound before position `i` of layer `lcur`, or in any layer
/// below, or by any function when `fns` are already in.
pub open spec fn spec_key_upto(d: DataBase, lcur: int, icur: int, fcur: int, k: Seq<char>) -> bool {
    (exists|l: int, i: int|
        0 <= l < d.num_layers() && 0 <= i < d.layers()[l].len() && (l < lcur || (l == lcur && i
            < icur)) && (#[trigger] d.layers()[l][i]).0@ == k) || (exists|i: int|
        0 <= i < fcur && i < d.function_list().len() && (#[trigger] d.function_list()[i]).0@ == k)
}

/// Inserts a key into a sorted, duplicate-free list, keeping it so.
fn insert_key(out: &mut Vec<String>, key: String)
    requires
        spec_sorted_keys(old(out)@),
        spec_distinct_keys(old(out)@),
    ensures
        spec_sorted_keys(final(out)@),
        spec_distinct_keys(final(out)@),
        forall|k: Seq<char>|
            #[trigger] seq_has_view(final(out)@, k) <==> (seq_has_view(old(out)@, k) || k
                == key@),
{
    let n = out.len();
    let mut i: usize = 0;
    while i < n
        invariant
            i <= n,
            n == out@.len(),
            out@ == old(out)@,
            spec_sorted_keys(out@),
            spec_distinct_keys(out@),
            forall|j: int| 0 <= j < i ==> (#[trigger] out@[j])@ != key@,
        decreases n - i,
    {
        if text::str_eq(out[i].as_str(), key.as_str()) {
            proof {
                assert(seq_has_view(out@, key@)) by {
                    assert(out@[i as int]@ == key@);
                }
            }
            return ;
        }
        i += 1;
    }
    let mut j: usize = 0;
    while j < n
        invariant
            j <= n,
            n == out@.len(),
            out@ == old(out)@,
            forall|m: int| 0 <= m < j ==> text::spec_str_le((#[trigger] out@[m])@, key@),
        ensures
            j <= n,
            out@ == old(out)@,
            forall|m: int| 0 <= m < j ==> text::spec_str_le((#[trigger] out@[m])@, key@),
            j < n ==> text::spec_str_le(key@, out@[j as int]@),
        decreases n - j,
    {
        if text::str_le(key.as_str(), out[j].as_str()) {
            break ;
        }
        proof {
            text::lemma_str_le_total(key@, out@[j as int]@);
        }
        j += 1;
    }
    let ghost before = out@;
    let ghost kview = key@;
    out.insert(j, key);
    proof {
        assert(out@.len() == before.len() + 1);
        assert(forall|m: int| 0 <= m < j ==> out@[m] == before[m]);
        assert(out@[j as int]@ == kview);
        assert(forall|m: int| j < m < out@.len() ==> out@[m] == before[m - 1]);
        assert forall|m: int| 0 <= m < out@.len() - 1 implies text::spec_str_le(
            (#[trigger] out@[m])@,
            out@[m + 1]@,
        ) by {
            if m + 1 < j {
                assert(before[m] == out@[m] && before[m + 1] == out@[m + 1]);
            } else if m + 1 == j {
                assert(text::spec_str_le(out@[m]@, kview));
            } else if m == j {
                if j < before.len() {
                    assert(out@[m + 1] == before[m]);
                }
            } else {
                assert(out@[m] == before[m - 1] && out@[m + 1] == before[m]);
            }
        }
        assert forall|a: int, b: int| 0 <= a < b < out@.len() implies (#[trigger] out@[a])@ != (
        #[trigger] out@[b])@ by {
            if a != j && b != j {
                let a0 = if a < j { a } else { a - 1 };
                let b0 = if b < j { b } else { b - 1 };
                assert(out@[a] == before[a0] && out@[b] == before[b0]);
            } else if a == j {
                assert(out@[b] == before[b - 1]);
                assert(before[b - 1]@ != kview);
            } else {
                assert(out@[a] == before[a]);
                assert(before[a]@ != kview);
            }
        }
        assert forall|k: Seq<char>| #[trigger] seq_has_view(out@, k) <==> (seq_has_view(
            before,
            k,
        ) || k == kview) by {
            if seq_has_view(out@, k) {
                let w = choose|w: int| 0 <= w < out@.len() && (#[trigger] out@[w])@ == k;
                if w != j {
                    let w0 = if w < j { w } else { w - 1 };
                    assert(before[w0]@ == k);
                }
            }
            if seq_has_view(before, k) {
                let w = choose|w: int| 0 <= w < before.len() && (#[trigger] before[w])@ == k;
                let w1 = if w < j { w } else { w + 1 };
                assert(out@[w1]@ == k);
            }
            if k == kview {
                assert(out@[j as int]@ == k);
            }
        }
    }
}

impl DataBase {
    /// Every name bound in any layer, together with every function name:
    /// sorted, each once.
    pub fn get_keys(&self) -> (r: Vec<String>)
        requires
            self.wf(),
        ensures
            spec_sorted_keys(r@),
            spec_distinct_keys(r@),
            forall|k: Seq<char>| #[trigger] seq_has_view(r@, k) <==> spec_has_key(*self, k),
    {
        let mut out: Vec<String> = Vec::new();
        let nl = self.params.len();
        let mut l: usize = 0;
        while l < nl
            invariant
                l <= nl,
                nl == self.num_layers(),
                spec_sorted_keys(out@),
                spec_distinct_keys(out@),
                forall|k: Seq<char>| #[trigger] seq_has_view(out@, k) <==> spec_key_upto(
                    *self,
                    l as int,
                    0,
                    0,
                    k,
                ),
            decreases nl - l,
        {
            let m = self.params[l].len();
            let mut i: usize = 0;
            while i < m
                invariant
                    i <= m,
                    l < nl,
                    nl == self.num_layers(),
                    m == self.layers()[l as int].len(),
                    spec_sorted_keys(out@),
                    spec_distinct_keys(out@),
                    forall|k: Seq<char>| #[trigger] seq_has_view(out@, k) <==> spec_key_upto(
                        *self,
                        l as int,
                        i as int,
                        0,
                        k,
                    ),
                decreases m - i,
            {
                let key = self.params[l][i].0.clone();
                insert_key(&mut out, key);
                proof {
                    assert forall|k: Seq<char>| #[trigger] seq_has_view(out@, k)
                        <==> spec_key_upto(*self, l as int, i + 1, 0, k) by {
                        if spec_key_upto(*self, l as int, i + 1, 0, k) && !(k
                            == self.layers()[l as int][i as int].0@) {
                            assert(spec_key_upto(*self, l as int, i as int, 0, k));
                        }
                        if spec_key_upto(*self, l as int, i as int, 0, k) {
                            assert(spec_key_upto(*self, l as int, i + 1, 0, k));
                        }
                        if k == self.layers()[l as int][i as int].0@ {
                            assert((self.layers()[l as int][i as int]).0@ == k);
                            assert(spec_key_upto(*self, l as int, i + 1, 0, k));
                        }
                    }
                }
                i += 1;
            }
            proof {
                assert forall|k: Seq<char>| spec_key_upto(*self, l as int, m as int, 0, k)
                    <==> spec_key_upto(*self, l + 1, 0, 0, k) by {
                    if spec_key_upto(*self, l as int, m as int, 0, k) {
                        let (la, ia) = choose|la: int, ia: int|
                            0 <= la < self.num_layers() && 0 <= ia < self.layers()[la].len() && (la
                                < l || (la == l && ia < m)) && (#[trigger] self.layers()[la][ia]).0@
                                == k;
                        assert(la < l + 1);
                        assert(spec_key_upto(*self, l + 1, 0, 0, k));
                    }
                    if spec_key_upto(*self, l + 1, 0, 0, k) {
                        let (la, ia) = choose|la: int, ia: int|
                            0 <= la < self.num_layers() && 0 <= ia < self.layers()[la].len() && la
                                < l + 1 && (#[trigger] self.layers()[la][ia]).0@ == k;
                        if la == l {
                            assert(ia < m);
                        }
                        assert(spec_key_upto(*self, l as int, m as int, 0, k));
                    }
                }
            }
            l += 1;
        }
        let nf = self.functions.len();
        let mut f: usize = 0;
        while f < nf
            invariant
                f <= nf,
                nf == self.function_list().len(),
                nl == self.num_layers(),
                spec_sorted_keys(out@),
                spec_distinct_keys(out@),
                forall|k: Seq<char>| #[trigger] seq_has_view(out@, k) <==> spec_key_upto(
                    *self,
                    nl as int,
                    0,
                    f as int,
                    k,
                ),
            decreases nf - f,
        {
            let key = self.functions[f].0.clone();
            insert_key(&mut out, key);
            proof {
                assert forall|k: Seq<char>| #[trigger] seq_has_view(out@, k) <==> spec_key_upto(
                    *self,
                    nl as int,
                    0,
                    f + 1,
                    k,
                ) by {
                    if spec_key_upto(*self, nl as int, 0, f + 1, k) && !(k
                        == self.function_list()[f as int].0@) {
                        assert(spec_key_upto(*self, nl as int, 0, f as int, k));
                    }
                    if k == self.function_list()[f as int].0@ {
                        assert((self.function_list()[f as int]).0@ == k);
                        assert(spec_key_upto(*self, nl as int, 0, f + 1, k));
                    }
                }
            }
            f += 1;
        }
        out
    }
}

/// Where the first token of a line ends: at the first blank or newline.
pub open spec fn spec_token_end(w: Seq<char>, i: int) -> int
    decreases w.len() - i when 0 <= i <= w.len()
{
    if i >= w.len() {
        i
    } else if w[i] == ' ' || w[i] == '\n' {
        i
    } else {
        spec_token_end(w, i + 1)
    }
}

/// The first whitespace-delimited token of a line.
pub open spec fn spec_head(w: Seq<char>) -> Seq<char> {
    w.take(spec_token_end(w, 0))
}

/// The alias pass: while the first token has an alias and has not been
/// substituted before, replace it; the seen list is the cycle guard. The
/// fuel only bounds the recursion and is never exhausted by the runs the
/// shell makes.
pub open spec fn spec_alias_expand(
    aliases: Seq<(String, String)>,
    w: Seq<char>,
    seen: Seq<Seq<char>>,
    fuel: nat,
) -> (Seq<char>, bool)
    decreases fuel,
{
    if fuel == 0 {
        (w, false)
    } else {
        let head = spec_head(w);
        if seen.contains(head) {
            (w, false)
        } else {
            match spec_pairs_opt_view(aliases, head) {
                Some(value) => {
                    let w2 = value + w.skip(head.len() as int);
                    let rec = spec_alias_expand(aliases, w2, seen.push(head), (fuel - 1) as nat);
                    (rec.0, true)
                },
                None => (w, false),
            }
        }
    }
}

proof fn lemma_token_end_range(w: Seq<char>, i: int)
    requires
        0 <= i <= w.len(),
    ensures
        i <= spec_token_end(w, i) <= w.len(),
    decreases w.len() - i,
{
    if i < w.len() && w[i] != ' ' && w[i] != '\n' {
        lemma_token_end_range(w, i + 1);
    }
}

impl DataBase {
    /// Binds an alias name to its replacement text.
    pub fn set_alias(&mut self, name: &str, value: &str)
        ensures
            spec_pairs_opt_view(final(self).alias_list(), name@) == Some(value@),
            forall|k: Seq<char>|
                k != name@ ==> #[trigger] spec_pairs_opt_view(final(self).alias_list(), k)
                    == spec_pairs_opt_view(old(self).alias_list(), k),
            final(self).layers() == old(self).layers(),
            final(self).exit_status == old(self).exit_status,
            final(self).flags == old(self).flags,
            final(self).function_list() == old(self).function_list(),
    {
        pairs::pairs_set(&mut self.aliases, name, value);
    }

    /// Forgets an alias; true when one was there.
    pub fn unset_alias(&mut self, name: &str) -> (r: bool)
        ensures
            !spec_pairs_has(final(self).alias_list(), name@),
            forall|k: Seq<char>|
                k != name@ ==> #[trigger] spec_pairs_get(final(self).alias_list(), k)
                    == spec_pairs_get(old(self).alias_list(), k),
            r == spec_pairs_has(old(self).alias_list(), name@),
            final(self).layers() == old(self).layers(),
            final(self).exit_status == old(self).exit_status,
    {
        let had = pairs::pairs_find(&self.aliases, name).is_some();
        pairs::pairs_remove_all(&mut self.aliases, name);
        had
    }

    /// Drops every alias.
    pub fn clear_aliases(&mut self)
        ensures
            final(self).alias_list().len() == 0,
            final(self).layers() == old(self).layers(),
            final(self).exit_status == old(self).exit_status,
    {
        self.aliases = Vec::new();
    }

    /// The replacement text of an alias.
    pub fn get_alias(&self, name: &str) -> (r: Option<String>)
        ensures
            match r {
                Some(s) => spec_pairs_opt_view(self.alias_list(), name@) == Some(s@),
                None => spec_pairs_opt_view(self.alias_list(), name@) is None,
            },
    {
        pairs::pairs_get_copy(&self.aliases, name)
    }

    /// The alias prefix-rewrite pass. Runs only when the shell is
    /// interactive (`i` in the flags); repeatedly replaces the first token
    /// by its alias value and stops as soon as a token comes up for the
    /// second time.
    pub fn replace_alias_core(&self, word: &mut String) -> (r: bool)
        requires
            self.alias_list().len() < usize::MAX,
        ensures
            !self.flags@.contains('i') ==> !r && final(word)@ == old(word)@,
            self.flags@.contains('i') ==> ({
                let res = spec_alias_expand(
                    self.alias_list(),
                    old(word)@,
                    Seq::empty(),
                    (self.alias_list().len() + 1) as nat,
                );
                final(word)@ == res.0 && r == res.1
            }),
    {
        if !text::str_contains_char(self.flags.as_str(), 'i') {
            return false;
        }
        let mut ans = false;
        let mut seen: Vec<String> = Vec::new();
        let mut fuel: usize = self.aliases.len() + 1;
        let ghost aliases = self.alias_list();
        let ghost w0 = word@;
        let ghost fuel0 = (self.alias_list().len() + 1) as nat;
        proof {
            assert(seen@.map_values(|s: String| s@) =~= Seq::<Seq<char>>::empty());
        }
        loop
            invariant
                fuel <= fuel0,
                aliases == self.alias_list(),
                spec_alias_expand(aliases, w0, Seq::empty(), fuel0) == combine_expansion(
                    ans,
                    spec_alias_expand(
                        aliases,
                        word@,
                        seen@.map_values(|s: String| s@),
                        fuel as nat,
                    ),
                ),
            ensures
                spec_alias_expand(aliases, w0, Seq::empty(), fuel0) == (word@, ans),
            decreases fuel,
        {
            let ghost seen_view = seen@.map_values(|s: String| s@);
            if fuel == 0 {
                proof {
                    assert(spec_alias_expand(aliases, word@, seen_view, 0nat) == (word@, false));
                }
                break ;
            }
            let head = first_token(word);
            if seen_contains(&seen, head.as_str()) {
                proof {
                    assert(spec_alias_expand(aliases, word@, seen_view, fuel as nat) == (
                        word@,
                        false,
                    ));
                }
                break ;
            }
            match pairs::pairs_get_copy(&self.aliases, head.as_str()) {
                Some(value) => {
                    let head_len = head.as_str().unicode_len();
                    proof {
                        lemma_token_end_range(word@, 0);
                    }
                    let wlen = word.as_str().unicode_len();
                    let tail = text::substring_copy(word.as_str(), head_len, wlen);
                    let mut next = value.clone();
                    next.append(tail.as_str());
                    proof {
                        assert(next@ == value@ + word@.skip(head@.len() as int));
                    }
                    *word = next;
                    seen.push(head);
                    ans = true;
                    fuel -= 1;
                    proof {
                        assert(seen@.map_values(|s: String| s@) =~= seen_view.push(
                            seen@.last()@,
                        ));
                    }
                },
                None => {
                    proof {
                        assert(spec_alias_expand(aliases, word@, seen_view, fuel as nat) == (
                            word@,
                            false,
                        ));
                    }
                    break ;
                },
            }
        }
        ans
    }

    /// The alias pass, remembering each whole-line substitution it made.
    pub fn replace_alias(&mut self, word: &mut String) -> (r: bool)
        requires
            old(self).alias_list().len() < usize::MAX,
        ensures
            !old(self).flags@.contains('i') ==> !r && final(word)@ == old(word)@ && *final(self)
                == *old(self),
            old(self).flags@.contains('i') ==> ({
                let res = spec_alias_expand(
                    old(self).alias_list(),
                    old(word)@,
                    Seq::empty(),
                    (old(self).alias_list().len() + 1) as nat,
                );
                &&& final(word)@ == res.0
                &&& r == res.1
                &&& final(self).layers() == old(self).layers()
                &&& final(self).alias_list() == old(self).alias_list()
                &&& final(self).exit_status == old(self).exit_status
            }),
            r ==> final(self).alias_memo@.len() == old(self).alias_memo@.len() + 1
                && final(self).alias_memo@.take(old(self).alias_memo@.len() as int) == old(
                self,
            ).alias_memo@ && final(self).alias_memo@.last().0@ == old(word)@
                && final(self).alias_memo@.last().1@ == final(word)@,
            !r ==> final(self).alias_memo == old(self).alias_memo,
    {
        let before = word.clone();
        let replaced = self.replace_alias_core(word);
        if replaced {
            let after = word.clone();
            self.alias_memo.push((before, after));
            proof {
                assert(self.alias_memo@.take(old(self).alias_memo@.len() as int) =~= old(
                    self,
                ).alias_memo@);
            }
            true
        } else {
            false
        }
    }
}

/// Folds one more substitution flag into an expansion result.
pub open spec fn combine_expansion(ans: bool, rec: (Seq<char>, bool)) -> (Seq<char>, bool) {
    (rec.0, ans || rec.1)
}

/// The first token of the line, as an owned string.
fn first_token(word: &String) -> (r: String)
    ensures
        r@ == spec_head(word@),
{
    let len = word.as_str().unicode_len();
    let mut i: usize = 0;
    while i < len
        invariant
            i <= len,
            len == word@.len(),
            spec_token_end(word@, 0) == spec_token_end(word@, i as int),
        ensures
            i <= len,
            spec_token_end(word@, 0) == i,
        decreases len - i,
    {
        let c = word.as_str().get_char(i);
        if c == ' ' || c == '\n' {
            break ;
        }
        i += 1;
    }
    let r = text::substring_copy(word.as_str(), 0, i);
    assert(r@ =~= spec_head(word@));
    r
}

/// Whether the list of already-substituted tokens holds `h`.
fn seen_contains(seen: &Vec<String>, h: &str) -> (r: bool)
    ensures
        r == seen@.map_values(|s: String| s@).contains(h@),
{
    let n = seen.len();
    let mut i: usize = 0;
    while i < n
        invariant
            i <= n,
            n == seen@.len(),
            forall|j: int| 0 <= j < i ==> (#[trigger] seen@[j])@ != h@,
        decreases n - i,
    {
        if text::str_eq(seen[i].as_str(), h) {
            assert(seen@.map_values(|s: String| s@)[i as int] == h@);
            return true;
        }
        i += 1;
    }
    proof {
        if seen@.map_values(|s: String| s@).contains(h@) {
            let j = choose|j: int|
                0 <= j < seen@.len() && (#[trigger] seen@[j])@ == h@;
            assert(seen@.map_values(|s: String| s@)[j] == seen@[j]@);
            assert(seen@[j]@ != h@);
            assert(false);
        }
    }
    false
}

/// Layer scoping: whatever was bound inside a pushed layer, once that
/// layer is popped every read of every name sees exactly what it saw
/// before the push (or nothing, if the name had no binding then).
pub proof fn lemma_layer_scoping(
    base: DataBase,
    inner: DataBase,
    popped: DataBase,
    name: Seq<char>,
)
    requires
        base.wf(),
        inner.layers().drop_last() == base.layers(),
        inner.num_layers() == base.num_layers() + 1,
        popped.layers() == inner.layers().drop_last(),
    ensures
        popped.lookup(name) == base.lookup(name),
        popped.lookup_single(name) == base.lookup_single(name),
        popped.readonly(name) == base.readonly(name),
{
    lemma_solve_layers_eq(popped, base, name, popped.num_layers() - 1);
    assert(popped.num_layers() == base.num_layers());
    assert forall|l: int| 0 <= l < popped.num_layers() implies #[trigger] popped.layer_entry(
        l,
        name,
    ) == base.layer_entry(l, name) by {
        assert(popped.layers()[l] == base.layers()[l]);
    }
    assert(popped.readonly(name) == base.readonly(name)) by {
        if popped.readonly(name) {
            let l = choose|l: int|
                0 <= l < popped.num_layers() && ((#[trigger] popped.layer_entry(l, name)) matches
                    Some(v) && v.attributes@.contains('r'));
            assert(base.layer_entry(l, name) == popped.layer_entry(l, name));
        }
        if base.readonly(name) {
            let l = choose|l: int|
                0 <= l < base.num_layers() && ((#[trigger] base.layer_entry(l, name)) matches Some(
                    v,
                ) && v.attributes@.contains('r'));
            assert(popped.layer_entry(l, name) == base.layer_entry(l, name));
        }
    }
}

/// Readonly invariant, first half: while a name is readonly, every set
/// operation returns an error and leaves the layers untouched (that is
/// what their contracts say), so the stored value survives and the name
/// stays readonly.
pub proof fn lemma_readonly_set_fails(a: DataBase, b: DataBase, name: Seq<char>)
    requires
        a.readonly(name),
        b.layers() == a.layers(),
    ensures
        b.lookup(name) == a.lookup(name),
        b.readonly(name),
{
    lemma_solve_layers_eq(a, b, name, a.num_layers() - 1);
    assert forall|l: int| 0 <= l < a.num_layers() implies #[trigger] b.layer_entry(l, name)
        == a.layer_entry(l, name) by {
        assert(b.layers()[l] == a.layers()[l]);
    }
    let l = choose|l: int|
        0 <= l < a.num_layers() && ((#[trigger] a.layer_entry(l, name)) matches Some(v)
            && v.attributes@.contains('r'));
    assert(b.layer_entry(l, name) == a.layer_entry(l, name));
}

/// Readonly invariant, second half: a successful write to another name
/// keeps a readonly name protected and its stored value intact.
pub proof fn lemma_readonly_survives_other_write(
    a: DataBase,
    b: DataBase,
    name: Seq<char>,
    other: Seq<char>,
    layer: int,
)
    requires
        a.wf(),
        a.readonly(name),
        name != other,
        0 <= layer < a.num_layers(),
        b.num_layers() == a.num_layers(),
        forall|l: int| 0 <= l < a.num_layers() && l != layer ==> #[trigger] b.layers()[l]
            == a.layers()[l],
        forall|k: Seq<char>|
            k != other ==> #[trigger] spec_entry_view(b, layer, k) == spec_entry_view(
                a,
                layer,
                k,
            ),
    ensures
        b.readonly(name),
        b.lookup(name) == a.lookup(name),
{
    assert forall|l: int| 0 <= l < a.num_layers() implies #[trigger] b.layer_entry(l, name)
        == a.layer_entry(l, name) by {
        if l != layer {
            assert(b.layers()[l] == a.layers()[l]);
        } else {
            assert(spec_entry_view(b, layer, name) == spec_entry_view(a, layer, name));
        }
    }
    let lw = choose|l: int|
        0 <= l < a.num_layers() && ((#[trigger] a.layer_entry(l, name)) matches Some(v)
            && v.attributes@.contains('r'));
    assert(b.layer_entry(lw, name) == a.layer_entry(lw, name));
    lemma_solve_same_has(a, b, name, a.num_layers() - 1);
    assert(b.top_layer_of(name) == a.top_layer_of(name));
    lemma_solve_from_range(a, name, a.num_layers() - 1);
    if a.has_name(name) {
        assert(b.layer_entry(a.top_layer_of(name), name) == a.layer_entry(
            a.top_layer_of(name),
            name,
        ));
    }
}

/// Two stacks with the same bindings of `name` at every layer protect it
/// alike.
proof fn lemma_readonly_same_entries(a: DataBase, b: DataBase, name: Seq<char>)
    requires
        b.num_layers() == a.num_layers(),
        forall|l: int| 0 <= l < a.num_layers() ==> #[trigger] b.layer_entry(l, name)
            == a.layer_entry(l, name),
    ensures
        b.readonly(name) == a.readonly(name),
{
    if a.readonly(name) {
        let l = choose|l: int|
            0 <= l < a.num_layers() && ((#[trigger] a.layer_entry(l, name)) matches Some(v)
                && v.attributes@.contains('r'));
        assert(b.layer_entry(l, name) == a.layer_entry(l, name));
    }
    if b.readonly(name) {
        let l = choose|l: int|
            0 <= l < b.num_layers() && ((#[trigger] b.layer_entry(l, name)) matches Some(v)
                && v.attributes@.contains('r'));
        assert(b.layer_entry(l, name) == a.layer_entry(l, name));
    }
}

/// Two stacks that agree, layer by layer, on whether they hold `name`
/// resolve it to the same layer.
proof fn lemma_solve_same_has(a: DataBase, b: DataBase, name: Seq<char>, from: int)
    requires
        from >= -1,
        from < a.num_layers(),
        b.num_layers() == a.num_layers(),
        forall|l: int| 0 <= l < a.num_layers() ==> #[trigger] b.layer_entry(l, name)
            == a.layer_entry(l, name),
    ensures
        b.spec_solve_from(name, from) == a.spec_solve_from(name, from),
    decreases from + 1,
{
    if from >= 0 {
        assert(b.layer_entry(from, name) == a.layer_entry(from, name));
        assert(b.layer_has(from, name) == a.layer_has(from, name)) by {
            pairs::lemma_pairs_idx_props(a.layers()[from], name);
            pairs::lemma_pairs_idx_props(b.layers()[from], name);
        }
        lemma_solve_same_has(a, b, name, from - 1);
    }
}

/// Alias cycle guard: when an alias's replacement text starts with the
/// alias's own name, one invocation substitutes it exactly once and stops.
pub proof fn lemma_alias_cycle_guard(
    aliases: Seq<(String, String)>,
    w: Seq<char>,
    value: Seq<char>,
    fuel: nat,
)
    requires
        fuel >= 2,
        spec_pairs_opt_view(aliases, spec_head(w)) == Some(value),
        spec_head(value + w.skip(spec_head(w).len() as int)) == spec_head(w),
    ensures
        spec_alias_expand(aliases, w, Seq::empty(), fuel) == (
            value + w.skip(spec_head(w).len() as int),
            true,
        ),
{
    let head = spec_head(w);
    let w2 = value + w.skip(head.len() as int);
    assert(!Seq::<Seq<char>>::empty().contains(head));
    let seen1 = Seq::<Seq<char>>::empty().push(head);
    assert(seen1.contains(head)) by {
        assert(seen1[0] == head);
    }
    assert(spec_alias_expand(aliases, w2, seen1, (fuel - 1) as nat) == (w2, false));
}

impl DataBase {
    /// Records `$_`: the last argument of the command about to run; an
    /// empty argument list leaves it alone.
    pub fn note_last_arg(&mut self, args: &Vec<String>)
        ensures
            args@.len() > 0 ==> final(self).last_arg@ == args@.last()@,
            args@.len() == 0 ==> final(self).last_arg == old(self).last_arg,
            final(self).layers() == old(self).layers(),
            final(self).exit_status == old(self).exit_status,
            final(self).alias_list() == old(self).alias_list(),
            final(self).env() == old(self).env(),
            final(self).position_parameters == old(self).position_parameters,
            final(self).flags == old(self).flags,
    {
        if args.len() > 0 {
            self.last_arg = args[args.len() - 1].clone();
        }
    }

    /// Resets SECONDS so that it reads as `offset` now and counts on from
    /// there, as an assignment to the dynamic variable asks.
    pub fn reset_seconds(&mut self, offset: i64)
        requires
            old(self).wf(),
        ensures
            final(self).wf(),
            binding_put_shape(*old(self), *final(self), 0, "SECONDS"@),
            final(self).layer_entry(0, "SECONDS"@) matches Some(nv) && (
            nv.value matches Value::Special(sd) && sd.getter == DynamicGetter::Seconds),
            unchanged_but_params(*old(self), *final(self)),
    {
        let seed = clock::seconds_seed_offset(offset);
        self.set_special_variable("SECONDS", DynamicGetter::Seconds, seed);
    }
}

/// A single-layer database reads a name straight from the global layer.
proof fn lemma_one_layer_lookup(d: DataBase, name: Seq<char>)
    requires
        d.num_layers() == 1,
    ensures
        d.layer_has(0, name) ==> d.lookup(name) == d.layer_entry(0, name),
        !d.layer_has(0, name) ==> d.lookup(name) is None,
{
    assert(d.spec_solve_from(name, -1) == -1);
    assert(d.top_layer_of(name) == (if d.layer_has(0, name) {
        0int
    } else {
        -1int
    }));
}

/// Resolution depends on the layers alone.
pub proof fn lemma_solve_layers_eq(a: DataBase, b: DataBase, name: Seq<char>, from: int)
    requires
        a.layers() == b.layers(),
        from >= -1,
    ensures
        a.spec_solve_from(name, from) == b.spec_solve_from(name, from),
    decreases from + 1,
{
    if from >= 0 {
        lemma_solve_layers_eq(a, b, name, from - 1);
    }
}

/// Readonly protection depends on the layers alone.
pub proof fn lemma_readonly_same_layers(a: DataBase, b: DataBase, name: Seq<char>)
    requires
        b.layers() == a.layers(),
    ensures
        b.readonly(name) == a.readonly(name),
{
    assert forall|l: int| 0 <= l < a.num_layers() implies #[trigger] b.layer_entry(l, name)
        == a.layer_entry(l, name) by {
        assert(b.layers()[l] == a.layers()[l]);
    }
    if a.readonly(name) {
        let l = choose|l: int|
            0 <= l < a.num_layers() && ((#[trigger] a.layer_entry(l, name)) matches Some(v)
                && v.attributes@.contains('r'));
        assert(b.layer_entry(l, name) == a.layer_entry(l, name));
    }
    if b.readonly(name) {
        let l = choose|l: int|
            0 <= l < b.num_layers() && ((#[trigger] b.layer_entry(l, name)) matches Some(v)
                && v.attributes@.contains('r'));
        assert(b.layer_entry(l, name) == a.layer_entry(l, name));
    }
}

/// When no layer holds the name, resolution finds nothing.
proof fn lemma_solve_no_layer(d: DataBase, name: Seq<char>, from: int)
    requires
        from >= -1,
        from < d.num_layers(),
        forall|l: int| 0 <= l < d.num_layers() ==> !(#[trigger] d.layer_has(l, name)),
    ensures
        d.spec_solve_from(name, from) == -1,
    decreases from + 1,
{
    if from >= 0 {
        lemma_solve_no_layer(d, name, from - 1);
    }
}

/// The character length, element count or pair count a stored value
/// reports.
pub open spec fn spec_value_len(v: Option<Variable>) -> int {
    match v {
        Some(var) => match var.value {
            Value::Single(sd) => sd.data@.len() as int,
            Value::Special(sd) => sd.data@.len() as int,
            Value::Array(ad) => ad.data@.len() as int,
            Value::AssocArray(ad) => ad.data@.len() as int,
            Value::Unset => 0,
        },
        None => 0,
    }
}

/// What `get_array` yields: an element of either array form, or a
/// blank-joined listing for `@` on an indexed array.
pub open spec fn spec_get_array(d: DataBase, name: Seq<char>, pos: Seq<char>) -> Seq<char> {
    match d.lookup(name) {
        Some(v) => match v.value {
            Value::AssocArray(ad) => match spec_pairs_opt_view(ad.data@, pos) {
                Some(s) => s,
                None => Seq::empty(),
            },
            Value::Array(ad) => if pos == "@"@ {
                text::spec_join(ad.data@.map_values(|s: String| s@), " "@)
            } else if pos.len() > 0 && text::all_digits(pos) && text::spec_digits_val(pos)
                <= usize::MAX && text::spec_digits_val(pos) < ad.data@.len() {
                ad.data@[text::spec_digits_val(pos)]@
            } else {
                Seq::empty()
            },
            _ => Seq::empty(),
        },
        None => Seq::empty(),
    }
}

/// The position parameters of the innermost scope, without `$0`.
pub open spec fn spec_tail_positions(d: DataBase) -> Seq<Seq<char>> {
    if d.position_parameters@.len() == 0 {
        Seq::empty()
    } else {
        let last = d.position_parameters@.last()@;
        if last.len() == 0 {
            Seq::empty()
        } else {
            last.skip(1).map_values(|s: String| s@)
        }
    }
}

fn readonly_message(name: &str) -> (r: String)
    ensures
        r@ == name@ + ": readonly variable"@,
{
    let mut m = String::from_str(name);
    m.append(": readonly variable");
    m
}

fn identifier_message(name: &str) -> (r: String)
    ensures
        r@ == "`"@ + name@ + "': not a valid identifier"@,
{
    let mut m = String::from_str("`");
    m.append(name);
    m.append("': not a valid identifier");
    m
}

pub proof fn lemma_solve_from_range(d: DataBase, name: Seq<char>, from: int)
    requires
        from >= -1,
    ensures
        -1 <= d.spec_solve_from(name, from) <= from,
        d.spec_solve_from(name, from) >= 0 ==> d.layer_has(d.spec_solve_from(name, from), name),
    decreases from + 1,
{
    if from >= 0 && !d.layer_has(from, name) {
        lemma_solve_from_range(d, name, from - 1);
    }
}

/// Changing only layer `layer` of the stack keeps every other layer's view.
proof fn lemma_layers_after_inner_update(a: DataBase, b: DataBase, layer: int)
    requires
        0 <= layer < a.num_layers(),
        b.params@.len() == a.params@.len(),
        forall|l: int| 0 <= l < a.params@.len() && l != layer ==> b.params@[l] == a.params@[l],
    ensures
        b.num_layers() == a.num_layers(),
        forall|l: int| 0 <= l < a.num_layers() && l != layer ==> #[trigger] b.layers()[l]
            == a.layers()[l],
{
}

/// The effect, on one layer's bindings, of replacing entry `i` (holding
/// `name`) with a fresh scalar that keeps key and attributes.
proof fn lemma_binding_update_effect(a: DataBase, b: DataBase, layer: int, i: int, name: Seq<char>)
    requires
        0 <= layer < a.num_layers(),
        b.num_layers() == a.num_layers(),
        0 <= i < a.layers()[layer].len(),
        spec_pairs_idx(a.layers()[layer], name) == i,
        b.layers()[layer] == a.layers()[layer].update(
            i,
            (a.layers()[layer][i].0, b.layers()[layer][i].1),
        ),
    ensures
        b.layer_entry(layer, name) == Some(b.layers()[layer][i].1),
        forall|k: Seq<char>|
            k != name ==> #[trigger] spec_entry_view(b, layer, k) == spec_entry_view(a, layer, k),
{
    let ol = a.layers()[layer];
    let nl = b.layers()[layer];
    pairs::lemma_pairs_idx_update(ol, i, nl[i].1, name);
    pairs::lemma_pairs_idx_props(ol, name);
    assert forall|k: Seq<char>| k != name implies #[trigger] spec_entry_view(b, layer, k)
        == spec_entry_view(a, layer, k) by {
        pairs::lemma_pairs_idx_update(ol, i, nl[i].1, k);
        if spec_pairs_idx(ol, k) >= 0 {
            pairs::lemma_pairs_idx_props(ol, k);
            if spec_pairs_idx(ol, k) == i {
                assert(ol[i].0@ == k);
                assert(ol[i].0@ == name);
                assert(false);
            }
        }
    }
}

/// The effect, on one layer's bindings, of appending a binding of `name`
/// that the layer lacked.
proof fn lemma_binding_push_effect(a: DataBase, b: DataBase, layer: int, name: Seq<char>)
    requires
        0 <= layer < a.num_layers(),
        b.num_layers() == a.num_layers(),
        spec_pairs_idx(a.layers()[layer], name) == -1,
        b.layers()[layer] == a.layers()[layer].push(b.layers()[layer].last()),
        b.layers()[layer].last().0@ == name,
    ensures
        b.layer_entry(layer, name) == Some(b.layers()[layer].last().1),
        forall|k: Seq<char>|
            k != name ==> #[trigger] spec_entry_view(b, layer, k) == spec_entry_view(a, layer, k),
{
    let ol = a.layers()[layer];
    let nl = b.layers()[layer];
    let p = nl.last();
    pairs::lemma_pairs_idx_push(ol, p, name);
    pairs::lemma_pairs_idx_props(ol, name);
    assert(spec_pairs_idx(nl, name) == ol.len());
    assert forall|k: Seq<char>| k != name implies #[trigger] spec_entry_view(b, layer, k)
        == spec_entry_view(a, layer, k) by {
        pairs::lemma_pairs_idx_push(ol, p, k);
        pairs::lemma_pairs_idx_props(ol, k);
        pairs::lemma_pairs_idx_props(nl, k);
        if spec_pairs_idx(ol, k) >= 0 {
            assert(nl[spec_pairs_idx(ol, k)] == ol[spec_pairs_idx(ol, k)]);
        }
    }
}

/// Above the resolved layer no layer holds the name.
pub proof fn lemma_solve_upper_empty(a: DataBase, name: Seq<char>, from: int)
    requires
        from >= -1,
        from < a.num_layers(),
    ensures
        forall|l: int|
            a.spec_solve_from(name, from) < l <= from ==> !(#[trigger] a.layer_has(l, name)),
    decreases from + 1,
{
    if from >= 0 && !a.layer_has(from, name) {
        lemma_solve_upper_empty(a, name, from - 1);
    }
}

/// Writing at the layer that resolution picked makes the resolved read see
/// the new scalar (or, for a stored array form, leaves every read as it
/// was).
pub proof fn lemma_set_resolved_lookup(a: DataBase, b: DataBase, layer: int, name: Seq<char>, val: Seq<char>)
    requires
        a.wf(),
        b.wf(),
        b.num_layers() == a.num_layers(),
        layer == (if a.has_name(name) {
            a.top_layer_of(name)
        } else {
            0int
        }),
        a.layer_has(layer, name) ==> layer_binding_updated(a, b, layer, name, val),
        !a.layer_has(layer, name) ==> layer_binding_set(a, b, layer, name, val),
    ensures
        (match a.lookup(name) {
            Some(ov) => !(ov.value is Single),
            None => false,
        }) ==> b.layers() == a.layers(),
        (match a.lookup(name) {
            Some(ov) => ov.value is Single,
            None => true,
        }) ==> b.lookup_single(name) == Some(val),
{
    lemma_solve_from_range(a, name, a.num_layers() - 1);
    lemma_solve_upper_empty(a, name, a.num_layers() - 1);
    if a.has_name(name) {
        assert(layer == a.top_layer_of(name));
        assert(a.layer_has(layer, name));
        assert(a.lookup(name) == a.layer_entry(layer, name));
        let ov = a.layer_entry(layer, name)->Some_0;
        if ov.value is Single {
            assert(b.layer_entry(layer, name) matches Some(v) && v.value matches Value::Single(
                sd,
            ) && sd.data@ == val);
            assert(spec_pairs_idx(b.layers()[layer], name) >= 0);
            assert(b.layer_has(layer, name));
            assert forall|l: int| layer < l < b.num_layers() implies !(#[trigger] b.layer_has(
                l,
                name,
            )) by {
                assert(b.layers()[l] == a.layers()[l]);
                assert(!a.layer_has(l, name));
            }
            lemma_solve_from_found(b, name, b.num_layers() - 1, layer);
            assert(b.top_layer_of(name) == layer);
        }
    } else {
        assert(!a.layer_has(layer, name)) by {
            if layer == a.top_layer_of(name) {
            }
        }
        assert(b.layer_entry(layer, name) matches Some(v) && v.value matches Value::Single(sd)
            && sd.data@ == val);
        assert(spec_pairs_idx(b.layers()[layer], name) >= 0);
        assert forall|l: int| layer < l < b.num_layers() implies !(#[trigger] b.layer_has(
            l,
            name,
        )) by {
            assert(b.layers()[l] == a.layers()[l]);
            assert(!a.layer_has(l, name));
        }
        lemma_solve_from_found(b, name, b.num_layers() - 1, layer);
        assert(b.top_layer_of(name) == layer);
    }
}

/// When layer `layer` holds `name` and every layer above does not, the
/// resolution from `from` finds `layer`.
proof fn lemma_solve_from_found(b: DataBase, name: Seq<char>, from: int, layer: int)
    requires
        0 <= layer <= from,
        from < b.num_layers(),
        b.layer_has(layer, name),
        forall|l: int| layer < l < b.num_layers() ==> !(#[trigger] b.layer_has(l, name)),
    ensures
        b.spec_solve_from(name, from) == layer,
    decreases from,
{
    if from > layer {
        lemma_solve_from_found(b, name, from - 1, layer);
    }
}

} // verus!
