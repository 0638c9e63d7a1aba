//! Assignments: `name=value`, `name+=value`, `name[index]=value` and
//! `name=(word ...)`; parsing them and writing them into the database at a
//! chosen layer. Word expansion is the word evaluator's business: here a
//! word stands for its literal text.

use vstd::prelude::*;
use crate::database::DataBase;
use crate::feeder::Feeder;
use crate::pairs::spec_pairs_opt_view;
use crate::scanner;
use crate::text;
use crate::utils;
use crate::variable::Value;

verus! {

/// A single word on the right of an assignment.
#[derive(Debug, Default)]
pub struct Word {
    pub text: String,
}

/// A parenthesised list of words on the right of an assignment.
#[derive(Debug, Default)]
pub struct ArrayLiteral {
    pub text: String,
    pub words: Vec<Word>,
}

/// What the right-hand side of an assignment was parsed as.
#[derive(Debug, Default)]
pub enum ParsedDataType {
    #[default]
    Unset,
    Single(Word),
    Array(ArrayLiteral),
}

/// One assignment, parsed and possibly evaluated.
#[derive(Debug, Default)]
pub struct Substitution {
    pub text: String,
    pub name: String,
    /// The text between `[` and `]`, when the target is subscripted.
    pub index: Option<String>,
    pub value: ParsedDataType,
    pub evaluated_string: Option<String>,
    pub evaluated_array: Option<Vec<String>>,
    pub append: bool,
}

impl Substitution {
    /// The evaluated subscript: an all-blank or all-bracket index counts
    /// as empty.
    pub fn get_index(&self) -> (r: Option<String>)
        ensures
            self.index is None ==> r is None,
            self.index matches Some(s) ==> (r matches Some(t) && t@ == (
            if spec_index_blank(s@) {
                Seq::<char>::empty()
            } else {
                s@
            })),
    {
        match &self.index {
            Some(s) => {
                if index_blank(s.as_str()) {
                    Some(String::new())
                } else {
                    Some(s.clone())
                }
            },
            None => None,
        }
    }

    /// Writes the evaluated scalar into an associative-array element:
    /// success binds the key, fails on a readonly name or missing inputs.
    pub fn set_assoc(&self, db: &mut DataBase, layer: usize) -> (r: Result<(), String>)
        requires
            old(db).wf(),
            layer < old(db).num_layers(),
        ensures
            final(db).wf(),
            final(db).num_layers() == old(db).num_layers(),
            !(self.evaluated_string is Some && self.get_index_spec() is Some) ==> r is Err
                && *final(db) == *old(db),
            self.evaluated_string is Some && self.get_index_spec() is Some && old(db).readonly(
                self.name@,
            ) ==> r is Err && final(db).layers() == old(db).layers() && final(db).exit_status
                == 1,
            old(db).readonly(self.name@) ==> r is Err && final(db).layers() == old(db).layers(),
            !old(db).readonly(self.name@) && self.evaluated_string is Some
                && self.get_index_spec() is Some && (match old(db).layer_entry(
                layer as int,
                self.name@,
            ) {
                Some(ov) => ov.value is AssocArray || ov.value is Unset,
                None => true,
            }) ==> (r is Ok && crate::database::binding_put_shape(
                *old(db),
                *final(db),
                layer as int,
                self.name@,
            ) && (final(db).layer_entry(layer as int, self.name@) matches Some(nv) && (
            nv.value matches Value::AssocArray(nd) && spec_pairs_opt_view(
                nd.data@,
                self.get_index_spec()->Some_0,
            ) == Some(self.evaluated_string->Some_0@)))),
            final(db).last_arg == old(db).last_arg,
    {
        let index = self.get_index();
        match (&self.evaluated_string, index) {
            (Some(v), Some(k)) => db.set_layer_assoc_elem(self.name.as_str(), &k, v, layer),
            _ => Err(String::from_str("evaluation error")),
        }
    }

    /// The subscript as `set_assoc` sees it.
    pub open spec fn get_index_spec(&self) -> Option<Seq<char>> {
        match self.index {
            Some(s) => Some(
                if spec_index_blank(s@) {
                    Seq::<char>::empty()
                } else {
                    s@
                },
            ),
            None => None,
        }
    }

    /// Writes the evaluated value into an indexed array: one element when
    /// a numeric subscript is there, the whole array otherwise; an
    /// unreadable subscript is the one extra error.
    pub fn set_array(&self, db: &mut DataBase, layer: usize) -> (r: Result<(), String>)
        requires
            old(db).wf(),
            layer < old(db).num_layers(),
        ensures
            final(db).wf(),
            final(db).num_layers() == old(db).num_layers(),
            old(db).readonly(self.name@) ==> r is Err && final(db).layers() == old(db).layers(),
            self.get_index_spec() matches Some(s) && !spec_subscript_parses(s) ==> r is Err
                && *final(db) == *old(db),
            !old(db).readonly(self.name@) && self.evaluated_string is Some && (
            self.get_index_spec() matches Some(s) && spec_subscript_parses(s)) && (match old(
                db,
            ).layer_entry(layer as int, self.name@) {
                Some(ov) => ov.value is Array || ov.value is Unset,
                None => true,
            }) ==> (r is Ok && crate::database::binding_put_shape(
                *old(db),
                *final(db),
                layer as int,
                self.name@,
            ) && (final(db).layer_entry(layer as int, self.name@) matches Some(nv) && (
            nv.value matches Value::Array(nd) && nd.data@.map_values(|x: String| x@)
                == crate::database::spec_elem_pad(
                spec_layer_array_views(*old(db), layer as int, self.name@),
                text::spec_digits_val(self.get_index_spec()->Some_0),
                self.evaluated_string->Some_0@,
            )))),
            !old(db).readonly(self.name@) && self.evaluated_array is Some
                && self.get_index_spec() is None ==> (r is Ok
                && crate::database::binding_put_shape(
                *old(db),
                *final(db),
                layer as int,
                self.name@,
            ) && (final(db).layer_entry(layer as int, self.name@) matches Some(nv) && (
            nv.value matches Value::Array(nd) && nd.data@.map_values(|x: String| x@)
                == self.evaluated_array->Some_0@.map_values(|x: String| x@)))),
            final(db).last_arg == old(db).last_arg,
    {
        let index: Option<usize> = match self.get_index() {
            Some(s) => {
                match text::parse_usize(s.as_str()) {
                    Some(n) => Some(n),
                    None => {
                        return Err(String::from_str("bad array subscript"));
                    },
                }
            },
            None => None,
        };
        match (&self.evaluated_string, index) {
            (Some(v), Some(n)) => {
                return db.set_layer_array_elem(self.name.as_str(), v, layer, n);
            },
            _ => {},
        }
        match (&self.evaluated_array, index) {
            (Some(a), None) => {
                let copy = copy_words(a);
                db.set_layer_array(self.name.as_str(), copy, layer)
            },
            _ => Err(String::from_str("evaluation error")),
        }
    }

    /// Writes the evaluated value as a plain parameter, or as a whole
    /// array when only an array was evaluated.
    pub fn set_param(&self, db: &mut DataBase, layer: usize) -> (r: Result<(), String>)
        requires
            old(db).wf(),
            layer < old(db).num_layers(),
        ensures
            final(db).wf(),
            final(db).num_layers() == old(db).num_layers(),
            old(db).readonly(self.name@) && (self.evaluated_string is Some
                || self.evaluated_array is Some) ==> r is Err && final(db).layers() == old(db).layers() && final(db).exit_status == 1,
            old(db).readonly(self.name@) ==> r is Err && final(db).layers() == old(db).layers(),
            !old(db).readonly(self.name@) && self.evaluated_string is Some && old(db).layer_has(
                layer as int,
                self.name@,
            ) ==> r is Ok && crate::database::layer_binding_updated(
                *old(db),
                *final(db),
                layer as int,
                self.name@,
                self.evaluated_string->Some_0@,
            ),
            !old(db).readonly(self.name@) && self.evaluated_string is Some && !old(db).layer_has(
                layer as int,
                self.name@,
            ) && utils::spec_is_param(self.name@) ==> r is Ok
                && crate::database::layer_binding_set(
                *old(db),
                *final(db),
                layer as int,
                self.name@,
                self.evaluated_string->Some_0@,
            ),
            !old(db).readonly(self.name@) && self.evaluated_string is Some && old(db).layer_has(
                layer as int,
                self.name@,
            ) && (old(db).layer_entry(layer as int, self.name@) matches Some(ov) && ov.value
                is Single) ==> (r is Ok && (final(db).layer_entry(layer as int, self.name@)
                matches Some(nv) && nv.value matches Value::Single(sd) && sd.data@
                == self.evaluated_string->Some_0@)),
            !old(db).readonly(self.name@) && self.evaluated_string is Some && !old(db).layer_has(
                layer as int,
                self.name@,
            ) && utils::spec_is_param(self.name@) ==> (r is Ok && (final(db).layer_entry(
                layer as int,
                self.name@,
            ) matches Some(nv) && nv.value matches Value::Single(sd) && sd.data@
                == self.evaluated_string->Some_0@)),
            !old(db).readonly(self.name@) && self.evaluated_string is None
                && self.evaluated_array is Some ==> (r is Ok
                && crate::database::binding_put_shape(
                *old(db),
                *final(db),
                layer as int,
                self.name@,
            ) && (final(db).layer_entry(layer as int, self.name@) matches Some(nv) && (
            nv.value matches Value::Array(nd) && nd.data@.map_values(|x: String| x@)
                == self.evaluated_array->Some_0@.map_values(|x: String| x@)))),
            final(db).last_arg == old(db).last_arg,
    {
        match &self.evaluated_string {
            Some(data) => {
                return db.set_layer_param(self.name.as_str(), data.as_str(), layer);
            },
            None => {},
        }
        match &self.evaluated_array {
            Some(a) => {
                let copy = copy_words(a);
                db.set_layer_array(self.name.as_str(), copy, layer)
            },
            None => Err(String::from_str("evaluation error")),
        }
    }

    /// Routes the evaluated value to the right shape of binding: an
    /// associative array, an indexed array, or a plain parameter.
    pub fn set_to_shell(&self, db: &mut DataBase, layer: usize) -> (r: Result<(), String>)
        requires
            old(db).wf(),
            layer < old(db).num_layers(),
        ensures
            final(db).wf(),
            final(db).num_layers() == old(db).num_layers(),
            self.evaluated_string is None && self.evaluated_array is None ==> r is Err && final(db).exit_status == 1,
            (self.evaluated_string is Some || self.evaluated_array is Some) && old(db).readonly(
                self.name@,
            ) ==> r is Err && final(db).layers() == old(db).layers(),
            scalar_write_applies(*self, *old(db), layer as int) ==> r is Ok && (if old(db).layer_has(layer as int, self.name@) {
                crate::database::layer_binding_updated(
                    *old(db),
                    *final(db),
                    layer as int,
                    self.name@,
                    self.evaluated_string->Some_0@,
                )
            } else {
                crate::database::layer_binding_set(
                    *old(db),
                    *final(db),
                    layer as int,
                    self.name@,
                    self.evaluated_string->Some_0@,
                )
            }),
            assoc_write_applies(*self, *old(db), layer as int) ==> (r is Ok
                && crate::database::binding_put_shape(
                *old(db),
                *final(db),
                layer as int,
                self.name@,
            ) && (final(db).layer_entry(layer as int, self.name@) matches Some(nv) && (
            nv.value matches Value::AssocArray(nd) && spec_pairs_opt_view(
                nd.data@,
                self.get_index_spec()->Some_0,
            ) == Some(self.evaluated_string->Some_0@)))),
            array_elem_applies(*self, *old(db), layer as int) ==> (r is Ok
                && crate::database::binding_put_shape(
                *old(db),
                *final(db),
                layer as int,
                self.name@,
            ) && (final(db).layer_entry(layer as int, self.name@) matches Some(nv) && (
            nv.value matches Value::Array(nd) && nd.data@.map_values(|x: String| x@)
                == crate::database::spec_elem_pad(
                spec_layer_array_views(*old(db), layer as int, self.name@),
                text::spec_digits_val(self.get_index_spec()->Some_0),
                self.evaluated_string->Some_0@,
            )))),
            array_write_applies(*self, *old(db)) ==> (r is Ok
                && crate::database::binding_put_shape(
                *old(db),
                *final(db),
                layer as int,
                self.name@,
            ) && (final(db).layer_entry(layer as int, self.name@) matches Some(nv) && (
            nv.value matches Value::Array(nd) && nd.data@.map_values(|x: String| x@)
                == self.evaluated_array->Some_0@.map_values(|x: String| x@)))),
            final(db).last_arg == old(db).last_arg,
    {
        if self.evaluated_string.is_none() && self.evaluated_array.is_none() {
            db.exit_status = 1;
            return Err(String::from_str("evaluation error"));
        }
        proof {
            crate::database::lemma_solve_from_range(*db, self.name@, db.num_layers() - 1);
        }
        if !db.has_value(self.name.as_str()) {
            if self.index.is_some() {
                return self.set_array(db, layer);
            }
        }
        if db.is_assoc(self.name.as_str()) {
            self.set_assoc(db, layer)
        } else if db.is_array(self.name.as_str()) {
            self.set_array(db, layer)
        } else {
            self.set_param(db, layer)
        }
    }

    /// Mirrors the evaluated scalar into the environment model; the word
    /// evaluator being elsewhere, a word stands for its text.
    pub fn set_to_env(&self, db: &mut DataBase) -> (r: bool)
        ensures
            self.evaluated_string matches Some(v) ==> r && spec_pairs_opt_view(
                final(db).env(),
                self.name@,
            ) == Some(v@),
            self.evaluated_string is None ==> !r && *final(db) == *old(db),
            final(db).layers() == old(db).layers(),
            final(db).last_arg == old(db).last_arg,
            final(db).exit_status == old(db).exit_status,
    {
        match &self.evaluated_string {
            Some(v) => {
                db.init_env_var(self.name.as_str(), v.as_str());
                true
            },
            None => false,
        }
    }

    /// Evaluates the parsed right-hand side — a word stands for its text,
    /// `+=` prepends what the name already holds — and writes it to the
    /// shell (or, for a temporary assignment, to the environment model).
    /// `layer` 0 asks for the resolved layer.
    #[verifier::rlimit(100)]
    #[verifier::spinoff_prover]
    pub fn eval(&mut self, db: &mut DataBase, layer: usize, env: bool) -> (r: bool)
        requires
            old(db).wf(),
            layer < old(db).num_layers(),
        ensures
            final(db).wf(),
            final(db).num_layers() == old(db).num_layers(),
            final(db).last_arg == old(db).last_arg,
            !env && !old(self).append && (old(self).value is Single || old(self).value is Unset)
                && old(db).readonly(old(self).name@) ==> !r && final(db).layers() == old(db).layers() && final(db).exit_status == 1,
            !env && !old(self).append && layer == 0 && old(self).index is None
                && old(self).value is Single && scalar_single_applies(*old(self), *old(db))
                ==> r && final(db).lookup_single(old(self).name@) == Some(
                old(self).value->Single_0.text@,
            ),
            env && !old(self).append && old(self).value is Single ==> (r && spec_pairs_opt_view(
                final(db).env(),
                old(self).name@,
            ) == Some(old(self).value->Single_0.text@) && final(db).layers() == old(db).layers()),
            !env && !old(self).append && layer == 0 && old(self).value is Single
                && assoc_resolved_applies(*old(self), *old(db)) ==> (r && (final(db).lookup(
                old(self).name@,
            ) matches Some(nv) && (nv.value matches Value::AssocArray(nd) && spec_pairs_opt_view(
                nd.data@,
                old(self).get_index_spec()->Some_0,
            ) == Some(old(self).value->Single_0.text@)))),
            !env && !old(self).append && layer == 0 && old(self).value is Single
                && array_elem_resolved_applies(*old(self), *old(db)) ==> (r && (final(db).lookup(
                old(self).name@,
            ) matches Some(nv) && (nv.value matches Value::Array(nd) && nd.data@.map_values(
                |x: String| x@,
            ) == crate::database::spec_elem_pad(
                resolved_array_views(*old(db), old(self).name@),
                text::spec_digits_val(old(self).get_index_spec()->Some_0),
                old(self).value->Single_0.text@,
            )))),
            !env && layer == 0 && old(self).value is Array && old(self).index is None
                && old(self).evaluated_string is None && array_literal_resolved_applies(
                *old(self),
                *old(db),
            ) ==> (r && (final(db).lookup(old(self).name@) matches Some(nv) && (
            nv.value matches Value::Array(nd) && nd.data@.map_values(|x: String| x@) == (
            if old(self).append {
                resolved_array_views(*old(db), old(self).name@)
            } else {
                Seq::<Seq<char>>::empty()
            }) + word_views(old(self).value->Array_0.words@)))),
            !env && old(self).append && layer == 0 && old(self).index is None && old(self).value
                is Single && append_scalar_applies(*old(self), *old(db)) ==> (r && final(db).lookup_single(old(self).name@) == Some(
                crate::database::spec_value_single(
                    old(db).lookup(old(self).name@)->Some_0.value,
                ) + old(self).value->Single_0.text@,
            )),
            !env && !old(self).append && layer >= 1 && old(self).index is None && old(self).value
                is Single && scalar_layer_applies(*old(self), *old(db), layer as int) ==> (r && (
            final(db).layer_entry(layer as int, old(self).name@) matches Some(nv) && (
            nv.value matches Value::Single(sd) && sd.data@ == old(self).value->Single_0.text@))),
    {
        let ghost d0 = *old(db);
        let ghost app_path = !env && old(self).append && layer == 0 && old(self).index is None
            && old(self).value is Single && append_scalar_applies(*old(self), d0);
        match &self.value {
            ParsedDataType::Unset => {
                self.evaluated_string = Some(String::new());
            },
            ParsedDataType::Single(w) => {
                let prev: String = if self.append {
                    match db.get_param(self.name.as_str()) {
                        Ok(v) => v,
                        Err(_) => String::new(),
                    }
                } else {
                    String::new()
                };
                let mut joined = prev;
                joined.append(w.text.as_str());
                proof {
                    if !self.append {
                        assert(joined@ =~= old(self).value->Single_0.text@);
                    }
                    if app_path {
                        assert(joined@ == crate::database::spec_value_single(
                            d0.lookup(self.name@)->Some_0.value,
                        ) + old(self).value->Single_0.text@);
                    }
                }
                self.evaluated_string = Some(joined);
            },
            ParsedDataType::Array(a) => {
                let prev: Vec<String> = if self.append {
                    db.get_array_all(self.name.as_str())
                } else {
                    Vec::new()
                };
                let ghost pv = prev@.map_values(|x: String| x@);
                let mut vals = prev;
                let m = a.words.len();
                let mut i: usize = 0;
                proof {
                    assert(word_views(a.words@.take(0)) =~= Seq::<Seq<char>>::empty());
                    assert(vals@.map_values(|x: String| x@) =~= pv + word_views(
                        a.words@.take(0),
                    ));
                }
                while i < m
                    invariant
                        i <= m,
                        m == a.words@.len(),
                        vals@.map_values(|x: String| x@) == pv + word_views(
                            a.words@.take(i as int),
                        ),
                    decreases m - i,
                {
                    let ghost before = vals@.map_values(|x: String| x@);
                    vals.push(a.words[i].text.clone());
                    proof {
                        assert(vals@.map_values(|x: String| x@) =~= before.push(
                            a.words@[i as int].text@,
                        ));
                        assert(word_views(a.words@.take(i + 1)) =~= word_views(
                            a.words@.take(i as int),
                        ).push(a.words@[i as int].text@));
                        assert(pv + word_views(a.words@.take(i + 1)) =~= (pv + word_views(
                            a.words@.take(i as int),
                        )).push(a.words@[i as int].text@));
                    }
                    i += 1;
                }
                proof {
                    assert(a.words@.take(m as int) =~= a.words@);
                }
                self.evaluated_array = Some(vals);
            },
        };
        let target_layer: usize = if layer == 0 {
            match db.get_layer_pos(self.name.as_str()) {
                Some(n) => n,
                None => 0,
            }
        } else {
            layer
        };
        if target_layer >= db.get_layer_num() {
            db.exit_status = 1;
            return false;
        }
        if env {
            return self.set_to_env(db);
        }
        let ghost pre = *db;
        let ghost scalar_path = !env && !old(self).append && layer == 0 && old(self).index
            is None && old(self).value is Single && scalar_single_applies(*old(self), pre);
        let ghost assoc_path = !env && !old(self).append && layer == 0 && old(self).value
            is Single && assoc_resolved_applies(*old(self), d0);
        let ghost elem_path = !env && !old(self).append && layer == 0 && old(self).value
            is Single && array_elem_resolved_applies(*old(self), d0);
        let ghost arr_path = !env && layer == 0 && old(self).value is Array && old(self).index
            is None && old(self).evaluated_string is None && array_literal_resolved_applies(
            *old(self),
            d0,
        );
        let ghost lay_path = !env && !old(self).append && layer >= 1 && old(self).index is None
            && old(self).value is Single && scalar_layer_applies(*old(self), d0, layer as int);
        proof {
            if lay_path {
                assert(pre == d0);
                assert(target_layer == layer);
                assert(scalar_write_applies(*self, pre, target_layer as int));
            }
            if scalar_path || assoc_path || elem_path || arr_path || app_path {
                assert(pre == d0);
                crate::database::lemma_solve_from_range(pre, self.name@, pre.num_layers() - 1);
                crate::database::lemma_solve_upper_empty(pre, self.name@, pre.num_layers() - 1);
                if pre.has_name(self.name@) {
                    assert(pre.lookup(self.name@) == pre.layer_entry(
                        target_layer as int,
                        self.name@,
                    ));
                } else {
                    assert(!pre.layer_has(target_layer as int, self.name@));
                    assert(pre.layer_entry(target_layer as int, self.name@) is None);
                }
            }
            if scalar_path || app_path {
                assert(scalar_write_applies(*self, pre, target_layer as int));
            }
            if assoc_path {
                assert(assoc_write_applies(*self, pre, target_layer as int));
            }
            if elem_path {
                assert(array_elem_applies(*self, pre, target_layer as int));
            }
            if arr_path {
                assert(array_write_applies(*self, pre));
            }
        }
        match self.set_to_shell(db, target_layer) {
            Ok(()) => {
                proof {
                    if scalar_path || app_path {
                        crate::database::lemma_set_resolved_lookup(
                            pre,
                            *db,
                            target_layer as int,
                            self.name@,
                            self.evaluated_string->Some_0@,
                        );
                    }
                    if assoc_path || elem_path || arr_path {
                        crate::database::lemma_put_resolved_lookup(
                            pre,
                            *db,
                            target_layer as int,
                            self.name@,
                        );
                    }
                }
                true
            },
            Err(_) => {
                db.exit_status = 1;
                false
            },
        }
    }
}

/// A subscript that reads as a machine index.
pub open spec fn spec_subscript_parses(s: Seq<char>) -> bool {
    s.len() > 0 && text::all_digits(s) && text::spec_digits_val(s) <= usize::MAX
}

/// The texts of the words of an array literal.
pub open spec fn word_views(ws: Seq<Word>) -> Seq<Seq<char>> {
    ws.map_values(|w: Word| w.text@)
}

/// The elements of the resolved binding when it is an indexed array, else
/// nothing.
pub open spec fn resolved_array_views(db: DataBase, name: Seq<char>) -> Seq<Seq<char>> {
    match db.lookup(name) {
        Some(v) => match v.value {
            Value::Array(ad) => ad.data@.map_values(|x: String| x@),
            _ => Seq::empty(),
        },
        None => Seq::empty(),
    }
}

/// The elements of the binding at one layer when it is an indexed array,
/// else nothing.
pub open spec fn spec_layer_array_views(db: DataBase, layer: int, name: Seq<char>) -> Seq<
    Seq<char>,
> {
    match db.layer_entry(layer, name) {
        Some(v) => match v.value {
            Value::Array(ad) => ad.data@.map_values(|x: String| x@),
            _ => Seq::empty(),
        },
        None => Seq::empty(),
    }
}

/// An associative-element write that must land: scalar and key present on
/// a writable name whose resolved and targeted bindings are associative.
pub open spec fn assoc_write_applies(sub: Substitution, db: DataBase, layer: int) -> bool {
    &&& sub.evaluated_string is Some
    &&& sub.get_index_spec() is Some
    &&& !db.readonly(sub.name@)
    &&& (db.lookup(sub.name@) matches Some(v) && v.value is AssocArray)
    &&& (db.layer_entry(layer, sub.name@) matches Some(v) && (v.value is AssocArray || v.value
        is Unset))
}

/// An indexed-element write that must land: scalar and numeric subscript
/// on a writable name that is absent or an indexed array.
pub open spec fn array_elem_applies(sub: Substitution, db: DataBase, layer: int) -> bool {
    &&& sub.evaluated_string is Some
    &&& (sub.get_index_spec() matches Some(s) && spec_subscript_parses(s))
    &&& !db.readonly(sub.name@)
    &&& (match db.lookup(sub.name@) {
        Some(v) => v.value is Array,
        None => true,
    })
    &&& (match db.layer_entry(layer, sub.name@) {
        Some(v) => v.value is Array || v.value is Unset,
        None => true,
    })
}

/// A whole-array write that must land: an evaluated list, no subscript, a
/// writable name that does not resolve to an associative array.
pub open spec fn array_write_applies(sub: Substitution, db: DataBase) -> bool {
    &&& sub.evaluated_string is None
    &&& sub.evaluated_array is Some
    &&& sub.index is None
    &&& !db.readonly(sub.name@)
    &&& !(db.lookup(sub.name@) matches Some(v) && v.value is AssocArray)
}

/// The pre-evaluation face of an associative-element assignment at the
/// resolved layer.
pub open spec fn assoc_resolved_applies(sub: Substitution, db: DataBase) -> bool {
    &&& sub.index is Some
    &&& !db.readonly(sub.name@)
    &&& (db.lookup(sub.name@) matches Some(v) && v.value is AssocArray)
}

/// The pre-evaluation face of an indexed-element assignment at the
/// resolved layer.
pub open spec fn array_elem_resolved_applies(sub: Substitution, db: DataBase) -> bool {
    &&& (sub.get_index_spec() matches Some(s) && spec_subscript_parses(s))
    &&& !db.readonly(sub.name@)
    &&& (match db.lookup(sub.name@) {
        Some(v) => v.value is Array,
        None => true,
    })
}

/// The pre-evaluation face of a whole-array assignment at the resolved
/// layer.
pub open spec fn array_literal_resolved_applies(sub: Substitution, db: DataBase) -> bool {
    &&& !db.readonly(sub.name@)
    &&& !(db.lookup(sub.name@) matches Some(v) && v.value is AssocArray)
}

/// A plain scalar assignment at an explicit layer that must land: a
/// writable valid name, scalar or absent both as resolved and at the
/// layer written.
pub open spec fn scalar_layer_applies(sub: Substitution, db: DataBase, layer: int) -> bool {
    &&& !db.readonly(sub.name@)
    &&& utils::spec_is_param(sub.name@)
    &&& (match db.lookup(sub.name@) {
        Some(v) => v.value is Single,
        None => true,
    })
    &&& (match db.layer_entry(layer, sub.name@) {
        Some(v) => v.value is Single,
        None => true,
    })
}

/// The scalar-assignment conditions read nothing but the layers, so they
/// carry over to any database with the same layers.
pub proof fn lemma_scalar_single_same_layers(sub: Substitution, a: DataBase, b: DataBase)
    requires
        scalar_single_applies(sub, a),
        b.layers() == a.layers(),
    ensures
        scalar_single_applies(sub, b),
{
    crate::database::lemma_readonly_same_layers(a, b, sub.name@);
    crate::database::lemma_solve_layers_eq(a, b, sub.name@, a.num_layers() - 1);
    if a.has_name(sub.name@) {
        crate::database::lemma_solve_from_range(a, sub.name@, a.num_layers() - 1);
        assert(b.layers()[a.top_layer_of(sub.name@)] == a.layers()[a.top_layer_of(sub.name@)]);
    }
}

/// The plain scalar append that must land: the name resolves to a scalar
/// the generic read pins down.
pub open spec fn append_scalar_applies(sub: Substitution, db: DataBase) -> bool {
    &&& !db.readonly(sub.name@)
    &&& crate::database::spec_is_generic_name(sub.name@)
    &&& db.spec_special_from(sub.name@, db.num_layers() - 1) == -1
    &&& db.has_name(sub.name@)
    &&& (db.lookup(sub.name@) matches Some(v) && v.value is Single)
}

/// A fresh list with the same word texts.
fn copy_words(a: &Vec<String>) -> (r: Vec<String>)
    ensures
        r@.map_values(|x: String| x@) == a@.map_values(|x: String| x@),
{
    let mut copy: Vec<String> = Vec::new();
    let m = a.len();
    let mut i: usize = 0;
    proof {
        assert(copy@.map_values(|x: String| x@) =~= a@.map_values(|x: String| x@).take(0));
    }
    while i < m
        invariant
            i <= m,
            m == a@.len(),
            copy@.map_values(|x: String| x@) == a@.map_values(|x: String| x@).take(i as int),
        decreases m - i,
    {
        let ghost before = copy@.map_values(|x: String| x@);
        copy.push(a[i].clone());
        proof {
            let views = a@.map_values(|x: String| x@);
            assert(copy@.map_values(|x: String| x@) =~= before.push(views[i as int]));
            assert(views.take(i + 1) =~= views.take(i as int).push(views[i as int]));
        }
        i += 1;
    }
    proof {
        assert(a@.map_values(|x: String| x@).take(m as int) =~= a@.map_values(|x: String| x@));
    }
    copy
}

impl Substitution {
    /// Parses `name=...`, `name+=...`, `name[idx]=...` or `name=(...)`;
    /// with no `=` in the right place the feeder is rewound untouched.
    #[verifier::rlimit(100)]
    #[verifier::spinoff_prover]
    pub fn parse(feeder: &mut Feeder) -> (r: Option<Substitution>)
        ensures
            r matches Some(a) ==> old(feeder).rem() == a.text@ + final(feeder).rem()
                && a.text@.len() > 0,
            r is None ==> final(feeder).rem() == old(feeder).rem() && final(feeder).backups()
                == old(feeder).backups(),
    {
        proof {
            reveal_strlit("[");
            reveal_strlit("]");
            reveal_strlit("+=");
            reveal_strlit("=");
            reveal_strlit("(");
        }
        let ghost w0 = feeder.rem();
        let name_len = scanner::scanner_varname(feeder, 0);
        if name_len == 0 {
            return None;
        }
        let first = feeder.nth(0);
        if !(('a' <= first && first <= 'z') || ('A' <= first && first <= 'Z') || first == '_') {
            return None;
        }
        feeder.set_backup();
        let mut ans = new_substitution();
        let ghost r1 = feeder.rem();
        let name = feeder.consume(name_len);
        ans.text.append(name.as_str());
        ans.name = name;
        proof {
            assert(r1 =~= r1.take(name_len as int) + r1.skip(name_len as int));
            assert(w0 =~= ans.text@ + feeder.rem());
        }

        if feeder.starts_with("[") {
            let close = scanner::scanner_until(feeder, 1, "]");
            if close < feeder.len() {
                let ghost r2 = feeder.rem();
                let whole = feeder.consume(close + 1);
                let wlen = whole.as_str().unicode_len();
                let inner = text::substring_copy(whole.as_str(), 1, wlen - 1);
                ans.text.append(whole.as_str());
                ans.index = Some(inner);
                proof {
                    assert(r2 =~= r2.take(close + 1) + r2.skip(close + 1));
                    assert(w0 =~= ans.text@ + feeder.rem());
                }
            } else {
                feeder.rewind();
                return None;
            }
        }

        if feeder.starts_with("+=") {
            ans.append = true;
            assert("+="@.len() == 2);
            let ghost r3 = feeder.rem();
            let eaten = feeder.consume(2);
            ans.text.append(eaten.as_str());
            proof {
                assert(r3 =~= r3.take(2) + r3.skip(2));
                assert(w0 =~= ans.text@ + feeder.rem());
            }
        } else if feeder.starts_with("=") {
            assert("="@.len() == 1);
            let ghost r3 = feeder.rem();
            let eaten = feeder.consume(1);
            ans.text.append(eaten.as_str());
            proof {
                assert(r3 =~= r3.take(1) + r3.skip(1));
                assert(w0 =~= ans.text@ + feeder.rem());
            }
        } else {
            feeder.rewind();
            return None;
        }
        feeder.pop_backup();

        if feeder.len() > 0 && feeder.nth(0) == '(' {
            let ghost r4 = feeder.rem();
            match parse_array_literal(feeder) {
                Some(a) => {
                    proof {
                        assert(w0 =~= (ans.text@ + a.text@) + feeder.rem());
                    }
                    ans.text.append(a.text.as_str());
                    ans.value = ParsedDataType::Array(a);
                    assert(ans.text@.len() > 0);
                    return Some(ans);
                },
                None => {},
            }
        }
        let value_len = scanner::scanner_until_escape(feeder, 0, " \n\t;&|");
        if value_len > 0 {
            let ghost r5 = feeder.rem();
            let w = feeder.consume(value_len);
            ans.text.append(w.as_str());
            proof {
                assert(r5 =~= r5.take(value_len as int) + r5.skip(value_len as int));
                assert(w0 =~= ans.text@ + feeder.rem());
            }
            ans.value = ParsedDataType::Single(Word { text: w });
        }
        assert(ans.text@.len() > 0);
        Some(ans)
    }
}

/// A default substitution, before any field is filled.
fn new_substitution() -> (r: Substitution)
    ensures
        r.text@.len() == 0,
        r.name@.len() == 0,
        r.index is None,
        r.value is Unset,
        r.evaluated_string is None,
        r.evaluated_array is None,
        !r.append,
{
    Substitution {
        text: String::new(),
        name: String::new(),
        index: None,
        value: ParsedDataType::Unset,
        evaluated_string: None,
        evaluated_array: None,
        append: false,
    }
}

/// Parses `(word word ...)`; `None` leaves the feeder untouched.
fn parse_array_literal(feeder: &mut Feeder) -> (r: Option<ArrayLiteral>)
    requires
        old(feeder).rem().len() > 0,
        old(feeder).rem()[0] == '(',
    ensures
        r matches Some(a) ==> old(feeder).rem() == a.text@ + final(feeder).rem()
            && a.text@.len() > 0,
        r is None ==> final(feeder).rem() == old(feeder).rem() && final(feeder).backups() == old(
            feeder,
        ).backups(),
{
    feeder.set_backup();
    let mut a = ArrayLiteral { text: String::new(), words: Vec::new() };
    let opened = feeder.consume(1);
    a.text.append(opened.as_str());
    loop
        invariant
            feeder.rem().len() < old(feeder).rem().len(),
            old(feeder).rem() == a.text@ + feeder.rem(),
            a.text@.len() > 0,
            feeder.backups() == old(feeder).backups().push(old(feeder).rem()),
        ensures
            feeder.backups() == old(feeder).backups().push(old(feeder).rem()),
            ({
                ||| (feeder.rem().len() < old(feeder).rem().len() && old(feeder).rem() == a.text@
                    + feeder.rem() && a.text@.len() > 0)
                ||| feeder.rem() == old(feeder).rem()
            }),
        decreases feeder.rem().len(),
    {
        let blank = scanner::scanner_blank(feeder, 0);
        if blank > 0 {
            let b = feeder.consume(blank);
            a.text.append(b.as_str());
        }
        if feeder.len() == 0 {
            feeder.rewind();
            return None;
        }
        if feeder.nth(0) == ')' {
            let closed = feeder.consume(1);
            a.text.append(closed.as_str());
            break ;
        }
        let wlen = scanner::scanner_until_escape(feeder, 0, " \n\t)");
        if wlen == 0 {
            feeder.rewind();
            return None;
        }
        let w = feeder.consume(wlen);
        a.text.append(w.as_str());
        a.words.push(Word { text: w });
    }
    feeder.pop_backup();
    Some(a)
}

/// The straightforward scalar write: an evaluated scalar, no subscript,
/// a writable name that is absent or holds a scalar at the chosen layer,
/// and no array form resolved anywhere.
pub open spec fn scalar_write_applies(sub: Substitution, db: DataBase, layer: int) -> bool {
    &&& sub.evaluated_string is Some
    &&& sub.index is None
    &&& !db.readonly(sub.name@)
    &&& utils::spec_is_param(sub.name@)
    &&& (match db.lookup(sub.name@) {
        Some(v) => v.value is Single,
        None => true,
    })
    &&& (match db.layer_entry(layer, sub.name@) {
        Some(v) => v.value is Single,
        None => true,
    })
}

/// The conditions under which a plain `name=value` at the resolved layer
/// must land: a writable valid name that is absent everywhere or resolves
/// to a scalar.
pub open spec fn scalar_single_applies(sub: Substitution, db: DataBase) -> bool {
    &&& sub.index is None
    &&& !db.readonly(sub.name@)
    &&& utils::spec_is_param(sub.name@)
    &&& (match db.lookup(sub.name@) {
        Some(v) => v.value is Single,
        None => true,
    })
}

/// Whether a subscript is only blanks and brackets.
pub open spec fn spec_index_blank(s: Seq<char>) -> bool {
    forall|j: int|
        0 <= j < s.len() ==> (#[trigger] s[j] == ' ' || s[j] == '\n' || s[j] == '\t' || s[j]
            == '[' || s[j] == ']')
}

fn index_blank(s: &str) -> (r: bool)
    ensures
        r == spec_index_blank(s@),
{
    let len = s.unicode_len();
    let mut i: usize = 0;
    while i < len
        invariant
            i <= len,
            len == s@.len(),
            forall|j: int|
                0 <= j < i ==> (#[trigger] s@[j] == ' ' || s@[j] == '\n' || s@[j] == '\t' || s@[j]
                    == '[' || s@[j] == ']'),
        decreases len - i,
    {
        let c = s.get_char(i);
        if !(c == ' ' || c == '\n' || c == '\t' || c == '[' || c == ']') {
            return false;
        }
        i += 1;
    }
    true
}

} // verus!
