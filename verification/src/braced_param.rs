//! Braced parameter expansion, `${name}` and its close relatives: `${#name}`
//! for a length, `${!name}` for an indirect read, `${name[idx]}` for an
//! element. The optional operations with `:-`, `%`, `#` or `/` inside the
//! braces are the word evaluator's, not this module's; their text is
//! carried through unevaluated.

use vstd::prelude::*;
use crate::database::{self, DataBase};
use crate::feeder::Feeder;
use crate::scanner;
use crate::text;
use crate::utils;

verus! {

#[derive(Debug, Default)]
pub struct BracedParam {
    /// While parsing: the consumed text. After a substitution: the value.
    pub text: String,
    pub name: String,
    /// Whatever stood between the parameter and the closing brace.
    pub unknown: String,
    pub is_array: bool,
    /// The raw text between `[` and `]`, when an element is asked for.
    pub subscript: Option<String>,
    /// `${#name}`: the length is wanted.
    pub num: bool,
    /// `${!name}`: the value names the parameter to read.
    pub indirect: bool,
}

impl BracedParam {
    /// A well-formed expansion: a valid name, and nothing unrecognised
    /// before the closing brace.
    pub open spec fn spec_ok(&self) -> bool {
        self.name@.len() > 0 && utils::spec_is_param(self.name@) && self.unknown@.len() == 0
    }

    /// The same test, executably.
    pub fn check(&self) -> (r: bool)
        ensures
            r == self.spec_ok(),
    {
        self.name.as_str().unicode_len() > 0 && utils::is_param(&self.name)
            && self.unknown.as_str().unicode_len() == 0
    }

    /// Parses `${...}`; without the closing brace nothing is consumed.
    #[verifier::rlimit(100)]
    #[verifier::spinoff_prover]
    pub fn parse(feeder: &mut Feeder) -> (r: Option<BracedParam>)
        ensures
            r matches Some(a) ==> old(feeder).rem() == a.text@ + final(feeder).rem()
                && a.text@.len() >= 3,
            r is None ==> final(feeder).rem() == old(feeder).rem() && final(feeder).backups()
                == old(feeder).backups(),
    {
        proof {
            reveal_strlit("${");
            reveal_strlit("}");
        }
        if !feeder.starts_with("${") {
            return None;
        }
        feeder.set_backup();
        let ghost w0 = feeder.rem();
        let mut ans = BracedParam {
            text: String::new(),
            name: String::new(),
            unknown: String::new(),
            is_array: false,
            subscript: None,
            num: false,
            indirect: false,
        };
        let ghost r0 = feeder.rem();
        let opened = feeder.consume(2);
        ans.text.append(opened.as_str());
        proof {
            assert(r0 =~= r0.take(2) + r0.skip(2));
            assert(w0 =~= ans.text@ + feeder.rem());
        }
        Self::eat_front(feeder, &mut ans);
        proof {
            assert(w0 =~= ans.text@ + feeder.rem());
        }
        let rest = scanner::scanner_until(feeder, 0, "}");
        if rest >= feeder.len() {
            feeder.rewind();
            return None;
        }
        if rest > 0 {
            let ghost r4 = feeder.rem();
            let unknown = feeder.consume(rest);
            ans.text.append(unknown.as_str());
            ans.unknown = unknown;
            proof {
                assert(r4 =~= r4.take(rest as int) + r4.skip(rest as int));
                assert(w0 =~= ans.text@ + feeder.rem());
            }
        }
        let ghost r5 = feeder.rem();
        let closed = feeder.consume(1);
        ans.text.append(closed.as_str());
        feeder.pop_backup();
        proof {
            assert(r5 =~= r5.take(1) + r5.skip(1));
            assert(w0 =~= ans.text@ + feeder.rem());
            assert(old(feeder).backups().push(w0).drop_last() =~= old(feeder).backups());
        }
        Some(ans)
    }

    /// Takes the `#` or `!` marker, the parameter name and an optional
    /// subscript, appending every consumed character to the node's text.
    #[verifier::rlimit(100)]
    #[verifier::spinoff_prover]
    fn eat_front(feeder: &mut Feeder, ans: &mut BracedParam)
        ensures
            old(feeder).rem() == final(ans).text@.skip(old(ans).text@.len() as int) + final(feeder).rem(),
            final(ans).text@.len() >= old(ans).text@.len(),
            final(ans).text@.take(old(ans).text@.len() as int) == old(ans).text@,
            final(feeder).backups() == old(feeder).backups(),
    {
        let ghost w0 = feeder.rem();
        let ghost t0 = ans.text@;
        proof {
            assert(ans.text@.take(t0.len() as int) =~= t0);
            assert(ans.text@.skip(t0.len() as int) =~= Seq::<char>::empty());
            assert(w0 =~= ans.text@.skip(t0.len() as int) + feeder.rem());
        }
        if feeder.len() > 1 && feeder.nth(0) == '#' && feeder.nth(1) != '}' {
            ans.num = true;
            let ghost r1 = feeder.rem();
            let c = feeder.consume(1);
            ans.text.append(c.as_str());
            proof {
                assert(r1 =~= r1.take(1) + r1.skip(1));
                assert(ans.text@.take(t0.len() as int) =~= t0);
                assert(w0 =~= ans.text@.skip(t0.len() as int) + feeder.rem());
            }
        } else if feeder.len() > 0 && feeder.nth(0) == '!' {
            ans.indirect = true;
            let ghost r1 = feeder.rem();
            let c = feeder.consume(1);
            ans.text.append(c.as_str());
            proof {
                assert(r1 =~= r1.take(1) + r1.skip(1));
                assert(ans.text@.take(t0.len() as int) =~= t0);
                assert(w0 =~= ans.text@.skip(t0.len() as int) + feeder.rem());
            }
        }
        proof {
            reveal_strlit("@");
            reveal_strlit("]");
        }
        let name_len = scanner::scanner_varname(feeder, 0);
        if name_len > 0 {
            let ghost r2 = feeder.rem();
            let name = feeder.consume(name_len);
            ans.text.append(name.as_str());
            proof {
                assert(r2 =~= r2.take(name_len as int) + r2.skip(name_len as int));
                assert(ans.text@.take(t0.len() as int) =~= t0);
                assert(w0 =~= ans.text@.skip(t0.len() as int) + feeder.rem());
            }
            ans.is_array = text::str_eq(name.as_str(), "@");
            ans.name = name;
        }
        if feeder.len() > 0 && feeder.nth(0) == '[' {
            let close = scanner::scanner_until(feeder, 1, "]");
            if close < feeder.len() {
                let ghost r3 = feeder.rem();
                let whole = feeder.consume(close + 1);
                let wlen = whole.as_str().unicode_len();
                let inner = text::substring_copy(whole.as_str(), 1, wlen - 1);
                ans.text.append(whole.as_str());
                if text::str_eq(inner.as_str(), "@") {
                    ans.is_array = true;
                }
                ans.subscript = Some(inner);
                proof {
                    assert(r3 =~= r3.take(close + 1) + r3.skip(close + 1));
                    assert(ans.text@.take(t0.len() as int) =~= t0);
                    assert(w0 =~= ans.text@.skip(t0.len() as int) + feeder.rem());
                }
            }
        }
    }

    /// Replaces the text with what the parameter stands for: the stored
    /// value, an element, a length, or — for `${!name}` — the value of the
    /// parameter the value names. False on a malformed expansion or an
    /// indirect step through an invalid name.
    pub fn substitute(&mut self, db: &mut DataBase) -> (r: bool)
        requires
            old(db).wf(),
        ensures
            final(db).wf(),
            final(db).num_layers() == old(db).num_layers(),
            !old(self).spec_ok() ==> !r && *final(self) == *old(self),
            old(self).spec_ok() && !old(self).indirect && old(self).subscript is Some && old(
                self,
            ).name@ == "@"@ ==> !r,
            old(self).spec_ok() && !old(self).indirect && !old(self).num && old(self).subscript
                is None && database::spec_is_generic_name(old(self).name@) && old(
                db,
            ).spec_special_from(old(self).name@, old(db).num_layers() - 1) == -1 && old(
                db,
            ).has_name(old(self).name@) ==> r && final(self).text@ == database::spec_value_single(
                old(db).lookup(old(self).name@)->Some_0.value,
            ),
    {
        if !self.check() {
            return false;
        }
        if self.indirect {
            let target = match db.get_param(self.name.as_str()) {
                Ok(v) => v,
                Err(_) => {
                    return false;
                },
            };
            if utils::is_param(&target) {
                self.name = target;
            } else {
                return false;
            }
        }
        let has_subscript = self.subscript.is_some();
        if has_subscript {
            proof {
                reveal_strlit("@");
            }
            if text::str_eq(self.name.as_str(), "@") {
                return false;
            }
            let index = match &self.subscript {
                Some(s) => s.clone(),
                None => String::new(),
            };
            let elem = db.get_array(self.name.as_str(), index.as_str());
            if self.num {
                self.text = text::usize_to_string(elem.as_str().unicode_len());
            } else {
                self.text = elem;
            }
            return true;
        }
        let value = match db.get_param(self.name.as_str()) {
            Ok(v) => v,
            Err(_) => {
                return false;
            },
        };
        if self.num {
            self.text = text::usize_to_string(value.as_str().unicode_len());
        } else {
            self.text = value;
        }
        true
    }
}

} // verus!
