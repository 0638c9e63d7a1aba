//! Command nodes and the executor's decisions: whether a command needs a
//! fork, which of function, builtin or external runs it, which exit code
//! each exec-time failure carries, and what an observed interrupt does.
//! The forking itself, and running the chosen body, is process work done
//! outside the library.

use vstd::prelude::*;
use crate::database::DataBase;
use crate::feeder::Feeder;
use crate::pipeline::Pipe;
use crate::redirect::Redirect;
use crate::scanner;
use crate::substitution::Substitution;

verus! {

/// Which body runs a simple command: the fixed precedence is a function,
/// then a builtin, then an external executable.
#[derive(Debug, Clone, Copy, PartialEq, Eq, Structural)]
pub enum ExecRoute {
    Function,
    Builtin,
    External,
}

/// Picks the body by the fixed precedence.
pub fn dispatch_route(is_function: bool, is_builtin: bool) -> (r: ExecRoute)
    ensures
        is_function ==> r == ExecRoute::Function,
        !is_function && is_builtin ==> r == ExecRoute::Builtin,
        !is_function && !is_builtin ==> r == ExecRoute::External,
{
    if is_function {
        ExecRoute::Function
    } else if is_builtin {
        ExecRoute::Builtin
    } else {
        ExecRoute::External
    }
}

/// Why replacing the child's process image failed.
#[derive(Debug, Clone, Copy, PartialEq, Eq, Structural)]
pub enum ExecError {
    /// No executable of that name on the PATH.
    NotFound,
    /// The file exists but may not be executed.
    PermissionDenied,
    /// The argument list passed the system limit.
    ArgListTooLong,
    /// Any other exec-time failure.
    Other,
}

/// The exit code a failed exec gives the child: 126 for a file that
/// cannot be executed or arguments past the limit, 127 for everything
/// that was not found or otherwise failed.
pub fn exec_error_status(e: &ExecError) -> (r: i32)
    ensures
        *e == ExecError::NotFound ==> r == 127,
        *e == ExecError::PermissionDenied ==> r == 126,
        *e == ExecError::ArgListTooLong ==> r == 126,
        *e == ExecError::Other ==> r == 127,
{
    match e {
        ExecError::NotFound => 127,
        ExecError::PermissionDenied => 126,
        ExecError::ArgListTooLong => 126,
        ExecError::Other => 127,
    }
}

/// The dispatch-time interrupt check: an observed SIGINT skips the
/// command and reports 130; the flag itself is not cleared here.
pub fn check_sigint(db: &mut DataBase, sigint: bool) -> (r: bool)
    ensures
        sigint ==> r && final(db).exit_status == 130 && final(db).layers() == old(db).layers(),
        !sigint ==> !r && *final(db) == *old(db),
{
    if sigint {
        db.exit_status = 130;
        return true;
    }
    false
}

/// One simple command: assignments, words and redirections.
#[derive(Debug, Default)]
pub struct SimpleCommand {
    pub text: String,
    pub substitutions: Vec<Substitution>,
    pub args: Vec<String>,
    pub redirects: Vec<Redirect>,
    pub force_fork: bool,
    pub substitutions_as_args: Vec<Substitution>,
    pub permit_substitution_arg: bool,
    pub lineno: usize,
}

impl SimpleCommand {
    pub fn new() -> (r: SimpleCommand)
        ensures
            r.text@.len() == 0,
            r.substitutions@.len() == 0,
            r.args@.len() == 0,
            r.redirects@.len() == 0,
            !r.force_fork,
    {
        SimpleCommand {
            text: String::new(),
            substitutions: Vec::new(),
            args: Vec::new(),
            redirects: Vec::new(),
            force_fork: false,
            substitutions_as_args: Vec::new(),
            permit_substitution_arg: false,
            lineno: 0,
        }
    }

    /// Whether running this command structurally requires a fork: a forced
    /// one, a pipe connection, or a body that is neither builtin nor
    /// function.
    pub fn needs_fork(&self, pipe: &Pipe, is_builtin: bool, is_function: bool) -> (r: bool)
        ensures
            r == (self.force_fork || (pipe.my_in != -1 || pipe.my_out != -1 || pipe.prev_out
                != -1) || (!is_builtin && !is_function)),
    {
        self.force_fork || pipe.is_connected() || (!is_builtin && !is_function)
    }

    /// Runs the assignments of a bare `a=b c=d` line against the resolved
    /// layers; the shell's answer to a command with no words. `$_` is
    /// cleared, and a single plain scalar assignment provably lands.
    #[verifier::loop_isolation(false)]
    pub fn exec_set_param(&mut self, db: &mut DataBase) -> (r: bool)
        requires
            old(db).wf(),
        ensures
            final(db).wf(),
            final(db).num_layers() == old(db).num_layers(),
            final(db).last_arg@.len() == 0,
            old(self).substitutions@.len() == 1 && ({
                let sub = old(self).substitutions@[0];
                &&& !sub.append
                &&& sub.index is None
                &&& sub.value is Single
                &&& crate::substitution::scalar_single_applies(sub, *old(db))
            }) ==> r && final(db).lookup_single(old(self).substitutions@[0].name@) == Some(
                old(self).substitutions@[0].value->Single_0.text@,
            ),
    {
        db.last_arg = String::new();
        let ghost single = old(self).substitutions@.len() == 1 && ({
            let sub = old(self).substitutions@[0];
            &&& !sub.append
            &&& sub.index is None
            &&& sub.value is Single
            &&& crate::substitution::scalar_single_applies(sub, *old(db))
        });
        let n = self.substitutions.len();
        let mut ok = true;
        let mut i: usize = 0;
        while i < n
            invariant
                i <= n,
                n == self.substitutions@.len(),
                n == old(self).substitutions@.len(),
                db.wf(),
                db.num_layers() == old(db).num_layers(),
                db.last_arg@.len() == 0,
                single && i >= 1 ==> ok && db.lookup_single(old(self).substitutions@[0].name@)
                    == Some(old(self).substitutions@[0].value->Single_0.text@),
                i == 0 ==> db.layers() == old(db).layers(),
                i == 0 ==> ok,
                i == 0 && n >= 1 ==> self.substitutions@[0] == old(self).substitutions@[0],
            decreases n - i,
        {
            proof {
                if single && i == 0 {
                    crate::substitution::lemma_scalar_single_same_layers(
                        old(self).substitutions@[0],
                        *old(db),
                        *db,
                    );
                }
            }
            let e = &mut self.substitutions[i];
            if !e.eval(db, 0, false) {
                ok = false;
            }
            i += 1;
        }
        ok
    }

    /// Runs the assignments at a fresh local layer, as a function call
    /// prologue does; a single plain scalar assignment provably lands at
    /// that layer.
    #[verifier::loop_isolation(false)]
    pub fn set_local_params(&mut self, db: &mut DataBase, layer: usize) -> (r: bool)
        requires
            old(db).wf(),
            layer < old(db).num_layers(),
        ensures
            final(db).wf(),
            final(db).num_layers() == old(db).num_layers(),
            old(self).substitutions@.len() == 1 && layer >= 1 && ({
                let sub = old(self).substitutions@[0];
                &&& !sub.append
                &&& sub.index is None
                &&& sub.value is Single
                &&& crate::substitution::scalar_layer_applies(sub, *old(db), layer as int)
            }) ==> r && (final(db).layer_entry(
                layer as int,
                old(self).substitutions@[0].name@,
            ) matches Some(nv) && (nv.value matches crate::variable::Value::Single(sd)
                && sd.data@ == old(self).substitutions@[0].value->Single_0.text@)),
    {
        let ghost single = old(self).substitutions@.len() == 1 && layer >= 1 && ({
            let sub = old(self).substitutions@[0];
            &&& !sub.append
            &&& sub.index is None
            &&& sub.value is Single
            &&& crate::substitution::scalar_layer_applies(sub, *old(db), layer as int)
        });
        let n = self.substitutions.len();
        let mut ok = true;
        let mut i: usize = 0;
        while i < n
            invariant
                i <= n,
                n == self.substitutions@.len(),
                n == old(self).substitutions@.len(),
                db.wf(),
                db.num_layers() == old(db).num_layers(),
                layer < db.num_layers(),
                single && i >= 1 ==> ok && (db.layer_entry(
                    layer as int,
                    old(self).substitutions@[0].name@,
                ) matches Some(nv) && (nv.value matches crate::variable::Value::Single(sd)
                    && sd.data@ == old(self).substitutions@[0].value->Single_0.text@)),
                i == 0 && n >= 1 ==> self.substitutions@[0] == old(self).substitutions@[0],
                i == 0 ==> *db == *old(db),
                i == 0 ==> ok,
            decreases n - i,
        {
            let e = &mut self.substitutions[i];
            if !e.eval(db, layer, false) {
                ok = false;
            }
            i += 1;
        }
        ok
    }

    /// Mirrors the assignments into the environment model, as the prefix
    /// of an external command does; a single plain scalar provably lands
    /// there.
    #[verifier::loop_isolation(false)]
    pub fn set_environment_variables(&mut self, db: &mut DataBase)
        requires
            old(db).wf(),
        ensures
            final(db).wf(),
            final(db).num_layers() == old(db).num_layers(),
            old(self).substitutions@.len() == 1 && ({
                let sub = old(self).substitutions@[0];
                !sub.append && sub.value is Single
            }) ==> crate::pairs::spec_pairs_opt_view(
                final(db).env(),
                old(self).substitutions@[0].name@,
            ) == Some(old(self).substitutions@[0].value->Single_0.text@),
    {
        let ghost single = old(self).substitutions@.len() == 1 && ({
            let sub = old(self).substitutions@[0];
            !sub.append && sub.value is Single
        });
        let n = self.substitutions.len();
        let mut i: usize = 0;
        while i < n
            invariant
                i <= n,
                n == self.substitutions@.len(),
                n == old(self).substitutions@.len(),
                db.wf(),
                db.num_layers() == old(db).num_layers(),
                single && i >= 1 ==> crate::pairs::spec_pairs_opt_view(
                    db.env(),
                    old(self).substitutions@[0].name@,
                ) == Some(old(self).substitutions@[0].value->Single_0.text@),
                i == 0 && n >= 1 ==> self.substitutions@[0] == old(self).substitutions@[0],
            decreases n - i,
        {
            let e = &mut self.substitutions[i];
            e.eval(db, 0, true);
            i += 1;
        }
    }
}

/// A `(...)` subshell command; the inner script is kept as text for the
/// parser that owns it.
#[derive(Debug, Default)]
pub struct ParenCommand {
    pub text: String,
    pub script: Option<String>,
}

impl ParenCommand {
    pub fn new() -> (r: ParenCommand)
        ensures
            r.text@.len() == 0,
            r.script is None,
    {
        ParenCommand { text: String::new(), script: None }
    }
}

/// A `while ...; do ...; done` command; condition and body are kept as
/// text for the parser that owns them.
#[derive(Debug, Default)]
pub struct WhileCommand {
    pub text: String,
    pub condition: Option<String>,
    pub inner: Option<String>,
    pub redirects: Vec<Redirect>,
    pub force_fork: bool,
}

impl WhileCommand {
    pub fn new() -> (r: WhileCommand)
        ensures
            r.text@.len() == 0,
            r.condition is None,
            r.inner is None,
            r.redirects@.len() == 0,
            !r.force_fork,
    {
        WhileCommand {
            text: String::new(),
            condition: None,
            inner: None,
            redirects: Vec::new(),
            force_fork: false,
        }
    }
}

/// A `[[ ... ]]` conditional command; the condition is kept as text for
/// the conditional evaluator that owns it.
#[derive(Debug, Default)]
pub struct TestCommand {
    pub text: String,
    pub cond: Option<String>,
    pub redirects: Vec<Redirect>,
    pub force_fork: bool,
}

impl TestCommand {
    /// Parses `[[ raw condition ]]` and any trailing redirections; without
    /// the brackets the feeder is left untouched.
    pub fn parse(feeder: &mut Feeder) -> (r: Option<TestCommand>)
        ensures
            r matches Some(a) ==> old(feeder).rem() == a.text@ + final(feeder).rem()
                && a.text@.len() >= 4,
            r is None ==> final(feeder).rem() == old(feeder).rem() && final(feeder).backups()
                == old(feeder).backups(),
    {
        proof {
            reveal_strlit("[[");
            reveal_strlit("]]");
        }
        if !feeder.starts_with("[[") {
            return None;
        }
        feeder.set_backup();
        let ghost w0 = feeder.rem();
        let mut ans = TestCommand {
            text: String::new(),
            cond: None,
            redirects: Vec::new(),
            force_fork: false,
        };
        let ghost r0 = feeder.rem();
        let opened = feeder.consume(2);
        ans.text.append(opened.as_str());
        proof {
            assert(r0 =~= r0.take(2) + r0.skip(2));
            assert(w0 =~= ans.text@ + feeder.rem());
        }
        let close = find_double_bracket(feeder);
        match close {
            Some(pos) => {
                let ghost r1 = feeder.rem();
                let inner = feeder.consume(pos);
                ans.cond = Some(inner.clone());
                ans.text.append(inner.as_str());
                proof {
                    assert(r1 =~= r1.take(pos as int) + r1.skip(pos as int));
                    assert(w0 =~= ans.text@ + feeder.rem());
                }
                let ghost r2 = feeder.rem();
                let closed = feeder.consume(2);
                ans.text.append(closed.as_str());
                proof {
                    assert(r2 =~= r2.take(2) + r2.skip(2));
                    assert(w0 =~= ans.text@ + feeder.rem());
                }
                feeder.pop_backup();
                proof {
                    assert(old(feeder).backups().push(w0).drop_last() =~= old(feeder).backups());
                }
                Some(ans)
            },
            None => {
                feeder.rewind();
                proof {
                    assert(old(feeder).backups().push(w0).drop_last() =~= old(feeder).backups());
                }
                None
            },
        }
    }
}

/// The position of the first `]]`, if any.
fn find_double_bracket(feeder: &Feeder) -> (r: Option<usize>)
    ensures
        r matches Some(p) ==> p + 2 <= feeder.rem().len() && feeder.rem()[p as int] == ']'
            && feeder.rem()[p + 1] == ']',
{
    let len = feeder.len();
    if len < 2 {
        return None;
    }
    let mut i: usize = 0;
    while i < len - 1
        invariant
            len >= 2,
            i <= len - 1,
            len == feeder.rem().len(),
        decreases len - i,
    {
        if feeder.nth(i) == ']' && feeder.nth(i + 1) == ']' {
            return Some(i);
        }
        i += 1;
    }
    None
}

/// Takes blanks and, after them, a comment through the end of the line;
/// false when no blank leads.
pub fn eat_blank_with_comment(feeder: &mut Feeder, ans_text: &mut String) -> (r: bool)
    ensures
        old(feeder).rem() == final(ans_text)@.skip(old(ans_text)@.len() as int) + final(feeder).rem(),
        final(ans_text)@.len() >= old(ans_text)@.len(),
        final(ans_text)@.take(old(ans_text)@.len() as int) == old(ans_text)@,
        final(feeder).backups() == old(feeder).backups(),
{
    let ghost w0 = feeder.rem();
    let ghost t0 = ans_text@;
    proof {
        assert(ans_text@.take(t0.len() as int) =~= t0);
    }
    let blank_len = scanner::scanner_blank(feeder, 0);
    if blank_len == 0 {
        proof {
            assert(ans_text@.skip(t0.len() as int) =~= Seq::<char>::empty());
            assert(w0 =~= ans_text@.skip(t0.len() as int) + feeder.rem());
        }
        return false;
    }
    let ghost r0 = feeder.rem();
    let blanks = feeder.consume(blank_len);
    ans_text.append(blanks.as_str());
    proof {
        assert(r0 =~= r0.take(blank_len as int) + r0.skip(blank_len as int));
        assert(w0 =~= ans_text@.skip(t0.len() as int) + feeder.rem());
    }
    let comment_len = scanner::scanner_comment(feeder, 0);
    let ghost r1 = feeder.rem();
    let comment = feeder.consume(comment_len);
    ans_text.append(comment.as_str());
    proof {
        assert(r1 =~= r1.take(comment_len as int) + r1.skip(comment_len as int));
        assert(w0 =~= ans_text@.skip(t0.len() as int) + feeder.rem());
        assert(ans_text@.take(t0.len() as int) =~= t0);
    }
    true
}

/// Parses as many redirections as the text offers, collecting their texts.
pub fn eat_redirects(
    feeder: &mut Feeder,
    ans_redirects: &mut Vec<Redirect>,
    ans_text: &mut String,
)
    ensures
        old(feeder).rem() == final(ans_text)@.skip(old(ans_text)@.len() as int) + final(feeder).rem(),
        final(ans_text)@.len() >= old(ans_text)@.len(),
        final(ans_redirects)@.len() >= old(ans_redirects)@.len(),
{
    let ghost w0 = feeder.rem();
    let ghost t0 = ans_text@;
    proof {
        assert(ans_text@.skip(t0.len() as int) =~= Seq::<char>::empty());
        assert(w0 =~= ans_text@.skip(t0.len() as int) + feeder.rem());
        assert(ans_text@.take(t0.len() as int) =~= t0);
    }
    loop
        invariant
            w0 == ans_text@.skip(t0.len() as int) + feeder.rem(),
            ans_text@.len() >= t0.len(),
            ans_text@.skip(t0.len() as int).len() == ans_text@.len() - t0.len(),
            w0 == old(feeder).rem(),
            t0 == old(ans_text)@,
            ans_text@.take(t0.len() as int) == t0,
            ans_redirects@.len() >= old(ans_redirects)@.len(),
        ensures
            w0 == ans_text@.skip(t0.len() as int) + feeder.rem(),
            ans_text@.len() >= t0.len(),
            ans_redirects@.len() >= old(ans_redirects)@.len(),
        decreases feeder.rem().len(),
    {
        let ghost tb = ans_text@;
        let ghost fb = feeder.rem();
        let progressed = eat_blank_with_comment(feeder, ans_text);
        proof {
            assert(ans_text@.take(t0.len() as int) =~= t0);
            assert(w0 =~= ans_text@.skip(t0.len() as int) + feeder.rem()) by {
                assert(fb =~= ans_text@.skip(tb.len() as int) + feeder.rem());
                assert(ans_text@.skip(t0.len() as int) =~= tb.skip(t0.len() as int)
                    + ans_text@.skip(tb.len() as int));
            }
        }
        let ghost tc = ans_text@;
        let ghost fc = feeder.rem();
        match Redirect::parse(feeder) {
            Some(red) => {
                ans_text.append(red.text.as_str());
                proof {
                    assert(fc =~= red.text@ + feeder.rem());
                    assert(ans_text@.take(t0.len() as int) =~= t0);
                    assert(w0 =~= ans_text@.skip(t0.len() as int) + feeder.rem()) by {
                        assert(ans_text@.skip(t0.len() as int) =~= tc.skip(t0.len() as int)
                            + red.text@);
                    }
                }
                ans_redirects.push(red);
                if feeder.len() == 0 {
                    break ;
                }
            },
            None => {
                break ;
            },
        }
    }
}

} // verus!
