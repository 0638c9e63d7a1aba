//! The data and the pure argument handling behind programmable
//! completion. Reading directories, history files and the user table is
//! left to the callers.

use vstd::prelude::*;
use crate::text;

verus! {

/// What `complete` registered for one command.
#[derive(Debug, Default)]
pub struct CompletionInfo {
    pub function: String,
    pub o_options: Vec<String>,
}

/// What `-A <action>` is shorthand for.
pub open spec fn spec_action_flag(s: Seq<char>) -> Seq<char> {
    if s == "command"@ {
        "-c"@
    } else if s == "directory"@ {
        "-d"@
    } else if s == "file"@ {
        "-f"@
    } else if s == "user"@ {
        "-u"@
    } else if s == "stopped"@ {
        "-A stopped"@
    } else if s == "job"@ {
        "-j"@
    } else {
        s
    }
}

/// Folds a `-A <action>` pair into the single flag the dispatcher reads.
pub fn replace_args_compgen(args: &mut Vec<String>) -> (r: bool)
    ensures
        r,
        !(old(args)@.len() >= 3 && old(args)@[1]@ == "-A"@) ==> final(args)@ == old(args)@,
        old(args)@.len() >= 3 && old(args)@[1]@ == "-A"@ ==> {
            &&& final(args)@.len() == old(args)@.len() - 1
            &&& final(args)@[1]@ == spec_action_flag(old(args)@[2]@)
            &&& final(args)@[0] == old(args)@[0]
            &&& (forall|j: int| 2 <= j < final(args)@.len() ==> final(args)@[j] == old(args)@[j
                + 1])
        },
{
    proof {
        reveal_strlit("-A");
    }
    if args.len() < 3 || !text::str_eq(args[1].as_str(), "-A") {
        return true;
    }
    let ghost pre = args@;
    args.remove(1);
    proof {
        assert(args@ =~= pre.remove(1));
    }
    let replace = action_flag(args[1].as_str());
    args.set(1, replace);
    true
}

fn action_flag(arg: &str) -> (r: String)
    ensures
        r@ == spec_action_flag(arg@),
{
    proof {
        reveal_strlit("command");
        reveal_strlit("directory");
        reveal_strlit("file");
        reveal_strlit("user");
        reveal_strlit("stopped");
        reveal_strlit("job");
        reveal_strlit("-c");
        reveal_strlit("-d");
        reveal_strlit("-f");
        reveal_strlit("-u");
        reveal_strlit("-A stopped");
        reveal_strlit("-j");
    }
    if text::str_eq(arg, "command") {
        String::from_str("-c")
    } else if text::str_eq(arg, "directory") {
        String::from_str("-d")
    } else if text::str_eq(arg, "file") {
        String::from_str("-f")
    } else if text::str_eq(arg, "user") {
        String::from_str("-u")
    } else if text::str_eq(arg, "stopped") {
        String::from_str("-A stopped")
    } else if text::str_eq(arg, "job") {
        String::from_str("-j")
    } else {
        String::from_str(arg)
    }
}

/// What `opt_to_action` maps a flag to.
pub open spec fn spec_opt_action(s: Seq<char>) -> Seq<char> {
    if s == "-c"@ {
        "command"@
    } else if s == "-j"@ {
        "job"@
    } else if s == "-u"@ {
        "user"@
    } else if s == "-v"@ {
        "variable"@
    } else {
        Seq::empty()
    }
}

/// The completion action a single-letter flag asks for; empty for any
/// other flag.
pub fn opt_to_action(arg: &str) -> (r: String)
    ensures
        r@ == spec_opt_action(arg@),
{
    proof {
        reveal_strlit("-c");
        reveal_strlit("-j");
        reveal_strlit("-u");
        reveal_strlit("-v");
        reveal_strlit("command");
        reveal_strlit("job");
        reveal_strlit("user");
        reveal_strlit("variable");
    }
    if text::str_eq(arg, "-c") {
        String::from_str("command")
    } else if text::str_eq(arg, "-j") {
        String::from_str("job")
    } else if text::str_eq(arg, "-u") {
        String::from_str("user")
    } else if text::str_eq(arg, "-v") {
        String::from_str("variable")
    } else {
        String::new()
    }
}

/// The pattern the candidates must start with: the argument at `pos`,
/// skipping a `--` separator; empty when there is none.
pub open spec fn spec_head_arg(args: Seq<String>, pos: int) -> Seq<char> {
    if args.len() > pos && args[pos]@ != "--"@ {
        args[pos]@
    } else if args.len() > pos + 1 {
        args[pos + 1]@
    } else {
        Seq::empty()
    }
}

/// Picks the pattern argument for a compgen call.
pub fn get_head(args: &Vec<String>, pos: usize) -> (r: String)
    ensures
        r@ == spec_head_arg(args@, pos as int),
{
    proof {
        reveal_strlit("--");
    }
    if args.len() > pos && !text::str_eq(args[pos].as_str(), "--") {
        args[pos].clone()
    } else if pos < usize::MAX && args.len() > pos + 1 {
        args[pos + 1].clone()
    } else {
        proof {
            if args@.len() > pos + 1 {
                assert(pos < usize::MAX);
            }
        }
        String::new()
    }
}

/// The candidates that start with the pattern.
pub open spec fn spec_filter_prefix(list: Seq<Seq<char>>, head: Seq<char>) -> Seq<Seq<char>>
    decreases list.len(),
{
    if list.len() == 0 {
        list
    } else {
        let rest = spec_filter_prefix(list.drop_last(), head);
        if head.is_prefix_of(list.last()) {
            rest.push(list.last())
        } else {
            rest
        }
    }
}

/// Drops the candidates that do not start with the pattern argument; with
/// no pattern everything stays.
pub fn drop_unmatch(args: &Vec<String>, pos: usize, list: &mut Vec<String>)
    ensures
        spec_head_arg(args@, pos as int).len() == 0 ==> final(list)@ == old(list)@,
        spec_head_arg(args@, pos as int).len() > 0 ==> final(list)@.map_values(|s: String| s@)
            == spec_filter_prefix(
            old(list)@.map_values(|s: String| s@),
            spec_head_arg(args@, pos as int),
        ),
{
    let head = get_head(args, pos);
    if head.as_str().unicode_len() == 0 {
        return ;
    }
    let n = list.len();
    let mut out: Vec<String> = Vec::new();
    let mut i: usize = 0;
    proof {
        assert(old(list)@.map_values(|s: String| s@).take(0) =~= Seq::<Seq<char>>::empty());
        assert(out@.map_values(|s: String| s@) =~= spec_filter_prefix(
            old(list)@.map_values(|s: String| s@).take(0),
            head@,
        ));
    }
    while i < n
        invariant
            i <= n,
            n == list@.len(),
            list@ == old(list)@,
            out@.map_values(|s: String| s@) == spec_filter_prefix(
                old(list)@.map_values(|s: String| s@).take(i as int),
                head@,
            ),
        decreases n - i,
    {
        let ghost views = old(list)@.map_values(|s: String| s@);
        proof {
            assert(views.take(i + 1).drop_last() =~= views.take(i as int));
            assert(views.take(i + 1).last() == views[i as int]);
        }
        if text::str_has_prefix(list[i].as_str(), head.as_str()) {
            let ghost before = out@.map_values(|s: String| s@);
            out.push(list[i].clone());
            proof {
                assert(out@.map_values(|s: String| s@) =~= before.push(views[i as int]));
            }
        }
        i += 1;
    }
    proof {
        assert(old(list)@.map_values(|s: String| s@).take(n as int) =~= old(list)@.map_values(
            |s: String| s@,
        ));
    }
    *list = out;
}

} // verus!
