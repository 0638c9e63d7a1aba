use sush::command::{dispatch_route, exec_error_status, ExecError, ExecRoute, SimpleCommand, TestCommand};
use sush::database::DataBase;
use sush::element_list::ControlOperator;
use sush::feeder::Feeder;
use sush::parser_args;
use sush::pipeline::Pipe;
use sush::redirect::Redirect;
use sush::scanner;
use sush::substitution::{ParsedDataType, Substitution};
use sush::braced_param::BracedParam;
use sush::subword::{split_str, SimpleSubword, SubwordType};
use sush::utils;

#[test]
fn feeder_consume_and_backup() {
    let mut f = Feeder::new("echo hello");
    assert_eq!(f.len(), 10);
    f.set_backup();
    assert_eq!(f.consume(4), "echo");
    f.rewind();
    assert_eq!(f.consume(10), "echo hello");
    assert_eq!(f.len(), 0);
}

#[test]
fn feeder_replace_and_starts_with() {
    let mut f = Feeder::new("ls -l");
    assert!(f.starts_with("ls"));
    f.replace(2, "dir");
    assert_eq!(f.consume(6), "dir -l");
}

#[test]
fn feeder_add_backup_repairs_continuation() {
    let mut f = Feeder::new("echo one \\\n");
    f.set_backup();
    f.add_backup("two");
    f.rewind();
    assert_eq!(f.consume(12), "echo one two");
}

#[test]
fn scanner_blank_and_until() {
    let f = Feeder::new("   word;rest");
    assert_eq!(scanner::scanner_blank(&f, 0), 3);
    assert_eq!(scanner::scanner_until(&f, 0, ";"), 7);
    assert_eq!(scanner::scanner_until(&f, 0, "z"), 12);
}

#[test]
fn scanner_escape_honours_backslash() {
    let f = Feeder::new("a\\;b;c");
    assert_eq!(scanner::scanner_until_escape(&f, 0, ";"), 4);
}

#[test]
fn scanner_control_operators() {
    let f = Feeder::new("&& rest");
    assert_eq!(scanner::scanner_control_op(&f, 0), (2, Some(ControlOperator::And)));
    let g = Feeder::new("| rest");
    assert_eq!(scanner::scanner_control_op(&g, 0), (1, Some(ControlOperator::Pipe)));
    let h = Feeder::new(";;&x");
    assert_eq!(scanner::scanner_control_op(&h, 0), (3, Some(ControlOperator::SemiSemiAnd)));
    let i = Feeder::new("&>out");
    assert_eq!(scanner::scanner_control_op(&i, 0), (0, None));
    let j = Feeder::new("|&\nnext");
    assert_eq!(scanner::scanner_control_op(&j, 0), (3, Some(ControlOperator::PipeAnd)));
}

#[test]
fn scanner_integer_forms() {
    let f = Feeder::new("-42x");
    assert_eq!(scanner::scanner_integer(&f, 0), 3);
    let g = Feeder::new("-x");
    assert_eq!(scanner::scanner_integer(&g, 0), 0);
    let h = Feeder::new("007");
    assert_eq!(scanner::scanner_integer(&h, 0), 3);
}

#[test]
fn scanner_varname_and_comment() {
    let f = Feeder::new("abc_1=5");
    assert_eq!(scanner::scanner_varname(&f, 0), 5);
    let g = Feeder::new("? rest");
    assert_eq!(scanner::scanner_varname(&g, 0), 1);
    let h = Feeder::new("# note\nnext");
    assert_eq!(scanner::scanner_comment(&h, 0), 6);
}

#[test]
fn split_words_honours_quotes() {
    let words = utils::split_words("echo 'a b' \"c d\" e\\ f");
    assert_eq!(words, vec!["echo", "'a b'", "\"c d\"", "e\\ f"]);
}

#[test]
fn split_words_collapses_blanks() {
    let words = utils::split_words("  a   b  ");
    assert_eq!(words, vec!["a", "b"]);
}

#[test]
fn is_param_classification() {
    assert!(utils::is_param(&"PATH".to_string()));
    assert!(utils::is_param(&"_x9".to_string()));
    assert!(utils::is_param(&"12".to_string()));
    assert!(utils::is_param(&"?".to_string()));
    assert!(!utils::is_param(&"".to_string()));
    assert!(!utils::is_param(&"a-b".to_string()));
    assert!(!utils::is_param(&"1a".to_string()));
}

#[test]
fn reserved_words() {
    assert!(utils::reserved("while"));
    assert!(utils::reserved("fi"));
    assert!(!utils::reserved("echo"));
}

#[test]
fn subarg_parsers() {
    let mut f = Feeder::new("word'quoted'");
    let a = parser_args::subarg_normal(&mut f).unwrap();
    assert_eq!(a.text, "word");
    let q = parser_args::subarg_single_qt(&mut f).unwrap();
    assert_eq!(q.text, "'quoted'");
    assert_eq!(f.len(), 0);
}

#[test]
fn unterminated_quote_consumes_nothing() {
    let mut f = Feeder::new("'open");
    assert!(parser_args::subarg_single_qt(&mut f).is_none());
    assert_eq!(f.len(), 5);
}

#[test]
fn variable_subargs() {
    let mut f = Feeder::new("$HOME rest");
    let v = parser_args::subarg_variable_non_braced(&mut f).unwrap();
    assert_eq!(v.text, "$HOME");
    let mut g = Feeder::new("${PATH}x");
    let w = parser_args::subarg_variable_braced(&mut g).unwrap();
    assert_eq!(w.text, "${PATH}");
    assert_eq!(g.consume(1), "x");
    let mut h = Feeder::new("${unclosed");
    assert!(parser_args::subarg_variable_braced(&mut h).is_none());
    assert_eq!(h.len(), 10);
}

#[test]
fn double_quoted_subarg() {
    let mut f = Feeder::new("\"pre $USER post\" tail");
    let d = parser_args::subarg_double_qt(&mut f).unwrap();
    assert_eq!(d.text, "\"pre $USER post\"");
    assert_eq!(d.subargs.len(), 3);
    let mut g = Feeder::new("\"unclosed");
    assert!(parser_args::subarg_double_qt(&mut g).is_none());
    assert_eq!(g.len(), 9);
}

#[test]
fn braced_subarg_groups() {
    let mut f = Feeder::new("{a,b,c}rest");
    let b = parser_args::subarg_braced(&mut f).unwrap();
    assert_eq!(b.text, "{a,b,c}");
    assert_eq!(b.args.len(), 3);
    assert!(f.starts_with("rest"));
}

#[test]
fn whole_arg_concatenates_pieces() {
    let mut f = Feeder::new("pre${VAR}'post' next");
    let a = parser_args::arg(&mut f, true).unwrap();
    assert_eq!(a.text, "pre${VAR}'post'");
    assert_eq!(a.subargs.len(), 3);
}

#[test]
fn old_style_substitution() {
    let mut f = Feeder::new("X=val rest");
    let s = parser_args::substitution(&mut f).unwrap();
    assert_eq!(s.text, "X=val");
    assert_eq!(s.name, "X");
    let mut g = Feeder::new("notanassignment");
    assert!(parser_args::substitution(&mut g).is_none());
    assert_eq!(g.len(), 15);
}

#[test]
fn substitution_parse_forms() {
    let mut f = Feeder::new("A=1 rest");
    let s = Substitution::parse(&mut f).unwrap();
    assert_eq!(s.text, "A=1");
    assert_eq!(s.name, "A");
    assert!(!s.append);

    let mut g = Feeder::new("A+=2");
    let t = Substitution::parse(&mut g).unwrap();
    assert!(t.append);

    let mut h = Feeder::new("arr[3]=x");
    let u = Substitution::parse(&mut h).unwrap();
    assert_eq!(u.index.as_deref(), Some("3"));

    let mut i = Feeder::new("A=(1 2 3)");
    let v = Substitution::parse(&mut i).unwrap();
    match v.value {
        ParsedDataType::Array(a) => assert_eq!(a.words.len(), 3),
        _ => panic!("expected an array literal"),
    }

    let mut j = Feeder::new("notassign");
    assert!(Substitution::parse(&mut j).is_none());
    assert_eq!(j.len(), 9);
}

#[test]
fn substitution_eval_writes_the_database() {
    let mut db = DataBase::new();
    let mut f = Feeder::new("GREETING=hello");
    let mut s = Substitution::parse(&mut f).unwrap();
    assert!(s.eval(&mut db, 0, false));
    assert_eq!(db.get_param("GREETING").unwrap(), "hello");
}

#[test]
fn substitution_eval_append() {
    let mut db = DataBase::new();
    db.set_param("P", "ab").unwrap();
    let mut f = Feeder::new("P+=cd");
    let mut s = Substitution::parse(&mut f).unwrap();
    assert!(s.eval(&mut db, 0, false));
    assert_eq!(db.get_param("P").unwrap(), "abcd");
}

#[test]
fn substitution_eval_array_and_element() {
    let mut db = DataBase::new();
    let mut f = Feeder::new("A=(x y)");
    let mut s = Substitution::parse(&mut f).unwrap();
    assert!(s.eval(&mut db, 0, false));
    assert_eq!(db.get_array("A", "@"), "x y");

    let mut g = Feeder::new("A[1]=z");
    let mut t = Substitution::parse(&mut g).unwrap();
    assert!(t.eval(&mut db, 0, false));
    assert_eq!(db.get_array("A", "@"), "x z");
}

#[test]
fn substitution_eval_readonly_fails() {
    let mut db = DataBase::new();
    db.set_param("RO", "v").unwrap();
    db.set_flag("RO", 'r');
    let mut f = Feeder::new("RO=w");
    let mut s = Substitution::parse(&mut f).unwrap();
    assert!(!s.eval(&mut db, 0, false));
    assert_eq!(db.exit_status, 1);
    assert_eq!(db.get_param("RO").unwrap(), "v");
}

#[test]
fn redirect_parse_forms() {
    let mut f = Feeder::new("> out.txt; next");
    let r = Redirect::parse(&mut f).unwrap();
    assert_eq!(r.symbol, ">");
    assert_eq!(r.right, "out.txt");
    assert_eq!(r.text, "> out.txt");

    let mut g = Feeder::new(">>log tail");
    let r2 = Redirect::parse(&mut g).unwrap();
    assert_eq!(r2.symbol, ">>");
    assert_eq!(r2.right, "log");

    let mut h = Feeder::new("> ;");
    assert!(Redirect::parse(&mut h).is_none());
    assert_eq!(h.len(), 3);

    let mut i = Feeder::new("word");
    assert!(Redirect::parse(&mut i).is_none());
}

#[test]
fn test_command_parse() {
    let mut f = Feeder::new("[[ -f file ]] rest");
    let t = TestCommand::parse(&mut f).unwrap();
    assert_eq!(t.text, "[[ -f file ]]");
    assert_eq!(t.cond.as_deref(), Some(" -f file "));
    let mut g = Feeder::new("[[ never closed");
    assert!(TestCommand::parse(&mut g).is_none());
    assert_eq!(g.len(), 15);
}

#[test]
fn dispatch_precedence_and_exit_codes() {
    assert_eq!(dispatch_route(true, true), ExecRoute::Function);
    assert_eq!(dispatch_route(false, true), ExecRoute::Builtin);
    assert_eq!(dispatch_route(false, false), ExecRoute::External);
    assert_eq!(exec_error_status(&ExecError::NotFound), 127);
    assert_eq!(exec_error_status(&ExecError::PermissionDenied), 126);
    assert_eq!(exec_error_status(&ExecError::ArgListTooLong), 126);
}

#[test]
fn fork_decision() {
    let mut c = SimpleCommand::new();
    let quiet = Pipe::new();
    assert!(!c.needs_fork(&quiet, true, false));
    assert!(c.needs_fork(&quiet, false, false));
    let wired = Pipe { my_in: 3, my_out: -1, prev_out: -1, pgid: 0 };
    assert!(c.needs_fork(&wired, true, false));
    c.force_fork = true;
    assert!(c.needs_fork(&quiet, true, true));
}

#[test]
fn sigint_skips_with_130() {
    let mut db = DataBase::new();
    assert!(sush::command::check_sigint(&mut db, true));
    assert_eq!(db.exit_status, 130);
    let mut db2 = DataBase::new();
    assert!(!sush::command::check_sigint(&mut db2, false));
    assert_eq!(db2.exit_status, 0);
}

#[test]
fn split_str_fields() {
    let fields = split_str("a b\\ c d");
    assert_eq!(fields, vec!["a", "b\\ c", "d"]);
    let with_empty = split_str("x  y");
    assert_eq!(with_empty, vec!["x", "", "y"]);
}

#[test]
fn simple_subword_unquote() {
    let mut s = SimpleSubword::new("\\n", SubwordType::EscapedChar);
    s.unquote();
    assert_eq!(s.text, "n");
    let mut p = SimpleSubword::new("plain", SubwordType::Other);
    p.unquote();
    assert_eq!(p.text, "plain");
}

#[test]
fn simple_subword_merge() {
    let mut a = SimpleSubword::new("ab", SubwordType::Other);
    let b = SimpleSubword::new("cd", SubwordType::Other);
    a.merge(&b);
    assert_eq!(a.text, "abcd");
}

#[test]
fn braced_param_parse_and_substitute() {
    let mut f = Feeder::new("${NAME} tail");
    let mut b = BracedParam::parse(&mut f).unwrap();
    assert_eq!(b.text, "${NAME}");
    assert_eq!(b.name, "NAME");
    let mut db = DataBase::new();
    db.set_param("NAME", "value").unwrap();
    assert!(b.substitute(&mut db));
    assert_eq!(b.text, "value");
}

#[test]
fn braced_param_length_and_element() {
    let mut db = DataBase::new();
    db.set_param("WORD", "abcde").unwrap();
    let mut f = Feeder::new("${#WORD}");
    let mut b = BracedParam::parse(&mut f).unwrap();
    assert!(b.num);
    assert!(b.substitute(&mut db));
    assert_eq!(b.text, "5");

    db.set_array("ARR", vec!["x".to_string(), "y".to_string()]).unwrap();
    let mut g = Feeder::new("${ARR[1]}");
    let mut c = BracedParam::parse(&mut g).unwrap();
    assert_eq!(c.subscript.as_deref(), Some("1"));
    assert!(c.substitute(&mut db));
    assert_eq!(c.text, "y");
}

#[test]
fn braced_param_indirect_and_errors() {
    let mut db = DataBase::new();
    db.set_param("POINTER", "TARGET").unwrap();
    db.set_param("TARGET", "gold").unwrap();
    let mut f = Feeder::new("${!POINTER}");
    let mut b = BracedParam::parse(&mut f).unwrap();
    assert!(b.indirect);
    assert!(b.substitute(&mut db));
    assert_eq!(b.text, "gold");

    let mut g = Feeder::new("${BAD..}");
    let mut c = BracedParam::parse(&mut g).unwrap();
    assert_eq!(c.unknown, "..");
    assert!(!c.substitute(&mut db));

    let mut h = Feeder::new("${NOCLOSE");
    assert!(BracedParam::parse(&mut h).is_none());
    assert_eq!(h.len(), 9);
}
