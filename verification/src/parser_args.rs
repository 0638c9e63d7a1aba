//! The argument parsers: quoted and unquoted pieces, `$var` and `${var}`
//! references, and brace groups. Every parser consumes exactly the text it
//! reports; a parser that answers `None` leaves the feeder as it was.

use vstd::prelude::*;
use crate::feeder::Feeder;
use crate::scanner;
use crate::text;

verus! {

/// Where a piece was read, for diagnostics.
#[derive(Debug)]
pub struct DebugInfo {
    pub lineno: usize,
}

impl DebugInfo {
    pub fn init(text: &Feeder) -> (r: DebugInfo)
        ensures
            r.lineno == text.line_count(),
    {
        DebugInfo { lineno: text.lineno() }
    }
}

/// A plain piece of an argument.
#[derive(Debug)]
pub struct SubArg {
    pub text: String,
    pub pos: DebugInfo,
}

/// A single-quoted piece, quotes included.
#[derive(Debug)]
pub struct SubArgSingleQuoted {
    pub text: String,
    pub pos: DebugInfo,
}

/// A double-quoted piece with the pieces inside it.
#[derive(Debug)]
pub struct SubArgDoubleQuoted {
    pub text: String,
    pub pos: DebugInfo,
    pub subargs: Vec<ArgElem>,
}

/// A `$name` or `${name}` reference.
#[derive(Debug)]
pub struct SubArgVariable {
    pub text: String,
    pub pos: DebugInfo,
}

/// A `{a,b,...}` brace group with its comma-separated arguments.
#[derive(Debug)]
pub struct SubArgBraced {
    pub text: String,
    pub pos: DebugInfo,
    pub args: Vec<Arg>,
}

/// One piece of an argument, tagged by kind.
#[derive(Debug)]
pub enum ArgElem {
    Plain(SubArg),
    SingleQuoted(SubArgSingleQuoted),
    DoubleQuoted(SubArgDoubleQuoted),
    Variable(SubArgVariable),
    Braced(SubArgBraced),
}

/// One whole argument: the concatenation of its pieces.
#[derive(Debug)]
pub struct Arg {
    pub text: String,
    pub pos: DebugInfo,
    pub subargs: Vec<ArgElem>,
}

/// The text a piece stands for.
pub open spec fn spec_elem_text(e: ArgElem) -> Seq<char> {
    match e {
        ArgElem::Plain(a) => a.text@,
        ArgElem::SingleQuoted(a) => a.text@,
        ArgElem::DoubleQuoted(a) => a.text@,
        ArgElem::Variable(a) => a.text@,
        ArgElem::Braced(a) => a.text@,
    }
}

impl ArgElem {
    /// A copy of the piece's text.
    pub fn text_of(&self) -> (r: String)
        ensures
            r@ == spec_elem_text(*self),
    {
        match self {
            ArgElem::Plain(a) => a.text.clone(),
            ArgElem::SingleQuoted(a) => a.text.clone(),
            ArgElem::DoubleQuoted(a) => a.text.clone(),
            ArgElem::Variable(a) => a.text.clone(),
            ArgElem::Braced(a) => a.text.clone(),
        }
    }
}

/// An unquoted piece: text up to a blank, quote, semicolon or brace, with
/// backslash escapes.
pub fn subarg_normal(text: &mut Feeder) -> (r: Option<SubArg>)
    ensures
        r matches Some(a) ==> old(text).rem() == a.text@ + final(text).rem() && a.text@.len()
            > 0,
        r is Some <==> scanner::spec_scan_escape(old(text).rem(), 0, " \n\t\"';{}"@, false) > 0,
        r is None ==> final(text).rem() == old(text).rem(),
        final(text).backups() == old(text).backups(),
{
    let pos = scanner::scanner_until_escape(text, 0, " \n\t\"';{}");
    if pos == 0 {
        return None;
    }
    let ghost r0 = text.rem();
    let eaten = text.consume(pos);
    proof {
        assert(r0 =~= r0.take(pos as int) + r0.skip(pos as int));
    }
    Some(SubArg { text: eaten, pos: DebugInfo::init(text) })
}

/// Like `subarg_normal`, but braces do not end the piece.
pub fn subvalue_normal(text: &mut Feeder) -> (r: Option<SubArg>)
    ensures
        r matches Some(a) ==> old(text).rem() == a.text@ + final(text).rem() && a.text@.len()
            > 0,
        r is Some <==> scanner::spec_scan_escape(old(text).rem(), 0, " \n\t\"';"@, false) > 0,
        r is None ==> final(text).rem() == old(text).rem(),
        final(text).backups() == old(text).backups(),
{
    let pos = scanner::scanner_until_escape(text, 0, " \n\t\"';");
    if pos == 0 {
        return None;
    }
    let ghost r0 = text.rem();
    let eaten = text.consume(pos);
    proof {
        assert(r0 =~= r0.take(pos as int) + r0.skip(pos as int));
    }
    Some(SubArg { text: eaten, pos: DebugInfo::init(text) })
}

/// A piece inside a brace group: text up to a comma or brace; empty before
/// a closing delimiter is no piece.
pub fn subarg_normal_in_brace(text: &mut Feeder) -> (r: Option<SubArg>)
    ensures
        r matches Some(a) ==> old(text).rem() == a.text@ + final(text).rem() && a.text@.len()
            > 0,
        r is None ==> final(text).rem() == old(text).rem(),
        final(text).backups() == old(text).backups(),
{
    let pos = scanner::scanner_until_escape(text, 0, ",{}");
    if pos == 0 {
        return None;
    }
    let ghost r0 = text.rem();
    let eaten = text.consume(pos);
    proof {
        assert(r0 =~= r0.take(pos as int) + r0.skip(pos as int));
    }
    Some(SubArg { text: eaten, pos: DebugInfo::init(text) })
}

/// A single-quoted piece; without a closing quote nothing is consumed.
pub fn subarg_single_qt(text: &mut Feeder) -> (r: Option<SubArgSingleQuoted>)
    ensures
        r matches Some(a) ==> old(text).rem() == a.text@ + final(text).rem() && a.text@.len()
            >= 2,
        r is None ==> final(text).rem() == old(text).rem(),
        final(text).backups() == old(text).backups(),
{
    proof {
        reveal_strlit("'");
    }
    if text.len() == 0 || text.nth(0) != '\'' {
        return None;
    }
    let close = scanner::scanner_until(text, 1, "'");
    if close >= text.len() {
        return None;
    }
    let ghost r0 = text.rem();
    let eaten = text.consume(close + 1);
    proof {
        assert(r0 =~= r0.take(close + 1) + r0.skip(close + 1));
    }
    Some(SubArgSingleQuoted { text: eaten, pos: DebugInfo::init(text) })
}

/// The plain text inside a double-quoted piece, up to the next quote or
/// dollar sign.
pub fn string_in_double_qt(text: &mut Feeder) -> (r: Option<SubArg>)
    ensures
        r matches Some(a) ==> old(text).rem() == a.text@ + final(text).rem() && a.text@.len()
            > 0,
        r is None ==> final(text).rem() == old(text).rem(),
        final(text).backups() == old(text).backups(),
{
    if text.len() == 0 || text.nth(0) == '"' {
        return None;
    }
    let pos = scanner::scanner_until_escape(text, 0, "\"$");
    if pos == 0 {
        return None;
    }
    let ghost r0 = text.rem();
    let eaten = text.consume(pos);
    proof {
        assert(r0 =~= r0.take(pos as int) + r0.skip(pos as int));
    }
    Some(SubArg { text: eaten, pos: DebugInfo::init(text) })
}

/// A `$name` reference; `${` belongs to the braced form.
pub fn subarg_variable_non_braced(text: &mut Feeder) -> (r: Option<SubArgVariable>)
    ensures
        r matches Some(a) ==> old(text).rem() == a.text@ + final(text).rem() && a.text@.len()
            > 0,
        r is None ==> final(text).rem() == old(text).rem(),
        final(text).backups() == old(text).backups(),
{
    if text.len() == 0 || text.nth(0) != '$' {
        return None;
    }
    if text.len() > 1 && text.nth(1) == '{' {
        return None;
    }
    let pos = scanner::scanner_varname(text, 1);
    let ghost r0 = text.rem();
    let eaten = text.consume(pos);
    proof {
        assert(r0 =~= r0.take(pos as int) + r0.skip(pos as int));
    }
    Some(SubArgVariable { text: eaten, pos: DebugInfo::init(text) })
}

/// A `${name}` reference; without the closing brace nothing is consumed.
pub fn subarg_variable_braced(text: &mut Feeder) -> (r: Option<SubArgVariable>)
    ensures
        r matches Some(a) ==> old(text).rem() == a.text@ + final(text).rem() && a.text@.len()
            >= 3,
        r is None ==> final(text).rem() == old(text).rem(),
        final(text).backups() == old(text).backups(),
{
    if text.len() < 2 || text.nth(0) != '$' || text.nth(1) != '{' {
        return None;
    }
    let pos = scanner::scanner_varname(text, 2);
    if pos < text.len() && text.nth(pos) == '}' {
        let ghost r0 = text.rem();
        let eaten = text.consume(pos + 1);
        proof {
            assert(r0 =~= r0.take(pos + 1) + r0.skip(pos + 1));
        }
        Some(SubArgVariable { text: eaten, pos: DebugInfo::init(text) })
    } else {
        None
    }
}

/// A double-quoted piece such as `"aaa${var}"`; without the closing quote
/// nothing is consumed.
#[verifier::rlimit(100)]
#[verifier::spinoff_prover]
pub fn subarg_double_qt(text: &mut Feeder) -> (r: Option<SubArgDoubleQuoted>)
    ensures
        r matches Some(a) ==> old(text).rem() == a.text@ + final(text).rem() && a.text@.len()
            >= 2,
        r is None ==> final(text).rem() == old(text).rem(),
        final(text).backups() == old(text).backups(),
{
    if text.len() == 0 || text.nth(0) != '"' {
        return None;
    }
    text.set_backup();
    let ghost w0 = text.rem();
    let mut ans = SubArgDoubleQuoted {
        text: String::new(),
        pos: DebugInfo::init(text),
        subargs: Vec::new(),
    };
    let ghost r0 = text.rem();
    let opened = text.consume(1);
    ans.text.append(opened.as_str());
    proof {
        assert(r0 =~= r0.take(1) + r0.skip(1));
        assert(w0 =~= ans.text@ + text.rem());
    }
    loop
        invariant
            w0 == ans.text@ + text.rem(),
            ans.text@.len() >= 1,
            text.backups() == old(text).backups().push(w0),
            w0 == old(text).rem(),
        ensures
            w0 == ans.text@ + text.rem(),
            ans.text@.len() >= 1,
            text.backups() == old(text).backups().push(w0),
        decreases text.rem().len(),
    {
        let piece: Option<ArgElem> = match subarg_variable_braced(text) {
            Some(a) => Some(ArgElem::Variable(a)),
            None => {
                match subarg_variable_non_braced(text) {
                    Some(a) => Some(ArgElem::Variable(a)),
                    None => {
                        match string_in_double_qt(text) {
                            Some(a) => Some(ArgElem::Plain(a)),
                            None => None,
                        }
                    },
                }
            },
        };
        match piece {
            Some(e) => {
                let ghost t0 = ans.text@;
                let piece_text = e.text_of();
                ans.text.append(piece_text.as_str());
                ans.subargs.push(e);
                proof {
                    assert(w0 =~= ans.text@ + text.rem());
                }
            },
            None => {
                break ;
            },
        }
    }
    if text.len() > 0 {
        let c = text.nth(0);
        if c == '"' {
            let ghost r1 = text.rem();
            let closed = text.consume(1);
            ans.text.append(closed.as_str());
            text.pop_backup();
            proof {
                assert(r1 =~= r1.take(1) + r1.skip(1));
                assert(w0 =~= ans.text@ + text.rem());
                assert(old(text).backups().push(w0).drop_last() =~= old(text).backups());
            }
            return Some(ans);
        }
    }
    text.rewind();
    proof {
        assert(old(text).backups().push(w0).drop_last() =~= old(text).backups());
    }
    None
}

/// One piece of a brace-expanding argument.
pub fn subarg(text: &mut Feeder) -> (r: Option<ArgElem>)
    ensures
        r matches Some(e) ==> old(text).rem() == spec_elem_text(e) + final(text).rem()
            && spec_elem_text(e).len() > 0,
        r is None ==> final(text).rem() == old(text).rem(),
        final(text).backups() == old(text).backups(),
    decreases text.rem().len(), 2int,
{
    match subarg_variable_braced(text) {
        Some(a) => {
            return Some(ArgElem::Variable(a));
        },
        None => {},
    }
    match subarg_variable_non_braced(text) {
        Some(a) => {
            return Some(ArgElem::Variable(a));
        },
        None => {},
    }
    match subarg_braced(text) {
        Some(a) => {
            return Some(ArgElem::Braced(a));
        },
        None => {},
    }
    match subarg_normal(text) {
        Some(a) => {
            return Some(ArgElem::Plain(a));
        },
        None => {},
    }
    match subarg_single_qt(text) {
        Some(a) => {
            return Some(ArgElem::SingleQuoted(a));
        },
        None => {},
    }
    match subarg_double_qt(text) {
        Some(a) => {
            return Some(ArgElem::DoubleQuoted(a));
        },
        None => {},
    }
    None
}

/// One piece of a non-brace-expanding argument, as on the right of an
/// assignment.
pub fn subvalue(text: &mut Feeder) -> (r: Option<ArgElem>)
    ensures
        r matches Some(e) ==> old(text).rem() == spec_elem_text(e) + final(text).rem()
            && spec_elem_text(e).len() > 0,
        r is None ==> final(text).rem() == old(text).rem(),
        final(text).backups() == old(text).backups(),
{
    match subarg_variable_braced(text) {
        Some(a) => {
            return Some(ArgElem::Variable(a));
        },
        None => {},
    }
    match subarg_variable_non_braced(text) {
        Some(a) => {
            return Some(ArgElem::Variable(a));
        },
        None => {},
    }
    match subvalue_normal(text) {
        Some(a) => {
            return Some(ArgElem::Plain(a));
        },
        None => {},
    }
    match subarg_single_qt(text) {
        Some(a) => {
            return Some(ArgElem::SingleQuoted(a));
        },
        None => {},
    }
    match subarg_double_qt(text) {
        Some(a) => {
            return Some(ArgElem::DoubleQuoted(a));
        },
        None => {},
    }
    None
}

/// One piece inside a brace group.
pub fn subarg_in_brace(text: &mut Feeder) -> (r: Option<ArgElem>)
    ensures
        r matches Some(e) ==> old(text).rem() == spec_elem_text(e) + final(text).rem()
            && spec_elem_text(e).len() > 0,
        r is None ==> final(text).rem() == old(text).rem(),
        final(text).backups() == old(text).backups(),
    decreases text.rem().len(), 2int,
{
    match subarg_variable_braced(text) {
        Some(a) => {
            return Some(ArgElem::Variable(a));
        },
        None => {},
    }
    match subarg_variable_non_braced(text) {
        Some(a) => {
            return Some(ArgElem::Variable(a));
        },
        None => {},
    }
    match subarg_braced(text) {
        Some(a) => {
            return Some(ArgElem::Braced(a));
        },
        None => {},
    }
    match subarg_single_qt(text) {
        Some(a) => {
            return Some(ArgElem::SingleQuoted(a));
        },
        None => {},
    }
    match subarg_double_qt(text) {
        Some(a) => {
            return Some(ArgElem::DoubleQuoted(a));
        },
        None => {},
    }
    match subarg_normal_in_brace(text) {
        Some(a) => {
            return Some(ArgElem::Plain(a));
        },
        None => {},
    }
    None
}

/// A whole argument: as many pieces as the text offers; possibly none.
pub fn arg(text: &mut Feeder, expand_brace: bool) -> (r: Option<Arg>)
    ensures
        r matches Some(a) ==> old(text).rem() == a.text@ + final(text).rem(),
        r is Some,
        final(text).backups() == old(text).backups(),
    decreases text.rem().len(), 3int,
{
    let mut ans = Arg { text: String::new(), pos: DebugInfo::init(text), subargs: Vec::new() };
    let ghost w0 = text.rem();
    proof {
        assert(w0 =~= ans.text@ + text.rem());
    }
    loop
        invariant
            w0 == ans.text@ + text.rem(),
            w0 == old(text).rem(),
            text.backups() == old(text).backups(),
        ensures
            w0 == ans.text@ + text.rem(),
            text.backups() == old(text).backups(),
        decreases text.rem().len(),
    {
        let piece = if expand_brace {
            subarg(text)
        } else {
            subvalue(text)
        };
        match piece {
            Some(e) => {
                let piece_text = e.text_of();
                ans.text.append(piece_text.as_str());
                ans.subargs.push(e);
                proof {
                    assert(w0 =~= ans.text@ + text.rem());
                }
            },
            None => {
                break ;
            },
        }
    }
    Some(ans)
}

/// One comma-separated argument inside a brace group; before `,` or `}`
/// it is the empty argument.
pub fn arg_in_brace(text: &mut Feeder) -> (r: Option<Arg>)
    ensures
        r matches Some(a) ==> old(text).rem() == a.text@ + final(text).rem(),
        r is Some,
        final(text).backups() == old(text).backups(),
    decreases text.rem().len(), 3int,
{
    let mut ans = Arg { text: String::new(), pos: DebugInfo::init(text), subargs: Vec::new() };
    let ghost w0 = text.rem();
    if text.len() > 0 {
        let c = text.nth(0);
        if c == ',' || c == '}' {
            ans.subargs.push(ArgElem::Plain(SubArg { text: String::new(), pos: DebugInfo::init(text) }));
            proof {
                assert(w0 =~= ans.text@ + text.rem());
            }
            return Some(ans);
        }
    }
    proof {
        assert(w0 =~= ans.text@ + text.rem());
    }
    loop
        invariant
            w0 == ans.text@ + text.rem(),
            w0 == old(text).rem(),
            text.backups() == old(text).backups(),
        ensures
            w0 == ans.text@ + text.rem(),
            text.backups() == old(text).backups(),
        decreases text.rem().len(),
    {
        let piece = subarg_in_brace(text);
        match piece {
            Some(e) => {
                let piece_text = e.text_of();
                ans.text.append(piece_text.as_str());
                ans.subargs.push(e);
                proof {
                    assert(w0 =~= ans.text@ + text.rem());
                }
            },
            None => {
                break ;
            },
        }
    }
    Some(ans)
}

/// A `{a,b,...}` brace group; consumes from the opening brace to the
/// matching close, or to where the group stops making sense.
#[verifier::rlimit(100)]
#[verifier::spinoff_prover]
pub fn subarg_braced(text: &mut Feeder) -> (r: Option<SubArgBraced>)
    ensures
        r matches Some(a) ==> old(text).rem() == a.text@ + final(text).rem() && a.text@.len()
            > 0,
        r is None ==> final(text).rem() == old(text).rem(),
        final(text).backups() == old(text).backups(),
    decreases text.rem().len(), 1int,
{
    if text.len() == 0 || text.nth(0) != '{' {
        return None;
    }
    let ghost w0 = text.rem();
    let mut ans = SubArgBraced {
        text: String::new(),
        pos: DebugInfo::init(text),
        args: Vec::new(),
    };
    let ghost r0 = text.rem();
    let opened = text.consume(1);
    ans.text.append(opened.as_str());
    proof {
        assert(r0 =~= r0.take(1) + r0.skip(1));
        assert(w0 =~= ans.text@ + text.rem());
    }
    loop
        invariant
            w0 == ans.text@ + text.rem(),
            ans.text@.len() >= 1,
            text.rem().len() < w0.len(),
            w0 == old(text).rem(),
            text.backups() == old(text).backups(),
        ensures
            w0 == ans.text@ + text.rem(),
            ans.text@.len() >= 1,
            text.backups() == old(text).backups(),
        decreases text.rem().len(),
    {
        let ghost len_at_top = text.rem().len();
        let one = match arg_in_brace(text) {
            Some(a) => a,
            None => {
                break ;
            },
        };
        ans.text.append(one.text.as_str());
        ans.args.push(one);
        proof {
            assert(w0 =~= ans.text@ + text.rem());
        }
        if text.len() > 0 && text.nth(0) == ',' {
            let ghost r1 = text.rem();
            let comma = text.consume(1);
            ans.text.append(comma.as_str());
            proof {
                assert(r1 =~= r1.take(1) + r1.skip(1));
                assert(w0 =~= ans.text@ + text.rem());
            }
            continue ;
        }
        if text.len() > 0 && text.nth(0) == '}' {
            let ghost r1 = text.rem();
            let closed = text.consume(1);
            ans.text.append(closed.as_str());
            proof {
                assert(r1 =~= r1.take(1) + r1.skip(1));
                assert(w0 =~= ans.text@ + text.rem());
            }
            break ;
        }
        break ;
    }
    Some(ans)
}

/// An old-style `name=value` assignment; without an `=` straight after
/// the name nothing is consumed.
pub fn substitution(text: &mut Feeder) -> (r: Option<crate::substitution::Substitution>)
    ensures
        r matches Some(a) ==> old(text).rem() == a.text@ + final(text).rem() && a.text@.len()
            > 0,
        r is None ==> final(text).rem() == old(text).rem(),
        final(text).backups() == old(text).backups(),
{
    proof {
        reveal_strlit("=");
    }
    let ghost w0 = text.rem();
    let varname_pos = scanner::scanner_varname(text, 0);
    if varname_pos >= text.len() || text.nth(varname_pos) != '=' {
        return None;
    }
    if varname_pos == 0 {
        return None;
    }
    let ghost r0 = text.rem();
    let name = text.consume(varname_pos);
    proof {
        assert(r0 =~= r0.take(varname_pos as int) + r0.skip(varname_pos as int));
    }
    let ghost r1 = text.rem();
    let equals = text.consume(1);
    proof {
        assert(r1 =~= r1.take(1) + r1.skip(1));
    }
    let value_part = match arg(text, false) {
        Some(a) => a,
        None => {
            assert(false);
            return None;
        },
    };
    let mut whole = name.clone();
    whole.append(equals.as_str());
    whole.append(value_part.text.as_str());
    proof {
        assert(w0 =~= whole@ + text.rem());
    }
    let sub = crate::substitution::Substitution {
        text: whole,
        name,
        index: None,
        value: crate::substitution::ParsedDataType::Single(
            crate::substitution::Word { text: value_part.text },
        ),
        evaluated_string: None,
        evaluated_array: None,
        append: false,
    };
    Some(sub)
}

} // verus!
