//! Scanners: each one reports how far, from a given character position, the
//! remaining text of a feeder matches one lexical shape. A scanner never
//! consumes; it only measures.

use vstd::prelude::*;
use crate::element_list::ControlOperator;
use crate::feeder::Feeder;
use crate::text;

verus! {

pub open spec fn is_blank_char(c: char) -> bool {
    c == ' ' || c == '\t'
}

pub open spec fn is_varname_char(c: char) -> bool {
    ('0' <= c && c <= '9') || ('A' <= c && c <= 'Z') || ('a' <= c && c <= 'z') || c == '_' || c
        == '-'
}

pub open spec fn is_digit_char(c: char) -> bool {
    '0' <= c && c <= '9'
}

pub open spec fn is_special_param_char(c: char) -> bool {
    c == '?' || c == '*' || c == '@' || c == '$' || c == '#' || c == '!' || c == '-' || c == ':'
}

/// Position reached by a scan that skips escaped characters and stops at the
/// first unescaped character of `to`.
pub open spec fn spec_scan_escape(s: Seq<char>, i: int, to: Seq<char>, escaped: bool) -> int
    decreases s.len() - i when 0 <= i <= s.len()
{
    if i >= s.len() {
        i
    } else if escaped || s[i] == '\\' {
        spec_scan_escape(s, i + 1, to, !escaped)
    } else if to.contains(s[i]) {
        i
    } else {
        spec_scan_escape(s, i + 1, to, false)
    }
}

pub proof fn lemma_scan_escape_range(s: Seq<char>, i: int, to: Seq<char>, escaped: bool)
    requires
        0 <= i <= s.len(),
    ensures
        i <= spec_scan_escape(s, i, to, escaped) <= s.len(),
    decreases s.len() - i,
{
    if i < s.len() {
        if escaped || s[i] == '\\' {
            lemma_scan_escape_range(s, i + 1, to, !escaped);
        } else if !to.contains(s[i]) {
            lemma_scan_escape_range(s, i + 1, to, false);
        }
    }
}

/// Stops at the first unescaped occurrence of a character of `to`; a
/// backslash escapes the character after it.
pub fn scanner_until_escape(text: &Feeder, from: usize, to: &str) -> (r: usize)
    requires
        from <= text.rem().len(),
    ensures
        r == spec_scan_escape(text.rem(), from as int, to@, false),
        from <= r <= text.rem().len(),
{
    let len = text.len();
    let mut pos = from;
    let mut escaped = false;
    proof {
        lemma_scan_escape_range(text.rem(), from as int, to@, false);
    }
    while pos < len
        invariant
            from <= pos <= len,
            len == text.rem().len(),
            spec_scan_escape(text.rem(), from as int, to@, false) == spec_scan_escape(
                text.rem(),
                pos as int,
                to@,
                escaped,
            ),
        ensures
            pos <= len,
            spec_scan_escape(text.rem(), from as int, to@, false) == pos,
        decreases len - pos,
    {
        let ch = text.nth(pos);
        if escaped || ch == '\\' {
            escaped = !escaped;
        } else if text::str_contains_char(to, ch) {
            break ;
        }
        pos += 1;
    }
    pos
}

/// Skips blanks (spaces and tabs).
pub fn scanner_blank(text: &Feeder, from: usize) -> (r: usize)
    requires
        from <= text.rem().len(),
    ensures
        from <= r <= text.rem().len(),
        forall|j: int| from <= j < r ==> is_blank_char(#[trigger] text.rem()[j]),
        r < text.rem().len() ==> !is_blank_char(text.rem()[r as int]),
{
    let len = text.len();
    let mut pos = from;
    while pos < len
        invariant
            from <= pos <= len,
            len == text.rem().len(),
            forall|j: int| from <= j < pos ==> is_blank_char(#[trigger] text.rem()[j]),
        ensures
            from <= pos <= len,
            forall|j: int| from <= j < pos ==> is_blank_char(#[trigger] text.rem()[j]),
            pos < len ==> !is_blank_char(text.rem()[pos as int]),
        decreases len - pos,
    {
        let ch = text.nth(pos);
        if ch == ' ' || ch == '\t' {
            pos += 1;
        } else {
            break ;
        }
    }
    pos
}

/// Stops at the first occurrence of a character of `to`.
pub fn scanner_until(text: &Feeder, from: usize, to: &str) -> (r: usize)
    requires
        from <= text.rem().len(),
    ensures
        from <= r <= text.rem().len(),
        forall|j: int| from <= j < r ==> !to@.contains(#[trigger] text.rem()[j]),
        r < text.rem().len() ==> to@.contains(text.rem()[r as int]),
{
    let len = text.len();
    let mut pos = from;
    while pos < len
        invariant
            from <= pos <= len,
            len == text.rem().len(),
            forall|j: int| from <= j < pos ==> !to@.contains(#[trigger] text.rem()[j]),
        ensures
            from <= pos <= len,
            forall|j: int| from <= j < pos ==> !to@.contains(#[trigger] text.rem()[j]),
            pos < len ==> to@.contains(text.rem()[pos as int]),
        decreases len - pos,
    {
        let ch = text.nth(pos);
        if text::str_contains_char(to, ch) {
            break ;
        }
        pos += 1;
    }
    pos
}

/// Measures a variable name: one special character, or a run of name
/// characters.
pub fn scanner_varname(text: &Feeder, from: usize) -> (r: usize)
    requires
        from <= text.rem().len(),
    ensures
        from <= r <= text.rem().len(),
        text.rem().len() == from ==> r == from,
        from < text.rem().len() && is_special_param_char(text.rem()[from as int]) ==> r == from
            + 1,
        from < text.rem().len() && !is_special_param_char(text.rem()[from as int]) ==> {
            &&& forall|j: int| from <= j < r ==> is_varname_char(#[trigger] text.rem()[j])
            &&& (r < text.rem().len() ==> !is_varname_char(text.rem()[r as int]))
        },
{
    let len = text.len();
    if len == from {
        return from;
    }
    let first = text.nth(from);
    if first == '?' || first == '*' || first == '@' || first == '$' || first == '#' || first
        == '!' || first == '-' || first == ':' {
        return from + 1;
    }
    let mut pos = from;
    while pos < len
        invariant
            from <= pos <= len,
            len == text.rem().len(),
            forall|j: int| from <= j < pos ==> is_varname_char(#[trigger] text.rem()[j]),
        ensures
            from <= pos <= len,
            forall|j: int| from <= j < pos ==> is_varname_char(#[trigger] text.rem()[j]),
            pos < len ==> !is_varname_char(text.rem()[pos as int]),
        decreases len - pos,
    {
        let ch = text.nth(pos);
        if (ch >= '0' && ch <= '9') || (ch >= 'A' && ch <= 'Z') || (ch >= 'a' && ch <= 'z') || ch
            == '_' || ch == '-' {
            pos += 1;
        } else {
            break ;
        }
    }
    pos
}

/// The decision tree of `scanner_control_op`, written out over the text.
pub open spec fn spec_control_op(s: Seq<char>, from: int) -> (int, Option<ControlOperator>) {
    let three = if s.len() > from + 2 && s[from] == ';' && s[from + 1] == ';' && s[from + 2]
        == '&' {
        Some(ControlOperator::SemiSemiAnd)
    } else {
        None::<ControlOperator>
    };
    let two = if s.len() > from + 1 {
        if s[from] == '|' && s[from + 1] == '|' {
            Some(ControlOperator::Or)
        } else if s[from] == '&' && s[from + 1] == '&' {
            Some(ControlOperator::And)
        } else if s[from] == ';' && s[from + 1] == ';' {
            Some(ControlOperator::DoubleSemicolon)
        } else if s[from] == ';' && s[from + 1] == '&' {
            Some(ControlOperator::SemiAnd)
        } else if s[from] == '|' && s[from + 1] == '&' {
            Some(ControlOperator::PipeAnd)
        } else {
            None::<ControlOperator>
        }
    } else {
        None::<ControlOperator>
    };
    if three is Some {
        let pos = if s.len() > from + 3 && s[from + 3] == '\n' {
            from + 4
        } else {
            from + 3
        };
        (pos, three)
    } else if two is Some {
        let pos = if s.len() > from + 2 && s[from + 2] == '\n' {
            from + 3
        } else {
            from + 2
        };
        (pos, two)
    } else if s.len() > from {
        if s[from] == '&' {
            if s.len() > from + 1 && s[from + 1] == '>' {
                (0, None::<ControlOperator>)
            } else {
                (from + 1, Some(ControlOperator::BgAnd))
            }
        } else if s[from] == '\n' {
            (from + 1, Some(ControlOperator::NewLine))
        } else if s[from] == '|' {
            (from + 1, Some(ControlOperator::Pipe))
        } else if s[from] == ';' {
            (from + 1, Some(ControlOperator::Semicolon))
        } else if s[from] == '(' {
            (from + 1, Some(ControlOperator::LeftParen))
        } else if s[from] == ')' {
            (from + 1, Some(ControlOperator::RightParen))
        } else {
            (from, None::<ControlOperator>)
        }
    } else {
        (from, None::<ControlOperator>)
    }
}

/// Recognises a control operator, longest token first; a newline straight
/// after a multi-character operator is taken along.
pub fn scanner_control_op(text: &Feeder, from: usize) -> (r: (usize, Option<ControlOperator>))
    requires
        from <= text.rem().len(),
        text.rem().len() + 1 < usize::MAX,
    ensures
        (r.0 as int, r.1) == spec_control_op(text.rem(), from as int),
        r.0 <= text.rem().len(),
{
    let len = text.len();
    let mut op: Option<ControlOperator> = None;
    let mut pos = from;

    if len > from + 2 && text.nth(from) == ';' && text.nth(from + 1) == ';' && text.nth(from + 2)
        == '&' {
        op = Some(ControlOperator::SemiSemiAnd);
        pos = from + 3;
    }

    if op.is_none() && len > from + 1 {
        let c0 = text.nth(from);
        let c1 = text.nth(from + 1);
        pos = from + 2;
        op = if c0 == '|' && c1 == '|' {
            Some(ControlOperator::Or)
        } else if c0 == '&' && c1 == '&' {
            Some(ControlOperator::And)
        } else if c0 == ';' && c1 == ';' {
            Some(ControlOperator::DoubleSemicolon)
        } else if c0 == ';' && c1 == '&' {
            Some(ControlOperator::SemiAnd)
        } else if c0 == '|' && c1 == '&' {
            Some(ControlOperator::PipeAnd)
        } else {
            None
        };
    }

    if op.is_none() && len > from {
        let c = text.nth(from);
        if c == '&' {
            if len > from + 1 && text.nth(from + 1) == '>' {
                return (0, None);
            }
            return (from + 1, Some(ControlOperator::BgAnd));
        } else if c == '\n' {
            return (from + 1, Some(ControlOperator::NewLine));
        } else if c == '|' {
            return (from + 1, Some(ControlOperator::Pipe));
        } else if c == ';' {
            return (from + 1, Some(ControlOperator::Semicolon));
        } else if c == '(' {
            return (from + 1, Some(ControlOperator::LeftParen));
        } else if c == ')' {
            return (from + 1, Some(ControlOperator::RightParen));
        }
        return (from, None);
    }

    if op.is_some() && pos < len && text.nth(pos) == '\n' {
        pos += 1;
    }

    if op.is_some() {
        return (pos, op);
    }
    (from, None)
}

/// A `#` starts a comment that runs to the end of the line.
pub fn scanner_comment(text: &Feeder, from: usize) -> (r: usize)
    requires
        from <= text.rem().len(),
    ensures
        from < text.rem().len() && text.rem()[from as int] == '#' ==> {
            &&& from <= r <= text.rem().len()
            &&& forall|j: int| from <= j < r ==> #[trigger] text.rem()[j] != '\n'
            &&& (r < text.rem().len() ==> text.rem()[r as int] == '\n')
        },
        !(from < text.rem().len() && text.rem()[from as int] == '#') ==> r == from,
{
    proof {
        reveal_strlit("#");
        reveal_strlit("\n");
    }
    if text.len() > from && text.nth_is(from, "#") {
        let r = scanner_until(text, from, "\n");
        proof {
            assert("\n"@.len() == 1 && "\n"@[0] == '\n');
            assert(forall|j: int|
                from <= j < r && #[trigger] text.rem()[j] == '\n' ==> "\n"@.contains(
                    text.rem()[j],
                ));
        }
        return r;
    }
    from
}

/// One closing parenthesis at `from`.
pub fn scanner_end_paren(text: &Feeder, from: usize) -> (r: usize)
    ensures
        text.rem().len() == 0 ==> r == 0,
        text.rem().len() > 0 && from < text.rem().len() && text.rem()[from as int] == ')' ==> r
            == from + 1,
        text.rem().len() > 0 && !(from < text.rem().len() && text.rem()[from as int] == ')')
            ==> r == from,
{
    if text.len() == 0 {
        return 0;
    }
    proof {
        reveal_strlit(")");
    }
    if text.nth_is(from, ")") {
        return from + 1;
    }
    from
}

/// One opening parenthesis at `from`.
pub fn scanner_start_paren(text: &Feeder, from: usize) -> (r: usize)
    ensures
        text.rem().len() == 0 ==> r == 0,
        text.rem().len() > 0 && from < text.rem().len() && text.rem()[from as int] == '(' ==> r
            == from + 1,
        text.rem().len() > 0 && !(from < text.rem().len() && text.rem()[from as int] == '(')
            ==> r == from,
{
    if text.len() == 0 {
        return 0;
    }
    proof {
        reveal_strlit("(");
    }
    if text.nth_is(from, "(") {
        return from + 1;
    }
    from
}

/// One opening brace at `from`.
pub fn scanner_start_brace(text: &Feeder, from: usize) -> (r: usize)
    ensures
        text.rem().len() == 0 ==> r == 0,
        text.rem().len() > 0 && from < text.rem().len() && text.rem()[from as int] == '{' ==> r
            == from + 1,
        text.rem().len() > 0 && !(from < text.rem().len() && text.rem()[from as int] == '{')
            ==> r == from,
{
    if text.len() == 0 {
        return 0;
    }
    proof {
        reveal_strlit("{");
    }
    if text.nth_is(from, "{") {
        return from + 1;
    }
    from
}

/// An optionally signed run of digits; a lone minus sign is not a number.
pub fn scanner_integer(text: &Feeder, from: usize) -> (r: usize)
    requires
        from <= text.rem().len(),
    ensures
        from <= r <= text.rem().len(),
        text.rem().len() == from ==> r == from,
        from < text.rem().len() ==> {
            let start = if text.rem()[from as int] == '-' {
                from + 1
            } else {
                from as int
            };
            ||| (r > from && r >= start && (forall|j: int|
                start <= j < r ==> is_digit_char(#[trigger] text.rem()[j])) && (
            r < text.rem().len() ==> !is_digit_char(text.rem()[r as int])))
            ||| (r == from && text.rem()[from as int] == '-' && (from + 1 < text.rem().len()
                ==> !is_digit_char(text.rem()[from + 1])))
            ||| (r == from && !is_digit_char(text.rem()[from as int]) && text.rem()[from as int]
                != '-')
        },
{
    let len = text.len();
    if len == from {
        return from;
    }
    let neg = text.nth(from) == '-';
    let mut pos = if neg {
        from + 1
    } else {
        from
    };
    let ghost start = pos as int;
    while pos < len
        invariant
            start <= pos <= len,
            len == text.rem().len(),
            forall|j: int| start <= j < pos ==> is_digit_char(#[trigger] text.rem()[j]),
        ensures
            start <= pos <= len,
            forall|j: int| start <= j < pos ==> is_digit_char(#[trigger] text.rem()[j]),
            pos < len ==> !is_digit_char(text.rem()[pos as int]),
        decreases len - pos,
    {
        let ch = text.nth(pos);
        if ch < '0' || ch > '9' {
            break ;
        }
        pos += 1;
    }
    if neg && pos == from + 1 {
        from
    } else {
        pos
    }
}

} // verus!
