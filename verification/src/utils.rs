//! Word-level helpers: reserved words, quote-aware word splitting, and the
//! test for a valid parameter name.

use vstd::prelude::*;
use crate::text;

verus! {

/// A shell word is reserved when it introduces or closes a compound command.
pub fn reserved(w: &str) -> (r: bool)
    ensures
        r == (w@ == "[["@ || w@ == "]]"@ || w@ == "{"@ || w@ == "}"@ || w@ == "while"@ || w@
            == "for"@ || w@ == "do"@ || w@ == "done"@ || w@ == "if"@ || w@ == "then"@ || w@
            == "elif"@ || w@ == "else"@ || w@ == "fi"@ || w@ == "case"@),
{
    text::str_eq(w, "[[") || text::str_eq(w, "]]") || text::str_eq(w, "{") || text::str_eq(w, "}")
        || text::str_eq(w, "while") || text::str_eq(w, "for") || text::str_eq(w, "do")
        || text::str_eq(w, "done") || text::str_eq(w, "if") || text::str_eq(w, "then")
        || text::str_eq(w, "elif") || text::str_eq(w, "else") || text::str_eq(w, "fi")
        || text::str_eq(w, "case")
}

/// One step of the word-splitting machine; the final word list for the text
/// from position `i` on, given the state reached so far.
pub open spec fn spec_split_words_rec(
    s: Seq<char>,
    i: int,
    in_quote: bool,
    quote: char,
    escaped: bool,
    tmp: Seq<char>,
    acc: Seq<Seq<char>>,
) -> Seq<Seq<char>>
    decreases s.len() - i when 0 <= i <= s.len()
{
    if i >= s.len() {
        if tmp.len() != 0 {
            acc.push(tmp)
        } else {
            acc
        }
    } else {
        let c = s[i];
        if escaped || c == '\\' {
            spec_split_words_rec(s, i + 1, in_quote, quote, !escaped, tmp.push(c), acc)
        } else if c == '\'' || c == '"' {
            if c == quote {
                spec_split_words_rec(s, i + 1, !in_quote, ' ', false, tmp.push(c), acc)
            } else if quote == ' ' {
                spec_split_words_rec(s, i + 1, !in_quote, c, false, tmp.push(c), acc)
            } else {
                spec_split_words_rec(s, i + 1, in_quote, quote, false, tmp.push(c), acc)
            }
        } else if in_quote {
            spec_split_words_rec(s, i + 1, in_quote, quote, false, tmp.push(c), acc)
        } else if c == ' ' || c == '\t' {
            if tmp.len() != 0 {
                spec_split_words_rec(s, i + 1, in_quote, quote, false, Seq::empty(), acc.push(tmp))
            } else {
                spec_split_words_rec(s, i + 1, in_quote, quote, false, tmp, acc)
            }
        } else {
            spec_split_words_rec(s, i + 1, in_quote, quote, false, tmp.push(c), acc)
        }
    }
}

/// The words of a line: split on blanks, except inside quotes and after a
/// backslash.
pub open spec fn spec_split_words(s: Seq<char>) -> Seq<Seq<char>> {
    spec_split_words_rec(s, 0, false, ' ', false, Seq::empty(), Seq::empty())
}

/// Splits a line into words; blanks separate, quotes and backslashes protect.
pub fn split_words(s: &str) -> (r: Vec<String>)
    ensures
        r@.map_values(|w: String| w@) == spec_split_words(s@),
{
    let len = s.unicode_len();
    let mut ans: Vec<String> = Vec::new();
    let mut in_quote = false;
    let mut escaped = false;
    let mut quote: char = ' ';
    let mut tmp = String::new();
    let mut i: usize = 0;

    proof {
        assert(ans@.map_values(|w: String| w@) =~= Seq::<Seq<char>>::empty());
        assert(tmp@ =~= Seq::<char>::empty());
    }
    while i < len
        invariant
            i <= len,
            len == s@.len(),
            spec_split_words(s@) == spec_split_words_rec(
                s@,
                i as int,
                in_quote,
                quote,
                escaped,
                tmp@,
                ans@.map_values(|w: String| w@),
            ),
        decreases len - i,
    {
        let c = s.get_char(i);
        if escaped || c == '\\' {
            escaped = !escaped;
            text::push_char(&mut tmp, c);
            i += 1;
            continue ;
        }
        if c == '\'' || c == '"' {
            if c == quote {
                in_quote = !in_quote;
                quote = ' ';
            } else if quote == ' ' {
                in_quote = !in_quote;
                quote = c;
            }
            text::push_char(&mut tmp, c);
            i += 1;
            continue ;
        }
        if in_quote {
            text::push_char(&mut tmp, c);
            i += 1;
            continue ;
        }
        if c == ' ' || c == '\t' {
            if tmp.as_str().unicode_len() != 0 {
                let ghost old_words = ans@.map_values(|w: String| w@);
                ans.push(tmp);
                tmp = String::new();
                proof {
                    assert(ans@.map_values(|w: String| w@) =~= old_words.push(
                        ans@.last()@,
                    ));
                }
            }
        } else {
            text::push_char(&mut tmp, c);
        }
        i += 1;
    }

    if tmp.as_str().unicode_len() != 0 {
        let ghost old_words = ans@.map_values(|w: String| w@);
        ans.push(tmp);
        proof {
            assert(ans@.map_values(|w: String| w@) =~= old_words.push(ans@.last()@));
        }
    }
    ans
}

pub open spec fn is_name_char(c: char) -> bool {
    ('a' <= c && c <= 'z') || ('A' <= c && c <= 'Z') || ('0' <= c && c <= '9') || c == '_'
}

pub open spec fn is_single_special_param(c: char) -> bool {
    c == '$' || c == '?' || c == '*' || c == '@' || c == '#' || c == '-' || c == '!' || c == '_'
        || ('0' <= c && c <= '9')
}

/// A valid parameter name: one special character, a position number, or a
/// run of name characters.
pub open spec fn spec_is_param(s: Seq<char>) -> bool {
    if s.len() == 0 {
        false
    } else if s.len() == 1 && is_single_special_param(s[0]) {
        true
    } else if '0' <= s[0] && s[0] <= '9' {
        forall|j: int| 0 <= j < s.len() ==> '0' <= #[trigger] s[j] && s[j] <= '9'
    } else {
        forall|j: int| 0 <= j < s.len() ==> is_name_char(#[trigger] s[j])
    }
}

/// True when `s` may stand on the left of an assignment or inside `${ }`.
pub fn is_param(s: &String) -> (r: bool)
    ensures
        r == spec_is_param(s@),
{
    let len = s.as_str().unicode_len();
    if len == 0 {
        return false;
    }
    let first = s.as_str().get_char(0);
    if len == 1 {
        if first == '$' || first == '?' || first == '*' || first == '@' || first == '#' || first
            == '-' || first == '!' || first == '_' || ('0' <= first && first <= '9') {
            return true;
        }
    }
    if '0' <= first && first <= '9' {
        let mut j: usize = 1;
        while j < len
            invariant
                1 <= j <= len,
                len == s@.len(),
                '0' <= s@[0] && s@[0] <= '9',
                forall|k: int| 0 <= k < j ==> '0' <= #[trigger] s@[k] && s@[k] <= '9',
            ensures
                j <= len,
                forall|k: int| 0 <= k < j ==> '0' <= #[trigger] s@[k] && s@[k] <= '9',
                j < len ==> !('0' <= s@[j as int] && s@[j as int] <= '9'),
            decreases len - j,
        {
            let c = s.as_str().get_char(j);
            if c < '0' || c > '9' {
                break ;
            }
            j += 1;
        }
        return j == len;
    }
    let mut j: usize = 0;
    while j < len
        invariant
            j <= len,
            len == s@.len(),
            forall|k: int| 0 <= k < j ==> is_name_char(#[trigger] s@[k]),
        ensures
            j <= len,
            forall|k: int| 0 <= k < j ==> is_name_char(#[trigger] s@[k]),
            j < len ==> !is_name_char(s@[j as int]),
        decreases len - j,
    {
        let c = s.as_str().get_char(j);
        if ('a' <= c && c <= 'z') || ('A' <= c && c <= 'Z') || ('0' <= c && c <= '9') || c == '_' {
            j += 1;
        } else {
            break ;
        }
    }
    j == len
}

} // verus!
