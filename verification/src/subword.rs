//! The smallest pieces of a word, and the splitting of expanded text into
//! fields.

use vstd::prelude::*;
use crate::text;

verus! {

/// What kind of piece of a word a subword is.
#[derive(Debug, Clone, Copy, PartialEq, Eq, Structural)]
pub enum SubwordType {
    BracedParameter,
    CommandSubstitution,
    Parameter,
    VarName,
    SingleQuoted,
    DoubleQuoted,
    EscapedChar,
    Other,
}

/// A subword that carries only its text: quoted runs, escaped characters,
/// symbols and plain characters.
#[derive(Debug)]
pub struct SimpleSubword {
    pub text: String,
    pub subword_type: SubwordType,
}

impl SimpleSubword {
    pub open spec fn kind(&self) -> SubwordType {
        self.subword_type
    }

    pub fn new(s: &str, tp: SubwordType) -> (r: SimpleSubword)
        ensures
            r.text@ == s@,
            r.kind() == tp,
    {
        SimpleSubword { text: String::from_str(s), subword_type: tp }
    }

    pub fn get_text(&self) -> (r: &str)
        ensures
            r@ == self.text@,
    {
        self.text.as_str()
    }

    /// Appends the right neighbour's text to this one.
    pub fn merge(&mut self, right: &SimpleSubword)
        ensures
            final(self).text@ == old(self).text@ + right.text@,
            final(self).kind() == old(self).kind(),
    {
        self.text.append(right.text.as_str());
    }

    /// Removes the backslash of an escaped character; other kinds keep
    /// their text.
    pub fn unquote(&mut self)
        ensures
            old(self).kind() == SubwordType::EscapedChar && old(self).text@.len() > 0
                ==> final(self).text@ == old(self).text@.skip(1),
            !(old(self).kind() == SubwordType::EscapedChar && old(self).text@.len() > 0)
                ==> final(self).text@ == old(self).text@,
            final(self).kind() == old(self).kind(),
    {
        if matches!(self.subword_type, SubwordType::EscapedChar) {
            let len = self.text.as_str().unicode_len();
            if len > 0 {
                self.text = text::substring_copy(self.text.as_str(), 1, len);
            }
        }
    }
}

/// One step of field splitting: the fields of `s` from position `i` on,
/// with the piece built so far and the fields already cut. Splitting cuts
/// at blanks and newlines, except right after a backslash; the cut
/// character is dropped and empty fields are kept.
pub open spec fn spec_split_str_rec(
    s: Seq<char>,
    i: int,
    escaped: bool,
    from: int,
    acc: Seq<Seq<char>>,
) -> Seq<Seq<char>>
    decreases s.len() - i when 0 <= i <= s.len() && 0 <= from <= i
{
    if i >= s.len() {
        acc.push(s.subrange(from, s.len() as int))
    } else {
        let c = s[i];
        if escaped || c == '\\' {
            spec_split_str_rec(s, i + 1, !escaped, from, acc)
        } else if c == ' ' || c == '\t' || c == '\n' {
            spec_split_str_rec(s, i + 1, false, i + 1, acc.push(s.subrange(from, i)))
        } else {
            spec_split_str_rec(s, i + 1, false, from, acc)
        }
    }
}

/// The fields of an expanded word.
pub open spec fn spec_split_str(s: Seq<char>) -> Seq<Seq<char>> {
    spec_split_str_rec(s, 0, false, 0, Seq::empty())
}

/// Splits expanded text into fields at unescaped blanks and newlines.
pub fn split_str(s: &str) -> (r: Vec<String>)
    ensures
        r@.map_values(|w: String| w@) == spec_split_str(s@),
{
    let len = s.unicode_len();
    let mut ans: Vec<String> = Vec::new();
    let mut esc = false;
    let mut from: usize = 0;
    let mut i: usize = 0;
    proof {
        assert(ans@.map_values(|w: String| w@) =~= Seq::<Seq<char>>::empty());
    }
    while i < len
        invariant
            0 <= from <= i <= len,
            len == s@.len(),
            spec_split_str(s@) == spec_split_str_rec(
                s@,
                i as int,
                esc,
                from as int,
                ans@.map_values(|w: String| w@),
            ),
        decreases len - i,
    {
        let c = s.get_char(i);
        if esc || c == '\\' {
            esc = !esc;
            i += 1;
            continue ;
        }
        if c == ' ' || c == '\t' || c == '\n' {
            let ghost before = ans@.map_values(|w: String| w@);
            let piece = text::substring_copy(s, from, i);
            ans.push(piece);
            proof {
                assert(ans@.map_values(|w: String| w@) =~= before.push(s@.subrange(
                    from as int,
                    i as int,
                )));
            }
            from = i + 1;
        }
        i += 1;
    }
    let ghost before = ans@.map_values(|w: String| w@);
    let last = text::substring_copy(s, from, len);
    ans.push(last);
    proof {
        assert(ans@.map_values(|w: String| w@) =~= before.push(s@.subrange(
            from as int,
            len as int,
        )));
    }
    ans
}

} // verus!
