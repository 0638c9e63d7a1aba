//! The feeder holds the text that is still to be parsed, together with the
//! backups that let a parser rewind after a failed attempt.
//!
//! Positions handed to and returned by the feeder are character indices into
//! the view of the remaining text.

use vstd::prelude::*;
use crate::text;

verus! {

/// Why no further input line could be read.
#[derive(Debug)]
pub enum InputError {
    Interrupt,
    Eof,
}

/// The exit status a failed line read leaves in `$?`: 2 for an unexpected
/// end of file, 130 for an interrupt.
pub fn input_error_status(e: &InputError) -> (r: i32)
    ensures
        *e is Eof ==> r == 2,
        *e is Interrupt ==> r == 130,
{
    match e {
        InputError::Eof => 2,
        InputError::Interrupt => 130,
    }
}

#[derive(Debug)]
pub struct Feeder {
    remaining: String,
    backup: Vec<String>,
    pub nest: Vec<(String, Vec<String>)>,
    lineno: usize,
}

/// What `add_backup` makes of one stored line: a trailing escaped newline is
/// removed before the new line is appended.
pub open spec fn spec_backup_extended(b: Seq<char>, line: Seq<char>) -> Seq<char> {
    if b.len() >= 2 && b[b.len() - 2] == '\\' && b[b.len() - 1] == '\n' {
        b.take(b.len() - 2) + line
    } else {
        b + line
    }
}

impl Feeder {
    /// The text still to be consumed, as a character sequence.
    pub closed spec fn rem(&self) -> Seq<char> {
        self.remaining@
    }

    /// The stack of saved texts, oldest first.
    pub closed spec fn backups(&self) -> Seq<Seq<char>> {
        self.backup@.map_values(|s: String| s@)
    }

    pub closed spec fn line_count(&self) -> nat {
        self.lineno as nat
    }

    pub fn new(s: &str) -> (f: Feeder)
        ensures
            f.rem() == s@,
            f.backups().len() == 0,
            f.line_count() == 0,
    {
        Feeder {
            remaining: String::from_str(s),
            backup: Vec::new(),
            nest: Vec::new(),
            lineno: 0,
        }
    }

    pub fn lineno(&self) -> (r: usize)
        ensures
            r == self.line_count(),
    {
        self.lineno
    }

    pub fn len(&self) -> (r: usize)
        ensures
            r == self.rem().len(),
    {
        self.remaining.as_str().unicode_len()
    }

    /// Removes the first `cutpos` characters and hands them back.
    pub fn consume(&mut self, cutpos: usize) -> (r: String)
        requires
            cutpos <= old(self).rem().len(),
        ensures
            r@ == old(self).rem().take(cutpos as int),
            final(self).rem() == old(self).rem().skip(cutpos as int),
            final(self).backups() == old(self).backups(),
            final(self).line_count() == old(self).line_count(),
    {
        let len = self.remaining.as_str().unicode_len();
        let cut = text::substring_copy(self.remaining.as_str(), 0, cutpos);
        let rest = text::substring_copy(self.remaining.as_str(), cutpos, len);
        self.remaining = rest;
        assert(cut@ =~= old(self).rem().take(cutpos as int));
        assert(self.rem() =~= old(self).rem().skip(cutpos as int));
        cut
    }

    /// A copy of the first `cutpos` characters, leaving the feeder unchanged.
    pub fn refer(&self, cutpos: usize) -> (r: String)
        requires
            cutpos <= self.rem().len(),
        ensures
            r@ == self.rem().take(cutpos as int),
    {
        let r = text::substring_copy(self.remaining.as_str(), 0, cutpos);
        assert(r@ =~= self.rem().take(cutpos as int));
        r
    }

    pub fn set_backup(&mut self)
        ensures
            final(self).rem() == old(self).rem(),
            final(self).backups() == old(self).backups().push(old(self).rem()),
            final(self).line_count() == old(self).line_count(),
    {
        let copy = self.remaining.clone();
        self.backup.push(copy);
        assert(self.backups() =~= old(self).backups().push(old(self).rem()));
    }

    pub fn pop_backup(&mut self)
        requires
            old(self).backups().len() > 0,
        ensures
            final(self).rem() == old(self).rem(),
            final(self).backups() == old(self).backups().drop_last(),
            final(self).line_count() == old(self).line_count(),
    {
        self.backup.pop();
        assert(self.backups() =~= old(self).backups().drop_last());
    }

    /// Appends a freshly read line to every saved text, undoing a trailing
    /// escaped newline first.
    pub fn add_backup(&mut self, line: &str)
        ensures
            final(self).rem() == old(self).rem(),
            final(self).backups().len() == old(self).backups().len(),
            forall|i: int|
                0 <= i < old(self).backups().len() ==> final(self).backups()[i]
                    == spec_backup_extended(old(self).backups()[i], line@),
            final(self).line_count() == old(self).line_count(),
    {
        let n = self.backup.len();
        let mut i: usize = 0;
        while i < n
            invariant
                n == self.backup.len(),
                i <= n,
                self.remaining == old(self).remaining,
                self.lineno == old(self).lineno,
                self.nest == old(self).nest,
                old(self).backups().len() == n,
                forall|j: int|
                    0 <= j < i ==> self.backup@.map_values(|s: String| s@)[j]
                        == spec_backup_extended(old(self).backups()[j], line@),
                forall|j: int| i <= j < n ==> self.backup@[j] == old(self).backup@[j],
            decreases n - i,
        {
            let blen = self.backup[i].as_str().unicode_len();
            let mut b = if blen >= 2 && self.backup[i].as_str().get_char(blen - 2) == '\\'
                && self.backup[i].as_str().get_char(blen - 1) == '\n' {
                text::substring_copy(self.backup[i].as_str(), 0, blen - 2)
            } else {
                self.backup[i].clone()
            };
            proof {
                assert(b@ =~= spec_backup_extended(old(self).backups()[i as int], line@).take(
                    b@.len() as int,
                ));
            }
            b.append(line);
            assert(b@ =~= spec_backup_extended(old(self).backups()[i as int], line@));
            self.backup.set(i, b);
            i += 1;
        }
    }

    /// Restores the most recent backup as the remaining text.
    pub fn rewind(&mut self)
        requires
            old(self).backups().len() > 0,
        ensures
            final(self).rem() == old(self).backups().last(),
            final(self).backups() == old(self).backups().drop_last(),
            final(self).line_count() == old(self).line_count(),
    {
        let last = self.backup.pop();
        match last {
            Some(s) => {
                self.remaining = s;
            },
            None => {
                assert(false);
            },
        }
        assert(self.backups() =~= old(self).backups().drop_last());
    }

    /// Appends one input line to the remaining text, counting lines.
    pub fn add_line(&mut self, line: String)
        requires
            old(self).line_count() < usize::MAX,
        ensures
            final(self).rem() == old(self).rem() + line@,
            final(self).backups() == old(self).backups(),
            final(self).line_count() == old(self).line_count() + 1,
    {
        self.lineno += 1;
        self.remaining.append(line.as_str());
    }

    /// Replaces the first `num` characters with the given text.
    pub fn replace(&mut self, num: usize, to: &str)
        requires
            num <= old(self).rem().len(),
        ensures
            final(self).rem() == to@ + old(self).rem().skip(num as int),
            final(self).backups() == old(self).backups(),
            final(self).line_count() == old(self).line_count(),
    {
        self.consume(num);
        let mut head = String::from_str(to);
        head.append(self.remaining.as_str());
        self.remaining = head;
    }

    pub fn starts_with(&self, s: &str) -> (r: bool)
        ensures
            r == s@.is_prefix_of(self.rem()),
    {
        text::str_has_prefix(self.remaining.as_str(), s)
    }

    /// The character at position `i`.
    pub fn nth(&self, i: usize) -> (r: char)
        requires
            i < self.rem().len(),
        ensures
            r == self.rem()[i as int],
    {
        self.remaining.as_str().get_char(i)
    }

    /// True when position `i` exists and holds the first character of `s`.
    pub fn nth_is(&self, i: usize, s: &str) -> (r: bool)
        ensures
            r == (s@.len() > 0 && i < self.rem().len() && self.rem()[i as int] == s@[0]),
    {
        let len = self.remaining.as_str().unicode_len();
        if s.unicode_len() == 0 || i >= len {
            return false;
        }
        self.remaining.as_str().get_char(i) == s.get_char(0)
    }

    /// True when the text starting at `from` begins with `s`.
    pub fn compare(&self, from: usize, s: &str) -> (r: bool)
        ensures
            r == (from + s@.len() <= self.rem().len() && s@.is_prefix_of(
                self.rem().skip(from as int),
            )),
    {
        let len = self.remaining.as_str().unicode_len();
        if from > len {
            return false;
        }
        let tail = self.remaining.as_str().substring_char(from, len);
        assert(tail@ =~= self.rem().skip(from as int));
        text::str_has_prefix(tail, s)
    }
}

} // verus!
