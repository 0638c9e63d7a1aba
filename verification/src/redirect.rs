//! Redirections: parsing `<`, `>` and `>>` with their targets. Opening
//! files and moving descriptors is the callers' business.

use vstd::prelude::*;
use crate::feeder::Feeder;
use crate::scanner;

verus! {

#[derive(Debug, Default)]
pub struct Redirect {
    pub text: String,
    pub symbol: String,
    pub right: String,
}

/// How many characters of redirection symbol stand at the front: `>>`
/// first, then `<` or `>`.
pub open spec fn spec_redirect_symbol_len(s: Seq<char>) -> int {
    if s.len() >= 2 && s[0] == '>' && s[1] == '>' {
        2
    } else if s.len() >= 1 && (s[0] == '<' || s[0] == '>') {
        1
    } else {
        0
    }
}

impl Redirect {
    pub fn new() -> (r: Redirect)
        ensures
            r.text@.len() == 0,
            r.symbol@.len() == 0,
            r.right@.len() == 0,
    {
        Redirect { text: String::new(), symbol: String::new(), right: String::new() }
    }

    /// Takes the redirection symbol; false when none is there.
    pub fn eat_symbol(feeder: &mut Feeder, ans: &mut Redirect) -> (r: bool)
        ensures
            r == (spec_redirect_symbol_len(old(feeder).rem()) > 0),
            final(feeder).rem() == old(feeder).rem().skip(
                spec_redirect_symbol_len(old(feeder).rem()),
            ),
            final(ans).symbol@ == old(feeder).rem().take(
                spec_redirect_symbol_len(old(feeder).rem()),
            ),
            final(ans).text@ == old(ans).text@ + old(feeder).rem().take(
                spec_redirect_symbol_len(old(feeder).rem()),
            ),
            final(ans).right == old(ans).right,
            final(feeder).backups() == old(feeder).backups(),
    {
        let len = feeder.len();
        let symlen: usize = if len >= 2 && feeder.nth(0) == '>' && feeder.nth(1) == '>' {
            2
        } else if len >= 1 && (feeder.nth(0) == '<' || feeder.nth(0) == '>') {
            1
        } else {
            0
        };
        let eaten = feeder.consume(symlen);
        ans.text.append(eaten.as_str());
        ans.symbol = eaten;
        proof {
            if symlen == 0 {
                assert(old(feeder).rem().skip(0) =~= old(feeder).rem());
            }
        }
        symlen != 0
    }

    /// Takes the blank-separated target word; false when none follows.
    pub fn eat_right(feeder: &mut Feeder, ans: &mut Redirect) -> (r: bool)
        ensures
            old(feeder).rem() == (final(ans).text@.skip(old(ans).text@.len() as int)) + final(feeder).rem(),
            final(ans).text@.len() >= old(ans).text@.len(),
            final(ans).text@.take(old(ans).text@.len() as int) == old(ans).text@,
            final(ans).symbol == old(ans).symbol,
            r == (final(ans).right@.len() > 0),
            final(feeder).backups() == old(feeder).backups(),
    {
        let ghost w0 = feeder.rem();
        let ghost t0 = ans.text@;
        proof {
            assert(ans.text@.take(t0.len() as int) =~= t0);
        }
        let blank_len = scanner::scanner_blank(feeder, 0);
        let ghost r0 = feeder.rem();
        let blanks = feeder.consume(blank_len);
        ans.text.append(blanks.as_str());
        proof {
            assert(r0 =~= r0.take(blank_len as int) + r0.skip(blank_len as int));
            assert(w0 =~= ans.text@.skip(t0.len() as int) + feeder.rem());
        }
        let word_len = scanner::scanner_until_escape(feeder, 0, " \n\t;&|<>()");
        let ghost r1 = feeder.rem();
        let word = feeder.consume(word_len);
        ans.text.append(word.as_str());
        ans.right = word;
        proof {
            assert(r1 =~= r1.take(word_len as int) + r1.skip(word_len as int));
            assert(w0 =~= ans.text@.skip(t0.len() as int) + feeder.rem());
            assert(ans.text@.take(t0.len() as int) =~= t0);
        }
        ans.right.as_str().unicode_len() != 0
    }

    /// Parses one redirection; with no symbol or no target the feeder is
    /// left untouched.
    pub fn parse(feeder: &mut Feeder) -> (r: Option<Redirect>)
        ensures
            r matches Some(a) ==> old(feeder).rem() == a.text@ + final(feeder).rem()
                && a.text@.len() > 0 && a.symbol@.len() > 0 && a.right@.len() > 0,
            r is None ==> final(feeder).rem() == old(feeder).rem() && final(feeder).backups()
                == old(feeder).backups(),
    {
        feeder.set_backup();
        let mut ans = Redirect::new();
        let got_symbol = Self::eat_symbol(feeder, &mut ans);
        if !got_symbol {
            feeder.rewind();
            return None;
        }
        let got_right = Self::eat_right(feeder, &mut ans);
        if !got_right {
            feeder.rewind();
            return None;
        }
        feeder.pop_backup();
        proof {
            let w0 = old(feeder).rem();
            let k = spec_redirect_symbol_len(w0);
            assert(w0 =~= w0.take(k) + w0.skip(k));
            assert(ans.text@ =~= ans.text@.take(k) + ans.text@.skip(k));
            assert(ans.text@.take(k) =~= w0.take(k));
            assert(w0 =~= ans.text@ + feeder.rem());
            assert(old(feeder).backups().push(w0).drop_last() =~= old(feeder).backups());
        }
        Some(ans)
    }
}

} // verus!
