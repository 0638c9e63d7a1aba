//! Path arithmetic for the directory builtins: making a path absolute
//! against a home and a working directory, and folding `.` and `..` away.
//! Asking the operating system about the real directory stays with the
//! callers.

use vstd::prelude::*;
use crate::text;

verus! {

/// An absolute form: kept as is when already rooted, spliced onto the
/// home directory after a tilde, hung off the working directory
/// otherwise. A tilde with no home gives the empty path.
pub open spec fn spec_absolute(home: Seq<char>, cwd: Seq<char>, path: Seq<char>) -> Seq<char> {
    if path.len() > 0 && path[0] == '/' {
        path
    } else if path.len() > 0 && path[0] == '~' {
        if home.len() == 0 {
            Seq::empty()
        } else if path.len() >= 2 && path[1] == '/' {
            home + path.skip(1)
        } else {
            home + "/"@ + path.skip(1)
        }
    } else {
        cwd + "/"@ + path
    }
}

/// Makes a path absolute against the given home and working directory.
pub fn make_absolute_path(home: &str, cwd: &str, path_str: &str) -> (r: String)
    ensures
        r@ == spec_absolute(home@, cwd@, path_str@),
{
    let plen = path_str.unicode_len();
    if plen > 0 && path_str.get_char(0) == '/' {
        return String::from_str(path_str);
    }
    if plen > 0 && path_str.get_char(0) == '~' {
        if home.unicode_len() == 0 {
            return String::new();
        }
        let mut out = String::from_str(home);
        if plen >= 2 && path_str.get_char(1) == '/' {
            let tail = text::substring_copy(path_str, 1, plen);
            out.append(tail.as_str());
            assert(out@ =~= home@ + path_str@.skip(1));
        } else {
            text::push_char(&mut out, '/');
            let tail = text::substring_copy(path_str, 1, plen);
            out.append(tail.as_str());
            proof {
                reveal_strlit("/");
                assert(out@ =~= home@ + "/"@ + path_str@.skip(1));
            }
        }
        return out;
    }
    let mut out = String::from_str(cwd);
    text::push_char(&mut out, '/');
    out.append(path_str);
    proof {
        reveal_strlit("/");
        assert(out@ =~= cwd@ + "/"@ + path_str@);
    }
    out
}

/// The pieces between the slashes, empty pieces kept.
pub open spec fn spec_split_slash_rec(
    s: Seq<char>,
    i: int,
    from: int,
    acc: Seq<Seq<char>>,
) -> Seq<Seq<char>>
    decreases s.len() - i when 0 <= i <= s.len() && 0 <= from <= i
{
    if i >= s.len() {
        acc.push(s.subrange(from, s.len() as int))
    } else if s[i] == '/' {
        spec_split_slash_rec(s, i + 1, i + 1, acc.push(s.subrange(from, i)))
    } else {
        spec_split_slash_rec(s, i + 1, from, acc)
    }
}

pub open spec fn spec_split_slash(s: Seq<char>) -> Seq<Seq<char>> {
    spec_split_slash_rec(s, 0, 0, Seq::empty())
}

/// What the canonical fold makes of the first `i` pieces: empty pieces
/// and `.` vanish, `..` removes what came before it, everything else
/// stays.
pub open spec fn spec_canon_fold(segs: Seq<Seq<char>>, i: int) -> Seq<Seq<char>>
    decreases i when 0 <= i <= segs.len()
{
    if i <= 0 {
        Seq::empty()
    } else {
        let acc = spec_canon_fold(segs, i - 1);
        let seg = segs[i - 1];
        if seg.len() == 0 || seg == "."@ {
            acc
        } else if seg == ".."@ {
            if acc.len() > 0 {
                acc.drop_last()
            } else {
                acc
            }
        } else {
            acc.push(seg)
        }
    }
}

/// The canonical, rooted form of a path: a slash, then the surviving
/// pieces joined with slashes.
pub open spec fn spec_canonical(path: Seq<char>) -> Seq<char> {
    "/"@ + text::spec_join(
        spec_canon_fold(spec_split_slash(path), spec_split_slash(path).len() as int),
        "/"@,
    )
}

/// Folds `.` and `..` away and roots the path.
pub fn make_canonical_path(path: &str) -> (r: String)
    ensures
        r@ == spec_canonical(path@),
{
    proof {
        reveal_strlit("/");
        reveal_strlit(".");
        reveal_strlit("..");
    }
    let len = path.unicode_len();
    let mut segs: Vec<String> = Vec::new();
    let mut from: usize = 0;
    let mut i: usize = 0;
    proof {
        assert(segs@.map_values(|w: String| w@) =~= Seq::<Seq<char>>::empty());
    }
    while i < len
        invariant
            0 <= from <= i <= len,
            len == path@.len(),
            spec_split_slash(path@) == spec_split_slash_rec(
                path@,
                i as int,
                from as int,
                segs@.map_values(|w: String| w@),
            ),
        decreases len - i,
    {
        if path.get_char(i) == '/' {
            let ghost before = segs@.map_values(|w: String| w@);
            let piece = text::substring_copy(path, from, i);
            segs.push(piece);
            proof {
                assert(segs@.map_values(|w: String| w@) =~= before.push(path@.subrange(
                    from as int,
                    i as int,
                )));
            }
            from = i + 1;
        }
        i += 1;
    }
    let ghost before = segs@.map_values(|w: String| w@);
    let last = text::substring_copy(path, from, len);
    segs.push(last);
    proof {
        assert(segs@.map_values(|w: String| w@) =~= before.push(path@.subrange(
            from as int,
            len as int,
        )));
        assert(segs@.map_values(|w: String| w@) =~= spec_split_slash(path@));
    }

    let n = segs.len();
    let mut kept: Vec<String> = Vec::new();
    let mut k: usize = 0;
    proof {
        assert(kept@.map_values(|w: String| w@) =~= spec_canon_fold(
            segs@.map_values(|w: String| w@),
            0,
        ));
    }
    while k < n
        invariant
            k <= n,
            n == segs@.len(),
            segs@.map_values(|w: String| w@) == spec_split_slash(path@),
            kept@.map_values(|w: String| w@) == spec_canon_fold(
                segs@.map_values(|w: String| w@),
                k as int,
            ),
        decreases n - k,
    {
        let seg = &segs[k];
        let ghost views = kept@.map_values(|w: String| w@);
        if seg.as_str().unicode_len() == 0 || text::str_eq(seg.as_str(), ".") {
        } else if text::str_eq(seg.as_str(), "..") {
            if kept.len() > 0 {
                kept.pop();
                proof {
                    assert(kept@.map_values(|w: String| w@) =~= views.drop_last());
                }
            }
        } else {
            kept.push(seg.clone());
            proof {
                assert(kept@.map_values(|w: String| w@) =~= views.push(
                    segs@.map_values(|w: String| w@)[k as int],
                ));
            }
        }
        k += 1;
    }

    let joined = text::join_strings(&kept, "/");
    let mut out = String::from_str("/");
    out.append(joined.as_str());
    proof {
        assert(out@ =~= spec_canonical(path@));
    }
    out
}

} // verus!
