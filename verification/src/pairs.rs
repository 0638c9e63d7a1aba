//! Association lists keyed by strings: the storage behind scope layers,
//! associative arrays, aliases and the environment model. A key occurs at
//! most once as far as `pairs_set` is used to write; lookups always take the
//! first match, so the functions are well defined on any list.

use vstd::prelude::*;
use crate::text;

verus! {

/// Index of the first entry with the given key, or -1.
pub open spec fn spec_pairs_idx<V>(s: Seq<(String, V)>, key: Seq<char>) -> int
    decreases s.len(),
{
    if s.len() == 0 {
        -1
    } else if s[0].0@ == key {
        0
    } else {
        let r = spec_pairs_idx(s.skip(1), key);
        if r < 0 {
            -1
        } else {
            r + 1
        }
    }
}

pub open spec fn spec_pairs_has<V>(s: Seq<(String, V)>, key: Seq<char>) -> bool {
    spec_pairs_idx(s, key) >= 0
}

/// Value of the first entry with the given key.
pub open spec fn spec_pairs_get<V>(s: Seq<(String, V)>, key: Seq<char>) -> Option<V> {
    if spec_pairs_idx(s, key) >= 0 {
        Some(s[spec_pairs_idx(s, key)].1)
    } else {
        None
    }
}

pub proof fn lemma_pairs_idx_props<V>(s: Seq<(String, V)>, key: Seq<char>)
    ensures
        spec_pairs_idx(s, key) == -1 || (0 <= spec_pairs_idx(s, key) < s.len()),
        spec_pairs_idx(s, key) >= 0 ==> s[spec_pairs_idx(s, key)].0@ == key,
        forall|j: int|
            0 <= j < s.len() && (spec_pairs_idx(s, key) == -1 || j < spec_pairs_idx(s, key))
                ==> (#[trigger] s[j]).0@ != key,
    decreases s.len(),
{
    if s.len() > 0 {
        if s[0].0@ != key {
            lemma_pairs_idx_props(s.skip(1), key);
            assert(forall|j: int| 1 <= j < s.len() ==> s[j] == s.skip(1)[j - 1]);
        }
    }
}

/// Replacing the value at some position leaves every lookup index as it was.
pub proof fn lemma_pairs_idx_update<V>(s: Seq<(String, V)>, i: int, v: V, key: Seq<char>)
    requires
        0 <= i < s.len(),
    ensures
        spec_pairs_idx(s.update(i, (s[i].0, v)), key) == spec_pairs_idx(s, key),
    decreases s.len(),
{
    let s2 = s.update(i, (s[i].0, v));
    if i == 0 {
        assert(s2[0].0 == s[0].0);
        if s[0].0@ != key {
            assert(s2.skip(1) =~= s.skip(1));
        }
    } else {
        assert(s2[0] == s[0]);
        if s[0].0@ != key {
            assert(s2.skip(1) =~= s.skip(1).update(i - 1, (s.skip(1)[i - 1].0, v)));
            lemma_pairs_idx_update(s.skip(1), i - 1, v, key);
        }
    }
}

/// Appending an entry changes lookups only for its own key, and only when
/// that key was absent.
pub proof fn lemma_pairs_idx_push<V>(s: Seq<(String, V)>, p: (String, V), key: Seq<char>)
    ensures
        spec_pairs_idx(s, key) >= 0 ==> spec_pairs_idx(s.push(p), key) == spec_pairs_idx(s, key),
        spec_pairs_idx(s, key) == -1 && p.0@ == key ==> spec_pairs_idx(s.push(p), key)
            == s.len(),
        spec_pairs_idx(s, key) == -1 && p.0@ != key ==> spec_pairs_idx(s.push(p), key) == -1,
    decreases s.len(),
{
    if s.len() == 0 {
        assert(s.push(p)[0] == p);
        assert(s.push(p).skip(1) =~= Seq::<(String, V)>::empty());
        assert(spec_pairs_idx(Seq::<(String, V)>::empty(), key) == -1);
        if p.0@ != key {
            assert(spec_pairs_idx(s.push(p), key) == -1);
        }
    } else {
        assert(s.push(p)[0] == s[0]);
        if s[0].0@ != key {
            assert(s.push(p).skip(1) =~= s.skip(1).push(p));
            lemma_pairs_idx_push(s.skip(1), p, key);
            assert(spec_pairs_idx(s, key) == (if spec_pairs_idx(s.skip(1), key) < 0 {
                -1int
            } else {
                spec_pairs_idx(s.skip(1), key) + 1
            }));
        }
    }
}

/// Finds the first entry with the given key.
pub fn pairs_find<V>(v: &Vec<(String, V)>, key: &str) -> (r: Option<usize>)
    ensures
        match r {
            Some(i) => spec_pairs_idx(v@, key@) == i && i < v@.len() && v@[i as int].0@ == key@,
            None => spec_pairs_idx(v@, key@) == -1,
        },
{
    proof {
        lemma_pairs_idx_props(v@, key@);
    }
    let n = v.len();
    let mut i: usize = 0;
    while i < n
        invariant
            i <= n,
            n == v@.len(),
            forall|j: int| 0 <= j < i ==> (#[trigger] v@[j]).0@ != key@,
        ensures
            i <= n,
            forall|j: int| 0 <= j < i ==> (#[trigger] v@[j]).0@ != key@,
            i < n ==> v@[i as int].0@ == key@,
        decreases n - i,
    {
        if text::str_eq(v[i].0.as_str(), key) {
            break ;
        }
        i += 1;
    }
    if i < n {
        proof {
            lemma_pairs_idx_first_match(v@, i as int, key@);
        }
        Some(i)
    } else {
        proof {
            lemma_pairs_idx_no_match(v@, key@);
        }
        None
    }
}

pub proof fn lemma_pairs_idx_first_match<V>(s: Seq<(String, V)>, i: int, key: Seq<char>)
    requires
        0 <= i < s.len(),
        s[i].0@ == key,
        forall|j: int| 0 <= j < i ==> (#[trigger] s[j]).0@ != key,
    ensures
        spec_pairs_idx(s, key) == i,
    decreases i,
{
    if i > 0 {
        assert(forall|j: int| 1 <= j < s.len() ==> s.skip(1)[j - 1] == s[j]);
        lemma_pairs_idx_first_match(s.skip(1), i - 1, key);
    }
}

pub proof fn lemma_pairs_idx_no_match<V>(s: Seq<(String, V)>, key: Seq<char>)
    requires
        forall|j: int| 0 <= j < s.len() ==> (#[trigger] s[j]).0@ != key,
    ensures
        spec_pairs_idx(s, key) == -1,
    decreases s.len(),
{
    if s.len() > 0 {
        assert(forall|j: int| 1 <= j < s.len() ==> s.skip(1)[j - 1] == s[j]);
        lemma_pairs_idx_no_match(s.skip(1), key);
    }
}

/// Binds `key` to `val`: overwrites the first entry with that key, or
/// appends a new one.
pub fn pairs_set(v: &mut Vec<(String, String)>, key: &str, val: &str)
    ensures
        spec_pairs_get(final(v)@, key@) matches Some(s) && s@ == val@,
        forall|k: Seq<char>|
            k != key@ ==> #[trigger] spec_pairs_opt_view(final(v)@, k) == spec_pairs_opt_view(
                old(v)@,
                k,
            ),
        final(v)@.len() == old(v)@.len() || final(v)@.len() == old(v)@.len() + 1,
{
    let found = pairs_find(v, key);
    match found {
        Some(i) => {
            let key_copy = v[i].0.clone();
            let ghost old_seq = v@;
            v.set(i, (key_copy, String::from_str(val)));
            proof {
                assert(v@[i as int].0 == old_seq[i as int].0);
                assert(v@ =~= old_seq.update(i as int, (old_seq[i as int].0, v@[i as int].1)));
                lemma_pairs_idx_props(old_seq, key@);
                assert forall|k: Seq<char>| k != key@ implies #[trigger] spec_pairs_opt_view(
                    v@,
                    k,
                ) == spec_pairs_opt_view(old_seq, k) by {
                    lemma_pairs_idx_update(old_seq, i as int, v@[i as int].1, k);
                    if spec_pairs_idx(old_seq, k) >= 0 {
                        lemma_pairs_idx_props(old_seq, k);
                        if spec_pairs_idx(old_seq, k) == i {
                            assert(old_seq[i as int].0@ == k);
                            assert(false);
                        }
                    }
                }
                lemma_pairs_idx_update(old_seq, i as int, v@[i as int].1, key@);
            }
        },
        None => {
            let ghost old_seq = v@;
            v.push((String::from_str(key), String::from_str(val)));
            proof {
                let p = v@.last();
                assert(v@ =~= old_seq.push(p));
                lemma_pairs_idx_push(old_seq, p, key@);
                assert forall|k: Seq<char>| k != key@ implies #[trigger] spec_pairs_opt_view(
                    v@,
                    k,
                ) == spec_pairs_opt_view(old_seq, k) by {
                    lemma_pairs_idx_push(old_seq, p, k);
                    lemma_pairs_idx_props(old_seq, k);
                    lemma_pairs_idx_props(v@, k);
                }
            }
        },
    }
}

/// The looked-up value as a character sequence, `None` when absent: the
/// form in which contracts quantify over other keys.
pub open spec fn spec_pairs_opt_view(s: Seq<(String, String)>, key: Seq<char>) -> Option<
    Seq<char>,
> {
    match spec_pairs_get(s, key) {
        Some(v) => Some(v@),
        None => None,
    }
}

/// A copy of the looked-up value.
pub fn pairs_get_copy(v: &Vec<(String, String)>, key: &str) -> (r: Option<String>)
    ensures
        match r {
            Some(s) => spec_pairs_opt_view(v@, key@) == Some(s@),
            None => spec_pairs_opt_view(v@, key@) is None,
        },
{
    proof {
        lemma_pairs_idx_props(v@, key@);
    }
    match pairs_find(v, key) {
        Some(i) => Some(v[i].1.clone()),
        None => None,
    }
}

/// Removing the first entry of `key` leaves every other key's lookup as it
/// was.
pub proof fn lemma_pairs_remove_preserves<V>(s: Seq<(String, V)>, key: Seq<char>, k: Seq<char>)
    requires
        spec_pairs_idx(s, key) >= 0,
        k != key,
    ensures
        spec_pairs_get(s.remove(spec_pairs_idx(s, key)), k) == spec_pairs_get(s, k),
    decreases s.len(),
{
    let i = spec_pairs_idx(s, key);
    lemma_pairs_idx_props(s, key);
    lemma_pairs_idx_props(s, k);
    lemma_pairs_idx_props(s.remove(i), k);
    assert(forall|j: int| 0 <= j < s.len() - 1 ==> s.skip(1)[j] == s[j + 1]);
    if i == 0 {
        assert(s.remove(0) =~= s.skip(1));
        if spec_pairs_idx(s.skip(1), k) >= 0 {
            lemma_pairs_idx_props(s.skip(1), k);
            assert(spec_pairs_idx(s, k) == spec_pairs_idx(s.skip(1), k) + 1);
            assert(s[spec_pairs_idx(s, k)] == s.skip(1)[spec_pairs_idx(s.skip(1), k)]);
        } else {
            assert(spec_pairs_idx(s, k) == -1);
        }
    } else {
        assert(s.remove(i)[0] == s[0]);
        if s[0].0@ == k {
            assert(spec_pairs_idx(s, k) == 0);
            assert(spec_pairs_idx(s.remove(i), k) == 0);
        } else {
            assert(s.remove(i).skip(1) =~= s.skip(1).remove(i - 1));
            assert(spec_pairs_idx(s.skip(1), key) == i - 1);
            lemma_pairs_remove_preserves(s.skip(1), key, k);
            let r1 = spec_pairs_idx(s.skip(1), k);
            let r2 = spec_pairs_idx(s.skip(1).remove(i - 1), k);
            if r1 >= 0 {
                lemma_pairs_idx_props(s.skip(1), k);
                lemma_pairs_idx_props(s.skip(1).remove(i - 1), k);
                assert(spec_pairs_idx(s, k) == r1 + 1);
                assert(spec_pairs_idx(s.remove(i), k) == r2 + 1);
                assert(s[spec_pairs_idx(s, k)] == s.skip(1)[r1]);
                assert(s.remove(i)[spec_pairs_idx(s.remove(i), k)] == s.skip(1).remove(i - 1)[r2]);
            } else {
                assert(spec_pairs_idx(s, k) == -1);
                assert(r2 == -1);
                assert(spec_pairs_idx(s.remove(i), k) == -1);
            }
        }
    }
}

/// Removes the first entry with the given key, if any; reports whether one
/// was there.
pub fn pairs_remove<V>(v: &mut Vec<(String, V)>, key: &str) -> (r: bool)
    ensures
        r == spec_pairs_has(old(v)@, key@),
        r ==> final(v)@ == old(v)@.remove(spec_pairs_idx(old(v)@, key@)),
        !r ==> final(v)@ == old(v)@,
{
    match pairs_find(v, key) {
        Some(i) => {
            proof {
                lemma_pairs_idx_props(v@, key@);
            }
            v.remove(i);
            true
        },
        None => false,
    }
}

/// Removes every entry with the given key; other keys keep their first
/// bindings.
pub fn pairs_remove_all<V>(v: &mut Vec<(String, V)>, key: &str)
    ensures
        spec_pairs_idx(final(v)@, key@) == -1,
        forall|k: Seq<char>|
            k != key@ ==> #[trigger] spec_pairs_get(final(v)@, k) == spec_pairs_get(old(v)@, k),
        final(v)@.len() <= old(v)@.len(),
{
    loop
        invariant
            forall|k: Seq<char>|
                k != key@ ==> #[trigger] spec_pairs_get(v@, k) == spec_pairs_get(old(v)@, k),
            v@.len() <= old(v)@.len(),
        ensures
            spec_pairs_idx(v@, key@) == -1,
            forall|k: Seq<char>|
                k != key@ ==> #[trigger] spec_pairs_get(v@, k) == spec_pairs_get(old(v)@, k),
            v@.len() <= old(v)@.len(),
        decreases v@.len(),
    {
        let ghost before = v@;
        match pairs_find(v, key) {
            Some(i) => {
                proof {
                    lemma_pairs_idx_props(v@, key@);
                }
                v.remove(i);
                proof {
                    assert forall|k: Seq<char>| k != key@ implies #[trigger] spec_pairs_get(
                        v@,
                        k,
                    ) == spec_pairs_get(before, k) by {
                        lemma_pairs_remove_preserves(before, key@, k);
                    }
                }
            },
            None => {
                break ;
            },
        }
    }
}

} // verus!
