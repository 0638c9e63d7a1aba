//! Time-backed dynamic variables: SECONDS, EPOCHSECONDS and EPOCHREALTIME.
//! The SECONDS seed is written once, at registration, and never changed.

use vstd::prelude::*;
use crate::sys;
use crate::text;
use crate::variable::{SingleData, Value, Variable};

verus! {

/// The seed for SECONDS: the monotonic clock at shell start, as
/// "seconds.nanoseconds".
pub fn seconds_seed() -> (r: String) {
    match sys::clock_monotonic() {
        Some((s, n)) => {
            let mut out = text::i64_to_string(s);
            text::push_char(&mut out, '.');
            let nanos = text::i64_to_string(n);
            out.append(nanos.as_str());
            out
        },
        None => String::from_str("0.0"),
    }
}

/// Where the first dot of a seed stands; the length when there is none.
pub open spec fn spec_dot_pos(s: Seq<char>, i: int) -> int
    decreases s.len() - i when 0 <= i <= s.len()
{
    if i >= s.len() {
        i
    } else if s[i] == '.' {
        i
    } else {
        spec_dot_pos(s, i + 1)
    }
}

proof fn lemma_dot_pos_range(s: Seq<char>, i: int)
    requires
        0 <= i <= s.len(),
    ensures
        i <= spec_dot_pos(s, i) <= s.len(),
    decreases s.len() - i,
{
    if i < s.len() && s[i] != '.' {
        lemma_dot_pos_range(s, i + 1);
    }
}

/// Splits a "seconds.nanoseconds" seed at its first dot; each missing or
/// unreadable half counts as zero.
fn split_seed(s: &str) -> (r: (i64, i64))
    ensures
        ({
            let d = spec_dot_pos(s@, 0);
            &&& r.0 == (if d > 0 && text::spec_parses_i64(s@.take(d)) {
                text::spec_i64_value(s@.take(d))
            } else {
                0int
            })
            &&& r.1 == (if d < s@.len() && text::spec_parses_i64(s@.skip(d + 1)) {
                text::spec_i64_value(s@.skip(d + 1))
            } else {
                0int
            })
        }),
{
    proof {
        lemma_dot_pos_range(s@, 0);
    }
    let len = s.unicode_len();
    let mut i: usize = 0;
    while i < len
        invariant
            i <= len,
            len == s@.len(),
            spec_dot_pos(s@, 0) == spec_dot_pos(s@, i as int),
        ensures
            i <= len,
            spec_dot_pos(s@, 0) == i,
        decreases len - i,
    {
        if s.get_char(i) == '.' {
            break ;
        }
        i += 1;
    }
    let dot = i;
    let sec = if dot > 0 {
        match text::parse_i64(s.substring_char(0, dot)) {
            Some(v) => v,
            None => 0,
        }
    } else {
        0
    };
    let nano = if dot < len {
        match text::parse_i64(s.substring_char(dot + 1, len)) {
            Some(v) => v,
            None => 0,
        }
    } else {
        0
    };
    proof {
        if dot > 0 {
            assert(s@.subrange(0, dot as int) =~= s@.take(dot as int));
        }
        if dot < len {
            assert(s@.subrange(dot + 1, len as int) =~= s@.skip(dot + 1));
        }
    }
    (sec, nano)
}

/// Whole elapsed seconds between a seed instant and now; zero when the
/// difference leaves the representable range.
fn elapsed_seconds(seed_sec: i64, seed_nano: i64, now_sec: i64, now_nano: i64) -> (r: i64)
    ensures
        ({
            let d = now_sec - seed_sec - (if now_nano < seed_nano {
                1int
            } else {
                0int
            });
            &&& (i64::MIN <= d <= i64::MAX ==> r == d)
            &&& (!(i64::MIN <= d <= i64::MAX) ==> r == 0)
        }),
{
    let diff: i128 = now_sec as i128 - seed_sec as i128 - (if now_nano < seed_nano {
        1i128
    } else {
        0i128
    });
    if diff >= i64::MIN as i128 && diff <= i64::MAX as i128 {
        diff as i64
    } else {
        0
    }
}

/// The SECONDS getter: whole seconds since the instant stored in the seed.
pub fn get_seconds(v: &Variable) -> (r: Value)
    ensures
        v.value is Special ==> r is Single,
        !(v.value is Special) ==> r is Unset,
{
    match &v.value {
        Value::Special(sd) => {
            let (seed_sec, seed_nano) = split_seed(sd.data.as_str());
            let (now_sec, now_nano) = match sys::clock_monotonic() {
                Some(pair) => pair,
                None => (0, 0),
            };
            let sec = elapsed_seconds(seed_sec, seed_nano, now_sec, now_nano);
            Value::Single(SingleData { data: text::i64_to_string(sec) })
        },
        _ => Value::Unset,
    }
}

/// The EPOCHSECONDS getter: whole seconds since the epoch.
pub fn get_epochseconds() -> (r: Value)
    ensures
        r is Single,
{
    let sec = match sys::clock_realtime() {
        Some((s, _)) => s,
        None => 0,
    };
    Value::Single(SingleData { data: text::i64_to_string(sec) })
}

/// A digit run grown to six places with leading zeros.
pub open spec fn spec_zero_pad6(d: Seq<char>) -> Seq<char> {
    if d.len() >= 6 {
        d
    } else {
        Seq::new((6 - d.len()) as nat, |i: int| '0') + d
    }
}

/// The "seconds.microseconds" text of a realtime clock pair: the whole
/// seconds, a dot, then six zero-padded digits of microseconds (an
/// out-of-range nanosecond field counts as zero).
pub open spec fn spec_epoch_realtime_string(sec: int, nano: int) -> Seq<char> {
    let micro = if 0 <= nano < 1_000_000_000 {
        nano / 1000
    } else {
        0
    };
    text::spec_int_string(sec) + "."@ + spec_zero_pad6(text::spec_nat_digits(micro as nat))
}

/// Renders a realtime clock pair the way EPOCHREALTIME shows it.
pub fn epoch_realtime_string(sec: i64, nano: i64) -> (r: String)
    ensures
        r@ == spec_epoch_realtime_string(sec as int, nano as int),
{
    proof {
        reveal_strlit(".");
    }
    let micro: i64 = if 0 <= nano && nano < 1_000_000_000 {
        nano / 1000
    } else {
        0
    };
    let digits = text::i64_to_string(micro);
    let ghost dv = digits@;
    let mut out = text::i64_to_string(sec);
    text::push_char(&mut out, '.');
    let ghost base = out@;
    proof {
        assert(base =~= text::spec_int_string(sec as int) + "."@);
    }
    let dlen = digits.as_str().unicode_len();
    let z0: usize = if dlen < 6 {
        6 - dlen
    } else {
        0
    };
    let mut zeros: usize = z0;
    proof {
        assert(out@ =~= base + Seq::new((z0 - zeros) as nat, |i: int| '0'));
    }
    while zeros > 0
        invariant
            zeros <= z0,
            out@ == base + Seq::new((z0 - zeros) as nat, |i: int| '0'),
        decreases zeros,
    {
        text::push_char(&mut out, '0');
        zeros -= 1;
        proof {
            assert(out@ =~= base + Seq::new((z0 - zeros) as nat, |i: int| '0'));
        }
    }
    out.append(digits.as_str());
    proof {
        assert(out@ =~= base + Seq::new(z0 as nat, |i: int| '0') + dv);
        if dv.len() >= 6 {
            assert(Seq::new(0, |i: int| '0') =~= Seq::<char>::empty());
            assert(out@ =~= base + spec_zero_pad6(dv));
        } else {
            assert(out@ =~= base + spec_zero_pad6(dv));
        }
    }
    out
}

/// The EPOCHREALTIME getter: seconds and six digits of microseconds since
/// the epoch.
pub fn get_epochrealtime() -> (r: Value)
    ensures
        r is Single,
{
    let (sec, nano) = match sys::clock_realtime() {
        Some(pair) => pair,
        None => (0, 0),
    };
    Value::Single(SingleData { data: epoch_realtime_string(sec, nano) })
}

/// A SECONDS seed shifted so that the variable starts counting from the
/// given offset.
pub fn seconds_seed_offset(offset: i64) -> (r: String) {
    let (now_sec, now_nano) = match sys::clock_monotonic() {
        Some(pair) => pair,
        None => (0, 0),
    };
    let shifted: i64 = if offset >= 0 && now_sec >= i64::MIN + offset {
        now_sec - offset
    } else if offset < 0 && now_sec <= i64::MAX + offset {
        now_sec - offset
    } else {
        now_sec
    };
    let mut out = text::i64_to_string(shifted);
    text::push_char(&mut out, '.');
    let nanos = text::i64_to_string(now_nano);
    out.append(nanos.as_str());
    out
}

} // verus!
