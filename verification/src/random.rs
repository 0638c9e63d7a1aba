//! The shell's own pseudo-random generator, backing the RANDOM and SRANDOM
//! dynamic variables. The stored seed is the generator state; every read
//! steps it.

use vstd::prelude::*;
use crate::sys;
use crate::text;
use crate::variable::{DynamicGetter, SingleData, Value, Variable};

verus! {

/// A starting state for the generator, drawn from the clock's nanoseconds.
pub fn random_seed_string() -> (r: String) {
    let nanos: i64 = match sys::clock_monotonic() {
        Some((_, n)) => n,
        None => 0,
    };
    let seed: u64 = if nanos >= 0 {
        (nanos as u64) % 0x80000000
    } else {
        0
    };
    text::i64_to_string(seed as i64)
}

/// One step of the linear congruential generator, over a 31-bit state.
pub open spec fn spec_lcg_next(seed: int) -> int {
    (seed * 1103515245 + 12345) % 0x80000000
}

/// The published value: bits 16 to 30 of the next state.
pub open spec fn spec_random_value(seed: int) -> int {
    (spec_lcg_next(seed) / 65536) % 32768
}

/// The state encoded by a stored seed string; anything unreadable counts
/// as state zero.
pub open spec fn spec_seed_of(s: Seq<char>) -> int {
    if text::spec_parses_i64(s) && text::spec_i64_value(s) >= 0 {
        text::spec_i64_value(s) % 0x80000000
    } else {
        0
    }
}

fn seed_of(s: &str) -> (r: u64)
    ensures
        r == spec_seed_of(s@),
        r < 0x80000000,
{
    match text::parse_i64(s) {
        Some(x) => {
            if x >= 0 {
                (x as u64) % 0x80000000
            } else {
                0
            }
        },
        None => 0,
    }
}

fn lcg_next(seed: u64) -> (r: u64)
    requires
        seed < 0x80000000,
    ensures
        r == spec_lcg_next(seed as int),
        r < 0x80000000,
{
    proof {
        assert(seed * 1103515245 + 12345 < 0xffffffffffffffffu64) by (nonlinear_arith)
            requires
                seed < 0x80000000,
        ;
    }
    (seed * 1103515245 + 12345) % 0x80000000
}

/// Steps the generator held in a RANDOM variable and hands out the
/// published value.
pub fn get_random(v: &mut Variable) -> (r: Value)
    requires
        old(v).value matches Value::Special(sd) && sd.getter == DynamicGetter::Random,
    ensures
        ({
            let seed = spec_seed_of(old(v).value->Special_0.data@);
            &&& r matches Value::Single(out) && out.data@ == text::spec_int_string(
                spec_random_value(seed),
            )
            &&& final(v).value matches Value::Special(nd) && nd.getter == DynamicGetter::Random
                && nd.data@ == text::spec_int_string(spec_lcg_next(seed))
            &&& final(v).attributes == old(v).attributes
        }),
{
    let seed_data = match &v.value {
        Value::Special(sd) => sd.data.clone(),
        _ => {
            assert(false);
            String::new()
        },
    };
    let seed = seed_of(seed_data.as_str());
    let next = lcg_next(seed);
    let value = (next / 65536) % 32768;
    v.set_data(text::i64_to_string(next as i64));
    Value::Single(SingleData { data: text::i64_to_string(value as i64) })
}

/// Steps the generator held in an SRANDOM variable and hands out the raw
/// next state.
pub fn get_srandom(v: &mut Variable) -> (r: Value)
    requires
        old(v).value matches Value::Special(sd) && sd.getter == DynamicGetter::SRandom,
    ensures
        ({
            let seed = spec_seed_of(old(v).value->Special_0.data@);
            &&& r matches Value::Single(out) && out.data@ == text::spec_int_string(
                spec_lcg_next(seed),
            )
            &&& final(v).value matches Value::Special(nd) && nd.getter == DynamicGetter::SRandom
                && nd.data@ == text::spec_int_string(spec_lcg_next(seed))
            &&& final(v).attributes == old(v).attributes
        }),
{
    let seed_data = match &v.value {
        Value::Special(sd) => sd.data.clone(),
        _ => {
            assert(false);
            String::new()
        },
    };
    let seed = seed_of(seed_data.as_str());
    let next = lcg_next(seed);
    v.set_data(text::i64_to_string(next as i64));
    Value::Single(SingleData { data: text::i64_to_string(next as i64) })
}

} // verus!
