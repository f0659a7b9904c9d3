//! The crate's single mixing function. Every random draw in the simulation is
//! a pure function of the campaign seed and of what the draw is for, so the
//! same save gives the same island on every machine.

use vstd::prelude::*;

use crate::text::chars_of;

verus! {

/// The FNV-1a 64-bit offset basis.
pub const FNV_OFFSET_BASIS: u64 = 0xcbf2_9ce4_8422_2325;

/// The FNV-1a 64-bit prime.
pub const FNV_PRIME: u64 = 0x100_0000_01b3;

/// One FNV-1a step over one unit of input.
pub open spec fn fnv_step(h: u64, unit: u64) -> u64 {
    (h ^ unit).wrapping_mul(FNV_PRIME)
}

/// FNV-1a over the code points of `s`, starting from `h`.
pub open spec fn fnv_chars(h: u64, s: Seq<char>) -> u64
    decreases s.len(),
{
    if s.len() == 0 {
        h
    } else {
        fnv_step(fnv_chars(h, s.drop_last()), s.last() as u64)
    }
}

/// The splitmix64 finaliser: spreads every input bit over the whole word.
pub open spec fn finalize(x: u64) -> u64 {
    let z = x.wrapping_add(0x9e37_79b9_7f4a_7c15);
    let z = (z ^ (z >> 30u64)).wrapping_mul(0xbf58_476d_1ce4_e5b9);
    let z = (z ^ (z >> 27u64)).wrapping_mul(0x94d0_49bb_1331_11eb);
    z ^ (z >> 31u64)
}

/// The mix: the key folded under the seed, crossed with the counter and the
/// salt, and finalised.
pub open spec fn mix(seed: u64, counter: u32, key: Seq<char>, salt: u64) -> u64 {
    finalize(fnv_chars(FNV_OFFSET_BASIS ^ seed, key) ^ finalize(((counter as u64) << 32u64) ^ salt))
}

/// FNV-1a over the code points of `s`, starting from `h`.
pub fn fnv_str(h: u64, s: &str) -> (r: u64)
    ensures
        r == fnv_chars(h, s@),
{
    let cs = chars_of(s);
    let mut acc = h;
    let mut i: usize = 0;
    while i < cs.len()
        invariant
            i <= cs@.len(),
            cs@ == s@,
            acc == fnv_chars(h, s@.take(i as int)),
        decreases cs@.len() - i,
    {
        let c = cs[i];
        let ghost prev = acc;
        acc = fnv_step_char(acc, c);
        proof {
            let t = s@.take(i + 1);
            assert(t.drop_last() =~= s@.take(i as int));
            assert(t.last() == c);
            assert(acc == fnv_step(prev, t.last() as u64));
        }
        i = i + 1;
    }
    proof {
        assert(s@.take(cs@.len() as int) =~= s@);
    }
    acc
}

fn fnv_step_char(h: u64, c: char) -> (r: u64)
    ensures
        r == fnv_step(h, c as u64),
{
    let unit: u64 = c as u64;
    (h ^ unit).wrapping_mul(FNV_PRIME)
}

fn finalize_exec(x: u64) -> (r: u64)
    ensures
        r == finalize(x),
{
    let z = x.wrapping_add(0x9e37_79b9_7f4a_7c15);
    let z = (z ^ (z >> 30u64)).wrapping_mul(0xbf58_476d_1ce4_e5b9);
    let z = (z ^ (z >> 27u64)).wrapping_mul(0x94d0_49bb_1331_11eb);
    z ^ (z >> 31u64)
}

/// The draw for `key` under `seed`, at `counter` (a day, an hour, an index)
/// and `salt`. Pure and total: the same arguments give the same number
/// forever.
pub fn mix_seed(seed: u64, counter: u32, key: &str, salt: u64) -> (r: u64)
    ensures
        r == mix(seed, counter, key@, salt),
{
    let folded = fnv_str(FNV_OFFSET_BASIS ^ seed, key);
    finalize_exec(folded ^ finalize_exec(((counter as u64) << 32u64) ^ salt))
}

} // verus!
