//! The SipHash mixing state and the add-rotate-xor round that stirs it.

use vstd::prelude::*;
use crate::bits::{rotl, rotl_spec};

verus! {

/// First initialisation constant, xored with the low key word.
pub const C0: u64 = 0x736f6d6570736575;

/// Second initialisation constant, xored with the high key word.
pub const C1: u64 = 0x646f72616e646f6d;

/// Third initialisation constant, xored with the low key word.
pub const C2: u64 = 0x6c7967656e657261;

/// Fourth initialisation constant, xored with the high key word.
pub const C3: u64 = 0x7465646279746573;

/// Domain separation constant, xored into `v2` before the last rounds.
pub const FINAL_MARK: u64 = 0xff;

/// The four words that the rounds mix.
#[derive(Clone, Copy, Debug, PartialEq, Eq, Structural)]
pub struct MixState {
    pub v0: u64,
    pub v1: u64,
    pub v2: u64,
    pub v3: u64,
}

/// One round: four additions modulo 2^64, six rotations and four xors.
pub open spec fn round(s: MixState) -> MixState {
    let a0 = s.v0.wrapping_add(s.v1);
    let a1 = rotl_spec(s.v1, 13) ^ a0;
    let b0 = rotl_spec(a0, 32);
    let a2 = s.v2.wrapping_add(s.v3);
    let a3 = rotl_spec(s.v3, 16) ^ a2;
    let c0 = b0.wrapping_add(a3);
    let b3 = rotl_spec(a3, 21) ^ c0;
    let b2 = a2.wrapping_add(a1);
    let b1 = rotl_spec(a1, 17) ^ b2;
    let c2 = rotl_spec(b2, 32);
    MixState { v0: c0, v1: b1, v2: c2, v3: b3 }
}

/// The state that a key starts from.
pub open spec fn initial_state(k0: u64, k1: u64) -> MixState {
    MixState { v0: k0 ^ C0, v1: k1 ^ C1, v2: k0 ^ C2, v3: k1 ^ C3 }
}

/// The state after one message word `m` went in: `m` is xored into `v3`,
/// two rounds run, and `m` is xored into `v0`.
pub open spec fn compression(s: MixState, m: u64) -> MixState {
    let t = round(round(MixState { v3: s.v3 ^ m, ..s }));
    MixState { v0: t.v0 ^ m, ..t }
}

/// The state after the closing phase: `v2` is marked, then four rounds run.
pub open spec fn finalization(s: MixState) -> MixState {
    round(round(round(round(MixState { v2: s.v2 ^ FINAL_MARK, ..s }))))
}

/// The four words of a state folded into one by xor.
pub open spec fn folded(s: MixState) -> u64 {
    s.v0 ^ s.v1 ^ s.v2 ^ s.v3
}

/// Applies one round to `s`.
pub fn sipround(s: MixState) -> (r: MixState)
    ensures
        r == round(s),
{
    let mut v0 = s.v0;
    let mut v1 = s.v1;
    let mut v2 = s.v2;
    let mut v3 = s.v3;
    v0 = v0.wrapping_add(v1);
    v1 = rotl(v1, 13);
    v1 ^= v0;
    v0 = rotl(v0, 32);
    v2 = v2.wrapping_add(v3);
    v3 = rotl(v3, 16);
    v3 ^= v2;
    v0 = v0.wrapping_add(v3);
    v3 = rotl(v3, 21);
    v3 ^= v0;
    v2 = v2.wrapping_add(v1);
    v1 = rotl(v1, 17);
    v1 ^= v2;
    v2 = rotl(v2, 32);
    MixState { v0, v1, v2, v3 }
}

/// Derives the starting state from the two key words.
pub fn init(k0: u64, k1: u64) -> (s: MixState)
    ensures
        s == initial_state(k0, k1),
{
    MixState { v0: k0 ^ C0, v1: k1 ^ C1, v2: k0 ^ C2, v3: k1 ^ C3 }
}

/// Absorbs the message word `m` into `s`.
pub fn compress(s: MixState, m: u64) -> (r: MixState)
    ensures
        r == compression(s, m),
{
    let t = sipround(sipround(MixState { v0: s.v0, v1: s.v1, v2: s.v2, v3: s.v3 ^ m }));
    MixState { v0: t.v0 ^ m, v1: t.v1, v2: t.v2, v3: t.v3 }
}

/// Runs the closing phase on `s` and folds the result into the digest.
pub fn finalize(s: MixState) -> (d: u64)
    ensures
        d == folded(finalization(s)),
{
    let t = MixState { v0: s.v0, v1: s.v1, v2: s.v2 ^ FINAL_MARK, v3: s.v3 };
    let t = sipround(sipround(sipround(sipround(t))));
    t.v0 ^ t.v1 ^ t.v2 ^ t.v3
}

} // verus!
