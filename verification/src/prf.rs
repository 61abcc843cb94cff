//! What SipHash-2-4 is: the digest of a message under a key, as a function
//! of the two key words and of the message bytes.

use vstd::prelude::*;
use crate::bits::{le_value, lemma_le_value_of_eight};
use crate::buffer::closing_block;
use crate::permutation::{MixState, compression, finalization, folded, initial_state};

verus! {

/// The `j`-th full word of `msg`: its bytes `8 * j` up to `8 * j + 8`, read
/// little-endian.
pub open spec fn word_at(msg: Seq<u8>, j: int) -> u64 {
    le_value(msg.subrange(8 * j, 8 * j + 8)) as u64
}

/// The mixing state under the key `(k0, k1)` once the first `n` full words
/// of `msg` went in, in order.
pub open spec fn absorbed(k0: u64, k1: u64, msg: Seq<u8>, n: nat) -> MixState
    decreases n,
{
    if n == 0 {
        initial_state(k0, k1)
    } else {
        compression(absorbed(k0, k1, msg, (n - 1) as nat), word_at(msg, n - 1))
    }
}

/// The bytes of `msg` that follow its last full word: between none and seven.
pub open spec fn remainder(msg: Seq<u8>) -> Seq<u8> {
    msg.subrange(msg.len() - msg.len() % 8, msg.len() as int)
}

/// The closing block of `msg`: the remainder, padded with zero bytes to
/// seven, then the length of `msg` modulo 256.
pub open spec fn last_block(msg: Seq<u8>) -> Seq<u8> {
    closing_block(remainder(msg), (msg.len() % 256) as u8)
}

/// The closing word of `msg`: its closing block read little-endian, so the
/// length byte is the top byte.
pub open spec fn last_word(msg: Seq<u8>) -> u64 {
    le_value(last_block(msg)) as u64
}

/// The SipHash-2-4 digest of `msg` under the key `(k0, k1)`: every full word
/// goes in with two rounds, then the closing word, then `v2` is marked and
/// four rounds run, and the four words are folded by xor.
pub open spec fn siphash24(k0: u64, k1: u64, msg: Seq<u8>) -> u64 {
    folded(
        finalization(compression(absorbed(k0, k1, msg, msg.len() / 8), last_word(msg))),
    )
}

/// The state after `n` words depends on the first `8 * n` bytes alone:
/// bytes appended behind them change nothing.
pub proof fn lemma_absorbed_ignores_suffix(k0: u64, k1: u64, a: Seq<u8>, b: Seq<u8>, n: nat)
    requires
        8 * n <= a.len(),
    ensures
        absorbed(k0, k1, a + b, n) == absorbed(k0, k1, a, n),
    decreases n,
{
    if n > 0 {
        lemma_absorbed_ignores_suffix(k0, k1, a, b, (n - 1) as nat);
        assert((a + b).subrange(8 * (n - 1), 8 * (n - 1) + 8) =~= a.subrange(
            8 * (n - 1),
            8 * (n - 1) + 8,
        ));
    }
}

/// One more word: when `w` holds the eight bytes of `msg` that make up its
/// word `j`, the state after `j + 1` words is the state after `j` words with
/// `w` compressed in.
pub proof fn lemma_absorbed_next_word(k0: u64, k1: u64, msg: Seq<u8>, j: nat, w: Seq<u8>)
    requires
        8 * j + 8 <= msg.len(),
        w.len() == 8,
        forall|i: int| 0 <= i < 8 ==> w[i] == msg[8 * j + i],
    ensures
        le_value(w) <= u64::MAX,
        absorbed(k0, k1, msg, j + 1) == compression(
            absorbed(k0, k1, msg, j),
            le_value(w) as u64,
        ),
{
    assert(msg.subrange(8 * (j as int), 8 * (j as int) + 8) =~= w);
    lemma_le_value_of_eight(w);
}

} // verus!
