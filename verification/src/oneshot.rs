//! The one-shot authenticator: the digest of a whole message that lies in
//! memory, under a 16-byte key, in one pass and without any buffering.

use vstd::prelude::*;
use crate::bits::load_u64;
use crate::buffer::{closing_block, closing_word};
use crate::hasher::Stream;
use crate::permutation::{compress, finalize, init};
use crate::prf::{absorbed, last_block, lemma_absorbed_next_word, siphash24, word_at};

verus! {

/// Splits a 16-byte key into its two words: the first eight bytes are the
/// low word and the last eight the high one, each read little-endian.
pub fn split_key(key: &[u8; 16]) -> (words: (u64, u64))
    ensures
        words.0 == word_at(key@, 0),
        words.1 == word_at(key@, 1),
{
    (load_u64(key, 0), load_u64(key, 8))
}

/// Computes the SipHash-2-4 digest of `message` under `key` in one pass.
/// The digest is the one that a fresh hasher under the same key returns
/// once the whole message was fed to it.
pub fn hash(message: &[u8], key: &[u8; 16]) -> (digest: u64)
    ensures
        digest == siphash24(word_at(key@, 0), word_at(key@, 1), message@),
        digest == Stream::start(word_at(key@, 0), word_at(key@, 1)).feed(message@).digest(),
{
    let (k0, k1) = split_key(key);
    let n = message.len();
    let mut v = init(k0, k1);
    let mut done: usize = 0;
    let ghost mut words: nat = 0;
    while n - done >= 8
        invariant
            done <= n,
            n == message.len(),
            done == 8 * words,
            v == absorbed(k0, k1, message@, words),
        decreases n - done,
    {
        let m = load_u64(message, done);
        proof {
            lemma_absorbed_next_word(
                k0,
                k1,
                message@,
                words,
                message@.subrange(done as int, done + 8),
            );
            words = words + 1;
        }
        v = compress(v, m);
        done += 8;
    }
    let m = closing_word(message, done, n - done, (n % 256) as u8);
    proof {
        assert(closing_block(message@.subrange(done as int, n as int), (n % 256) as u8)
            =~= last_block(message@));
        assert(Seq::<u8>::empty() + message@ =~= message@);
    }
    finalize(compress(v, m))
}

} // verus!
