//! The incremental hasher: bytes go in over any number of calls, split at
//! any point, and the digest of what went in so far can be read at any time.

use vstd::prelude::*;
use vstd::arithmetic::div_mod::{
    lemma_fundamental_div_mod, lemma_fundamental_div_mod_converse, lemma_mod_multiples_vanish,
};
use vstd::utf8::encode_utf8;
use crate::bits::load_u64;
use crate::buffer::{closing_block, closing_word, patched, stash};
use crate::permutation::{MixState, compress, finalize, init};
use crate::prf::{
    absorbed, last_block, lemma_absorbed_ignores_suffix, lemma_absorbed_next_word, siphash24,
};

verus! {

/// What a hasher stands for: its key, and the bytes fed to it since it was
/// made or last reset.
pub struct Stream {
    pub k0: u64,
    pub k1: u64,
    pub fed: Seq<u8>,
}

impl Stream {
    /// A stream under the key `(k0, k1)` to which nothing was fed yet.
    pub open spec fn start(k0: u64, k1: u64) -> Stream {
        Stream { k0, k1, fed: Seq::empty() }
    }

    /// The stream after `bytes` were fed to it.
    pub open spec fn feed(self, bytes: Seq<u8>) -> Stream {
        Stream { fed: self.fed + bytes, ..self }
    }

    /// The stream after a reset: the key stays, the bytes are forgotten.
    pub open spec fn reset(self) -> Stream {
        Stream::start(self.k0, self.k1)
    }

    /// The digest that a read returns: that of the bytes fed so far.
    pub open spec fn digest(self) -> u64 {
        siphash24(self.k0, self.k1, self.fed)
    }
}

/// An incremental SipHash-2-4 hasher. It is a plain mutable value without
/// any locking: one caller at a time.
pub struct Hasher {
    k0: u64,
    k1: u64,
    /// Number of bytes fed, modulo 2^64.
    length: u64,
    /// The mixing state after every full word fed so far.
    v: MixState,
    /// The bytes fed after the last full word, in `tail[..ntail]`.
    tail: [u8; 8],
    ntail: usize,
    fed: Ghost<Seq<u8>>,
}

impl View for Hasher {
    type V = Stream;

    closed spec fn view(&self) -> Stream {
        Stream { k0: self.k0, k1: self.k1, fed: self.fed@ }
    }
}

/// `tail` holds the last `count` bytes of `fed`, in order.
spec fn holds_end(tail: Seq<u8>, count: int, fed: Seq<u8>) -> bool {
    &&& 0 <= count <= fed.len()
    &&& count <= tail.len()
    &&& forall|i: int| 0 <= i < count ==> tail[i] == fed[fed.len() - count + i]
}

/// A feed too short to complete the waiting word only lengthens the tail.
proof fn lemma_tail_grows(
    before: Seq<u8>,
    msg: Seq<u8>,
    tail0: Seq<u8>,
    tail1: Seq<u8>,
    pending: int,
)
    requires
        tail1.len() == 8,
        holds_end(tail0, pending, before),
        pending + msg.len() < 8,
        patched(tail1, tail0, pending, msg, 0, msg.len() as int),
    ensures
        holds_end(tail1, pending + msg.len(), before + msg),
{
}

/// A feed that completes the waiting word makes the tail the next full
/// word of the stream.
proof fn lemma_tail_completes(
    before: Seq<u8>,
    msg: Seq<u8>,
    tail0: Seq<u8>,
    tail1: Seq<u8>,
    pending: int,
)
    requires
        tail1.len() == 8,
        holds_end(tail0, pending, before),
        pending + msg.len() >= 8,
        patched(tail1, tail0, pending, msg, 0, 8 - pending),
    ensures
        forall|i: int| 0 <= i < 8 ==> tail1[i] == (before + msg)[before.len() - pending + i],
{
}

/// Once every full word went through the state, the bytes left over are
/// the new tail.
proof fn lemma_tail_restarts(
    before: Seq<u8>,
    msg: Seq<u8>,
    tail0: Seq<u8>,
    tail1: Seq<u8>,
    done: int,
)
    requires
        tail1.len() == 8,
        0 <= done <= msg.len(),
        msg.len() - done < 8,
        patched(tail1, tail0, 0, msg, done, msg.len() - done),
    ensures
        holds_end(tail1, msg.len() - done, before + msg),
{
}

/// The bookkeeping of a hasher that was fed `len` bytes: `ntail` bytes lie
/// behind the last full word, and `counter` is `len` modulo 2^64.
#[verifier::opaque]
spec fn accounts_for(len: nat, ntail: usize, counter: u64) -> bool {
    &&& ntail == len % 8
    &&& counter == len % 0x1_0000_0000_0000_0000
}

/// What the bookkeeping says of the length, in the terms that a read needs.
proof fn lemma_accounts_read(len: nat, ntail: usize, counter: u64)
    requires
        accounts_for(len, ntail, counter),
    ensures
        ntail == len % 8,
        len == 8 * (len / 8) + ntail,
        counter % 256 == len % 256,
{
    reveal(accounts_for);
    let q = len as int / 0x1_0000_0000_0000_0000;
    lemma_fundamental_div_mod(len as int, 0x1_0000_0000_0000_0000);
    lemma_fundamental_div_mod(len as int, 8);
    lemma_mod_multiples_vanish(0x100_0000_0000_0000 * q, counter as int, 256);
}

/// The bookkeeping after `n` more bytes, of which `ntail` lie behind the
/// last of `words` full words: the counter wraps around at 2^64 in step
/// with the true length.
proof fn lemma_accounts_step(
    len: nat,
    pending: usize,
    counter: u64,
    n: usize,
    total: nat,
    words: nat,
    ntail: usize,
)
    requires
        accounts_for(len, pending, counter),
        total == len + n,
        total == 8 * words + ntail,
        ntail < 8,
    ensures
        accounts_for(total, ntail, counter.wrapping_add(n as u64)),
        total / 8 == words,
{
    reveal(accounts_for);
    let q = len as int / 0x1_0000_0000_0000_0000;
    lemma_fundamental_div_mod(len as int, 0x1_0000_0000_0000_0000);
    let wrapped = counter.wrapping_add(n as u64);
    let carry: int = if counter + n > u64::MAX { 1 } else { 0 };
    lemma_fundamental_div_mod_converse(
        total as int,
        0x1_0000_0000_0000_0000,
        q + carry,
        wrapped as int,
    );
    lemma_fundamental_div_mod_converse(total as int, 8, words as int, ntail as int);
}

/// The bookkeeping of a hasher that was fed nothing.
proof fn lemma_accounts_start()
    ensures
        accounts_for(0, 0, 0),
{
    reveal(accounts_for);
}

impl Hasher {
    /// The fields agree with the bytes fed: every full word went through
    /// the state, and the bytes after the last full word wait in `tail`.
    #[verifier::type_invariant]
    closed spec fn inv(self) -> bool {
        let fed = self.fed@;
        &&& accounts_for(fed.len(), self.ntail, self.length)
        &&& holds_end(self.tail@, self.ntail as int, fed)
        &&& self.v == absorbed(self.k0, self.k1, fed, fed.len() / 8)
    }

    /// Feeds `msg` to the hasher.
    pub fn input(&mut self, msg: &[u8])
        ensures
            final(self)@ == old(self)@.feed(msg@),
    {
        proof {
            use_type_invariant(&*self);
        }
        let ghost before = self.fed@;
        let ghost after = before + msg@;
        let ghost mut words = before.len() / 8;
        let n = msg.len();
        let pending = self.ntail;
        let length = self.length.wrapping_add(n as u64);
        let mut v = self.v;
        let mut tail = self.tail;
        let ntail: usize;
        proof {
            lemma_accounts_read(before.len(), pending, self.length);
            lemma_absorbed_ignores_suffix(self.k0, self.k1, before, msg@, words);
        }
        if pending != 0 && n < 8 - pending {
            stash(&mut tail, pending, msg, 0, n);
            ntail = pending + n;
            proof {
                lemma_tail_grows(before, msg@, self.tail@, tail@, pending as int);
            }
        } else {
            let mut done: usize = 0;
            if pending != 0 {
                done = 8 - pending;
                stash(&mut tail, pending, msg, 0, done);
                let m = load_u64(&tail, 0);
                proof {
                    lemma_tail_completes(before, msg@, self.tail@, tail@, pending as int);
                    assert(tail@.subrange(0, 8) =~= tail@);
                    lemma_absorbed_next_word(self.k0, self.k1, after, words, tail@);
                    words = words + 1;
                }
                v = compress(v, m);
            }
            while n - done >= 8
                invariant
                    done <= n,
                    n == msg.len(),
                    after == before + msg@,
                    before.len() + done == 8 * words,
                    v == absorbed(self.k0, self.k1, after, words),
                decreases n - done,
            {
                let m = load_u64(msg, done);
                proof {
                    lemma_absorbed_next_word(
                        self.k0,
                        self.k1,
                        after,
                        words,
                        msg@.subrange(done as int, done + 8),
                    );
                    words = words + 1;
                }
                v = compress(v, m);
                done += 8;
            }
            ntail = n - done;
            let ghost tail_before = tail@;
            stash(&mut tail, 0, msg, done, ntail);
            proof {
                lemma_tail_restarts(before, msg@, tail_before, tail@, done as int);
            }
        }
        proof {
            lemma_accounts_step(
                before.len(),
                pending,
                self.length,
                n,
                after.len(),
                words,
                ntail,
            );
        }
        *self = Hasher {
            k0: self.k0,
            k1: self.k1,
            length,
            v,
            tail,
            ntail,
            fed: Ghost(after),
        };
    }

    /// Feeds the UTF-8 encoding of `text` to the hasher.
    pub fn input_str(&mut self, text: &str)
        ensures
            final(self)@ == old(self)@.feed(encode_utf8(text@)),
    {
        self.input(text.as_bytes());
    }

    /// Reads the digest of the bytes fed so far. The hasher is left as it
    /// was, so more bytes may follow and the digest may be read again.
    pub fn result(&self) -> (digest: u64)
        ensures
            digest == self@.digest(),
    {
        proof {
            use_type_invariant(self);
            lemma_accounts_read(self.fed@.len(), self.ntail, self.length);
        }
        let m = closing_word(&self.tail, 0, self.ntail, (self.length % 256) as u8);
        proof {
            assert(closing_block(
                self.tail@.subrange(0, self.ntail as int),
                (self.length % 256) as u8,
            ) =~= last_block(self.fed@));
        }
        finalize(compress(self.v, m))
    }

    /// Forgets the bytes fed so far and starts over under the same key.
    pub fn reset(&mut self)
        ensures
            final(self)@ == old(self)@.reset(),
    {
        *self = siphash(self.k0, self.k1);
    }
}

/// Makes a hasher under the key `(key0, key1)`, to which nothing was fed yet.
pub fn siphash(key0: u64, key1: u64) -> (hasher: Hasher)
    ensures
        hasher@ == Stream::start(key0, key1),
{
    proof {
        lemma_accounts_start();
    }
    Hasher {
        k0: key0,
        k1: key1,
        length: 0,
        v: init(key0, key1),
        tail: [0u8; 8],
        ntail: 0,
        fed: Ghost(Seq::empty()),
    }
}

} // verus!
