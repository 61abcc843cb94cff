//! Small fixed buffers: copying bytes into one, and building the closing
//! word of a message from the bytes behind its last full word.

use vstd::prelude::*;
use crate::bits::{le_value, load_u64};

verus! {

/// `next` is `prev` but for the window of `count` bytes from `at` on, which
/// holds the bytes of `src` from `from` on.
pub(crate) open spec fn patched(
    next: Seq<u8>,
    prev: Seq<u8>,
    at: int,
    src: Seq<u8>,
    from: int,
    count: int,
) -> bool {
    &&& next.len() == prev.len()
    &&& forall|i: int|
        0 <= i < next.len() ==> next[i] == if at <= i < at + count {
            src[from + i - at]
        } else {
            prev[i]
        }
}

/// Copies `count` bytes of `src`, from index `from` on, into `buf` at `at`.
pub(crate) fn stash(buf: &mut [u8; 8], at: usize, src: &[u8], from: usize, count: usize)
    requires
        at + count <= 8,
        from + count <= src.len(),
    ensures
        patched(final(buf)@, old(buf)@, at as int, src@, from as int, count as int),
{
    let mut t: usize = 0;
    while t < count
        invariant
            t <= count,
            at + count <= 8,
            from + count <= src.len(),
            patched(buf@, old(buf)@, at as int, src@, from as int, t as int),
        decreases count - t,
    {
        buf[at + t] = src[from + t];
        t += 1;
    }
}

/// The closing block made of `rest`, which holds at most seven bytes, and
/// of the length byte: `rest`, zero bytes up to seven, then `len_byte`.
pub open spec fn closing_block(rest: Seq<u8>, len_byte: u8) -> Seq<u8> {
    rest + Seq::new((7 - rest.len()) as nat, |i: int| 0u8) + seq![len_byte]
}

/// Builds the closing word from the `count` bytes of `src` that start at
/// `from` and from the length byte.
pub(crate) fn closing_word(src: &[u8], from: usize, count: usize, len_byte: u8) -> (m: u64)
    requires
        count < 8,
        from + count <= src.len(),
    ensures
        m == le_value(closing_block(src@.subrange(from as int, from + count), len_byte)),
{
    let mut block = [0u8; 8];
    stash(&mut block, 0, src, from, count);
    block[7] = len_byte;
    let m = load_u64(&block, 0);
    proof {
        assert(block@.subrange(0, 8) =~= closing_block(
            src@.subrange(from as int, from + count),
            len_byte,
        ));
    }
    m
}

} // verus!
