//! What holds of the hasher and of the one-shot function taken together.

use vstd::prelude::*;
use crate::bits::lemma_le_value_of_eight;
use crate::hasher::Stream;
use crate::permutation::{compression, finalization, folded, initial_state};
use crate::prf::{last_block, siphash24};

verus! {

/// The bytes of `parts`, one part behind the other.
pub open spec fn joined(parts: Seq<Seq<u8>>) -> Seq<u8>
    decreases parts.len(),
{
    if parts.len() == 0 {
        Seq::empty()
    } else {
        joined(parts.drop_last()) + parts.last()
    }
}

/// The stream after each of `parts` was fed to it, first to last, each in
/// a feed of its own.
pub open spec fn fed_each(s: Stream, parts: Seq<Seq<u8>>) -> Stream
    decreases parts.len(),
{
    if parts.len() == 0 {
        s
    } else {
        fed_each(s, parts.drop_last()).feed(parts.last())
    }
}

/// Feeding a message piece by piece leaves a hasher where one feed of the
/// whole message leaves it, wherever the message is cut and however many
/// pieces there are, empty ones included.
pub proof fn lemma_pieces_feed_as_whole(s: Stream, parts: Seq<Seq<u8>>)
    ensures
        fed_each(s, parts) == s.feed(joined(parts)),
    decreases parts.len(),
{
    if parts.len() == 0 {
        assert(s.fed + joined(parts) =~= s.fed);
    } else {
        lemma_pieces_feed_as_whole(s, parts.drop_last());
        assert((s.fed + joined(parts.drop_last())) + parts.last() =~= s.fed + joined(parts));
    }
}

/// Chunking invariance: for a message cut into consecutive pieces, a fresh
/// hasher fed the pieces in order, a fresh hasher fed the message in one
/// call and the one-shot function under the same key all give one digest.
pub proof fn lemma_chunking_invariance(
    k0: u64,
    k1: u64,
    message: Seq<u8>,
    parts: Seq<Seq<u8>>,
)
    requires
        joined(parts) == message,
    ensures
        fed_each(Stream::start(k0, k1), parts).digest() == Stream::start(k0, k1).feed(
            message,
        ).digest(),
        Stream::start(k0, k1).feed(message).digest() == siphash24(k0, k1, message),
{
    lemma_pieces_feed_as_whole(Stream::start(k0, k1), parts);
    assert(Seq::<u8>::empty() + message =~= message);
}

/// Reset isolation: whatever a hasher was fed before a reset, after it the
/// hasher goes on as one freshly made under the same key.
pub proof fn lemma_reset_isolation(s: Stream, m1: Seq<u8>, m2: Seq<u8>)
    ensures
        s.feed(m1).reset().feed(m2) == Stream::start(s.k0, s.k1).feed(m2),
        s.feed(m1).reset().feed(m2).digest() == siphash24(s.k0, s.k1, m2),
{
    assert(Seq::<u8>::empty() + m2 =~= m2);
}

/// The empty message is no special case: its closing word is zero, so the
/// digest of a hasher that was fed nothing is the initial state with the
/// zero word compressed in, finalized and folded.
pub proof fn lemma_empty_message(k0: u64, k1: u64)
    ensures
        Stream::start(k0, k1).digest() == folded(
            finalization(compression(initial_state(k0, k1), 0)),
        ),
        Stream::start(k0, k1).digest() == siphash24(k0, k1, Seq::empty()),
{
    lemma_le_value_of_eight(last_block(Seq::empty()));
}

} // verus!
