//! SipHash-2-4: a keyed pseudorandom function for short inputs, with a
//! 128-bit key and a 64-bit digest.
//!
//! A message is hashed either piece by piece, through a [`Hasher`] made by
//! [`siphash`], or in one call of [`hash`]. Both give the digest that
//! [`prf::siphash24`] defines.

pub mod bits;
pub mod buffer;
pub mod hasher;
pub mod laws;
pub mod oneshot;
pub mod permutation;
pub mod prf;

pub use bits::{load_u64, rotl};
pub use hasher::{siphash, Hasher, Stream};
pub use oneshot::{hash, split_key};
pub use permutation::{sipround, MixState};
