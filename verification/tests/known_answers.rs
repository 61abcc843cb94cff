//! Digests that are known from elsewhere: the worked example of the SipHash
//! paper and the reference vectors that come with it.

use siphash::siphash;
use siphash::hash;

const K0: u64 = 0x0706050403020100;
const K1: u64 = 0x0f0e0d0c0b0a0908;
const KEY: [u8; 16] = [
    0x00, 0x01, 0x02, 0x03, 0x04, 0x05, 0x06, 0x07, 0x08, 0x09, 0x0a, 0x0b, 0x0c, 0x0d, 0x0e, 0x0f,
];

/// Digests of the messages `[]`, `[0]`, `[0, 1]`, ... `[0, 1, ..., 62]`
/// under the key `00 01 .. 0f`.
const VECTORS: [u64; 64] = [
    0x726fdb47dd0e0e31, 0x74f839c593dc67fd, 0x0d6c8009d9a94f5a, 0x85676696d7fb7e2d,
    0xcf2794e0277187b7, 0x18765564cd99a68d, 0xcbc9466e58fee3ce, 0xab0200f58b01d137,
    0x93f5f5799a932462, 0x9e0082df0ba9e4b0, 0x7a5dbbc594ddb9f3, 0xf4b32f46226bada7,
    0x751e8fbc860ee5fb, 0x14ea5627c0843d90, 0xf723ca908e7af2ee, 0xa129ca6149be45e5,
    0x3f2acc7f57c29bdb, 0x699ae9f52cbe4794, 0x4bc1b3f0968dd39c, 0xbb6dc91da77961bd,
    0xbed65cf21aa2ee98, 0xd0f2cbb02e3b67c7, 0x93536795e3a33e88, 0xa80c038ccd5ccec8,
    0xb8ad50c6f649af94, 0xbce192de8a85b8ea, 0x17d835b85bbb15f3, 0x2f2e6163076bcfad,
    0xde4daaaca71dc9a5, 0xa6a2506687956571, 0xad87a3535c49ef28, 0x32d892fad841c342,
    0x7127512f72f27cce, 0xa7f32346f95978e3, 0x12e0b01abb051238, 0x15e034d40fa197ae,
    0x314dffbe0815a3b4, 0x027990f029623981, 0xcadcd4e59ef40c4d, 0x9abfd8766a33735c,
    0x0e3ea96b5304a7d0, 0xad0c42d6fc585992, 0x187306c89bc215a9, 0xd4a60abcf3792b95,
    0xf935451de4f21df2, 0xa9538f0419755787, 0xdb9acddff56ca510, 0xd06c98cd5c0975eb,
    0xe612a3cb9ecba951, 0xc766e62cfcadaf96, 0xee64435a9752fe72, 0xa192d576b245165a,
    0x0a8787bf8ecb74b2, 0x81b3e73d20b49b6f, 0x7fa8220ba3b2ecea, 0x245731c13ca42499,
    0xb78dbfaf3a8d83bd, 0xea1ad565322a1a0b, 0x60e61c23a3795013, 0x6606d7e446282b93,
    0x6ca4ecb15c5f91e1, 0x9f626da15c9625f3, 0xe51b38608ef25f57, 0x958a324ceb064572,
];

fn counting(n: usize) -> Vec<u8> {
    (0..n).map(|i| (i % 251) as u8).collect()
}

#[test]
fn test_paper() {
    // the example from appendix A of the SipHash paper
    let k: [u8; 16] = [
        0x00, 0x01, 0x02, 0x03, 0x04, 0x05, 0x06, 0x07, 0x08, 0x09, 0x0a, 0x0b, 0x0c, 0x0d, 0x0e,
        0x0f,
    ];
    let m: Vec<u8> = vec![
        0x00, 0x01, 0x02, 0x03, 0x04, 0x05, 0x06, 0x07, 0x08, 0x09, 0x0a, 0x0b, 0x0c, 0x0d, 0x0e,
    ];

    let mut sh = siphash(0x0706050403020100, 0x0f0e0d0c0b0a0908);

    sh.input(&[0x00, 0x01, 0x02, 0x03, 0x04, 0x05]);
    sh.input(&[0x06]);

    assert!(sh.result() != 0xa129ca6149be45e5);

    sh.input(&[0x07, 0x08, 0x09, 0x0a, 0x0b, 0x0c, 0x0d, 0x0e]);

    assert!(sh.result() == 0xa129ca6149be45e5);

    sh.reset();

    assert!(sh.result() != 0xa129ca6149be45e5);

    sh.input(&m);

    assert!(sh.result() == 0xa129ca6149be45e5);

    assert!(hash(&m, &k) == 0xa129ca6149be45e5);
}

#[test]
fn paper_example_one_shot() {
    let m: Vec<u8> = counting(15);
    assert_eq!(hash(&m, &KEY), 0xa129ca6149be45e5);
}

#[test]
fn paper_example_in_one_feed() {
    let mut sh = siphash(K0, K1);
    sh.input(&counting(15));
    assert_eq!(sh.result(), 0xa129ca6149be45e5);
}

#[test]
fn reference_vectors_one_shot() {
    for n in 0usize..64 {
        assert_eq!(hash(&counting(n), &KEY), VECTORS[n], "message of {} bytes", n);
    }
}

#[test]
fn reference_vectors_incremental() {
    for n in 0usize..64 {
        let mut sh = siphash(K0, K1);
        sh.input(&counting(n));
        assert_eq!(sh.result(), VECTORS[n], "message of {} bytes", n);
    }
}

#[test]
fn reference_vectors_byte_by_byte() {
    // One hasher sees the bytes 0, 1, 2, ... one at a time; before byte `n`
    // goes in, it has seen exactly the message of vector `n`.
    let mut sh = siphash(K0, K1);
    for n in 0usize..64 {
        assert_eq!(sh.result(), VECTORS[n], "after {} bytes", n);
        sh.input(&[n as u8]);
    }
}

#[test]
fn empty_message() {
    let sh = siphash(K0, K1);
    assert_eq!(sh.result(), 0x726fdb47dd0e0e31);
    assert_eq!(hash(&[], &KEY), 0x726fdb47dd0e0e31);

    let mut fed_nothing = siphash(K0, K1);
    fed_nothing.input(&[]);
    assert_eq!(fed_nothing.result(), 0x726fdb47dd0e0e31);

    let mut after_reset = siphash(K0, K1);
    after_reset.input(&[1, 2, 3]);
    after_reset.reset();
    assert_eq!(after_reset.result(), 0x726fdb47dd0e0e31);
}

#[test]
fn empty_message_zero_key() {
    assert_eq!(siphash(0, 0).result(), 0x1e924b9d737700d7);
    assert_eq!(hash(&[], &[0u8; 16]), 0x1e924b9d737700d7);
}

#[test]
fn all_ones_key() {
    let msg: [u8; 9] = [0xff; 9];
    assert_eq!(hash(&msg, &[0xffu8; 16]), 0x1b8d0792b6620321);
    let mut sh = siphash(u64::MAX, u64::MAX);
    sh.input(&msg);
    assert_eq!(sh.result(), 0x1b8d0792b6620321);
}

#[test]
fn length_byte_wraps_at_256() {
    // Only the length modulo 256 goes into the closing word.
    let m256: Vec<u8> = counting(256);
    let m300: Vec<u8> = counting(300);
    assert_eq!(hash(&m256, &KEY), 0x5b2189a0c1d87844);
    assert_eq!(hash(&m300, &KEY), 0x4ae97570bff6537a);

    let mut sh = siphash(K0, K1);
    sh.input(&m256);
    assert_eq!(sh.result(), 0x5b2189a0c1d87844);
    sh.input(&m300[256..]);
    assert_eq!(sh.result(), 0x4ae97570bff6537a);
}

#[test]
fn key_bytes_are_little_endian_words() {
    let m: Vec<u8> = counting(40);
    let mut sh = siphash(K0, K1);
    sh.input(&m);
    assert_eq!(hash(&m, &KEY), sh.result());

    let mut swapped = siphash(K1, K0);
    swapped.input(&m);
    assert_ne!(hash(&m, &KEY), swapped.result());
}

#[test]
fn text_goes_in_as_utf8() {
    let mut sh = siphash(K0, K1);
    sh.input_str("hello world");
    assert_eq!(sh.result(), 0xed5159c956cd5602);

    let mut sh = siphash(K0, K1);
    sh.input_str("héllo wörld ✓");
    assert_eq!(sh.result(), 0x4bedae73dc7949bf);

    let mut bytes = siphash(K0, K1);
    bytes.input(&[104, 195, 169, 108, 108, 111, 32, 119, 195, 182, 114, 108, 100, 32, 226, 156, 147]);
    assert_eq!(bytes.result(), 0x4bedae73dc7949bf);

    let mut split = siphash(K0, K1);
    split.input_str("hello");
    split.input_str("");
    split.input_str(" world");
    assert_eq!(split.result(), 0xed5159c956cd5602);
}
