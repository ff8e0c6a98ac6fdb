//! SHA-256 as FIPS 180-4 defines it, over byte sequences.

use vstd::prelude::*;

verus! {

/// Reduction modulo 2^32.
pub open spec fn wrap(x: int) -> u32 {
    (x % 0x1_0000_0000) as u32
}

/// Right rotation of a 32-bit word by `n` bits, `0 < n < 32`.
pub open spec fn rotr(x: u32, n: u32) -> u32 {
    (x >> n) | (x << ((32 - n) as u32))
}

pub open spec fn ch(e: u32, f: u32, g: u32) -> u32 {
    (e & f) ^ (!e & g)
}

pub open spec fn maj(a: u32, b: u32, c: u32) -> u32 {
    (a & b) ^ (a & c) ^ (b & c)
}

pub open spec fn big_sigma0(a: u32) -> u32 {
    rotr(a, 2) ^ rotr(a, 13) ^ rotr(a, 22)
}

pub open spec fn big_sigma1(e: u32) -> u32 {
    rotr(e, 6) ^ rotr(e, 11) ^ rotr(e, 25)
}

pub open spec fn small_sigma0(x: u32) -> u32 {
    rotr(x, 7) ^ rotr(x, 18) ^ (x >> 3u32)
}

pub open spec fn small_sigma1(x: u32) -> u32 {
    rotr(x, 17) ^ rotr(x, 19) ^ (x >> 10u32)
}

/// The round constants: the first 32 bits of the fractional parts of the cube roots of
/// the first 64 primes.
pub open spec fn round_constants() -> Seq<u32> {
    seq![
        0x428a2f98u32, 0x71374491u32, 0xb5c0fbcfu32, 0xe9b5dba5u32,
        0x3956c25bu32, 0x59f111f1u32, 0x923f82a4u32, 0xab1c5ed5u32,
        0xd807aa98u32, 0x12835b01u32, 0x243185beu32, 0x550c7dc3u32,
        0x72be5d74u32, 0x80deb1feu32, 0x9bdc06a7u32, 0xc19bf174u32,
        0xe49b69c1u32, 0xefbe4786u32, 0x0fc19dc6u32, 0x240ca1ccu32,
        0x2de92c6fu32, 0x4a7484aau32, 0x5cb0a9dcu32, 0x76f988dau32,
        0x983e5152u32, 0xa831c66du32, 0xb00327c8u32, 0xbf597fc7u32,
        0xc6e00bf3u32, 0xd5a79147u32, 0x06ca6351u32, 0x14292967u32,
        0x27b70a85u32, 0x2e1b2138u32, 0x4d2c6dfcu32, 0x53380d13u32,
        0x650a7354u32, 0x766a0abbu32, 0x81c2c92eu32, 0x92722c85u32,
        0xa2bfe8a1u32, 0xa81a664bu32, 0xc24b8b70u32, 0xc76c51a3u32,
        0xd192e819u32, 0xd6990624u32, 0xf40e3585u32, 0x106aa070u32,
        0x19a4c116u32, 0x1e376c08u32, 0x2748774cu32, 0x34b0bcb5u32,
        0x391c0cb3u32, 0x4ed8aa4au32, 0x5b9cca4fu32, 0x682e6ff3u32,
        0x748f82eeu32, 0x78a5636fu32, 0x84c87814u32, 0x8cc70208u32,
        0x90befffau32, 0xa4506cebu32, 0xbef9a3f7u32, 0xc67178f2u32,
    ]
}

/// The initial hash value: the first 32 bits of the fractional parts of the square roots
/// of the first 8 primes.
pub open spec fn initial_hash() -> Seq<u32> {
    seq![
        0x6a09e667u32, 0xbb67ae85u32, 0x3c6ef372u32, 0xa54ff53au32,
        0x510e527fu32, 0x9b05688cu32, 0x1f83d9abu32, 0x5be0cd19u32,
    ]
}

/// `256^k`, the weight of the `k`-th byte from the right in a big-endian number.
pub open spec fn byte_weight(k: int) -> int
    decreases k,
{
    if k <= 0 {
        1
    } else {
        256 * byte_weight(k - 1)
    }
}

/// The number of zero bytes after the `0x80` byte that bring the length to 56 mod 64.
pub open spec fn zero_padding(len: nat) -> int {
    (55 - (len % 64) as int) % 64
}

/// The padded message: `m`, the byte `0x80`, zero bytes, and the bit length of `m` as a
/// 64-bit big-endian number.
pub open spec fn padded(m: Seq<u8>) -> Seq<u8> {
    m + seq![0x80u8] + Seq::new(zero_padding(m.len()) as nat, |i: int| 0u8) + Seq::new(
        8,
        |i: int| (((8 * m.len()) as int / byte_weight(7 - i)) % 256) as u8,
    )
}

/// The `j`-th big-endian 32-bit word of a 64-byte block.
pub open spec fn block_word(blk: Seq<u8>, j: int) -> u32 {
    (blk[4 * j] as int * 0x100_0000 + blk[4 * j + 1] as int * 0x1_0000 + blk[4 * j + 2] as int
        * 0x100 + blk[4 * j + 3] as int) as u32
}

/// The message schedule `W_t` of a block.
pub open spec fn schedule(blk: Seq<u8>, t: nat) -> u32
    decreases t,
{
    if t < 16 {
        block_word(blk, t as int)
    } else {
        wrap(
            small_sigma1(schedule(blk, (t - 2) as nat)) + schedule(blk, (t - 7) as nat)
                + small_sigma0(schedule(blk, (t - 15) as nat)) + schedule(blk, (t - 16) as nat),
        )
    }
}

/// The working variables `a..h` after the first `t` rounds on a block, from hash value `h`.
pub open spec fn rounds(blk: Seq<u8>, h: Seq<u32>, t: nat) -> Seq<u32>
    decreases t,
{
    if t == 0 {
        h
    } else {
        let s = rounds(blk, h, (t - 1) as nat);
        let i = t - 1;
        let t1 = wrap(
            s[7] + big_sigma1(s[4]) + ch(s[4], s[5], s[6]) + round_constants()[i] + schedule(
                blk,
                i as nat,
            ),
        );
        let t2 = wrap(big_sigma0(s[0]) + maj(s[0], s[1], s[2]));
        seq![wrap(t1 + t2), s[0], s[1], s[2], wrap(s[3] + t1), s[4], s[5], s[6]]
    }
}

/// The hash value after one more block.
pub open spec fn compress(h: Seq<u32>, blk: Seq<u8>) -> Seq<u32> {
    let s = rounds(blk, h, 64);
    Seq::new(8, |i: int| wrap(h[i] + s[i]))
}

/// The hash value after the first `n` blocks of the padded message `p`.
pub open spec fn hash_blocks(p: Seq<u8>, n: nat) -> Seq<u32>
    decreases n,
{
    if n == 0 {
        initial_hash()
    } else {
        compress(hash_blocks(p, (n - 1) as nat), p.subrange(64 * (n - 1), 64 * n as int))
    }
}

/// The 8 words of a hash value as 32 big-endian bytes.
pub open spec fn hash_bytes(h: Seq<u32>) -> Seq<u8> {
    Seq::new(32, |i: int| ((h[i / 4] as int / byte_weight(3 - i % 4)) % 256) as u8)
}

/// SHA-256 of `m`: every block of the padded message, from first to last, folded into the
/// initial hash value.
pub open spec fn sha256_of(m: Seq<u8>) -> Seq<u8> {
    let p = padded(m);
    hash_bytes(hash_blocks(p, p.len() / 64))
}


/// A digest is 32 bytes long.
pub proof fn lemma_digest_len(m: Seq<u8>)
    ensures
        sha256_of(m).len() == 32,
{
}

/// The padded message holds all of `m` at its start, then `0x80`; its length is a whole
/// number of 64-byte blocks, at least 9 bytes more than `m`. So every byte of `m` goes
/// through the compression of some block, and all blocks are compressed.
pub proof fn lemma_padded_holds_message(m: Seq<u8>)
    ensures
        padded(m).len() % 64 == 0,
        padded(m).len() >= m.len() + 9,
        padded(m).len() < m.len() + 73,
        padded(m).subrange(0, m.len() as int) == m,
        padded(m)[m.len() as int] == 0x80u8,
        forall|i: int| 0 <= i < m.len() ==> #[trigger] padded(m)[i] == m[i] && i / 64 < padded(m).len()
            / 64,
{
    let l = m.len() as int;
    let r = l % 64;
    let k = zero_padding(m.len());
    assert(0 <= r < 64);
    assert(l == 64 * (l / 64) + r);
    if r <= 55 {
        assert(k == 55 - r);
    } else {
        assert(k == 119 - r);
    }
    let p = padded(m);
    assert(p.len() == l + 1 + k + 8);
    assert(p.len() == 64 * (l / 64) + (if r <= 55 { 64int } else { 128int }));
    assert(p.len() % 64 == 0) by {
        if r <= 55 {
            assert(p.len() == 64 * (l / 64 + 1));
        } else {
            assert(p.len() == 64 * (l / 64 + 2));
        }
    }
    assert(p.subrange(0, l) =~= m);
    assert forall|i: int| 0 <= i < l implies #[trigger] p[i] == m[i] && i / 64 < p.len() / 64 by {
        assert(p.len() / 64 * 64 == p.len()) by {
            if r <= 55 {
                assert(p.len() == 64 * (l / 64 + 1));
            } else {
                assert(p.len() == 64 * (l / 64 + 2));
            }
        }
    }
}

/// Messages of the same length that differ anywhere, even in their last byte, are
/// different padded messages: no byte is left out of what is hashed.
pub proof fn lemma_padding_keeps_every_byte(m1: Seq<u8>, m2: Seq<u8>, i: int)
    requires
        m1.len() == m2.len(),
        0 <= i < m1.len(),
        m1[i] != m2[i],
    ensures
        padded(m1) != padded(m2),
        padded(m1)[i] != padded(m2)[i],
{
    lemma_padded_holds_message(m1);
    lemma_padded_holds_message(m2);
}

/// The digest is that of the message's own blocks, in order: with a padded message of `n`
/// blocks, the hash value is the initial one folded with block 0, then 1, ..., then `n - 1`.
pub proof fn lemma_digest_folds_all_blocks(m: Seq<u8>)
    ensures
        sha256_of(m) == hash_bytes(hash_blocks(padded(m), padded(m).len() / 64)),
        padded(m).len() / 64 >= 1,
        padded(m).len() / 64 * 64 == padded(m).len(),
        hash_blocks(padded(m), padded(m).len() / 64) == compress(
            hash_blocks(padded(m), (padded(m).len() / 64 - 1) as nat),
            padded(m).subrange(padded(m).len() - 64, padded(m).len() as int),
        ),
{
    lemma_padded_holds_message(m);
    let p = padded(m);
    let n = p.len() / 64;
    assert(n * 64 == p.len()) by {
        assert(p.len() % 64 == 0);
    }
    assert(64 * (n - 1) == p.len() - 64);
}

} // verus!
