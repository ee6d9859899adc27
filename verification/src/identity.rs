//! Identity derivation for freshly created assets.
//!
//! An identity is derived from a monotonically increasing nonce and a
//! randomness seed supplied by the host.  The derivation is a pure
//! function of those two inputs; it does not itself guarantee global
//! uniqueness, which is enforced downstream by the store's insert check.

use vstd::prelude::*;

verus! {

/// The four little-endian bytes of a nonce.
pub open spec fn u32_le_bytes(n: u32) -> Seq<u8> {
    seq![
        (n % 256) as u8,
        ((n / 256) % 256) as u8,
        ((n / 65536) % 256) as u8,
        ((n / 16777216) % 256) as u8,
    ]
}

/// The identity derived for a given nonce and seed: the encoded nonce
/// followed by the seed bytes.
pub open spec fn identity_of(nonce: u32, seed: Seq<u8>) -> Seq<u8> {
    u32_le_bytes(nonce) + seed
}

/// Encodes a nonce as its four little-endian bytes.
pub fn encode_nonce(n: u32) -> (r: Vec<u8>)
    ensures
        r@ == u32_le_bytes(n),
{
    let mut r: Vec<u8> = Vec::new();
    r.push((n % 256) as u8);
    r.push(((n / 256) % 256) as u8);
    r.push(((n / 65536) % 256) as u8);
    r.push(((n / 16777216) % 256) as u8);
    proof {
        assert(r@ =~= u32_le_bytes(n));
    }
    r
}

/// Derives the identity of a fresh asset from the current nonce and the
/// seed obtained from the host's randomness source.
pub fn generate(nonce: u32, seed: &Vec<u8>) -> (r: Vec<u8>)
    ensures
        r@ == identity_of(nonce, seed@),
{
    let mut r = encode_nonce(nonce);
    let mut i: usize = 0;
    while i < seed.len()
        invariant
            i <= seed@.len(),
            r@ == u32_le_bytes(nonce) + seed@.subrange(0, i as int),
        decreases seed@.len() - i,
    {
        r.push(seed[i]);
        i += 1;
        proof {
            assert(r@ =~= u32_le_bytes(nonce) + seed@.subrange(0, i as int));
        }
    }
    proof {
        assert(seed@.subrange(0, seed@.len() as int) =~= seed@);
    }
    r
}

} // verus!
