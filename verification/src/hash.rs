//! Hashes in the manner of FNV-1a over the UTF-8 bytes of a text.
//!
//! They only need to be stable and collision-resistant enough to key
//! templates and a local cache; they are not protecting anything.

use vstd::prelude::*;
use vstd::utf8::encode_utf8;

verus! {

/// The hash of no bytes.
pub const FNV_BASIS: u64 = 0xcbf2_9ce4_8422_2325;

/// The multiplier of FNV-1a at 64 bits.
pub const FNV_PRIME: u64 = 0x100_0000_01b3;

/// The hash of some bytes: each is folded in by an exclusive or and a
/// multiplication modulo 2^64.
pub open spec fn folded(bytes: Seq<u8>, multiplier: u64) -> u64
    decreases bytes.len(),
{
    if bytes.len() == 0 {
        FNV_BASIS
    } else {
        (folded(bytes.drop_last(), multiplier) ^ (bytes.last() as u64)).wrapping_mul(multiplier)
    }
}

/// The hash of a text.
pub open spec fn text_hash(s: Seq<char>, multiplier: u64) -> u64 {
    folded(encode_utf8(s), multiplier)
}

/// Hash a text.
pub fn hash_of(s: &str, multiplier: u64) -> (h: u64)
    ensures
        h == text_hash(s@, multiplier),
{
    let bytes = s.as_bytes();
    let mut h: u64 = FNV_BASIS;
    let mut i: usize = 0;
    while i < bytes.len()
        invariant
            i <= bytes@.len(),
            h == folded(bytes@.take(i as int), multiplier),
        decreases bytes@.len() - i,
    {
        proof {
            assert(bytes@.take(i + 1).drop_last() == bytes@.take(i as int));
            assert(bytes@.take(i + 1).last() == bytes@[i as int]);
        }
        h = (h ^ (bytes[i] as u64)).wrapping_mul(multiplier);
        i += 1;
    }
    proof {
        assert(bytes@.take(i as int) == bytes@);
    }
    h
}

} // verus!
