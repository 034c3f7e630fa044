//! The hash that every sketch is keyed by.

use vstd::prelude::*;

verus! {

/// The 128-bit MurmurHash3 digest of `bytes` under `seed`, as two words.
pub uninterp spec fn murmur3_x64_128(bytes: Seq<u8>, seed: u32) -> (u64, u64);

/// Calls `mur3::murmurhash3_x64_128`. The digest is a function of the bytes
/// and the seed alone; the contract names it and claims nothing else.
#[verifier::external_body]
pub(crate) fn hash128(bytes: &Vec<u8>, seed: u32) -> (digest: (u64, u64))
    ensures
        digest == murmur3_x64_128(bytes@, seed),
{
    mur3::murmurhash3_x64_128(bytes.as_slice(), seed)
}

/// The first word of the seed-0 digest: the hash a distinct-value sketch
/// stores for `bytes`.
pub open spec fn hash64(bytes: Seq<u8>) -> u64 {
    murmur3_x64_128(bytes, 0).0
}

} // verus!
