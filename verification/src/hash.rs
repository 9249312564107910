//! The hash function applied to encoded keys: 64-bit FNV-1a.

use vstd::prelude::*;

verus! {

/// The value the hash of the empty byte string has.
pub const FNV_OFFSET_BASIS: u64 = 0xcbf2_9ce4_8422_2325;

/// The multiplier applied after each byte.
pub const FNV_PRIME: u64 = 0x0000_0100_0000_01b3;

/// The hash after one more byte: exclusive-or with the byte, then a
/// multiplication by the prime that keeps the low 64 bits.
pub open spec fn fnv_step(hash: u64, byte: u8) -> u64 {
    (hash ^ (byte as u64)).wrapping_mul(FNV_PRIME)
}

/// The hash of a byte string: the bytes folded from first to last, starting
/// from the offset basis.
pub open spec fn fast_hash_spec(bytes: Seq<u8>) -> u64
    decreases bytes.len(),
{
    if bytes.len() == 0 {
        FNV_OFFSET_BASIS
    } else {
        fnv_step(fast_hash_spec(bytes.drop_last()), bytes.last())
    }
}

/// Hashes a key given as bytes.
pub fn fast_hash(bytes: &[u8]) -> (r: u64)
    ensures
        r == fast_hash_spec(bytes@),
{
    let mut hash: u64 = FNV_OFFSET_BASIS;
    let mut i: usize = 0;
    while i < bytes.len()
        invariant
            i <= bytes.len(),
            hash == fast_hash_spec(bytes@.take(i as int)),
        decreases bytes.len() - i,
    {
        proof {
            assert(bytes@.take(i + 1).drop_last() =~= bytes@.take(i as int));
        }
        hash = (hash ^ (bytes[i] as u64)).wrapping_mul(FNV_PRIME);
        i += 1;
    }
    assert(bytes@.take(i as int) =~= bytes@);
    hash
}

} // verus!
