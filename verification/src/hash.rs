//! FNV-1a, the 64-bit content hash of the fixed-layout records.

use vstd::prelude::*;

verus! {

/// Initial state of the 64-bit FNV-1a hash.
pub const FNV_OFFSET_BASIS: u64 = 0xcbf29ce484222325;

/// Multiplier of the 64-bit FNV-1a hash.
pub const FNV_PRIME: u64 = 0x100000001b3;

/// One round: fold the byte into the low bits, then multiply modulo `2^64`.
pub open spec fn fnv1a_mix(state: u64, byte: u8) -> u64 {
    (state ^ (byte as u64)).wrapping_mul(FNV_PRIME)
}

/// FNV-1a of a byte string: the rounds applied from the first byte to the
/// last, starting from the offset basis.
pub open spec fn fnv1a_hash(data: Seq<u8>) -> u64
    decreases data.len(),
{
    if data.len() == 0 {
        FNV_OFFSET_BASIS
    } else {
        fnv1a_mix(fnv1a_hash(data.drop_last()), data.last())
    }
}

/// Computes the 64-bit FNV-1a hash of `data`.
pub fn fnv1a(data: &[u8]) -> (h: u64)
    ensures
        h == fnv1a_hash(data@),
{
    let mut h: u64 = FNV_OFFSET_BASIS;
    let mut i: usize = 0;
    proof {
        assert(data@.subrange(0, 0) =~= Seq::<u8>::empty());
    }
    while i < data.len()
        invariant
            i <= data@.len(),
            h == fnv1a_hash(data@.subrange(0, i as int)),
        decreases data@.len() - i,
    {
        let b: u8 = data[i];
        proof {
            let next = data@.subrange(0, i + 1);
            assert(next.drop_last() =~= data@.subrange(0, i as int));
            assert(next.last() == b);
        }
        h = (h ^ (b as u64)).wrapping_mul(FNV_PRIME);
        i = i + 1;
    }
    proof {
        assert(data@.subrange(0, i as int) =~= data@);
    }
    h
}

} // verus!
