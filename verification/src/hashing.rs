use vstd::prelude::*;
use crate::types::Digest;

verus! {

pub const FNV64_OFFSET_BASIS: u64 = 0xcbf29ce484222325;

pub const FNV64_PRIME: u64 = 0x100000001b3;

/// One round of 64-bit FNV-1a: fold a byte into the running hash.
pub open spec fn fnv64_step(h: u64, b: u8) -> u64 {
    ((((h ^ (b as u64)) as int) * (FNV64_PRIME as int)) % 0x10000000000000000) as u64
}

/// 64-bit FNV-1a over a byte sequence.
pub open spec fn fnv64_of(data: Seq<u8>) -> u64
    decreases data.len(),
{
    if data.len() == 0 {
        FNV64_OFFSET_BASIS
    } else {
        fnv64_step(fnv64_of(data.drop_last()), data.last())
    }
}

/// A content hasher. The digest is a function of the bytes alone, so the same
/// payload yields the same digest on every worker.
pub trait Hasher: Sized {
    /// The digest this hasher assigns to a byte sequence.
    spec fn digest_of(&self, data: Seq<u8>) -> u64;

    fn calculate_digest(&self, data: &Vec<u8>) -> (r: Digest)
        ensures
            r.0 == self.digest_of(data@),
    ;
}

/// The 64-bit FNV-1a hasher.
pub struct Fnv64Hasher;

impl Hasher for Fnv64Hasher {
    open spec fn digest_of(&self, data: Seq<u8>) -> u64 {
        fnv64_of(data)
    }

    fn calculate_digest(&self, data: &Vec<u8>) -> (r: Digest) {
        let mut h: u64 = FNV64_OFFSET_BASIS;
        let mut i: usize = 0;
        while i < data.len()
            invariant
                i <= data@.len(),
                h == fnv64_of(data@.take(i as int)),
            decreases data@.len() - i,
        {
            let b = data[i];
            let prod: u128 = ((h ^ (b as u64)) as u128) * (FNV64_PRIME as u128);
            h = (prod % 0x10000000000000000u128) as u64;
            proof {
                assert(data@.take(i + 1).drop_last() =~= data@.take(i as int));
                assert(data@.take(i + 1).last() == data@[i as int]);
            }
            i = i + 1;
        }
        proof {
            assert(data@.take(data@.len() as int) =~= data@);
        }
        Digest(h)
    }
}

} // verus!
