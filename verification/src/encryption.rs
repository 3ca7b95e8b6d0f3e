use vstd::prelude::*;
use crate::types::{Digest, TransformError};

verus! {

/// An encryption collaborator: pure and stateless. The chunk's digest is the
/// associated input, so the transform output is bound to content identity.
pub trait Encrypter: Sized {
    /// The bytes this cipher produces for an accepted input under `key`.
    spec fn encrypted(&self, data: Seq<u8>, key: Digest) -> Seq<u8>;

    /// The inputs this cipher accepts under `key`.
    spec fn accepts(&self, data: Seq<u8>, key: Digest) -> bool;

    fn encrypt(&self, data: Vec<u8>, key: Digest) -> (r: Result<Vec<u8>, TransformError>)
        ensures
            r is Ok <==> self.accepts(data@, key),
            r is Ok ==> r->Ok_0@ == self.encrypted(data@, key),
    ;
}

/// The trivial cipher: stores every chunk as handed in.
pub struct NoEncryption;

impl Encrypter for NoEncryption {
    open spec fn encrypted(&self, data: Seq<u8>, key: Digest) -> Seq<u8> {
        data
    }

    open spec fn accepts(&self, data: Seq<u8>, key: Digest) -> bool {
        true
    }

    fn encrypt(&self, data: Vec<u8>, key: Digest) -> (r: Result<Vec<u8>, TransformError>) {
        Ok(data)
    }
}

/// The byte of the keystream that `key` yields at position `i`: the digest's
/// little-endian bytes, repeated.
pub open spec fn keystream_byte(key: Digest, i: int) -> u8 {
    ((key.0 >> (((i % 8) * 8) as u64)) & 0xff) as u8
}

/// A keyed masking cipher: each byte is XOR-ed with a keystream derived from
/// the digest. Reversible and content-bound, but not cryptographically strong;
/// a deployment wires in a real cipher behind the same trait.
pub struct XorKeystream;

impl Encrypter for XorKeystream {
    open spec fn encrypted(&self, data: Seq<u8>, key: Digest) -> Seq<u8> {
        Seq::new(data.len(), |i: int| data[i] ^ keystream_byte(key, i))
    }

    open spec fn accepts(&self, data: Seq<u8>, key: Digest) -> bool {
        true
    }

    fn encrypt(&self, data: Vec<u8>, key: Digest) -> (r: Result<Vec<u8>, TransformError>) {
        let mut out: Vec<u8> = Vec::new();
        let mut i: usize = 0;
        while i < data.len()
            invariant
                i <= data@.len(),
                out@.len() == i,
                forall|j: int| 0 <= j < i ==> out@[j] == data@[j] ^ keystream_byte(key, j),
            decreases data@.len() - i,
        {
            let shift: u64 = ((i % 8) as u64) * 8;
            let kb: u8 = ((key.0 >> shift) & 0xff) as u8;
            out.push(data[i] ^ kb);
            i = i + 1;
        }
        proof {
            assert(out@ =~= self.encrypted(data@, key));
        }
        Ok(out)
    }
}

} // verus!
