use vstd::prelude::*;
use crate::types::TransformError;

verus! {

/// A compression collaborator: pure and stateless, safe to share between
/// workers. An input it does not accept is refused with an error, never
/// written half-transformed.
pub trait Compressor: Sized {
    /// The bytes this codec produces for an accepted input.
    spec fn compressed(&self, data: Seq<u8>) -> Seq<u8>;

    /// The inputs this codec accepts.
    spec fn accepts(&self, data: Seq<u8>) -> bool;

    fn compress(&self, data: Vec<u8>) -> (r: Result<Vec<u8>, TransformError>)
        ensures
            r is Ok <==> self.accepts(data@),
            r is Ok ==> r->Ok_0@ == self.compressed(data@),
    ;
}

/// The trivial codec: stores every chunk as handed in.
pub struct NoCompression;

impl Compressor for NoCompression {
    open spec fn compressed(&self, data: Seq<u8>) -> Seq<u8> {
        data
    }

    open spec fn accepts(&self, data: Seq<u8>) -> bool {
        true
    }

    fn compress(&self, data: Vec<u8>) -> (r: Result<Vec<u8>, TransformError>) {
        Ok(data)
    }
}

} // verus!
