use vstd::prelude::*;

verus! {

/// A content-derived, fixed-size identifier for a chunk. Equality of digests
/// is treated as equality of content (the content-addressing assumption).
#[derive(Clone, Copy, PartialEq, Eq, Structural, Debug, Hash)]
pub struct Digest(pub u64);

/// One storage epoch of the store. Epochs are distinct namespaces, identified
/// here by a number; a larger number means a newer generation.
#[derive(Clone, Copy, PartialEq, Eq, Structural, Debug, Hash)]
pub struct Generation(pub u64);

/// Tag classifying a payload; it decides which transforms apply before the
/// chunk is written.
#[derive(Clone, Copy, PartialEq, Eq, Structural, Debug)]
pub enum DataType {
    /// Raw chunk data: compressed and encrypted before being stored.
    Data,
    /// Index/metadata chunks: stored as handed in.
    Index,
}

impl DataType {
    pub open spec fn spec_should_compress(self) -> bool {
        self is Data
    }

    pub open spec fn spec_should_encrypt(self) -> bool {
        self is Data
    }

    pub fn should_compress(self) -> (r: bool)
        ensures
            r == self.spec_should_compress(),
    {
        matches!(self, DataType::Data)
    }

    pub fn should_encrypt(self) -> (r: bool)
        ensures
            r == self.spec_should_encrypt(),
    {
        matches!(self, DataType::Data)
    }
}

/// A transform collaborator refused its input.
#[derive(Clone, Copy, PartialEq, Eq, Structural, Debug)]
pub struct TransformError;

/// Why a worker gave up on a request (or on its whole loop).
#[derive(Clone, Copy, PartialEq, Eq, Structural, Debug)]
pub enum ProcessError {
    /// The compressor refused the payload; the chunk must not be written.
    Compression,
    /// The encrypter refused the payload; the chunk must not be written.
    Encryption,
    /// A rename failed and the destination is still absent: a storage fault.
    StorageFault,
    /// The response channel's receiving end is gone.
    ResponseChannelClosed,
}

} // verus!
