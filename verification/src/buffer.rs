use vstd::prelude::*;

verus! {

#[verifier::external_type_specification]
#[verifier::external_body]
pub struct ExSGData(sgdata::SGData);

/// The logical byte stream a scatter-gather buffer presents: the
/// concatenation of its parts, in order.
pub uninterp spec fn sg_bytes(sg: sgdata::SGData) -> Seq<u8>;

/// Relies on sgdata::SGData::to_linear: the linear form holds the buffer's
/// parts concatenated in order, i.e. the logical byte stream.
#[verifier::external_body]
pub(crate) fn sg_to_bytes(sg: &sgdata::SGData) -> (r: Vec<u8>)
    ensures
        r@ == sg_bytes(*sg),
{
    sg.to_linear().to_vec()
}

} // verus!
