use vstd::prelude::*;
use crate::types::Digest;

verus! {

#[verifier::external_type_specification]
#[verifier::external_body]
#[verifier::reject_recursive_types(T)]
pub struct ExReceiver<T>(two_lock_queue::Receiver<T>);

#[verifier::external_type_specification]
#[verifier::external_body]
#[verifier::reject_recursive_types(T)]
pub struct ExSender<T>(std::sync::mpsc::Sender<T>);

/// Relies on std::sync::mpsc::Sender::send: delivery succeeds exactly while
/// the receiving end still exists; the sent value itself is the argument, so
/// nothing further is stated here.
#[verifier::external_body]
pub(crate) fn send_response(
    tx: &std::sync::mpsc::Sender<(u64, Digest)>,
    sequence_id: u64,
    digest: Digest,
) -> (delivered: bool) {
    tx.send((sequence_id, digest)).is_ok()
}

} // verus!
