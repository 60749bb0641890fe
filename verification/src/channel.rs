//! Trusted adapter for the byte-oriented channel pair.
//!
//! The transport is a pair of in-process mpsc channels carrying whole
//! frames (`Vec<u8>`); it is ordered, reliable and frame-preserving.
//! Nothing is assumed about the bytes a frame holds: the peer is outside
//! the verified boundary.

use vstd::prelude::*;
use std::sync::mpsc::Receiver;
use std::sync::mpsc::Sender;

verus! {

#[verifier::external_type_specification]
#[verifier::external_body]
#[verifier::reject_recursive_types(T)]
pub struct ExSender<T>(Sender<T>);

#[verifier::external_type_specification]
#[verifier::external_body]
#[verifier::reject_recursive_types(T)]
pub struct ExReceiver<T>(Receiver<T>);

/// Relies on `Sender::send`: queues one frame; reports whether the peer end
/// is still open.
#[verifier::external_body]
pub(crate) fn send_frame(tx: &Sender<Vec<u8>>, frame: Vec<u8>) -> bool {
    tx.send(frame).is_ok()
}

/// Relies on `Receiver::recv`: blocks for the next frame; `None` when the
/// channel closed.  Nothing is promised of the bytes received.
#[verifier::external_body]
pub(crate) fn recv_frame(rx: &Receiver<Vec<u8>>) -> Option<Vec<u8>> {
    rx.recv().ok()
}

} // verus!
