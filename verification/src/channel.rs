//! Trusted surface over the duplex channel to the simulation backend.
//! Both primitives are non-blocking for this crate's use (the command
//! channel is unbounded); what they return depends on the peer, so the
//! contracts state only the shape of every possible outcome.

use vstd::prelude::*;

use crate::commands::{GUICommands, GUIEvents};

verus! {

#[verifier::external_type_specification]
#[verifier::external_body]
#[verifier::reject_recursive_types(T)]
pub struct ExSender<T>(crossbeam_channel::Sender<T>);

#[verifier::external_type_specification]
#[verifier::external_body]
#[verifier::reject_recursive_types(T)]
pub struct ExReceiver<T>(crossbeam_channel::Receiver<T>);

/// What one non-blocking receive attempt produced.
#[derive(Debug)]
pub enum RecvOutcome {
    /// A queued event.
    Event(GUIEvents),
    /// Nothing waiting; not an error.
    Empty,
    /// Every sender is gone; fatal for the session.
    Disconnected,
}

/// Relies on crossbeam-channel's Sender::send: true exactly when the
/// message was queued, false when every receiver is gone. Which of the
/// two happens depends on the peer, so nothing more is stated.
#[verifier::external_body]
pub fn channel_send(s: &crossbeam_channel::Sender<GUICommands>, c: GUICommands) -> (sent: bool) {
    s.send(c).is_ok()
}

/// Relies on crossbeam-channel's Receiver::try_recv: a queued event, or
/// `Empty` when none waits, or `Disconnected` when every sender is gone.
/// Which outcome comes back depends on the peer, so nothing is stated of
/// it.
#[verifier::external_body]
pub fn channel_try_recv(r: &crossbeam_channel::Receiver<GUIEvents>) -> (out: RecvOutcome) {
    match r.try_recv() {
        Ok(ev) => RecvOutcome::Event(ev),
        Err(crossbeam_channel::TryRecvError::Empty) => RecvOutcome::Empty,
        Err(crossbeam_channel::TryRecvError::Disconnected) => RecvOutcome::Disconnected,
    }
}

} // verus!
