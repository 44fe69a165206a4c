//! The in-memory delivery path from a room to one connection: the two ends of
//! a bounded tokio channel carrying serialized messages.

use vstd::prelude::*;

verus! {

/// How many payloads a connection's channel holds before it stops taking
/// more; a payload that no channel of a member takes is queued for the
/// member instead.
pub const CHANNEL_CAPACITY: usize = 256;

#[verifier::external_type_specification]
#[verifier::external_body]
#[verifier::reject_recursive_types(T)]
pub struct ExSender<T>(tokio::sync::mpsc::Sender<T>);

#[verifier::external_type_specification]
#[verifier::external_body]
#[verifier::reject_recursive_types(T)]
pub struct ExReceiver<T>(tokio::sync::mpsc::Receiver<T>);

/// Relies on `tokio::sync::mpsc::channel`: a fresh channel that holds up to
/// `capacity` payloads. It panics on a capacity of zero or above
/// `usize::MAX >> 3`, which `requires` leaves out.
#[verifier::external_body]
pub(crate) fn open_channel(capacity: usize) -> (r: (
    tokio::sync::mpsc::Sender<String>,
    tokio::sync::mpsc::Receiver<String>,
))
    requires
        0 < capacity <= usize::MAX / 8,
{
    tokio::sync::mpsc::channel::<String>(capacity)
}

/// Relies on `tokio::sync::mpsc::Sender::try_send`: it hands the payload to
/// the receiving half without waiting, and fails when the channel is full or
/// its receiving half is closed. Both depend on the other task, so nothing is
/// promised of the outcome.
#[verifier::external_body]
pub(crate) fn try_send_text(tx: &tokio::sync::mpsc::Sender<String>, payload: String) -> (delivered: bool) {
    tx.try_send(payload).is_ok()
}

} // verus!
