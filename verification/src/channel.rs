use tokio::sync::{mpsc, oneshot};
use vstd::prelude::*;

verus! {

/// The sending end of a bounded tokio queue, carried through opaquely.
#[verifier::external_type_specification]
#[verifier::external_body]
#[verifier::reject_recursive_types(T)]
pub struct ExQueueSender<T>(mpsc::Sender<T>);

/// The sending end of a single-use tokio reply channel, carried through opaquely.
#[verifier::external_type_specification]
#[verifier::external_body]
#[verifier::reject_recursive_types(T)]
pub struct ExReplySender<T>(oneshot::Sender<T>);

/// The receiving end of a single-use tokio reply channel, carried through opaquely.
#[verifier::external_type_specification]
#[verifier::external_body]
#[verifier::reject_recursive_types(T)]
pub struct ExReplyReceiver<T>(oneshot::Receiver<T>);

/// The error a reply receiver reports when its sender is gone; declared
/// because the receiver's type refers to it.
#[verifier::external_type_specification]
#[verifier::external_body]
pub struct ExReplyDropped(oneshot::error::RecvError);

/// Calls `tokio::sync::oneshot::channel`: a fresh single-use reply channel.
/// Nothing is claimed of the pair; which value later arrives depends on the
/// thread that holds the sender.
#[verifier::external_body]
pub(crate) fn reply_channel<T>() -> (pair: (oneshot::Sender<T>, oneshot::Receiver<T>)) {
    oneshot::channel::<T>()
}

/// Calls `tokio::sync::mpsc::Sender::blocking_send`, and reports whether the
/// message was handed to a live receiver. Nothing is claimed of the answer: it
/// depends on whether the receiving thread is still running. The call
/// panics when made from inside an asynchronous execution context, whatever
/// its arguments; the engine makes it only from its own threads.
#[verifier::external_body]
pub(crate) fn post<T>(queue: &mpsc::Sender<T>, message: T) -> (delivered: bool) {
    queue.blocking_send(message).is_ok()
}

/// Calls `tokio::sync::oneshot::Receiver::blocking_recv`: waits for the reply,
/// `None` when the sender was dropped unanswered. Nothing is claimed of the
/// value, which another thread computes. The call panics when made from
/// inside an asynchronous execution context, whatever its arguments; the
/// engine makes it only from its own threads.
#[verifier::external_body]
pub(crate) fn wait_reply<T>(receiver: oneshot::Receiver<T>) -> (reply: Option<T>) {
    match receiver.blocking_recv() {
        Ok(value) => Some(value),
        Err(_) => None,
    }
}

} // verus!
