//! The errors of a bounded channel.

use vstd::prelude::*;

verus! {

/// A message that was not sent, and why.
#[derive(Debug)]
pub struct TrySendError<T> {
    pub kind: SendErrorKind,
    pub value: T,
}

/// Why a message was not sent.
#[derive(Debug)]
pub struct SendError {
    pub kind: SendErrorKind,
}

#[derive(Debug)]
pub enum SendErrorKind {
    /// The sender has to wait for the receiver.
    Full,
    /// The channel is closed.
    Closed,
    /// The sender has let go of its channel.
    Disconnected,
}

/// Why no message was received.
#[derive(Debug)]
pub enum TryRecvError {
    /// The channel is closed, and all its messages are received.
    Closed,
    /// No message is there yet.
    Emptiy,
}

} // verus!
