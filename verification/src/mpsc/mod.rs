//! A bounded channel for many senders and one receiver.
//!
//! A channel has a buffer. Messages beyond the buffer are accepted, too, but each parks its sender:
//! until the receiver has taken a message on its behalf, that sender finds the channel full.

pub mod effects;
pub mod error;
pub mod inner;
pub mod laws;
pub mod protocol;
pub mod queue;
pub mod receiver;
pub mod sender;
pub mod state;
pub mod view;

pub use error::{SendError, SendErrorKind, TryRecvError, TrySendError};
pub use inner::BoundedInner;
pub use receiver::{Receiver, Recv};
pub use sender::{BoundedSenderInner, SendFut, Sender};

use view::{ChannelView, SenderView};
use vstd::prelude::*;

verus! {

/// A channel with the given buffer: its first sender, its receiver, and what they share.
pub fn channel<T>(buffer: usize) -> (parts: (Sender<T>, Receiver<T>, BoundedInner<T>))
    requires
        buffer > 0,
    ensures
        parts.0@ == Some(SenderView { id: 0, maybe_parked: false }),
        parts.1@,
        parts.2.wf(),
        parts.2@ == ChannelView::<T>::initial(buffer as nat),
        parts.2@.knows(parts.0@),
{
    (Sender::first(), Receiver::first(), BoundedInner::new(buffer))
}

} // verus!
