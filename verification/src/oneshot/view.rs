//! The mathematical model of a one-shot channel, and what each operation does to it.

use super::RecvError;
use crate::poll::Poll;
use vstd::prelude::*;

verus! {

/// What the two sides of a one-shot channel share.
#[verifier::ext_equal]
pub struct OneshotView<T> {
    /// One of the sides is gone.
    pub complete: bool,
    /// The value that was sent and not yet received.
    pub data: Option<T>,
    pub data_locked: bool,
    /// The task that waits for the value.
    pub rx_waker: Option<int>,
    pub waker_locked: bool,
    /// The tasks that are due to be woken.
    pub wakes: Seq<int>,
    /// The tasks of the wakers that were replaced or are of no use any more.
    pub discarded: Seq<int>,
}

impl<T> OneshotView<T> {
    pub open spec fn initial() -> Self {
        OneshotView {
            complete: false,
            data: None,
            data_locked: false,
            rx_waker: None,
            waker_locked: false,
            wakes: Seq::empty(),
            discarded: Seq::empty(),
        }
    }

    /// A value can be stored: nobody is gone, and the slot can be locked.
    pub open spec fn takes_value(self) -> bool {
        !self.complete && !self.data_locked
    }

    /// The value in the slot, for who can lock the slot.
    pub open spec fn reachable(self) -> Option<T> {
        if self.data_locked {
            None
        } else {
            self.data
        }
    }

    /// The slot is empty for who can lock it.
    pub open spec fn emptied(self) -> Self {
        OneshotView {
            data: if self.data_locked {
                self.data
            } else {
                None
            },
            ..self
        }
    }

    /// The value is stored, or handed back.
    pub open spec fn store_step(self, value: T) -> (OneshotView<T>, Result<(), T>) {
        if self.takes_value() {
            (OneshotView { data: Some(value), ..self }, Ok(()))
        } else {
            (self, Err(value))
        }
    }

    /// A value that was stored for a receiver that is gone meanwhile is taken back.
    pub open spec fn reclaim_step(self) -> (OneshotView<T>, Result<(), T>) {
        if self.complete {
            match self.reachable() {
                Some(value) => (self.emptied(), Err(value)),
                None => (self, Ok(())),
            }
        } else {
            (self, Ok(()))
        }
    }

    /// The sender is gone, and the waiting task falls due.
    pub open spec fn sender_gone(self) -> Self {
        if self.waker_locked {
            OneshotView { complete: true, ..self }
        } else {
            OneshotView {
                complete: true,
                rx_waker: None,
                wakes: match self.rx_waker {
                    Some(task) => self.wakes.push(task),
                    None => self.wakes,
                },
                ..self
            }
        }
    }

    /// `waker` is of no use any more, if there is one.
    pub open spec fn discarding(self, waker: Option<int>) -> Self {
        match waker {
            Some(task) => OneshotView { discarded: self.discarded.push(task), ..self },
            None => self,
        }
    }

    /// The receiver is gone, and nobody waits.
    pub open spec fn receiver_gone(self) -> Self {
        if self.waker_locked {
            OneshotView { complete: true, ..self }
        } else {
            OneshotView { complete: true, rx_waker: None, ..self.discarding(self.rx_waker) }
        }
    }

    /// The value, if the sender is done.
    pub open spec fn try_recv_step(self) -> (OneshotView<T>, Result<Option<T>, RecvError>) {
        if self.complete {
            match self.reachable() {
                Some(value) => (self.emptied(), Ok(Some(value))),
                None => (self, Err(RecvError)),
            }
        } else {
            (self, Ok(None))
        }
    }

    /// The first half of a wait: unless the sender is done, `waker` is left to be woken. The answer
    /// is whether there is no use in waiting.
    pub open spec fn await_step(self, waker: int) -> (OneshotView<T>, bool) {
        if self.complete || self.waker_locked {
            (self, true)
        } else {
            (OneshotView { rx_waker: Some(waker), ..self.discarding(self.rx_waker) }, false)
        }
    }

    /// The second half of a wait: the value, if the sender is done by now.
    pub open spec fn settle_step(self, done: bool) -> (
        OneshotView<T>,
        Poll<Result<T, RecvError>>,
    ) {
        if done || self.complete {
            match self.reachable() {
                Some(value) => (self.emptied(), Poll::Ready(Ok(value))),
                None => (self, Poll::Ready(Err(RecvError))),
            }
        } else {
            (self, Poll::Pending)
        }
    }

    /// Both halves of a wait.
    pub open spec fn recv_step(self, waker: int) -> (OneshotView<T>, Poll<Result<T, RecvError>>) {
        let (chan, done) = self.await_step(waker);
        chan.settle_step(done)
    }
}

} // verus!
