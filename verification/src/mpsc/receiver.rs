//! The receiving side of a channel.

use super::error::TryRecvError;
use super::inner::BoundedInner;
use crate::oneshot::RecvError;
use crate::poll::Poll;
use crate::wake;
use std::marker::PhantomData;
use std::task::Waker;
use vstd::prelude::*;

verus! {

/// The receiver, and whether it still holds on to the channel.
pub struct Receiver<T> {
    connected: bool,
    channel: PhantomData<T>,
}

/// The wait for the next item of `stream`.
pub struct Recv<'a, St> {
    pub stream: &'a mut St,
}

impl<T> View for Receiver<T> {
    type V = bool;

    closed spec fn view(&self) -> bool {
        self.connected
    }
}

impl<T> Receiver<T> {
    /// The receiver of a new channel.
    pub(crate) fn first() -> (receiver: Self)
        ensures
            receiver@,
    {
        Receiver { connected: true, channel: PhantomData }
    }

    /// Waits for the next message: `Recv::poll` makes the attempts.
    pub fn recv<'a>(&'a mut self) -> (recv: Recv<'a, Self>)
        ensures
            recv.stream@ == old(self)@,
            *final(self) == *final(recv.stream),
    {
        Recv { stream: self }
    }

    /// Takes the oldest message, or says why there is none.
    pub fn try_recv(&mut self, inner: &mut BoundedInner<T>) -> (result: Result<T, TryRecvError>)
        requires
            old(inner).wf(),
        ensures
            final(inner).wf(),
            ({
                let (chan, connected, answer) = old(inner)@.next_message_step(old(self)@);
                &&& final(inner)@ == chan
                &&& final(self)@ == connected
                &&& result == match answer {
                    Poll::Ready(Some(msg)) => Ok(msg),
                    Poll::Ready(None) => Err(TryRecvError::Closed),
                    Poll::Pending => Err(TryRecvError::Emptiy),
                }
            }),
    {
        match self.next_message(inner) {
            Poll::Ready(Some(msg)) => Ok(msg),
            Poll::Ready(None) => Err(TryRecvError::Closed),
            Poll::Pending => Err(TryRecvError::Emptiy),
        }
    }

    /// Takes the oldest message, which unparks one sender.
    pub fn next_message(&mut self, inner: &mut BoundedInner<T>) -> (answer: Poll<Option<T>>)
        requires
            old(inner).wf(),
        ensures
            final(inner).wf(),
            (final(inner)@, final(self)@, answer) == old(inner)@.next_message_step(old(self)@),
    {
        if !self.connected {
            return Poll::Ready(None);
        }
        match inner.pop_message() {
            Some(msg) => {
                self.unpark_one(inner);
                self.dec_num_msg(inner);
                Poll::Ready(Some(msg))
            },
            None => {
                if !inner.is_open() {
                    self.connected = false;
                    return Poll::Ready(None);
                }
                Poll::Pending
            },
        }
    }

    /// Unparks the first sender in line.
    pub fn unpark_one(&self, inner: &mut BoundedInner<T>)
        requires
            old(inner).wf(),
        ensures
            final(inner).wf(),
            final(inner)@ == if self@ {
                old(inner)@.unparked_one()
            } else {
                old(inner)@
            },
    {
        if self.connected {
            inner.unpark_one();
        }
    }

    /// Takes back the announcement of a message. If that message has left the queue, the channel
    /// stays well-formed.
    pub fn dec_num_msg(&self, inner: &mut BoundedInner<T>)
        requires
            old(inner).queues_wf(),
            self@ ==> old(inner)@.num_msg >= 1,
        ensures
            final(inner).queues_wf(),
            old(inner).wf() && (self@ ==> old(inner)@.messages.len() < old(inner)@.num_msg)
                ==> final(inner).wf(),
            final(inner)@ == if self@ {
                old(inner)@.uncounted()
            } else {
                old(inner)@
            },
    {
        if self.connected {
            inner.dec_num_msg();
        }
    }

    /// Closes the channel and unparks all senders. What is in the queue can still be received.
    pub fn close(&self, inner: &mut BoundedInner<T>)
        requires
            old(inner).wf(),
        ensures
            final(inner).wf(),
            final(inner)@ == old(inner)@.receiver_close_step(self@),
            final(inner)@.live() == old(inner)@.live(),
    {
        if self.connected {
            inner.close();
            let ghost closed = inner@;
            proof {
                assert(closed.live() =~= old(inner)@.live());
                closed.lemma_unparked_all_keeps_the_rest();
            }
            let mut more: bool = inner.unpark_one();
            while more
                invariant
                    inner.wf(),
                    inner@.unparked_all() == closed.unparked_all(),
                    !more ==> inner@.parked.len() == 0,
                decreases inner@.parked.len() + (if more { 1int } else { 0int }),
            {
                more = inner.unpark_one();
            }
        }
    }

    /// Takes the oldest message. If there is none yet, `waker` is what to wake once there is.
    pub fn poll_next(&mut self, inner: &mut BoundedInner<T>, waker: &Waker) -> (answer: Poll<
        Option<T>,
    >)
        requires
            old(inner).wf(),
        ensures
            final(inner).wf(),
            (final(inner)@, final(self)@, answer) == old(inner)@.poll_next_step(
                old(self)@,
                wake::task_of(*waker),
            ),
    {
        match self.next_message(inner) {
            Poll::Ready(msg) => {
                if msg.is_none() {
                    self.connected = false;
                }
                Poll::Ready(msg)
            },
            Poll::Pending => {
                inner.register_receiver(waker);
                Poll::Pending
            },
        }
    }
}

impl<'a, T> Recv<'a, Receiver<T>> {
    /// One attempt to take the next message. If there is none yet, `waker` is what to wake once
    /// there is.
    pub fn poll(&mut self, inner: &mut BoundedInner<T>, waker: &Waker) -> (poll: Poll<
        Result<T, RecvError>,
    >)
        requires
            old(inner).wf(),
        ensures
            final(inner).wf(),
            ({
                let (chan, connected, answer) = old(inner)@.poll_next_step(
                    old(self).stream@,
                    wake::task_of(*waker),
                );
                &&& final(inner)@ == chan
                &&& final(self).stream@ == connected
                &&& poll == match answer {
                    Poll::Ready(Some(msg)) => Poll::Ready(Ok(msg)),
                    Poll::Ready(None) => Poll::Ready(Err(RecvError)),
                    Poll::Pending => Poll::Pending,
                }
            }),
            *final(final(self).stream) == *final(old(self).stream),
    {
        match self.stream.poll_next(inner, waker) {
            Poll::Ready(Some(msg)) => Poll::Ready(Ok(msg)),
            Poll::Ready(None) => Poll::Ready(Err(RecvError)),
            Poll::Pending => Poll::Pending,
        }
    }
}

} // verus!
