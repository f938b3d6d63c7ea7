//! A channel for one value.

pub mod effects;
pub mod laws;
pub mod view;

use crate::lock::Lock;
use crate::poll::Poll;
use crate::wake::{self, WakeList};
use std::marker::PhantomData;
use std::task::Waker;
use view::OneshotView;
use vstd::prelude::*;

verus! {

/// No value will come.
#[derive(Debug)]
pub struct RecvError;

/// The side that sends the value.
pub struct Sender<T> {
    channel: PhantomData<T>,
}

/// The side that receives the value.
pub struct Receiver<T> {
    channel: PhantomData<T>,
}

/// What the two sides share.
pub struct Inner<T> {
    /// One of the sides is gone.
    pub complete: bool,
    /// The slot for the value.
    pub data: Lock<Option<T>>,
    /// What to wake when the sender is done.
    pub rx_waker: Lock<Option<Waker>>,
    /// What is due to be woken.
    pub wakes: WakeList,
    /// What was replaced or is of no use any more.
    pub discarded: WakeList,
}

impl<T> View for Inner<T> {
    type V = OneshotView<T>;

    open spec fn view(&self) -> OneshotView<T> {
        OneshotView {
            complete: self.complete,
            data: self.data.data,
            data_locked: self.data.locked,
            rx_waker: wake::task_of_opt(self.rx_waker.data),
            waker_locked: self.rx_waker.locked,
            wakes: self.wakes@,
            discarded: self.discarded@,
        }
    }
}

/// A one-shot channel: its two sides, and what they share.
pub fn channel<T>() -> (parts: (Sender<T>, Receiver<T>, Inner<T>))
    ensures
        parts.2@ == OneshotView::<T>::initial(),
{
    (Sender { channel: PhantomData }, Receiver { channel: PhantomData }, Inner::new())
}

impl<T> Inner<T> {
    pub fn new() -> (inner: Self)
        ensures
            inner@ == OneshotView::<T>::initial(),
    {
        Inner {
            complete: false,
            data: Lock::new(None),
            rx_waker: Lock::new(None),
            wakes: WakeList::new(),
            discarded: WakeList::new(),
        }
    }

    /// The tasks that are due to be woken, in order; the caller has to wake them.
    pub fn take_wakes(&mut self) -> (due: Vec<Waker>)
        ensures
            wake::tasks_of(due@) == old(self)@.wakes,
            final(self)@ == (OneshotView { wakes: Seq::<int>::empty(), ..old(self)@ }),
    {
        self.wakes.take_all()
    }

    /// The wakers that were replaced or are of no use any more. To drop a waker may run code of
    /// the task that it belongs to, so the caller has to drop them once it has let go of the channel.
    pub fn take_discarded(&mut self) -> (wakers: Vec<Waker>)
        ensures
            wake::tasks_of(wakers@) == old(self)@.discarded,
            final(self)@ == (OneshotView { discarded: Seq::<int>::empty(), ..old(self)@ }),
    {
        self.discarded.take_all()
    }

    /// The first half of sending: stores the value, unless the receiver is gone or at the slot.
    pub fn store(&mut self, t: T) -> (result: Result<(), T>)
        requires
            old(self)@.takes_value() ==> old(self)@.data is None,
        ensures
            (final(self)@, result) == old(self)@.store_step(t),
    {
        if self.complete {
            return Err(t);
        }
        if self.data.try_lock() {
            self.data.data = Some(t);
            self.data.unlock();
            Ok(())
        } else {
            Err(t)
        }
    }

    /// The second half of sending: if the receiver has gone meanwhile, takes the value back.
    pub fn reclaim(&mut self) -> (result: Result<(), T>)
        ensures
            (final(self)@, result) == old(self)@.reclaim_step(),
    {
        if self.complete {
            if self.data.try_lock() {
                let taken = self.data.data.take();
                self.data.unlock();
                if let Some(value) = taken {
                    return Err(value);
                }
            }
        }
        Ok(())
    }

    /// Sends the value; gives it back if the receiver is gone or at the slot.
    pub fn send(&mut self, t: T) -> (result: Result<(), T>)
        requires
            old(self)@.takes_value() ==> old(self)@.data is None,
        ensures
            (final(self)@, result) == old(self)@.store_step(t),
    {
        match self.store(t) {
            Ok(()) => self.reclaim(),
            Err(t) => Err(t),
        }
    }

    /// The sender is gone: wakes the task that waits.
    pub fn drop_tx(&mut self)
        ensures
            final(self)@ == old(self)@.sender_gone(),
    {
        self.complete = true;
        if self.rx_waker.try_lock() {
            let waker = self.rx_waker.data.take();
            self.rx_waker.unlock();
            self.wakes.add(waker);
        }
    }

    /// The value, if the sender is done with it; the news that none will come, if it is gone.
    pub fn try_recv(&mut self) -> (result: Result<Option<T>, RecvError>)
        ensures
            (final(self)@, result) == old(self)@.try_recv_step(),
    {
        if self.complete {
            if self.data.try_lock() {
                let taken = self.data.data.take();
                self.data.unlock();
                match taken {
                    Some(data) => Ok(Some(data)),
                    None => Err(RecvError),
                }
            } else {
                Err(RecvError)
            }
        } else {
            Ok(None)
        }
    }

    /// The first half of a wait: leaves a clone of `waker` to be woken, and says whether there is no
    /// use in waiting.
    pub fn register(&mut self, waker: &Waker) -> (done: bool)
        ensures
            (final(self)@, done) == old(self)@.await_step(wake::task_of(*waker)),
    {
        if self.complete {
            true
        } else {
            let waker = wake::clone_waker(waker);
            if self.rx_waker.try_lock() {
                let replaced = self.rx_waker.data.take();
                self.rx_waker.data = Some(waker);
                self.rx_waker.unlock();
                self.discarded.add(replaced);
                false
            } else {
                true
            }
        }
    }

    /// The second half of a wait: the value, if the sender is done by now.
    pub fn settle(&mut self, done: bool) -> (poll: Poll<Result<T, RecvError>>)
        ensures
            (final(self)@, poll) == old(self)@.settle_step(done),
    {
        if done || self.complete {
            if self.data.try_lock() {
                let taken = self.data.data.take();
                self.data.unlock();
                if let Some(data) = taken {
                    return Poll::Ready(Ok(data));
                } else {
                    return Poll::Ready(Err(RecvError));
                }
            }
            Poll::Ready(Err(RecvError))
        } else {
            Poll::Pending
        }
    }

    /// The value, if the sender is done with it. If not, `waker` is what to wake once it is.
    pub fn recv(&mut self, waker: &Waker) -> (poll: Poll<Result<T, RecvError>>)
        ensures
            (final(self)@, poll) == old(self)@.recv_step(wake::task_of(*waker)),
    {
        let done: bool = self.register(waker);
        self.settle(done)
    }

    /// The receiver is gone: nobody waits any more.
    pub fn drop_rx(&mut self)
        ensures
            final(self)@ == old(self)@.receiver_gone(),
    {
        self.complete = true;
        if self.rx_waker.try_lock() {
            let waker = self.rx_waker.data.take();
            self.rx_waker.unlock();
            self.discarded.add(waker);
        }
    }
}

impl<T> Sender<T> {
    /// Sends the value, and with that is done; gives the value back if the receiver is gone or at
    /// the slot. Either way the task that waits is woken.
    pub fn send(self, inner: &mut Inner<T>, t: T) -> (result: Result<(), T>)
        requires
            old(inner)@.takes_value() ==> old(inner)@.data is None,
        ensures
            result == old(inner)@.store_step(t).1,
            final(inner)@ == old(inner)@.store_step(t).0.sender_gone(),
    {
        let result = inner.send(t);
        self.drop(inner);
        result
    }

    /// Goes without sending anything.
    pub fn drop(self, inner: &mut Inner<T>)
        ensures
            final(inner)@ == old(inner)@.sender_gone(),
    {
        inner.drop_tx();
    }
}

impl<T> Receiver<T> {
    /// The value, if the sender is done with it; the news that none will come, if it is gone.
    pub fn try_recv(&self, inner: &mut Inner<T>) -> (result: Result<Option<T>, RecvError>)
        ensures
            (final(inner)@, result) == old(inner)@.try_recv_step(),
    {
        inner.try_recv()
    }

    /// The value, if the sender is done with it. If not, `waker` is what to wake once it is.
    pub fn poll(&mut self, inner: &mut Inner<T>, waker: &Waker) -> (poll: Poll<
        Result<T, RecvError>,
    >)
        ensures
            (final(inner)@, poll) == old(inner)@.recv_step(wake::task_of(*waker)),
            *final(self) == *old(self),
    {
        inner.recv(waker)
    }

    /// Goes, whether the value has come or not.
    pub fn drop(self, inner: &mut Inner<T>)
        ensures
            final(inner)@ == old(inner)@.receiver_gone(),
    {
        inner.drop_rx();
    }
}

} // verus!
