//! The sending side of a channel.

use super::error::{SendError, SendErrorKind, TrySendError};
use super::inner::BoundedInner;
use super::state::State;
use super::view::SenderView;
use crate::poll::Poll;
use crate::wake;
use std::marker::PhantomData;
use std::task::Waker;
use vstd::prelude::*;

verus! {

/// A sender that holds on to its channel: the key of its task in the channel, and whether that task
/// may be parked.
pub struct BoundedSenderInner<T> {
    id: u64,
    maybe_parked: bool,
    channel: PhantomData<T>,
}

/// A sender, with its hold on the channel as long as it has not let go.
pub struct Sender<T>(pub Option<BoundedSenderInner<T>>);

/// A message on its way into the channel.
pub struct SendFut<'a, T> {
    pub sender: &'a mut Sender<T>,
    pub msg: Option<T>,
}

impl<T> View for BoundedSenderInner<T> {
    type V = SenderView;

    closed spec fn view(&self) -> SenderView {
        SenderView { id: self.id, maybe_parked: self.maybe_parked }
    }
}

impl<T> View for Sender<T> {
    type V = Option<SenderView>;

    open spec fn view(&self) -> Option<SenderView> {
        match self.0 {
            Some(inner) => Some(inner@),
            None => None,
        }
    }
}

impl<T> BoundedSenderInner<T> {
    /// Whether the sender may send now. If it has to wait, `waker` is what to wake once it may.
    pub fn poll_unparked(&mut self, inner: &mut BoundedInner<T>, waker: Option<&Waker>) -> (poll: Poll<
        (),
    >)
        requires
            old(inner).wf(),
            old(inner)@.has(old(self)@),
        ensures
            final(inner).wf(),
            match poll {
                Poll::Ready(()) => {
                    &&& !old(inner)@.waits(old(self)@)
                    &&& final(inner)@ == old(inner)@
                    &&& final(self)@ == (SenderView { maybe_parked: false, ..old(self)@ })
                },
                Poll::Pending => {
                    &&& old(inner)@.waits(old(self)@)
                    &&& final(inner)@ == old(inner)@.with_waker(
                        old(self)@.id,
                        match waker {
                            Some(w) => Some(wake::task_of(*w)),
                            None => None,
                        },
                    )
                    &&& final(self)@ == old(self)@
                },
            },
    {
        if !self.maybe_parked {
            return Poll::Ready(());
        }
        if inner.task_is_parked(self.id) {
            let waker = match waker {
                Some(w) => Some(wake::clone_waker(w)),
                None => None,
            };
            inner.set_task_waker(self.id, waker);
            Poll::Pending
        } else {
            self.maybe_parked = false;
            Poll::Ready(())
        }
    }

    /// Parks the sender. In a closed channel nobody would unpark it, so there it does not wait.
    pub fn park(&mut self, inner: &mut BoundedInner<T>)
        requires
            old(inner).wf(),
            old(inner)@.has(old(self)@),
        ensures
            final(inner).wf(),
            final(inner)@ == old(inner)@.with_parked(old(self)@.id),
            final(self)@ == (SenderView { maybe_parked: old(inner)@.is_open, ..old(self)@ }),
    {
        inner.park_task(self.id);
        self.maybe_parked = inner.is_open();
    }

    /// Puts a message into the queue and wakes the receiver. If the message is announced, the
    /// channel stays well-formed.
    pub fn send_queue_and_wake(&mut self, inner: &mut BoundedInner<T>, msg: T)
        requires
            old(inner).queues_wf(),
        ensures
            final(inner).queues_wf(),
            old(inner).wf() && old(inner)@.messages.len() < old(inner)@.num_msg
                ==> final(inner).wf(),
            final(inner)@ == old(inner)@.enqueued(msg),
            *final(self) == *old(self),
    {
        inner.push_message(msg);
        inner.wake_receiver();
    }

    /// Announces one more message, unless the channel is closed, and says how many there are now.
    pub fn inc_num_msg(&mut self, inner: &mut BoundedInner<T>) -> (num: Option<usize>)
        requires
            old(inner).queues_wf(),
            old(inner)@.can_count(),
        ensures
            final(inner).queues_wf(),
            old(inner).wf() ==> final(inner).wf(),
            *final(self) == *old(self),
            match num {
                Some(n) => {
                    &&& old(inner)@.is_open
                    &&& n == old(inner)@.num_msg + 1
                    &&& final(inner)@ == old(inner)@.counted()
                },
                None => !old(inner)@.is_open && final(inner)@ == old(inner)@,
            },
    {
        let mut curr: usize = inner.state_word();
        loop
            invariant
                inner.queues_wf(),
                old(inner).wf() ==> inner.wf(),
                inner@ == old(inner)@,
                inner@.can_count(),
                inner@.has_word(curr),
                *self == *old(self),
            decreases 0nat,
        {
            match inner.try_announce(curr) {
                Ok(num) => {
                    return num;
                },
                Err(actual) => {
                    curr = actual;
                },
            }
        }
    }

    /// Sends `msg` from a sender that does not wait. Beyond the buffer the sender parks.
    pub fn send_b(&mut self, inner: &mut BoundedInner<T>, msg: T) -> (result: Result<
        (),
        TrySendError<T>,
    >)
        requires
            old(inner).wf(),
            old(inner)@.has(old(self)@),
            old(inner)@.can_count(),
        ensures
            final(inner).wf(),
            if old(inner)@.is_open {
                &&& result == Ok::<(), TrySendError<T>>(())
                &&& final(inner)@ == old(inner)@.accepted(old(self)@.id, msg)
                &&& final(self)@ == if old(inner)@.crowded() {
                    SenderView { maybe_parked: true, ..old(self)@ }
                } else {
                    old(self)@
                }
            } else {
                &&& result == Err::<(), TrySendError<T>>(
                    TrySendError { kind: SendErrorKind::Closed, value: msg },
                )
                &&& final(inner)@ == old(inner)@
                &&& final(self)@ == old(self)@
            },
    {
        let should_park: bool = match self.inc_num_msg(inner) {
            Some(num) => num > inner.buffer(),
            None => {
                return Err(TrySendError { kind: SendErrorKind::Closed, value: msg });
            },
        };
        if should_park {
            self.park(inner);
        }
        self.send_queue_and_wake(inner, msg);
        Ok(())
    }

    /// Sends `msg` at once or not at all.
    pub fn try_send(&mut self, inner: &mut BoundedInner<T>, msg: T) -> (result: Result<
        (),
        TrySendError<T>,
    >)
        requires
            old(inner).wf(),
            old(inner)@.has(old(self)@),
            old(inner)@.can_take(Some(old(self)@)),
        ensures
            final(inner).wf(),
            ({
                let (chan, sender, error) = old(inner)@.try_send_step(Some(old(self)@), msg);
                &&& final(inner)@ == chan
                &&& Some(final(self)@) == sender
                &&& result == TrySendError::outcome(error, msg)
            }),
    {
        match self.poll_unparked(inner, None) {
            Poll::Ready(()) => {},
            Poll::Pending => {
                return Err(TrySendError { kind: SendErrorKind::Full, value: msg });
            },
        }
        self.send_b(inner, msg)
    }

    /// Whether the sender may send now, or why it never will. If it has to wait, `waker` is what to
    /// wake once it may.
    pub fn poll_ready(&mut self, inner: &mut BoundedInner<T>, waker: &Waker) -> (poll: Poll<
        Result<(), SendError>,
    >)
        requires
            old(inner).wf(),
            old(inner)@.has(old(self)@),
        ensures
            final(inner).wf(),
            ({
                let (chan, sender, answer) = old(inner)@.poll_ready_step(
                    Some(old(self)@),
                    wake::task_of(*waker),
                );
                &&& final(inner)@ == chan
                &&& Some(final(self)@) == sender
                &&& poll == SendError::polled(answer)
            }),
    {
        if !inner.is_open() {
            return Poll::Ready(Err(SendError { kind: SendErrorKind::Closed }));
        }
        match self.poll_unparked(inner, Some(waker)) {
            Poll::Ready(()) => Poll::Ready(Ok(())),
            Poll::Pending => Poll::Pending,
        }
    }

    /// Closes the channel and wakes the receiver.
    pub fn close_channel(&self, inner: &mut BoundedInner<T>)
        requires
            old(inner).wf(),
        ensures
            final(inner).wf(),
            final(inner)@ == old(inner)@.closed().receiver_woken(),
    {
        inner.close();
        inner.wake_receiver();
    }

    /// Another sender of the same channel, with a task of its own.
    pub fn clone(&self, inner: &mut BoundedInner<T>) -> (sender: Self)
        requires
            old(inner).wf(),
            old(inner)@.num_senders < usize::MAX,
            old(inner)@.next_id < u64::MAX,
        ensures
            final(inner).wf(),
            final(inner)@ == old(inner)@.joined(),
            sender@ == (SenderView { id: old(inner)@.next_id as u64, maybe_parked: false }),
    {
        let mut curr: usize = inner.num_senders();
        loop
            invariant
                inner.wf(),
                inner@ == old(inner)@,
                curr == inner@.num_senders,
                curr < usize::MAX,
                inner@.next_id < u64::MAX,
            decreases 0nat,
        {
            match inner.try_join(curr) {
                Ok(id) => {
                    return BoundedSenderInner { id, maybe_parked: false, channel: PhantomData };
                },
                Err(actual) => {
                    curr = actual;
                },
            }
        }
    }

    /// Lets go of the channel. With the last sender the channel closes.
    pub fn drop(self, inner: &mut BoundedInner<T>)
        requires
            old(inner).wf(),
            old(inner)@.has(self@),
        ensures
            final(inner).wf(),
            final(inner)@ == old(inner)@.left(self@.id),
    {
        inner.remove_sender(self.id);
    }
}

impl<T> TrySendError<T> {
    /// The result that stands for a refusal of `msg`, if there is one.
    pub open spec fn outcome(error: Option<SendErrorKind>, msg: T) -> Result<(), TrySendError<T>> {
        match error {
            None => Ok(()),
            Some(kind) => Err(TrySendError { kind, value: msg }),
        }
    }
}

impl SendError {
    /// The result that stands for a refusal, if there is one.
    pub open spec fn outcome(error: Option<SendErrorKind>) -> Result<(), SendError> {
        match error {
            None => Ok(()),
            Some(kind) => Err(SendError { kind }),
        }
    }

    /// The answer that stands for a refusal, if there is one.
    pub open spec fn polled(answer: Poll<Option<SendErrorKind>>) -> Poll<Result<(), SendError>> {
        match answer {
            Poll::Ready(None) => Poll::Ready(Ok(())),
            Poll::Ready(Some(kind)) => Poll::Ready(Err(SendError { kind })),
            Poll::Pending => Poll::Pending,
        }
    }
}

impl<T> Sender<T> {
    /// The first sender of a channel.
    pub(crate) fn first() -> (sender: Self)
        ensures
            sender@ == Some(SenderView { id: 0, maybe_parked: false }),
    {
        Sender(Some(BoundedSenderInner { id: 0, maybe_parked: false, channel: PhantomData }))
    }

    /// Sends `msg` as soon as the channel takes it: `SendFut::poll` makes the attempts.
    pub fn send<'a>(&'a mut self, msg: T) -> (fut: SendFut<'a, T>)
        ensures
            fut.sender@ == old(self)@,
            fut.msg == Some(msg),
            *final(self) == *final(fut.sender),
    {
        SendFut { sender: self, msg: Some(msg) }
    }

    /// Sends `msg` at once or not at all.
    pub fn try_send(&mut self, inner: &mut BoundedInner<T>, msg: T) -> (result: Result<
        (),
        TrySendError<T>,
    >)
        requires
            old(inner).wf(),
            old(inner)@.knows(old(self)@),
            old(inner)@.can_take(old(self)@),
        ensures
            final(inner).wf(),
            final(inner)@.knows(final(self)@),
            ({
                let (chan, sender, error) = old(inner)@.try_send_step(old(self)@, msg);
                &&& final(inner)@ == chan
                &&& final(self)@ == sender
                &&& result == TrySendError::outcome(error, msg)
            }),
    {
        match &mut self.0 {
            Some(sender) => sender.try_send(inner, msg),
            None => Err(TrySendError { kind: SendErrorKind::Disconnected, value: msg }),
        }
    }

    /// Whether the sender may send now, or why it never will. If it has to wait, `waker` is what to
    /// wake once it may.
    pub fn poll_ready(&mut self, inner: &mut BoundedInner<T>, waker: &Waker) -> (poll: Poll<
        Result<(), SendError>,
    >)
        requires
            old(inner).wf(),
            old(inner)@.knows(old(self)@),
        ensures
            final(inner).wf(),
            final(inner)@.knows(final(self)@),
            ({
                let (chan, sender, answer) = old(inner)@.poll_ready_step(
                    old(self)@,
                    wake::task_of(*waker),
                );
                &&& final(inner)@ == chan
                &&& final(self)@ == sender
                &&& poll == SendError::polled(answer)
            }),
    {
        match &mut self.0 {
            Some(sender) => sender.poll_ready(inner, waker),
            None => Poll::Ready(Err(SendError { kind: SendErrorKind::Disconnected })),
        }
    }

    /// Sends `msg` at once, or drops it.
    pub fn start_send(&mut self, inner: &mut BoundedInner<T>, msg: T) -> (result: Result<
        (),
        SendError,
    >)
        requires
            old(inner).wf(),
            old(inner)@.knows(old(self)@),
            old(inner)@.can_take(old(self)@),
        ensures
            final(inner).wf(),
            final(inner)@.knows(final(self)@),
            ({
                let (chan, sender, error) = old(inner)@.try_send_step(old(self)@, msg);
                &&& final(inner)@ == chan
                &&& final(self)@ == sender
                &&& result == SendError::outcome(error)
            }),
    {
        match self.try_send(inner, msg) {
            Ok(()) => Ok(()),
            Err(e) => Err(SendError { kind: e.kind }),
        }
    }

    /// The number of senders of the channel; 0 for a sender that has let go.
    pub fn num_senders(&self, inner: &BoundedInner<T>) -> (num: usize)
        ensures
            num == inner@.num_senders_for(self@),
    {
        match &self.0 {
            Some(_) => inner.num_senders(),
            None => 0,
        }
    }

    /// Closes the channel for all its senders, and wakes the receiver.
    pub fn channel_close(&self, inner: &mut BoundedInner<T>)
        requires
            old(inner).wf(),
        ensures
            final(inner).wf(),
            final(inner)@ == match self@ {
                Some(_) => old(inner)@.closed().receiver_woken(),
                None => old(inner)@,
            },
    {
        if let Some(sender) = &self.0 {
            sender.close_channel(inner);
        }
    }

    /// Lets go of the channel. With the last sender the channel closes.
    pub fn disconnect(&mut self, inner: &mut BoundedInner<T>)
        requires
            old(inner).wf(),
            old(inner)@.knows(old(self)@),
        ensures
            final(inner).wf(),
            final(self)@ is None,
            final(inner)@ == old(inner)@.disconnect_step(old(self)@),
    {
        if let Some(sender) = self.0.take() {
            sender.drop(inner);
        }
    }

    /// Another sender of the same channel; of none, if this one has let go.
    pub fn clone(&self, inner: &mut BoundedInner<T>) -> (sender: Self)
        requires
            old(inner).wf(),
            self@ is Some ==> old(inner)@.num_senders < usize::MAX,
            self@ is Some ==> old(inner)@.next_id < u64::MAX,
        ensures
            final(inner).wf(),
            final(inner)@.knows(sender@),
            match self@ {
                Some(_) => {
                    &&& final(inner)@ == old(inner)@.joined()
                    &&& sender@ == Some(
                        SenderView { id: old(inner)@.next_id as u64, maybe_parked: false },
                    )
                },
                None => final(inner)@ == old(inner)@ && sender@ is None,
            },
    {
        match &self.0 {
            Some(sender) => Sender(Some(sender.clone(inner))),
            None => Sender(None),
        }
    }
}

impl<'a, T> SendFut<'a, T> {
    /// One attempt to send the message. If the sender has to wait, `waker` is what to wake once it
    /// may send. After the attempt that sent the message there is nothing left to send.
    pub fn poll(&mut self, inner: &mut BoundedInner<T>, waker: &Waker) -> (poll: Poll<
        Result<(), SendError>,
    >)
        requires
            old(inner).wf(),
            old(inner)@.knows(old(self).sender@),
            old(self).msg is Some ==> old(inner)@.can_take(old(self).sender@),
        ensures
            final(inner).wf(),
            final(inner)@.knows(final(self).sender@),
            ({
                let (chan, sender, msg, answer) = old(inner)@.send_poll_step(
                    old(self).sender@,
                    old(self).msg,
                    wake::task_of(*waker),
                );
                &&& final(inner)@ == chan
                &&& final(self).sender@ == sender
                &&& final(self).msg == msg
                &&& poll == SendError::polled(answer)
            }),
            *final(final(self).sender) == *final(old(self).sender),
    {
        match self.sender.poll_ready(inner, waker) {
            Poll::Ready(Ok(())) => {
                if let Some(msg) = self.msg.take() {
                    Poll::Ready(self.sender.start_send(inner, msg))
                } else {
                    Poll::Ready(Ok(()))
                }
            },
            Poll::Ready(Err(e)) => Poll::Ready(Err(SendError { kind: e.kind })),
            Poll::Pending => Poll::Pending,
        }
    }
}

} // verus!
