//! The mathematical model of a bounded channel, and what each operation does to it.

use super::error::SendErrorKind;
use super::state::State;
use crate::poll::Poll;
use vstd::prelude::*;

verus! {

/// The task behind one sender: whether it waits for the receiver, the task to wake when the wait
/// is over, and whether its sender is still there.
pub struct TaskView {
    pub is_parked: bool,
    pub waker: Option<int>,
    pub owned: bool,
}

/// One sender: the key of its task, and whether that task may be parked.
pub struct SenderView {
    pub id: u64,
    pub maybe_parked: bool,
}

/// What the senders and the receiver of one channel share.
#[verifier::ext_equal]
pub struct ChannelView<T> {
    /// How many messages may be counted before senders begin to park.
    pub buffer: nat,
    pub is_open: bool,
    /// The number of messages that were announced and not yet received.
    pub num_msg: nat,
    /// The messages in the queue, the oldest first.
    pub messages: Seq<T>,
    /// The keys of the tasks to unpark, the first to be unparked first.
    pub parked: Seq<u64>,
    pub tasks: Map<u64, TaskView>,
    pub num_senders: nat,
    /// The task that waits for the next message.
    pub recv_task: Option<int>,
    /// The tasks that are due to be woken.
    pub wakes: Seq<int>,
    /// The tasks of the wakers that were replaced or are of no use any more.
    pub discarded: Seq<int>,
    /// The key of the next task.
    pub next_id: nat,
}

impl TaskView {
    /// The task of a new sender.
    pub open spec fn fresh() -> Self {
        TaskView { is_parked: false, waker: None, owned: true }
    }
}

impl<T> ChannelView<T> {
    /// A new channel with one sender, whose key is 0.
    pub open spec fn initial(buffer: nat) -> Self {
        ChannelView {
            buffer,
            is_open: true,
            num_msg: 0,
            messages: Seq::empty(),
            parked: Seq::empty(),
            tasks: Map::empty().insert(0u64, TaskView::fresh()),
            num_senders: 1,
            recv_task: None,
            wakes: Seq::empty(),
            discarded: Seq::empty(),
            next_id: 1,
        }
    }

    /// The senders that are still there.
    pub open spec fn live(self) -> Set<u64> {
        self.tasks.dom().filter(|id: u64| self.tasks[id].owned)
    }

    /// `word` is the state word.
    pub open spec fn has_word(self, word: usize) -> bool {
        &&& State::of_word(word).is_open == self.is_open
        &&& State::of_word(word).num_msg == self.num_msg
    }

    /// What every operation keeps: each message in the queue is announced, keys are used once, and
    /// the senders are counted.
    pub open spec fn consistent(self) -> bool {
        &&& self.buffer > 0
        &&& self.messages.len() <= self.num_msg
        &&& self.tasks.dom().finite()
        &&& forall|id: u64| #[trigger] self.tasks.contains_key(id) ==> id < self.next_id
        &&& self.num_senders == self.live().len()
    }

    pub proof fn lemma_live_is_finite(self)
        requires
            self.tasks.dom().finite(),
        ensures
            self.live().finite(),
            self.live().len() <= self.tasks.dom().len(),
    {
        self.tasks.dom().lemma_len_filter(|id: u64| self.tasks[id].owned);
    }

    /// `sender` is a sender of this channel.
    pub open spec fn has(self, sender: SenderView) -> bool {
        self.tasks.contains_key(sender.id) && self.tasks[sender.id].owned
    }

    /// `sender` is a sender of this channel, or of none.
    pub open spec fn knows(self, sender: Option<SenderView>) -> bool {
        match sender {
            Some(sender) => self.has(sender),
            None => true,
        }
    }

    /// If the channel is open, the state word, which has one bit less than a `usize` to count with,
    /// can count one more message.
    pub open spec fn can_count(self) -> bool {
        self.is_open ==> self.num_msg < usize::MAX / 2
    }

    /// `waker` falls due, if there is one.
    pub open spec fn due(self, waker: Option<int>) -> Self {
        match waker {
            Some(task) => ChannelView { wakes: self.wakes.push(task), ..self },
            None => self,
        }
    }

    /// `waker` is of no use any more, if there is one.
    pub open spec fn discarding(self, waker: Option<int>) -> Self {
        match waker {
            Some(task) => ChannelView { discarded: self.discarded.push(task), ..self },
            None => self,
        }
    }

    /// `task` has fallen due since `n` tasks were due.
    pub open spec fn fell_due_since(self, task: int, n: nat) -> bool {
        exists|i: int| n <= i < self.wakes.len() && self.wakes[i] == task
    }

    /// The tasks to wake when all in `line` are unparked, in order.
    pub open spec fn wakers_in(self, line: Seq<u64>) -> Seq<int>
        decreases line.len(),
    {
        if line.len() == 0 {
            Seq::empty()
        } else {
            let rest = self.wakers_in(line.drop_first());
            match self.tasks[line[0]].waker {
                Some(task) => seq![task] + rest,
                None => rest,
            }
        }
    }

    /// The receiver's task falls due.
    pub open spec fn receiver_woken(self) -> Self {
        ChannelView { recv_task: None, ..self.due(self.recv_task) }
    }

    /// `msg` is in the queue, and the receiver's task falls due.
    pub open spec fn enqueued(self, msg: T) -> Self {
        ChannelView { messages: self.messages.push(msg), ..self }.receiver_woken()
    }

    /// One more message is announced.
    pub open spec fn counted(self) -> Self {
        ChannelView { num_msg: self.num_msg + 1, ..self }
    }

    /// One message less is announced.
    pub open spec fn uncounted(self) -> Self {
        ChannelView { num_msg: (self.num_msg - 1) as nat, ..self }
    }

    pub open spec fn closed(self) -> Self {
        ChannelView { is_open: false, ..self }
    }

    /// The task `id` is parked and waits in line, with nobody to wake yet.
    pub open spec fn with_parked(self, id: u64) -> Self {
        ChannelView {
            tasks: self.tasks.insert(
                id,
                TaskView { is_parked: true, waker: None, ..self.tasks[id] },
            ),
            parked: self.parked.push(id),
            ..self.discarding(self.tasks[id].waker)
        }
    }

    /// `waker` is what to wake when the task `id` is unparked.
    pub open spec fn with_waker(self, id: u64, waker: Option<int>) -> Self {
        ChannelView {
            tasks: self.tasks.insert(id, TaskView { waker, ..self.tasks[id] }),
            ..self.discarding(self.tasks[id].waker)
        }
    }

    /// The task `id` is unparked, and whoever waits for that falls due. A task whose sender is
    /// gone is gone then, too.
    pub open spec fn notified(self, id: u64) -> Self {
        if self.tasks.contains_key(id) {
            let task = self.tasks[id];
            ChannelView {
                tasks: if task.owned {
                    self.tasks.insert(id, TaskView { is_parked: false, waker: None, ..task })
                } else {
                    self.tasks.remove(id)
                },
                ..self.due(task.waker)
            }
        } else {
            self
        }
    }

    /// The first task in line is unparked.
    pub open spec fn unparked_one(self) -> Self {
        if self.parked.len() > 0 {
            ChannelView { parked: self.parked.drop_first(), ..self }.notified(self.parked[0])
        } else {
            self
        }
    }

    /// All tasks in line are unparked, one after the other.
    pub open spec fn unparked_all(self) -> Self
        decreases self.parked.len(),
    {
        if self.parked.len() > 0 {
            self.unparked_one().unparked_all()
        } else {
            self
        }
    }

    /// The two channels agree but for their tasks, who is in line, and what is due.
    pub open spec fn same_but_line(self, other: Self) -> bool {
        self == (ChannelView {
            tasks: self.tasks,
            parked: self.parked,
            wakes: self.wakes,
            ..other
        })
    }

    /// To unpark everybody in line touches nothing but their tasks and what is due, and no sender is
    /// lost by it.
    pub proof fn lemma_unparked_all_keeps_the_rest(self)
        ensures
            self.unparked_all().same_but_line(self),
            self.unparked_all().live() == self.live(),
            self.unparked_all().parked.len() == 0,
        decreases self.parked.len(),
    {
        if self.parked.len() > 0 {
            let next = self.unparked_one();
            assert(next.live() =~= self.live());
            next.lemma_unparked_all_keeps_the_rest();
        }
    }

    /// A new sender, whose key is `next_id`.
    pub open spec fn joined(self) -> Self {
        ChannelView {
            tasks: self.tasks.insert(self.next_id as u64, TaskView::fresh()),
            num_senders: self.num_senders + 1,
            next_id: self.next_id + 1,
            ..self
        }
    }

    /// The sender `id` is gone. Its task stays while it waits in line. With the last sender the
    /// channel closes, and the receiver's task falls due.
    pub open spec fn left(self, id: u64) -> Self {
        let task = self.tasks[id];
        let rest = ChannelView {
            tasks: if task.is_parked {
                self.tasks.insert(id, TaskView { owned: false, ..task })
            } else {
                self.tasks.remove(id)
            },
            num_senders: (self.num_senders - 1) as nat,
            ..self.discarding(
                if task.is_parked {
                    None
                } else {
                    task.waker
                },
            )
        };
        if self.num_senders == 1 {
            rest.closed().receiver_woken()
        } else {
            rest
        }
    }

    /// `sender` has to wait for the receiver.
    pub open spec fn waits(self, sender: SenderView) -> bool {
        sender.maybe_parked && self.tasks[sender.id].is_parked
    }

    /// One more message goes beyond the buffer.
    pub open spec fn crowded(self) -> bool {
        self.num_msg + 1 > self.buffer
    }

    /// Why the channel takes no message from `sender` now, if it takes none.
    pub open spec fn refusal(self, sender: Option<SenderView>) -> Option<SendErrorKind> {
        match sender {
            None => Some(SendErrorKind::Disconnected),
            Some(sender) => if self.waits(sender) {
                Some(SendErrorKind::Full)
            } else if !self.is_open {
                Some(SendErrorKind::Closed)
            } else {
                None
            },
        }
    }

    /// If the channel takes a message from `sender` now, the state word can count it.
    pub open spec fn can_take(self, sender: Option<SenderView>) -> bool {
        self.refusal(sender) is None ==> self.can_count()
    }

    /// The number of senders as `sender` sees it: none, once it has let go.
    pub open spec fn num_senders_for(self, sender: Option<SenderView>) -> nat {
        match sender {
            Some(_) => self.num_senders,
            None => 0,
        }
    }

    /// The channel after `sender` let go of it, unless it had before.
    pub open spec fn disconnect_step(self, sender: Option<SenderView>) -> Self {
        match sender {
            Some(s) => self.left(s.id),
            None => self,
        }
    }

    /// `msg` is announced and in the queue; if it goes beyond the buffer, its sender `id` is parked.
    pub open spec fn accepted(self, id: u64, msg: T) -> Self {
        if self.crowded() {
            self.counted().with_parked(id).enqueued(msg)
        } else {
            self.counted().enqueued(msg)
        }
    }

    /// The channel, the sender and the refusal, if any, after an attempt to send `msg`. An attempt
    /// of a sender that has to wait leaves nobody to wake when the wait is over.
    pub open spec fn try_send_step(self, sender: Option<SenderView>, msg: T) -> (
        ChannelView<T>,
        Option<SenderView>,
        Option<SendErrorKind>,
    ) {
        let refusal = self.refusal(sender);
        match sender {
            None => (self, None, refusal),
            Some(s) => if self.waits(s) {
                (self.with_waker(s.id, None), sender, refusal)
            } else if !self.is_open {
                (self, Some(SenderView { maybe_parked: false, ..s }), refusal)
            } else {
                (
                    self.accepted(s.id, msg),
                    Some(SenderView { maybe_parked: self.crowded(), ..s }),
                    refusal,
                )
            },
        }
    }

    /// The channel, the sender and the answer after `sender` asked whether it may send. If it has to
    /// wait, `waker` is what to wake once it may.
    pub open spec fn poll_ready_step(self, sender: Option<SenderView>, waker: int) -> (
        ChannelView<T>,
        Option<SenderView>,
        Poll<Option<SendErrorKind>>,
    ) {
        match sender {
            None => (self, None, Poll::Ready(Some(SendErrorKind::Disconnected))),
            Some(s) => if !self.is_open {
                (self, sender, Poll::Ready(Some(SendErrorKind::Closed)))
            } else if self.waits(s) {
                (self.with_waker(s.id, Some(waker)), sender, Poll::Pending)
            } else {
                (self, Some(SenderView { maybe_parked: false, ..s }), Poll::Ready(None))
            },
        }
    }

    /// The channel, the sender, what is left to send and the answer after `sender` asked whether it
    /// may send, and sent `msg` if it may.
    pub open spec fn send_poll_step(
        self,
        sender: Option<SenderView>,
        msg: Option<T>,
        waker: int,
    ) -> (ChannelView<T>, Option<SenderView>, Option<T>, Poll<Option<SendErrorKind>>) {
        let (chan, ready, poll) = self.poll_ready_step(sender, waker);
        match msg {
            Some(m) => if poll == Poll::Ready(None::<SendErrorKind>) {
                let (sent, after, error) = chan.try_send_step(ready, m);
                (sent, after, None, Poll::Ready(error))
            } else {
                (chan, ready, msg, poll)
            },
            None => (chan, ready, None, poll),
        }
    }

    /// The channel, whether the receiver still holds on to it, and the answer after the receiver
    /// asked for a message. To take the oldest message unparks one sender. A receiver that finds no
    /// message waits, unless the channel is closed: then it lets go of the channel.
    pub open spec fn next_message_step(self, connected: bool) -> (
        ChannelView<T>,
        bool,
        Poll<Option<T>>,
    ) {
        if !connected {
            (self, false, Poll::Ready(None))
        } else if self.messages.len() > 0 {
            let rest = ChannelView { messages: self.messages.drop_first(), ..self };
            (rest.unparked_one().uncounted(), true, Poll::Ready(Some(self.messages[0])))
        } else if !self.is_open {
            (self, false, Poll::Ready(None))
        } else {
            (self, true, Poll::Pending)
        }
    }

    /// As `next_message_step`, but a receiver that waits leaves `waker` to be woken.
    pub open spec fn poll_next_step(self, connected: bool, waker: int) -> (
        ChannelView<T>,
        bool,
        Poll<Option<T>>,
    ) {
        let (chan, connected, poll) = self.next_message_step(connected);
        if poll is Pending {
            (
                ChannelView { recv_task: Some(waker), ..chan.discarding(chan.recv_task) },
                connected,
                poll,
            )
        } else {
            (chan, connected, poll)
        }
    }

    /// The receiver closes the channel, which unparks all senders.
    pub open spec fn receiver_close_step(self, connected: bool) -> ChannelView<T> {
        if connected {
            self.closed().unparked_all()
        } else {
            self
        }
    }
}

} // verus!
