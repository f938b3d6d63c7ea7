//! What holds of a bounded channel in every state that its senders and its receiver can bring it
//! to, with the steps of different senders and of the receiver in any order.

use super::view::{ChannelView, SenderView};
use vstd::prelude::*;

verus! {

/// How far a sender has come with a message.
pub enum TxStage<T> {
    /// It is not sending.
    Idle,
    /// It does not have to wait, and has yet to announce the message.
    Ready { msg: T },
    /// It has announced the message, and has yet to put it into the queue; before that it parks, if
    /// the message goes beyond the buffer.
    Counted { msg: T, over: bool },
}

/// One sender.
pub struct Handle<T> {
    pub maybe_parked: bool,
    pub stage: TxStage<T>,
    /// What is to be woken when the sender may send, if to wait is what it was last told.
    pub waiting: Option<Wait>,
}

/// A wait for `waker` to be woken, by who was told to wait when `since` tasks were due.
pub struct Wait {
    pub waker: int,
    pub since: nat,
}

/// How far the receiver has come with a message.
pub enum RxStage {
    /// It is not receiving.
    Idle,
    /// It has taken a message out of the queue, and has yet to unpark a sender.
    Popped,
    /// It has unparked a sender, and has yet to take back the announcement of the message.
    Unparked,
}

/// What one of the senders, or the receiver, can do next.
pub enum Event<T> {
    /// A sender asks whether it may send the message.
    Check { id: u64, msg: T },
    /// It announces the message.
    Count { id: u64 },
    /// It parks.
    Park { id: u64 },
    /// It puts the message into the queue.
    Push { id: u64 },
    /// A sender asks to be woken when it may send.
    PollReady { id: u64, waker: int },
    /// A sender is cloned.
    Clone { id: u64 },
    /// A sender lets go of the channel.
    Leave { id: u64 },
    /// A sender closes the channel.
    Close { id: u64 },
    /// The receiver takes a message out of the queue.
    Pop,
    /// It unparks a sender.
    Unpark,
    /// It takes back the announcement of the message.
    Uncount,
    /// The receiver finds no message; if the channel is open, it leaves a waker, if it has one.
    Miss { recv_waker: Option<int> },
    /// The receiver closes the channel.
    ReceiverClose,
}

impl<T> Event<T> {
    /// It is sender `id` that does this.
    pub open spec fn is_by_sender(self, id: u64) -> bool {
        match self {
            Event::Check { id: by, .. } => by == id,
            Event::Count { id: by } => by == id,
            Event::Park { id: by } => by == id,
            Event::Push { id: by } => by == id,
            Event::PollReady { id: by, .. } => by == id,
            Event::Clone { id: by } => by == id,
            Event::Leave { id: by } => by == id,
            Event::Close { id: by } => by == id,
            _ => false,
        }
    }

    /// It is the receiver that does this.
    pub open spec fn is_by_receiver(self) -> bool {
        match self {
            Event::Pop | Event::Unpark | Event::Uncount => true,
            Event::Miss { .. } | Event::ReceiverClose => true,
            _ => false,
        }
    }
}

/// A channel, its senders and its receiver, and what has become of the messages so far. What has
/// fallen due stays listed in `chan.wakes`, so that a position in that list stands for a time.
pub struct System<T> {
    pub chan: ChannelView<T>,
    pub senders: Map<u64, Handle<T>>,
    pub connected: bool,
    pub rx: RxStage,
    /// The messages that were put into the queue, in order.
    pub sent: Seq<T>,
    /// The messages that were taken out of the queue, in order.
    pub received: Seq<T>,
    /// The receiver has closed the channel.
    pub closed_by_receiver: bool,
    /// What is to be woken when there is a message, if to wait is what the receiver was last told.
    pub rx_waiting: Option<Wait>,
    /// How many messages were announced and not yet in the queue when the receiver let go.
    pub left_behind: nat,
}

impl<T> Handle<T> {
    /// The sender has announced a message that is not in the queue yet; if `over` is set, only where
    /// it has to park first.
    pub open spec fn in_flight(self, over: bool) -> bool {
        match self.stage {
            TxStage::Counted { over: beyond, .. } => over ==> beyond,
            _ => false,
        }
    }
}

impl<T> System<T> {
    pub open spec fn initial(buffer: nat) -> Self {
        System {
            chan: ChannelView::initial(buffer),
            senders: Map::empty().insert(
                0u64,
                Handle { maybe_parked: false, stage: TxStage::Idle, waiting: None },
            ),
            connected: true,
            rx: RxStage::Idle,
            sent: Seq::empty(),
            received: Seq::empty(),
            closed_by_receiver: false,
            rx_waiting: None,
            left_behind: 0,
        }
    }

    pub open spec fn view_of(self, id: u64) -> SenderView {
        SenderView { id, maybe_parked: self.senders[id].maybe_parked }
    }

    pub open spec fn idle(self, id: u64) -> bool {
        self.senders.contains_key(id) && self.senders[id].stage is Idle
    }

    /// Who `event` belongs to can do it now.
    pub open spec fn enabled(self, event: Event<T>) -> bool {
        match event {
            Event::Check { id, .. } => self.idle(id),
            Event::Count { id } => self.senders.contains_key(id) && self.senders[id].stage is Ready,
            Event::Park { id } => self.senders.contains_key(id)
                && self.senders[id].in_flight(true),
            Event::Push { id } => self.senders.contains_key(id) && self.senders[id].in_flight(false)
                && !self.senders[id].in_flight(true),
            Event::PollReady { id, .. } => self.idle(id),
            Event::Clone { id } => self.idle(id) && self.chan.next_id < u64::MAX,
            Event::Leave { id } => self.idle(id),
            Event::Close { id } => self.idle(id),
            Event::Pop => self.connected && self.rx is Idle && self.chan.messages.len() > 0,
            Event::Unpark => self.rx is Popped,
            Event::Uncount => self.rx is Unparked,
            Event::Miss { .. } => self.rx is Idle && (self.connected ==> self.chan.messages.len()
                == 0),
            Event::ReceiverClose => self.rx is Idle,
        }
    }

    pub open spec fn with_handle(self, id: u64, handle: Handle<T>) -> Self {
        System { senders: self.senders.insert(id, handle), ..self }
    }

    /// What `event` makes of the channel, its senders and its receiver.
    pub open spec fn step(self, event: Event<T>) -> Self {
        match event {
            Event::Check { id, msg } => if self.chan.waits(self.view_of(id)) {
                System {
                    chan: self.chan.with_waker(id, None),
                    ..self.with_handle(id, Handle { waiting: None, ..self.senders[id] })
                }
            } else {
                self.with_handle(
                    id,
                    Handle { maybe_parked: false, stage: TxStage::Ready { msg }, waiting: None },
                )
            },
            Event::Count { id } => if self.chan.is_open {
                let stage = TxStage::Counted {
                    msg: self.senders[id].stage->Ready_msg,
                    over: self.chan.crowded(),
                };
                System {
                    chan: self.chan.counted(),
                    ..self.with_handle(id, Handle { stage, ..self.senders[id] })
                }
            } else {
                self.with_handle(id, Handle { stage: TxStage::Idle, ..self.senders[id] })
            },
            Event::Park { id } => {
                let stage = TxStage::Counted {
                    msg: self.senders[id].stage->Counted_msg,
                    over: false,
                };
                System {
                    chan: self.chan.with_parked(id),
                    ..self.with_handle(
                        id,
                        Handle { maybe_parked: self.chan.is_open, stage, waiting: None },
                    )
                }
            },
            Event::Push { id } => {
                let msg = self.senders[id].stage->Counted_msg;
                System {
                    chan: self.chan.enqueued(msg),
                    sent: self.sent.push(msg),
                    ..self.with_handle(id, Handle { stage: TxStage::Idle, ..self.senders[id] })
                }
            },
            Event::PollReady { id, waker } => {
                let (chan, sender, answer) = self.chan.poll_ready_step(
                    Some(self.view_of(id)),
                    waker,
                );
                System {
                    chan,
                    ..self.with_handle(
                        id,
                        Handle {
                            maybe_parked: sender->0.maybe_parked,
                            stage: TxStage::Idle,
                            waiting: if answer is Pending {
                                Some(Wait { waker, since: self.chan.wakes.len() })
                            } else {
                                None
                            },
                        },
                    )
                }
            },
            Event::Clone { .. } => System {
                chan: self.chan.joined(),
                ..self.with_handle(
                    self.chan.next_id as u64,
                    Handle { maybe_parked: false, stage: TxStage::Idle, waiting: None },
                )
            },
            Event::Leave { id } => System {
                chan: self.chan.left(id),
                senders: self.senders.remove(id),
                ..self
            },
            Event::Close { .. } => System { chan: self.chan.closed().receiver_woken(), ..self },
            Event::Pop => System {
                chan: ChannelView { messages: self.chan.messages.drop_first(), ..self.chan },
                rx: RxStage::Popped,
                received: self.received.push(self.chan.messages[0]),
                rx_waiting: None,
                ..self
            },
            Event::Unpark => System {
                chan: self.chan.unparked_one(),
                rx: RxStage::Unparked,
                ..self
            },
            Event::Uncount => System { chan: self.chan.uncounted(), rx: RxStage::Idle, ..self },
            Event::Miss { recv_waker } => {
                let (chan, connected, answer) = match recv_waker {
                    Some(waker) => self.chan.poll_next_step(self.connected, waker),
                    None => self.chan.next_message_step(self.connected),
                };
                System {
                    chan,
                    connected,
                    rx_waiting: if answer is Pending {
                        match recv_waker {
                            Some(waker) => Some(Wait { waker, since: self.chan.wakes.len() }),
                            None => self.rx_waiting,
                        }
                    } else {
                        None
                    },
                    left_behind: if self.connected && !connected {
                        self.in_flight(false)
                    } else {
                        self.left_behind
                    },
                    ..self
                }
            },
            Event::ReceiverClose => System {
                chan: self.chan.receiver_close_step(self.connected),
                closed_by_receiver: self.closed_by_receiver || self.connected,
                ..self
            },
        }
    }

    /// The channel with all that belongs to it after all of `events` that were possible, in order.
    pub open spec fn run(self, events: Seq<Event<T>>) -> Self
        decreases events.len(),
    {
        if events.len() == 0 {
            self
        } else {
            let before = self.run(events.drop_last());
            if before.enabled(events.last()) {
                before.step(events.last())
            } else {
                before
            }
        }
    }

    /// The number of senders with an announced message that is not in the queue yet; if `over` is
    /// set, only of those that have to park first.
    pub open spec fn in_flight(self, over: bool) -> nat {
        self.senders.dom().filter(|id: u64| self.senders[id].in_flight(over)).len()
    }

    /// Nobody is in the middle of sending or receiving.
    pub open spec fn at_rest(self) -> bool {
        &&& self.rx is Idle
        &&& forall|id: u64| #[trigger] self.senders.contains_key(id) ==> self.idle(id)
    }

    /// What is kept of the messages: they are received in the order in which they were sent, and
    /// each is announced from before it is put into the queue until after it is received.
    pub open spec fn messages_inv(self) -> bool {
        &&& self.sent == self.received + self.chan.messages
        &&& self.chan.num_msg == self.chan.messages.len() + self.in_flight(false) + (
            if self.rx is Idle { 0nat } else { 1nat })
    }

    /// What is kept of the buffer: messages beyond it have their senders in line, or about to get
    /// in line, and each that is in line has a message to be received.
    pub open spec fn buffer_inv(self) -> bool {
        let line = self.chan.parked.len() + self.in_flight(true) + (
        if self.rx is Unparked { 1nat } else { 0nat });
        &&& line <= self.chan.num_msg
        &&& self.chan.is_open ==> self.chan.num_msg <= self.chan.buffer + line
    }

    /// What is kept of the senders: they are the ones that the channel counts, and one that is in
    /// line does not send.
    pub open spec fn senders_inv(self) -> bool {
        &&& self.senders.dom() == self.chan.live()
        &&& forall|id: u64| #[trigger]
            self.senders.contains_key(id) ==> self.sender_inv(id, self.senders[id])
        &&& self.chan.num_senders == 0 ==> !self.chan.is_open
        &&& self.closed_by_receiver ==> !self.chan.is_open
    }

    pub open spec fn sender_inv(self, id: u64, handle: Handle<T>) -> bool {
        &&& self.chan.is_open && self.chan.parked.contains(id) ==> handle.maybe_parked
        &&& handle.stage is Ready ==> !handle.maybe_parked
        &&& handle.in_flight(true) ==> !self.chan.parked.contains(id)
        &&& self.closed_by_receiver && self.chan.parked.contains(id) ==> !handle.maybe_parked
        &&& (handle.waiting matches Some(wait) ==> {
            &&& wait.since <= self.chan.wakes.len()
            &&& self.chan.fell_due_since(wait.waker, wait.since) || {
                &&& self.chan.parked.contains(id)
                &&& self.chan.tasks[id].waker == Some(wait.waker)
            }
        })
    }

    /// What is kept of the receiver: while its waker is there, no message is, and the channel was
    /// not closed by a sender; if it was told to wait, its waker is there or has fallen due since;
    /// and once it has let go, what was in flight then is all that can come into the queue.
    pub open spec fn receiver_inv(self) -> bool {
        &&& self.chan.recv_task is Some ==> self.chan.messages.len() == 0
        &&& self.chan.recv_task is Some && !self.chan.is_open ==> self.closed_by_receiver
        &&& (self.rx_waiting matches Some(wait) ==> {
            &&& wait.since <= self.chan.wakes.len()
            &&& self.chan.recv_task == Some(wait.waker) || self.chan.fell_due_since(
                wait.waker,
                wait.since,
            )
        })
        &&& !self.connected ==> {
            &&& !self.chan.is_open
            &&& self.rx is Idle
            &&& self.chan.messages.len() + self.in_flight(false) == self.left_behind
        }
    }

    pub open spec fn inv(self) -> bool {
        &&& self.chan.consistent()
        &&& self.chan.line_inv()
        &&& self.messages_inv()
        &&& self.buffer_inv()
        &&& self.senders_inv()
        &&& self.receiver_inv()
    }

    /// How the count of messages in flight changes with one sender.
    proof fn lemma_with_handle(self, id: u64, handle: Handle<T>, over: bool)
        requires
            self.senders.dom().finite(),
        ensures
            self.with_handle(id, handle).in_flight(over) == self.in_flight(over) - (
            if self.senders.contains_key(id) && self.senders[id].in_flight(over) {
                1int
            } else {
                0int
            }) + (if handle.in_flight(over) { 1int } else { 0int }),
    {
        let next = self.with_handle(id, handle);
        let before = self.senders.dom().filter(|k: u64| self.senders[k].in_flight(over));
        let after = next.senders.dom().filter(|k: u64| next.senders[k].in_flight(over));
        self.senders.dom().lemma_len_filter(|k: u64| self.senders[k].in_flight(over));
        assert(after =~= if handle.in_flight(over) {
            before.insert(id)
        } else {
            before.remove(id)
        });
    }

    /// A sender that has a message in flight is counted.
    proof fn lemma_counted(self, id: u64, over: bool)
        requires
            self.senders.dom().finite(),
            self.senders.contains_key(id),
            self.senders[id].in_flight(over),
        ensures
            self.in_flight(over) > 0,
    {
        let f = |k: u64| self.senders[k].in_flight(over);
        self.senders.dom().lemma_len_filter(f);
        assert(self.senders.dom().filter(f).contains(id));
    }

    /// Those that have to park are among those in flight.
    proof fn lemma_over_is_in_flight(self)
        requires
            self.senders.dom().finite(),
        ensures
            self.in_flight(true) <= self.in_flight(false),
    {
        let all = |k: u64| self.senders[k].in_flight(false);
        let over = |k: u64| self.senders[k].in_flight(true);
        self.senders.dom().lemma_len_filter(all);
        vstd::set_lib::lemma_len_subset(
            self.senders.dom().filter(over),
            self.senders.dom().filter(all),
        );
    }

    /// The steps of sending keep the invariant.
    proof fn sending_keeps_inv(self, event: Event<T>)
        requires
            self.inv(),
            self.enabled(event),
            event is Check || event is Count || event is Park || event is Push,
        ensures
            self.step(event).inv(),
    {
        let next = self.step(event);
        self.chan.lemma_live_is_finite();
        let id = match event {
            Event::Check { id, .. } => id,
            Event::Count { id } => id,
            Event::Park { id } => id,
            Event::Push { id } => id,
            _ => 0,
        };
        assert(self.sender_inv(id, self.senders[id]));
        assert(self.chan.live().contains(id));
        self.lemma_with_handle(id, next.senders[id], false);
        self.lemma_with_handle(id, next.senders[id], true);
        assert(self.with_handle(id, next.senders[id]).senders =~= next.senders);
        assert(next.senders.dom() =~= self.senders.dom());
        assert(next.chan.live() =~= self.chan.live());
        assert(next.chan.tasks.dom() =~= self.chan.tasks.dom());
        if event is Park {
            let line = self.chan.parked;
            assert(!line.contains(id));
            assert forall|k: u64| #[trigger] line.push(id).contains(k) <==> line.contains(k) || k == id by {
                if line.contains(k) {
                    assert(line.push(id)[line.index_of(k)] == k);
                }
                assert(line.push(id)[line.len() as int] == id);
            }
        }
        if event is Push {
            self.lemma_counted(id, false);
            assert(next.sent =~= next.received + next.chan.messages);
        }
        self.chan.lemma_due(self.chan.recv_task);
        assert(next.chan.wakes == self.chan.wakes || next.chan.wakes == self.chan.due(
            self.chan.recv_task,
        ).wakes);
        assert forall|k: u64| #[trigger] next.senders.contains_key(k) implies next.sender_inv(
            k,
            next.senders[k],
        ) by {
            assert(self.senders.contains_key(k));
            assert(self.sender_inv(k, self.senders[k]));
        }
    }

    /// What else a sender can do keeps the invariant.
    proof fn sender_keeps_inv(self, event: Event<T>)
        requires
            self.inv(),
            self.enabled(event),
            event is PollReady || event is Clone || event is Leave || event is Close,
        ensures
            self.step(event).inv(),
    {
        let next = self.step(event);
        self.chan.lemma_live_is_finite();
        match event {
            Event::PollReady { id, .. } => {
                assert(self.sender_inv(id, self.senders[id]));
                assert(self.chan.live().contains(id));
                self.lemma_with_handle(id, next.senders[id], false);
                self.lemma_with_handle(id, next.senders[id], true);
                assert(self.with_handle(id, next.senders[id]).senders =~= next.senders);
                assert(next.senders.dom() =~= self.senders.dom());
                assert(next.chan.live() =~= self.chan.live());
                assert(next.chan.tasks.dom() =~= self.chan.tasks.dom());
            },
            Event::Clone { .. } => {
                let id = self.chan.next_id as u64;
                assert(!self.chan.tasks.contains_key(id));
                assert(!self.chan.parked.contains(id));
                assert(!self.senders.contains_key(id)) by {
                    assert(!self.chan.live().contains(id));
                }
                self.lemma_with_handle(id, next.senders[id], false);
                self.lemma_with_handle(id, next.senders[id], true);
                assert(self.with_handle(id, next.senders[id]).senders =~= next.senders);
                assert(next.chan.live() =~= self.chan.live().insert(id));
                assert(next.senders.dom() =~= self.senders.dom().insert(id));
                assert(next.chan.tasks.dom() =~= self.chan.tasks.dom().insert(id));
                assert forall|k: u64| #[trigger] next.chan.tasks.contains_key(k) implies k
                    < next.chan.next_id by {
                    assert(k == id || self.chan.tasks.contains_key(k));
                }
            },
            Event::Leave { id } => {
                assert(self.chan.live().contains(id));
                assert(next.chan.live() =~= self.chan.live().remove(id));
                assert(next.senders.dom() =~= self.senders.dom().remove(id));
                assert(next.chan.tasks.dom() =~= self.chan.tasks.dom() || next.chan.tasks.dom()
                    =~= self.chan.tasks.dom().remove(id));
                assert forall|over: bool| #[trigger] next.in_flight(over) == self.in_flight(over) by {
                    assert(next.senders.dom().filter(|k: u64| next.senders[k].in_flight(over))
                        =~= self.senders.dom().filter(|k: u64| self.senders[k].in_flight(over)));
                }
                assert(!self.senders[id].in_flight(false));
            },
            _ => {
                assert(next.chan.live() =~= self.chan.live());
            },
        }
        self.chan.lemma_due(self.chan.recv_task);
        assert(next.chan.wakes == self.chan.wakes || next.chan.wakes == self.chan.due(
            self.chan.recv_task,
        ).wakes);
        assert forall|k: u64| #[trigger] next.senders.contains_key(k) implies next.sender_inv(
            k,
            next.senders[k],
        ) by {
            if self.senders.contains_key(k) {
                assert(self.sender_inv(k, self.senders[k]));
            }
        }
    }

    /// What the receiver can do keeps the invariant.
    proof fn receiver_keeps_inv(self, event: Event<T>)
        requires
            self.inv(),
            self.enabled(event),
            event is Pop || event is Unpark || event is Uncount || event is Miss
                || event is ReceiverClose,
        ensures
            self.step(event).inv(),
    {
        let next = self.step(event);
        self.chan.lemma_live_is_finite();
        match event {
            Event::Pop => {
                assert(next.sent =~= next.received + next.chan.messages);
                assert(next.chan.live() =~= self.chan.live());
            },
            Event::Unpark => {
                self.lemma_over_is_in_flight();
                self.chan.lemma_unparked_one();
                let line = self.chan.parked;
                assert forall|k: u64| #[trigger] next.chan.parked.contains(k) implies line.contains(
                    k,
                ) by {
                    if line.len() > 0 {
                        let i = next.chan.parked.index_of(k);
                        assert(line[i + 1] == k);
                    }
                }
            },
            Event::ReceiverClose => {
                let closed = self.chan.closed();
                assert(closed.live() =~= self.chan.live());
                if self.connected {
                    closed.lemma_unparked_all();
                }
            },
            _ => {
                assert(next.chan.live() =~= self.chan.live());
            },
        }
        assert(next.senders == self.senders);
        assert forall|over: bool| #[trigger] next.in_flight(over) == self.in_flight(over) by {}
        assert forall|k: u64| #[trigger] next.senders.contains_key(k) implies next.sender_inv(
            k,
            next.senders[k],
        ) by {
            assert(self.sender_inv(k, self.senders[k]));
        }
    }

    /// Every event keeps the invariant.
    pub proof fn step_keeps_inv(self, event: Event<T>)
        requires
            self.inv(),
            self.enabled(event),
        ensures
            self.step(event).inv(),
    {
        match event {
            Event::Check { .. } => self.sending_keeps_inv(event),
            Event::Count { .. } => self.sending_keeps_inv(event),
            Event::Park { .. } => self.sending_keeps_inv(event),
            Event::Push { .. } => self.sending_keeps_inv(event),
            Event::PollReady { .. } => self.sender_keeps_inv(event),
            Event::Clone { .. } => self.sender_keeps_inv(event),
            Event::Leave { .. } => self.sender_keeps_inv(event),
            Event::Close { .. } => self.sender_keeps_inv(event),
            _ => self.receiver_keeps_inv(event),
        }
    }

    /// The invariant holds in every state that a channel can come to.
    pub proof fn inv_holds(buffer: nat, events: Seq<Event<T>>)
        requires
            buffer > 0,
        ensures
            System::<T>::initial(buffer).run(events).inv(),
        decreases events.len(),
    {
        if events.len() == 0 {
            System::<T>::lemma_initial(buffer);
        } else {
            System::<T>::inv_holds(buffer, events.drop_last());
            let before = System::<T>::initial(buffer).run(events.drop_last());
            if before.enabled(events.last()) {
                before.step_keeps_inv(events.last());
            }
        }
    }

    /// The messages that were announced and not taken out of the queue are bounded by the buffer and
    /// the number of senders ever made.
    pub open spec fn bounded(self) -> bool {
        self.chan.messages.len() + self.in_flight(false) <= self.chan.buffer + self.chan.next_id
    }

    /// Who is in line, or about to get in line, has a key of their own.
    proof fn lemma_line_has_keys(self)
        requires
            self.inv(),
        ensures
            self.chan.parked.len() + self.in_flight(true) <= self.chan.next_id,
    {
        let chan = self.chan;
        let f = |k: u64| self.senders[k].in_flight(true);
        let over = self.senders.dom().filter(f);
        let line = chan.parked.to_set();
        chan.lemma_live_is_finite();
        self.senders.dom().lemma_len_filter(f);
        chan.parked.unique_seq_to_set();
        assert(line.disjoint(over)) by {
            assert forall|k: u64| line.contains(k) implies !over.contains(k) by {
                assert(chan.parked.contains(k));
                if over.contains(k) {
                    assert(self.sender_inv(k, self.senders[k]));
                }
            }
        }
        vstd::set_lib::lemma_set_disjoint_lens(line, over);
        let all = line + over;
        assert forall|k: u64| #[trigger] all.contains(k) implies k < chan.next_id by {
            if line.contains(k) {
                assert(chan.parked.contains(k));
            } else {
                assert(chan.live().contains(k));
            }
            assert(chan.tasks.contains_key(k));
        }
        lemma_keys_below(all, chan.next_id);
    }

    /// No event changes the buffer or takes a key back, and none breaks the bound on the messages.
    pub proof fn lemma_stays_bounded(self, event: Event<T>)
        requires
            self.inv(),
            self.bounded(),
            self.enabled(event),
        ensures
            self.step(event).bounded(),
            self.step(event).chan.buffer == self.chan.buffer,
            self.step(event).chan.next_id >= self.chan.next_id,
    {
        let next = self.step(event);
        self.step_keeps_inv(event);
        if event is ReceiverClose {
            self.chan.closed().lemma_unparked_all_keeps_the_rest();
        }
        if next.chan.is_open {
            next.lemma_line_has_keys();
        }
    }

    /// At rest nothing is in flight.
    pub proof fn lemma_at_rest(self)
        requires
            self.at_rest(),
        ensures
            self.in_flight(false) == 0,
            self.in_flight(true) == 0,
    {
        assert forall|over: bool| #[trigger] self.in_flight(over) == 0 by {
            assert forall|id: u64| self.senders.contains_key(id) implies !self.senders[id].in_flight(
                over,
            ) by {
                assert(self.idle(id));
            }
            assert(self.senders.dom().filter(|k: u64| self.senders[k].in_flight(over))
                =~= Set::<u64>::empty());
        }
    }

    /// No event opens a closed channel.
    pub proof fn lemma_stays_closed(self, event: Event<T>)
        requires
            self.inv(),
            self.enabled(event),
            !self.chan.is_open,
        ensures
            !self.step(event).chan.is_open,
    {
        if event is ReceiverClose {
            assert(self.chan.closed().live() =~= self.chan.live());
            self.chan.closed().lemma_unparked_all();
        }
        if event is Unpark {
            self.chan.lemma_unparked_one();
        }
    }

    proof fn lemma_initial(buffer: nat)
        requires
            buffer > 0,
        ensures
            System::<T>::initial(buffer).inv(),
    {
        let sys = System::<T>::initial(buffer);
        assert(sys.chan.live() =~= Set::<u64>::empty().insert(0));
        assert(sys.senders.dom() =~= Set::<u64>::empty().insert(0));
        assert forall|over: bool| #[trigger] sys.in_flight(over) == 0 by {
            assert(sys.senders.dom().filter(|k: u64| sys.senders[k].in_flight(over))
                =~= Set::<u64>::empty());
        }
        assert(sys.sent =~= sys.received + sys.chan.messages);
    }
}

/// There are at most `n` keys below `n`.
proof fn lemma_keys_below(keys: Set<u64>, n: nat)
    requires
        keys.finite(),
        forall|k: u64| #[trigger] keys.contains(k) ==> k < n,
    ensures
        keys.len() <= n,
    decreases n,
{
    if n == 0 {
        assert(keys =~= Set::<u64>::empty());
    } else {
        let last = (n - 1) as u64;
        lemma_keys_below(keys.remove(last), (n - 1) as nat);
    }
}

impl<T> ChannelView<T> {
    /// What is kept of the line: each task is in it once if it is parked, and else not at all.
    pub open spec fn line_inv(self) -> bool {
        &&& self.parked.no_duplicates()
        &&& forall|id: u64| #[trigger]
            self.parked.contains(id) <==> self.tasks.contains_key(id) && self.tasks[id].is_parked
    }

    /// What is due in `self` is due in `next`, and what is due besides fell due later.
    pub open spec fn dues_grow(self, next: Self) -> bool {
        &&& self.wakes.len() <= next.wakes.len()
        &&& forall|i: int|
            #![trigger self.wakes[i]]
            #![trigger next.wakes[i]]
            0 <= i < self.wakes.len() ==> next.wakes[i] == self.wakes[i]
    }

    /// What falls due adds to what is due.
    proof fn lemma_due(self, waker: Option<int>)
        ensures
            self.dues_grow(self.due(waker)),
            waker matches Some(w) ==> self.due(waker).fell_due_since(w, self.wakes.len()),
    {
        if let Some(task) = waker {
            assert(self.due(waker).wakes[self.wakes.len() as int] == task);
        }
    }

    /// The wakers in a line depend on the tasks in it only.
    pub proof fn lemma_wakers_in(self, other: Self, line: Seq<u64>)
        requires
            forall|i: int| 0 <= i < line.len() ==> self.tasks[#[trigger] line[i]]
                == other.tasks[line[i]],
        ensures
            self.wakers_in(line) == other.wakers_in(line),
        decreases line.len(),
    {
        if line.len() > 0 {
            let rest = line.drop_first();
            assert forall|i: int| 0 <= i < rest.len() implies self.tasks[#[trigger] rest[i]]
                == other.tasks[rest[i]] by {
                assert(rest[i] == line[i + 1]);
            }
            self.lemma_wakers_in(other, rest);
        }
    }

    pub proof fn lemma_unparked_one(self)
        requires
            self.consistent(),
            self.line_inv(),
        ensures
            self.unparked_one().consistent(),
            self.unparked_one().line_inv(),
            self.unparked_one().same_but_line(self),
            self.unparked_one().live() == self.live(),
            self.parked.len() > 0 ==> self.unparked_one().parked == self.parked.drop_first(),
            self.parked.len() > 0 ==> self.unparked_one().wakes == self.due(
                self.tasks[self.parked[0]].waker,
            ).wakes,
            self.dues_grow(self.unparked_one()),
            forall|id: u64| #[trigger]
                self.parked.contains(id) ==> if id == self.parked[0] {
                    &&& !self.unparked_one().parked.contains(id)
                    &&& self.tasks[id].waker matches Some(w)
                        ==> self.unparked_one().fell_due_since(w, self.wakes.len())
                } else {
                    &&& self.unparked_one().parked.contains(id)
                    &&& self.unparked_one().tasks[id] == self.tasks[id]
                },
    {
        if self.parked.len() > 0 {
            let next = self.unparked_one();
            let id = self.parked[0];
            assert(self.parked.contains(id));
            self.lemma_due(self.tasks[id].waker);
            assert(next.wakes == self.due(self.tasks[id].waker).wakes);
            assert forall|k: u64| #[trigger] next.parked.contains(k) <==> self.parked.contains(k) && k != id by {
                if self.parked.contains(k) && k != id {
                    let i = self.parked.index_of(k);
                    assert(next.parked[i - 1] == k);
                }
                if next.parked.contains(k) {
                    let i = next.parked.index_of(k);
                    assert(self.parked[i + 1] == k);
                }
            }
            assert(next.live() =~= self.live());
        }
    }

    pub proof fn lemma_unparked_all(self)
        requires
            self.consistent(),
            self.line_inv(),
        ensures
            self.unparked_all().consistent(),
            self.unparked_all().line_inv(),
            self.unparked_all().same_but_line(self),
            self.unparked_all().live() == self.live(),
            self.unparked_all().parked.len() == 0,
            self.unparked_all().wakes == self.wakes + self.wakers_in(self.parked),
            self.dues_grow(self.unparked_all()),
            forall|id: u64| #[trigger]
                self.parked.contains(id) ==> (self.tasks[id].waker matches Some(w)
                    ==> self.unparked_all().fell_due_since(w, self.wakes.len())),
        decreases self.parked.len(),
    {
        if self.parked.len() > 0 {
            let next = self.unparked_one();
            self.lemma_unparked_one();
            next.lemma_unparked_all();
            let rest = self.parked.drop_first();
            assert forall|i: int| 0 <= i < rest.len() implies next.tasks[#[trigger] rest[i]]
                == self.tasks[rest[i]] by {
                assert(rest[i] == self.parked[i + 1]);
                assert(self.parked.contains(rest[i]));
                assert(self.parked[0] != self.parked[i + 1]);
            }
            next.lemma_wakers_in(self, rest);
            assert(self.unparked_all().wakes =~= self.wakes + self.wakers_in(self.parked));
            assert forall|id: u64| #[trigger] self.parked.contains(id) implies (
            self.tasks[id].waker matches Some(w) ==> self.unparked_all().fell_due_since(
                w,
                self.wakes.len(),
            )) by {
                if id != self.parked[0] {
                    assert(next.parked.contains(id));
                }
            }
        } else {
            assert(self.unparked_all().wakes =~= self.wakes + self.wakers_in(self.parked));
        }
    }
}

} // verus!
