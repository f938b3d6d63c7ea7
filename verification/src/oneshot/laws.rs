//! What holds of a one-shot channel in every state that its two sides can bring it to, with the
//! halves of sending and of waiting in any order.

use super::view::OneshotView;
use super::RecvError;
use crate::poll::Poll;
use vstd::prelude::*;

verus! {

/// How far the sender has come.
pub enum TxStage {
    /// It has not sent anything.
    Idle,
    /// It has stored the value, and has yet to look whether the receiver is gone.
    Stored,
    /// It is done with the value, and has yet to go.
    Sent,
    /// It is gone.
    Gone,
}

/// How far the receiver has come.
pub enum RxStage {
    /// It does not wait.
    Idle,
    /// It has begun to wait for `waker` to be woken.
    Registered { waker: int, done: bool },
    /// It was told to wait, with `waker` to be woken.
    Waiting { waker: int },
    /// It is gone.
    Gone,
}

/// What one of the sides can do next.
pub enum Event<T> {
    Store(T),
    Reclaim,
    DropTx,
    TryRecv,
    Register(int),
    Settle,
    DropRx,
}

/// A channel, its two sides, and what has become of the value so far.
pub struct System<T> {
    pub chan: OneshotView<T>,
    pub tx: TxStage,
    pub rx: RxStage,
    /// What the sender was given to send.
    pub sent: Option<T>,
    /// What the sender got back.
    pub returned: Option<T>,
    /// What the receiver got.
    pub received: Option<T>,
}

impl<T> System<T> {
    pub open spec fn initial() -> Self {
        System {
            chan: OneshotView::initial(),
            tx: TxStage::Idle,
            rx: RxStage::Idle,
            sent: None,
            returned: None,
            received: None,
        }
    }

    /// The receiver is there, and not in the middle of a wait.
    pub open spec fn rx_free(self) -> bool {
        self.rx is Idle || self.rx is Waiting
    }

    /// The side that `event` belongs to can do it now.
    pub open spec fn enabled(self, event: Event<T>) -> bool {
        match event {
            Event::Store(_) => self.tx is Idle,
            Event::Reclaim => self.tx is Stored,
            Event::DropTx => self.tx is Idle || self.tx is Sent,
            Event::TryRecv => self.rx_free(),
            Event::Register(_) => self.rx_free(),
            Event::Settle => self.rx is Registered,
            Event::DropRx => self.rx_free(),
        }
    }

    /// What `event` makes of the channel and its sides.
    pub open spec fn step(self, event: Event<T>) -> Self {
        match event {
            Event::Store(value) => {
                let (chan, result) = self.chan.store_step(value);
                match result {
                    Ok(()) => System { chan, tx: TxStage::Stored, sent: Some(value), ..self },
                    Err(back) => System {
                        chan,
                        tx: TxStage::Sent,
                        sent: Some(value),
                        returned: Some(back),
                        ..self
                    },
                }
            },
            Event::Reclaim => {
                let (chan, result) = self.chan.reclaim_step();
                match result {
                    Ok(()) => System { chan, tx: TxStage::Sent, ..self },
                    Err(back) => System {
                        chan,
                        tx: TxStage::Sent,
                        returned: Some(back),
                        ..self
                    },
                }
            },
            Event::DropTx => System { chan: self.chan.sender_gone(), tx: TxStage::Gone, ..self },
            Event::TryRecv => {
                let (chan, result) = self.chan.try_recv_step();
                match result {
                    Ok(Some(value)) => System { chan, received: Some(value), ..self },
                    _ => System { chan, ..self },
                }
            },
            Event::Register(waker) => {
                let (chan, done) = self.chan.await_step(waker);
                System { chan, rx: RxStage::Registered { waker, done }, ..self }
            },
            Event::Settle => {
                let (chan, poll) = self.chan.settle_step(self.rx->done);
                match poll {
                    Poll::Ready(Ok(value)) => System {
                        chan,
                        rx: RxStage::Idle,
                        received: Some(value),
                        ..self
                    },
                    Poll::Ready(Err(_)) => System { chan, rx: RxStage::Idle, ..self },
                    Poll::Pending => System {
                        chan,
                        rx: RxStage::Waiting { waker: self.rx->Registered_waker },
                        ..self
                    },
                }
            },
            Event::DropRx => System { chan: self.chan.receiver_gone(), rx: RxStage::Gone, ..self },
        }
    }

    /// The channel and its sides after all of `events` that were possible, in order.
    pub open spec fn run(self, events: Seq<Event<T>>) -> Self
        decreases events.len(),
    {
        if events.len() == 0 {
            self
        } else {
            let before = self.run(events.drop_last());
            if before.enabled(events.last()) {
                before.step(events.last())
            } else {
                before
            }
        }
    }

    /// The value is in one place: in the slot, with the receiver, or back with the sender.
    pub open spec fn value_in_one_place(self) -> bool {
        match self.sent {
            None => self.chan.data is None && self.received is None && self.returned is None,
            Some(_) => {
                ||| self.chan.data == self.sent && self.received is None && self.returned is None
                ||| self.chan.data is None && self.received == self.sent && self.returned is None
                ||| self.chan.data is None && self.received is None && self.returned == self.sent
            },
        }
    }

    /// What every event keeps.
    pub open spec fn inv(self) -> bool {
        &&& self.value_in_one_place()
        &&& !self.chan.data_locked
        &&& !self.chan.waker_locked
        &&& self.chan.complete <==> self.tx is Gone || self.rx is Gone
        &&& self.tx is Idle ==> self.sent is None
        &&& self.tx is Stored ==> self.sent is Some && self.returned is None
        &&& self.tx is Sent ==> self.sent is Some
        &&& self.returned is Some ==> self.rx is Gone
        &&& self.received is Some ==> self.tx is Gone
        &&& self.tx is Gone ==> self.chan.rx_waker is None
        &&& self.rx is Gone ==> self.chan.rx_waker is None
        &&& self.tx !is Gone ==> self.chan.wakes == Seq::<int>::empty()
        &&& (self.rx matches RxStage::Waiting { waker } ==> self.registered_or_due(waker))
        &&& (self.rx matches RxStage::Registered { waker, done } ==> if done {
            self.tx is Gone
        } else {
            self.registered_or_due(waker)
        })
    }

    /// `waker` is there to be woken, or is all that has fallen due.
    pub open spec fn registered_or_due(self, waker: int) -> bool {
        ||| self.chan.rx_waker == Some(waker)
        ||| self.tx is Gone && self.chan.wakes == seq![waker]
    }

    proof fn inv_is_kept(self, event: Event<T>)
        requires
            self.inv(),
            self.enabled(event),
        ensures
            self.step(event).inv(),
    {
        if let Some(task) = self.chan.rx_waker {
            assert(Seq::<int>::empty().push(task) =~= seq![task]);
        }
    }

    proof fn inv_holds(events: Seq<Event<T>>)
        ensures
            System::<T>::initial().run(events).inv(),
        decreases events.len(),
    {
        if events.len() > 0 {
            System::<T>::inv_holds(events.drop_last());
            let before = System::<T>::initial().run(events.drop_last());
            if before.enabled(events.last()) {
                before.inv_is_kept(events.last());
            }
        }
    }

    /// A value that was sent is in exactly one place: in the slot, with the receiver, or back with
    /// the sender. It is neither lost nor doubled.
    pub proof fn value_is_neither_lost_nor_doubled(events: Seq<Event<T>>)
        ensures
            System::<T>::initial().run(events).value_in_one_place(),
    {
        System::<T>::inv_holds(events);
    }

    /// The sender gets its value back only if the receiver is gone.
    pub proof fn value_comes_back_only_from_a_gone_receiver(events: Seq<Event<T>>)
        ensures
            ({
                let sys = System::<T>::initial().run(events);
                sys.returned is Some ==> sys.rx is Gone
            }),
    {
        System::<T>::inv_holds(events);
    }

    /// A sender whose receiver is gone gets its value back at once.
    pub proof fn gone_receiver_takes_no_value(events: Seq<Event<T>>, value: T)
        ensures
            ({
                let sys = System::<T>::initial().run(events);
                sys.rx is Gone ==> sys.chan.store_step(value) == (sys.chan, Err::<(), T>(value))
            }),
    {
        System::<T>::inv_holds(events);
    }

    /// Once the sender is gone, the value that it sent, if it is not back with it and was not
    /// received before, is what the receiver gets next, whether it waits or only tries.
    pub proof fn sent_value_is_received(events: Seq<Event<T>>, waker: int)
        ensures
            ({
                let sys = System::<T>::initial().run(events);
                sys.tx is Gone && sys.sent is Some && sys.returned is None && sys.received is None
                    ==> {
                    &&& sys.chan.try_recv_step().1 == Ok::<Option<T>, RecvError>(sys.sent)
                    &&& sys.chan.recv_step(waker).1 == Poll::Ready(
                        Ok::<T, RecvError>(sys.sent->0),
                    )
                }
            }),
    {
        System::<T>::inv_holds(events);
    }

    /// A sender that is gone without having sent, and one whose value was received, leave the
    /// receiver with the news that no value will come.
    pub proof fn no_second_value_comes(events: Seq<Event<T>>, waker: int)
        ensures
            ({
                let sys = System::<T>::initial().run(events);
                sys.tx is Gone && (sys.sent is None || sys.received is Some) ==> {
                    &&& sys.chan.try_recv_step() == (
                        sys.chan,
                        Err::<Option<T>, RecvError>(RecvError),
                    )
                    &&& sys.chan.recv_step(waker) == (
                        sys.chan,
                        Poll::Ready(Err::<T, RecvError>(RecvError)),
                    )
                }
            }),
    {
        System::<T>::inv_holds(events);
    }

    /// As long as both sides are there, the receiver gets nothing yet.
    pub proof fn nothing_comes_before_the_sender_is_gone(events: Seq<Event<T>>, waker: int)
        ensures
            ({
                let sys = System::<T>::initial().run(events);
                sys.tx !is Gone && sys.rx !is Gone ==> {
                    &&& sys.chan.try_recv_step() == (sys.chan, Ok::<Option<T>, RecvError>(None))
                    &&& sys.chan.recv_step(waker).1 == Poll::<Result<T, RecvError>>::Pending
                    &&& sys.chan.recv_step(waker).0.rx_waker == Some(waker)
                }
            }),
    {
        System::<T>::inv_holds(events);
    }

    /// No wake-up is lost or doubled: nothing falls due before the sender goes, and then whoever was
    /// told to wait does, once.
    pub proof fn waiting_receiver_is_woken(events: Seq<Event<T>>)
        ensures
            ({
                let sys = System::<T>::initial().run(events);
                &&& sys.tx !is Gone ==> sys.chan.wakes == Seq::<int>::empty()
                &&& sys.tx is Gone ==> (sys.rx matches RxStage::Waiting { waker }
                    ==> sys.chan.wakes == seq![waker])
            }),
    {
        System::<T>::inv_holds(events);
    }

    /// To send is to store the value, to look whether the receiver is gone, and to go, one right
    /// after the other.
    pub proof fn send_is_its_steps(self, value: T)
        requires
            self.inv(),
            self.tx is Idle,
        ensures
            ({
                let (chan, result) = self.chan.store_step(value);
                let after = self.run(seq![Event::Store(value), Event::Reclaim, Event::DropTx]);
                &&& after.chan == chan.sender_gone()
                &&& after.tx is Gone
                &&& after.sent == Some(value)
                &&& after.returned == match result {
                    Ok(()) => None,
                    Err(back) => Some(back),
                }
            }),
    {
        let events = seq![Event::Store(value), Event::Reclaim, Event::DropTx];
        assert(events.drop_last() =~= seq![Event::Store(value), Event::Reclaim]);
        assert(seq![Event::Store(value), Event::Reclaim].drop_last() =~= seq![Event::Store(value)]);
        assert(seq![Event::Store(value)].drop_last() =~= Seq::<Event<T>>::empty());
        reveal_with_fuel(System::run, 4);
    }

    /// To wait is to leave a waker and to look for the value, one right after the other.
    pub proof fn recv_is_its_steps(self, waker: int)
        requires
            self.rx_free(),
        ensures
            ({
                let (chan, poll) = self.chan.recv_step(waker);
                let after = self.run(seq![Event::Register(waker), Event::Settle]);
                &&& after.chan == chan
                &&& match poll {
                    Poll::Ready(Ok(value)) => after.rx is Idle && after.received == Some(value),
                    Poll::Ready(Err(_)) => after.rx is Idle && after.received == self.received,
                    Poll::Pending => after.rx == (RxStage::Waiting { waker }),
                }
            }),
    {
        let events = seq![Event::<T>::Register(waker), Event::Settle];
        assert(events.drop_last() =~= seq![Event::<T>::Register(waker)]);
        assert(seq![Event::<T>::Register(waker)].drop_last() =~= Seq::<Event<T>>::empty());
        reveal_with_fuel(System::run, 3);
    }
}

} // verus!
