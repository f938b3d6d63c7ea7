//! What the senders and the receiver of a channel share.

use super::queue::{self, Queue};
use super::state::{decode_state, encode_state, State, INIT_STATE, OPEN_MASK};
use super::view::{ChannelView, TaskView};
use crate::wake::{self, WakeList};
use futures::task::AtomicWaker;
use std::collections::HashMap;
use std::task::Waker;
use vstd::prelude::*;

verus! {

broadcast use vstd::std_specs::hash::group_hash_axioms;

/// The task behind one sender.
pub struct SenderTask {
    waker: Option<Waker>,
    is_parked: bool,
}

impl SenderTask {
    /// Whether the sender waits for the receiver.
    pub closed spec fn is_parked(&self) -> bool {
        self.is_parked
    }

    /// What to wake when the wait is over.
    pub closed spec fn waker(&self) -> Option<Waker> {
        self.waker
    }

    pub fn new() -> (task: Self)
        ensures
            !task.is_parked(),
            task.waker() is None,
    {
        SenderTask { is_parked: false, waker: None }
    }

    /// Ends the wait, and hands out what is to be woken.
    pub fn notify(&mut self) -> (due: Option<Waker>)
        ensures
            !final(self).is_parked(),
            final(self).waker() is None,
            due == old(self).waker(),
    {
        self.is_parked = false;
        self.waker.take()
    }
}

/// A task, and whether its sender is still there.
struct TaskSlot {
    task: SenderTask,
    owned: bool,
}

impl TaskSlot {
    spec fn view(&self) -> TaskView {
        TaskView {
            is_parked: self.task.is_parked,
            waker: wake::task_of_opt(self.task.waker),
            owned: self.owned,
        }
    }
}

/// What the senders and the receiver of one channel share.
pub struct BoundedInner<T> {
    buffer: usize,
    state: usize,
    queue: Queue<T>,
    parked_queue: Queue<u64>,
    num_senders: usize,
    recv_task: AtomicWaker,
    tasks: HashMap<u64, TaskSlot>,
    next_id: u64,
    wakes: WakeList,
    discarded: WakeList,
}

impl<T> View for BoundedInner<T> {
    type V = ChannelView<T>;

    closed spec fn view(&self) -> ChannelView<T> {
        ChannelView {
            buffer: self.buffer as nat,
            is_open: State::of_word(self.state).is_open,
            num_msg: State::of_word(self.state).num_msg as nat,
            messages: self.queue@,
            parked: self.parked_queue@,
            tasks: self.tasks@.map_values(|slot: TaskSlot| slot.view()),
            num_senders: self.num_senders as nat,
            recv_task: wake::registered_task(self.recv_task),
            wakes: self.wakes@,
            discarded: self.discarded@,
            next_id: self.next_id as nat,
        }
    }
}

impl<T> BoundedInner<T> {
    /// Every push into one of the queues is finished.
    pub closed spec fn queues_wf(&self) -> bool {
        &&& self.queue.wf()
        &&& self.queue.settled()
        &&& self.parked_queue.wf()
        &&& self.parked_queue.settled()
    }

    /// The invariant of a channel.
    pub open spec fn wf(&self) -> bool {
        self.queues_wf() && self@.consistent()
    }

    /// A new channel with one sender, whose key is 0.
    pub(crate) fn new(buffer: usize) -> (inner: Self)
        requires
            buffer > 0,
        ensures
            inner.wf(),
            inner@ == ChannelView::<T>::initial(buffer as nat),
    {
        let mut tasks: HashMap<u64, TaskSlot> = HashMap::new();
        tasks.insert(0, TaskSlot { task: SenderTask::new(), owned: true });
        let inner = BoundedInner {
            buffer,
            state: INIT_STATE,
            queue: Queue::new(),
            parked_queue: Queue::new(),
            num_senders: 1,
            recv_task: wake::new_cell(),
            tasks,
            next_id: 1,
            wakes: WakeList::new(),
            discarded: WakeList::new(),
        };
        proof {
            assert(inner@ =~= ChannelView::<T>::initial(buffer as nat));
            assert(inner@.live() =~= Set::<u64>::empty().insert(0));
        }
        inner
    }

    /// The tasks that are due to be woken, in order; the caller has to wake them.
    pub fn take_wakes(&mut self) -> (due: Vec<Waker>)
        requires
            old(self).wf(),
        ensures
            final(self).wf(),
            wake::tasks_of(due@) == old(self)@.wakes,
            final(self)@ == (ChannelView { wakes: Seq::<int>::empty(), ..old(self)@ }),
    {
        self.wakes.take_all()
    }

    /// The wakers that were replaced or are of no use any more. To drop a waker may run code of
    /// the task that it belongs to, so the caller has to drop them once it has let go of the channel.
    pub fn take_discarded(&mut self) -> (wakers: Vec<Waker>)
        requires
            old(self).wf(),
        ensures
            final(self).wf(),
            wake::tasks_of(wakers@) == old(self)@.discarded,
            final(self)@ == (ChannelView { discarded: Seq::<int>::empty(), ..old(self)@ }),
    {
        self.discarded.take_all()
    }

    /// Closes the channel.
    pub fn close(&mut self)
        requires
            old(self).wf(),
        ensures
            final(self).wf(),
            final(self)@ == old(self)@.closed(),
    {
        let curr: usize = self.state;
        if !decode_state(curr).is_open {
            return;
        }
        proof {
            State::lemma_masks(curr);
        }
        self.state = curr & !OPEN_MASK;
    }

    pub(crate) fn is_open(&self) -> (open: bool)
        ensures
            open == self@.is_open,
    {
        decode_state(self.state).is_open
    }

    pub(crate) fn buffer(&self) -> (buffer: usize)
        ensures
            buffer == self@.buffer,
    {
        self.buffer
    }

    pub(crate) fn num_senders(&self) -> (num: usize)
        ensures
            num == self@.num_senders,
    {
        self.num_senders
    }

    /// Whether one more message can be counted, if the channel is open.
    pub fn can_count(&self) -> (can: bool)
        ensures
            can == self@.can_count(),
    {
        let state = decode_state(self.state);
        !state.is_open || state.num_msg < usize::MAX / 2
    }

    /// Whether one more sender can be counted and given a key.
    pub fn can_join(&self) -> (can: bool)
        ensures
            can == (self@.num_senders < usize::MAX && self@.next_id < u64::MAX),
    {
        self.num_senders < usize::MAX && self.next_id < u64::MAX
    }

    /// The state word as it is now.
    pub fn state_word(&self) -> (word: usize)
        ensures
            self@.has_word(word),
    {
        self.state
    }

    /// One attempt to announce one more message, by who has read `curr` as the state word. A word
    /// that says that the channel is closed announces nothing. Else the attempt fails, with the word
    /// as it is now, if that is no longer `curr`; and if it is, it says how many messages are
    /// announced now.
    pub fn try_announce(&mut self, curr: usize) -> (result: Result<Option<usize>, usize>)
        requires
            old(self).queues_wf(),
            old(self)@.can_count(),
        ensures
            final(self).queues_wf(),
            old(self).wf() ==> final(self).wf(),
            match result {
                Ok(None) => !State::of_word(curr).is_open && final(self)@ == old(self)@,
                Ok(Some(num)) => {
                    &&& old(self)@.is_open
                    &&& old(self)@.has_word(curr)
                    &&& num == old(self)@.num_msg + 1
                    &&& final(self)@ == old(self)@.counted()
                },
                Err(actual) => {
                    &&& State::of_word(curr).is_open
                    &&& !old(self)@.has_word(curr)
                    &&& old(self)@.has_word(actual)
                    &&& final(self)@ == old(self)@
                },
            },
    {
        proof {
            State::lemma_masks(curr);
            State::encode_inverts_decode(curr);
            State::encode_inverts_decode(self.state);
        }
        let mut state = decode_state(curr);
        if !state.is_open {
            return Ok(None);
        }
        if self.state == curr {
            state.num_msg = state.num_msg + 1;
            self.state = encode_state(&state);
            proof {
                state.decode_inverts_encode();
            }
            Ok(Some(state.num_msg))
        } else {
            Err(self.state)
        }
    }

    /// Takes back the announcement of one message. If that message has left the queue, the channel
    /// stays well-formed.
    pub(crate) fn dec_num_msg(&mut self)
        requires
            old(self).queues_wf(),
            old(self)@.num_msg >= 1,
        ensures
            final(self).queues_wf(),
            final(self)@ == old(self)@.uncounted(),
            old(self).wf() && old(self)@.messages.len() < old(self)@.num_msg ==> final(self).wf(),
    {
        self.state = self.state - 1;
    }

    /// Puts a message into the queue. If it is announced, the channel stays well-formed.
    pub(crate) fn push_message(&mut self, msg: T)
        requires
            old(self).queues_wf(),
        ensures
            final(self).queues_wf(),
            old(self).wf() && old(self)@.messages.len() < old(self)@.num_msg ==> final(self).wf(),
            final(self)@ == (ChannelView { messages: old(self)@.messages.push(msg), ..old(self)@ }),
    {
        self.queue.push(msg);
    }

    /// Takes the oldest message out of the queue.
    pub fn pop_message(&mut self) -> (msg: Option<T>)
        requires
            old(self).wf(),
        ensures
            final(self).wf(),
            match msg {
                Some(m) => {
                    &&& old(self)@.messages.len() > 0
                    &&& m == old(self)@.messages[0]
                    &&& final(self)@ == (ChannelView {
                        messages: old(self)@.messages.drop_first(),
                        ..old(self)@
                    })
                },
                None => old(self)@.messages.len() == 0 && final(self)@ == old(self)@,
            },
    {
        proof {
            queue::queue_links_match_values(self.queue);
        }
        self.queue.pop_spin()
    }

    /// The receiver's task falls due.
    pub(crate) fn wake_receiver(&mut self)
        requires
            old(self).queues_wf(),
        ensures
            final(self).queues_wf(),
            old(self).wf() ==> final(self).wf(),
            final(self)@ == old(self)@.receiver_woken(),
    {
        let waker = wake::take(&mut self.recv_task);
        self.wakes.add(waker);
    }

    /// The receiver's task is the one of `waker`.
    pub(crate) fn register_receiver(&mut self, waker: &Waker)
        requires
            old(self).wf(),
        ensures
            final(self).wf(),
            final(self)@ == (ChannelView {
                recv_task: Some(wake::task_of(*waker)),
                ..old(self)@.discarding(old(self)@.recv_task)
            }),
    {
        let replaced = wake::take(&mut self.recv_task);
        self.discarded.add(replaced);
        wake::register(&mut self.recv_task, waker);
    }

    pub(crate) fn task_is_parked(&self, id: u64) -> (parked: bool)
        requires
            self.wf(),
            self@.tasks.contains_key(id),
        ensures
            parked == self@.tasks[id].is_parked,
    {
        match self.tasks.get(&id) {
            Some(slot) => slot.task.is_parked,
            None => false,
        }
    }

    /// `waker` is what to wake when the task `id` is unparked.
    pub(crate) fn set_task_waker(&mut self, id: u64, waker: Option<Waker>)
        requires
            old(self).wf(),
            old(self)@.tasks.contains_key(id),
        ensures
            final(self).wf(),
            final(self)@ == old(self)@.with_waker(id, wake::task_of_opt(waker)),
    {
        if let Some(mut slot) = self.tasks.remove(&id) {
            let replaced = slot.task.waker.take();
            self.discarded.add(replaced);
            slot.task.waker = waker;
            self.tasks.insert(id, slot);
        }
        proof {
            assert(self@ =~= old(self)@.with_waker(id, wake::task_of_opt(waker)));
            assert(self@.live() =~= old(self)@.live());
        }
    }

    /// Parks the task `id`, last in line.
    pub(crate) fn park_task(&mut self, id: u64)
        requires
            old(self).wf(),
            old(self)@.tasks.contains_key(id),
        ensures
            final(self).wf(),
            final(self)@ == old(self)@.with_parked(id),
    {
        if let Some(mut slot) = self.tasks.remove(&id) {
            slot.task.is_parked = true;
            let replaced = slot.task.waker.take();
            self.discarded.add(replaced);
            self.tasks.insert(id, slot);
        }
        self.parked_queue.push(id);
        proof {
            assert(self@ =~= old(self)@.with_parked(id));
            assert(self@.live() =~= old(self)@.live());
        }
    }

    /// Unparks the first task in line, and says whether there was one.
    pub(crate) fn unpark_one(&mut self) -> (unparked: bool)
        requires
            old(self).wf(),
        ensures
            final(self).wf(),
            unparked == (old(self)@.parked.len() > 0),
            final(self)@ == old(self)@.unparked_one(),
    {
        proof {
            queue::queue_links_match_values(self.parked_queue);
        }
        match self.parked_queue.pop_spin() {
            Some(id) => {
                if let Some(mut slot) = self.tasks.remove(&id) {
                    let due = slot.task.notify();
                    self.wakes.add(due);
                    if slot.owned {
                        self.tasks.insert(id, slot);
                    }
                }
                proof {
                    assert(self@ =~= old(self)@.unparked_one());
                    assert(self@.live() =~= old(self)@.live());
                }
                true
            },
            None => false,
        }
    }

    /// One attempt to add a sender, by who has read `curr` as the number of senders. It fails, with
    /// the number as it is now, if that is no longer `curr`; and if it is, it gives the key of the
    /// new sender's task.
    pub fn try_join(&mut self, curr: usize) -> (result: Result<u64, usize>)
        requires
            old(self).wf(),
            curr < usize::MAX,
            old(self)@.next_id < u64::MAX,
        ensures
            final(self).wf(),
            match result {
                Ok(id) => {
                    &&& curr == old(self)@.num_senders
                    &&& id == old(self)@.next_id
                    &&& final(self)@ == old(self)@.joined()
                },
                Err(actual) => {
                    &&& curr != old(self)@.num_senders
                    &&& actual == old(self)@.num_senders
                    &&& final(self)@ == old(self)@
                },
            },
    {
        let next: usize = curr + 1;
        if self.num_senders != curr {
            return Err(self.num_senders);
        }
        let id: u64 = self.next_id;
        self.num_senders = next;
        self.next_id = id + 1;
        self.tasks.insert(id, TaskSlot { task: SenderTask::new(), owned: true });
        proof {
            old(self)@.lemma_live_is_finite();
            assert(self@ =~= old(self)@.joined());
            assert(!old(self)@.tasks.contains_key(id));
            assert(self@.live() =~= old(self)@.live().insert(id));
        }
        Ok(id)
    }

    /// Takes out the sender `id`; with the last one the channel closes.
    pub(crate) fn remove_sender(&mut self, id: u64)
        requires
            old(self).wf(),
            old(self)@.tasks.contains_key(id),
            old(self)@.tasks[id].owned,
        ensures
            final(self).wf(),
            final(self)@ == old(self)@.left(id),
    {
        proof {
            old(self)@.lemma_live_is_finite();
            assert(self@.live().contains(id));
            assert(self@.live().len() > 0);
        }
        if let Some(mut slot) = self.tasks.remove(&id) {
            if slot.task.is_parked {
                slot.owned = false;
                self.tasks.insert(id, slot);
            } else {
                self.discarded.add(slot.task.waker);
            }
        }
        let prev: usize = self.num_senders;
        self.num_senders = prev - 1;
        proof {
            assert(self@.live() =~= old(self)@.live().remove(id));
            assert(self@.tasks.dom() =~= self.tasks@.dom());
            assert forall|k: u64| #[trigger] self@.tasks.contains_key(k) implies k < self@.next_id by {
                assert(old(self)@.tasks.contains_key(k));
            }
        }
        if prev == 1 {
            self.close();
            self.wake_receiver();
        }
        proof {
            assert(self@ =~= old(self)@.left(id));
        }
    }
}

} // verus!
