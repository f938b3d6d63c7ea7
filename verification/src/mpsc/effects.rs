//! What each operation does to each part of a channel, and what it answers.

use super::error::{SendError, SendErrorKind, TrySendError};
use super::laws::after_receiving;
use super::protocol::{Event, System};
use super::state::{CAPACITY_MASK, OPEN_MASK};
use super::view::{ChannelView, SenderView, TaskView};
use crate::poll::Poll;
use vstd::prelude::*;

verus! {

/// A new channel is open and empty and has one sender, which may send, and to which the channel
/// says so.
pub proof fn new_channel_is_open_and_empty<T>(buffer: nat, waker: int, maybe_parked: bool)
    ensures
        ({
            let chan = ChannelView::<T>::initial(buffer);
            let sender = Some(SenderView { id: 0, maybe_parked });
            &&& chan.buffer == buffer
            &&& chan.is_open
            &&& chan.num_msg == 0
            &&& chan.messages.len() == 0
            &&& chan.parked.len() == 0
            &&& chan.recv_task is None
            &&& chan.wakes.len() == 0
            &&& chan.discarded.len() == 0
            &&& chan.num_senders == 1
            &&& chan.next_id == 1
            &&& forall|id: u64| #[trigger] chan.tasks.contains_key(id) <==> id == 0
            &&& chan.tasks[0] == (TaskView { is_parked: false, waker: None, owned: true })
            &&& chan.num_senders_for(sender) == 1
            &&& SendError::polled(chan.poll_ready_step(sender, waker).2) == Poll::Ready(
                Ok::<(), SendError>(()),
            )
            &&& chan.next_message_step(true) == (chan, true, Poll::<Option<T>>::Pending)
        }),
{
}

/// A sender has to wait if and only if it has reason to think that its task is parked, and it is.
pub proof fn parked_sender_waits<T>(chan: ChannelView<T>, sender: SenderView)
    ensures
        chan.waits(sender) <==> sender.maybe_parked && chan.tasks[sender.id].is_parked,
{
}

/// The channel knows exactly the senders that have a task and have not let go of it, and one more
/// message can be counted unless the channel is open and its count has reached the highest that the
/// state word can hold beside the bit for being open.
pub proof fn known_senders_and_room_to_count<T>(chan: ChannelView<T>, sender: SenderView, word: usize)
    ensures
        chan.has(sender) <==> chan.tasks.contains_key(sender.id) && chan.tasks[sender.id].owned,
        chan.knows(Some(sender)) <==> chan.has(sender),
        chan.knows(None),
        chan.can_count() <==> !chan.is_open || chan.num_msg < usize::MAX / 2,
        chan.can_take(None),
        chan.can_take(Some(sender)) <==> !chan.is_open || chan.num_msg < usize::MAX / 2 || (
        sender.maybe_parked && chan.tasks[sender.id].is_parked),
        chan.has_word(word) <==> (word & OPEN_MASK == OPEN_MASK) == chan.is_open && word
            & CAPACITY_MASK == chan.num_msg,
{
    super::state::State::lemma_masks(word);
}

/// An attempt to send either appends the message to the queue or hands it back. A sender that has
/// let go is told so; one that has to wait is told that the channel is full; and if it does not have
/// to wait, it is told that the channel is closed if and only if it is. In an open channel the
/// message is then the last in the queue and counted, the receiver's task falls due, and beyond the
/// buffer the sender is last in line. Nothing else is touched.
pub proof fn sending_appends_or_refuses<T>(chan: ChannelView<T>, sender: Option<SenderView>, msg: T)
    requires
        sender matches Some(s) ==> chan.tasks.contains_key(s.id),
    ensures
        ({
            let (after, next, error) = chan.try_send_step(sender, msg);
            let tried = TrySendError::outcome(error, msg);
            let started = SendError::outcome(error);
            match sender {
                None => {
                    &&& tried == Err::<(), TrySendError<T>>(
                        TrySendError { kind: SendErrorKind::Disconnected, value: msg },
                    )
                    &&& started == Err::<(), SendError>(
                        SendError { kind: SendErrorKind::Disconnected },
                    )
                    &&& after == chan
                    &&& next is None
                },
                Some(s) => {
                    let task = chan.tasks[s.id];
                    if s.maybe_parked && task.is_parked {
                        &&& tried == Err::<(), TrySendError<T>>(
                            TrySendError { kind: SendErrorKind::Full, value: msg },
                        )
                        &&& started == Err::<(), SendError>(SendError { kind: SendErrorKind::Full })
                        &&& next == sender
                        &&& after == (ChannelView {
                            tasks: after.tasks,
                            discarded: after.discarded,
                            ..chan
                        })
                        &&& after.tasks == chan.tasks.insert(s.id, TaskView { waker: None, ..task })
                        &&& after.discarded == match task.waker {
                            Some(w) => chan.discarded.push(w),
                            None => chan.discarded,
                        }
                    } else if !chan.is_open {
                        &&& tried == Err::<(), TrySendError<T>>(
                            TrySendError { kind: SendErrorKind::Closed, value: msg },
                        )
                        &&& started == Err::<(), SendError>(
                            SendError { kind: SendErrorKind::Closed },
                        )
                        &&& next == Some(SenderView { id: s.id, maybe_parked: false })
                        &&& after == chan
                    } else {
                        &&& tried == Ok::<(), TrySendError<T>>(())
                        &&& started == Ok::<(), SendError>(())
                        &&& next == Some(
                            SenderView { id: s.id, maybe_parked: chan.num_msg >= chan.buffer },
                        )
                        &&& after.messages == chan.messages + seq![msg]
                        &&& after.num_msg == chan.num_msg + 1
                        &&& after.recv_task is None
                        &&& after.wakes == match chan.recv_task {
                            Some(w) => chan.wakes.push(w),
                            None => chan.wakes,
                        }
                        &&& chan.num_msg < chan.buffer ==> {
                            &&& after.parked == chan.parked
                            &&& after.tasks == chan.tasks
                            &&& after.discarded == chan.discarded
                        }
                        &&& chan.num_msg >= chan.buffer ==> {
                            &&& after.parked == chan.parked + seq![s.id]
                            &&& after.tasks == chan.tasks.insert(
                                s.id,
                                TaskView { is_parked: true, waker: None, owned: task.owned },
                            )
                            &&& after.discarded == match task.waker {
                                Some(w) => chan.discarded.push(w),
                                None => chan.discarded,
                            }
                        }
                        &&& after == (ChannelView {
                            num_msg: after.num_msg,
                            messages: after.messages,
                            parked: after.parked,
                            tasks: after.tasks,
                            recv_task: after.recv_task,
                            wakes: after.wakes,
                            discarded: after.discarded,
                            ..chan
                        })
                    }
                },
            }
        }),
{
    if let Some(s) = sender {
        assert(chan.messages.push(msg) =~= chan.messages + seq![msg]);
        assert(chan.parked.push(s.id) =~= chan.parked + seq![s.id]);
    }
}

/// The steps of sending, one by one: to announce a message counts it and nothing else; to park sets
/// the sender last in line, with everybody before it where they were; and to put a message into the
/// queue makes it the last there, and the receiver's task fall due. Together they send the message.
pub proof fn steps_of_sending_do_their_part<T>(chan: ChannelView<T>, id: u64, msg: T)
    requires
        chan.tasks.contains_key(id),
    ensures
        chan.counted() == (ChannelView { num_msg: chan.num_msg + 1, ..chan }),
        ({
            let after = chan.with_parked(id);
            &&& after.parked.len() == chan.parked.len() + 1
            &&& after.parked.last() == id
            &&& forall|i: int|
                0 <= i < chan.parked.len() ==> #[trigger] after.parked[i] == chan.parked[i]
            &&& after.tasks == chan.tasks.insert(
                id,
                TaskView { is_parked: true, waker: None, owned: chan.tasks[id].owned },
            )
            &&& after.discarded == match chan.tasks[id].waker {
                Some(w) => chan.discarded.push(w),
                None => chan.discarded,
            }
            &&& after == (ChannelView {
                parked: after.parked,
                tasks: after.tasks,
                discarded: after.discarded,
                ..chan
            })
        }),
        ({
            let after = chan.enqueued(msg);
            &&& after.messages.len() == chan.messages.len() + 1
            &&& after.messages.last() == msg
            &&& forall|i: int|
                0 <= i < chan.messages.len() ==> #[trigger] after.messages[i] == chan.messages[i]
            &&& after.recv_task is None
            &&& after.wakes == match chan.recv_task {
                Some(w) => chan.wakes.push(w),
                None => chan.wakes,
            }
            &&& after == (ChannelView {
                messages: after.messages,
                recv_task: None,
                wakes: after.wakes,
                ..chan
            })
        }),
        chan.crowded() <==> chan.num_msg >= chan.buffer,
        ({
            let after = chan.accepted(id, msg);
            &&& after.messages == chan.messages + seq![msg]
            &&& after.num_msg == chan.num_msg + 1
            &&& after.recv_task is None
            &&& after.wakes == match chan.recv_task {
                Some(w) => chan.wakes.push(w),
                None => chan.wakes,
            }
            &&& chan.num_msg < chan.buffer ==> {
                &&& after.parked == chan.parked
                &&& after.tasks == chan.tasks
                &&& after.discarded == chan.discarded
            }
            &&& chan.num_msg >= chan.buffer ==> {
                &&& after.parked == chan.parked + seq![id]
                &&& after.tasks == chan.tasks.insert(
                    id,
                    TaskView { is_parked: true, waker: None, owned: chan.tasks[id].owned },
                )
                &&& after.discarded == match chan.tasks[id].waker {
                    Some(w) => chan.discarded.push(w),
                    None => chan.discarded,
                }
            }
            &&& after == (ChannelView {
                num_msg: after.num_msg,
                messages: after.messages,
                parked: after.parked,
                tasks: after.tasks,
                recv_task: after.recv_task,
                wakes: after.wakes,
                discarded: after.discarded,
                ..chan
            })
        }),
{
    assert(chan.messages.push(msg) =~= chan.messages + seq![msg]);
    assert(chan.parked.push(id) =~= chan.parked + seq![id]);
}

/// A sender that asks whether it may send is told that it has let go, that the channel is closed, to
/// wait, or that it may, in this order, each if and only if that is so. Only if it has to wait does
/// that change the channel: the waker that it leaves is then the one to be woken, in place of
/// another.
pub proof fn asking_leaves_a_waker_or_nothing<T>(
    chan: ChannelView<T>,
    sender: Option<SenderView>,
    waker: int,
)
    requires
        sender matches Some(s) ==> chan.tasks.contains_key(s.id),
    ensures
        ({
            let (after, next, answer) = chan.poll_ready_step(sender, waker);
            let poll = SendError::polled(answer);
            match sender {
                None => {
                    &&& poll == Poll::Ready(
                        Err::<(), SendError>(SendError { kind: SendErrorKind::Disconnected }),
                    )
                    &&& after == chan
                    &&& next is None
                },
                Some(s) => {
                    let task = chan.tasks[s.id];
                    if !chan.is_open {
                        &&& poll == Poll::Ready(
                            Err::<(), SendError>(SendError { kind: SendErrorKind::Closed }),
                        )
                        &&& after == chan
                        &&& next == sender
                    } else if s.maybe_parked && task.is_parked {
                        &&& poll == Poll::<Result<(), SendError>>::Pending
                        &&& next == sender
                        &&& after == (ChannelView {
                            tasks: after.tasks,
                            discarded: after.discarded,
                            ..chan
                        })
                        &&& after.tasks == chan.tasks.insert(
                            s.id,
                            TaskView { is_parked: true, waker: Some(waker), owned: task.owned },
                        )
                        &&& after.discarded == match task.waker {
                            Some(w) => chan.discarded.push(w),
                            None => chan.discarded,
                        }
                    } else {
                        &&& poll == Poll::Ready(Ok::<(), SendError>(()))
                        &&& after == chan
                        &&& next == Some(SenderView { id: s.id, maybe_parked: false })
                    }
                },
            }
        }),
{
}

/// To leave a waker for a sender, or to take it away, changes the waker of its task, and gives out
/// the one that was there.
pub proof fn a_waker_replaces_another<T>(chan: ChannelView<T>, id: u64, waker: Option<int>)
    requires
        chan.tasks.contains_key(id),
    ensures
        ({
            let after = chan.with_waker(id, waker);
            &&& after.tasks == chan.tasks.insert(id, TaskView { waker, ..chan.tasks[id] })
            &&& after.discarded == match chan.tasks[id].waker {
                Some(w) => chan.discarded.push(w),
                None => chan.discarded,
            }
            &&& after == (ChannelView {
                tasks: after.tasks,
                discarded: after.discarded,
                ..chan
            })
        }),
{
}

/// A future that sends a message, and holds it, answers that it is sent if and only if an attempt to
/// send it would have succeeded, and then has done what that attempt does: the queue has the message
/// at its end, and the future no longer holds it. With any other answer the queue is as it was, and
/// the future still holds the message. A future that holds none sends none.
pub proof fn awaited_message_is_sent_or_kept<T>(
    chan: ChannelView<T>,
    sender: Option<SenderView>,
    held: Option<T>,
    waker: int,
)
    requires
        sender matches Some(s) ==> chan.tasks.contains_key(s.id),
    ensures
        ({
            let (after, next, left, answer) = chan.send_poll_step(sender, held, waker);
            let poll = SendError::polled(answer);
            let sent = poll == Poll::Ready(Ok::<(), SendError>(()));
            &&& poll == SendError::polled(chan.poll_ready_step(sender, waker).2)
            &&& sent <==> {
                &&& chan.is_open
                &&& sender matches Some(s) && !(s.maybe_parked && chan.tasks[s.id].is_parked)
            }
            &&& held matches Some(msg) ==> {
                let (tried, then, error) = chan.try_send_step(sender, msg);
                &&& sent && sender is Some ==> {
                    &&& left is None
                    &&& after.messages == chan.messages + seq![msg]
                    &&& after.num_msg == chan.num_msg + 1
                    &&& after.parked == if chan.num_msg >= chan.buffer {
                        chan.parked + seq![sender->0.id]
                    } else {
                        chan.parked
                    }
                    &&& error is None
                    &&& after == tried
                    &&& next == then
                    &&& next == Some(
                        SenderView {
                            id: sender->0.id,
                            maybe_parked: chan.num_msg >= chan.buffer,
                        },
                    )
                }
                &&& !sent ==> left == Some(msg)
            }
            &&& held is None ==> left is None
            &&& held is None || !sent ==> {
                &&& after.messages == chan.messages
                &&& after.num_msg == chan.num_msg
                &&& after.parked == chan.parked
                &&& (after, next) == {
                    let (asked, then, _) = chan.poll_ready_step(sender, waker);
                    (asked, then)
                }
            }
        }),
{
    if let Some(s) = sender {
        asking_leaves_a_waker_or_nothing(chan, sender, waker);
        if let Some(msg) = held {
            let (_, next, _, _) = chan.send_poll_step(sender, held, waker);
            assert(chan.messages.push(msg) =~= chan.messages + seq![msg]);
            sending_appends_or_refuses(chan, sender, msg);
        }
    }
}

/// What the receiver gets of an awaited message: once a future has answered that it is sent, the
/// receiver gets what was in the queue before, and then that message.
pub proof fn awaited_message_is_received<T>(
    chan: ChannelView<T>,
    sender: SenderView,
    msg: T,
    waker: int,
)
    requires
        chan.tasks.contains_key(sender.id),
        SendError::polled(chan.send_poll_step(Some(sender), Some(msg), waker).3) == Poll::Ready(
            Ok::<(), SendError>(()),
        ),
    ensures
        ({
            let sent = chan.send_poll_step(Some(sender), Some(msg), waker).0;
            let n = chan.messages.len();
            &&& forall|i: nat|
                i < n ==> (#[trigger] after_receiving(sent, i)).next_message_step(true).2
                    == Poll::Ready(Some(chan.messages[i as int]))
            &&& after_receiving(sent, n).next_message_step(true).2 == Poll::Ready(Some(msg))
            &&& after_receiving(sent, n + 1).next_message_step(true).2 is Pending
        }),
{
    awaited_message_is_sent_or_kept(chan, Some(sender), Some(msg), waker);
    let sent = chan.send_poll_step(Some(sender), Some(msg), waker).0;
    let n = chan.messages.len();
    assert forall|i: nat| i < n implies (#[trigger] after_receiving(sent, i)).next_message_step(
        true,
    ).2 == Poll::Ready(Some(chan.messages[i as int])) by {
        super::laws::queue_is_received_to_its_end(sent, i);
    }
    super::laws::queue_is_received_to_its_end(sent, n);
    super::laws::queue_is_received_to_its_end(sent, n + 1);
}

/// To unpark one ends the wait of who is first in line: they leave the line, and their waker falls
/// due. The others keep their order and their tasks. With nobody in line nothing happens.
pub proof fn unparking_ends_the_first_wait<T>(chan: ChannelView<T>)
    ensures
        chan.parked.len() == 0 ==> chan.unparked_one() == chan,
        chan.parked.len() > 0 ==> {
            let after = chan.unparked_one();
            let first = chan.parked[0];
            &&& chan.parked == seq![first] + after.parked
            &&& forall|id: u64|
                id != first ==> #[trigger] after.tasks.contains_key(id) == chan.tasks.contains_key(
                    id,
                )
            &&& forall|id: u64| id != first ==> #[trigger] after.tasks[id] == chan.tasks[id]
            &&& after.tasks.contains_key(first) <==> chan.tasks.contains_key(first)
                && chan.tasks[first].owned
            &&& after.tasks.contains_key(first) ==> after.tasks[first] == (TaskView {
                is_parked: false,
                waker: None,
                owned: true,
            })
            &&& after.wakes == if chan.tasks.contains_key(first)
                && chan.tasks[first].waker is Some {
                chan.wakes.push(chan.tasks[first].waker->0)
            } else {
                chan.wakes
            }
            &&& after == (ChannelView {
                parked: after.parked,
                tasks: after.tasks,
                wakes: after.wakes,
                ..chan
            })
        },
{
    if chan.parked.len() > 0 {
        let first = chan.parked[0];
        assert(chan.parked =~= seq![first] + chan.unparked_one().parked);
    }
}

/// A receiver that holds on to the channel gets the oldest message if there is one, whether the
/// channel is open or closed, and whether it only tries or would wait: the queue loses that message,
/// the count goes down by one, and who is first in line is unparked. With no message there, it lets
/// go of a closed channel, and is told to wait for an open one. One that has let go gets nothing and
/// touches nothing.
pub proof fn receiving_takes_the_oldest_message<T>(chan: ChannelView<T>, connected: bool, waker: int)
    ensures
        ({
            let (tried, holds, answer) = chan.next_message_step(connected);
            let (polled, polled_holds, polled_answer) = chan.poll_next_step(connected, waker);
            &&& polled_answer == answer
            &&& polled_holds == holds
            &&& if connected && chan.messages.len() > 0 {
                &&& answer == Poll::Ready(Some(chan.messages[0]))
                &&& holds
                &&& polled == tried
                &&& chan.messages == seq![chan.messages[0]] + tried.messages
                &&& chan.num_msg > 0 ==> tried.num_msg == chan.num_msg - 1
                &&& chan.parked.len() > 0 ==> chan.parked == seq![chan.parked[0]] + tried.parked
                &&& tried == (ChannelView {
                    num_msg: tried.num_msg,
                    messages: tried.messages,
                    ..chan.unparked_one()
                })
            } else if connected && chan.is_open {
                &&& answer == Poll::<Option<T>>::Pending
                &&& holds
                &&& tried == chan
                &&& polled.recv_task == Some(waker)
                &&& polled.discarded == match chan.recv_task {
                    Some(w) => chan.discarded.push(w),
                    None => chan.discarded,
                }
                &&& polled == (ChannelView {
                    recv_task: polled.recv_task,
                    discarded: polled.discarded,
                    ..chan
                })
            } else {
                &&& answer == Poll::Ready(None::<T>)
                &&& !holds
                &&& tried == chan
                &&& polled == chan
            }
        }),
{
    if connected && chan.messages.len() > 0 {
        unparking_ends_the_first_wait(chan);
        let tried = chan.next_message_step(connected).0;
        assert(seq![chan.messages[0]] + tried.messages =~= chan.messages);
    }
}

/// The channel, and whether the receiver still holds on to it, after the receiver has asked for a
/// message `n` times, ready to wait each time.
pub open spec fn after_polling<T>(chan: ChannelView<T>, n: nat, waker: int) -> (
    ChannelView<T>,
    bool,
)
    decreases n,
{
    if n == 0 {
        (chan, true)
    } else {
        let (before, holds) = after_polling(chan, (n - 1) as nat, waker);
        let (after, holds, _) = before.poll_next_step(holds, waker);
        (after, holds)
    }
}

/// A stream of messages is the whole queue, in order, before it ends: asked again and again, it
/// gives each message that was in the queue. After that the stream of a closed channel ends, for
/// good, and that of an open one goes on.
pub proof fn stream_gives_the_queue_before_it_ends<T>(chan: ChannelView<T>, n: nat, waker: int)
    ensures
        ({
            let (left, holds) = after_polling(chan, n, waker);
            let answer = left.poll_next_step(holds, waker).2;
            &&& left.is_open == chan.is_open
            &&& n <= chan.messages.len() ==> holds && left.messages == chan.messages.skip(n as int)
            &&& n > chan.messages.len() ==> holds == chan.is_open && left.messages.len() == 0
            &&& n < chan.messages.len() ==> answer == Poll::Ready(Some(chan.messages[n as int]))
            &&& n >= chan.messages.len() ==> answer == if chan.is_open {
                Poll::<Option<T>>::Pending
            } else {
                Poll::Ready(None)
            }
        }),
    decreases n,
{
    if n > 0 {
        stream_gives_the_queue_before_it_ends(chan, (n - 1) as nat, waker);
        let (before, holds) = after_polling(chan, (n - 1) as nat, waker);
        receiving_takes_the_oldest_message(before, holds, waker);
        let (left, holds) = after_polling(chan, n, waker);
        if n <= chan.messages.len() {
            assert(left.messages =~= chan.messages.skip(n as int));
        }
        receiving_takes_the_oldest_message(left, holds, waker);
    } else {
        assert(chan.messages.skip(0) =~= chan.messages);
        receiving_takes_the_oldest_message(chan, true, waker);
    }
}

/// To take back an announcement counts one message less, and nothing else.
pub proof fn an_announcement_is_taken_back<T>(chan: ChannelView<T>)
    requires
        chan.num_msg > 0,
    ensures
        chan.uncounted().num_msg + 1 == chan.num_msg,
        chan.uncounted() == (ChannelView { num_msg: chan.uncounted().num_msg, ..chan }),
{
}

/// A sender that closes the channel makes the receiver's task fall due, and does nothing else: the
/// messages and the line stay.
pub proof fn closing_wakes_the_receiver<T>(chan: ChannelView<T>)
    ensures
        chan.closed() == (ChannelView { is_open: false, ..chan }),
        ({
            let after = chan.closed().receiver_woken();
            &&& !after.is_open
            &&& after.recv_task is None
            &&& after.wakes == match chan.recv_task {
                Some(w) => chan.wakes.push(w),
                None => chan.wakes,
            }
            &&& after == (ChannelView {
                is_open: false,
                recv_task: None,
                wakes: after.wakes,
                ..chan
            })
        }),
{
}

/// The wakers in a line are those of the tasks in it that have one, in order.
proof fn lemma_wakers_in_line<T>(chan: ChannelView<T>, line: Seq<u64>)
    ensures
        chan.wakers_in(line) == line.filter_map(|id: u64| chan.tasks[id].waker),
    decreases line.len(),
{
    let f = |id: u64| chan.tasks[id].waker;
    if line.len() > 0 {
        let rest = line.drop_first();
        lemma_wakers_in_line(chan, rest);
        lemma_filter_map_from_the_front(line, f);
    }
}

/// To pick from a sequence is to pick from its first element and from the rest.
proof fn lemma_filter_map_from_the_front(line: Seq<u64>, f: spec_fn(u64) -> Option<int>)
    requires
        line.len() > 0,
    ensures
        line.filter_map(f) == (match f(line[0]) {
            Some(w) => seq![w],
            None => Seq::<int>::empty(),
        }) + line.drop_first().filter_map(f),
    decreases line.len(),
{
    reveal_with_fuel(Seq::filter_map, 2);
    if line.len() == 1 {
        assert(line.drop_last() =~= Seq::<u64>::empty());
        assert(line.drop_first() =~= Seq::<u64>::empty());
    } else {
        lemma_filter_map_from_the_front(line.drop_last(), f);
        assert(line.drop_last().drop_first() =~= line.drop_first().drop_last());
        assert(line.drop_first().last() == line.last());
    }
}

/// What to unpark everybody does to each task.
proof fn lemma_unparked_tasks<T>(chan: ChannelView<T>)
    ensures
        forall|id: u64|
            #![trigger chan.unparked_all().tasks.contains_key(id)]
            chan.unparked_all().tasks.contains_key(id) <==> chan.tasks.contains_key(id) && (
            chan.parked.contains(id) ==> chan.tasks[id].owned),
        forall|id: u64|
            #![trigger chan.unparked_all().tasks[id]]
            chan.unparked_all().tasks.contains_key(id) ==> chan.unparked_all().tasks[id]
                == if chan.parked.contains(id) {
                TaskView { is_parked: false, waker: None, owned: true }
            } else {
                chan.tasks[id]
            },
    decreases chan.parked.len(),
{
    if chan.parked.len() > 0 {
        let next = chan.unparked_one();
        let first = chan.parked[0];
        unparking_ends_the_first_wait(chan);
        lemma_unparked_tasks(next);
        assert(chan.parked.contains(first));
        assert forall|id: u64| #[trigger] chan.parked.contains(id) <==> id == first || next.parked.contains(id) by {
            if chan.parked.contains(id) && id != first {
                assert(next.parked[chan.parked.index_of(id) - 1] == id);
            }
            if next.parked.contains(id) {
                assert(chan.parked[next.parked.index_of(id) + 1] == id);
            }
        }
        let all = next.unparked_all();
        assert(chan.unparked_all() == all);
        assert forall|id: u64| #[trigger] all.tasks.contains_key(id) <==> chan.tasks.contains_key(id) && (
        chan.parked.contains(id) ==> chan.tasks[id].owned) by {
            assert(next.tasks.contains_key(id) || !next.tasks.contains_key(id));
            assert(next.tasks[id] == next.tasks[id]);
        }
        assert forall|id: u64| all.tasks.contains_key(id) implies #[trigger] all.tasks[id]
            == if chan.parked.contains(id) {
            TaskView { is_parked: false, waker: None, owned: true }
        } else {
            chan.tasks[id]
        } by {
            assert(next.tasks.contains_key(id));
            assert(next.tasks[id] == next.tasks[id]);
        }
    }
}

/// A receiver that closes the channel ends the wait of everybody in line, and of nobody else, and
/// their wakers fall due in the order of the line. What is in the queue and counted stays, and so do
/// the senders; the receiver's own task does not fall due. A receiver that has let go changes
/// nothing.
pub proof fn receiver_closing_ends_all_waits<T>(chan: ChannelView<T>)
    ensures
        chan.receiver_close_step(false) == chan,
        ({
            let after = chan.receiver_close_step(true);
            &&& after == (ChannelView {
                is_open: false,
                parked: after.parked,
                tasks: after.tasks,
                wakes: after.wakes,
                ..chan
            })
            &&& after.parked.len() == 0
            &&& chan.consistent() && chan.line_inv() ==> after.wakes == chan.wakes
                + chan.parked.filter_map(|id: u64| chan.tasks[id].waker)
            &&& forall|id: u64| #[trigger]
                after.tasks.contains_key(id) <==> chan.tasks.contains_key(id) && (
                chan.parked.contains(id) ==> chan.tasks[id].owned)
            &&& forall|id: u64|
                after.tasks.contains_key(id) ==> #[trigger] after.tasks[id]
                    == if chan.parked.contains(id) {
                    TaskView { is_parked: false, waker: None, owned: true }
                } else {
                    chan.tasks[id]
                }
        }),
{
    let closed = chan.closed();
    assert(closed.live() =~= chan.live());
    closed.lemma_unparked_all_keeps_the_rest();
    lemma_unparked_tasks(closed);
    if chan.consistent() && chan.line_inv() {
        closed.lemma_unparked_all();
        closed.lemma_wakers_in(chan, chan.parked);
        lemma_wakers_in_line(chan, chan.parked);
    }
}

/// To close the channel for everybody in line is to unpark them one by one, the first in line first,
/// and to close it.
pub proof fn receiver_closing_unparks_one_by_one<T>(chan: ChannelView<T>)
    ensures
        chan.parked.len() == 0 ==> chan.receiver_close_step(true) == (ChannelView {
            is_open: false,
            ..chan
        }),
        chan.parked.len() > 0 ==> chan.receiver_close_step(true)
            == chan.unparked_one().receiver_close_step(true),
{
    if chan.parked.len() > 0 {
        assert(chan.closed().unparked_one() =~= chan.unparked_one().closed());
    }
}

/// In a channel that is well-formed each message in the queue is counted, every task has a key that
/// was given out, and the number of senders is that of the tasks that have an owner.
pub proof fn well_formed_channel_counts_what_it_has<T>(chan: ChannelView<T>)
    ensures
        chan.consistent() <==> {
            &&& chan.buffer > 0
            &&& chan.messages.len() <= chan.num_msg
            &&& chan.tasks.dom().finite()
            &&& forall|id: u64| #[trigger] chan.tasks.contains_key(id) ==> id < chan.next_id
            &&& chan.num_senders == chan.tasks.dom().filter(|id: u64| chan.tasks[id].owned).len()
        },
{
    lemma_live(chan);
}

/// A clone is one more sender: it has a key that no sender had, and a task that does not wait. The
/// other senders, the messages and the line stay as they are.
pub proof fn clone_is_one_more_sender<T>(chan: ChannelView<T>)
    requires
        chan.next_id <= u64::MAX,
        forall|id: u64| #[trigger] chan.tasks.contains_key(id) ==> id < chan.next_id,
    ensures
        ({
            let after = chan.joined();
            let id = chan.next_id as u64;
            &&& !chan.tasks.contains_key(id)
            &&& after.num_senders == chan.num_senders + 1
            &&& after.next_id == chan.next_id + 1
            &&& after.tasks == chan.tasks.insert(
                id,
                TaskView { is_parked: false, waker: None, owned: true },
            )
            &&& after == (ChannelView {
                num_senders: after.num_senders,
                next_id: after.next_id,
                tasks: after.tasks,
                ..chan
            })
        }),
{
}

/// The senders that have not let go, and of which there are `num_senders`.
proof fn lemma_live<T>(chan: ChannelView<T>)
    ensures
        chan.live() == chan.tasks.dom().filter(|id: u64| chan.tasks[id].owned),
{
}

/// A sender that has not let go sees as many senders as have not, in any channel: one in a new
/// channel, one more after a clone, and one less after a sender has let go. One that has let go sees
/// none.
pub proof fn senders_see_how_many_they_are<T>(
    chan: ChannelView<T>,
    sender: SenderView,
    other: SenderView,
    buffer: nat,
)
    requires
        chan.consistent(),
        chan.next_id <= u64::MAX,
        chan.tasks.contains_key(other.id),
        chan.tasks[other.id].owned,
    ensures
        chan.num_senders_for(Some(sender)) == chan.tasks.dom().filter(
            |id: u64| chan.tasks[id].owned,
        ).len(),
        chan.num_senders_for(Some(sender)) == chan.num_senders,
        chan.num_senders_for(Some(sender)) >= 1,
        chan.num_senders_for(None) == 0,
        ChannelView::<T>::initial(buffer).num_senders_for(Some(sender)) == 1,
        chan.joined().num_senders_for(Some(sender)) == chan.num_senders_for(Some(sender)) + 1,
        chan.left(other.id).num_senders_for(Some(sender)) + 1 == chan.num_senders_for(Some(sender)),
        chan.disconnect_step(Some(other)).num_senders_for(Some(sender)) + 1 == chan.num_senders_for(
            Some(sender),
        ),
{
    lemma_live(chan);
    chan.lemma_live_is_finite();
    assert(chan.live().contains(other.id));
}

/// In every state, the number that a sender sees is the number of those that have not let go.
pub proof fn number_of_senders_is_right_in_every_state<T>(
    buffer: nat,
    events: Seq<Event<T>>,
    id: u64,
)
    requires
        buffer > 0,
    ensures
        ({
            let sys = super::laws::state_after(buffer, events);
            sys.senders.contains_key(id) ==> sys.chan.num_senders_for(Some(sys.view_of(id)))
                == sys.senders.dom().len()
        }),
{
    super::laws::senders_are_counted(buffer, events);
}

/// A sender that lets go takes nothing along: the messages, their count and the line stay as they
/// are. Its own task is gone, or, while it is parked, without an owner; the waker of a task that is
/// gone is given out. There is one sender less, and with the last one the channel closes, and the
/// receiver's task falls due.
pub proof fn letting_go_leaves_the_messages<T>(chan: ChannelView<T>, sender: SenderView)
    requires
        chan.tasks.contains_key(sender.id),
        chan.num_senders > 0,
    ensures
        ({
            let after = chan.disconnect_step(Some(sender));
            let task = chan.tasks[sender.id];
            let last = chan.num_senders == 1;
            &&& after == chan.left(sender.id)
            &&& after.messages == chan.messages
            &&& after.num_msg == chan.num_msg
            &&& after.parked == chan.parked
            &&& after.buffer == chan.buffer
            &&& after.next_id == chan.next_id
            &&& after.num_senders == chan.num_senders - 1
            &&& after.is_open <==> chan.is_open && !last
            &&& after.recv_task == if last {
                None
            } else {
                chan.recv_task
            }
            &&& after.wakes == if last && chan.recv_task is Some {
                chan.wakes.push(chan.recv_task->0)
            } else {
                chan.wakes
            }
            &&& after.tasks == if task.is_parked {
                chan.tasks.insert(
                    sender.id,
                    TaskView { is_parked: true, waker: task.waker, owned: false },
                )
            } else {
                chan.tasks.remove(sender.id)
            }
            &&& after.discarded == if !task.is_parked && task.waker is Some {
                chan.discarded.push(task.waker->0)
            } else {
                chan.discarded
            }
        }),
        chan.disconnect_step(None) == chan,
{
}

/// To let go is what a sender does that leaves.
pub proof fn letting_go_is_leaving<T>(sys: System<T>, id: u64)
    requires
        sys.idle(id),
    ensures
        ({
            let after = sys.run(seq![Event::Leave { id }]);
            &&& after.chan == sys.chan.disconnect_step(Some(sys.view_of(id)))
            &&& after.chan.messages == sys.chan.messages
            &&& after.chan.num_msg == sys.chan.num_msg
            &&& after.senders == sys.senders.remove(id)
            &&& after.sent == sys.sent
            &&& after.received == sys.received
        }),
{
    let events = seq![Event::<T>::Leave { id }];
    assert(events.drop_last() =~= Seq::<Event<T>>::empty());
    reveal_with_fuel(System::run, 2);
}

/// What was sent outlives its senders: after one of them has let go, the receiver still gets what
/// was in the queue, in order, and only then what the channel is closed for.
pub proof fn messages_outlive_their_senders<T>(chan: ChannelView<T>, sender: SenderView, n: nat)
    requires
        chan.tasks.contains_key(sender.id),
        chan.num_senders > 0,
        n <= chan.messages.len(),
    ensures
        ({
            let left = after_receiving(chan.disconnect_step(Some(sender)), n);
            left.next_message_step(true).2 == if n < chan.messages.len() {
                Poll::Ready(Some(chan.messages[n as int]))
            } else if chan.is_open && chan.num_senders > 1 {
                Poll::Pending
            } else {
                Poll::Ready(None)
            }
        }),
{
    letting_go_leaves_the_messages(chan, sender);
    super::laws::queue_is_received_to_its_end(chan.disconnect_step(Some(sender)), n);
}

/// The buffer decides who has to park, and nothing else: two channels that differ in their buffers
/// only give the same answers, take the same messages and have the same senders.
pub proof fn answers_do_not_depend_on_the_buffer<T>(
    chan: ChannelView<T>,
    buffer: nat,
    sender: Option<SenderView>,
    msg: T,
    connected: bool,
    waker: int,
)
    ensures
        ({
            let other = ChannelView { buffer, ..chan };
            &&& other.next_message_step(connected).2 == chan.next_message_step(connected).2
            &&& other.poll_next_step(connected, waker).2 == chan.poll_next_step(connected, waker).2
            &&& other.poll_ready_step(sender, waker).2 == chan.poll_ready_step(sender, waker).2
            &&& other.try_send_step(sender, msg).2 == chan.try_send_step(sender, msg).2
            &&& other.try_send_step(sender, msg).0.messages == chan.try_send_step(
                sender,
                msg,
            ).0.messages
            &&& other.send_poll_step(sender, Some(msg), waker).0.messages == chan.send_poll_step(
                sender,
                Some(msg),
                waker,
            ).0.messages
            &&& other.num_senders_for(sender) == chan.num_senders_for(sender)
            &&& other.disconnect_step(sender).messages == chan.disconnect_step(sender).messages
        }),
{
}

} // verus!
