//! The laws of a bounded channel.

use super::error::{SendError, SendErrorKind, TrySendError};
use super::protocol::{Event, System, Wait};
use super::view::{ChannelView, SenderView};
use crate::poll::Poll;
use vstd::prelude::*;

verus! {

/// The state of a new channel after `events`.
pub open spec fn state_after<T>(buffer: nat, events: Seq<Event<T>>) -> System<T> {
    System::<T>::initial(buffer).run(events)
}

/// Messages are received in the order in which they were put into the queue, and none is doubled:
/// what was received and what is still in the queue is what was sent. A message stays in the queue
/// for good if the receiver let go of the closed channel while the message was announced and not
/// yet in the queue; `receiver_lets_go_of_an_empty_channel` says that no other does.
pub proof fn messages_keep_their_order<T>(buffer: nat, events: Seq<Event<T>>)
    requires
        buffer > 0,
    ensures
        ({
            let sys = state_after(buffer, events);
            sys.sent == sys.received + sys.chan.messages
        }),
{
    System::<T>::inv_holds(buffer, events);
}

/// A message is announced from before it is in the queue until after it has left it; when nobody is
/// in the middle of sending or receiving, the count is the length of the queue.
pub proof fn messages_are_counted<T>(buffer: nat, events: Seq<Event<T>>)
    requires
        buffer > 0,
    ensures
        ({
            let sys = state_after(buffer, events);
            &&& sys.chan.messages.len() <= sys.chan.num_msg
            &&& sys.at_rest() ==> sys.chan.num_msg == sys.chan.messages.len()
        }),
{
    System::<T>::inv_holds(buffer, events);
    let sys = state_after(buffer, events);
    if sys.at_rest() {
        sys.lemma_at_rest();
    }
}

/// The buffer bounds the queue: in an open channel each message beyond the buffer has its sender in
/// line.
pub proof fn buffer_bounds_messages<T>(buffer: nat, events: Seq<Event<T>>)
    requires
        buffer > 0,
    ensures
        ({
            let sys = state_after(buffer, events);
            sys.at_rest() && sys.chan.is_open ==> sys.chan.messages.len() <= sys.chan.buffer
                + sys.chan.parked.len()
        }),
{
    System::<T>::inv_holds(buffer, events);
    let sys = state_after(buffer, events);
    if sys.at_rest() {
        sys.lemma_at_rest();
    }
}

/// As long as no sender lets go while it is in line, the queue of an open channel holds at most one
/// message for each sender beyond the buffer.
pub proof fn each_sender_has_one_message_beyond_the_buffer<T>(buffer: nat, events: Seq<Event<T>>)
    requires
        buffer > 0,
    ensures
        ({
            let sys = state_after(buffer, events);
            sys.at_rest() && sys.chan.is_open && (forall|id: u64| #[trigger]
                sys.chan.parked.contains(id) ==> sys.chan.tasks[id].owned)
                ==> sys.chan.messages.len() <= sys.chan.buffer + sys.chan.num_senders
        }),
{
    System::<T>::inv_holds(buffer, events);
    let sys = state_after(buffer, events);
    let chan = sys.chan;
    if sys.at_rest() && (forall|id: u64| #[trigger]
        chan.parked.contains(id) ==> chan.tasks[id].owned) {
        sys.lemma_at_rest();
        chan.lemma_live_is_finite();
        chan.parked.unique_seq_to_set();
        assert forall|id: u64| chan.parked.to_set().contains(id) implies chan.live().contains(
            id,
        ) by {
            assert(chan.parked.contains(id));
        }
        vstd::set_lib::lemma_len_subset(chan.parked.to_set(), chan.live());
    }
}

/// In every state, whether the channel is open or closed and whoever has let go, the messages that
/// were sent and not yet received are no more than the buffer and the number of senders ever made.
/// So the count of messages reaches its limit only where that sum does.
pub proof fn senders_ever_made_bound_messages<T>(buffer: nat, events: Seq<Event<T>>)
    requires
        buffer > 0,
    ensures
        ({
            let sys = state_after(buffer, events);
            &&& sys.chan.buffer == buffer
            &&& sys.chan.messages.len() + sys.in_flight(false) <= buffer + sys.chan.next_id
            &&& sys.sent.len() - sys.received.len() <= buffer + sys.chan.next_id
            &&& buffer + sys.chan.next_id + 1 < usize::MAX / 2 ==> sys.chan.can_count()
        }),
    decreases events.len(),
{
    System::<T>::inv_holds(buffer, events);
    if events.len() > 0 {
        senders_ever_made_bound_messages(buffer, events.drop_last());
        System::<T>::inv_holds(buffer, events.drop_last());
        let before = state_after(buffer, events.drop_last());
        if before.enabled(events.last()) {
            before.lemma_stays_bounded(events.last());
        }
    } else {
        state_after(buffer, events).lemma_at_rest();
    }
}

/// Whoever is in line has a message to wait for: the line is never longer than the queue, so that it
/// is empty at the latest when the queue is.
pub proof fn line_is_no_longer_than_the_queue<T>(buffer: nat, events: Seq<Event<T>>)
    requires
        buffer > 0,
    ensures
        ({
            let sys = state_after(buffer, events);
            sys.at_rest() ==> sys.chan.parked.len() <= sys.chan.messages.len()
        }),
{
    System::<T>::inv_holds(buffer, events);
    let sys = state_after(buffer, events);
    if sys.at_rest() {
        sys.lemma_at_rest();
    }
}

/// The senders that have to wait in an open channel are those in line, each of them once.
pub proof fn waiting_senders_are_in_line<T>(buffer: nat, events: Seq<Event<T>>, id: u64)
    requires
        buffer > 0,
    ensures
        ({
            let sys = state_after(buffer, events);
            &&& sys.chan.parked.no_duplicates()
            &&& sys.senders.contains_key(id) && sys.chan.is_open ==> (sys.chan.waits(
                sys.view_of(id),
            ) <==> sys.chan.parked.contains(id))
        }),
{
    System::<T>::inv_holds(buffer, events);
    let sys = state_after(buffer, events);
    if sys.senders.contains_key(id) {
        assert(sys.sender_inv(id, sys.senders[id]));
        assert(sys.chan.live().contains(id));
    }
}

/// The tasks that were parked so far, in order.
pub open spec fn parked_so_far<T>(buffer: nat, events: Seq<Event<T>>) -> Seq<u64>
    decreases events.len(),
{
    if events.len() == 0 {
        Seq::empty()
    } else {
        let rest = parked_so_far(buffer, events.drop_last());
        let before = state_after(buffer, events.drop_last());
        match events.last() {
            Event::Park { id } => if before.enabled(events.last()) {
                rest.push(id)
            } else {
                rest
            },
            _ => rest,
        }
    }
}

/// The task `id` waits in `before`, and no longer in `after`.
pub open spec fn ends_wait<T>(before: ChannelView<T>, after: ChannelView<T>, id: u64) -> bool {
    &&& before.tasks.contains_key(id)
    &&& before.tasks[id].is_parked
    &&& !(after.tasks.contains_key(id) && after.tasks[id].is_parked)
}

/// The tasks whose wait the receiver has ended so far, in order: one with each message, and all that
/// wait when it closes the channel.
pub open spec fn unparked_so_far<T>(buffer: nat, events: Seq<Event<T>>) -> Seq<u64>
    decreases events.len(),
{
    if events.len() == 0 {
        Seq::empty()
    } else {
        let rest = unparked_so_far(buffer, events.drop_last());
        let before = state_after(buffer, events.drop_last());
        let after = state_after(buffer, events);
        match events.last() {
            Event::Unpark => if exists|id: u64| ends_wait(before.chan, after.chan, id) {
                rest.push(choose|id: u64| ends_wait(before.chan, after.chan, id))
            } else {
                rest
            },
            Event::ReceiverClose => if before.enabled(events.last()) && before.connected {
                rest + before.chan.parked
            } else {
                rest
            },
            _ => rest,
        }
    }
}

/// Senders are unparked in the order in which they parked: those that were ever parked are those
/// that were unparked, in the same order, followed by the line.
pub proof fn senders_are_unparked_in_the_order_they_parked<T>(buffer: nat, events: Seq<Event<T>>)
    requires
        buffer > 0,
    ensures
        parked_so_far(buffer, events) == unparked_so_far(buffer, events) + state_after(
            buffer,
            events,
        ).chan.parked,
    decreases events.len(),
{
    if events.len() > 0 {
        let rest = events.drop_last();
        senders_are_unparked_in_the_order_they_parked(buffer, rest);
        System::<T>::inv_holds(buffer, rest);
        let before = state_after(buffer, rest);
        let after = state_after(buffer, events);
        let event = events.last();
        let line = before.chan.parked;
        if before.enabled(event) {
            if event is Unpark && line.len() > 0 {
                let first = line[0];
                assert(line.contains(first));
                assert(ends_wait(before.chan, after.chan, first));
                assert forall|id: u64| ends_wait(before.chan, after.chan, id) implies id == first by {}
                assert(line =~= seq![first] + after.chan.parked);
            }
            if event is ReceiverClose {
                before.chan.closed().lemma_unparked_all_keeps_the_rest();
            }
        }
        assert(parked_so_far(buffer, events) =~= unparked_so_far(buffer, events)
            + after.chan.parked);
    } else {
        assert(parked_so_far(buffer, events) =~= unparked_so_far(buffer, events) + state_after(
            buffer,
            events,
        ).chan.parked);
    }
}

/// The number of senders is the number of those that have not let go, the channel knows each of
/// them, and it is closed once there is none.
pub proof fn senders_are_counted<T>(buffer: nat, events: Seq<Event<T>>)
    requires
        buffer > 0,
    ensures
        ({
            let sys = state_after(buffer, events);
            &&& sys.chan.num_senders == sys.senders.dom().len()
            &&& forall|id: u64| #[trigger]
                sys.senders.contains_key(id) ==> sys.chan.has(sys.view_of(id))
            &&& sys.chan.num_senders == 0 ==> !sys.chan.is_open
        }),
{
    System::<T>::inv_holds(buffer, events);
    let sys = state_after(buffer, events);
    assert forall|id: u64| #[trigger] sys.senders.contains_key(id) implies sys.chan.has(
        sys.view_of(id),
    ) by {
        assert(sys.chan.live().contains(id));
    }
}

/// A receiver that waits is not left asleep: while its waker is there, no message is, and no sender
/// has closed the channel.
pub proof fn waiting_receiver_has_nothing_to_receive<T>(buffer: nat, events: Seq<Event<T>>)
    requires
        buffer > 0,
    ensures
        ({
            let sys = state_after(buffer, events);
            sys.chan.recv_task is Some ==> {
                &&& sys.chan.messages.len() == 0
                &&& sys.chan.is_open || sys.closed_by_receiver
            }
        }),
{
    System::<T>::inv_holds(buffer, events);
}

/// A receiver that was told to wait is not left asleep: its waker is there, or has fallen due since
/// it was told.
pub proof fn waiting_receiver_is_registered_or_due<T>(buffer: nat, events: Seq<Event<T>>)
    requires
        buffer > 0,
    ensures
        ({
            let sys = state_after(buffer, events);
            sys.rx_waiting matches Some(wait) ==> {
                ||| sys.chan.fell_due_since(wait.waker, wait.since)
                ||| sys.chan.recv_task == Some(wait.waker)
            }
        }),
{
    System::<T>::inv_holds(buffer, events);
}

/// The receiver looked for a message only while nobody was in the middle of sending, or found one.
pub open spec fn receiver_misses_at_rest<T>(buffer: nat, events: Seq<Event<T>>) -> bool {
    forall|n: int|
        0 <= n < events.len() && #[trigger] events[n] is Miss ==> {
            let before = state_after(buffer, events.take(n));
            before.enabled(events[n]) ==> before.at_rest()
        }
}

/// A receiver that has let go has left a closed channel, and of the messages those behind that were
/// announced and not yet in the queue when it let go. If each call is run to its end before the
/// receiver looks for a message in vain, there are none: all that was sent was received, and
/// nothing can be sent any more.
pub proof fn receiver_lets_go_of_an_empty_channel<T>(buffer: nat, events: Seq<Event<T>>)
    requires
        buffer > 0,
    ensures
        ({
            let sys = state_after(buffer, events);
            !sys.connected ==> {
                &&& !sys.chan.is_open
                &&& sys.chan.messages.len() + sys.in_flight(false) == sys.left_behind
                &&& receiver_misses_at_rest(buffer, events) ==> {
                    &&& sys.chan.messages.len() == 0
                    &&& sys.chan.num_msg == 0
                    &&& sys.in_flight(false) == 0
                    &&& sys.received == sys.sent
                }
            }
        }),
    decreases events.len(),
{
    System::<T>::inv_holds(buffer, events);
    let sys = state_after(buffer, events);
    if !sys.connected && receiver_misses_at_rest(buffer, events) {
        let last = events.len() - 1;
        let rest = events.drop_last();
        let before = state_after(buffer, rest);
        assert(events.take(last) =~= rest);
        if before.connected {
            assert(events[last] is Miss);
            before.lemma_at_rest();
        } else {
            assert forall|n: int| 0 <= n < rest.len() && #[trigger] rest[n] is Miss implies {
                let before = state_after(buffer, rest.take(n));
                before.enabled(rest[n]) ==> before.at_rest()
            } by {
                assert(rest[n] == events[n]);
                assert(rest.take(n) =~= events.take(n));
            }
            receiver_lets_go_of_an_empty_channel(buffer, rest);
            System::<T>::inv_holds(buffer, rest);
        }
        assert(sys.received =~= sys.sent);
    }
}

/// A sender that was told to wait is not left asleep: it is in line with its waker, or its waker has
/// fallen due since it was told.
pub proof fn waiting_sender_is_in_line_or_due<T>(buffer: nat, events: Seq<Event<T>>, id: u64)
    requires
        buffer > 0,
    ensures
        ({
            let sys = state_after(buffer, events);
            sys.senders.contains_key(id) ==> (sys.senders[id].waiting matches Some(wait) ==> {
                ||| sys.chan.fell_due_since(wait.waker, wait.since)
                ||| sys.chan.parked.contains(id) && sys.chan.tasks[id].waker == Some(wait.waker)
            })
        }),
{
    System::<T>::inv_holds(buffer, events);
    let sys = state_after(buffer, events);
    if sys.senders.contains_key(id) {
        assert(sys.sender_inv(id, sys.senders[id]));
    }
}

/// The wait of a sender lasts until the sender does something again.
proof fn wait_of_sender_lasts<T>(buffer: nat, events: Seq<Event<T>>, later: Seq<Event<T>>, id: u64)
    requires
        buffer > 0,
        state_after(buffer, events).senders.contains_key(id),
        forall|i: int| 0 <= i < later.len() ==> !(#[trigger] later[i]).is_by_sender(id),
    ensures
        ({
            let sys = state_after(buffer, events + later);
            &&& sys.senders.contains_key(id)
            &&& sys.senders[id].waiting == state_after(buffer, events).senders[id].waiting
        }),
    decreases later.len(),
{
    if later.len() == 0 {
        assert(events + later =~= events);
    } else {
        let rest = later.drop_last();
        assert forall|i: int| 0 <= i < rest.len() implies !(#[trigger] rest[i]).is_by_sender(id) by {
            assert(rest[i] == later[i]);
        }
        wait_of_sender_lasts(buffer, events, rest, id);
        System::<T>::inv_holds(buffer, events + rest);
        assert((events + later).drop_last() =~= events + rest);
        assert(!later[later.len() - 1].is_by_sender(id));
        assert(state_after(buffer, events + rest).chan.live().contains(id));
    }
}

/// No wake-up of a sender is lost, however often its waker was woken before: from when it is told to
/// wait until it does something again, it is in line with the waker that it left, or that waker has
/// fallen due after it was told.
pub proof fn sender_told_to_wait_is_in_line_or_falls_due<T>(
    buffer: nat,
    events: Seq<Event<T>>,
    id: u64,
    waker: int,
    later: Seq<Event<T>>,
)
    requires
        buffer > 0,
        state_after(buffer, events).idle(id),
        ({
            let told = state_after(buffer, events);
            told.chan.poll_ready_step(Some(told.view_of(id)), waker).2 is Pending
        }),
        forall|i: int| 0 <= i < later.len() ==> !(#[trigger] later[i]).is_by_sender(id),
    ensures
        ({
            let n = state_after(buffer, events).chan.wakes.len();
            let sys = state_after(buffer, events.push(Event::PollReady { id, waker }) + later);
            ||| sys.chan.fell_due_since(waker, n)
            ||| sys.chan.parked.contains(id) && sys.chan.tasks[id].waker == Some(waker)
        }),
{
    let asked = events.push(Event::PollReady { id, waker });
    assert(asked.drop_last() =~= events);
    wait_of_sender_lasts(buffer, asked, later, id);
    waiting_sender_is_in_line_or_due(buffer, asked + later, id);
}

/// No wake-up of the receiver is lost, however often its waker was woken before: from when it is
/// told to wait until it does something again, the waker that it left is there, or has fallen due
/// after it was told.
pub proof fn receiver_told_to_wait_is_registered_or_falls_due<T>(
    buffer: nat,
    events: Seq<Event<T>>,
    waker: int,
    later: Seq<Event<T>>,
)
    requires
        buffer > 0,
        state_after(buffer, events).rx is Idle,
        ({
            let told = state_after(buffer, events);
            told.chan.poll_next_step(told.connected, waker).2 is Pending
        }),
        forall|i: int| 0 <= i < later.len() ==> !(#[trigger] later[i]).is_by_receiver(),
    ensures
        ({
            let told = state_after(buffer, events);
            let asked = events.push(Event::Miss { recv_waker: Some(waker) });
            let sys = state_after(buffer, asked + later);
            &&& sys.rx_waiting == Some(Wait { waker, since: told.chan.wakes.len() })
            &&& {
                ||| sys.chan.fell_due_since(waker, told.chan.wakes.len())
                ||| sys.chan.recv_task == Some(waker)
            }
        }),
    decreases later.len(),
{
    let asked = events.push(Event::Miss { recv_waker: Some(waker) });
    assert(asked.drop_last() =~= events);
    if later.len() == 0 {
        assert(asked + later =~= asked);
    } else {
        let rest = later.drop_last();
        assert forall|i: int| 0 <= i < rest.len() implies !(#[trigger] rest[i]).is_by_receiver() by {
            assert(rest[i] == later[i]);
        }
        receiver_told_to_wait_is_registered_or_falls_due(buffer, events, waker, rest);
        assert((asked + later).drop_last() =~= asked + rest);
        assert(!later[later.len() - 1].is_by_receiver());
    }
    waiting_receiver_is_registered_or_due(buffer, asked + later);
}

/// Once the receiver has closed the channel no sender has to wait, not even one that parks after
/// that.
pub proof fn nobody_waits_for_a_receiver_that_closed<T>(buffer: nat, events: Seq<Event<T>>, id: u64)
    requires
        buffer > 0,
    ensures
        ({
            let sys = state_after(buffer, events);
            sys.closed_by_receiver && sys.senders.contains_key(id) ==> {
                &&& !sys.chan.waits(sys.view_of(id))
                &&& sys.chan.refusal(Some(sys.view_of(id))) == Some(SendErrorKind::Closed)
            }
        }),
{
    System::<T>::inv_holds(buffer, events);
    let sys = state_after(buffer, events);
    if sys.senders.contains_key(id) {
        assert(sys.sender_inv(id, sys.senders[id]));
        assert(sys.chan.live().contains(id));
    }
}

/// A closed channel stays closed.
pub proof fn closed_is_final<T>(buffer: nat, events: Seq<Event<T>>, n: int)
    requires
        buffer > 0,
        0 <= n <= events.len(),
        !state_after(buffer, events.take(n)).chan.is_open,
    ensures
        !state_after(buffer, events).chan.is_open,
    decreases events.len(),
{
    if n == events.len() {
        assert(events.take(n) =~= events);
    } else {
        let before = events.drop_last();
        assert(before.take(n) =~= events.take(n));
        closed_is_final(buffer, before, n);
        System::<T>::inv_holds(buffer, before);
        if state_after(buffer, before).enabled(events.last()) {
            state_after(buffer, before).lemma_stays_closed(events.last());
        }
    }
}

/// A sender that was told that it may send can send: the next attempt succeeds, and its message is
/// the last in the queue.
pub proof fn ready_sender_can_send<T>(
    chan: ChannelView<T>,
    sender: Option<SenderView>,
    waker: int,
    msg: T,
)
    ensures
        ({
            let (after, ready, answer) = chan.poll_ready_step(sender, waker);
            let (sent, _, error) = after.try_send_step(ready, msg);
            answer == Poll::Ready(None::<SendErrorKind>) ==> {
                &&& error is None
                &&& TrySendError::outcome(error, msg) == Ok::<(), TrySendError<T>>(())
                &&& SendError::outcome(error) == Ok::<(), SendError>(())
                &&& sent.messages == chan.messages.push(msg)
            }
        }),
{
}

/// `event` sends or lets go on behalf of the sender `id`, or closes the channel.
pub open spec fn disturbs<T>(event: Event<T>, id: u64) -> bool {
    match event {
        Event::Check { id: k, .. } => k == id,
        Event::Count { id: k } => k == id,
        Event::Park { id: k } => k == id,
        Event::Push { id: k } => k == id,
        Event::Leave { id: k } => k == id,
        Event::Close { .. } => true,
        Event::ReceiverClose => true,
        _ => false,
    }
}

/// A sender that was told that it may send keeps that right whatever the others and the receiver do,
/// unless one of them closes the channel.
pub proof fn ready_sender_stays_ready<T>(
    sys: System<T>,
    id: u64,
    waker: int,
    events: Seq<Event<T>>,
    msg: T,
)
    requires
        sys.inv(),
        sys.idle(id),
        sys.chan.poll_ready_step(Some(sys.view_of(id)), waker).2 == Poll::Ready(
            None::<SendErrorKind>,
        ),
        forall|i: int| 0 <= i < events.len() ==> !disturbs(#[trigger] events[i], id),
    ensures
        ({
            let after = sys.step(Event::PollReady { id, waker }).run(events);
            let (sent, _, error) = after.chan.try_send_step(Some(after.view_of(id)), msg);
            &&& after.inv()
            &&& after.idle(id)
            &&& after.chan.is_open
            &&& !after.senders[id].maybe_parked
            &&& error is None
            &&& sent.messages == after.chan.messages.push(msg)
        }),
    decreases events.len(),
{
    let ready = sys.step(Event::PollReady { id, waker });
    if events.len() == 0 {
        sys.step_keeps_inv(Event::PollReady { id, waker });
    } else {
        let rest = events.drop_last();
        assert forall|i: int| 0 <= i < rest.len() implies !disturbs(#[trigger] rest[i], id) by {
            assert(rest[i] == events[i]);
        }
        ready_sender_stays_ready(sys, id, waker, rest, msg);
        let before = ready.run(rest);
        let event = events.last();
        assert(event == events[events.len() - 1]);
        if before.enabled(event) {
            before.step_keeps_inv(event);
            before.chan.lemma_live_is_finite();
            assert(before.chan.live().contains(id));
            assert(before.chan.tasks.contains_key(id));
            if let Event::Leave { id: other } = event {
                assert(before.chan.live().contains(other));
                assert(before.chan.live().remove(other).contains(id));
                assert(before.chan.num_senders > 1);
            }
        }
    }
}

/// Whether a sender may send and whether it can send is the same: it is told that it has let go if
/// and only if it has, else that the channel is closed if and only if it is, and else to wait if and
/// only if an attempt to send would find the channel full.
pub proof fn poll_ready_tells_what_try_send_would<T>(
    chan: ChannelView<T>,
    sender: Option<SenderView>,
    waker: int,
    msg: T,
)
    ensures
        ({
            let answer = SendError::polled(chan.poll_ready_step(sender, waker).2);
            let result = TrySendError::outcome(chan.try_send_step(sender, msg).2, msg);
            &&& answer == Poll::Ready(
                Err::<(), SendError>(SendError { kind: SendErrorKind::Disconnected }),
            ) <==> sender is None
            &&& sender is Some ==> (answer == Poll::Ready(
                Err::<(), SendError>(SendError { kind: SendErrorKind::Closed }),
            ) <==> !chan.is_open)
            &&& sender is Some && chan.is_open ==> {
                &&& answer == Poll::<Result<(), SendError>>::Pending <==> result == Err::<
                    (),
                    TrySendError<T>,
                >(TrySendError { kind: SendErrorKind::Full, value: msg })
                &&& answer == Poll::Ready(Ok::<(), SendError>(())) <==> result == Ok::<
                    (),
                    TrySendError<T>,
                >(())
            }
        }),
{
}

/// What becomes of a message does not depend on whether a refused one is handed back: the results of
/// both ways to send succeed together, and fail for the same reason.
pub proof fn start_send_answers_as_try_send<T>(
    chan: ChannelView<T>,
    sender: Option<SenderView>,
    msg: T,
)
    ensures
        ({
            let error = chan.try_send_step(sender, msg).2;
            let tried = TrySendError::outcome(error, msg);
            let started = SendError::outcome(error);
            &&& tried is Ok <==> started is Ok
            &&& tried matches Err(t) ==> t.value == msg && started == Err::<(), SendError>(
                SendError { kind: t.kind },
            )
        }),
{
}

/// To announce a message and to take the announcement back leaves the channel as it was.
pub proof fn uncounting_undoes_counting<T>(chan: ChannelView<T>)
    ensures
        chan.counted().uncounted() == chan,
{
}

/// A sender that has let go sees no senders and sends nothing, and to let go again changes nothing.
/// The others see one sender less, and the channel is closed by it if and only if there are none.
pub proof fn disconnecting_is_final<T>(
    chan: ChannelView<T>,
    sender: Option<SenderView>,
    msg: T,
    waker: int,
)
    requires
        chan.consistent(),
        chan.knows(sender),
    ensures
        ({
            let after = chan.disconnect_step(sender);
            &&& after.num_senders_for(None) == 0
            &&& after.try_send_step(None, msg) == (
                after,
                None::<SenderView>,
                Some(SendErrorKind::Disconnected),
            )
            &&& after.poll_ready_step(None, waker) == (
                after,
                None::<SenderView>,
                Poll::Ready(Some(SendErrorKind::Disconnected)),
            )
            &&& after.disconnect_step(None) == after
            &&& sender matches Some(s) ==> {
                &&& after.num_senders == chan.num_senders - 1
                &&& after.is_open <==> chan.is_open && chan.num_senders > 1
                &&& forall|other: SenderView|
                    #![trigger after.has(other)]
                    chan.has(other) && other.id != s.id ==> after.has(other)
                        && after.num_senders_for(Some(other)) == chan.num_senders_for(Some(other))
                        - 1
            }
            &&& sender is None ==> after == chan
        }),
{
    if let Some(s) = sender {
        chan.lemma_live_is_finite();
        assert(chan.live().contains(s.id));
    }
}

/// A channel and its sender after attempts to send each of `msgs` in turn.
pub open spec fn after_sending<T>(
    chan: ChannelView<T>,
    sender: Option<SenderView>,
    msgs: Seq<T>,
) -> (ChannelView<T>, Option<SenderView>)
    decreases msgs.len(),
{
    if msgs.len() == 0 {
        (chan, sender)
    } else {
        let (before, s) = after_sending(chan, sender, msgs.drop_last());
        let (after, s, _) = before.try_send_step(s, msgs.last());
        (after, s)
    }
}

/// Of the messages that the only sender of a new channel sends in a row, with none received, the
/// channel takes as many as fit into its buffer and one more. All others find it full.
pub proof fn lone_sender_fills_the_channel<T>(buffer: nat, msgs: Seq<T>, msg: T)
    requires
        buffer > 0,
    ensures
        ({
            let (chan, sender) = after_sending(
                ChannelView::<T>::initial(buffer),
                Some(SenderView { id: 0, maybe_parked: false }),
                msgs,
            );
            &&& chan.try_send_step(sender, msg).2 == if msgs.len() <= buffer {
                None
            } else {
                Some(SendErrorKind::Full)
            }
            &&& chan.messages == if msgs.len() <= buffer {
                msgs
            } else {
                msgs.take(buffer as int + 1)
            }
            &&& chan.num_msg == chan.messages.len()
            &&& chan.buffer == buffer
            &&& chan.is_open
            &&& chan.tasks.contains_key(0)
            &&& sender == Some(SenderView { id: 0, maybe_parked: msgs.len() > buffer })
            &&& chan.tasks[0].is_parked == (msgs.len() > buffer)
            &&& buffer < usize::MAX / 2 ==> chan.can_take(sender)
        }),
    decreases msgs.len(),
{
    if msgs.len() > 0 {
        let rest = msgs.drop_last();
        lone_sender_fills_the_channel(buffer, rest, msgs.last());
        assert(rest.push(msgs.last()) =~= msgs);
        if msgs.len() == buffer + 1 {
            assert(msgs.take(buffer as int + 1) =~= msgs);
        } else if msgs.len() > buffer + 1 {
            if rest.len() == buffer + 1 {
                assert(rest.take(buffer as int + 1) =~= rest);
            }
            assert(msgs.take(buffer as int + 1) =~= rest.take(buffer as int + 1));
        }
    } else {
        assert(msgs =~= Seq::<T>::empty());
    }
}

/// A message beyond the buffer is accepted, but its sender finds the channel full from then on; a
/// sender of a message within the buffer does not.
pub proof fn message_beyond_the_buffer_fills_the_channel<T>(
    chan: ChannelView<T>,
    sender: SenderView,
    msg: T,
)
    requires
        chan.has(sender),
    ensures
        ({
            let (after, next, error) = chan.try_send_step(Some(sender), msg);
            error is None ==> (after.refusal(next) == if chan.num_msg >= chan.buffer {
                Some(SendErrorKind::Full)
            } else {
                None
            })
        }),
{
}

/// A sender waits on its own account only: an attempt of one to send, or to find out whether it may,
/// leaves any other as it is.
pub proof fn senders_wait_on_their_own_account<T>(
    chan: ChannelView<T>,
    sender: SenderView,
    other: SenderView,
    msg: T,
    waker: int,
)
    requires
        chan.has(sender),
        chan.has(other),
        sender.id != other.id,
    ensures
        ({
            let sent = chan.try_send_step(Some(sender), msg).0;
            let asked = chan.poll_ready_step(Some(sender), waker).0;
            &&& sent.has(other)
            &&& sent.waits(other) == chan.waits(other)
            &&& asked.has(other)
            &&& asked.refusal(Some(other)) == chan.refusal(Some(other))
        }),
{
}

/// A refused message changes nothing but what a sender that has to wait leaves to be woken.
pub proof fn refused_message_leaves_the_channel_alone<T>(
    chan: ChannelView<T>,
    sender: Option<SenderView>,
    msg: T,
)
    ensures
        ({
            let (after, next, error) = chan.try_send_step(sender, msg);
            error is Some ==> after == (ChannelView {
                tasks: after.tasks,
                discarded: after.discarded,
                ..chan
            }) && (error
                != Some(SendErrorKind::Full) ==> after == chan)
        }),
{
}

/// To receive a message unparks who is first in line, and only them: their waker falls due, and
/// everybody else in line stays there.
pub proof fn receiving_unparks_the_first_in_line<T>(chan: ChannelView<T>)
    requires
        chan.consistent(),
        chan.line_inv(),
        chan.messages.len() > 0,
        chan.parked.len() > 0,
    ensures
        ({
            let (after, connected, answer) = chan.next_message_step(true);
            let first = chan.parked[0];
            &&& after.parked == chan.parked.drop_first()
            &&& forall|maybe_parked: bool|
                !(#[trigger] after.waits(SenderView { id: first, maybe_parked }))
                    || !after.tasks.contains_key(first)
            &&& after.wakes == match chan.tasks[first].waker {
                Some(waker) => chan.wakes.push(waker),
                None => chan.wakes,
            }
            &&& forall|id: u64| #[trigger]
                after.parked.contains(id) ==> after.tasks[id] == chan.tasks[id]
        }),
{
    let rest = ChannelView { messages: chan.messages.drop_first(), ..chan };
    assert(rest.live() =~= chan.live());
    rest.lemma_unparked_one();
    let after = chan.next_message_step(true).0;
    let first = chan.parked[0];
    assert(rest.parked.contains(first));
    assert(!after.parked.contains(first));
    let line = chan.parked;
    assert forall|id: u64| #[trigger] after.parked.contains(id) implies after.tasks[id]
        == chan.tasks[id] by {
        let i = after.parked.index_of(id);
        assert(line[i + 1] == id);
        assert(rest.parked.contains(id));
        assert(line[0] != line[i + 1]);
    }
}

/// When the receiver closes the channel, everybody in line is unparked, and their wakers fall due in
/// that order.
pub proof fn receiver_close_unparks_everybody<T>(chan: ChannelView<T>)
    requires
        chan.consistent(),
        chan.line_inv(),
    ensures
        ({
            let after = chan.receiver_close_step(true);
            &&& !after.is_open
            &&& after.parked.len() == 0
            &&& after.messages == chan.messages
            &&& forall|id: u64| #[trigger]
                after.tasks.contains_key(id) ==> !after.tasks[id].is_parked
            &&& after.wakes == chan.wakes + chan.wakers_in(chan.parked)
        }),
{
    let closed = chan.closed();
    assert(closed.live() =~= chan.live());
    closed.lemma_unparked_all();
    let after = chan.receiver_close_step(true);
    assert forall|id: u64| #[trigger] after.tasks.contains_key(id) implies !after.tasks[id].is_parked by {
        assert(!after.parked.contains(id));
    }
    closed.lemma_wakers_in(chan, chan.parked);
}

/// The channel after `n` messages were received in a row.
pub open spec fn after_receiving<T>(chan: ChannelView<T>, n: nat) -> ChannelView<T>
    decreases n,
{
    if n == 0 {
        chan
    } else {
        after_receiving(chan, (n - 1) as nat).next_message_step(true).0
    }
}

/// What is in the queue is what the receiver gets, in order, even if the channel is closed. After
/// that a closed channel has nothing more to give.
pub proof fn queue_is_received_to_its_end<T>(chan: ChannelView<T>, n: nat)
    requires
        n <= chan.messages.len(),
    ensures
        ({
            let left = after_receiving(chan, n);
            &&& left.messages == chan.messages.skip(n as int)
            &&& left.is_open == chan.is_open
            &&& left.next_message_step(true).2 == if n < chan.messages.len() {
                Poll::Ready(Some(chan.messages[n as int]))
            } else if chan.is_open {
                Poll::Pending
            } else {
                Poll::Ready(None)
            }
        }),
    decreases n,
{
    if n > 0 {
        queue_is_received_to_its_end(chan, (n - 1) as nat);
        let before = after_receiving(chan, (n - 1) as nat);
        assert(before.messages.drop_first() =~= chan.messages.skip(n as int));
    } else {
        assert(chan.messages.skip(0) =~= chan.messages);
    }
}

/// An attempt to send is the steps of sending, one right after the other.
pub proof fn try_send_is_the_steps_of_sending<T>(sys: System<T>, id: u64, msg: T)
    requires
        sys.idle(id),
    ensures
        ({
            let (chan, sender, error) = sys.chan.try_send_step(Some(sys.view_of(id)), msg);
            let after = sys.run(
                seq![
                    Event::Check { id, msg },
                    Event::Count { id },
                    Event::Park { id },
                    Event::Push { id },
                ],
            );
            &&& after.chan == chan
            &&& Some(after.view_of(id)) == sender
            &&& after.idle(id)
            &&& after.sent == if error is None {
                sys.sent.push(msg)
            } else {
                sys.sent
            }
        }),
{
    let a = Event::Check { id, msg };
    let b = Event::Count { id };
    let c = Event::Park { id };
    let d = Event::Push { id };
    let events = seq![a, b, c, d];
    assert(events.drop_last() =~= seq![a, b, c]);
    assert(seq![a, b, c].drop_last() =~= seq![a, b]);
    assert(seq![a, b].drop_last() =~= seq![a]);
    assert(seq![a].drop_last() =~= Seq::<Event<T>>::empty());
    reveal_with_fuel(System::run, 5);
    let after = sys.run(events);
    assert(after.chan =~= sys.chan.try_send_step(Some(sys.view_of(id)), msg).0);
}

/// To receive a message is the steps of receiving, one right after the other.
pub proof fn next_message_is_the_steps_of_receiving<T>(sys: System<T>)
    requires
        sys.rx is Idle,
        sys.connected,
        sys.chan.messages.len() > 0,
    ensures
        ({
            let (chan, connected, answer) = sys.chan.next_message_step(true);
            let after = sys.run(seq![Event::Pop, Event::Unpark, Event::Uncount]);
            &&& after.chan == chan
            &&& after.connected == connected
            &&& after.rx is Idle
            &&& answer == Poll::Ready(Some(after.received.last()))
            &&& after.received == sys.received.push(sys.chan.messages[0])
        }),
{
    let events: Seq<Event<T>> = seq![Event::Pop, Event::Unpark, Event::Uncount];
    assert(events.drop_last() =~= seq![Event::<T>::Pop, Event::Unpark]);
    assert(seq![Event::<T>::Pop, Event::Unpark].drop_last() =~= seq![Event::<T>::Pop]);
    assert(seq![Event::<T>::Pop].drop_last() =~= Seq::<Event<T>>::empty());
    reveal_with_fuel(System::run, 4);
}

} // verus!
