use my_channel::mpsc::{
    channel, BoundedInner, Receiver, SendErrorKind, Sender, TryRecvError, TrySendError,
};
use my_channel::oneshot::RecvError;
use my_channel::poll::Poll;
use std::sync::atomic::{AtomicUsize, Ordering};
use std::sync::Arc;
use std::task::{Wake, Waker};

struct Count(AtomicUsize);

impl Wake for Count {
    fn wake(self: Arc<Self>) {
        self.0.fetch_add(1, Ordering::SeqCst);
    }
}

fn task() -> (Arc<Count>, Waker) {
    let count = Arc::new(Count(AtomicUsize::new(0)));
    let waker = Waker::from(count.clone());
    (count, waker)
}

fn woken(count: &Arc<Count>) -> usize {
    count.0.load(Ordering::SeqCst)
}

fn wake_all<T>(inner: &mut BoundedInner<T>) -> usize {
    let due = inner.take_wakes();
    let n = due.len();
    for waker in due {
        waker.wake();
    }
    n
}

fn kind<T>(result: Result<(), TrySendError<T>>) -> &'static str {
    match result {
        Ok(()) => "sent",
        Err(e) => match e.kind {
            SendErrorKind::Full => "full",
            SendErrorKind::Closed => "closed",
            SendErrorKind::Disconnected => "disconnected",
        },
    }
}

fn refused<T>(result: Result<(), TrySendError<T>>) -> T {
    match result {
        Ok(()) => panic!("the message was sent"),
        Err(e) => e.value,
    }
}

fn receive<T>(rx: &mut Receiver<T>, inner: &mut BoundedInner<T>) -> Result<T, &'static str> {
    match rx.try_recv(inner) {
        Ok(msg) => Ok(msg),
        Err(TryRecvError::Closed) => Err("closed"),
        Err(TryRecvError::Emptiy) => Err("empty"),
    }
}

#[test]
fn messages_are_received_in_order() {
    let (mut tx, mut rx, mut inner) = channel(5);
    let mut other = tx.clone(&mut inner);
    for i in 0..3 {
        assert_eq!(kind(tx.try_send(&mut inner, i)), "sent");
        assert_eq!(kind(other.try_send(&mut inner, i + 10)), "sent");
        if i == 1 {
            assert_eq!(receive(&mut rx, &mut inner), Ok(0));
        }
    }
    assert_eq!(receive(&mut rx, &mut inner), Ok(10));
    assert_eq!(receive(&mut rx, &mut inner), Ok(1));
    assert_eq!(receive(&mut rx, &mut inner), Ok(11));
    assert_eq!(receive(&mut rx, &mut inner), Ok(2));
    assert_eq!(receive(&mut rx, &mut inner), Ok(12));
    assert_eq!(receive(&mut rx, &mut inner), Err("empty"));
}

#[test]
fn a_sender_may_go_one_message_beyond_the_buffer() {
    let (mut tx, mut rx, mut inner) = channel(2);
    assert_eq!(kind(tx.try_send(&mut inner, 1)), "sent");
    assert_eq!(kind(tx.try_send(&mut inner, 2)), "sent");
    assert_eq!(kind(tx.try_send(&mut inner, 3)), "sent");
    assert_eq!(kind(tx.try_send(&mut inner, 4)), "full");
    assert_eq!(refused(tx.try_send(&mut inner, 5)), 5);
    assert_eq!(receive(&mut rx, &mut inner), Ok(1));
    assert_eq!(kind(tx.try_send(&mut inner, 6)), "sent");
    assert_eq!(kind(tx.try_send(&mut inner, 7)), "full");
    assert_eq!(receive(&mut rx, &mut inner), Ok(2));
    assert_eq!(receive(&mut rx, &mut inner), Ok(3));
    assert_eq!(receive(&mut rx, &mut inner), Ok(6));
    assert_eq!(receive(&mut rx, &mut inner), Err("empty"));
}

#[test]
fn each_sender_has_a_message_of_its_own_beyond_the_buffer() {
    let (mut tx, mut rx, mut inner) = channel(1);
    let mut other = tx.clone(&mut inner);
    assert_eq!(kind(tx.try_send(&mut inner, 1)), "sent");
    assert_eq!(kind(tx.try_send(&mut inner, 2)), "sent");
    assert_eq!(kind(tx.try_send(&mut inner, 3)), "full");
    assert_eq!(kind(other.try_send(&mut inner, 4)), "sent");
    assert_eq!(kind(other.try_send(&mut inner, 5)), "full");
    // The first in line is unparked first.
    assert_eq!(receive(&mut rx, &mut inner), Ok(1));
    assert_eq!(kind(other.try_send(&mut inner, 6)), "full");
    assert_eq!(kind(tx.try_send(&mut inner, 7)), "sent");
    assert_eq!(receive(&mut rx, &mut inner), Ok(2));
    assert_eq!(kind(other.try_send(&mut inner, 8)), "sent");
    assert_eq!(receive(&mut rx, &mut inner), Ok(4));
    assert_eq!(receive(&mut rx, &mut inner), Ok(7));
    assert_eq!(receive(&mut rx, &mut inner), Ok(8));
    assert_eq!(receive(&mut rx, &mut inner), Err("empty"));
}

#[test]
fn a_sender_that_is_gone_keeps_its_place_in_line() {
    let (mut tx, mut rx, mut inner) = channel(1);
    let mut other = tx.clone(&mut inner);
    assert_eq!(kind(tx.try_send(&mut inner, 0)), "sent");
    assert_eq!(kind(other.try_send(&mut inner, 1)), "sent");
    assert_eq!(kind(tx.try_send(&mut inner, 2)), "sent");
    other.disconnect(&mut inner);
    assert_eq!(receive(&mut rx, &mut inner), Ok(0));
    assert_eq!(kind(tx.try_send(&mut inner, 3)), "full");
    assert_eq!(receive(&mut rx, &mut inner), Ok(1));
    assert_eq!(kind(tx.try_send(&mut inner, 3)), "sent");
}

#[test]
fn the_last_sender_closes_the_channel() {
    let (mut tx, mut rx, mut inner) = channel(3);
    let mut other = tx.clone(&mut inner);
    assert_eq!(tx.num_senders(&inner), 2);
    assert_eq!(kind(other.try_send(&mut inner, 'x')), "sent");
    other.disconnect(&mut inner);
    assert_eq!(other.num_senders(&inner), 0);
    assert_eq!(tx.num_senders(&inner), 1);
    assert_eq!(kind(tx.try_send(&mut inner, 'y')), "sent");
    tx.disconnect(&mut inner);
    // What was sent before is received still.
    assert_eq!(receive(&mut rx, &mut inner), Ok('x'));
    assert_eq!(receive(&mut rx, &mut inner), Ok('y'));
    assert_eq!(receive(&mut rx, &mut inner), Err("closed"));
    assert_eq!(receive(&mut rx, &mut inner), Err("closed"));
}

#[test]
fn a_disconnected_sender_sends_nothing() {
    let (mut tx, _rx, mut inner) = channel(3);
    let (count, waker) = task();
    tx.disconnect(&mut inner);
    tx.disconnect(&mut inner);
    assert_eq!(kind(tx.try_send(&mut inner, 1)), "disconnected");
    assert_eq!(refused(tx.try_send(&mut inner, 2)), 2);
    assert!(matches!(
        tx.start_send(&mut inner, 3),
        Err(e) if matches!(e.kind, SendErrorKind::Disconnected)
    ));
    assert!(matches!(
        tx.poll_ready(&mut inner, &waker),
        Poll::Ready(Err(e)) if matches!(e.kind, SendErrorKind::Disconnected)
    ));
    let copy = tx.clone(&mut inner);
    assert_eq!(copy.num_senders(&inner), 0);
    copy.channel_close(&mut inner);
    assert_eq!(woken(&count), 0);
}

#[test]
fn a_closed_channel_takes_no_messages() {
    let (mut tx, mut rx, mut inner) = channel(3);
    let mut other = tx.clone(&mut inner);
    let (_, waker) = task();
    assert_eq!(kind(tx.try_send(&mut inner, 1)), "sent");
    tx.channel_close(&mut inner);
    tx.channel_close(&mut inner);
    assert_eq!(kind(tx.try_send(&mut inner, 2)), "closed");
    assert_eq!(refused(other.try_send(&mut inner, 3)), 3);
    assert!(matches!(
        other.start_send(&mut inner, 3),
        Err(e) if matches!(e.kind, SendErrorKind::Closed)
    ));
    assert!(matches!(
        other.poll_ready(&mut inner, &waker),
        Poll::Ready(Err(e)) if matches!(e.kind, SendErrorKind::Closed)
    ));
    assert_eq!(receive(&mut rx, &mut inner), Ok(1));
    assert_eq!(receive(&mut rx, &mut inner), Err("closed"));
}

#[test]
fn closing_by_a_sender_leaves_the_line_as_it_is() {
    let (mut tx, mut rx, mut inner) = channel(1);
    let other = tx.clone(&mut inner);
    assert_eq!(kind(tx.try_send(&mut inner, 1)), "sent");
    assert_eq!(kind(tx.try_send(&mut inner, 2)), "sent");
    other.channel_close(&mut inner);
    assert_eq!(kind(tx.try_send(&mut inner, 3)), "full");
    assert_eq!(receive(&mut rx, &mut inner), Ok(1));
    assert_eq!(kind(tx.try_send(&mut inner, 3)), "closed");
}

#[test]
fn the_receiver_closes_and_unparks_everybody() {
    let (mut tx, mut rx, mut inner) = channel(1);
    let mut other = tx.clone(&mut inner);
    let (count, waker) = task();
    let (other_count, other_waker) = task();
    assert_eq!(kind(tx.try_send(&mut inner, 1)), "sent");
    assert_eq!(kind(tx.try_send(&mut inner, 2)), "sent");
    assert_eq!(kind(other.try_send(&mut inner, 3)), "sent");
    assert!(matches!(tx.poll_ready(&mut inner, &waker), Poll::Pending));
    assert!(matches!(other.poll_ready(&mut inner, &other_waker), Poll::Pending));
    rx.close(&mut inner);
    assert_eq!(wake_all(&mut inner), 2);
    assert_eq!(woken(&count), 1);
    assert_eq!(woken(&other_count), 1);
    assert_eq!(kind(tx.try_send(&mut inner, 4)), "closed");
    assert_eq!(kind(other.try_send(&mut inner, 5)), "closed");
    assert_eq!(receive(&mut rx, &mut inner), Ok(1));
    assert_eq!(receive(&mut rx, &mut inner), Ok(2));
    assert_eq!(receive(&mut rx, &mut inner), Ok(3));
    assert_eq!(receive(&mut rx, &mut inner), Err("closed"));
    rx.close(&mut inner);
    assert_eq!(wake_all(&mut inner), 0);
}

#[test]
fn a_waiting_receiver_is_woken_by_a_message() {
    let (mut tx, mut rx, mut inner) = channel(1);
    let (count, waker) = task();
    assert!(matches!(rx.poll_next(&mut inner, &waker), Poll::Pending));
    assert_eq!(wake_all(&mut inner), 0);
    assert_eq!(kind(tx.try_send(&mut inner, 9)), "sent");
    assert_eq!(wake_all(&mut inner), 1);
    assert_eq!(woken(&count), 1);
    assert!(matches!(rx.poll_next(&mut inner, &waker), Poll::Ready(Some(9))));
    // Nobody waits, so nobody is woken.
    assert_eq!(kind(tx.try_send(&mut inner, 10)), "sent");
    assert_eq!(wake_all(&mut inner), 0);
    assert_eq!(woken(&count), 1);
}

#[test]
fn the_last_waker_of_the_receiver_counts() {
    let (mut tx, mut rx, mut inner) = channel(1);
    let (first, first_waker) = task();
    let (second, second_waker) = task();
    assert!(matches!(rx.poll_next(&mut inner, &first_waker), Poll::Pending));
    assert!(matches!(rx.poll_next(&mut inner, &second_waker), Poll::Pending));
    assert_eq!(kind(tx.try_send(&mut inner, 1)), "sent");
    assert_eq!(wake_all(&mut inner), 1);
    assert_eq!(woken(&first), 0);
    assert_eq!(woken(&second), 1);
}

#[test]
fn a_waiting_receiver_is_woken_by_the_last_sender() {
    let (mut tx, mut rx, mut inner): (Sender<u8>, Receiver<u8>, BoundedInner<u8>) = channel(1);
    let mut other = tx.clone(&mut inner);
    let (count, waker) = task();
    assert!(matches!(rx.poll_next(&mut inner, &waker), Poll::Pending));
    other.disconnect(&mut inner);
    assert_eq!(wake_all(&mut inner), 0);
    tx.disconnect(&mut inner);
    assert_eq!(wake_all(&mut inner), 1);
    assert_eq!(woken(&count), 1);
    assert!(matches!(rx.poll_next(&mut inner, &waker), Poll::Ready(None)));
}

#[test]
fn a_waiting_receiver_is_woken_by_closing() {
    let (tx, mut rx, mut inner): (Sender<u8>, Receiver<u8>, BoundedInner<u8>) = channel(1);
    let (count, waker) = task();
    assert!(matches!(rx.poll_next(&mut inner, &waker), Poll::Pending));
    tx.channel_close(&mut inner);
    assert_eq!(wake_all(&mut inner), 1);
    assert_eq!(woken(&count), 1);
}

#[test]
fn a_waiting_sender_is_woken_when_it_may_send() {
    let (mut tx, mut rx, mut inner) = channel(1);
    let (count, waker) = task();
    assert!(matches!(tx.poll_ready(&mut inner, &waker), Poll::Ready(Ok(()))));
    assert!(tx.start_send(&mut inner, 1).is_ok());
    assert!(matches!(tx.poll_ready(&mut inner, &waker), Poll::Ready(Ok(()))));
    assert!(tx.start_send(&mut inner, 2).is_ok());
    assert!(matches!(tx.poll_ready(&mut inner, &waker), Poll::Pending));
    assert!(matches!(
        tx.start_send(&mut inner, 3),
        Err(e) if matches!(e.kind, SendErrorKind::Full)
    ));
    // The refused message left nobody to wake, so the sender has to ask again.
    assert!(matches!(tx.poll_ready(&mut inner, &waker), Poll::Pending));
    assert_eq!(receive(&mut rx, &mut inner), Ok(1));
    assert_eq!(wake_all(&mut inner), 1);
    assert_eq!(woken(&count), 1);
    assert!(matches!(tx.poll_ready(&mut inner, &waker), Poll::Ready(Ok(()))));
    assert!(tx.start_send(&mut inner, 3).is_ok());
}

#[test]
fn a_refused_attempt_takes_the_waker_away() {
    let (mut tx, mut rx, mut inner) = channel(1);
    let (count, waker) = task();
    assert_eq!(kind(tx.try_send(&mut inner, 1)), "sent");
    assert_eq!(kind(tx.try_send(&mut inner, 2)), "sent");
    assert!(matches!(tx.poll_ready(&mut inner, &waker), Poll::Pending));
    assert_eq!(kind(tx.try_send(&mut inner, 3)), "full");
    assert_eq!(receive(&mut rx, &mut inner), Ok(1));
    assert_eq!(wake_all(&mut inner), 0);
    assert_eq!(woken(&count), 0);
}

#[test]
fn a_message_is_sent_once_the_sender_may() {
    let (mut tx, mut rx, mut inner) = channel(1);
    let (count, waker) = task();
    for i in 0..2 {
        let mut fut = tx.send(i);
        assert!(matches!(fut.poll(&mut inner, &waker), Poll::Ready(Ok(()))));
        assert!(fut.msg.is_none());
    }
    let mut fut = tx.send(2);
    assert!(matches!(fut.poll(&mut inner, &waker), Poll::Pending));
    assert_eq!(fut.msg, Some(2));
    assert_eq!(receive(&mut rx, &mut inner), Ok(0));
    assert_eq!(wake_all(&mut inner), 1);
    assert_eq!(woken(&count), 1);
    assert!(matches!(fut.poll(&mut inner, &waker), Poll::Ready(Ok(()))));
    // The message is sent, and the sender is parked for it.
    assert!(matches!(fut.poll(&mut inner, &waker), Poll::Pending));
    assert_eq!(receive(&mut rx, &mut inner), Ok(1));
    assert!(matches!(fut.poll(&mut inner, &waker), Poll::Ready(Ok(()))));
    assert_eq!(receive(&mut rx, &mut inner), Ok(2));
    assert_eq!(receive(&mut rx, &mut inner), Err("empty"));
}

#[test]
fn a_message_to_a_closed_channel_is_kept() {
    let (mut tx, rx, mut inner) = channel(1);
    let (_, waker) = task();
    rx.close(&mut inner);
    let mut fut = tx.send(5);
    assert!(matches!(
        fut.poll(&mut inner, &waker),
        Poll::Ready(Err(e)) if matches!(e.kind, SendErrorKind::Closed)
    ));
    assert_eq!(fut.msg, Some(5));
}

#[test]
fn the_next_message_is_waited_for() {
    let (mut tx, mut rx, mut inner) = channel(1);
    let (count, waker) = task();
    let mut recv = rx.recv();
    assert!(matches!(recv.poll(&mut inner, &waker), Poll::Pending));
    assert_eq!(kind(tx.try_send(&mut inner, 4)), "sent");
    assert_eq!(wake_all(&mut inner), 1);
    assert_eq!(woken(&count), 1);
    assert!(matches!(recv.poll(&mut inner, &waker), Poll::Ready(Ok(4))));
    tx.disconnect(&mut inner);
    assert!(matches!(recv.poll(&mut inner, &waker), Poll::Ready(Err(RecvError))));
    assert!(matches!(recv.poll(&mut inner, &waker), Poll::Ready(Err(RecvError))));
}

#[test]
fn an_announcement_with_a_stale_word_is_tried_again() {
    let (mut tx, _rx, mut inner) = channel(4);
    let stale = inner.state_word();
    assert_eq!(kind(tx.try_send(&mut inner, 1)), "sent");
    let actual = match inner.try_announce(stale) {
        Err(actual) => actual,
        Ok(_) => panic!("the word has changed"),
    };
    assert_eq!(actual, stale + 1);
    assert!(matches!(inner.try_announce(actual), Ok(Some(2))));
    tx.channel_close(&mut inner);
    assert!(matches!(inner.try_announce(inner.state_word()), Ok(None)));
}

#[test]
fn a_clone_with_a_stale_count_is_tried_again() {
    let (tx, _rx, mut inner): (Sender<u8>, Receiver<u8>, BoundedInner<u8>) = channel(4);
    let other = tx.clone(&mut inner);
    assert!(matches!(inner.try_join(1), Err(2)));
    assert!(matches!(inner.try_join(2), Ok(2)));
    assert_eq!(other.num_senders(&inner), 3);
}

#[test]
fn a_sender_that_parks_after_closing_does_not_wait() {
    let (mut tx, mut rx, mut inner) = channel(1);
    let (_, waker) = task();
    assert_eq!(kind(tx.try_send(&mut inner, 1)), "sent");
    let sender = tx.0.as_mut().unwrap();
    // The sender announces a message beyond the buffer, and the receiver closes before it parks.
    assert!(matches!(sender.poll_unparked(&mut inner, None), Poll::Ready(())));
    assert_eq!(sender.inc_num_msg(&mut inner), Some(2));
    rx.close(&mut inner);
    sender.park(&mut inner);
    sender.send_queue_and_wake(&mut inner, 2);
    assert!(matches!(sender.poll_unparked(&mut inner, Some(&waker)), Poll::Ready(())));
    assert_eq!(sender.inc_num_msg(&mut inner), None);
    assert_eq!(kind(tx.try_send(&mut inner, 3)), "closed");
    assert_eq!(receive(&mut rx, &mut inner), Ok(1));
    assert_eq!(receive(&mut rx, &mut inner), Ok(2));
    assert_eq!(receive(&mut rx, &mut inner), Err("closed"));
}

#[test]
fn steps_of_two_senders_may_interleave() {
    let (mut tx, mut rx, mut inner) = channel(2);
    let mut other = tx.clone(&mut inner);
    let first = tx.0.as_mut().unwrap();
    let second = other.0.as_mut().unwrap();
    assert_eq!(first.inc_num_msg(&mut inner), Some(1));
    assert_eq!(second.inc_num_msg(&mut inner), Some(2));
    // Both messages are announced, and none is there.
    assert_eq!(receive(&mut rx, &mut inner), Err("empty"));
    second.send_queue_and_wake(&mut inner, "second");
    first.send_queue_and_wake(&mut inner, "first");
    assert_eq!(inner.pop_message(), Some("second"));
    rx.unpark_one(&mut inner);
    assert_eq!(first.inc_num_msg(&mut inner), Some(3));
    rx.dec_num_msg(&mut inner);
    assert_eq!(receive(&mut rx, &mut inner), Ok("first"));
    assert_eq!(receive(&mut rx, &mut inner), Err("empty"));
}

#[test]
fn a_task_is_notified_once() {
    let mut task = my_channel::mpsc::inner::SenderTask::new();
    assert!(task.notify().is_none());
}

#[test]
fn a_lone_sender_sends_one_message_more_than_the_buffer_holds() {
    for buffer in 1..6usize {
        let (mut tx, _rx, mut inner) = channel(buffer);
        for i in 0..buffer + 4 {
            let expected = if i <= buffer { "sent" } else { "full" };
            assert_eq!(kind(tx.try_send(&mut inner, i)), expected);
        }
        assert_eq!(refused(tx.try_send(&mut inner, 99)), 99);
    }
}

#[test]
fn senders_that_are_gone_still_bound_the_messages() {
    let (mut tx, mut rx, mut inner) = channel(2);
    assert_eq!(kind(tx.try_send(&mut inner, 0)), "sent");
    assert_eq!(kind(tx.try_send(&mut inner, 1)), "sent");
    assert_eq!(kind(tx.try_send(&mut inner, 2)), "sent");
    for i in 3..6 {
        let mut copy = tx.clone(&mut inner);
        assert_eq!(kind(copy.try_send(&mut inner, i)), "sent");
        assert_eq!(kind(copy.try_send(&mut inner, 100)), "full");
        copy.disconnect(&mut inner);
    }
    // One sender is left of four, and six messages are there.
    assert_eq!(tx.num_senders(&inner), 1);
    tx.disconnect(&mut inner);
    for i in 0..6 {
        assert_eq!(receive(&mut rx, &mut inner), Ok(i));
    }
    assert_eq!(receive(&mut rx, &mut inner), Err("closed"));
}

#[test]
fn an_announcement_is_taken_back() {
    let (mut tx, rx, mut inner) = channel(2);
    let before = inner.state_word();
    let sender = tx.0.as_mut().unwrap();
    assert_eq!(sender.inc_num_msg(&mut inner), Some(1));
    rx.dec_num_msg(&mut inner);
    assert_eq!(inner.state_word(), before);
    // The open flag is kept also where the message is still in the queue, or the channel closed.
    assert_eq!(kind(tx.try_send(&mut inner, 'm')), "sent");
    rx.dec_num_msg(&mut inner);
    assert_eq!(inner.state_word(), before);
    assert_eq!(tx.0.as_mut().unwrap().inc_num_msg(&mut inner), Some(1));
    tx.channel_close(&mut inner);
    assert_eq!(inner.state_word(), 1);
    rx.dec_num_msg(&mut inner);
    assert_eq!(inner.state_word(), 0);
}

#[test]
fn a_ready_sender_stays_ready_while_others_send_and_receive() {
    let (mut tx, mut rx, mut inner) = channel(1);
    let mut other = tx.clone(&mut inner);
    let (_, waker) = task();
    assert!(matches!(tx.poll_ready(&mut inner, &waker), Poll::Ready(Ok(()))));
    assert_eq!(kind(other.try_send(&mut inner, 1)), "sent");
    assert_eq!(kind(other.try_send(&mut inner, 2)), "sent");
    assert_eq!(receive(&mut rx, &mut inner), Ok(1));
    other.disconnect(&mut inner);
    assert!(tx.start_send(&mut inner, 3).is_ok());
    assert_eq!(receive(&mut rx, &mut inner), Ok(2));
    assert_eq!(receive(&mut rx, &mut inner), Ok(3));
}

#[test]
fn readiness_tells_what_an_attempt_would() {
    let (mut tx, mut rx, mut inner) = channel(1);
    let (_, waker) = task();
    for (i, expected) in ["sent", "sent", "full"].into_iter().enumerate() {
        let ready = match tx.poll_ready(&mut inner, &waker) {
            Poll::Ready(Ok(())) => "sent",
            Poll::Pending => "full",
            Poll::Ready(Err(_)) => "refused",
        };
        assert_eq!(ready, expected);
        assert_eq!(kind(tx.try_send(&mut inner, i)), expected);
    }
    assert_eq!(receive(&mut rx, &mut inner), Ok(0));
    assert!(matches!(tx.poll_ready(&mut inner, &waker), Poll::Ready(Ok(()))));
}

#[test]
fn to_let_go_twice_changes_nothing() {
    let (mut tx, mut rx, mut inner): (Sender<u8>, Receiver<u8>, BoundedInner<u8>) = channel(1);
    let mut other = tx.clone(&mut inner);
    let third = other.clone(&mut inner);
    assert_eq!(third.num_senders(&inner), 3);
    tx.disconnect(&mut inner);
    tx.disconnect(&mut inner);
    assert_eq!(tx.num_senders(&inner), 0);
    assert_eq!(third.num_senders(&inner), 2);
    other.disconnect(&mut inner);
    assert_eq!(third.num_senders(&inner), 1);
    assert_eq!(receive(&mut rx, &mut inner), Err("empty"));
}

#[test]
fn a_waker_of_the_receiver_that_is_replaced_is_handed_out() {
    let (mut tx, mut rx, mut inner) = channel(1);
    let (first, first_waker) = task();
    let (second, second_waker) = task();
    assert!(matches!(rx.poll_next(&mut inner, &first_waker), Poll::Pending));
    assert!(inner.take_discarded().is_empty());
    assert!(matches!(rx.poll_next(&mut inner, &second_waker), Poll::Pending));
    let discarded = inner.take_discarded();
    assert_eq!(discarded.len(), 1);
    assert!(discarded[0].will_wake(&first_waker));
    assert!(inner.take_discarded().is_empty());
    assert_eq!(kind(tx.try_send(&mut inner, 1)), "sent");
    // A waker that falls due is not discarded as well.
    assert!(inner.take_discarded().is_empty());
    assert_eq!(wake_all(&mut inner), 1);
    assert_eq!(woken(&first), 0);
    assert_eq!(woken(&second), 1);
}

#[test]
fn wakers_of_a_sender_that_are_replaced_are_handed_out() {
    let (mut tx, _rx, mut inner) = channel(1);
    let (count, waker) = task();
    let (other, other_waker) = task();
    assert_eq!(kind(tx.try_send(&mut inner, 1)), "sent");
    assert_eq!(kind(tx.try_send(&mut inner, 2)), "sent");
    assert!(matches!(tx.poll_ready(&mut inner, &waker), Poll::Pending));
    assert!(inner.take_discarded().is_empty());
    assert!(matches!(tx.poll_ready(&mut inner, &other_waker), Poll::Pending));
    assert_eq!(kind(tx.try_send(&mut inner, 3)), "full");
    let discarded = inner.take_discarded();
    assert_eq!(discarded.len(), 2);
    assert!(discarded[0].will_wake(&waker));
    assert!(discarded[1].will_wake(&other_waker));
    // All that is left are the test's own references.
    drop((discarded, waker, other_waker));
    assert_eq!(Arc::strong_count(&count), 1);
    assert_eq!(Arc::strong_count(&other), 1);
    assert_eq!(wake_all(&mut inner), 0);
}

#[test]
fn each_wait_of_a_sender_has_a_wake_up_of_its_own() {
    let (mut tx, mut rx, mut inner) = channel(1);
    let (count, waker) = task();
    assert_eq!(kind(tx.try_send(&mut inner, 0)), "sent");
    for i in 1..4 {
        assert_eq!(kind(tx.try_send(&mut inner, i)), "sent");
        assert!(matches!(tx.poll_ready(&mut inner, &waker), Poll::Pending));
        assert_eq!(receive(&mut rx, &mut inner), Ok(i - 1));
        assert_eq!(wake_all(&mut inner), 1);
        assert_eq!(woken(&count), i);
        assert!(matches!(tx.poll_ready(&mut inner, &waker), Poll::Ready(Ok(()))));
    }
}

#[test]
fn each_wait_of_the_receiver_has_a_wake_up_of_its_own() {
    let (mut tx, mut rx, mut inner) = channel(1);
    let (count, waker) = task();
    for i in 1..4 {
        assert!(matches!(rx.poll_next(&mut inner, &waker), Poll::Pending));
        assert_eq!(kind(tx.try_send(&mut inner, i)), "sent");
        assert_eq!(wake_all(&mut inner), 1);
        assert_eq!(woken(&count), i);
        assert_eq!(receive(&mut rx, &mut inner), Ok(i));
    }
}

#[test]
fn wake_ups_of_a_closed_line_come_in_its_order() {
    let (mut tx, rx, mut inner) = channel(1);
    let mut other = tx.clone(&mut inner);
    let mut silent = tx.clone(&mut inner);
    let (_, waker) = task();
    let (_, other_waker) = task();
    assert_eq!(kind(tx.try_send(&mut inner, 1)), "sent");
    assert_eq!(kind(other.try_send(&mut inner, 2)), "sent");
    assert_eq!(kind(silent.try_send(&mut inner, 3)), "sent");
    assert_eq!(kind(tx.try_send(&mut inner, 4)), "sent");
    assert!(matches!(tx.poll_ready(&mut inner, &waker), Poll::Pending));
    assert!(matches!(other.poll_ready(&mut inner, &other_waker), Poll::Pending));
    rx.close(&mut inner);
    let due = inner.take_wakes();
    assert_eq!(due.len(), 2);
    assert!(due[0].will_wake(&other_waker));
    assert!(due[1].will_wake(&waker));
}

#[test]
fn a_receiver_that_has_let_go_has_received_everything() {
    let (mut tx, mut rx, mut inner) = channel(2);
    assert_eq!(kind(tx.try_send(&mut inner, 1)), "sent");
    assert_eq!(kind(tx.try_send(&mut inner, 2)), "sent");
    tx.channel_close(&mut inner);
    assert_eq!(kind(tx.try_send(&mut inner, 3)), "closed");
    assert_eq!(receive(&mut rx, &mut inner), Ok(1));
    assert_eq!(receive(&mut rx, &mut inner), Ok(2));
    assert_eq!(receive(&mut rx, &mut inner), Err("closed"));
    assert_eq!(inner.pop_message(), None);
}

#[test]
fn a_message_in_flight_is_left_behind_by_a_receiver_that_lets_go() {
    let (mut tx, mut rx, mut inner) = channel(2);
    let sender = tx.0.as_mut().unwrap();
    assert_eq!(sender.inc_num_msg(&mut inner), Some(1));
    rx.close(&mut inner);
    assert_eq!(receive(&mut rx, &mut inner), Err("closed"));
    sender.send_queue_and_wake(&mut inner, 7);
    assert_eq!(receive(&mut rx, &mut inner), Err("closed"));
    assert_eq!(inner.pop_message(), Some(7));
}
