use my_channel::lock::Lock;
use my_channel::oneshot::{channel, Inner, Receiver, RecvError, Sender};
use my_channel::poll::Poll;
use std::sync::atomic::{AtomicUsize, Ordering};
use std::sync::Arc;
use std::task::{Wake, Waker};

struct Count(AtomicUsize);

impl Wake for Count {
    fn wake(self: Arc<Self>) {
        self.0.fetch_add(1, Ordering::SeqCst);
    }
}

fn task() -> (Arc<Count>, Waker) {
    let count = Arc::new(Count(AtomicUsize::new(0)));
    let waker = Waker::from(count.clone());
    (count, waker)
}

fn wake_all<T>(inner: &mut Inner<T>) -> usize {
    let due = inner.take_wakes();
    let n = due.len();
    for waker in due {
        waker.wake();
    }
    n
}

#[test]
fn a_lock_is_locked_once() {
    let mut lock = Lock::new(1);
    assert!(lock.try_lock());
    assert!(!lock.try_lock());
    lock.data = 2;
    lock.unlock();
    assert!(lock.try_lock());
    assert_eq!(lock.data, 2);
}

#[test]
fn the_value_is_received() {
    let (tx, mut rx, mut inner) = channel();
    let (_, waker) = task();
    assert_eq!(tx.send(&mut inner, 1), Ok(()));
    assert!(matches!(rx.poll(&mut inner, &waker), Poll::Ready(Ok(1))));
    assert!(matches!(rx.poll(&mut inner, &waker), Poll::Ready(Err(RecvError))));
    assert!(matches!(rx.try_recv(&mut inner), Err(RecvError)));
}

#[test]
fn the_value_is_received_by_trying() {
    let (tx, rx, mut inner) = channel();
    assert!(matches!(rx.try_recv(&mut inner), Ok(None)));
    assert_eq!(tx.send(&mut inner, 'v'), Ok(()));
    assert!(matches!(rx.try_recv(&mut inner), Ok(Some('v'))));
    assert!(matches!(rx.try_recv(&mut inner), Err(RecvError)));
}

#[test]
fn a_waiting_receiver_is_woken_by_the_value() {
    let (tx, mut rx, mut inner) = channel();
    let (count, waker) = task();
    assert!(matches!(rx.poll(&mut inner, &waker), Poll::Pending));
    assert_eq!(wake_all(&mut inner), 0);
    assert_eq!(tx.send(&mut inner, 3), Ok(()));
    assert_eq!(wake_all(&mut inner), 1);
    assert_eq!(count.0.load(Ordering::SeqCst), 1);
    assert!(matches!(rx.poll(&mut inner, &waker), Poll::Ready(Ok(3))));
}

#[test]
fn a_waiting_receiver_is_woken_when_no_value_will_come() {
    let (tx, mut rx, mut inner): (Sender<u8>, Receiver<u8>, Inner<u8>) = channel();
    let (count, waker) = task();
    assert!(matches!(rx.poll(&mut inner, &waker), Poll::Pending));
    tx.drop(&mut inner);
    assert_eq!(wake_all(&mut inner), 1);
    assert_eq!(count.0.load(Ordering::SeqCst), 1);
    assert!(matches!(rx.poll(&mut inner, &waker), Poll::Ready(Err(RecvError))));
}

#[test]
fn the_value_comes_back_from_a_receiver_that_is_gone() {
    let (tx, mut rx, mut inner) = channel();
    let (count, waker) = task();
    assert!(matches!(rx.poll(&mut inner, &waker), Poll::Pending));
    rx.drop(&mut inner);
    assert_eq!(tx.send(&mut inner, "back"), Err("back"));
    assert_eq!(wake_all(&mut inner), 0);
    assert_eq!(count.0.load(Ordering::SeqCst), 0);
}

#[test]
fn the_value_is_taken_back_if_the_receiver_goes_meanwhile() {
    let (_tx, rx, mut inner) = channel();
    assert_eq!(inner.store(8), Ok(()));
    rx.drop(&mut inner);
    assert_eq!(inner.reclaim(), Err(8));
    assert_eq!(inner.reclaim(), Ok(()));
}

#[test]
fn the_value_is_not_there_before_the_sender_is_gone() {
    let (tx, mut rx, mut inner) = channel();
    let (_, waker) = task();
    assert_eq!(inner.store(8), Ok(()));
    assert!(matches!(rx.try_recv(&mut inner), Ok(None)));
    assert!(matches!(rx.poll(&mut inner, &waker), Poll::Pending));
    assert_eq!(inner.reclaim(), Ok(()));
    tx.drop(&mut inner);
    assert!(matches!(rx.poll(&mut inner, &waker), Poll::Ready(Ok(8))));
}

#[test]
fn a_sender_that_goes_between_the_halves_of_a_wait_is_noticed() {
    let (tx, _rx, mut inner) = channel();
    let (_, waker) = task();
    assert!(!inner.register(&waker));
    assert_eq!(tx.send(&mut inner, 6), Ok(()));
    assert_eq!(wake_all(&mut inner), 1);
    assert!(matches!(inner.settle(false), Poll::Ready(Ok(6))));
}

#[test]
fn a_locked_slot_gives_nothing_and_takes_nothing() {
    let mut inner = Inner::new();
    let (_, waker) = task();
    assert!(inner.data.try_lock());
    assert_eq!(inner.send(4), Err(4));
    inner.data.unlock();
    assert_eq!(inner.send(4), Ok(()));
    inner.drop_tx();
    assert!(inner.data.try_lock());
    assert!(matches!(inner.try_recv(), Err(RecvError)));
    assert!(matches!(inner.recv(&waker), Poll::Ready(Err(RecvError))));
    assert_eq!(inner.reclaim(), Ok(()));
    inner.data.unlock();
    assert!(matches!(inner.try_recv(), Ok(Some(4))));
}

#[test]
fn a_locked_waker_ends_the_wait() {
    let mut inner: Inner<u8> = Inner::new();
    let (count, waker) = task();
    assert!(matches!(inner.recv(&waker), Poll::Pending));
    assert!(inner.rx_waker.try_lock());
    assert!(matches!(inner.recv(&waker), Poll::Ready(Err(RecvError))));
    inner.drop_tx();
    assert_eq!(wake_all(&mut inner), 0);
    inner.drop_rx();
    inner.rx_waker.unlock();
    assert!(inner.rx_waker.data.is_some());
    assert_eq!(count.0.load(Ordering::SeqCst), 0);
}

#[test]
fn a_waker_that_is_replaced_is_handed_out() {
    let (tx, mut rx, mut inner) = channel();
    let (first, first_waker) = task();
    let (second, second_waker) = task();
    assert!(matches!(rx.poll(&mut inner, &first_waker), Poll::Pending));
    assert!(inner.take_discarded().is_empty());
    assert!(matches!(rx.poll(&mut inner, &second_waker), Poll::Pending));
    let discarded = inner.take_discarded();
    assert_eq!(discarded.len(), 1);
    assert!(discarded[0].will_wake(&first_waker));
    assert_eq!(tx.send(&mut inner, 3), Ok(()));
    assert!(inner.take_discarded().is_empty());
    assert_eq!(wake_all(&mut inner), 1);
    assert_eq!(first.0.load(Ordering::SeqCst), 0);
    assert_eq!(second.0.load(Ordering::SeqCst), 1);
}

#[test]
fn the_waker_of_a_receiver_that_goes_is_handed_out() {
    let (_tx, mut rx, mut inner): (Sender<u8>, Receiver<u8>, Inner<u8>) = channel();
    let (count, waker) = task();
    assert!(matches!(rx.poll(&mut inner, &waker), Poll::Pending));
    rx.drop(&mut inner);
    let discarded = inner.take_discarded();
    assert_eq!(discarded.len(), 1);
    assert!(discarded[0].will_wake(&waker));
    drop((discarded, waker));
    assert_eq!(Arc::strong_count(&count), 1);
    assert_eq!(wake_all(&mut inner), 0);
}
