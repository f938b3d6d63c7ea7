//! What each operation does to each part of a one-shot channel, and what it answers.

use super::view::OneshotView;
use super::RecvError;
use crate::poll::Poll;
use vstd::prelude::*;

verus! {

/// A new channel has both sides, no value, and nobody who waits.
pub proof fn new_channel_has_no_value<T>(waker: int)
    ensures
        ({
            let chan = OneshotView::<T>::initial();
            &&& !chan.complete
            &&& chan.data is None
            &&& !chan.data_locked
            &&& chan.rx_waker is None
            &&& !chan.waker_locked
            &&& chan.wakes.len() == 0
            &&& chan.discarded.len() == 0
            &&& chan.try_recv_step() == (chan, Ok::<Option<T>, RecvError>(None))
            &&& chan.recv_step(waker).1 == Poll::<Result<T, RecvError>>::Pending
        }),
{
}

/// A value is stored, or handed back: it is stored if and only if neither side is gone and the slot
/// is not locked. Nothing but the slot is touched.
pub proof fn value_is_stored_or_handed_back<T>(chan: OneshotView<T>, value: T)
    ensures
        chan.takes_value() <==> !chan.complete && !chan.data_locked,
        ({
            let (after, result) = chan.store_step(value);
            if !chan.complete && !chan.data_locked {
                &&& result == Ok::<(), T>(())
                &&& after.data == Some(value)
                &&& after == (OneshotView { data: after.data, ..chan })
            } else {
                &&& result == Err::<(), T>(value)
                &&& after == chan
            }
        }),
{
}

/// A value is taken back if and only if one side is gone and the value is there in a slot that is
/// not locked; the slot is empty then.
pub proof fn value_is_taken_back_from_a_gone_receiver<T>(chan: OneshotView<T>)
    ensures
        ({
            let (after, result) = chan.reclaim_step();
            if chan.complete && !chan.data_locked && chan.data is Some {
                &&& result == Err::<(), T>(chan.data->0)
                &&& after.data is None
                &&& after == (OneshotView { data: after.data, ..chan })
            } else {
                &&& result == Ok::<(), T>(())
                &&& after == chan
            }
        }),
{
}

/// When a side goes, the other one can tell. A sender that goes wakes whoever waits; a receiver that
/// goes gives the waker out unwoken. The value stays where it is.
pub proof fn going_ends_the_wait<T>(chan: OneshotView<T>)
    ensures
        ({
            let after = chan.sender_gone();
            &&& after.complete
            &&& after.rx_waker == if chan.waker_locked {
                chan.rx_waker
            } else {
                None
            }
            &&& after.wakes == if !chan.waker_locked && chan.rx_waker is Some {
                chan.wakes.push(chan.rx_waker->0)
            } else {
                chan.wakes
            }
            &&& after == (OneshotView {
                complete: true,
                rx_waker: after.rx_waker,
                wakes: after.wakes,
                ..chan
            })
        }),
        ({
            let after = chan.receiver_gone();
            &&& after.complete
            &&& after.rx_waker == if chan.waker_locked {
                chan.rx_waker
            } else {
                None
            }
            &&& after.discarded == if !chan.waker_locked && chan.rx_waker is Some {
                chan.discarded.push(chan.rx_waker->0)
            } else {
                chan.discarded
            }
            &&& after == (OneshotView {
                complete: true,
                rx_waker: after.rx_waker,
                discarded: after.discarded,
                ..chan
            })
        }),
{
}

/// As long as both sides are there, nothing is received. Once one is gone, the value is, if it is
/// there in a slot that is not locked, and the slot is empty then; else no value will come.
pub proof fn value_is_received_once_a_side_is_gone<T>(chan: OneshotView<T>, done: bool)
    ensures
        ({
            let (after, result) = chan.try_recv_step();
            if !chan.complete {
                &&& result == Ok::<Option<T>, RecvError>(None)
                &&& after == chan
            } else if !chan.data_locked && chan.data is Some {
                &&& result == Ok::<Option<T>, RecvError>(chan.data)
                &&& after.data is None
                &&& after == (OneshotView { data: after.data, ..chan })
            } else {
                &&& result == Err::<Option<T>, RecvError>(RecvError)
                &&& after == chan
            }
        }),
        ({
            let (after, poll) = chan.settle_step(done);
            if !chan.complete && !done {
                &&& poll == Poll::<Result<T, RecvError>>::Pending
                &&& after == chan
            } else if !chan.data_locked && chan.data is Some {
                &&& poll == Poll::Ready(Ok::<T, RecvError>(chan.data->0))
                &&& after.data is None
                &&& after == (OneshotView { data: after.data, ..chan })
            } else {
                &&& poll == Poll::Ready(Err::<T, RecvError>(RecvError))
                &&& after == chan
            }
        }),
{
}

/// A receiver leaves its waker to be woken, in place of another, if and only if both sides are there
/// and nobody is at the waker; then it is told to wait. Else it is answered at once, and the waker
/// that is there stays.
pub proof fn waiting_leaves_a_waker<T>(chan: OneshotView<T>, waker: int)
    ensures
        ({
            let (after, done) = chan.await_step(waker);
            let (polled, poll) = chan.recv_step(waker);
            if !chan.complete && !chan.waker_locked {
                &&& !done
                &&& after.rx_waker == Some(waker)
                &&& after.discarded == match chan.rx_waker {
                    Some(w) => chan.discarded.push(w),
                    None => chan.discarded,
                }
                &&& after == (OneshotView {
                    rx_waker: after.rx_waker,
                    discarded: after.discarded,
                    ..chan
                })
                &&& poll == Poll::<Result<T, RecvError>>::Pending
                &&& polled == after
            } else {
                &&& done
                &&& after == chan
                &&& polled == (OneshotView { data: polled.data, ..chan })
                &&& if !chan.data_locked && chan.data is Some {
                    &&& poll == Poll::Ready(Ok::<T, RecvError>(chan.data->0))
                    &&& polled.data is None
                } else {
                    &&& poll == Poll::Ready(Err::<T, RecvError>(RecvError))
                    &&& polled == chan
                }
            }
        }),
{
}

/// What is sent is what is received, once: a value that was sent while nobody was at the slot is the
/// next that the receiver gets, whether it waits or only tries, and the waker that it had left is
/// due. After that no value comes.
pub proof fn sent_value_is_received_once<T>(chan: OneshotView<T>, value: T, waker: int)
    requires
        !chan.complete,
        !chan.data_locked,
    ensures
        ({
            let (stored, result) = chan.store_step(value);
            let sent = stored.sender_gone();
            let (tried, got) = sent.try_recv_step();
            let (polled, poll) = sent.recv_step(waker);
            &&& result == Ok::<(), T>(())
            &&& got == Ok::<Option<T>, RecvError>(Some(value))
            &&& poll == Poll::Ready(Ok::<T, RecvError>(value))
            &&& chan.rx_waker is Some && !chan.waker_locked ==> sent.wakes == chan.wakes.push(
                chan.rx_waker->0,
            )
            &&& tried.try_recv_step().1 == Err::<Option<T>, RecvError>(RecvError)
            &&& tried.recv_step(waker).1 == Poll::Ready(Err::<T, RecvError>(RecvError))
            &&& polled.try_recv_step().1 == Err::<Option<T>, RecvError>(RecvError)
            &&& polled.recv_step(waker).1 == Poll::Ready(Err::<T, RecvError>(RecvError))
        }),
{
}

/// A sender gets its value back whenever the receiver went before, and if the receiver goes between
/// the halves of sending.
pub proof fn value_for_a_gone_receiver_comes_back<T>(chan: OneshotView<T>, value: T)
    requires
        !chan.data_locked,
    ensures
        chan.receiver_gone().store_step(value).1 == Err::<(), T>(value),
        !chan.complete ==> {
            let stored = chan.store_step(value).0;
            &&& stored.receiver_gone().reclaim_step().1 == Err::<(), T>(value)
            &&& stored.receiver_gone().reclaim_step().0.data is None
            &&& stored.reclaim_step() == (stored, Ok::<(), T>(()))
        },
{
}

} // verus!
