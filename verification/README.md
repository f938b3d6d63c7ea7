# my_channel

Two channels for asynchronous tasks, verified with Verus:

- `mpsc`: a bounded channel for many senders and one receiver. Messages beyond the buffer park their
  senders until the receiver has taken a message on their behalf.
- `oneshot`: a channel for one value.

Each operation takes what the two sides share (`mpsc::BoundedInner`, `oneshot::Inner`) by mutable
reference, so it runs with nobody in between; its contract says what it makes of the model in
`view.rs`. Operations do not wake anybody themselves: the wakers that fall due are collected in the
shared part, and `take_wakes` hands them out. So are the wakers that others have replaced, which
`take_discarded` hands out: dropping a waker may run anything.

- `src/mpsc/queue.rs`: the linked queue, with the two halves of a push.
- `src/mpsc/state.rs`: the state word.
- `src/mpsc/inner.rs`, `sender.rs`, `receiver.rs`: the bounded channel.
- `src/mpsc/protocol.rs`, `laws.rs`: what holds in every state that senders and receiver can reach,
  with their steps in any order.
- `src/oneshot/`: the one-shot channel, laid out in the same way.
- `src/wake.rs`: wakers, and all that is taken on trust: `std::task::Waker` and
  `futures::task::AtomicWaker`.
- `app/`: the channels behind a mutex, as futures and as a stream, and two small programs.
