//! Channels for asynchronous tasks: a bounded one for many senders, and one for a single value.
//!
//! The two sides of a channel hold handles. What they share is a value of its own, which every
//! operation takes by mutable reference: an operation has the shared part to itself, and tasks that
//! run at the same time keep it behind a mutex. The wakers that fall due are collected in the shared
//! part, to be woken once the mutex is free.

pub mod lock;
pub mod mpsc;
pub mod oneshot;
pub mod poll;
pub mod wake;
