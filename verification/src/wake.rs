//! Wakers, and the lists of wake-ups that an operation owes.

use futures::task::AtomicWaker;
use std::task::Waker;
use vstd::prelude::*;

verus! {

/// A handle that wakes a task; opaque.
#[verifier::external_type_specification]
#[verifier::external_body]
pub struct ExWaker(std::task::Waker);

/// A cell that holds at most one waker; opaque.
#[verifier::external_type_specification]
#[verifier::external_body]
pub struct ExAtomicWaker(futures::task::AtomicWaker);

/// The task that a waker wakes.
pub uninterp spec fn task_of(waker: Waker) -> int;

/// The task whose waker the cell holds, if it holds one.
pub uninterp spec fn registered_task(cell: AtomicWaker) -> Option<int>;

/// `<Waker as Clone>::clone`: the clone wakes the task that `waker` wakes.
#[verifier::external_body]
pub(crate) fn clone_waker(waker: &Waker) -> (clone: Waker)
    ensures
        task_of(clone) == task_of(*waker),
{
    waker.clone()
}

/// `AtomicWaker::new`: the cell starts out empty.
#[verifier::external_body]
pub(crate) fn new_cell() -> (cell: AtomicWaker)
    ensures
        registered_task(cell) is None,
{
    AtomicWaker::new()
}

/// `AtomicWaker::register`, with no other user of the cell: afterwards the cell holds a waker for
/// the task of `waker`, in place of what it held.
#[verifier::external_body]
pub(crate) fn register(cell: &mut AtomicWaker, waker: &Waker)
    ensures
        registered_task(*final(cell)) == Some(task_of(*waker)),
{
    cell.register(waker)
}

/// `AtomicWaker::take`, with no other user of the cell: hands out the waker that the cell held and
/// leaves the cell empty.
#[verifier::external_body]
pub(crate) fn take(cell: &mut AtomicWaker) -> (waker: Option<Waker>)
    ensures
        registered_task(*final(cell)) is None,
        match waker {
            Some(w) => registered_task(*old(cell)) == Some(task_of(w)),
            None => registered_task(*old(cell)) is None,
        },
{
    cell.take()
}

/// The tasks that `wakers` wake, in order.
pub open spec fn tasks_of(wakers: Seq<Waker>) -> Seq<int> {
    Seq::new(wakers.len(), |i: int| task_of(wakers[i]))
}

/// The task of a waker that may be missing.
pub open spec fn task_of_opt(waker: Option<Waker>) -> Option<int> {
    match waker {
        Some(w) => Some(task_of(w)),
        None => None,
    }
}

/// There is one task for each waker, and it is the one that the waker wakes.
pub proof fn each_waker_has_its_task(wakers: Seq<Waker>, waker: Waker)
    ensures
        tasks_of(wakers).len() == wakers.len(),
        forall|i: int|
            0 <= i < wakers.len() ==> #[trigger] tasks_of(wakers)[i] == task_of(wakers[i]),
        task_of_opt(Some(waker)) == Some(task_of(waker)),
        task_of_opt(None) is None,
{
}

/// Wakers that are to be handed out, in the order in which they were added.
pub struct WakeList {
    wakers: Vec<Waker>,
}

impl View for WakeList {
    type V = Seq<int>;

    /// The tasks of the wakers.
    closed spec fn view(&self) -> Seq<int> {
        tasks_of(self.wakers@)
    }
}

impl WakeList {
    pub fn new() -> (list: Self)
        ensures
            list@ == Seq::<int>::empty(),
    {
        let list = WakeList { wakers: Vec::new() };
        assert(list@ =~= Seq::<int>::empty());
        list
    }

    /// Adds the waker, if there is one.
    pub fn add(&mut self, waker: Option<Waker>)
        ensures
            final(self)@ == match waker {
                Some(w) => old(self)@.push(task_of(w)),
                None => old(self)@,
            },
    {
        if let Some(w) = waker {
            self.wakers.push(w);
            assert(self@ =~= old(self)@.push(task_of(w)));
        }
    }

    /// Hands out all wakers.
    pub fn take_all(&mut self) -> (due: Vec<Waker>)
        ensures
            tasks_of(due@) == old(self)@,
            final(self)@ == Seq::<int>::empty(),
    {
        let mut due: Vec<Waker> = Vec::new();
        std::mem::swap(&mut due, &mut self.wakers);
        assert(self@ =~= Seq::<int>::empty());
        due
    }
}

} // verus!
