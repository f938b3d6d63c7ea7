//! A linked queue for many producers and one consumer.
//!
//! The nodes form a chain from `tail` to `head`. The node at `tail` is a stub without a value; each
//! later node holds one value. A push has two steps: it first makes its node the new `head`, and
//! then stores the link from the previous head to that node. Between the two steps the chain has
//! a gap, and a consumer that reaches the gap learns that the queue is neither empty nor readable.

use vstd::prelude::*;

verus! {

/// How often a consumer retries at once before it yields its thread.
pub const MAX_SPIN_TIME: usize = 32;

/// One node of the chain: the index of the node after it, once linked, and its value.
struct Node<T> {
    next: Option<usize>,
    value: Option<T>,
}

/// What one attempt to pop gives.
pub enum PopResult<T> {
    /// The oldest value.
    Value(T),
    /// Nothing has been pushed that was not popped.
    Empty,
    /// The oldest value is behind a link that its producer has yet to store.
    Inconsistent,
}

/// What a consumer does after one attempt to pop.
pub enum SpinStep<T> {
    /// The attempt settled what the queue holds at its front.
    Done(Option<T>),
    /// Try again at once.
    Spin,
    /// Yield the thread, then try again.
    Yield,
}

/// A consumer that pops until the queue is consistent, and how often it has retried at once.
pub struct PopSpin {
    spin_times: usize,
}

/// The second half of a push: the link from `prev` to `node` is still to be stored.
pub struct PendingLink {
    prev: usize,
    node: usize,
}

/// A linked queue whose nodes live in one arena.
pub struct Queue<T> {
    nodes: Vec<Node<T>>,
    free: Vec<usize>,
    head: usize,
    tail: usize,
    chain: Ghost<Seq<usize>>,
}

impl<T> Node<T> {
    fn new(value: Option<T>) -> (node: Self)
        ensures
            node.next is None,
            node.value == value,
    {
        Node { next: None, value }
    }
}

impl<T> View for Queue<T> {
    type V = Seq<T>;

    /// The values from the oldest to the newest, whether their links are stored or not.
    closed spec fn view(&self) -> Seq<T> {
        Seq::new(
            (self.chain@.len() - 1) as nat,
            |i: int| self.nodes@[self.chain@[i + 1] as int].value->0,
        )
    }
}

impl<T> Queue<T> {
    /// For each value, whether the link to its node is stored.
    pub closed spec fn linked(&self) -> Seq<bool> {
        Seq::new(
            (self.chain@.len() - 1) as nat,
            |i: int| self.nodes@[self.chain@[i] as int].next is Some,
        )
    }

    /// Every started push is finished.
    pub open spec fn settled(&self) -> bool {
        forall|i: int| 0 <= i < self.linked().len() ==> #[trigger] self.linked()[i]
    }

    /// `link` is the missing link to the value at `i`.
    pub closed spec fn awaits(&self, link: PendingLink, i: int) -> bool {
        &&& 0 <= i < self.chain@.len() - 1
        &&& self.chain@[i] == link.prev
        &&& self.chain@[i + 1] == link.node
        &&& self.nodes@[link.prev as int].next is None
    }

    /// The number of nodes that the queue holds memory for.
    pub closed spec fn footprint(&self) -> nat {
        self.nodes@.len()
    }

    /// The number of nodes in that memory that are free for use by later pushes.
    pub closed spec fn spare(&self) -> nat {
        self.free@.len()
    }

    spec fn chain_wf(&self) -> bool {
        let chain = self.chain@;
        &&& chain.len() >= 1
        &&& chain[0] == self.tail
        &&& chain.last() == self.head
        &&& chain.no_duplicates()
        &&& forall|i: int| 0 <= i < chain.len() ==> (#[trigger] chain[i]) < self.nodes@.len()
        &&& forall|i: int|
            0 <= i < chain.len() ==> (self.nodes@[#[trigger] chain[i] as int].value is Some <==> i
                > 0)
        &&& forall|i: int|
            0 <= i < chain.len() ==> match self.nodes@[#[trigger] chain[i] as int].next {
                None => true,
                Some(next) => i + 1 < chain.len() && next == chain[i + 1],
            }
    }

    spec fn free_wf(&self) -> bool {
        let free = self.free@;
        &&& free.no_duplicates()
        &&& forall|j: int| 0 <= j < free.len() ==> (#[trigger] free[j]) < self.nodes@.len()
        &&& forall|i: int, j: int|
            0 <= i < self.chain@.len() && 0 <= j < free.len() ==> #[trigger] self.chain@[i]
                != #[trigger] free[j]
    }

    /// The invariant of the queue: the chain runs from `tail` to `head` through nodes with values,
    /// and each node is either in the chain or free.
    pub closed spec fn wf(&self) -> bool {
        &&& self.chain_wf()
        &&& self.free_wf()
        &&& self.nodes@.len() == self.chain@.len() + self.free@.len()
    }

    pub fn new() -> (queue: Self)
        ensures
            queue.wf(),
            queue@ == Seq::<T>::empty(),
            queue.linked() == Seq::<bool>::empty(),
            queue.footprint() == 1,
            queue.spare() == 0,
    {
        let mut nodes: Vec<Node<T>> = Vec::new();
        nodes.push(Node::new(None));
        let ghost chain = seq![0usize];
        let queue = Queue { nodes, free: Vec::new(), head: 0, tail: 0, chain: Ghost(chain) };
        assert(queue@ =~= Seq::<T>::empty());
        queue
    }

    /// Puts `value` into a node of its own, which is in no chain yet.
    fn new_node(&mut self, value: T) -> (node: usize)
        requires
            old(self).wf(),
        ensures
            final(self).chain_wf(),
            final(self).free_wf(),
            final(self).nodes@.len() == final(self).chain@.len() + final(self).free@.len() + 1,
            final(self).chain@ == old(self).chain@,
            final(self).head == old(self).head,
            final(self).tail == old(self).tail,
            node < final(self).nodes@.len(),
            !final(self).chain@.contains(node),
            !final(self).free@.contains(node),
            final(self).nodes@[node as int] == (Node { next: None, value: Some(value) }),
            forall|k: int|
                0 <= k < old(self).nodes@.len() && k != node ==> #[trigger] final(self).nodes@[k]
                    == old(self).nodes@[k],
            old(self).nodes@.len() <= final(self).nodes@.len(),
            final(self).nodes@.len() == if old(self).free@.len() > 0 {
                old(self).nodes@.len()
            } else {
                old(self).nodes@.len() + 1
            },
            final(self).free@.len() == if old(self).free@.len() > 0 {
                old(self).free@.len() - 1
            } else {
                0
            },
    {
        match self.free.pop() {
            Some(node) => {
                proof {
                    let free = old(self).free@;
                    assert(node == free.last());
                    assert(self.free@ =~= free.drop_last());
                    assert(!self.chain@.contains(node)) by {
                        if self.chain@.contains(node) {
                            let i = self.chain@.index_of(node);
                            assert(self.chain@[i] != free[free.len() - 1]);
                        }
                    }
                }
                self.nodes.set(node, Node::new(Some(value)));
                node
            },
            None => {
                let node = self.nodes.len();
                self.nodes.push(Node::new(Some(value)));
                node
            },
        }
    }

    /// The first half of a push: `value` becomes the newest value, with its link missing.
    pub fn swap_head(&mut self, value: T) -> (link: PendingLink)
        requires
            old(self).wf(),
        ensures
            final(self).wf(),
            final(self)@ == old(self)@.push(value),
            final(self).linked() == old(self).linked().push(false),
            final(self).awaits(link, old(self)@.len() as int),
            forall|other: PendingLink, i: int| #[trigger]
                old(self).awaits(other, i) ==> final(self).awaits(other, i),
            final(self).footprint() == if old(self).spare() > 0 {
                old(self).footprint()
            } else {
                old(self).footprint() + 1
            },
            final(self).spare() == if old(self).spare() > 0 {
                old(self).spare() - 1
            } else {
                0
            },
    {
        let node: usize = self.new_node(value);
        let prev: usize = self.head;
        self.head = node;
        self.chain = Ghost(self.chain@.push(node));
        proof {
            let before = old(self).chain@;
            assert(before.len() >= 1);
            assert(self.nodes@[before.last() as int].next is None);
            assert forall|i: int| 0 <= i < before.len() implies self.nodes@[#[trigger] before[i] as int]
                == old(self).nodes@[before[i] as int] by {
                assert(before.contains(before[i]));
            }
            assert(self.chain@.no_duplicates());
            assert forall|i: int, j: int|
                0 <= i < self.chain@.len() && 0 <= j < self.free@.len() implies #[trigger] self.chain@[i]
                != #[trigger] self.free@[j] by {
                if i == before.len() {
                    assert(self.free@.contains(self.free@[j]));
                }
            }
            assert(self@ =~= old(self)@.push(value));
            assert(self.linked() =~= old(self).linked().push(false));
        }
        PendingLink { prev, node }
    }

    /// The second half of a push: stores the missing link.
    pub fn link(&mut self, link: PendingLink)
        requires
            old(self).wf(),
            exists|i: int| old(self).awaits(link, i),
        ensures
            final(self).wf(),
            final(self)@ == old(self)@,
            forall|i: int| #[trigger]
                old(self).awaits(link, i) ==> final(self).linked() == old(self).linked().update(
                    i,
                    true,
                ),
            forall|other: PendingLink, i: int| #[trigger]
                old(self).awaits(other, i) && other != link ==> final(self).awaits(other, i),
            final(self).footprint() == old(self).footprint(),
            final(self).spare() == old(self).spare(),
    {
        let ghost at = choose|i: int| old(self).awaits(link, i);
        proof {
            assert(old(self).awaits(link, at));
        }
        self.nodes[link.prev].next = Some(link.node);
        proof {
            let chain = self.chain@;
            assert forall|i: int| 0 <= i < chain.len() && i != at implies self.nodes@[#[trigger] chain[i] as int]
                == old(self).nodes@[chain[i] as int] by {
                assert(chain[i] != chain[at]);
            }
            assert(self@ =~= old(self)@);
            assert(self.linked() =~= old(self).linked().update(at, true));
            assert forall|i: int| #[trigger] old(self).awaits(link, i) implies i == at by {
                assert(chain[i] == chain[at]);
            }
        }
    }

    /// Appends `value`.
    pub fn push(&mut self, value: T)
        requires
            old(self).wf(),
        ensures
            final(self).wf(),
            final(self)@ == old(self)@.push(value),
            final(self).linked() == old(self).linked().push(true),
            forall|other: PendingLink, i: int| #[trigger]
                old(self).awaits(other, i) ==> final(self).awaits(other, i),
            final(self).footprint() == if old(self).spare() > 0 {
                old(self).footprint()
            } else {
                old(self).footprint() + 1
            },
            final(self).spare() == if old(self).spare() > 0 {
                old(self).spare() - 1
            } else {
                0
            },
    {
        let link = self.swap_head(value);
        proof {
            assert(self.awaits(link, old(self)@.len() as int));
        }
        self.link(link);
        proof {
            assert(self.linked() =~= old(self).linked().push(true));
        }
    }

    /// One attempt to take the oldest value.
    pub fn pop(&mut self) -> (result: PopResult<T>)
        requires
            old(self).wf(),
        ensures
            final(self).wf(),
            final(self).footprint() == old(self).footprint(),
            match result {
                PopResult::Value(value) => {
                    &&& old(self)@.len() > 0
                    &&& old(self).linked()[0]
                    &&& value == old(self)@[0]
                    &&& final(self)@ == old(self)@.drop_first()
                    &&& final(self).linked() == old(self).linked().drop_first()
                    &&& forall|link: PendingLink, i: int| #[trigger]
                        old(self).awaits(link, i) ==> final(self).awaits(link, i - 1)
                    &&& final(self).spare() == old(self).spare() + 1
                },
                PopResult::Empty => old(self)@.len() == 0 && *final(self) == *old(self),
                PopResult::Inconsistent => {
                    &&& old(self)@.len() > 0
                    &&& !old(self).linked()[0]
                    &&& *final(self) == *old(self)
                },
            },
    {
        let tail: usize = self.tail;
        proof {
            assert(self.chain@[0] == tail);
        }
        match self.nodes[tail].next {
            Some(next) => {
                self.tail = next;
                let value = self.nodes[next].value.take();
                self.free.push(tail);
                self.chain = Ghost(self.chain@.drop_first());
                proof {
                    let before = old(self).chain@;
                    assert(before[1] == next);
                    assert forall|i: int| 2 <= i < before.len() implies self.nodes@[#[trigger] before[i] as int]
                        == old(self).nodes@[before[i] as int] by {
                        assert(before[i] != before[1]);
                    }
                    assert forall|i: int| 0 <= i < self.chain@.len() implies #[trigger] self.chain@[i]
                        == before[i + 1] by {}
                    assert(self.chain@.no_duplicates());
                    assert forall|j: int| 0 <= j < self.free@.len() - 1 implies #[trigger] self.free@[j]
                        == old(self).free@[j] && self.free@[j] != tail by {
                        assert(before[0] != old(self).free@[j]);
                    }
                    assert(self.free@.no_duplicates());
                    assert(self@ =~= old(self)@.drop_first());
                    assert(self.linked() =~= old(self).linked().drop_first());
                    assert forall|link: PendingLink, i: int| #[trigger]
                        old(self).awaits(link, i) implies self.awaits(link, i - 1) by {
                        assert(i > 0);
                        assert(self.chain@[i - 1] == before[i]);
                        assert(self.chain@[i] == before[i + 1]);
                    }
                }
                PopResult::Value(value.unwrap())
            },
            None => {
                if self.head == tail {
                    proof {
                        let last = self.chain@.len() - 1;
                        assert(self.chain@[last] == self.chain@[0]);
                    }
                    PopResult::Empty
                } else {
                    PopResult::Inconsistent
                }
            },
        }
    }

    /// Takes the oldest value of a queue whose front is consistent.
    pub fn pop_spin(&mut self) -> (result: Option<T>)
        requires
            old(self).wf(),
            old(self)@.len() > 0 ==> old(self).linked()[0],
        ensures
            final(self).wf(),
            final(self).footprint() == old(self).footprint(),
            match result {
                Some(value) => {
                    &&& final(self).spare() == old(self).spare() + 1
                    &&& old(self)@.len() > 0
                    &&& value == old(self)@[0]
                    &&& final(self)@ == old(self)@.drop_first()
                    &&& final(self).linked() == old(self).linked().drop_first()
                    &&& forall|link: PendingLink, i: int| #[trigger]
                        old(self).awaits(link, i) ==> final(self).awaits(link, i - 1)
                },
                None => old(self)@.len() == 0 && *final(self) == *old(self),
            },
    {
        let mut spin = PopSpin::new();
        loop
            invariant
                *self == *old(self),
                self.wf(),
                self@.len() > 0 ==> self.linked()[0],
            decreases 0nat,
        {
            match spin.step(self) {
                SpinStep::Done(result) => {
                    return result;
                },
                SpinStep::Spin | SpinStep::Yield => {},
            }
        }
    }
}

impl PopSpin {
    /// How often the consumer has retried at once.
    pub closed spec fn spins(&self) -> nat {
        self.spin_times as nat
    }

    pub fn new() -> (spin: Self)
        ensures
            spin.spins() == 0,
    {
        PopSpin { spin_times: 0 }
    }

    /// One attempt to pop, and what to do after it.
    pub fn step<T>(&mut self, queue: &mut Queue<T>) -> (step: SpinStep<T>)
        requires
            old(queue).wf(),
        ensures
            final(queue).wf(),
            final(queue).footprint() == old(queue).footprint(),
            match step {
                SpinStep::Done(Some(value)) => {
                    &&& final(queue).spare() == old(queue).spare() + 1
                    &&& old(queue)@.len() > 0
                    &&& old(queue).linked()[0]
                    &&& value == old(queue)@[0]
                    &&& final(queue)@ == old(queue)@.drop_first()
                    &&& final(queue).linked() == old(queue).linked().drop_first()
                    &&& forall|link: PendingLink, i: int| #[trigger]
                        old(queue).awaits(link, i) ==> final(queue).awaits(link, i - 1)
                    &&& *final(self) == *old(self)
                },
                SpinStep::Done(None) => {
                    &&& old(queue)@.len() == 0
                    &&& *final(queue) == *old(queue)
                    &&& *final(self) == *old(self)
                },
                SpinStep::Spin => {
                    &&& old(queue)@.len() > 0
                    &&& !old(queue).linked()[0]
                    &&& *final(queue) == *old(queue)
                    &&& old(self).spins() <= MAX_SPIN_TIME
                    &&& final(self).spins() == old(self).spins() + 1
                },
                SpinStep::Yield => {
                    &&& old(queue)@.len() > 0
                    &&& !old(queue).linked()[0]
                    &&& *final(queue) == *old(queue)
                    &&& old(self).spins() > MAX_SPIN_TIME
                    &&& *final(self) == *old(self)
                },
            },
    {
        match queue.pop() {
            PopResult::Value(value) => SpinStep::Done(Some(value)),
            PopResult::Empty => SpinStep::Done(None),
            PopResult::Inconsistent => {
                if self.spin_times > MAX_SPIN_TIME {
                    SpinStep::Yield
                } else {
                    self.spin_times = self.spin_times + 1;
                    SpinStep::Spin
                }
            },
        }
    }
}

/// A consumer that finds the front of the queue inconsistent retries at once thirty-three times, and
/// yields from then on.
pub proof fn consumer_retries_before_it_yields(spins: nat)
    ensures
        spins <= MAX_SPIN_TIME <==> spins < 33,
{
}

/// A queue holds memory for its values, for one stub and for the spare nodes, and for nothing
/// else: what a pop takes out, later pushes use again.
pub proof fn queue_keeps_no_other_memory<T>(queue: Queue<T>)
    requires
        queue.wf(),
    ensures
        queue.footprint() == queue@.len() + 1 + queue.spare(),
{
}

/// As many values as links are told of.
pub proof fn queue_links_match_values<T>(queue: Queue<T>)
    ensures
        queue.linked().len() == queue@.len(),
{
}

} // verus!
