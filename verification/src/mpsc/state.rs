//! The state word of a channel: its highest bit says whether the channel is open, the others count
//! the messages.

use vstd::prelude::*;

verus! {

/// The bit that is set while the channel is open.
pub const OPEN_MASK: usize = usize::MAX - (usize::MAX >> 1);

/// The state word of a new channel.
pub const INIT_STATE: usize = OPEN_MASK;

/// The bits that count the messages.
pub const CAPACITY_MASK: usize = !(OPEN_MASK);

/// What a state word says.
#[derive(Debug)]
pub struct State {
    pub is_open: bool,
    pub num_msg: usize,
}

impl State {
    /// The word that stands for this state.
    pub open spec fn word(self) -> int {
        if self.is_open && self.num_msg < OPEN_MASK {
            self.num_msg + OPEN_MASK
        } else {
            self.num_msg as int
        }
    }

    /// What the word `num` says.
    pub open spec fn of_word(num: usize) -> State {
        if num >= OPEN_MASK {
            State { is_open: true, num_msg: (num - OPEN_MASK) as usize }
        } else {
            State { is_open: false, num_msg: num }
        }
    }

    /// Decoding gives back what was encoded, as long as the count leaves the highest bit free.
    pub proof fn decode_inverts_encode(self)
        requires
            self.num_msg < OPEN_MASK,
        ensures
            self.word() <= usize::MAX,
            State::of_word(self.word() as usize) == self,
    {
        State::lemma_masks(0);
    }

    /// Encoding what a word says gives back the word, and what it says leaves the highest bit free.
    pub proof fn encode_inverts_decode(num: usize)
        ensures
            State::of_word(num).word() == num,
            State::of_word(num).num_msg < OPEN_MASK,
    {
        State::lemma_masks(num);
    }

    /// A word says that the channel is open if and only if its highest bit is set, and its other
    /// bits are the count; a state is written in the same way.
    pub proof fn highest_bit_says_open(self, num: usize)
        ensures
            OPEN_MASK == usize::MAX / 2 + 1,
            CAPACITY_MASK == usize::MAX / 2,
            INIT_STATE == OPEN_MASK,
            State::of_word(num).is_open <==> num & OPEN_MASK == OPEN_MASK,
            State::of_word(num).num_msg == num & CAPACITY_MASK,
            self.is_open ==> self.word() == self.num_msg | OPEN_MASK,
            !self.is_open ==> self.word() == self.num_msg,
    {
        State::lemma_masks(num);
        State::lemma_masks(self.num_msg);
    }

    /// What the masks do to a word, in arithmetic.
    pub proof fn lemma_masks(num: usize)
        ensures
            OPEN_MASK > 0,
            OPEN_MASK - 1 == usize::MAX - OPEN_MASK,
            CAPACITY_MASK == OPEN_MASK - 1,
            num & OPEN_MASK == OPEN_MASK <==> num >= OPEN_MASK,
            num & CAPACITY_MASK == State::of_word(num).num_msg,
            num | OPEN_MASK == (State { is_open: true, num_msg: num }).word(),
    {
        let max: usize = usize::MAX;
        let open: usize = OPEN_MASK;
        let rest: usize = CAPACITY_MASK;
        assert(max <= !0usize) by (bit_vector);
        assert(rest == !open);
        assert(open == max - (max >> 1));
        assert({
            &&& open > 0
            &&& open - 1 == max - open
            &&& rest == open - 1
            &&& (num & open == open <==> num >= open)
            &&& num & rest == if num >= open {
                num - open
            } else {
                num as int
            }
            &&& num | open == if num < open {
                num + open
            } else {
                num as int
            }
        }) by (bit_vector)
            requires
                max == !0usize,
                open == max - (max >> 1),
                rest == !open,
        ;
    }
}

pub fn encode_state(state: &State) -> (num: usize)
    ensures
        num == state.word(),
{
    let mut num: usize = state.num_msg;
    if state.is_open {
        proof {
            State::lemma_masks(num);
        }
        num = num | OPEN_MASK;
    }
    num
}

pub fn decode_state(num: usize) -> (state: State)
    ensures
        state == State::of_word(num),
{
    proof {
        State::lemma_masks(num);
    }
    State { is_open: num & OPEN_MASK == OPEN_MASK, num_msg: num & CAPACITY_MASK }
}

} // verus!
