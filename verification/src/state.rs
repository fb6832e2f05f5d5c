//! An append-only log of the messages a session has received.

use vstd::prelude::*;

use crate::messages::{Message, MsgM};

verus! {

/// The session state: every message received so far, oldest first.
pub struct State {
    messages: Vec<Message>,
}

impl View for State {
    type V = Seq<MsgM>;

    closed spec fn view(&self) -> Seq<MsgM> {
        self.messages.deep_view()
    }
}

impl State {
    /// An empty log.
    pub fn new() -> (r: State)
        ensures
            r@ == Seq::<MsgM>::empty(),
    {
        let r = State { messages: Vec::new() };
        proof {
            assert(r@ =~= Seq::<MsgM>::empty());
        }
        r
    }

    /// Appends one received message to the log.
    pub fn push(&mut self, m: Message)
        ensures
            final(self)@ == old(self)@.push(m@),
    {
        let ghost before = self.messages.deep_view();
        self.messages.push(m);
        proof {
            assert(self.messages.deep_view() =~= before.push(self.messages@.last()@));
        }
    }

    /// How many messages the log holds.
    pub fn len(&self) -> (n: usize)
        ensures
            n == self@.len(),
    {
        self.messages.len()
    }

    /// The message at position `i`, oldest first.
    pub fn get(&self, i: usize) -> (m: &Message)
        requires
            i < self@.len(),
        ensures
            m@ == self@[i as int],
    {
        &self.messages[i]
    }
}

} // verus!
