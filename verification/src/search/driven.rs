//! Directed search: candidates handed in from outside, in order.
use vstd::prelude::*;

use std::collections::VecDeque;

use crate::instruction::InstructionBytes;
use crate::search::strategy::{SearchMode, SearchStrategy};

verus! {

#[derive(Clone, Debug)]
pub struct DrivenStrategy {
    queue: VecDeque<InstructionBytes>,
}

impl View for DrivenStrategy {
    type V = Seq<InstructionBytes>;

    closed spec fn view(&self) -> Seq<InstructionBytes> {
        self.queue@
    }
}

impl DrivenStrategy {
    pub fn new(queue: VecDeque<InstructionBytes>) -> (r: Self)
        ensures
            r@ == queue@,
    {
        Self { queue }
    }

    /// The candidates left, in order.
    pub fn next_candidate(&mut self) -> (r: Option<InstructionBytes>)
        ensures
            old(self)@.len() == 0 ==> r is None && final(self)@ == old(self)@,
            old(self)@.len() > 0 ==> r == Some(old(self)@[0]) && final(self)@ == old(self)@.drop_first(),
    {
        let r = self.queue.pop_front();
        proof {
            if old(self)@.len() > 0 {
                assert(old(self)@.subrange(1, old(self)@.len() as int) =~= old(self)@.drop_first());
            }
        }
        r
    }
}

impl Default for DrivenStrategy {
    fn default() -> (r: Self)
        ensures
            r@ == Seq::<InstructionBytes>::empty(),
    {
        Self { queue: VecDeque::new() }
    }
}

impl SearchStrategy for DrivenStrategy {
    open spec fn strategy_inv(&self) -> bool {
        true
    }

    fn mode(&self) -> (r: SearchMode)
        ensures
            r == SearchMode::Driven,
    {
        SearchMode::Driven
    }

    fn next_candidate(&mut self) -> (r: Option<InstructionBytes>)
        ensures
            old(self)@.len() == 0 ==> r is None && final(self)@ == old(self)@,
            old(self)@.len() > 0 ==> r == Some(old(self)@[0]) && final(self)@ == old(self)@.drop_first(),
    {
        DrivenStrategy::next_candidate(self)
    }
}

} // verus!
