//! The results of the executions of one test.

use super::result::AxResult;
use crate::handover::{self, new_seg_queue, pop_from_queue, push_to_queue, Item};
use crossbeam::queue::SegQueue;
use vstd::prelude::*;

verus! {

/// The results so far, in the order in which they came in.
pub struct ResultQueue {
    queue: SegQueue<Item>,
}

impl View for ResultQueue {
    type V = Seq<AxResult>;

    closed spec fn view(&self) -> Seq<AxResult> {
        let all = handover::queued_items(self.queue);
        Seq::new(all.len(), |i: int| all[i]->Verdict_0)
    }
}

impl ResultQueue {
    #[verifier::type_invariant]
    spec fn holds_results(self) -> bool {
        forall|i: int|
            0 <= i < handover::queued_items(self.queue).len() ==> #[trigger] handover::queued_items(
                self.queue,
            )[i] is Verdict
    }

    pub fn new() -> (r: Self)
        ensures
            r@ == Seq::<AxResult>::empty(),
    {
        let r = ResultQueue { queue: new_seg_queue() };
        assert(r@ =~= Seq::empty());
        r
    }

    pub fn push(&mut self, result: AxResult)
        ensures
            final(self)@ == old(self)@.push(result),
    {
        proof {
            use_type_invariant(&*self);
        }
        let mut queue = new_seg_queue();
        std::mem::swap(&mut queue, &mut self.queue);
        push_to_queue(&mut queue, Item::Verdict(result));
        self.queue = queue;
        assert(self@ =~= old(self)@.push(result));
    }

    /// Takes the result that came in first.
    pub fn pop(&mut self) -> (r: Option<AxResult>)
        ensures
            match r {
                Some(result) => {
                    &&& old(self)@.len() > 0
                    &&& result == old(self)@[0]
                    &&& final(self)@ == old(self)@.drop_first()
                },
                None => {
                    &&& old(self)@.len() == 0
                    &&& final(self)@ == old(self)@
                },
            },
    {
        proof {
            use_type_invariant(&*self);
        }
        let mut queue = new_seg_queue();
        std::mem::swap(&mut queue, &mut self.queue);
        let ghost before = handover::queued_items(queue);
        let popped = pop_from_queue(&mut queue);
        self.queue = queue;
        match popped {
            Some(Item::Verdict(result)) => {
                assert(self@ =~= old(self)@.drop_first());
                Some(result)
            },
            Some(_) => {
                assert(before[0] is Verdict);
                None
            },
            None => None,
        }
    }

    /// Takes all results.
    pub fn drain(&mut self) -> (r: Vec<AxResult>)
        ensures
            r@ == old(self)@,
            final(self)@ == Seq::<AxResult>::empty(),
    {
        let ghost all = self@;
        let mut results: Vec<AxResult> = Vec::new();
        assert(results@ + self@ =~= all);
        let mut more = true;
        while more
            invariant
                results@ + self@ == all,
                !more ==> self@.len() == 0,
            decreases
                    self@.len() + if more {
                        1int
                    } else {
                        0int
                    },
        {
            let ghost rest = self@;
            match self.pop() {
                Some(result) => {
                    let ghost before = results@;
                    results.push(result);
                    assert(before.push(rest[0]) + rest.drop_first() =~= before + rest);
                },
                None => {
                    more = false;
                },
            }
        }
        assert(results@ =~= all);
        assert(self@ =~= Seq::<AxResult>::empty());
        results
    }
}

} // verus!
