//! Queues on which what has been found is handed over.
//!
//! All of them hold items of one type, so that what is assumed of a queue is
//! assumed once.

use crate::axiomatic::result::AxResult;
use crate::executor::collect::Collected;
use crossbeam::queue::SegQueue;
use vstd::prelude::*;

verus! {

/// What is handed over.
pub enum Item {
    /// What is kept of a path.
    Path(Collected),
    /// The result of an execution of a test.
    Verdict(AxResult),
}

#[verifier::external_type_specification]
#[verifier::external_body]
#[verifier::reject_recursive_types(T)]
pub struct ExSegQueue<T>(crossbeam::queue::SegQueue<T>);

/// What is in a queue, the head of it first.
pub uninterp spec fn queued_items(q: SegQueue<Item>) -> Seq<Item>;

/// Calls `crossbeam::queue::SegQueue::new`, which makes an empty queue.
#[verifier::external_body]
pub(crate) fn new_seg_queue() -> (q: SegQueue<Item>)
    ensures
        queued_items(q) == Seq::<Item>::empty(),
{
    SegQueue::new()
}

/// Calls `crossbeam::queue::SegQueue::push`, which adds an element at the
/// tail. The queue is borrowed for this call alone, so no other thread uses
/// it meanwhile.
#[verifier::external_body]
pub(crate) fn push_to_queue(q: &mut SegQueue<Item>, item: Item)
    ensures
        queued_items(*final(q)) == queued_items(*old(q)).push(item),
{
    q.push(item);
}

/// Calls `crossbeam::queue::SegQueue::pop`, which takes the element at the
/// head, or gives nothing if the queue is empty. The queue is borrowed for
/// this call alone, so no other thread uses it meanwhile.
#[verifier::external_body]
pub(crate) fn pop_from_queue(q: &mut SegQueue<Item>) -> (r: Option<Item>)
    ensures
        match r {
            Some(item) => {
                &&& queued_items(*old(q)).len() > 0
                &&& item == queued_items(*old(q))[0]
                &&& queued_items(*final(q)) == queued_items(*old(q)).drop_first()
            },
            None => {
                &&& queued_items(*old(q)).len() == 0
                &&& queued_items(*final(q)) == queued_items(*old(q))
            },
        },
{
    q.pop()
}

} // verus!
