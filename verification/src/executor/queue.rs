//! The tasks that are left to do.

use super::task::Task;
use crossbeam::deque::Worker;
use vstd::prelude::*;

verus! {

#[verifier::external_type_specification]
#[verifier::external_body]
#[verifier::reject_recursive_types(T)]
pub struct ExWorker<T>(crossbeam::deque::Worker<T>);

/// The tasks in a worker's queue, the one that was pushed last at the end.
pub uninterp spec fn queued(w: Worker<Task>) -> Seq<Task>;

/// Calls `crossbeam::deque::Worker::new_lifo`, which makes an empty queue
/// that gives tasks back from the end at which they are pushed.
#[verifier::external_body]
fn new_worker() -> (w: Worker<Task>)
    ensures
        queued(w) == Seq::<Task>::empty(),
{
    Worker::new_lifo()
}

/// Calls `crossbeam::deque::Worker::push`, which adds a task at the back of
/// the queue. Workers are made by `new_worker` alone, and no stealer is ever
/// made of one; so nobody else takes tasks out.
#[verifier::external_body]
fn push_to_worker(w: &mut Worker<Task>, task: Task)
    ensures
        queued(*final(w)) == queued(*old(w)).push(task),
{
    w.push(task);
}

/// Calls `crossbeam::deque::Worker::pop`, which takes a task from the back of
/// a queue that was made by `new_lifo`, or gives nothing if the queue is
/// empty. Workers are made by `new_worker` alone, and no stealer is ever made
/// of one; so nobody else takes tasks out.
#[verifier::external_body]
fn pop_from_worker(w: &mut Worker<Task>) -> (r: Option<Task>)
    ensures
        match r {
            Some(task) => {
                &&& queued(*old(w)).len() > 0
                &&& task == queued(*old(w)).last()
                &&& queued(*final(w)) == queued(*old(w)).drop_last()
            },
            None => {
                &&& queued(*old(w)).len() == 0
                &&& queued(*final(w)) == queued(*old(w))
            },
        },
{
    w.pop()
}

/// A stack of tasks.
pub struct TaskQueue {
    worker: Worker<Task>,
}

impl View for TaskQueue {
    type V = Seq<Task>;

    closed spec fn view(&self) -> Seq<Task> {
        queued(self.worker)
    }
}

impl TaskQueue {
    pub fn new() -> (r: TaskQueue)
        ensures
            r@ == Seq::<Task>::empty(),
    {
        TaskQueue { worker: new_worker() }
    }

    pub fn push(&mut self, task: Task)
        ensures
            final(self)@ == old(self)@.push(task),
    {
        push_to_worker(&mut self.worker, task);
    }

    /// Takes the task that was pushed last.
    pub fn pop(&mut self) -> (r: Option<Task>)
        ensures
            match r {
                Some(task) => {
                    &&& old(self)@.len() > 0
                    &&& task == old(self)@.last()
                    &&& final(self)@ == old(self)@.drop_last()
                },
                None => {
                    &&& old(self)@.len() == 0
                    &&& final(self)@ == old(self)@
                },
            },
    {
        pop_from_worker(&mut self.worker)
    }

    /// Pushes tasks in the order in which they are given.
    pub fn push_all(&mut self, tasks: Vec<Task>)
        ensures
            final(self)@ == old(self)@ + tasks@,
    {
        let ghost all = tasks@;
        let ghost before = self@;
        let mut rest: Vec<Task> = Vec::new();
        let mut tasks = tasks;
        while tasks.len() > 0
            invariant
                tasks@.len() + rest@.len() == all.len(),
                tasks@ == all.take(tasks@.len() as int),
                forall|i: int|
                    0 <= i < rest@.len() ==> #[trigger] rest@[i] == all[all.len() - 1 - i],
                self@ == before,
            decreases tasks@.len(),
        {
            match tasks.pop() {
                Some(task) => {
                    rest.push(task);
                    assert(tasks@ =~= all.take(tasks@.len() as int));
                },
                None => {},
            }
        }
        assert(before + all.take(0) =~= before);
        while rest.len() > 0
            invariant
                rest@.len() <= all.len(),
                forall|i: int|
                    0 <= i < rest@.len() ==> #[trigger] rest@[i] == all[all.len() - 1 - i],
                self@ == before + all.take(all.len() - rest@.len()),
            decreases rest@.len(),
        {
            let ghost n = all.len() - rest@.len();
            assert(rest@[rest@.len() - 1] == all[n]);
            match rest.pop() {
                Some(task) => {
                    self.push(task);
                    assert((before + all.take(n)).push(all[n]) =~= before + all.take(n + 1));
                },
                None => {},
            }
        }
        assert(all.take(all.len() as int) =~= all);
    }
}

} // verus!
