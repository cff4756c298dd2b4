//! Exploring all paths that a task leads to.

use super::error::ExecError;
use super::frame::share;
use super::ir::{SharedState, SourceLoc};
use super::queue::TaskQueue;
use super::reset::Machine;
use super::run::{self, run, Context, Progress, RunResult};
use super::solver::{DefAttrs, Reply, ReplyView, Solver, SolverView};
use super::task::{share_conditions, Task, TaskView};
use vstd::prelude::*;

verus! {

/// Where a task starts: its frame, with the solver brought back to where it
/// was and the condition that it was forked on added.
pub open spec fn start_of(task: TaskView, replies: Seq<ReplyView>) -> Machine {
    let resumed = SolverView {
        next: task.checkpoint.next,
        attrs: DefAttrs { uninteresting: false },
        trace: task.checkpoint.trace,
        replies,
        asked: seq![],
    };
    Machine {
        frame: task.frame,
        solver: match task.fork_cond {
            Some((def, event)) => resumed.record(event).define(def, SourceLoc::Unknown),
            None => resumed,
        },
    }
}

/// What stays the same along a path of the task.
pub open(crate) spec fn context_of(task: Task, timeout: Option<u64>) -> Context {
    Context {
        task_id: task.id,
        timeout,
        stop_conditions: task.stop_conditions,
        task_state: task.state,
    }
}

/// How far a task gets with the replies that there are.
pub open(crate) spec fn progress_of(
    task: Task,
    replies: Seq<ReplyView>,
    timeout: Option<u64>,
    sh: SharedState,
    fuel: nat,
) -> Progress {
    run::run_steps(
        fuel,
        start_of(task@, replies),
        sh,
        context_of(task, timeout),
        seq![],
    )
}

pub open spec fn reply_views(replies: Seq<Reply>) -> Seq<ReplyView> {
    Seq::new(replies.len(), |i: int| replies[i]@)
}

/// The result of executing a task.
pub struct Work {
    /// The outcome of the path; `None` if it has not ended.
    pub result: Option<RunResult>,
    pub solver: Solver,
    /// The tasks that branch off from the path.
    pub spawned: Vec<Task>,
}

/// Executes a task from its start.
pub fn do_work(
    task: &Task,
    replies: Vec<Reply>,
    timeout: Option<u64>,
    shared_state: &SharedState,
    fuel: u64,
) -> (r: Work)
    ensures
        ({
            let progress = progress_of(
                *task,
                reply_views(replies@),
                timeout,
                *shared_state,
                fuel as nat,
            );
            &&& r.solver@ == progress.machine.solver
            &&& run::task_views(r.spawned@) == progress.spawned
            &&& match r.result {
                Some(result) => run::outcome(progress) == Some(run::run_result(result)),
                None => run::outcome(progress) is None,
            }
        }),
{
    let ghost given = reply_views(replies@);
    let mut solver = task.checkpoint.resume(replies);
    assert(solver@.replies =~= given);
    match &task.fork_cond {
        Some((def, event)) => {
            solver.add_event(event.copy());
            solver.add(def.copy());
        },
        None => {},
    }
    assert(solver@ == start_of(task@, given).solver);
    let cx = Context {
        task_id: task.id,
        timeout,
        stop_conditions: share_conditions(&task.stop_conditions),
        task_state: share(&task.state),
    };
    let mut spawned: Vec<Task> = Vec::new();
    assert(run::task_views(spawned@) =~= seq![]);
    let result = run(fuel, &cx, &mut spawned, &task.frame, shared_state, &mut solver);
    Work { result, solver, spawned }
}

/// An exploration of all paths that a task leads to, one after the other.
pub struct Explorer {
    queue: TaskQueue,
    /// The task whose path has not ended yet.
    current: Option<Task>,
}

impl Explorer {
    /// The tasks that are left, the next one last.
    pub closed spec fn tasks(&self) -> Seq<Task> {
        match self.current {
            Some(task) => self.queue@.push(task),
            None => self.queue@,
        }
    }
}

/// What an exploration has come to.
pub enum Exploration {
    /// All paths have been explored.
    Finished,
    /// A path has ended.
    Path { task_id: usize, result: RunResult, solver: Solver },
    /// The path needs another reply.
    Pending { solver: Solver },
    /// The path goes on for longer than it was allowed to.
    Unfinished,
}

/// Starts to explore a task.
pub fn start_single(task: Task) -> (r: Explorer)
    ensures
        r.tasks() == seq![task],
{
    let mut queue = TaskQueue::new();
    queue.push(task);
    let r = Explorer { queue, current: None };
    assert(r.tasks() =~= seq![task]);
    r
}

impl Explorer {
    fn take_next(&mut self) -> (r: Option<Task>)
        ensures
            match r {
                Some(task) => {
                    &&& old(self).tasks().len() > 0
                    &&& task == old(self).tasks().last()
                    &&& final(self).tasks() == old(self).tasks().drop_last()
                    &&& final(self).current is None
                },
                None => {
                    &&& old(self).tasks().len() == 0
                    &&& final(self).tasks() == old(self).tasks()
                },
            },
    {
        let ghost before = self.tasks();
        let mut current: Option<Task> = None;
        core::mem::swap(&mut current, &mut self.current);
        match current {
            Some(task) => {
                assert(self.tasks() =~= before.drop_last());
                Some(task)
            },
            None => self.queue.pop(),
        }
    }

    /// Executes the next task from its start, with the replies that there
    /// are. If its path ends, the tasks that branch off from it are the next
    /// ones, the last of them first. If it does not end, the task stays the
    /// next one, and nothing has changed.
    pub fn explore(&mut self, shared_state: &SharedState, replies: Vec<Reply>, fuel: u64) -> (r:
        Exploration)
        ensures
            old(self).tasks().len() == 0 ==> {
                &&& r is Finished
                &&& final(self).tasks() == old(self).tasks()
            },
            old(self).tasks().len() > 0 ==> {
                let task = old(self).tasks().last();
                let progress = progress_of(
                    task,
                    reply_views(replies@),
                    None,
                    *shared_state,
                    fuel as nat,
                );
                match progress.result {
                    None => {
                        &&& r is Unfinished
                        &&& final(self).tasks() == old(self).tasks()
                    },
                    Some(Err(ExecError::Pending)) => {
                        &&& r is Pending
                        &&& r->Pending_solver@ == progress.machine.solver
                        &&& final(self).tasks() == old(self).tasks()
                    },
                    Some(_) => {
                        &&& r is Path
                        &&& r->task_id == task@.id
                        &&& run::outcome(progress) == Some(run::run_result(r->result))
                        &&& r->Path_solver@ == progress.machine.solver
                        &&& run::task_views(final(self).tasks()) == run::task_views(
                            old(self).tasks().drop_last(),
                        ) + progress.spawned
                        &&& run::task_views(final(self).tasks()) == left_to_do(
                            run::task_views(old(self).tasks()),
                            progress.spawned,
                        )
                    },
                }
            },
    {
        let ghost before = self.tasks();
        let task = match self.take_next() {
            None => {
                return Exploration::Finished;
            },
            Some(task) => task,
        };
        let ghost rest = self.tasks();
        assert(rest.push(task) =~= before);
        let work = do_work(&task, replies, None, shared_state, fuel);
        match work.result {
            None => {
                self.current = Some(task);
                Exploration::Unfinished
            },
            Some(Err((ExecError::Pending, _))) => {
                self.current = Some(task);
                Exploration::Pending { solver: work.solver }
            },
            Some(result) => {
                let ghost spawned = work.spawned@;
                self.queue.push_all(work.spawned);
                assert(run::task_views(before).drop_last() =~= run::task_views(rest));
                assert(run::task_views(rest + spawned) =~= run::task_views(rest)
                    + run::task_views(spawned));
                Exploration::Path { task_id: task.id, result, solver: work.solver }
            },
        }
    }
}

/// The tasks that are left when the last one has been done and others were
/// split off from it.
pub open spec fn left_to_do(tasks: Seq<TaskView>, spawned: Seq<TaskView>) -> Seq<TaskView> {
    tasks.drop_last() + spawned
}

/// When a task has been done, every other task is left to be done, and so is
/// everything that was split off from it; nothing else is.
pub proof fn law_no_task_is_lost(tasks: Seq<TaskView>, spawned: Seq<TaskView>, i: int)
    requires
        tasks.len() > 0,
    ensures
        ({
            let left = left_to_do(tasks, spawned);
            &&& left.len() == tasks.len() - 1 + spawned.len()
            &&& 0 <= i < tasks.len() - 1 ==> left[i] == tasks[i]
            &&& 0 <= i < spawned.len() ==> left[tasks.len() - 1 + i] == spawned[i]
        }),
{
}

} // verus!
