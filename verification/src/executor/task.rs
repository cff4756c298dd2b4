//! Suspended points of an execution.

use super::frame::{freeze_frame, share, Frame, FrameView, LocalFrame};
use super::reset::{TaskState, TaskStateView};
use super::solver::{self, copy_events, DefView, Event, EventView, Reply, Solver, SolverView};
use super::stop::StopConditions;
use crate::smt::smtlib::{Def, Sym};
use std::sync::Arc;
use vstd::prelude::*;

verus! {

/// What it takes to bring a solver back to where it was.
pub struct Checkpoint {
    next: Sym,
    trace: Arc<Vec<Event>>,
}

pub struct CheckpointView {
    pub next: Sym,
    pub trace: Seq<EventView>,
}

impl View for Checkpoint {
    type V = CheckpointView;

    closed spec fn view(&self) -> CheckpointView {
        CheckpointView { next: self.next, trace: solver::event_views(self.trace@) }
    }
}

impl Checkpoint {
    /// The start of everything.
    pub fn new() -> (r: Self)
        ensures
            r@ == (CheckpointView { next: 0, trace: seq![] }),
    {
        let r = Checkpoint { next: 0, trace: Arc::new(Vec::new()) };
        assert(r@.trace =~= seq![]);
        r
    }

    /// A solver that takes up the path where it was left.
    pub fn resume(&self, replies: Vec<Reply>) -> (r: Solver)
        ensures
            r@.next == self@.next,
            r@.attrs == (solver::DefAttrs { uninteresting: false }),
            r@.trace == self@.trace,
            r@.replies == Seq::new(replies@.len(), |i: int| replies@[i]@),
            r@.asked == Seq::<solver::AskedView>::empty(),
    {
        Solver::resume(self.next, copy_events(&self.trace), replies)
    }
}

pub open spec fn checkpoint_of(s: SolverView) -> CheckpointView {
    CheckpointView { next: s.next, trace: s.trace }
}

pub fn checkpoint(solver: &Solver) -> (r: Checkpoint)
    ensures
        r@ == checkpoint_of(solver@),
{
    Checkpoint { next: solver.next_sym(), trace: Arc::new(solver.trace()) }
}

/// A suspended point of an execution: a snapshot of the program, what it
/// takes to bring back the solver, and what is to be added to the solver when
/// execution goes on.
pub struct Task {
    pub(crate) id: usize,
    pub(crate) frame: Frame,
    pub(crate) checkpoint: Checkpoint,
    pub(crate) fork_cond: Option<(Def, Event)>,
    pub(crate) state: Arc<TaskState>,
    pub(crate) stop_conditions: Option<Arc<StopConditions>>,
}

pub struct TaskView {
    pub id: usize,
    pub frame: FrameView,
    pub checkpoint: CheckpointView,
    pub fork_cond: Option<(DefView, EventView)>,
    pub state: TaskStateView,
    pub stop_conditions: Option<StopConditions>,
}

/// The conditions themselves, without the handle.
pub open spec fn conditions(stop: Option<Arc<StopConditions>>) -> Option<StopConditions> {
    match stop {
        Some(stop) => Some(*stop),
        None => None,
    }
}

impl View for Task {
    type V = TaskView;

    open(crate) spec fn view(&self) -> TaskView {
        TaskView {
            id: self.id,
            frame: self.frame@,
            checkpoint: self.checkpoint@,
            fork_cond: match self.fork_cond {
                Some((def, event)) => Some((def@, event@)),
                None => None,
            },
            state: self.state@,
            stop_conditions: conditions(self.stop_conditions),
        }
    }
}

pub(crate) fn share_conditions(stop: &Option<Arc<StopConditions>>) -> (r: Option<
    Arc<StopConditions>,
>)
    ensures
        r == *stop,
{
    match stop {
        Some(stop) => Some(share(stop)),
        None => None,
    }
}

impl Task {
    pub fn set_stop_conditions(&mut self, new_fns: Arc<StopConditions>)
        ensures
            final(self)@ == (TaskView { stop_conditions: Some(*new_fns), ..old(self)@ }),
    {
        self.stop_conditions = Some(new_fns);
    }
}

impl LocalFrame {
    /// A task that starts with this frame and a solver at a checkpoint.
    pub fn task_with_checkpoint(
        &self,
        task_id: usize,
        state: Arc<TaskState>,
        checkpoint: Checkpoint,
    ) -> (r: Task)
        ensures
            r@ == (TaskView {
                id: task_id,
                frame: self@,
                checkpoint: checkpoint@,
                fork_cond: None,
                state: state@,
                stop_conditions: None,
            }),
    {
        Task {
            id: task_id,
            frame: freeze_frame(self),
            checkpoint,
            fork_cond: None,
            state,
            stop_conditions: None,
        }
    }

    /// A task that starts with this frame.
    pub fn task(&self, task_id: usize, state: Arc<TaskState>) -> (r: Task)
        ensures
            r@ == (TaskView {
                id: task_id,
                frame: self@,
                checkpoint: CheckpointView { next: 0, trace: seq![] },
                fork_cond: None,
                state: state@,
                stop_conditions: None,
            }),
    {
        self.task_with_checkpoint(task_id, state, Checkpoint::new())
    }
}

} // verus!
