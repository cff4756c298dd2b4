//! Collecting the outcomes of paths.

use super::error::ExecError;
use super::ir::{SourceLoc, Val};
use super::run::{self, RunResult, RunResultView};
use super::solver::{self, Answer, AnswerView, Event, EventView, Request, RequestView, SmtResult, Solver, SolverView};
use crate::handover::{self, new_seg_queue, pop_from_queue, push_to_queue, Item};
use crate::smt::smtlib::Exp;
use crate::smt::tree;
use crossbeam::queue::SegQueue;
use vstd::prelude::*;

verus! {

pub enum TraceError {
    /// The value at the end of a trace is not one of those that are expected,
    /// for example if a boolean is expected and something else comes out.
    UnexpectedValue(Val),
    /// An error came up on the way.
    Exec { err: ExecError, model: Option<String> },
}

impl TraceError {
    pub open spec fn spec_source_loc(self) -> SourceLoc {
        match self {
            TraceError::UnexpectedValue(_) => SourceLoc::Unknown,
            TraceError::Exec { err, .. } => err.spec_source_loc(),
        }
    }

    /// Where in the source the error stands, as far as that is known.
    pub fn source_loc(&self) -> (r: SourceLoc)
        ensures
            r == self.spec_source_loc(),
    {
        match self {
            TraceError::UnexpectedValue(_) => SourceLoc::Unknown,
            TraceError::Exec { err, .. } => err.source_loc(),
        }
    }

    /// The error in words, given a description of the value or of the error
    /// that came up.
    pub fn text(&self, description: &str) -> (r: String)
        ensures
            r@ == match *self {
                TraceError::UnexpectedValue(_) => "Unexpected value "@ + description@,
                TraceError::Exec { model: Some(model), .. } => description@ + "\nModel: "@ + model@,
                TraceError::Exec { model: None, .. } => description@,
            },
    {
        match self {
            TraceError::UnexpectedValue(_) => "Unexpected value ".to_owned().concat(description),
            TraceError::Exec { model: Some(model), .. } =>
                description.to_owned().concat("\nModel: ").concat(model.as_str()),
            TraceError::Exec { model: None, .. } => description.to_owned(),
        }
    }

    pub fn exec(err: ExecError) -> (r: Self)
        ensures
            r == (TraceError::Exec { err, model: None }),
    {
        TraceError::Exec { err, model: None }
    }

    fn exec_model(err: ExecError, model: String) -> (r: Self)
        ensures
            r == (TraceError::Exec { err, model: Some(model) }),
    {
        TraceError::Exec { err, model: Some(model) }
    }

    fn unexpected_value(v: Val) -> (r: Self)
        ensures
            r == TraceError::UnexpectedValue(v),
    {
        TraceError::UnexpectedValue(v)
    }
}

/// What is kept of a path.
pub enum Collected {
    Trace { task_id: usize, events: Vec<Event> },
    TraceResult { task_id: usize, result: bool, events: Vec<Event> },
    TraceValue { task_id: usize, value: Val, events: Vec<Event> },
    Error(TraceError),
}

pub enum CollectedView {
    Trace { task_id: usize, events: Seq<EventView> },
    TraceResult { task_id: usize, result: bool, events: Seq<EventView> },
    TraceValue { task_id: usize, value: Val, events: Seq<EventView> },
    Error(TraceError),
}

impl View for Collected {
    type V = CollectedView;

    open spec fn view(&self) -> CollectedView {
        match self {
            Collected::Trace { task_id, events } => CollectedView::Trace {
                task_id: *task_id,
                events: solver::event_views(events@),
            },
            Collected::TraceResult { task_id, result, events } => CollectedView::TraceResult {
                task_id: *task_id,
                result: *result,
                events: solver::event_views(events@),
            },
            Collected::TraceValue { task_id, value, events } => CollectedView::TraceValue {
                task_id: *task_id,
                value: *value,
                events: solver::event_views(events@),
            },
            Collected::Error(e) => CollectedView::Error(*e),
        }
    }
}

/// What has been kept so far, in the order in which it came in.
pub struct TraceQueue {
    queue: SegQueue<Item>,
}

/// Traces whose paths end with a boolean.
pub type TraceResultQueue = TraceQueue;

/// Traces together with the value at their end.
pub type TraceValueQueue = TraceQueue;

impl TraceQueue {
    #[verifier::type_invariant]
    spec fn holds_paths(self) -> bool {
        forall|i: int|
            0 <= i < handover::queued_items(self.queue).len() ==> #[trigger] handover::queued_items(
                self.queue,
            )[i] is Path
    }

    pub closed spec fn items(&self) -> Seq<Collected> {
        let all = handover::queued_items(self.queue);
        Seq::new(all.len(), |i: int| all[i]->Path_0)
    }

    pub fn new() -> (r: Self)
        ensures
            r.items() == Seq::<Collected>::empty(),
    {
        let r = TraceQueue { queue: new_seg_queue() };
        assert(r.items() =~= Seq::empty());
        r
    }

    pub fn push(&mut self, item: Collected)
        ensures
            final(self).items() == old(self).items().push(item),
    {
        proof {
            use_type_invariant(&*self);
        }
        let mut queue = new_seg_queue();
        std::mem::swap(&mut queue, &mut self.queue);
        push_to_queue(&mut queue, Item::Path(item));
        self.queue = queue;
        assert(self.items() =~= old(self).items().push(item));
    }

    /// Takes what came in first.
    pub fn pop(&mut self) -> (r: Option<Collected>)
        ensures
            match r {
                Some(item) => {
                    &&& old(self).items().len() > 0
                    &&& item == old(self).items()[0]
                    &&& final(self).items() == old(self).items().drop_first()
                },
                None => {
                    &&& old(self).items().len() == 0
                    &&& final(self).items() == old(self).items()
                },
            },
    {
        proof {
            use_type_invariant(&*self);
        }
        let mut queue = new_seg_queue();
        std::mem::swap(&mut queue, &mut self.queue);
        let ghost before = handover::queued_items(queue);
        let popped = pop_from_queue(&mut queue);
        self.queue = queue;
        match popped {
            Some(Item::Path(item)) => {
                assert(self.items() =~= old(self).items().drop_first());
                Some(item)
            },
            Some(_) => {
                assert(before[0] is Path);
                None
            },
            None => None,
        }
    }
}

/// Whether a path of a boolean function can end with false. For a symbolic
/// value the solver is asked.
pub open spec fn can_be_false(s: SolverView, result: RunResultView) -> (
    SolverView,
    Result<bool, ExecError>,
) {
    match result {
        RunResultView::Finished(Val::Symbolic(v), _) => {
            let asserted = s.assert_exp(solver::unary(tree::Op::Not, solver::var(v)));
            let (s, r) = asserted.ask_sat(RequestView::CheckSat, SourceLoc::Unknown);
            (
                s,
                match r {
                    Ok(verdict) => Ok(verdict != SmtResult::Unsat),
                    Err(e) => Err(e),
                },
            )
        },
        RunResultView::Finished(Val::Bool(b), _) => (s, Ok(!b)),
        RunResultView::Finished(_, _) => (s, Ok(false)),
        RunResultView::Failed(ExecError::Dead, _) => (s, Ok(false)),
        RunResultView::Failed(_, _) => (s, Ok(true)),
    }
}

/// This collector is for boolean functions. What is collected stays true as
/// long as no path can end with false or with an error, which means that the
/// function always returns true. If the solver has to be asked and has no
/// answer yet, an error is returned and nothing is collected.
pub fn all_unsat_collector(result: &RunResult, solver: &mut Solver, collected: &mut bool) -> (r:
    Result<(), ExecError>)
    ensures
        ({
            let (s, out) = can_be_false(old(solver)@, run::run_result(*result));
            &&& final(solver)@ == s
            &&& match out {
                Ok(bad) => {
                    &&& r is Ok
                    &&& *final(collected) == (*old(collected) && !bad)
                },
                Err(e) => {
                    &&& r == Err::<(), ExecError>(e)
                    &&& *final(collected) == *old(collected)
                },
            }
        }),
{
    match result {
        Ok((Val::Symbolic(v), _)) => {
            let exp = Exp::Not(Box::new(Exp::Var(*v)));
            proof {
                exp.lemma_tree1();
            }
            solver.assert_exp(exp);
            match solver.ask_sat(Request::CheckSat, SourceLoc::Unknown) {
                Ok(verdict) => {
                    if verdict != SmtResult::Unsat {
                        *collected = false;
                    }
                    Ok(())
                },
                Err(e) => Err(e),
            }
        },
        Ok((Val::Bool(b), _)) => {
            if !*b {
                *collected = false;
            }
            Ok(())
        },
        Ok(_) => Ok(()),
        Err((ExecError::Dead, _)) => Ok(()),
        Err(_) => {
            *collected = false;
            Ok(())
        },
    }
}

/// What is reported of an error: if the path can be taken, together with a
/// model of how.
pub open spec fn reported_error(s: SolverView, err: ExecError) -> (
    SolverView,
    Result<TraceError, ExecError>,
) {
    let (s, r) = s.ask_sat(RequestView::CheckSat, SourceLoc::Unknown);
    match r {
        Err(e) => (s, Err(e)),
        Ok(SmtResult::Sat) => {
            let (s, r) = s.ask(RequestView::ModelText, SourceLoc::Unknown);
            (
                s,
                match r {
                    Ok(AnswerView::Text(model)) => Ok(
                        TraceError::Exec { err, model: Some(model) },
                    ),
                    Ok(_) => Err(ExecError::UnexpectedAnswer),
                    Err(e) => Err(e),
                },
            )
        },
        Ok(_) => (s, Ok(TraceError::Exec { err, model: None })),
    }
}

fn report_error(err: ExecError, solver: &mut Solver) -> (r: Result<TraceError, ExecError>)
    ensures
        (final(solver)@, r) == reported_error(old(solver)@, err),
{
    match solver.ask_sat(Request::CheckSat, SourceLoc::Unknown) {
        Err(e) => Err(e),
        Ok(SmtResult::Sat) => match solver.ask(Request::ModelText, SourceLoc::Unknown) {
            Ok(Answer::Text(model)) => Ok(TraceError::exec_model(err, model)),
            Ok(_) => Err(ExecError::UnexpectedAnswer),
            Err(e) => Err(e),
        },
        Ok(_) => Ok(TraceError::exec(err)),
    }
}

/// What a collector adds, if anything: nothing, or one item.
pub open spec fn added(
    before: Seq<Collected>,
    after: Seq<Collected>,
    item: Option<CollectedView>,
) -> bool {
    match item {
        None => after == before,
        Some(item) => {
            &&& after.len() == before.len() + 1
            &&& after.drop_last() == before
            &&& after.last()@ == item
        },
    }
}

/// Whether a collector has done as it should: added the item that it is to
/// add, or returned the error of a question that it had to ask.
pub open spec fn collects(
    out: Result<Option<CollectedView>, ExecError>,
    r: Result<(), ExecError>,
    before: Seq<Collected>,
    after: Seq<Collected>,
) -> bool {
    match out {
        Ok(item) => {
            &&& r is Ok
            &&& added(before, after, item)
        },
        Err(e) => {
            &&& r == Err::<(), ExecError>(e)
            &&& after == before
        },
    }
}

fn push_item(queue: &mut TraceQueue, item: Collected)
    ensures
        added(old(queue).items(), final(queue).items(), Some(item@)),
{
    let ghost before = queue.items();
    queue.push(item);
    assert(before.push(item).drop_last() =~= before);
}

/// What is kept of a path by its trace. A path that exits counts as one that
/// ends; a path that cannot be taken is dropped.
pub open spec fn trace_item(s: SolverView, task_id: usize, result: RunResultView) -> (
    SolverView,
    Result<Option<CollectedView>, ExecError>,
) {
    match result {
        RunResultView::Finished(_, _) | RunResultView::Failed(ExecError::Exit, _) => (
            s,
            Ok(Some(CollectedView::Trace { task_id, events: s.trace })),
        ),
        RunResultView::Failed(ExecError::Dead, _) => (s, Ok(None)),
        RunResultView::Failed(err, _) => {
            let (s, r) = reported_error(s, err);
            (
                s,
                match r {
                    Ok(e) => Ok(Some(CollectedView::Error(e))),
                    Err(e) => Err(e),
                },
            )
        },
    }
}

pub fn trace_collector(
    task_id: usize,
    result: RunResult,
    solver: &mut Solver,
    collected: &mut TraceQueue,
) -> (r: Result<(), ExecError>)
    ensures
        final(solver)@ == trace_item(old(solver)@, task_id, run::run_result(result)).0,
        collects(
            trace_item(old(solver)@, task_id, run::run_result(result)).1,
            r,
            old(collected).items(),
            final(collected).items(),
        ),
{
    match result {
        Ok(_) => {
            push_item(collected, Collected::Trace { task_id, events: solver.trace() });
            Ok(())
        },
        Err((ExecError::Exit, _)) => {
            push_item(collected, Collected::Trace { task_id, events: solver.trace() });
            Ok(())
        },
        Err((ExecError::Dead, _)) => Ok(()),
        Err((err, _)) => match report_error(err, solver) {
            Ok(e) => {
                push_item(collected, Collected::Error(e));
                Ok(())
            },
            Err(e) => Err(e),
        },
    }
}

/// What is kept of a path by its trace and its value.
pub open spec fn value_item(s: SolverView, task_id: usize, result: RunResultView) -> (
    SolverView,
    Result<Option<CollectedView>, ExecError>,
) {
    match result {
        RunResultView::Finished(value, _) => (
            s,
            Ok(Some(CollectedView::TraceValue { task_id, value, events: s.trace })),
        ),
        RunResultView::Failed(ExecError::Dead, _) => (s, Ok(None)),
        RunResultView::Failed(err, _) => {
            let (s, r) = reported_error(s, err);
            (
                s,
                match r {
                    Ok(e) => Ok(Some(CollectedView::Error(e))),
                    Err(e) => Err(e),
                },
            )
        },
    }
}

pub fn trace_value_collector(
    task_id: usize,
    result: RunResult,
    solver: &mut Solver,
    collected: &mut TraceValueQueue,
) -> (r: Result<(), ExecError>)
    ensures
        final(solver)@ == value_item(old(solver)@, task_id, run::run_result(result)).0,
        collects(
            value_item(old(solver)@, task_id, run::run_result(result)).1,
            r,
            old(collected).items(),
            final(collected).items(),
        ),
{
    match result {
        Ok((value, _)) => {
            push_item(
                collected,
                Collected::TraceValue { task_id, value, events: solver.trace() },
            );
            Ok(())
        },
        Err((ExecError::Dead, _)) => Ok(()),
        Err((err, _)) => match report_error(err, solver) {
            Ok(e) => {
                push_item(collected, Collected::Error(e));
                Ok(())
            },
            Err(e) => Err(e),
        },
    }
}

/// What is kept of a path that is to end with a boolean.
pub open spec fn result_item(s: SolverView, task_id: usize, result: RunResultView) -> Option<
    CollectedView,
> {
    match result {
        RunResultView::Finished(Val::Bool(result), _) => Some(
            CollectedView::TraceResult { task_id, result, events: s.trace },
        ),
        RunResultView::Finished(v, _) => Some(
            CollectedView::Error(TraceError::UnexpectedValue(v)),
        ),
        RunResultView::Failed(ExecError::Dead, _) => None,
        RunResultView::Failed(err, _) => Some(
            CollectedView::Error(TraceError::Exec { err, model: None }),
        ),
    }
}

pub fn trace_result_collector(
    task_id: usize,
    result: RunResult,
    solver: &Solver,
    collected: &mut TraceResultQueue,
)
    ensures
        added(
            old(collected).items(),
            final(collected).items(),
            result_item(solver@, task_id, run::run_result(result)),
        ),
{
    match result {
        Ok((Val::Bool(result), _)) => {
            push_item(
                collected,
                Collected::TraceResult { task_id, result, events: solver.trace() },
            );
        },
        Ok((v, _)) => {
            push_item(collected, Collected::Error(TraceError::unexpected_value(v)));
        },
        Err((ExecError::Dead, _)) => {},
        Err((err, _)) => {
            push_item(collected, Collected::Error(TraceError::exec(err)));
        },
    }
}

/// What is kept of a path of a function that says whether the path belongs to
/// a footprint.
pub open spec fn footprint_item(s: SolverView, task_id: usize, result: RunResultView) -> Option<
    CollectedView,
> {
    match result {
        RunResultView::Finished(Val::Bool(b), _) => if b {
            Some(CollectedView::Trace { task_id, events: s.trace })
        } else {
            None
        },
        RunResultView::Finished(Val::Unit, _) => None,
        RunResultView::Finished(v, _) => Some(
            CollectedView::Error(TraceError::UnexpectedValue(v)),
        ),
        RunResultView::Failed(ExecError::Dead, _) => None,
        RunResultView::Failed(err, _) => Some(
            CollectedView::Error(TraceError::Exec { err, model: None }),
        ),
    }
}

/// This collector is for functions that say whether a path belongs to a
/// footprint. A path that ends with false or with unit is dropped.
pub fn footprint_collector(
    task_id: usize,
    result: RunResult,
    solver: &Solver,
    collected: &mut TraceQueue,
)
    ensures
        added(
            old(collected).items(),
            final(collected).items(),
            footprint_item(solver@, task_id, run::run_result(result)),
        ),
{
    match result {
        Ok((Val::Bool(b), _)) => {
            if b {
                push_item(collected, Collected::Trace { task_id, events: solver.trace() });
            }
        },
        Ok((Val::Unit, _)) => {},
        Ok((v, _)) => {
            push_item(collected, Collected::Error(TraceError::unexpected_value(v)));
        },
        Err((ExecError::Dead, _)) => {},
        Err((err, _)) => {
            push_item(collected, Collected::Error(TraceError::exec(err)));
        },
    }
}

} // verus!
