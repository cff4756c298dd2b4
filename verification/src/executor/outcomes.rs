//! How paths begin, and what is made of their ends.

use super::collect::{self, CollectedView, TraceError};
use super::error::ExecError;
use super::explore;
use super::frame::{self, FrameView};
use super::ir::{Instr, SharedState, SourceLoc, Ty, UVal, Val, Vals, CURRENT_EXCEPTION, HAVE_EXCEPTION, NULL, RETURN, THROW_LOCATION};
use super::names::Name;
use super::run::{self, Progress, RunResultView};
use super::solver::{AnswerView, DefView, EventView, ReplyView, RequestView, SmtResult, SolverView};
use super::stop::{self, StopAction, StopPoint};
use super::task::TaskView;
use crate::smt::semantics::{self, Interp, Value};
use crate::smt::smtlib::Sym;
use crate::text;
use std::sync::Arc;
use vstd::prelude::*;

verus! {

/// A path that no input leads to leaves nothing behind, whatever is collected.
pub proof fn law_dead_paths_leave_nothing(s: SolverView, task_id: usize, calls: Seq<(Name, usize)>)
    ensures
        ({
            let dead = RunResultView::Failed(ExecError::Dead, calls);
            let nothing = Ok::<Option<CollectedView>, ExecError>(None);
            &&& collect::trace_item(s, task_id, dead) == (s, nothing)
            &&& collect::value_item(s, task_id, dead) == (s, nothing)
            &&& collect::result_item(s, task_id, dead) is None
            &&& collect::footprint_item(s, task_id, dead) is None
            &&& collect::can_be_false(s, dead) == (s, Ok::<bool, ExecError>(false))
        }),
{
}

/// Of a path that ends with a value, all that happened on it is kept for its
/// task, together with the value where that is collected. Nothing is asked for
/// it.
pub proof fn law_finished_paths_are_kept(s: SolverView, task_id: usize, v: Val, frame: FrameView)
    ensures
        ({
            let end = RunResultView::Finished(v, frame);
            let trace = CollectedView::Trace { task_id, events: s.trace };
            &&& collect::trace_item(s, task_id, end) == (
                s,
                Ok::<Option<CollectedView>, ExecError>(Some(trace)),
            )
            &&& collect::value_item(s, task_id, end) == (
                s,
                Ok::<Option<CollectedView>, ExecError>(
                    Some(CollectedView::TraceValue { task_id, value: v, events: s.trace }),
                ),
            )
            &&& v matches Val::Bool(b) ==> {
                &&& collect::result_item(s, task_id, end) == Some(
                    CollectedView::TraceResult { task_id, result: b, events: s.trace },
                )
                &&& collect::footprint_item(s, task_id, end) == if b {
                    Some(trace)
                } else {
                    None
                }
            }
            &&& !(v is Bool) ==> collect::result_item(s, task_id, end) == Some(
                CollectedView::Error(TraceError::UnexpectedValue(v)),
            )
            &&& !(v is Bool) && !(v is Unit) ==> collect::footprint_item(s, task_id, end) == Some(
                CollectedView::Error(TraceError::UnexpectedValue(v)),
            )
            &&& v is Unit ==> collect::footprint_item(s, task_id, end) is None
        }),
{
}

/// A path that ends with an error is reported with that error. To a report
/// that goes with traces or values a model is added exactly if the solver
/// finds one for the path.
pub proof fn law_errors_are_reported(
    s: SolverView,
    task_id: usize,
    err: ExecError,
    calls: Seq<(Name, usize)>,
)
    requires
        err != ExecError::Dead,
    ensures
        ({
            let end = RunResultView::Failed(err, calls);
            let (after, item) = collect::value_item(s, task_id, end);
            let n = s.asked.len() as int;
            let plain = Some(CollectedView::Error(TraceError::Exec { err, model: None }));
            &&& collect::result_item(s, task_id, end) == plain
            &&& collect::footprint_item(s, task_id, end) == plain
            &&& err != ExecError::Exit ==> collect::trace_item(s, task_id, end)
                == collect::value_item(s, task_id, end)
            &&& err == ExecError::Exit ==> collect::trace_item(s, task_id, end) == (
                s,
                Ok::<Option<CollectedView>, ExecError>(
                    Some(CollectedView::Trace { task_id, events: s.trace }),
                ),
            )
            &&& after.asked.len() > n && after.asked[n].request == RequestView::CheckSat
            &&& item is Ok ==> {
                let verdict = s.replies[n].answer;
                &&& verdict is Sat
                &&& verdict != AnswerView::Sat(SmtResult::Sat) ==> item->Ok_0 == plain
                    && after.asked.len() == n + 1
                &&& verdict == AnswerView::Sat(SmtResult::Sat) ==> {
                    &&& after.asked.len() == n + 2
                    &&& after.asked[n + 1].request == RequestView::ModelText
                    &&& (s.replies[n + 1].answer matches AnswerView::Text(model) && item->Ok_0
                        == Some(
                        CollectedView::Error(TraceError::Exec { err, model: Some(model) }),
                    ))
                }
            }
            &&& collect::can_be_false(s, end) == (s, Ok::<bool, ExecError>(true))
        }),
{
}

/// A path of a boolean function that ends with a known value can end with
/// false exactly if that is the value. For one that ends with a symbol the
/// solver is asked about just those cases in which the symbol is false, and
/// only a definite no counts.
pub proof fn law_can_be_false(
    s: SolverView,
    v: Sym,
    b: bool,
    frame: FrameView,
    interp: Interp<Sym>,
)
    requires
        (interp.var)(v) is Bool,
    ensures
        collect::can_be_false(s, RunResultView::Finished(Val::Bool(b), frame)) == (
            s,
            Ok::<bool, ExecError>(!b),
        ),
        ({
            let (after, r) = collect::can_be_false(
                s,
                RunResultView::Finished(Val::Symbolic(v), frame),
            );
            let n = s.asked.len() as int;
            &&& after.asked.len() == n + 1
            &&& after.asked[n].request == RequestView::CheckSat
            &&& r matches Ok(bad) ==> (s.replies[n].answer matches AnswerView::Sat(verdict) && bad
                == (verdict != SmtResult::Unsat))
            &&& after.trace.len() > s.trace.len()
            &&& after.trace.take(s.trace.len() as int) == s.trace
            &&& (after.trace[s.trace.len() as int] matches EventView::Smt(DefView::Assert(t), _, _)
                && (semantics::denote(interp, t) == Value::Bool(true) <==> (interp.var)(v)
                == Value::Bool(false)))
        }),
{
    let (after, r) = collect::can_be_false(s, RunResultView::Finished(Val::Symbolic(v), frame));
    let no = super::solver::unary(crate::smt::tree::Op::Not, super::solver::var(v));
    let asserted = s.assert_exp(no);
    assert(after.trace[s.trace.len() as int] == asserted.trace.last());
    assert(after.trace.take(s.trace.len() as int) =~= s.trace);
    reveal_with_fuel(semantics::denote, 3);
    reveal_with_fuel(semantics::denote_all, 3);
    assert(semantics::denote_all(interp, seq![super::solver::var(v)])[0] == (interp.var)(v));
}

/// A path that ends with a value has that value and the last frame as its
/// outcome. One that fails has the error and the calls in progress, innermost
/// last, which ends with where in which function the path was. One that has
/// not ended has none.
pub proof fn law_outcomes(progress: Progress)
    ensures
        ({
            let frame = progress.machine.frame;
            let outcome = run::outcome(progress);
            &&& outcome is None <==> progress.result is None
            &&& progress.result matches Some(Ok(v)) ==> outcome == Some(
                RunResultView::Finished(v, frame),
            )
            &&& progress.result matches Some(Err(e)) ==> (outcome matches Some(
                RunResultView::Failed(err, calls),
            ) && {
                &&& err == e
                &&& calls.len() == frame.backtrace.len() + 1
                &&& calls.drop_last() == frame.backtrace
                &&& calls.last().0 == frame.function_name
                &&& calls.last().1 == frame.pc
            })
        }),
{
    let frame = progress.machine.frame;
    assert(frame.backtrace.push((frame.function_name, frame.pc)).drop_last() =~= frame.backtrace);
}

/// A task that was split off goes on from where it was suspended: with the
/// same frame and the same past, to which the fork and what holds on this
/// side of it are added.
pub proof fn law_task_goes_on(task: TaskView, replies: Seq<ReplyView>)
    ensures
        ({
            let start = explore::start_of(task, replies);
            let past = task.checkpoint.trace;
            &&& start.frame == task.frame
            &&& start.solver.next == task.checkpoint.next
            &&& start.solver.replies == replies
            &&& start.solver.asked.len() == 0
            &&& task.fork_cond is None ==> start.solver.trace == past
            &&& task.fork_cond matches Some((def, event)) ==> {
                &&& start.solver.trace.len() == past.len() + 2
                &&& start.solver.trace.take(past.len() as int) == past
                &&& start.solver.trace[past.len() as int] == event
                &&& (start.solver.trace.last() matches EventView::Smt(added, _, _) && added
                    == def)
            }
        }),
{
    let start = explore::start_of(task, replies);
    let past = task.checkpoint.trace;
    if task.fork_cond is Some {
        assert(start.solver.trace.take(past.len() as int) =~= past);
    }
}

/// Errors that have a place in the source give it, and others do not.
pub proof fn law_places_of_errors(e: ExecError)
    ensures
        e matches ExecError::Type(_, info) ==> e.spec_source_loc() == info,
        e matches ExecError::NoFunction(_, info) ==> e.spec_source_loc() == info,
        e matches ExecError::MatchFailure(info) ==> e.spec_source_loc() == info,
        e matches ExecError::AssertionFailure(_, info) ==> e.spec_source_loc() == info,
        forall|model: Option<String>|
            (#[trigger] (TraceError::Exec { err: e, model }).spec_source_loc())
                == e.spec_source_loc(),
        forall|v: Val|
            (#[trigger] TraceError::UnexpectedValue(v).spec_source_loc()) == SourceLoc::Unknown,
{
}

proof fn lemma_bound(
    m: Map<Name, UVal>,
    params: Seq<(Name, Ty)>,
    vals: Seq<Val>,
    i: int,
    k: int,
    other: Name,
)
    requires
        0 <= i <= params.len(),
        forall|a: int, b: int|
            0 <= a < b < params.len() ==> (#[trigger] params[a]).0 != (#[trigger] params[b]).0,
        forall|a: int| 0 <= a < params.len() ==> (#[trigger] params[a]).0 != other,
    ensures
        ({
            let known = frame::bind_args(m, params, vals, i);
            let unknown = frame::bind_unknown(m, params, i);
            &&& i <= k < params.len() ==> unknown.dom().contains(params[k].0)
                && unknown[params[k].0] == UVal::Uninit(params[k].1)
            &&& i <= k < params.len() && k < vals.len() ==> known.dom().contains(params[k].0)
                && known[params[k].0] == UVal::Init(vals[k])
            &&& 0 <= k < i && m.dom().contains(params[k].0) ==> {
                &&& unknown.dom().contains(params[k].0)
                &&& unknown[params[k].0] == m[params[k].0]
                &&& known.dom().contains(params[k].0)
                &&& known[params[k].0] == m[params[k].0]
            }
            &&& known.dom().contains(other) == m.dom().contains(other)
            &&& m.dom().contains(other) ==> known[other] == m[other]
            &&& unknown.dom().contains(other) == m.dom().contains(other)
            &&& m.dom().contains(other) ==> unknown[other] == m[other]
        }),
    decreases params.len() - i,
{
    if i < params.len() {
        lemma_bound(m.insert(params[i].0, UVal::Uninit(params[i].1)), params, vals, i + 1, k, other);
        if i < vals.len() {
            lemma_bound(m.insert(params[i].0, UVal::Init(vals[i])), params, vals, i + 1, k, other);
        }
    }
}

/// At the start of a function each parameter has the argument that is given
/// for it, or any value of its type if none are. The result has no value yet,
/// there are no other variables, and nothing has been executed.
pub proof fn law_start_of_function(
    name: Name,
    params: Seq<(Name, Ty)>,
    ret_ty: Ty,
    vals: Seq<Val>,
    instrs: Arc<Vec<Instr>>,
    k: int,
    other: Name,
)
    requires
        forall|a: int, b: int|
            0 <= a < b < params.len() ==> (#[trigger] params[a]).0 != (#[trigger] params[b]).0,
        forall|a: int| 0 <= a < params.len() ==> (#[trigger] params[a]).0 != RETURN,
        forall|a: int| 0 <= a < params.len() ==> (#[trigger] params[a]).0 != other,
        other != RETURN,
        0 <= k < params.len(),
    ensures
        ({
            let given = frame::initial_frame(name, params, ret_ty, Some(vals), instrs);
            let open = frame::initial_frame(name, params, ret_ty, None, instrs);
            &&& k < vals.len() ==> given.local.vars[params[k].0] == UVal::Init(vals[k])
            &&& open.local.vars[params[k].0] == UVal::Uninit(params[k].1)
            &&& given.local.vars[RETURN] == UVal::Uninit(ret_ty)
            &&& open.local.vars[RETURN] == UVal::Uninit(ret_ty)
            &&& !given.local.vars.dom().contains(other)
            &&& !open.local.vars.dom().contains(other)
            &&& given.pc == 0 && open.pc == 0
            &&& given.forks == 0 && open.forks == 0
            &&& given.function_name == name && open.function_name == name
            &&& given.instrs == instrs && open.instrs == instrs
        }),
{
    let m = Map::<Name, UVal>::empty().insert(RETURN, UVal::Uninit(ret_ty));
    lemma_bound(m, params, vals, 0, k, other);
    lemma_bound(m, params, vals, 0, k, RETURN);
}

/// Before anything is executed no exception is being thrown, and the empty
/// list has its name.
pub proof fn law_initial_globals()
    ensures
        frame::current_exception(frame::initial_lets()) is None,
        frame::initial_lets()[NULL] == UVal::Init(Val::List(Vals::Nil)),
        frame::initial_lets()[HAVE_EXCEPTION] == UVal::Init(Val::Bool(false)),
        frame::initial_lets()[CURRENT_EXCEPTION] is Uninit,
        frame::initial_lets()[THROW_LOCATION] == UVal::Uninit(Ty::String),
{
}

/// An exception is being thrown once there is one and it is said that there
/// is; it comes with the place where it was thrown.
pub proof fn law_thrown_exception(lets: Map<Name, UVal>, v: Val, place: String, said: bool)
    ensures
        ({
            let thrown = lets.insert(HAVE_EXCEPTION, UVal::Init(Val::Bool(said))).insert(
                CURRENT_EXCEPTION,
                UVal::Init(v),
            ).insert(THROW_LOCATION, UVal::Init(Val::String(place)));
            &&& said ==> frame::current_exception(thrown) == Some((v, place@))
            &&& !said ==> frame::current_exception(thrown) is None
        }),
{
}

/// Whether a symbol has a name, as it is decoded or as it is spelled.
pub open spec fn is_named(sh: SharedState, i: int, name: Seq<char>, decoded: bool) -> bool {
    let symbol = sh.symtab@[i];
    if decoded {
        symbol.decoded matches Some(s) && s@ == name
    } else {
        symbol.spelling@ == name
    }
}

/// The symbol that is found under a name has that name, and is the first that
/// does; if none is found, none has it.
pub proof fn law_symbol_is_found(sh: SharedState, name: Seq<char>, decoded: bool, i: int)
    requires
        0 <= i <= sh.symtab@.len() <= u32::MAX,
    ensures
        match stop::find_symbol(sh, name, decoded, i) {
            Some(n) => {
                &&& i <= n < sh.symtab@.len()
                &&& is_named(sh, n as int, name, decoded)
                &&& forall|j: int| i <= j < n ==> !#[trigger] is_named(sh, j, name, decoded)
            },
            None => forall|j: int|
                i <= j < sh.symtab@.len() ==> !#[trigger] is_named(sh, j, name, decoded),
        },
    decreases sh.symtab@.len() - i,
{
    if i < sh.symtab@.len() {
        if is_named(sh, i, name, decoded) {
        } else {
            law_symbol_is_found(sh, name, decoded, i + 1);
        }
    }
}

/// A function is found by its decoded name if any symbol has that, and else by
/// its spelling.
pub proof fn law_function_is_found(sh: SharedState, name: Seq<char>)
    requires
        sh.symtab@.len() <= u32::MAX,
    ensures
        match stop::function_named(sh, name) {
            Some(n) => {
                &&& n < sh.symtab@.len()
                &&& is_named(sh, n as int, name, true) || {
                    &&& is_named(sh, n as int, name, false)
                    &&& forall|j: int|
                        0 <= j < sh.symtab@.len() ==> !#[trigger] is_named(sh, j, name, true)
                }
            },
            None => forall|j: int|
                0 <= j < sh.symtab@.len() ==> !#[trigger] is_named(sh, j, name, true)
                    && !is_named(sh, j, name, false),
        },
{
    law_symbol_is_found(sh, name, true, 0);
    law_symbol_is_found(sh, name, false, 0);
    if stop::function_named(sh, name) is None {
        assert forall|j: int| 0 <= j < sh.symtab@.len() implies !#[trigger] is_named(
            sh,
            j,
            name,
            true,
        ) && !is_named(sh, j, name, false) by {
            assert(!is_named(sh, j, name, false));
        }
    }
}

/// Whether a text has no comma in it.
pub open spec fn is_single(s: Seq<char>) -> bool {
    forall|i: int| 0 <= i < s.len() ==> s[i] != ','
}

/// A condition that names one function stops at that function wherever it is
/// called. One that names two, with a comma between them, stops at the first
/// where the second is among the callers. Anything else is no condition.
pub proof fn law_texts_of_conditions(sh: SharedState, f: Seq<char>, g: Seq<char>, more: Seq<char>)
    requires
        is_single(f),
        is_single(g),
    ensures
        stop::condition(sh, f) == match stop::function_named(sh, f) {
            Some(function) => Some(StopPoint { function, context: None }),
            None => None,
        },
        stop::condition(sh, f + seq![','] + g) == match (
            stop::function_named(sh, f),
            stop::function_named(sh, g),
        ) {
            (Some(function), Some(context)) => Some(
                StopPoint { function, context: Some(context) },
            ),
            _ => None,
        },
        stop::condition(sh, f + seq![','] + g + seq![','] + more) is None,
{
    text::lemma_position_is(f, ',', f.len());
    let two = f + seq![','] + g;
    text::lemma_position_is(two, ',', f.len());
    assert(two.take(f.len() as int) =~= f);
    assert(two.skip(f.len() as int + 1) =~= g);
    text::lemma_position_is(g, ',', g.len());
    let many = f + seq![','] + g + seq![','] + more;
    text::lemma_position_is(many, ',', f.len());
    let rest = many.skip(f.len() as int + 1);
    assert(rest =~= g + seq![','] + more);
    text::lemma_position_is(rest, ',', g.len());
}

proof fn lemma_conditions_kept(
    stops: Map<StopPoint, StopAction>,
    sh: SharedState,
    args: Seq<String>,
    action: StopAction,
    i: int,
    point: StopPoint,
)
    requires
        0 <= i <= args.len(),
    ensures
        ({
            let all = stop::add_conditions(stops, sh, args, action, i);
            &&& stops.dom().contains(point) ==> all.dom().contains(point) && (all[point]
                == stops[point] || all[point] == action)
            &&& all.dom().contains(point) && !stops.dom().contains(point) ==> all[point] == action
                && exists|k: int|
                i <= k < args.len() && stop::condition(sh, (#[trigger] args[k])@)->0 == point
        }),
    decreases args.len() - i,
{
    if i < args.len() {
        let first = stop::condition(sh, args[i]@)->0;
        lemma_conditions_kept(stops.insert(first, action), sh, args, action, i + 1, point);
        if point == first {
            assert(stop::condition(sh, args[i]@)->0 == point);
        }
    }
}

/// The conditions that are read from texts are those that the texts stand
/// for, each of them and no other, and all have the action that is given.
pub proof fn law_conditions_are_added(
    sh: SharedState,
    args: Seq<String>,
    action: StopAction,
    i: int,
    stops: Map<StopPoint, StopAction>,
    point: StopPoint,
)
    requires
        0 <= i <= args.len(),
        forall|p: StopPoint| #[trigger] stops.dom().contains(p) ==> stops[p] == action,
    ensures
        ({
            let all = stop::add_conditions(stops, sh, args, action, i);
            &&& forall|k: int|
                i <= k < args.len() ==> all.dom().contains(
                    stop::condition(sh, (#[trigger] args[k])@)->0,
                )
            &&& all.dom().contains(point) ==> all[point] == action && (stops.dom().contains(point)
                || exists|k: int|
                i <= k < args.len() && stop::condition(sh, (#[trigger] args[k])@)->0 == point)
        }),
{
    let all = stop::add_conditions(stops, sh, args, action, i);
    lemma_conditions_kept(stops, sh, args, action, i, point);
    assert forall|k: int| i <= k < args.len() implies all.dom().contains(
        stop::condition(sh, (#[trigger] args[k])@)->0,
    ) by {
        lemma_condition_is_added(sh, args, action, i, stops, k);
    }
}

proof fn lemma_condition_is_added(
    sh: SharedState,
    args: Seq<String>,
    action: StopAction,
    i: int,
    stops: Map<StopPoint, StopAction>,
    k: int,
)
    requires
        0 <= i <= k < args.len(),
    ensures
        stop::add_conditions(stops, sh, args, action, i).dom().contains(
            stop::condition(sh, args[k]@)->0,
        ),
    decreases k - i,
{
    let first = stop::condition(sh, args[i]@)->0;
    let next = stops.insert(first, action);
    if i < k {
        lemma_condition_is_added(sh, args, action, i + 1, next, k);
    } else {
        lemma_conditions_kept(next, sh, args, action, i + 1, first);
    }
}

/// Among the callers of a function are the one that calls it and all those
/// whose calls are in progress, and no others.
pub proof fn law_callers(caller: Name, backtrace: Seq<(Name, usize)>, name: Name)
    ensures
        stop::among_callers(caller, caller, backtrace),
        forall|i: int|
            0 <= i < backtrace.len() ==> stop::among_callers(
                (#[trigger] backtrace[i]).0,
                caller,
                backtrace,
            ),
        stop::among_callers(name, caller, backtrace) && name != caller ==> exists|i: int|
            0 <= i < backtrace.len() && (#[trigger] backtrace[i]).0 == name,
{
}

/// What is taken over replaces what there was, and the rest stays: registers
/// for registers, and variables at the top level for such variables.
pub proof fn law_taken_over(frame: FrameView, more: Map<Name, UVal>, id: Name)
    ensures
        ({
            let (regs, lets) = (frame.with_regs(more), frame.with_lets(more));
            let (old_regs, new_regs) = (frame.local.regs.values, regs.local.regs.values);
            let (old_lets, new_lets) = (frame.local.lets, lets.local.lets);
            &&& more.dom().contains(id) ==> new_regs.dom().contains(id) && new_regs[id] == more[id]
            &&& more.dom().contains(id) ==> new_lets.dom().contains(id) && new_lets[id] == more[id]
            &&& !more.dom().contains(id) ==> {
                &&& new_regs.dom().contains(id) == old_regs.dom().contains(id)
                &&& old_regs.dom().contains(id) ==> new_regs[id] == old_regs[id]
                &&& new_lets.dom().contains(id) == old_lets.dom().contains(id)
                &&& old_lets.dom().contains(id) ==> new_lets[id] == old_lets[id]
            }
            &&& regs.local.vars == frame.local.vars && regs.local.lets == frame.local.lets
            &&& lets.local.vars == frame.local.vars && lets.local.regs == frame.local.regs
            &&& regs.local.regs.unsynchronized == frame.local.regs.unsynchronized
        }),
{
}

/// A function that is started from a frame finds its registers, the variables
/// at the top level, the memory and the number of forks, and none of its
/// variables or calls.
pub proof fn law_started_from_frame(frame: FrameView, fresh: FrameView)
    ensures
        ({
            let called = frame.calling(fresh);
            &&& called.local.regs == frame.local.regs
            &&& called.local.lets == frame.local.lets
            &&& called.local.vars == fresh.local.vars
            &&& called.memory == frame.memory
            &&& called.forks == frame.forks
            &&& called.pc == fresh.pc && called.instrs == fresh.instrs
            &&& called.function_name == fresh.function_name
            &&& called.stack_call == fresh.stack_call && called.backtrace == fresh.backtrace
        }),
{
}

/// Conditions that are put together all count, and of two for one function
/// and context the second does.
pub proof fn law_conditions_together(
    first: Map<StopPoint, StopAction>,
    second: Map<StopPoint, StopAction>,
    point: StopPoint,
)
    ensures
        ({
            let all = stop::united(first, second);
            &&& all.dom().contains(point) <==> first.dom().contains(point) || second.dom().contains(
                point,
            )
            &&& second.dom().contains(point) ==> all[point] == second[point]
            &&& first.dom().contains(point) && !second.dom().contains(point) ==> all[point]
                == first[point]
        }),
{
}

} // verus!
