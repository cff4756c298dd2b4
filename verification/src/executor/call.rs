//! Calling functions and returning from them.

use super::assign;
use super::assign::assign as assign_to;
use super::error::{ExecError, Malformed};
use super::frame::{self, pop_call_stack, push_call_stack, share, Assumption, CallRecord, FrameView, LocalFrame};
use super::ir::{is_member, Function, Loc, SharedState, SourceLoc, UVal, Val, RETURN};
use super::names::{Dup, Name};
use super::reset::{self, Machine};
use super::run::{self, Context, Effect, Flow};
use super::solver::{self, Event, EventView, Request, RequestView, SmtResult, Solver, SolverView};
use super::state::LocalView;
use super::stop::StopAction;
use crate::smt::smtlib::{Exp, Sym};
use crate::smt::tree::{self, Tree};
use vstd::prelude::*;

verus! {

/// The condition that a symbol is false.
pub open spec fn is_false(v: Sym) -> Tree<Sym> {
    solver::binary(tree::Op::Eq, solver::var(v), tree::leaf(tree::Op::Bool(false)))
}

/// Whether two values are certain to be equal.
pub open spec fn certainly_equal(s: SolverView, a: Val, b: Val, info: SourceLoc) -> (
    SolverView,
    Result<bool, ExecError>,
) {
    let (s, r) = s.ask_val(RequestView::EqAnything(a, b), info);
    match r {
        Err(e) => (s, Err(e)),
        Ok(Val::Bool(b)) => (s, Ok(b)),
        Ok(Val::Symbolic(v)) => {
            let (s, r) = s.ask_sat(RequestView::CheckSatWith(is_false(v)), info);
            (
                s,
                match r {
                    Err(e) => Err(e),
                    Ok(verdict) => Ok(verdict == SmtResult::Unsat),
                },
            )
        },
        Ok(_) => (s, Err(ExecError::Malformed(Malformed::Incomparable))),
    }
}

fn is_certainly_equal(a: &Val, b: &Val, solver: &mut Solver, info: SourceLoc) -> (r: Result<
    bool,
    ExecError,
>)
    ensures
        (final(solver)@, r) == certainly_equal(old(solver)@, *a, *b, info),
{
    match solver.ask_val(Request::EqAnything(a.dup(), b.dup()), info) {
        Err(e) => Err(e),
        Ok(Val::Bool(b)) => Ok(b),
        Ok(Val::Symbolic(v)) => {
            let constant = Exp::Bool(false);
            proof {
                constant.lemma_tree0();
            }
            let exp = Exp::Eq(Box::new(Exp::Var(v)), Box::new(constant));
            proof {
                exp.lemma_tree2();
            }
            match solver.ask_sat(Request::CheckSatWith(exp), info) {
                Err(e) => Err(e),
                Ok(verdict) => Ok(verdict == SmtResult::Unsat),
            }
        },
        Ok(_) => Err(ExecError::Malformed(Malformed::Incomparable)),
    }
}

/// Whether arguments are certain to be those that are asked for, from
/// position `i` on. The first that is not settles it.
pub open spec fn certainly_all_equal(
    s: SolverView,
    required: Seq<Val>,
    args: Seq<Val>,
    i: int,
    info: SourceLoc,
) -> (SolverView, Result<bool, ExecError>)
    decreases required.len() - i,
{
    if 0 <= i < required.len() {
        let (s, r) = certainly_equal(s, required[i], args[i], info);
        match r {
            Err(e) => (s, Err(e)),
            Ok(b) => if b {
                certainly_all_equal(s, required, args, i + 1, info)
            } else {
                (s, Ok(false))
            },
        }
    } else {
        (s, Ok(true))
    }
}

fn are_certainly_equal(
    required: &Vec<Val>,
    args: &Vec<Val>,
    solver: &mut Solver,
    info: SourceLoc,
) -> (r: Result<bool, ExecError>)
    requires
        required@.len() == args@.len(),
    ensures
        (final(solver)@, r) == certainly_all_equal(old(solver)@, required@, args@, 0, info),
{
    let ghost whole = certainly_all_equal(solver@, required@, args@, 0, info);
    let mut i: usize = 0;
    while i < required.len()
        invariant
            i <= required@.len(),
            required@.len() == args@.len(),
            whole == certainly_all_equal(old(solver)@, required@, args@, 0, info),
            whole == certainly_all_equal(solver@, required@, args@, i as int, info),
        decreases required@.len() - i,
    {
        match is_certainly_equal(&required[i], &args[i], solver, info) {
            Err(e) => {
                return Err(e);
            },
            Ok(b) => {
                if !b {
                    return Ok(false);
                }
            },
        }
        i = i + 1;
    }
    Ok(true)
}

/// The result of the first assumption from position `i` on that is certain to
/// apply to a call.
pub open spec fn assumed_result(
    s: SolverView,
    assumptions: Seq<Assumption>,
    f: Name,
    args: Seq<Val>,
    i: int,
    info: SourceLoc,
) -> (SolverView, Result<Option<Val>, ExecError>)
    decreases assumptions.len() - i,
{
    if 0 <= i < assumptions.len() {
        let a = assumptions[i];
        if a.function == f && a.args@.len() == args.len() {
            let (s, r) = certainly_all_equal(s, a.args@, args, 0, info);
            match r {
                Err(e) => (s, Err(e)),
                Ok(b) => if b {
                    (s, Ok(Some(a.result)))
                } else {
                    assumed_result(s, assumptions, f, args, i + 1, info)
                },
            }
        } else {
            assumed_result(s, assumptions, f, args, i + 1, info)
        }
    } else {
        (s, Ok(None))
    }
}

fn find_assumption(
    assumptions: &Vec<Assumption>,
    f: Name,
    args: &Vec<Val>,
    solver: &mut Solver,
    info: SourceLoc,
) -> (r: Result<Option<Val>, ExecError>)
    ensures
        (final(solver)@, r) == assumed_result(old(solver)@, assumptions@, f, args@, 0, info),
{
    let ghost whole = assumed_result(solver@, assumptions@, f, args@, 0, info);
    let mut i: usize = 0;
    while i < assumptions.len()
        invariant
            i <= assumptions@.len(),
            whole == assumed_result(old(solver)@, assumptions@, f, args@, 0, info),
            whole == assumed_result(solver@, assumptions@, f, args@, i as int, info),
        decreases assumptions@.len() - i,
    {
        let a = &assumptions[i];
        if a.function == f {
            let required = a.args.to_vec();
            if required.len() == args.len() {
                match are_certainly_equal(&required, args, solver, info) {
                    Err(e) => {
                        return Err(e);
                    },
                    Ok(b) => {
                        if b {
                            return Ok(Some(a.result.dup()));
                        }
                    },
                }
            }
        }
        i = i + 1;
    }
    Ok(None)
}

/// Enters a function.
pub open spec fn enter(
    frame: FrameView,
    f: Name,
    function: Function,
    loc: Loc,
    args: Seq<Val>,
    info: SourceLoc,
) -> FrameView {
    let called = frame.push_vars();
    FrameView {
        function_name: f,
        pc: 0,
        local: LocalView {
            vars: frame::bind_args(
                Map::<Name, UVal>::empty().insert(RETURN, UVal::Uninit(function.ret_ty)),
                function.params@,
                args,
                0,
            ),
            ..called.local
        },
        instrs: function.instrs,
        stack_call: frame.stack_call.push(
            CallRecord { pc: (frame.pc + 1) as usize, instrs: frame.instrs, loc, info },
        ),
        backtrace: frame.backtrace.push((frame.function_name, frame.pc)),
        ..called
    }
}

/// Records that a function that is traced is entered or left.
pub open spec fn trace_function(s: SolverView, sh: SharedState, f: Name, call: bool) -> SolverView {
    if sh.trace_functions@.contains(f) {
        s.record(EventView::Function { name: f, call })
    } else {
        s
    }
}

/// What a stop condition decides about a call.
pub open spec fn stop_decision(cx: Context, frame: FrameView, f: Name) -> Option<StopAction> {
    match cx.stop_conditions {
        None => None,
        Some(stop) => stop.decision(f, frame.function_name, frame.backtrace),
    }
}

/// Calls a function that the program defines, with arguments that have been
/// evaluated.
pub open spec fn call_with(
    m: Machine,
    sh: SharedState,
    cx: Context,
    loc: Loc,
    f: Name,
    function: Function,
    args: Seq<Val>,
    info: SourceLoc,
) -> Effect {
    let m = Machine { solver: trace_function(m.solver, sh, f, true), ..m };
    match stop_decision(cx, m.frame, f) {
        Some(StopAction::Kill) => run::fail(m, ExecError::Stopped(f)),
        Some(StopAction::Abstract) => Effect {
            machine: Machine {
                solver: m.solver.record(
                    EventView::Abstract {
                        name: f,
                        primitive: false,
                        args,
                        return_value: Val::Poison,
                    },
                ),
                ..m
            },
            spawned: seq![],
            result: Ok(Flow::Done(Val::Poison)),
        },
        None => {
            let (s, r) = assumed_result(
                m.solver,
                m.frame.function_assumptions,
                f,
                args,
                0,
                info,
            );
            let m = Machine { solver: s, ..m };
            match r {
                Err(e) => run::fail(m, e),
                Ok(Some(result)) => {
                    let (w, r) = assign::assigned(m.world(), sh, loc, result, seq![], info);
                    let m = m.with_world(w);
                    match r {
                        Err(e) => run::fail(m, e),
                        Ok(_) => run::proceed(
                            run::advance(
                                Machine {
                                    solver: m.solver.record(
                                        EventView::UseFunAssumption {
                                            name: f,
                                            args,
                                            return_value: result,
                                        },
                                    ),
                                    ..m
                                },
                            ),
                            Ok(()),
                        ),
                    }
                },
                Ok(None) => if args.len() > function.params@.len() {
                    run::fail(m, ExecError::Malformed(Malformed::MissingArguments))
                } else {
                    run::proceed(
                        Machine {
                            frame: enter(m.frame, f, function, loc, args, info),
                            ..m
                        },
                        Ok(()),
                    )
                },
            }
        },
    }
}

fn record_function(f: Name, call: bool, shared_state: &SharedState, solver: &mut Solver)
    ensures
        final(solver)@ == trace_function(old(solver)@, *shared_state, f, call),
{
    if is_member(&shared_state.trace_functions, f) {
        solver.add_event(Event::Function { name: f, call });
    }
}

fn decide_stop(cx: &Context, frame: &LocalFrame, f: Name) -> (r: Option<StopAction>)
    ensures
        r == stop_decision(*cx, frame@, f),
{
    match &cx.stop_conditions {
        None => None,
        Some(stop) => stop.should_stop(f, frame.function_name, &frame.backtrace),
    }
}

fn enter_function(
    f: Name,
    function: &Function,
    loc: &Loc,
    args: Vec<Val>,
    info: SourceLoc,
    frame: &mut LocalFrame,
)
    requires
        old(frame)@.pc < usize::MAX,
        args@.len() <= function.params@.len(),
    ensures
        final(frame)@ == enter(
            old(frame)@,
            f,
            *function,
            *loc,
            args@,
            info,
        ),
{
    let caller_pc = frame.pc;
    let caller_instrs = share(&frame.instrs);
    push_call_stack(frame);
    frame.backtrace.push((frame.function_name, caller_pc));
    frame.function_name = f;
    frame.local_state.vars.insert(RETURN, UVal::Uninit(function.ret_ty.dup()));
    frame.stack_call.push(
        CallRecord { pc: caller_pc + 1, instrs: caller_instrs, loc: loc.dup(), info },
    );
    let ghost start = frame.local_state.vars@;
    let ghost rest = frame@;
    let mut i: usize = 0;
    while i < args.len()
        invariant
            i <= args@.len(),
            args@.len() <= function.params@.len(),
            frame::bind_args(start, function.params@, args@, 0) == frame::bind_args(
                frame.local_state.vars@,
                function.params@,
                args@,
                i as int,
            ),
            frame@ == (FrameView {
                local: LocalView { vars: frame.local_state.vars@, ..rest.local },
                ..rest
            }),
        decreases args@.len() - i,
    {
        frame.local_state.vars.insert(function.params[i].0, UVal::Init(args[i].dup()));
        i = i + 1;
    }
    frame.pc = 0;
    frame.instrs = share(&function.instrs);
}

pub(crate) fn run_call_with(
    cx: &Context,
    loc: &Loc,
    f: Name,
    function: &Function,
    args: Vec<Val>,
    info: SourceLoc,
    frame: &mut LocalFrame,
    shared_state: &SharedState,
    solver: &mut Solver,
) -> (r: Result<Flow, ExecError>)
    requires
        old(frame)@.pc < usize::MAX,
    ensures
        ({
            let effect = call_with(
                reset::machine(*old(frame), *old(solver)),
                *shared_state,
                *cx,
                *loc,
                f,
                *function,
                args@,
                info,
            );
            &&& reset::machine(*final(frame), *final(solver)) == effect.machine
            &&& effect.spawned.len() == 0
            &&& r == effect.result
        }),
{
    record_function(f, true, shared_state, solver);
    match decide_stop(cx, frame, f) {
        Some(StopAction::Kill) => {
            return Err(ExecError::Stopped(f));
        },
        Some(StopAction::Abstract) => {
            let event = Event::Abstract {
                name: f,
                primitive: false,
                args,
                return_value: Val::Poison,
            };
            solver.add_event(event);
            return Ok(Flow::Done(Val::Poison));
        },
        None => {},
    }
    match find_assumption(&frame.function_assumptions, f, &args, solver, info) {
        Err(e) => {
            return Err(e);
        },
        Ok(Some(result)) => {
            return match assign_to(
                loc,
                result.dup(),
                &mut frame.local_state,
                shared_state,
                solver,
                info,
            ) {
                Err(e) => Err(e),
                Ok(_) => {
                    let event = Event::UseFunAssumption { name: f, args, return_value: result };
                    solver.add_event(event);
                    frame.pc = frame.pc + 1;
                    Ok(Flow::Next)
                },
            };
        },
        Ok(None) => {},
    }
    if args.len() > function.params.len() {
        return Err(ExecError::Malformed(Malformed::MissingArguments));
    }
    enter_function(f, function, loc, args, info, frame);
    Ok(Flow::Next)
}

/// Goes back to the caller, as far as it concerns the frame.
pub open spec fn leave(frame: FrameView) -> FrameView {
    let record = frame.stack_call.last();
    let popped = frame.pop_vars();
    FrameView {
        function_name: if frame.backtrace.len() > 0 {
            frame.backtrace.last().0
        } else {
            frame.function_name
        },
        pc: record.pc,
        instrs: record.instrs,
        stack_call: frame.stack_call.drop_last(),
        backtrace: if frame.backtrace.len() > 0 {
            frame.backtrace.drop_last()
        } else {
            frame.backtrace
        },
        ..popped
    }
}

/// Returns a value to the caller. Without a caller the path is at its end.
pub open spec fn return_value(m: Machine, sh: SharedState, v: Val) -> Effect {
    let m = Machine { solver: trace_function(m.solver, sh, m.frame.function_name, false), ..m };
    if m.frame.stack_call.len() == 0 {
        Effect { machine: m, spawned: seq![], result: Ok(Flow::Done(v)) }
    } else {
        let record = m.frame.stack_call.last();
        let m = Machine { frame: leave(m.frame), ..m };
        let (w, r) = assign::assigned(m.world(), sh, record.loc, v, seq![], record.info);
        run::proceed(m.with_world(w), r)
    }
}

pub(crate) fn run_return(
    v: Val,
    frame: &mut LocalFrame,
    shared_state: &SharedState,
    solver: &mut Solver,
) -> (r: Result<Flow, ExecError>)
    ensures
        ({
            let effect = return_value(
                reset::machine(*old(frame), *old(solver)),
                *shared_state,
                v,
            );
            &&& reset::machine(*final(frame), *final(solver)) == effect.machine
            &&& effect.spawned.len() == 0
            &&& r == effect.result
        }),
{
    record_function(frame.function_name, false, shared_state, solver);
    let ghost before = frame@;
    let record = match frame.stack_call.pop() {
        None => {
            return Ok(Flow::Done(v));
        },
        Some(record) => record,
    };
    pop_call_stack(frame);
    match frame.backtrace.pop() {
        Some((name, _)) => {
            frame.function_name = name;
        },
        None => {},
    }
    frame.pc = record.pc;
    frame.instrs = record.instrs;
    assert(frame@ == leave(before));
    match assign_to(
        &record.loc,
        v,
        &mut frame.local_state,
        shared_state,
        solver,
        record.info,
    ) {
        Ok(_) => Ok(Flow::Next),
        Err(e) => Err(e),
    }
}

/// Ends a function. If its result was never set, any value will do.
pub open spec fn end(m: Machine, sh: SharedState) -> Effect {
    let vars = m.frame.local.vars;
    if vars.dom().contains(RETURN) {
        match vars[RETURN] {
            UVal::Init(v) => return_value(m, sh, v),
            UVal::Uninit(ty) => {
                let (s, r) = m.solver.ask_val(RequestView::Symbolic(ty), SourceLoc::Unknown);
                let m = Machine { solver: s, ..m };
                match r {
                    Err(e) => run::fail(m, e),
                    Ok(v) => return_value(m, sh, v),
                }
            },
        }
    } else {
        run::fail(m, ExecError::Malformed(Malformed::NoReturnVariable))
    }
}

pub(crate) fn run_end(
    frame: &mut LocalFrame,
    shared_state: &SharedState,
    solver: &mut Solver,
) -> (r: Result<Flow, ExecError>)
    ensures
        ({
            let effect = end(reset::machine(*old(frame), *old(solver)), *shared_state);
            &&& reset::machine(*final(frame), *final(solver)) == effect.machine
            &&& effect.spawned.len() == 0
            &&& r == effect.result
        }),
{
    let uval = match frame.vars().get(RETURN) {
        None => {
            return Err(ExecError::Malformed(Malformed::NoReturnVariable));
        },
        Some(uval) => uval.dup(),
    };
    let v = match uval {
        UVal::Init(v) => v,
        UVal::Uninit(ty) => match solver.ask_val(Request::Symbolic(ty), SourceLoc::Unknown) {
            Err(e) => {
                return Err(e);
            },
            Ok(v) => v,
        },
    };
    run_return(v, frame, shared_state, solver)
}

/// Leaving a function brings back the frame that entered it, whatever the
/// function has made of its variables, except that execution goes on behind
/// the call. What the function has done to registers, memory and the rest
/// stays.
pub proof fn law_return_undoes_call(
    before: FrameView,
    f: Name,
    function: Function,
    loc: Loc,
    args: Seq<Val>,
    info: SourceLoc,
    vars: Map<Name, UVal>,
    pc: usize,
)
    ensures
        ({
            let inside = enter(before, f, function, loc, args, info);
            let ending = FrameView { pc, local: LocalView { vars, ..inside.local }, ..inside };
            leave(ending) == FrameView { pc: (before.pc + 1) as usize, ..before }
        }),
{
    let inside = enter(before, f, function, loc, args, info);
    assert(inside.stack_call.drop_last() =~= before.stack_call);
    assert(inside.backtrace.drop_last() =~= before.backtrace);
    assert(inside.stack_vars.drop_last() =~= before.stack_vars);
}

} // verus!
