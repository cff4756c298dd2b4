//! Executing a path.

use super::call::{self, run_call_with, run_end, run_return};
use super::error::{ExecError, TypeError};
use super::eval::{self, eval_args, eval_exp};
use super::frame::{freeze_frame, freeze_frame_at, share, unfreeze_frame, Backtrace, Frame, FrameView, LocalFrame};
use super::ir::{Exp, ExitCause, Instr, Loc, Primop, SharedState, SourceLoc, UVal, Val};
use super::names::{Dup, Name};
use super::reset::{self, Machine, TaskState};
use super::solver::{self, Answer, AnswerView, DefView, Event, EventView, Request, RequestView, Solver, SolverView, SymbolValue};
use super::special::{self, ask_for_step, assign_and_advance, run_special_primop};
use super::state::{self, get_id_and_initialize, LocalView};
use super::stop::StopConditions;
use super::task::{self, checkpoint, share_conditions, Task, TaskView};
use crate::bitvector::B64;
use crate::bv;
use crate::smt::literal::{self, bits64};
use crate::smt::smtlib::{self, Def, Sym};
use crate::smt::tree::{self, Tree};
use std::sync::Arc;
use vstd::prelude::*;

verus! {

/// What stays the same along a path.
pub struct Context {
    pub task_id: usize,
    /// The seconds that the path may take.
    pub timeout: Option<u64>,
    pub stop_conditions: Option<Arc<StopConditions>>,
    pub task_state: Arc<TaskState>,
}

/// How execution goes on after an instruction.
pub enum Flow {
    Next,
    Done(Val),
}

/// The effect of an instruction.
pub struct Effect {
    pub machine: Machine,
    /// The paths that branch off.
    pub spawned: Seq<TaskView>,
    pub result: Result<Flow, ExecError>,
}

/// Goes on, or fails.
pub open spec fn proceed(m: Machine, r: Result<(), ExecError>) -> Effect {
    Effect {
        machine: m,
        spawned: seq![],
        result: match r {
            Ok(_) => Ok(Flow::Next),
            Err(e) => Err(e),
        },
    }
}

pub open spec fn fail(m: Machine, e: ExecError) -> Effect {
    Effect { machine: m, spawned: seq![], result: Err(e) }
}

pub open spec fn goto(m: Machine, pc: usize) -> Machine {
    Machine { frame: FrameView { pc, ..m.frame }, ..m }
}

pub open spec fn advance(m: Machine) -> Machine {
    goto(m, (m.frame.pc + 1) as usize)
}

pub open spec fn assert_that(m: Machine, t: Tree<Sym>) -> Machine {
    Machine { solver: m.solver.assert_exp(t), ..m }
}

/// The views of a list of tasks.
pub open spec fn task_views(tasks: Seq<Task>) -> Seq<TaskView> {
    Seq::new(tasks.len(), |i: int| tasks[i]@)
}

/// Whether the result, the machine and the tasks that were added are as an
/// effect says.
pub open spec fn agrees(
    effect: Effect,
    m: Machine,
    before: Seq<TaskView>,
    after: Seq<TaskView>,
    r: Result<Flow, ExecError>,
) -> bool {
    &&& m == effect.machine
    &&& after == before + effect.spawned
    &&& r == effect.result
}

/// Evaluates an expression, as a part of an instruction.
pub open spec fn eval_in(m: Machine, sh: SharedState, exp: Exp, info: SourceLoc) -> (
    Machine,
    Result<Val, ExecError>,
) {
    let (w, r) = eval::eval(m.world(), sh, exp, seq![], info);
    (m.with_world(w), r)
}

fn eval_in_frame(
    exp: &Exp,
    frame: &mut LocalFrame,
    shared_state: &SharedState,
    solver: &mut Solver,
    info: SourceLoc,
) -> (r: Result<Val, ExecError>)
    ensures
        (reset::machine(*final(frame), *final(solver)), r) == eval_in(
            reset::machine(*old(frame), *old(solver)),
            *shared_state,
            *exp,
            info,
        ),
{
    eval_exp(exp, &mut frame.local_state, shared_state, solver, info)
}

pub open spec fn eval_all_in(m: Machine, sh: SharedState, exps: Seq<Exp>, info: SourceLoc) -> (
    Machine,
    Result<Seq<Val>, ExecError>,
) {
    let (w, r) = eval::eval_all(m.world(), sh, exps, 0, seq![], info);
    (m.with_world(w), r)
}

fn eval_all_in_frame(
    exps: &Vec<Exp>,
    frame: &mut LocalFrame,
    shared_state: &SharedState,
    solver: &mut Solver,
    info: SourceLoc,
) -> (r: Result<Vec<Val>, ExecError>)
    ensures
        ({
            let (m, out) = eval_all_in(
                reset::machine(*old(frame), *old(solver)),
                *shared_state,
                exps@,
                info,
            );
            &&& reset::machine(*final(frame), *final(solver)) == m
            &&& match r {
                Ok(vals) => out == Ok::<Seq<Val>, ExecError>(vals@),
                Err(e) => out == Err::<Seq<Val>, ExecError>(e),
            }
        }),
{
    eval_args(exps, &mut frame.local_state, shared_state, solver, info)
}

/// Whether an expression can be true, together with all that is known.
pub open spec fn can_be(s: SolverView, t: Tree<Sym>, info: SourceLoc) -> (
    SolverView,
    Result<bool, ExecError>,
) {
    let (s, r) = s.ask_sat(RequestView::CheckSatWith(t), info);
    (
        s,
        match r {
            Err(e) => Err(e),
            Ok(verdict) => verdict.spec_is_sat(),
        },
    )
}

fn check_sat_with(exp: &smtlib::Exp<Sym>, solver: &mut Solver, info: SourceLoc) -> (r: Result<
    bool,
    ExecError,
>)
    ensures
        (final(solver)@, r) == can_be(old(solver)@, exp.tree(), info),
{
    match solver.ask_sat(Request::CheckSatWith(exp.clone()), info) {
        Err(e) => Err(e),
        Ok(verdict) => verdict.is_sat(),
    }
}

/// A jump on a condition that is symbolic. Where it can go both ways, a new
/// path goes on behind the jump, and this one takes it.
pub open spec fn branch(m: Machine, cx: Context, v: Sym, target: usize, info: SourceLoc) -> Effect {
    let yes = solver::var(v);
    let no = solver::unary(tree::Op::Not, solver::var(v));
    let (s, can_be_true) = can_be(m.solver, yes, info);
    let m = Machine { solver: s, ..m };
    match can_be_true {
        Err(e) => fail(m, e),
        Ok(can_be_true) => {
            let (s, can_be_false) = can_be(m.solver, no, info);
            let m = Machine { solver: s, ..m };
            match can_be_false {
                Err(e) => fail(m, e),
                Ok(can_be_false) => if can_be_true && can_be_false {
                    let n = m.frame.forks;
                    if n == u32::MAX {
                        fail(m, ExecError::ForksExhausted)
                    } else {
                        let other = TaskView {
                            id: cx.task_id,
                            frame: advance(m).frame,
                            checkpoint: task::checkpoint_of(m.solver),
                            fork_cond: Some(
                                (DefView::Assert(no), EventView::Fork(n, v, 1, info)),
                            ),
                            state: cx.task_state@,
                            stop_conditions: task::conditions(cx.stop_conditions),
                        };
                        let forked = Machine {
                            frame: FrameView { forks: (n + 1) as u32, ..m.frame },
                            solver: m.solver.record(EventView::Fork(n, v, 0, info)),
                        };
                        Effect {
                            machine: goto(assert_that(forked, yes), target),
                            spawned: seq![other],
                            result: Ok(Flow::Next),
                        }
                    }
                } else if can_be_true {
                    proceed(goto(assert_that(m, yes), target), Ok(()))
                } else if can_be_false {
                    proceed(advance(assert_that(m, no)), Ok(()))
                } else {
                    fail(m, ExecError::Dead)
                },
            }
        },
    }
}

/// A jump if a condition holds.
pub open spec fn jump(
    m: Machine,
    sh: SharedState,
    cx: Context,
    exp: Exp,
    target: usize,
    info: SourceLoc,
) -> Effect {
    let (m, r) = eval_in(m, sh, exp, info);
    match r {
        Err(e) => fail(m, e),
        Ok(Val::Symbolic(v)) => branch(m, cx, v, target, info),
        Ok(Val::Bool(b)) => proceed(
            if b {
                goto(m, target)
            } else {
                advance(m)
            },
            Ok(()),
        ),
        Ok(v) => fail(m, ExecError::Type(TypeError::JumpOnNonBoolean(v), info)),
    }
}

fn run_branch(
    cx: &Context,
    v: Sym,
    target: usize,
    info: SourceLoc,
    spawned: &mut Vec<Task>,
    frame: &mut LocalFrame,
    solver: &mut Solver,
) -> (r: Result<Flow, ExecError>)
    requires
        old(frame)@.pc < usize::MAX,
    ensures
        agrees(
            branch(reset::machine(*old(frame), *old(solver)), *cx, v, target, info),
            reset::machine(*final(frame), *final(solver)),
            task_views(old(spawned)@),
            task_views(final(spawned)@),
            r,
        ),
{
    let ghost before = task_views(spawned@);
    let test_true: smtlib::Exp<Sym> = smtlib::Exp::Var(v);
    let test_false = smtlib::Exp::Not(Box::new(smtlib::Exp::Var(v)));
    proof {
        test_false.lemma_tree1();
        assert(before + seq![] =~= before);
    }
    let can_be_true = match check_sat_with(&test_true, solver, info) {
        Err(e) => {
            return Err(e);
        },
        Ok(b) => b,
    };
    let can_be_false = match check_sat_with(&test_false, solver, info) {
        Err(e) => {
            return Err(e);
        },
        Ok(b) => b,
    };
    if can_be_true && can_be_false {
        if frame.forks == u32::MAX {
            return Err(ExecError::ForksExhausted);
        }
        let point = checkpoint(solver);
        let frozen = freeze_frame_at(frame, frame.pc + 1);
        let n = frame.forks;
        frame.forks = n + 1;
        let other = Task {
            id: cx.task_id,
            frame: frozen,
            checkpoint: point,
            fork_cond: Some((Def::Assert(test_false), Event::Fork(n, v, 1, info))),
            state: share(&cx.task_state),
            stop_conditions: share_conditions(&cx.stop_conditions),
        };
        spawned.push(other);
        assert(task_views(spawned@) =~= before + seq![other@]);
        solver.add_event(Event::Fork(n, v, 0, info));
        solver.assert_exp(test_true);
        frame.pc = target;
        Ok(Flow::Next)
    } else if can_be_true {
        solver.assert_exp(test_true);
        frame.pc = target;
        Ok(Flow::Next)
    } else if can_be_false {
        solver.assert_exp(test_false);
        frame.pc = frame.pc + 1;
        Ok(Flow::Next)
    } else {
        Err(ExecError::Dead)
    }
}

/// The value of a symbol in a model, if it is a bitvector that fits in a
/// word.
pub open spec fn model_bits(s: SolverView, v: Sym, info: SourceLoc) -> (
    SolverView,
    Result<Seq<bool>, ExecError>,
) {
    let (s, r) = s.ask(RequestView::ModelValue(v), info);
    (
        s,
        match r {
            Err(e) => Err(e),
            Ok(AnswerView::Model(Some(SymbolValue::Bits(b)))) => Ok(b@),
            Ok(AnswerView::Model(Some(SymbolValue::Other(s)))) => Err(
                ExecError::Type(TypeError::MonomorphizeModel(s), info),
            ),
            Ok(AnswerView::Model(None)) => Err(ExecError::NoModelValue(v)),
            Ok(_) => Err(ExecError::UnexpectedAnswer),
        },
    )
}

fn get_model_bits(v: Sym, solver: &mut Solver, info: SourceLoc) -> (r: Result<B64, ExecError>)
    ensures
        ({
            let (s, out) = model_bits(old(solver)@, v, info);
            &&& final(solver)@ == s
            &&& match r {
                Ok(b) => out == Ok::<Seq<bool>, ExecError>(b@),
                Err(e) => out == Err::<Seq<bool>, ExecError>(e),
            }
        }),
{
    match solver.ask(Request::ModelValue(v), info) {
        Err(e) => Err(e),
        Ok(Answer::Model(Some(SymbolValue::Bits(b)))) => Ok(b),
        Ok(Answer::Model(Some(SymbolValue::Other(s)))) => Err(
            ExecError::Type(TypeError::MonomorphizeModel(s), info),
        ),
        Ok(Answer::Model(None)) => Err(ExecError::NoModelValue(v)),
        Ok(_) => Err(ExecError::UnexpectedAnswer),
    }
}

/// A possible value of a symbol. So that the symbol is in the model, another
/// symbol is made equal to it first.
pub open spec fn possible_value(s: SolverView, v: Sym, info: SourceLoc) -> (
    SolverView,
    Result<Seq<bool>, ExecError>,
) {
    let (s, r) = s.ask(RequestView::Length(v), info);
    match r {
        Err(e) => (s, Err(e)),
        Ok(AnswerView::Length(Some(len))) => {
            let (s, r) = s.declare_const(smtlib::Ty::BitVec(len), info);
            match r {
                Err(e) => (s, Err(e)),
                Ok(sym) => {
                    let s = s.assert_exp(
                        solver::binary(tree::Op::Eq, solver::var(v), solver::var(sym)),
                    );
                    let (s, r) = s.ask_sat(RequestView::CheckSat, info);
                    match r {
                        Err(e) => (s, Err(e)),
                        Ok(verdict) => match verdict.spec_is_unsat() {
                            Err(e) => (s, Err(e)),
                            Ok(unsat) => if unsat {
                                (s, Err(ExecError::Dead))
                            } else {
                                model_bits(s, v, info)
                            },
                        },
                    }
                },
            }
        },
        Ok(AnswerView::Length(None)) => (
            s,
            Err(ExecError::Type(TypeError::Monomorphize(v), info)),
        ),
        Ok(_) => (s, Err(ExecError::UnexpectedAnswer)),
    }
}

fn get_possible_value(v: Sym, solver: &mut Solver, info: SourceLoc) -> (r: Result<B64, ExecError>)
    ensures
        ({
            let (s, out) = possible_value(old(solver)@, v, info);
            &&& final(solver)@ == s
            &&& match r {
                Ok(b) => out == Ok::<Seq<bool>, ExecError>(b@),
                Err(e) => out == Err::<Seq<bool>, ExecError>(e),
            }
        }),
{
    let len = match solver.ask(Request::Length(v), info) {
        Err(e) => {
            return Err(e);
        },
        Ok(Answer::Length(Some(len))) => len,
        Ok(Answer::Length(None)) => {
            return Err(ExecError::Type(TypeError::Monomorphize(v), info));
        },
        Ok(_) => {
            return Err(ExecError::UnexpectedAnswer);
        },
    };
    let sym = match solver.declare_const(smtlib::Ty::BitVec(len), info) {
        Err(e) => {
            return Err(e);
        },
        Ok(sym) => sym,
    };
    let exp = smtlib::Exp::Eq(
        Box::new(smtlib::Exp::Var(v)),
        Box::new(smtlib::Exp::Var(sym)),
    );
    proof {
        exp.lemma_tree2();
    }
    solver.assert_exp(exp);
    match solver.ask_sat(Request::CheckSat, info) {
        Err(e) => Err(e),
        Ok(verdict) => match verdict.is_unsat() {
            Err(e) => Err(e),
            Ok(unsat) => if unsat {
                Err(ExecError::Dead)
            } else {
                get_model_bits(v, solver, info)
            },
        },
    }
}

/// Splits a path on the value of a bitvector. If the value is symbolic, this
/// path goes on with one value that it can have, and a new path tries the
/// same instruction again without that value.
pub open spec fn monomorphize(
    m: Machine,
    sh: SharedState,
    cx: Context,
    id: Name,
    info: SourceLoc,
) -> Effect {
    let (w, r) = state::read_id(m.world(), sh, id, seq![], info, false);
    let m = m.with_world(w);
    match r {
        Err(e) => fail(m, e),
        Ok(Val::Symbolic(v)) => {
            let point = task::checkpoint_of(m.solver);
            let (s, r) = possible_value(m.solver, v, info);
            let m = Machine { solver: s, ..m };
            match r {
                Err(e) => fail(m, e),
                Ok(b) => {
                    let n = m.frame.forks;
                    if n == u32::MAX {
                        fail(m, ExecError::ForksExhausted)
                    } else {
                        let constant = tree::leaf(literal::bits_op(b));
                        let frame = FrameView { forks: (n + 1) as u32, ..m.frame };
                        let other = TaskView {
                            id: cx.task_id,
                            frame,
                            checkpoint: point,
                            fork_cond: Some(
                                (
                                    DefView::Assert(
                                        solver::binary(
                                            tree::Op::Neq,
                                            solver::var(v),
                                            constant,
                                        ),
                                    ),
                                    EventView::Fork(n, v, 1, info),
                                ),
                            ),
                            state: cx.task_state@,
                            stop_conditions: task::conditions(cx.stop_conditions),
                        };
                        let forked = Machine {
                            frame,
                            solver: m.solver.record(EventView::Fork(n, v, 0, info)).assert_exp(
                                solver::binary(tree::Op::Eq, solver::var(v), constant),
                            ),
                        };
                        let (end, r) = special::finish(
                            forked,
                            sh,
                            Loc::Id(id),
                            Val::Bits(B64::of(b)),
                            info,
                        );
                        Effect {
                            machine: end,
                            spawned: seq![other],
                            result: match r {
                                Ok(_) => Ok(Flow::Next),
                                Err(e) => Err(e),
                            },
                        }
                    }
                },
            }
        },
        Ok(_) => proceed(advance(m), Ok(())),
    }
}

fn run_monomorphize(
    cx: &Context,
    id: Name,
    info: SourceLoc,
    spawned: &mut Vec<Task>,
    frame: &mut LocalFrame,
    shared_state: &SharedState,
    solver: &mut Solver,
) -> (r: Result<Flow, ExecError>)
    requires
        old(frame)@.pc < usize::MAX,
    ensures
        agrees(
            monomorphize(
                reset::machine(*old(frame), *old(solver)),
                *shared_state,
                *cx,
                id,
                info,
            ),
            reset::machine(*final(frame), *final(solver)),
            task_views(old(spawned)@),
            task_views(final(spawned)@),
            r,
        ),
{
    let ghost before = task_views(spawned@);
    assert(before + seq![] =~= before);
    let accessor: Vec<solver::Accessor> = Vec::new();
    assert(accessor@ =~= seq![]);
    let v = match get_id_and_initialize(
        id,
        &mut frame.local_state,
        shared_state,
        solver,
        &accessor,
        info,
        false,
    ) {
        Err(e) => {
            return Err(e);
        },
        Ok(Val::Symbolic(v)) => v,
        Ok(_) => {
            frame.pc = frame.pc + 1;
            return Ok(Flow::Next);
        },
    };
    let point = checkpoint(solver);
    let b = match get_possible_value(v, solver, info) {
        Err(e) => {
            return Err(e);
        },
        Ok(b) => b,
    };
    if frame.forks == u32::MAX {
        return Err(ExecError::ForksExhausted);
    }
    let result = b.lower_u64();
    let size = b.len();
    proof {
        bv::lemma_from_int_to_nat(b@);
    }
    let n = frame.forks;
    frame.forks = n + 1;
    let differs = smtlib::Exp::Neq(
        Box::new(smtlib::Exp::Var(v)),
        Box::new(bits64(result, size)),
    );
    let equals = smtlib::Exp::Eq(
        Box::new(smtlib::Exp::Var(v)),
        Box::new(bits64(result, size)),
    );
    proof {
        differs.lemma_tree2();
        equals.lemma_tree2();
    }
    let other = Task {
        id: cx.task_id,
        frame: freeze_frame(frame),
        checkpoint: point,
        fork_cond: Some((Def::Assert(differs), Event::Fork(n, v, 1, info))),
        state: share(&cx.task_state),
        stop_conditions: share_conditions(&cx.stop_conditions),
    };
    spawned.push(other);
    assert(task_views(spawned@) =~= before + seq![other@]);
    solver.add_event(Event::Fork(n, v, 0, info));
    solver.assert_exp(equals);
    match assign_and_advance(
        &Loc::Id(id),
        Val::Bits(B64::new(result, size)),
        frame,
        shared_state,
        solver,
        info,
    ) {
        Ok(_) => Ok(Flow::Next),
        Err(e) => Err(e),
    }
}

fn run_jump(
    cx: &Context,
    exp: &Exp,
    target: usize,
    info: SourceLoc,
    spawned: &mut Vec<Task>,
    frame: &mut LocalFrame,
    shared_state: &SharedState,
    solver: &mut Solver,
) -> (r: Result<Flow, ExecError>)
    requires
        old(frame)@.pc < usize::MAX,
    ensures
        agrees(
            jump(
                reset::machine(*old(frame), *old(solver)),
                *shared_state,
                *cx,
                *exp,
                target,
                info,
            ),
            reset::machine(*final(frame), *final(solver)),
            task_views(old(spawned)@),
            task_views(final(spawned)@),
            r,
        ),
{
    assert(task_views(spawned@) + seq![] =~= task_views(spawned@));
    match eval_in_frame(exp, frame, shared_state, solver, info) {
        Err(e) => Err(e),
        Ok(Val::Symbolic(v)) => run_branch(cx, v, target, info, spawned, frame, solver),
        Ok(Val::Bool(b)) => {
            if b {
                frame.pc = target;
            } else {
                frame.pc = frame.pc + 1;
            }
            Ok(Flow::Next)
        },
        Ok(v) => Err(ExecError::Type(TypeError::JumpOnNonBoolean(v), info)),
    }
}

/// Declares a variable.
pub open spec fn declare(m: Machine, id: Name, v: UVal) -> Machine {
    let local = LocalView { vars: m.frame.local.vars.insert(id, v), ..m.frame.local };
    advance(Machine { frame: FrameView { local, ..m.frame }, ..m })
}

/// Declares a variable with a value.
pub open spec fn init(m: Machine, sh: SharedState, id: Name, exp: Exp, info: SourceLoc) -> Effect {
    let (m, r) = eval_in(m, sh, exp, info);
    match r {
        Err(e) => fail(m, e),
        Ok(v) => proceed(declare(m, id, UVal::Init(v)), Ok(())),
    }
}

/// Copies a value to a place.
pub open spec fn copy(m: Machine, sh: SharedState, loc: Loc, exp: Exp, info: SourceLoc) -> Effect {
    let (m, r) = eval_in(m, sh, exp, info);
    match r {
        Err(e) => fail(m, e),
        Ok(v) => {
            let (m, r) = special::finish(m, sh, loc, v, info);
            proceed(m, r)
        },
    }
}

/// Applies a primitive operation to values.
pub open spec fn primop(
    m: Machine,
    sh: SharedState,
    loc: Loc,
    f: Primop,
    args: Seq<Val>,
    info: SourceLoc,
) -> Effect {
    let (s, r) = m.solver.ask_val(RequestView::Primop(f, args), info);
    let m = Machine { solver: s, ..m };
    match r {
        Err(e) => fail(m, e),
        Ok(v) => {
            let (m, r) = special::finish(m, sh, loc, v, info);
            proceed(m, r)
        },
    }
}

pub open spec fn primop_unary(
    m: Machine,
    sh: SharedState,
    loc: Loc,
    f: Primop,
    arg: Exp,
    info: SourceLoc,
) -> Effect {
    let (m, r) = eval_in(m, sh, arg, info);
    match r {
        Err(e) => fail(m, e),
        Ok(v) => primop(m, sh, loc, f, seq![v], info),
    }
}

pub open spec fn primop_binary(
    m: Machine,
    sh: SharedState,
    loc: Loc,
    f: Primop,
    arg1: Exp,
    arg2: Exp,
    info: SourceLoc,
) -> Effect {
    let (m, r) = eval_in(m, sh, arg1, info);
    match r {
        Err(e) => fail(m, e),
        Ok(v1) => {
            let (m, r) = eval_in(m, sh, arg2, info);
            match r {
                Err(e) => fail(m, e),
                Ok(v2) => primop(m, sh, loc, f, seq![v1, v2], info),
            }
        },
    }
}

/// Applies a primitive operation that may change the frame.
pub open spec fn primop_variadic(
    m: Machine,
    sh: SharedState,
    loc: Loc,
    f: Primop,
    args: Seq<Exp>,
    info: SourceLoc,
) -> Effect {
    let (m, r) = eval_all_in(m, sh, args, info);
    match r {
        Err(e) => fail(m, e),
        Ok(vals) => {
            let (m, r) = special::ask_stepped(
                m,
                RequestView::PrimopVariadic(f, vals, m.frame),
                info,
            );
            match r {
                Err(e) => fail(m, e),
                Ok(v) => {
                    let (m, r) = special::finish(m, sh, loc, v, info);
                    proceed(m, r)
                },
            }
        },
    }
}

/// Calls a function.
pub open spec fn call(
    m: Machine,
    sh: SharedState,
    cx: Context,
    loc: Loc,
    f: Name,
    args: Seq<Exp>,
    info: SourceLoc,
) -> Effect {
    if sh.functions@.dom().contains(f) {
        let (m, r) = eval_all_in(m, sh, args, info);
        match r {
            Err(e) => fail(m, e),
            Ok(vals) => call::call_with(m, sh, cx, loc, f, sh.functions@[f], vals, info),
        }
    } else {
        let (m, r) = special::special(m, sh, cx.task_state@, loc, f, args, info);
        proceed(m, r)
    }
}

pub open spec fn exit_error(cause: ExitCause, info: SourceLoc) -> ExecError {
    match cause {
        ExitCause::MatchFailure => ExecError::MatchFailure(info),
        ExitCause::AssertionFailure => ExecError::AssertionFailure(None, info),
        ExitCause::Explicit => ExecError::Exit,
    }
}

/// Executes an instruction.
pub open spec fn execute(m: Machine, sh: SharedState, cx: Context, instr: Instr) -> Effect {
    match instr {
        Instr::Decl(id, ty, _) => proceed(declare(m, id, UVal::Uninit(ty)), Ok(())),
        Instr::Init(id, _, exp, info) => init(m, sh, id, exp, info),
        Instr::Jump(exp, target, info) => jump(m, sh, cx, exp, target, info),
        Instr::Goto(target) => proceed(goto(m, target), Ok(())),
        Instr::Copy(loc, exp, info) => copy(m, sh, loc, exp, info),
        Instr::PrimopUnary(loc, f, arg, info) => primop_unary(m, sh, loc, f, arg, info),
        Instr::PrimopBinary(loc, f, arg1, arg2, info) => primop_binary(
            m,
            sh,
            loc,
            f,
            arg1,
            arg2,
            info,
        ),
        Instr::PrimopVariadic(loc, f, args, info) => primop_variadic(
            m,
            sh,
            loc,
            f,
            args@,
            info,
        ),
        Instr::Call(loc, _, f, args, info) => call(m, sh, cx, loc, f, args@, info),
        Instr::End => call::end(m, sh),
        Instr::Monomorphize(id, info) => monomorphize(m, sh, cx, id, info),
        // The value is never used. It stands where control does not come back.
        Instr::Arbitrary => call::return_value(m, sh, Val::Poison),
        Instr::Exit(cause, info) => fail(m, exit_error(cause, info)),
    }
}

/// Makes sure that there is time left.
pub open spec fn check_time(s: SolverView, timeout: Option<u64>) -> (
    SolverView,
    Result<(), ExecError>,
) {
    match timeout {
        None => (s, Ok(())),
        Some(secs) => {
            let (s, r) = s.ask(RequestView::Elapsed, SourceLoc::Unknown);
            (
                s,
                match r {
                    Err(e) => Err(e),
                    Ok(AnswerView::Elapsed(ns)) => if ns > secs * 1_000_000_000 {
                        Err(ExecError::Timeout)
                    } else {
                        Ok(())
                    },
                    Ok(_) => Err(ExecError::UnexpectedAnswer),
                },
            )
        },
    }
}

/// Executes the instruction that is next. Where there is none, as at the end
/// of a list of bindings, the path is at its end.
pub open spec fn step(m: Machine, sh: SharedState, cx: Context) -> Effect {
    if m.frame.pc >= m.frame.instrs@.len() {
        Effect { machine: m, spawned: seq![], result: Ok(Flow::Done(Val::Unit)) }
    } else {
        let (s, r) = check_time(m.solver, cx.timeout);
        let m = Machine { solver: s, ..m };
        match r {
            Err(e) => fail(m, e),
            Ok(_) => execute(m, sh, cx, m.frame.instrs@[m.frame.pc as int]),
        }
    }
}

fn run_primop(
    loc: &Loc,
    f: Primop,
    args: Vec<Val>,
    info: SourceLoc,
    frame: &mut LocalFrame,
    shared_state: &SharedState,
    solver: &mut Solver,
) -> (r: Result<Flow, ExecError>)
    requires
        old(frame)@.pc < usize::MAX,
    ensures
        agrees(
            primop(
                reset::machine(*old(frame), *old(solver)),
                *shared_state,
                *loc,
                f,
                args@,
                info,
            ),
            reset::machine(*final(frame), *final(solver)),
            seq![],
            seq![],
            r,
        ),
{
    assert(Seq::<TaskView>::empty() + Seq::<TaskView>::empty() =~= seq![]);
    match solver.ask_val(Request::Primop(f, args), info) {
        Err(e) => Err(e),
        Ok(v) => match assign_and_advance(loc, v, frame, shared_state, solver, info) {
            Ok(_) => Ok(Flow::Next),
            Err(e) => Err(e),
        },
    }
}

fn run_primop_variadic(
    loc: &Loc,
    f: Primop,
    args: &Vec<Exp>,
    info: SourceLoc,
    frame: &mut LocalFrame,
    shared_state: &SharedState,
    solver: &mut Solver,
) -> (r: Result<Flow, ExecError>)
    requires
        old(frame)@.pc < usize::MAX,
    ensures
        agrees(
            primop_variadic(
                reset::machine(*old(frame), *old(solver)),
                *shared_state,
                *loc,
                f,
                args@,
                info,
            ),
            reset::machine(*final(frame), *final(solver)),
            seq![],
            seq![],
            r,
        ),
{
    assert(Seq::<TaskView>::empty() + Seq::<TaskView>::empty() =~= seq![]);
    let vals = match eval_all_in_frame(args, frame, shared_state, solver, info) {
        Err(e) => {
            return Err(e);
        },
        Ok(vals) => vals,
    };
    let request = Request::PrimopVariadic(f, vals, freeze_frame(frame));
    match ask_for_step(request, frame, solver, info) {
        Err(e) => Err(e),
        Ok(v) => match assign_and_advance(loc, v, frame, shared_state, solver, info) {
            Ok(_) => Ok(Flow::Next),
            Err(e) => Err(e),
        },
    }
}

fn run_call(
    cx: &Context,
    loc: &Loc,
    f: Name,
    args: &Vec<Exp>,
    info: SourceLoc,
    frame: &mut LocalFrame,
    shared_state: &SharedState,
    solver: &mut Solver,
) -> (r: Result<Flow, ExecError>)
    requires
        old(frame)@.pc < usize::MAX,
    ensures
        agrees(
            call(
                reset::machine(*old(frame), *old(solver)),
                *shared_state,
                *cx,
                *loc,
                f,
                args@,
                info,
            ),
            reset::machine(*final(frame), *final(solver)),
            seq![],
            seq![],
            r,
        ),
{
    match shared_state.functions.get(f) {
        None => {
            match run_special_primop(
                loc,
                f,
                args,
                info,
                frame,
                &cx.task_state,
                shared_state,
                solver,
            ) {
                Ok(_) => Ok(Flow::Next),
                Err(e) => Err(e),
            }
        },
        Some(function) => {
            match eval_all_in_frame(args, frame, shared_state, solver, info) {
                Err(e) => Err(e),
                Ok(vals) => run_call_with(
                    cx,
                    loc,
                    f,
                    function,
                    vals,
                    info,
                    frame,
                    shared_state,
                    solver,
                ),
            }
        },
    }
}

/// Executes an instruction that does not branch.
fn run_straight(
    cx: &Context,
    instr: &Instr,
    frame: &mut LocalFrame,
    shared_state: &SharedState,
    solver: &mut Solver,
) -> (r: Result<Flow, ExecError>)
    requires
        old(frame)@.pc < usize::MAX,
        !(instr is Jump),
        !(instr is Monomorphize),
    ensures
        agrees(
            execute(reset::machine(*old(frame), *old(solver)), *shared_state, *cx, *instr),
            reset::machine(*final(frame), *final(solver)),
            seq![],
            seq![],
            r,
        ),
{
    assert(Seq::<TaskView>::empty() + Seq::<TaskView>::empty() =~= seq![]);
    match instr {
        Instr::Decl(id, ty, _) => {
            frame.local_state.vars.insert(*id, UVal::Uninit(ty.dup()));
            frame.pc = frame.pc + 1;
            Ok(Flow::Next)
        },
        Instr::Init(id, _, exp, info) => {
            match eval_in_frame(exp, frame, shared_state, solver, *info) {
                Err(e) => Err(e),
                Ok(v) => {
                    frame.local_state.vars.insert(*id, UVal::Init(v));
                    frame.pc = frame.pc + 1;
                    Ok(Flow::Next)
                },
            }
        },
        Instr::Goto(target) => {
            frame.pc = *target;
            Ok(Flow::Next)
        },
        Instr::Copy(loc, exp, info) => {
            match eval_in_frame(exp, frame, shared_state, solver, *info) {
                Err(e) => Err(e),
                Ok(v) => match assign_and_advance(loc, v, frame, shared_state, solver, *info) {
                    Ok(_) => Ok(Flow::Next),
                    Err(e) => Err(e),
                },
            }
        },
        Instr::PrimopUnary(loc, f, arg, info) => {
            match eval_in_frame(arg, frame, shared_state, solver, *info) {
                Err(e) => Err(e),
                Ok(v) => {
                    let args = vec![v];
                    assert(args@ =~= seq![v]);
                    run_primop(loc, *f, args, *info, frame, shared_state, solver)
                },
            }
        },
        Instr::PrimopBinary(loc, f, arg1, arg2, info) => {
            match eval_in_frame(arg1, frame, shared_state, solver, *info) {
                Err(e) => Err(e),
                Ok(v1) => match eval_in_frame(arg2, frame, shared_state, solver, *info) {
                    Err(e) => Err(e),
                    Ok(v2) => {
                        let args = vec![v1, v2];
                        assert(args@ =~= seq![v1, v2]);
                        run_primop(loc, *f, args, *info, frame, shared_state, solver)
                    },
                },
            }
        },
        Instr::PrimopVariadic(loc, f, args, info) => run_primop_variadic(
            loc,
            *f,
            args,
            *info,
            frame,
            shared_state,
            solver,
        ),
        Instr::Call(loc, _, f, args, info) => run_call(
            cx,
            loc,
            *f,
            args,
            *info,
            frame,
            shared_state,
            solver,
        ),
        Instr::End => run_end(frame, shared_state, solver),
        Instr::Arbitrary => run_return(Val::Poison, frame, shared_state, solver),
        Instr::Exit(cause, info) => Err(
            match cause {
                ExitCause::MatchFailure => ExecError::MatchFailure(*info),
                ExitCause::AssertionFailure => ExecError::AssertionFailure(None, *info),
                ExitCause::Explicit => ExecError::Exit,
            },
        ),
        Instr::Jump(_, _, _) | Instr::Monomorphize(_, _) => Ok(Flow::Next),
    }
}

fn has_time(timeout: Option<u64>, solver: &mut Solver) -> (r: Result<(), ExecError>)
    ensures
        (final(solver)@, r) == check_time(old(solver)@, timeout),
{
    match timeout {
        None => Ok(()),
        Some(secs) => match solver.ask(Request::Elapsed, SourceLoc::Unknown) {
            Err(e) => Err(e),
            Ok(Answer::Elapsed(ns)) => {
                let limit: u128 = secs as u128 * 1_000_000_000;
                if ns as u128 > limit {
                    Err(ExecError::Timeout)
                } else {
                    Ok(())
                }
            },
            Ok(_) => Err(ExecError::UnexpectedAnswer),
        },
    }
}

/// Executes the instruction that is next.
pub fn run_step(
    cx: &Context,
    spawned: &mut Vec<Task>,
    frame: &mut LocalFrame,
    shared_state: &SharedState,
    solver: &mut Solver,
) -> (r: Result<Flow, ExecError>)
    ensures
        agrees(
            step(reset::machine(*old(frame), *old(solver)), *shared_state, *cx),
            reset::machine(*final(frame), *final(solver)),
            task_views(old(spawned)@),
            task_views(final(spawned)@),
            r,
        ),
{
    assert(task_views(spawned@) + seq![] =~= task_views(spawned@));
    let instrs = share(&frame.instrs);
    let pc = frame.pc;
    if pc >= instrs.len() {
        return Ok(Flow::Done(Val::Unit));
    }
    match has_time(cx.timeout, solver) {
        Err(e) => {
            return Err(e);
        },
        Ok(_) => {},
    }
    match &instrs[pc] {
        Instr::Jump(exp, target, info) => run_jump(
            cx,
            exp,
            *target,
            *info,
            spawned,
            frame,
            shared_state,
            solver,
        ),
        Instr::Monomorphize(id, info) => run_monomorphize(
            cx,
            *id,
            *info,
            spawned,
            frame,
            shared_state,
            solver,
        ),
        instr => run_straight(cx, instr, frame, shared_state, solver),
    }
}

/// The state after a number of instructions.
pub struct Progress {
    pub machine: Machine,
    pub spawned: Seq<TaskView>,
    /// What the path ends with, if it has ended.
    pub result: Option<Result<Val, ExecError>>,
}

/// Executes at most a number of instructions.
pub open spec fn run_steps(
    fuel: nat,
    m: Machine,
    sh: SharedState,
    cx: Context,
    spawned: Seq<TaskView>,
) -> Progress
    decreases fuel,
{
    if fuel == 0 {
        Progress { machine: m, spawned, result: None }
    } else {
        let effect = step(m, sh, cx);
        let spawned = spawned + effect.spawned;
        match effect.result {
            Err(e) => Progress { machine: effect.machine, spawned, result: Some(Err(e)) },
            Ok(Flow::Done(v)) => Progress {
                machine: effect.machine,
                spawned,
                result: Some(Ok(v)),
            },
            Ok(Flow::Next) => run_steps((fuel - 1) as nat, effect.machine, sh, cx, spawned),
        }
    }
}

/// Executes a path until it ends, or until a number of instructions has been
/// executed. `None` means that it has not ended; the frame is where it goes
/// on.
pub fn run_loop(
    fuel: u64,
    cx: &Context,
    spawned: &mut Vec<Task>,
    frame: &mut LocalFrame,
    shared_state: &SharedState,
    solver: &mut Solver,
) -> (r: Option<Result<Val, ExecError>>)
    ensures
        ({
            let progress = run_steps(
                fuel as nat,
                reset::machine(*old(frame), *old(solver)),
                *shared_state,
                *cx,
                task_views(old(spawned)@),
            );
            &&& reset::machine(*final(frame), *final(solver)) == progress.machine
            &&& task_views(final(spawned)@) == progress.spawned
            &&& r == progress.result
        }),
{
    let mut left = fuel;
    let ghost whole = run_steps(
        fuel as nat,
        reset::machine(*frame, *solver),
        *shared_state,
        *cx,
        task_views(spawned@),
    );
    while left > 0
        invariant
            whole == run_steps(
                fuel as nat,
                reset::machine(*old(frame), *old(solver)),
                *shared_state,
                *cx,
                task_views(old(spawned)@),
            ),
            whole == run_steps(
                left as nat,
                reset::machine(*frame, *solver),
                *shared_state,
                *cx,
                task_views(spawned@),
            ),
        decreases left,
    {
        match run_step(cx, spawned, frame, shared_state, solver) {
            Err(e) => {
                return Some(Err(e));
            },
            Ok(Flow::Done(v)) => {
                return Some(Ok(v));
            },
            Ok(Flow::Next) => {},
        }
        left = left - 1;
    }
    None
}

/// The outcome of a path: its value and its last frame, or an error and where
/// it came up.
pub type RunResult = Result<(Val, LocalFrame), (ExecError, Backtrace)>;

pub enum RunResultView {
    Finished(Val, FrameView),
    Failed(ExecError, Seq<(Name, usize)>),
}

pub open spec fn run_result(r: RunResult) -> RunResultView {
    match r {
        Ok((v, frame)) => RunResultView::Finished(v, frame@),
        Err((e, backtrace)) => RunResultView::Failed(e, backtrace@),
    }
}

/// The outcome of a path that has ended.
pub open spec fn outcome(progress: Progress) -> Option<RunResultView> {
    let frame = progress.machine.frame;
    match progress.result {
        None => None,
        Some(Ok(v)) => Some(RunResultView::Finished(v, frame)),
        Some(Err(e)) => Some(
            RunResultView::Failed(e, frame.backtrace.push((frame.function_name, frame.pc))),
        ),
    }
}

/// Executes a path from a snapshot.
pub fn run(
    fuel: u64,
    cx: &Context,
    spawned: &mut Vec<Task>,
    frame: &Frame,
    shared_state: &SharedState,
    solver: &mut Solver,
) -> (r: Option<RunResult>)
    ensures
        ({
            let progress = run_steps(
                fuel as nat,
                Machine { frame: frame@, solver: old(solver)@ },
                *shared_state,
                *cx,
                task_views(old(spawned)@),
            );
            &&& final(solver)@ == progress.machine.solver
            &&& task_views(final(spawned)@) == progress.spawned
            &&& match r {
                Some(r) => outcome(progress) == Some(run_result(r)),
                None => outcome(progress) is None,
            }
        }),
{
    let mut frame = unfreeze_frame(frame);
    match run_loop(fuel, cx, spawned, &mut frame, shared_state, solver) {
        None => None,
        Some(Ok(v)) => Some(Ok((v, frame))),
        Some(Err(e)) => {
            let mut backtrace = frame.backtrace;
            backtrace.push((frame.function_name, frame.pc));
            Some(Err((e, backtrace)))
        },
    }
}

} // verus!
