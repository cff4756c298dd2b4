//! Functions that the executor provides itself.

use super::assign::{self, assign};
use super::error::{ExecError, Malformed, TypeError};
use super::eval::{self, eval_args, eval_exp};
use super::frame::{self, freeze_frame, unfreeze_frame, FrameView, LocalFrame};
use super::ir::{is_member, Exp, Loc, SharedState, SourceLoc, Ty, UVal, Val, Vals, ABSTRACT_CALL, ABSTRACT_PRIMOP, INSTR_ANNOUNCE, INTERNAL_VECTOR_INIT, INTERNAL_VECTOR_UPDATE, ITE_PHI, READ_REGISTER_FROM_VECTOR, REG_DEREF, RESET_REGISTERS, WRITE_REGISTER_FROM_VECTOR};
use super::names::{Dup, Name};
use super::reset::{self, reset_registers, Machine, TaskState, TaskStateView};
use super::solver::{Answer, AnswerView, Event, EventView, Request, RequestView, Solver};
use super::state::{self, LocalState, LocalView, RegistersView, World};
use super::vector::{self, read_register_from_vector, write_register_from_vector};
use crate::bitvector::B64;
use crate::bv;
use crate::smt::smtlib::Sym;
use vstd::prelude::*;

verus! {

/// Assigns a result, and goes on to the next instruction.
pub open spec fn finish(m: Machine, sh: SharedState, loc: Loc, v: Val, info: SourceLoc) -> (
    Machine,
    Result<(), ExecError>,
) {
    let (w, r) = assign::assigned(m.world(), sh, loc, v, seq![], info);
    let m = m.with_world(w);
    match r {
        Err(e) => (m, Err(e)),
        Ok(_) => (
            Machine { frame: FrameView { pc: (m.frame.pc + 1) as usize, ..m.frame }, ..m },
            Ok(()),
        ),
    }
}

pub(crate) fn assign_and_advance(
    loc: &Loc,
    v: Val,
    frame: &mut LocalFrame,
    shared_state: &SharedState,
    solver: &mut Solver,
    info: SourceLoc,
) -> (r: Result<(), ExecError>)
    requires
        old(frame)@.pc < usize::MAX,
    ensures
        (reset::machine(*final(frame), *final(solver)), r) == finish(
            reset::machine(*old(frame), *old(solver)),
            *shared_state,
            *loc,
            v,
            info,
        ),
{
    match assign(loc, v, &mut frame.local_state, shared_state, solver, info) {
        Err(e) => Err(e),
        Ok(_) => {
            frame.pc = frame.pc + 1;
            Ok(())
        },
    }
}

/// As many poisoned values.
pub open spec fn poison(n: nat) -> Seq<Val> {
    Seq::new(n, |i: int| Val::Poison)
}

/// Whether a place is a variable that waits to be given a vector.
pub open spec fn awaits_vector(vars: Map<Name, UVal>, loc: Loc) -> bool {
    match loc {
        Loc::Id(v) => vars.dom().contains(v) && match vars[v] {
            UVal::Uninit(Ty::Vector(_)) | UVal::Uninit(Ty::FixedVector(_, _)) => true,
            _ => false,
        },
        _ => false,
    }
}

/// Makes a vector of a length that is given.
pub open spec fn vector_init(m: Machine, sh: SharedState, loc: Loc, arg: Exp, info: SourceLoc) -> (
    Machine,
    Result<(), ExecError>,
) {
    let (w, r) = eval::eval(m.world(), sh, arg, seq![], info);
    let m = m.with_world(w);
    match r {
        Err(e) => (m, Err(e)),
        Ok(Val::I64(len)) => if awaits_vector(m.frame.local.vars, loc) {
            if len < 0 {
                (m, Err(ExecError::Malformed(Malformed::NegativeLength)))
            } else {
                finish(m, sh, loc, Val::Vector(Vals::of(poison(len as nat))), info)
            }
        } else {
            (m, Err(ExecError::Type(TypeError::VectorInit(loc), info)))
        },
        Ok(_) => (m, Err(ExecError::Type(TypeError::VectorInit(loc), info))),
    }
}

fn poisoned(n: u64) -> (r: Vals)
    ensures
        r == Vals::of(poison(n as nat)),
{
    let mut r = Vals::Nil;
    let mut i: u64 = 0;
    assert(poison(0) =~= seq![]);
    while i < n
        invariant
            i <= n,
            r == Vals::of(poison(i as nat)),
        decreases n - i,
    {
        assert(poison((i + 1) as nat).drop_first() =~= poison(i as nat));
        r = Vals::Cons(Box::new(Val::Poison), Box::new(r));
        i = i + 1;
    }
    r
}

fn waits_for_vector(loc: &Loc, frame: &LocalFrame) -> (r: bool)
    ensures
        r == awaits_vector(frame@.local.vars, *loc),
{
    match loc {
        Loc::Id(v) => match frame.vars().get(*v) {
            Some(UVal::Uninit(Ty::Vector(_))) => true,
            Some(UVal::Uninit(Ty::FixedVector(_, _))) => true,
            _ => false,
        },
        _ => false,
    }
}

fn run_vector_init(
    loc: &Loc,
    arg: &Exp,
    info: SourceLoc,
    frame: &mut LocalFrame,
    shared_state: &SharedState,
    solver: &mut Solver,
) -> (r: Result<(), ExecError>)
    requires
        old(frame)@.pc < usize::MAX,
    ensures
        (reset::machine(*final(frame), *final(solver)), r) == vector_init(
            reset::machine(*old(frame), *old(solver)),
            *shared_state,
            *loc,
            *arg,
            info,
        ),
{
    match eval_exp(arg, &mut frame.local_state, shared_state, solver, info) {
        Err(e) => Err(e),
        Ok(Val::I64(len)) => {
            if waits_for_vector(loc, frame) {
                if len < 0 {
                    Err(ExecError::Malformed(Malformed::NegativeLength))
                } else {
                    let vals = poisoned(len as u64);
                    assign_and_advance(
                        loc,
                        Val::Vector(vals),
                        frame,
                        shared_state,
                        solver,
                        info,
                    )
                }
            } else {
                Err(ExecError::Type(TypeError::VectorInit(loc.dup()), info))
            }
        },
        Ok(_) => Err(ExecError::Type(TypeError::VectorInit(loc.dup()), info)),
    }
}

/// Makes a request for a value that may change the frame: the variables, the
/// registers and the memory, but not the position in the program.
pub open spec fn ask_stepped(m: Machine, request: RequestView, info: SourceLoc) -> (
    Machine,
    Result<Val, ExecError>,
) {
    let (s, r) = m.solver.ask(request, info);
    let m = Machine { solver: s, ..m };
    match r {
        Err(e) => (m, Err(e)),
        Ok(AnswerView::Stepped(v, frame)) => (
            Machine {
                frame: FrameView { local: frame.local, memory: frame.memory, ..m.frame },
                ..m
            },
            Ok(v),
        ),
        Ok(_) => (m, Err(ExecError::UnexpectedAnswer)),
    }
}

pub(crate) fn ask_for_step(
    request: Request,
    frame: &mut LocalFrame,
    solver: &mut Solver,
    info: SourceLoc,
) -> (r: Result<Val, ExecError>)
    ensures
        (reset::machine(*final(frame), *final(solver)), r) == ask_stepped(
            reset::machine(*old(frame), *old(solver)),
            request@,
            info,
        ),
{
    match solver.ask(request, info) {
        Err(e) => Err(e),
        Ok(Answer::Stepped(v, stepped)) => {
            let stepped = unfreeze_frame(&stepped);
            frame.local_state = stepped.local_state;
            frame.memory = stepped.memory;
            Ok(v)
        },
        Ok(_) => Err(ExecError::UnexpectedAnswer),
    }
}

/// Changes an element of a vector.
pub open spec fn vector_update(
    m: Machine,
    sh: SharedState,
    loc: Loc,
    args: Seq<Exp>,
    info: SourceLoc,
) -> (Machine, Result<(), ExecError>) {
    let (w, r) = eval::eval_all(m.world(), sh, args, 0, seq![], info);
    let m = m.with_world(w);
    match r {
        Err(e) => (m, Err(e)),
        Ok(vals) => {
            let (m, r) = ask_stepped(m, RequestView::VectorUpdate(vals, m.frame), info);
            match r {
                Err(e) => (m, Err(e)),
                Ok(v) => finish(m, sh, loc, v, info),
            }
        },
    }
}

fn run_vector_update(
    loc: &Loc,
    args: &Vec<Exp>,
    info: SourceLoc,
    frame: &mut LocalFrame,
    shared_state: &SharedState,
    solver: &mut Solver,
) -> (r: Result<(), ExecError>)
    requires
        old(frame)@.pc < usize::MAX,
    ensures
        (reset::machine(*final(frame), *final(solver)), r) == vector_update(
            reset::machine(*old(frame), *old(solver)),
            *shared_state,
            *loc,
            args@,
            info,
        ),
{
    match eval_args(args, &mut frame.local_state, shared_state, solver, info) {
        Err(e) => Err(e),
        Ok(vals) => {
            let request = Request::VectorUpdate(vals, freeze_frame(frame));
            match ask_for_step(request, frame, solver, info) {
                Err(e) => Err(e),
                Ok(v) => assign_and_advance(loc, v, frame, shared_state, solver, info),
            }
        },
    }
}

/// Brings the registers into their initial state.
pub open spec fn reset_call(
    m: Machine,
    sh: SharedState,
    ts: TaskStateView,
    loc: Loc,
    info: SourceLoc,
) -> (Machine, Result<(), ExecError>) {
    let (m, r) = reset::reset_all(m, sh, ts, info);
    match r {
        Err(e) => (m, Err(e)),
        Ok(_) => {
            let regs = RegistersView {
                values: m.frame.local.regs.values,
                unsynchronized: Set::empty(),
            };
            let local = LocalView { regs, ..m.frame.local };
            finish(
                Machine { frame: FrameView { local, ..m.frame }, ..m },
                sh,
                loc,
                Val::Unit,
                info,
            )
        },
    }
}

fn run_reset(
    loc: &Loc,
    info: SourceLoc,
    frame: &mut LocalFrame,
    task_state: &TaskState,
    shared_state: &SharedState,
    solver: &mut Solver,
) -> (r: Result<(), ExecError>)
    requires
        old(frame)@.pc < usize::MAX,
    ensures
        (reset::machine(*final(frame), *final(solver)), r) == reset_call(
            reset::machine(*old(frame), *old(solver)),
            *shared_state,
            task_state@,
            *loc,
            info,
        ),
{
    let ghost before = reset::machine(*frame, *solver);
    match reset_registers(frame, task_state, shared_state, solver, info) {
        Err(e) => Err(e),
        Ok(_) => {
            frame.local_state.regs.synchronize();
            proof {
                lemma_reset_keeps_pc(before, *shared_state, task_state@, info);
            }
            assign_and_advance(loc, Val::Unit, frame, shared_state, solver, info)
        },
    }
}

/// Resetting registers does not move the position in the program.
proof fn lemma_reset_keeps_pc(m: Machine, sh: SharedState, ts: TaskStateView, info: SourceLoc)
    ensures
        reset::reset_all(m, sh, ts, info).0.frame.pc == m.frame.pc,
{
    lemma_reset_each_keeps_pc(m, sh, sh.reset_registers@, ts.reset_registers, true, 0, info);
    let (m1, _) = reset::reset_each(
        m,
        sh,
        sh.reset_registers@,
        ts.reset_registers,
        true,
        0,
        info,
    );
    lemma_reset_each_keeps_pc(m1, sh, ts.reset_registers, seq![], false, 0, info);
    let (m2, _) = reset::reset_each(m1, sh, ts.reset_registers, seq![], false, 0, info);
    let m3 = m2.with_world(reset::constrain(m2.world(), sh, info).0);
    lemma_assume_keeps_pc(m3, sh, sh.function_assumptions@, 0, info);
}

proof fn lemma_reset_each_keeps_pc(
    m: Machine,
    sh: SharedState,
    resets: Seq<(Loc, u32)>,
    except: Seq<(Loc, u32)>,
    synchronize: bool,
    i: int,
    info: SourceLoc,
)
    ensures
        reset::reset_each(m, sh, resets, except, synchronize, i, info).0.frame.pc == m.frame.pc,
    decreases resets.len() - i,
{
    if 0 <= i < resets.len() {
        let (m1, _) = reset::reset_one(m, sh, resets[i].0, resets[i].1, synchronize, info);
        lemma_reset_each_keeps_pc(m, sh, resets, except, synchronize, i + 1, info);
        lemma_reset_each_keeps_pc(m1, sh, resets, except, synchronize, i + 1, info);
    }
}

proof fn lemma_assume_keeps_pc(
    m: Machine,
    sh: SharedState,
    assumptions: Seq<super::ir::FunctionAssumption>,
    i: int,
    info: SourceLoc,
)
    ensures
        reset::assume_functions(m, sh, assumptions, i, info).0.frame.pc == m.frame.pc,
    decreases assumptions.len() - i,
{
    if 0 <= i < assumptions.len() {
        let a = assumptions[i];
        let (w, r) = reset::assumption_values(
            m.world(),
            sh,
            reset::arg_trees(a.args@),
            a.result.tree(),
            info,
        );
        let m1 = m.with_world(w);
        if let Ok((args, result)) = r {
            let m2 = Machine {
                frame: FrameView {
                    function_assumptions: m1.frame.function_assumptions.push(
                        frame::Assumption { function: a.function, args: Vals::of(args), result },
                    ),
                    ..m1.frame
                },
                solver: m1.solver.record(
                    EventView::AssumeFun { name: a.function, args, return_value: result },
                ),
            };
            lemma_assume_keeps_pc(m2, sh, assumptions, i + 1, info);
        }
    }
}

/// A value that is to be chosen, and the symbol that says whether it is.
pub struct Choice {
    pub sym: Sym,
    /// The position of the value among the arguments.
    pub arg: usize,
}

/// Goes through pairs of a condition and a value from pair `i` on. A pair
/// whose condition is true gives the result, the last of them if there are
/// several. Pairs whose condition is symbolic are collected. A condition that
/// has no value belongs to a block that was not executed.
pub open spec fn choose_pairs(
    w: World,
    sh: SharedState,
    args: Seq<Exp>,
    i: int,
    chosen: Option<Val>,
    open: Seq<Choice>,
    info: SourceLoc,
) -> (World, Result<(Option<Val>, Seq<Choice>), ExecError>)
    decreases args.len() - 2 * i,
{
    if 0 <= i && 2 * i + 1 < args.len() {
        let (w, r) = eval::eval(w, sh, args[2 * i], seq![], info);
        match r {
            Err(ExecError::VariableNotFound(_)) => choose_pairs(
                w,
                sh,
                args,
                i + 1,
                chosen,
                open,
                info,
            ),
            Err(e) => (w, Err(e)),
            Ok(Val::Bool(b)) => if b {
                let (w, r) = eval::eval(w, sh, args[2 * i + 1], seq![], info);
                match r {
                    Err(e) => (w, Err(e)),
                    Ok(v) => choose_pairs(w, sh, args, i + 1, Some(v), open, info),
                }
            } else {
                choose_pairs(w, sh, args, i + 1, chosen, open, info)
            },
            Ok(Val::Symbolic(sym)) => choose_pairs(
                w,
                sh,
                args,
                i + 1,
                chosen,
                open.push(Choice { sym, arg: (2 * i + 1) as usize }),
                info,
            ),
            Ok(_) => (w, Err(ExecError::Type(TypeError::ItePhi, info))),
        }
    } else {
        (w, Ok((chosen, open)))
    }
}

/// The values that are left to choose from, from position `i` on.
pub open spec fn open_values(
    w: World,
    sh: SharedState,
    args: Seq<Exp>,
    open: Seq<Choice>,
    i: int,
    done: Seq<(Sym, Val)>,
    info: SourceLoc,
) -> (World, Result<Seq<(Sym, Val)>, ExecError>)
    decreases open.len() - i,
{
    if 0 <= i < open.len() {
        let (w, r) = eval::eval(w, sh, args[open[i].arg as int], seq![], info);
        match r {
            Err(e) => (w, Err(e)),
            Ok(v) => open_values(w, sh, args, open, i + 1, done.push((open[i].sym, v)), info),
        }
    } else {
        (w, Ok(done))
    }
}

/// Chooses a value by conditions.
pub open spec fn phi(m: Machine, sh: SharedState, loc: Loc, args: Seq<Exp>, info: SourceLoc) -> (
    Machine,
    Result<(), ExecError>,
) {
    let (w, r) = choose_pairs(m.world(), sh, args, 0, None, seq![], info);
    let m = m.with_world(w);
    match r {
        Err(e) => (m, Err(e)),
        Ok((Some(v), _)) => finish(m, sh, loc, v, info),
        Ok((None, open)) => {
            let (w, r) = open_values(m.world(), sh, args, open, 0, seq![], info);
            let m = m.with_world(w);
            match r {
                Err(e) => (m, Err(e)),
                Ok(choices) => if choices.len() == 0 {
                    (m, Err(ExecError::Malformed(Malformed::NothingToChoose)))
                } else {
                    let (s, r) = m.solver.ask_val(RequestView::ItePhi(choices), info);
                    let m = Machine { solver: s, ..m };
                    match r {
                        Err(e) => (m, Err(e)),
                        Ok(v) => finish(m, sh, loc, v, info),
                    }
                },
            }
        },
    }
}

fn choose_by_conditions(
    args: &Vec<Exp>,
    info: SourceLoc,
    local_state: &mut LocalState,
    shared_state: &SharedState,
    solver: &mut Solver,
) -> (r: Result<(Option<Val>, Vec<Choice>), ExecError>)
    ensures
        ({
            let (w, out) = choose_pairs(
                state::world(*old(local_state), *old(solver)),
                *shared_state,
                args@,
                0,
                None,
                seq![],
                info,
            );
            &&& state::world(*final(local_state), *final(solver)) == w
            &&& match r {
                Ok((chosen, open)) => {
                    &&& out == Ok::<(Option<Val>, Seq<Choice>), ExecError>((chosen, open@))
                    &&& forall|i: int|
                        0 <= i < open@.len() ==> (#[trigger] open@[i]).arg < args@.len()
                },
                Err(e) => out == Err::<(Option<Val>, Seq<Choice>), ExecError>(e),
            }
        }),
{
    let ghost whole = choose_pairs(
        state::world(*local_state, *solver),
        *shared_state,
        args@,
        0,
        None,
        seq![],
        info,
    );
    let mut chosen: Option<Val> = None;
    let mut open: Vec<Choice> = Vec::new();
    assert(open@ =~= seq![]);
    let n = args.len();
    let pairs = n / 2;
    let mut i: usize = 0;
    while i < pairs
        invariant
            i <= pairs,
            n == args@.len(),
            pairs == n / 2,
            forall|i: int| 0 <= i < open@.len() ==> (#[trigger] open@[i]).arg < args@.len(),
            whole == choose_pairs(
                state::world(*old(local_state), *old(solver)),
                *shared_state,
                args@,
                0,
                None,
                seq![],
                info,
            ),
            whole == choose_pairs(
                state::world(*local_state, *solver),
                *shared_state,
                args@,
                i as int,
                chosen,
                open@,
                info,
            ),
        decreases pairs - i,
    {
        match eval_exp(&args[2 * i], local_state, shared_state, solver, info) {
            Err(ExecError::VariableNotFound(_)) => {},
            Err(e) => {
                return Err(e);
            },
            Ok(Val::Bool(b)) => {
                if b {
                    match eval_exp(&args[2 * i + 1], local_state, shared_state, solver, info) {
                        Err(e) => {
                            return Err(e);
                        },
                        Ok(v) => {
                            chosen = Some(v);
                        },
                    }
                }
            },
            Ok(Val::Symbolic(sym)) => {
                open.push(Choice { sym, arg: 2 * i + 1 });
            },
            Ok(_) => {
                return Err(ExecError::Type(TypeError::ItePhi, info));
            },
        }
        i = i + 1;
    }
    Ok((chosen, open))
}

fn eval_open_values(
    args: &Vec<Exp>,
    open: &Vec<Choice>,
    info: SourceLoc,
    local_state: &mut LocalState,
    shared_state: &SharedState,
    solver: &mut Solver,
) -> (r: Result<Vec<(Sym, Val)>, ExecError>)
    requires
        forall|i: int| 0 <= i < open@.len() ==> (#[trigger] open@[i]).arg < args@.len(),
    ensures
        ({
            let (w, out) = open_values(
                state::world(*old(local_state), *old(solver)),
                *shared_state,
                args@,
                open@,
                0,
                seq![],
                info,
            );
            &&& state::world(*final(local_state), *final(solver)) == w
            &&& match r {
                Ok(choices) => out == Ok::<Seq<(Sym, Val)>, ExecError>(choices@),
                Err(e) => out == Err::<Seq<(Sym, Val)>, ExecError>(e),
            }
        }),
{
    let ghost whole = open_values(
        state::world(*local_state, *solver),
        *shared_state,
        args@,
        open@,
        0,
        seq![],
        info,
    );
    let mut done: Vec<(Sym, Val)> = Vec::new();
    assert(done@ =~= seq![]);
    let mut i: usize = 0;
    while i < open.len()
        invariant
            i <= open@.len(),
            forall|i: int| 0 <= i < open@.len() ==> (#[trigger] open@[i]).arg < args@.len(),
            whole == open_values(
                state::world(*old(local_state), *old(solver)),
                *shared_state,
                args@,
                open@,
                0,
                seq![],
                info,
            ),
            whole == open_values(
                state::world(*local_state, *solver),
                *shared_state,
                args@,
                open@,
                i as int,
                done@,
                info,
            ),
        decreases open@.len() - i,
    {
        assert(open@[i as int].arg < args@.len());
        match eval_exp(&args[open[i].arg], local_state, shared_state, solver, info) {
            Err(e) => {
                return Err(e);
            },
            Ok(v) => {
                done.push((open[i].sym, v));
            },
        }
        i = i + 1;
    }
    Ok(done)
}

fn run_phi(
    loc: &Loc,
    args: &Vec<Exp>,
    info: SourceLoc,
    frame: &mut LocalFrame,
    shared_state: &SharedState,
    solver: &mut Solver,
) -> (r: Result<(), ExecError>)
    requires
        old(frame)@.pc < usize::MAX,
    ensures
        (reset::machine(*final(frame), *final(solver)), r) == phi(
            reset::machine(*old(frame), *old(solver)),
            *shared_state,
            *loc,
            args@,
            info,
        ),
{
    match choose_by_conditions(args, info, &mut frame.local_state, shared_state, solver) {
        Err(e) => Err(e),
        Ok((Some(v), _)) => assign_and_advance(loc, v, frame, shared_state, solver, info),
        Ok((None, open)) => {
            let choices = match eval_open_values(
                args,
                &open,
                info,
                &mut frame.local_state,
                shared_state,
                solver,
            ) {
                Err(e) => {
                    return Err(e);
                },
                Ok(choices) => choices,
            };
            if choices.len() == 0 {
                return Err(ExecError::Malformed(Malformed::NothingToChoose));
            }
            match solver.ask_val(Request::ItePhi(choices), info) {
                Err(e) => Err(e),
                Ok(v) => assign_and_advance(loc, v, frame, shared_state, solver, info),
            }
        },
    }
}

/// Reads the register that a reference refers to.
pub open spec fn reg_deref(m: Machine, sh: SharedState, loc: Loc, arg: Exp, info: SourceLoc) -> (
    Machine,
    Result<(), ExecError>,
) {
    let (w, r) = eval::eval(m.world(), sh, arg, seq![], info);
    let m = m.with_world(w);
    match r {
        Err(e) => (m, Err(e)),
        Ok(Val::Ref(reg)) => {
            let (regs, s, r) = m.frame.local.regs.get(reg, m.solver, info);
            let m = m.with_world(
                World { local: LocalView { regs, ..m.frame.local }, solver: s },
            );
            match r {
                Err(e) => (m, Err(e)),
                Ok(None) => (m, Err(ExecError::Type(TypeError::RegDeref(reg), info))),
                Ok(Some(v)) => finish(
                    Machine {
                        solver: m.solver.record(EventView::ReadReg(reg, seq![], v)),
                        ..m
                    },
                    sh,
                    loc,
                    v,
                    info,
                ),
            }
        },
        Ok(_) => (m, Err(ExecError::Type(TypeError::RegDerefNotRegister(REG_DEREF), info))),
    }
}

fn run_reg_deref(
    loc: &Loc,
    arg: &Exp,
    info: SourceLoc,
    frame: &mut LocalFrame,
    shared_state: &SharedState,
    solver: &mut Solver,
) -> (r: Result<(), ExecError>)
    requires
        old(frame)@.pc < usize::MAX,
    ensures
        (reset::machine(*final(frame), *final(solver)), r) == reg_deref(
            reset::machine(*old(frame), *old(solver)),
            *shared_state,
            *loc,
            *arg,
            info,
        ),
{
    match eval_exp(arg, &mut frame.local_state, shared_state, solver, info) {
        Err(e) => Err(e),
        Ok(Val::Ref(reg)) => {
            match frame.local_state.regs.get(reg, solver, info) {
                Err(e) => Err(e),
                Ok(None) => Err(ExecError::Type(TypeError::RegDeref(reg), info)),
                Ok(Some(v)) => {
                    let event = Event::ReadReg(reg, Vec::new(), v.dup());
                    assert(event@ == EventView::ReadReg(reg, seq![], v));
                    solver.add_event(event);
                    assign_and_advance(loc, v, frame, shared_state, solver, info)
                },
            }
        },
        Ok(_) => Err(ExecError::Type(TypeError::RegDerefNotRegister(REG_DEREF), info)),
    }
}

/// The type of what a function returns that is not executed.
pub open spec fn abstract_result(sh: SharedState, f: Name, primitive: bool) -> Option<Ty> {
    if primitive {
        if sh.externs@.dom().contains(f) {
            Some(sh.externs@[f])
        } else {
            None
        }
    } else {
        if sh.functions@.dom().contains(f) {
            Some(sh.functions@[f].ret_ty)
        } else {
            None
        }
    }
}

/// Stands for a call of the function that the last argument refers to.
pub open spec fn abstract_call(
    m: Machine,
    sh: SharedState,
    loc: Loc,
    primitive: bool,
    args: Seq<Exp>,
    info: SourceLoc,
) -> (Machine, Result<(), ExecError>) {
    let (w, r) = eval::eval_all(m.world(), sh, args, 0, seq![], info);
    let m = m.with_world(w);
    match r {
        Err(e) => (m, Err(e)),
        Ok(vals) => match vals.last() {
            Val::Ref(f) => match abstract_result(sh, f, primitive) {
                None => (m, Err(ExecError::Malformed(Malformed::NoAbstractFunction))),
                Some(ty) => {
                    let (s, r) = m.solver.ask_val(RequestView::Symbolic(ty), info);
                    let m = Machine { solver: s, ..m };
                    match r {
                        Err(e) => (m, Err(e)),
                        Ok(v) => finish(
                            Machine {
                                solver: m.solver.record(
                                    EventView::Abstract {
                                        name: f,
                                        primitive,
                                        args: vals.drop_last(),
                                        return_value: v,
                                    },
                                ),
                                ..m
                            },
                            sh,
                            loc,
                            v,
                            info,
                        ),
                    }
                },
            },
            _ => (m, Err(ExecError::Malformed(Malformed::NoAbstractFunction))),
        },
    }
}

fn abstract_result_type(sh: &SharedState, f: Name, primitive: bool) -> (r: Option<Ty>)
    ensures
        r == abstract_result(*sh, f, primitive),
{
    if primitive {
        match sh.externs.get(f) {
            Some(ty) => Some(ty.dup()),
            None => None,
        }
    } else {
        match sh.functions.get(f) {
            Some(function) => Some(function.ret_ty.dup()),
            None => None,
        }
    }
}

/// As many values come out of an evaluation as went in.
proof fn lemma_eval_all_len(
    w: World,
    sh: SharedState,
    exps: Seq<Exp>,
    j: int,
    done: Seq<Val>,
    info: SourceLoc,
)
    requires
        0 <= j <= exps.len(),
        done.len() == j,
    ensures
        eval::eval_all(w, sh, exps, j, done, info).1 matches Ok(vals) ==> vals.len() == exps.len(),
    decreases exps.len() - j,
{
    if j < exps.len() {
        let (w1, r) = eval::eval(w, sh, exps[j], seq![], info);
        if let Ok(v) = r {
            lemma_eval_all_len(w1, sh, exps, j + 1, done.push(v), info);
        }
    }
}

fn run_abstract_call(
    loc: &Loc,
    primitive: bool,
    args: &Vec<Exp>,
    info: SourceLoc,
    frame: &mut LocalFrame,
    shared_state: &SharedState,
    solver: &mut Solver,
) -> (r: Result<(), ExecError>)
    requires
        old(frame)@.pc < usize::MAX,
        args@.len() > 0,
    ensures
        (reset::machine(*final(frame), *final(solver)), r) == abstract_call(
            reset::machine(*old(frame), *old(solver)),
            *shared_state,
            *loc,
            primitive,
            args@,
            info,
        ),
{
    proof {
        lemma_eval_all_len(
            reset::machine(*frame, *solver).world(),
            *shared_state,
            args@,
            0,
            seq![],
            info,
        );
    }
    let mut vals = match eval_args(args, &mut frame.local_state, shared_state, solver, info) {
        Err(e) => {
            return Err(e);
        },
        Ok(vals) => vals,
    };
    let ghost all = vals@;
    let f = match vals.pop() {
        Some(Val::Ref(f)) => f,
        _ => {
            return Err(ExecError::Malformed(Malformed::NoAbstractFunction));
        },
    };
    let ty = match abstract_result_type(shared_state, f, primitive) {
        Some(ty) => ty,
        None => {
            return Err(ExecError::Malformed(Malformed::NoAbstractFunction));
        },
    };
    match solver.ask_val(Request::Symbolic(ty), info) {
        Err(e) => Err(e),
        Ok(v) => {
            assert(vals@ =~= all.drop_last());
            let event = Event::Abstract {
                name: f,
                primitive,
                args: vals,
                return_value: v.dup(),
            };
            solver.add_event(event);
            assign_and_advance(loc, v, frame, shared_state, solver, info)
        },
    }
}

/// Reads a register by an index.
pub open spec fn read_call(m: Machine, sh: SharedState, loc: Loc, args: Seq<Exp>, info: SourceLoc) -> (
    Machine,
    Result<(), ExecError>,
) {
    if args.len() != 2 {
        (m, Err(ExecError::Malformed(Malformed::MissingArguments)))
    } else {
        let (w, r) = eval::eval_all(m.world(), sh, args, 0, seq![], info);
        let m = m.with_world(w);
        match r {
            Err(e) => (m, Err(e)),
            Ok(vals) => {
                let (w, r) = vector::read_indexed(m.world(), vals[0], vals[1], info);
                let m = m.with_world(w);
                match r {
                    Err(e) => (m, Err(e)),
                    Ok(v) => finish(m, sh, loc, v, info),
                }
            },
        }
    }
}

fn run_read_register(
    loc: &Loc,
    args: &Vec<Exp>,
    info: SourceLoc,
    frame: &mut LocalFrame,
    shared_state: &SharedState,
    solver: &mut Solver,
) -> (r: Result<(), ExecError>)
    requires
        old(frame)@.pc < usize::MAX,
    ensures
        (reset::machine(*final(frame), *final(solver)), r) == read_call(
            reset::machine(*old(frame), *old(solver)),
            *shared_state,
            *loc,
            args@,
            info,
        ),
{
    if args.len() != 2 {
        return Err(ExecError::Malformed(Malformed::MissingArguments));
    }
    proof {
        lemma_eval_all_len(
            reset::machine(*frame, *solver).world(),
            *shared_state,
            args@,
            0,
            seq![],
            info,
        );
    }
    match eval_args(args, &mut frame.local_state, shared_state, solver, info) {
        Err(e) => Err(e),
        Ok(vals) => {
            match read_register_from_vector(
                vals[0].dup(),
                vals[1].dup(),
                &mut frame.local_state,
                solver,
                info,
            ) {
                Err(e) => Err(e),
                Ok(v) => assign_and_advance(loc, v, frame, shared_state, solver, info),
            }
        },
    }
}

/// Writes to a register by an index.
pub open spec fn write_call(
    m: Machine,
    sh: SharedState,
    loc: Loc,
    args: Seq<Exp>,
    info: SourceLoc,
) -> (Machine, Result<(), ExecError>) {
    if args.len() != 3 {
        (m, Err(ExecError::Malformed(Malformed::MissingArguments)))
    } else {
        let (w, r) = eval::eval_all(m.world(), sh, args, 0, seq![], info);
        let m = m.with_world(w);
        match r {
            Err(e) => (m, Err(e)),
            Ok(vals) => {
                let (w, r) = vector::write_indexed(
                    m.world(),
                    vals[0],
                    vals[1],
                    vals[2],
                    info,
                );
                let m = m.with_world(w);
                match r {
                    Err(e) => (m, Err(e)),
                    Ok(_) => finish(m, sh, loc, Val::Unit, info),
                }
            },
        }
    }
}

fn run_write_register(
    loc: &Loc,
    args: &Vec<Exp>,
    info: SourceLoc,
    frame: &mut LocalFrame,
    shared_state: &SharedState,
    solver: &mut Solver,
) -> (r: Result<(), ExecError>)
    requires
        old(frame)@.pc < usize::MAX,
    ensures
        (reset::machine(*final(frame), *final(solver)), r) == write_call(
            reset::machine(*old(frame), *old(solver)),
            *shared_state,
            *loc,
            args@,
            info,
        ),
{
    if args.len() != 3 {
        return Err(ExecError::Malformed(Malformed::MissingArguments));
    }
    proof {
        lemma_eval_all_len(
            reset::machine(*frame, *solver).world(),
            *shared_state,
            args@,
            0,
            seq![],
            info,
        );
    }
    match eval_args(args, &mut frame.local_state, shared_state, solver, info) {
        Err(e) => Err(e),
        Ok(vals) => {
            match write_register_from_vector(
                vals[0].dup(),
                vals[1].dup(),
                vals[2].dup(),
                &mut frame.local_state,
                solver,
                info,
            ) {
                Err(e) => Err(e),
                Ok(_) => assign_and_advance(
                    loc,
                    Val::Unit,
                    frame,
                    shared_state,
                    solver,
                    info,
                ),
            }
        },
    }
}

/// How often an address has been reached.
pub open spec fn visits_of(visits: Seq<Seq<bool>>, pc: Seq<bool>) -> nat
    decreases visits.len(),
{
    if visits.len() == 0 {
        0
    } else {
        visits_of(visits.drop_last(), pc) + if visits.last() == pc {
            1nat
        } else {
            0nat
        }
    }
}

/// Counts the instruction, and stops the path if it has been reached too
/// often.
pub open spec fn count_visit(m: Machine, pc_limit: Option<(Name, usize)>, info: SourceLoc) -> (
    Machine,
    Result<(), ExecError>,
) {
    match pc_limit {
        None => (m, Ok(())),
        Some((arch_pc, limit)) => {
            let (regs, s, r) = m.frame.local.regs.get(arch_pc, m.solver, info);
            let m = m.with_world(
                World { local: LocalView { regs, ..m.frame.local }, solver: s },
            );
            match r {
                Err(e) => (m, Err(e)),
                Ok(None) => (m, Ok(())),
                Ok(Some(Val::Bits(pc))) => {
                    let visits = m.frame.pc_visits.push(pc@);
                    (
                        Machine { frame: FrameView { pc_visits: visits, ..m.frame }, ..m },
                        if visits_of(visits, pc@) > limit {
                            Err(ExecError::PCLimitReached(bv::to_nat(pc@) as u64))
                        } else {
                            Ok(())
                        },
                    )
                },
                Ok(Some(_)) => (m, Err(ExecError::Type(TypeError::ProgramCounter, info))),
            }
        },
    }
}

/// Marks the start of an instruction of the machine that is simulated.
pub open spec fn announce(
    m: Machine,
    sh: SharedState,
    ts: TaskStateView,
    loc: Loc,
    args: Seq<Exp>,
    info: SourceLoc,
) -> (Machine, Result<(), ExecError>) {
    if args.len() != 1 {
        (m, Err(ExecError::Malformed(Malformed::MissingArguments)))
    } else {
        let (w, r) = eval::eval(m.world(), sh, args[0], seq![], info);
        let m = m.with_world(w);
        match r {
            Err(e) => (m, Err(e)),
            Ok(opcode) => {
                let (m, r) = count_visit(m, ts.pc_limit, info);
                match r {
                    Err(e) => (m, Err(e)),
                    Ok(_) => finish(
                        Machine { solver: m.solver.record(EventView::Instr(opcode)), ..m },
                        sh,
                        loc,
                        Val::Unit,
                        info,
                    ),
                }
            },
        }
    }
}

fn count_visits(visits: &Vec<B64>, pc: B64) -> (r: usize)
    ensures
        r == visits_of(frame::bits_views(visits@), pc@),
{
    let mut n: usize = 0;
    let mut i: usize = 0;
    let ghost all = frame::bits_views(visits@);
    while i < visits.len()
        invariant
            i <= visits@.len(),
            n <= i,
            all == frame::bits_views(visits@),
            n == visits_of(all.take(i as int), pc@),
        decreases visits@.len() - i,
    {
        assert(all.take(i + 1).drop_last() =~= all.take(i as int));
        assert(all.take(i + 1).last() == visits@[i as int]@);
        if visits[i].same(pc) {
            n = n + 1;
        }
        i = i + 1;
    }
    assert(all.take(i as int) =~= all);
    n
}

fn check_pc_limit(
    frame: &mut LocalFrame,
    pc_limit: Option<(Name, usize)>,
    solver: &mut Solver,
    info: SourceLoc,
) -> (r: Result<(), ExecError>)
    ensures
        (reset::machine(*final(frame), *final(solver)), r) == count_visit(
            reset::machine(*old(frame), *old(solver)),
            pc_limit,
            info,
        ),
{
    let (arch_pc, limit) = match pc_limit {
        None => {
            return Ok(());
        },
        Some((arch_pc, limit)) => (arch_pc, limit),
    };
    match frame.local_state.regs.get(arch_pc, solver, info) {
        Err(e) => Err(e),
        Ok(None) => Ok(()),
        Ok(Some(Val::Bits(pc))) => {
            let ghost visits = frame@.pc_visits;
            frame.pc_visits.push(pc);
            assert(frame@.pc_visits =~= visits.push(pc@));
            if count_visits(&frame.pc_visits, pc) > limit {
                Err(ExecError::PCLimitReached(pc.lower_u64()))
            } else {
                Ok(())
            }
        },
        Ok(Some(_)) => Err(ExecError::Type(TypeError::ProgramCounter, info)),
    }
}

fn run_announce(
    loc: &Loc,
    args: &Vec<Exp>,
    info: SourceLoc,
    frame: &mut LocalFrame,
    task_state: &TaskState,
    shared_state: &SharedState,
    solver: &mut Solver,
) -> (r: Result<(), ExecError>)
    requires
        old(frame)@.pc < usize::MAX,
    ensures
        (reset::machine(*final(frame), *final(solver)), r) == announce(
            reset::machine(*old(frame), *old(solver)),
            *shared_state,
            task_state@,
            *loc,
            args@,
            info,
        ),
{
    if args.len() != 1 {
        return Err(ExecError::Malformed(Malformed::MissingArguments));
    }
    match eval_exp(&args[0], &mut frame.local_state, shared_state, solver, info) {
        Err(e) => Err(e),
        Ok(opcode) => match check_pc_limit(frame, task_state.pc_limit, solver, info) {
            Err(e) => Err(e),
            Ok(_) => {
                solver.add_event(Event::Instr(opcode));
                assign_and_advance(loc, Val::Unit, frame, shared_state, solver, info)
            },
        },
    }
}

/// Applies a constructor.
pub open spec fn construct(
    m: Machine,
    sh: SharedState,
    loc: Loc,
    ctor: Name,
    args: Seq<Exp>,
    info: SourceLoc,
) -> (Machine, Result<(), ExecError>) {
    if args.len() != 1 {
        (m, Err(ExecError::Malformed(Malformed::MissingArguments)))
    } else {
        let (w, r) = eval::eval(m.world(), sh, args[0], seq![], info);
        let m = m.with_world(w);
        match r {
            Err(e) => (m, Err(e)),
            Ok(v) => finish(m, sh, loc, Val::Ctor(ctor, Box::new(v)), info),
        }
    }
}

fn run_construct(
    loc: &Loc,
    ctor: Name,
    args: &Vec<Exp>,
    info: SourceLoc,
    frame: &mut LocalFrame,
    shared_state: &SharedState,
    solver: &mut Solver,
) -> (r: Result<(), ExecError>)
    requires
        old(frame)@.pc < usize::MAX,
    ensures
        (reset::machine(*final(frame), *final(solver)), r) == construct(
            reset::machine(*old(frame), *old(solver)),
            *shared_state,
            *loc,
            ctor,
            args@,
            info,
        ),
{
    if args.len() != 1 {
        return Err(ExecError::Malformed(Malformed::MissingArguments));
    }
    match eval_exp(&args[0], &mut frame.local_state, shared_state, solver, info) {
        Err(e) => Err(e),
        Ok(v) => assign_and_advance(
            loc,
            Val::Ctor(ctor, Box::new(v)),
            frame,
            shared_state,
            solver,
            info,
        ),
    }
}

/// Calls a function that the program does not define.
pub open spec fn special(
    m: Machine,
    sh: SharedState,
    ts: TaskStateView,
    loc: Loc,
    f: Name,
    args: Seq<Exp>,
    info: SourceLoc,
) -> (Machine, Result<(), ExecError>) {
    if f == INTERNAL_VECTOR_INIT && args.len() == 1 {
        vector_init(m, sh, loc, args[0], info)
    } else if f == INTERNAL_VECTOR_UPDATE && args.len() == 3 {
        vector_update(m, sh, loc, args, info)
    } else if f == RESET_REGISTERS {
        reset_call(m, sh, ts, loc, info)
    } else if f == ITE_PHI {
        phi(m, sh, loc, args, info)
    } else if f == REG_DEREF && args.len() == 1 {
        reg_deref(m, sh, loc, args[0], info)
    } else if (f == ABSTRACT_CALL || f == ABSTRACT_PRIMOP) && args.len() > 0 {
        abstract_call(m, sh, loc, f == ABSTRACT_PRIMOP, args, info)
    } else if f == READ_REGISTER_FROM_VECTOR {
        read_call(m, sh, loc, args, info)
    } else if f == WRITE_REGISTER_FROM_VECTOR {
        write_call(m, sh, loc, args, info)
    } else if f == INSTR_ANNOUNCE {
        announce(m, sh, ts, loc, args, info)
    } else if sh.union_ctors@.contains(f) {
        construct(m, sh, loc, f, args, info)
    } else {
        (m, Err(ExecError::NoFunction(f, info)))
    }
}

/// Calls a function that the program does not define.
pub fn run_special_primop(
    loc: &Loc,
    f: Name,
    args: &Vec<Exp>,
    info: SourceLoc,
    frame: &mut LocalFrame,
    task_state: &TaskState,
    shared_state: &SharedState,
    solver: &mut Solver,
) -> (r: Result<(), ExecError>)
    requires
        old(frame)@.pc < usize::MAX,
    ensures
        (reset::machine(*final(frame), *final(solver)), r) == special(
            reset::machine(*old(frame), *old(solver)),
            *shared_state,
            task_state@,
            *loc,
            f,
            args@,
            info,
        ),
{
    if f == INTERNAL_VECTOR_INIT && args.len() == 1 {
        run_vector_init(loc, &args[0], info, frame, shared_state, solver)
    } else if f == INTERNAL_VECTOR_UPDATE && args.len() == 3 {
        run_vector_update(loc, args, info, frame, shared_state, solver)
    } else if f == RESET_REGISTERS {
        run_reset(loc, info, frame, task_state, shared_state, solver)
    } else if f == ITE_PHI {
        run_phi(loc, args, info, frame, shared_state, solver)
    } else if f == REG_DEREF && args.len() == 1 {
        run_reg_deref(loc, &args[0], info, frame, shared_state, solver)
    } else if (f == ABSTRACT_CALL || f == ABSTRACT_PRIMOP) && args.len() > 0 {
        run_abstract_call(loc, f == ABSTRACT_PRIMOP, args, info, frame, shared_state, solver)
    } else if f == READ_REGISTER_FROM_VECTOR {
        run_read_register(loc, args, info, frame, shared_state, solver)
    } else if f == WRITE_REGISTER_FROM_VECTOR {
        run_write_register(loc, args, info, frame, shared_state, solver)
    } else if f == INSTR_ANNOUNCE {
        run_announce(loc, args, info, frame, task_state, shared_state, solver)
    } else if is_member(&shared_state.union_ctors, f) {
        run_construct(loc, f, args, info, frame, shared_state, solver)
    } else {
        Err(ExecError::NoFunction(f, info))
    }
}

} // verus!
