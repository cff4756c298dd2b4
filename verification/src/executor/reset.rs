//! Bringing registers into their initial state.

use super::assign::{self, assign_with_accessor};
use super::error::ExecError;
use super::frame::{Assumption, FrameView, LocalFrame};
use super::ir::{FunctionAssumption, Loc, Place, Reset, SharedState, SourceLoc, Val, Vals};
use super::names::{Dup, Name};
use super::resets::{self, contains_place, Resets};
use super::solver::{copy_vals, Accessor, Answer, AnswerView, Event, EventView, Request, RequestView, Solver, SolverView};
use super::state::{self, get_loc_and_initialize, LocalState, LocalView, World};
use crate::bitvector::B64;
use crate::smt::smtlib::{Exp, Sym};
use crate::smt::tree::{Op, Tree};
use vstd::prelude::*;

verus! {

/// What the paths of one task have in common.
pub struct TaskState {
    pub(crate) reset_registers: Resets,
    pub(crate) pc_limit: Option<(Name, usize)>,
}

pub struct TaskStateView {
    /// The registers that are initialised otherwise than the program says.
    pub reset_registers: Seq<(Loc, Reset)>,
    /// The register that holds the address of the instruction, and how often
    /// each address may be reached.
    pub pc_limit: Option<(Name, usize)>,
}

impl View for TaskState {
    type V = TaskStateView;

    open(crate) spec fn view(&self) -> TaskStateView {
        TaskStateView { reset_registers: self.reset_registers@, pc_limit: self.pc_limit }
    }
}

impl TaskState {
    pub fn new() -> (r: Self)
        ensures
            r@ == (TaskStateView { reset_registers: seq![], pc_limit: None }),
    {
        let r = TaskState { reset_registers: Resets::new(), pc_limit: None };
        assert(r@.reset_registers =~= seq![]);
        r
    }

    pub fn with_reset_registers(self, reset_registers: Resets) -> (r: Self)
        ensures
            r@ == (TaskStateView { reset_registers: reset_registers@, ..self@ }),
    {
        TaskState { reset_registers, pc_limit: self.pc_limit }
    }

    pub fn with_pc_limit(self, pc: Name, limit: usize) -> (r: Self)
        ensures
            r@ == (TaskStateView { pc_limit: Some((pc, limit)), ..self@ }),
    {
        TaskState { reset_registers: self.reset_registers, pc_limit: Some((pc, limit)) }
    }
}

impl Default for TaskState {
    fn default() -> (r: Self)
        ensures
            r@ == (TaskStateView { reset_registers: seq![], pc_limit: None }),
    {
        TaskState::new()
    }
}

/// All that changes while a function is executed.
pub struct Machine {
    pub frame: FrameView,
    pub solver: SolverView,
}

impl Machine {
    pub open spec fn world(self) -> World {
        World { local: self.frame.local, solver: self.solver }
    }

    pub open spec fn with_world(self, w: World) -> Machine {
        Machine { frame: FrameView { local: w.local, ..self.frame }, solver: w.solver }
    }
}

pub open spec fn machine(frame: LocalFrame, solver: Solver) -> Machine {
    Machine { frame: frame@, solver: solver@ }
}

/// The value that an SMT expression stands for. What is not simple enough is
/// given a name.
pub open spec fn value_of_exp(s: SolverView, t: Tree<Sym>) -> (
    SolverView,
    Result<Val, ExecError>,
) {
    match t {
        Tree::Var(v) => (s, Ok(Val::Symbolic(v))),
        Tree::Node(Op::Bits64(b), _) => (s, Ok(Val::Bits(B64::of(b)))),
        Tree::Node(Op::Enum(m), _) => (s, Ok(Val::Enum(m))),
        Tree::Node(Op::Bool(b), _) => (s, Ok(Val::Bool(b))),
        _ => {
            let (s, r) = s.define_const(t, SourceLoc::CommandLine);
            (
                s,
                match r {
                    Ok(v) => Ok(Val::Symbolic(v)),
                    Err(e) => Err(e),
                },
            )
        },
    }
}

pub fn smt_exp_to_value(exp: Exp<Sym>, solver: &mut Solver) -> (r: Result<Val, ExecError>)
    ensures
        (final(solver)@, r) == value_of_exp(old(solver)@, exp.tree()),
{
    match exp {
        Exp::Var(v) => Ok(Val::Symbolic(v)),
        Exp::Bits64(b) => {
            proof {
                exp.lemma_tree0();
                crate::bv::lemma_from_int_to_nat(b@);
            }
            Ok(Val::Bits(B64::new(b.lower_u64(), b.len())))
        },
        Exp::Enum(m) => {
            proof {
                exp.lemma_tree0();
            }
            Ok(Val::Enum(m))
        },
        Exp::Bool(b) => {
            proof {
                exp.lemma_tree0();
            }
            Ok(Val::Bool(b))
        },
        _ => match solver.define_const(exp, SourceLoc::CommandLine) {
            Ok(v) => Ok(Val::Symbolic(v)),
            Err(e) => Err(e),
        },
    }
}

/// An error that comes up while a constraint is read.
pub open spec fn unreachable(e: ExecError) -> ExecError {
    match e {
        ExecError::Pending => ExecError::Pending,
        e => ExecError::Unreachable(Box::new(e)),
    }
}

fn as_unreachable(e: ExecError) -> (r: ExecError)
    ensures
        r == unreachable(e),
{
    match e {
        ExecError::Pending => ExecError::Pending,
        e => ExecError::Unreachable(Box::new(e)),
    }
}

/// What a place holds, as an SMT expression.
pub open spec fn lookup(w: World, sh: SharedState, place: Place, info: SourceLoc) -> (
    World,
    Result<Tree<Sym>, ExecError>,
) {
    if place < sh.places@.len() && sh.places@[place as int] is Some {
        let (w, r) = state::read_loc(
            w,
            sh,
            sh.places@[place as int]->0,
            seq![],
            info,
            false,
        );
        match r {
            Err(e) => (w, Err(unreachable(e))),
            Ok(v) => {
                let (s, r) = w.solver.ask(RequestView::SmtValue(v), info);
                (
                    World { solver: s, ..w },
                    match r {
                        Ok(AnswerView::Exp(t)) => Ok(t),
                        Ok(_) => Err(unreachable(ExecError::UnexpectedAnswer)),
                        Err(e) => Err(unreachable(e)),
                    },
                )
            },
        }
    } else {
        (w, Err(unreachable(ExecError::NoPlace)))
    }
}

/// A constraint with what the places hold put in, from left to right.
pub open spec fn resolve(w: World, sh: SharedState, t: Tree<Place>, info: SourceLoc) -> (
    World,
    Result<Tree<Sym>, ExecError>,
)
    decreases t, 0nat,
{
    match t {
        Tree::Var(place) => lookup(w, sh, place, info),
        Tree::Node(op, kids) => {
            let (w, r) = resolve_all(w, sh, kids, 0, seq![], info);
            (
                w,
                match r {
                    Ok(kids) => Ok(Tree::Node(op, kids)),
                    Err(e) => Err(e),
                },
            )
        },
    }
}

pub open spec fn resolve_all(
    w: World,
    sh: SharedState,
    kids: Seq<Tree<Place>>,
    j: int,
    done: Seq<Tree<Sym>>,
    info: SourceLoc,
) -> (World, Result<Seq<Tree<Sym>>, ExecError>)
    decreases kids, kids.len() - j,
{
    if 0 <= j < kids.len() {
        let (w, r) = resolve(w, sh, kids[j], info);
        match r {
            Ok(t) => resolve_all(w, sh, kids, j + 1, done.push(t), info),
            Err(e) => (w, Err(e)),
        }
    } else {
        (w, Ok(done))
    }
}

fn lookup_place(
    place: Place,
    local_state: &mut LocalState,
    shared_state: &SharedState,
    solver: &mut Solver,
    info: SourceLoc,
) -> (r: Result<Exp<Sym>, ExecError>)
    ensures
        ({
            let (w, out) = lookup(
                state::world(*old(local_state), *old(solver)),
                *shared_state,
                place,
                info,
            );
            &&& state::world(*final(local_state), *final(solver)) == w
            &&& match r {
                Ok(exp) => out == Ok::<Tree<Sym>, ExecError>(exp.tree()),
                Err(e) => out == Err::<Tree<Sym>, ExecError>(e),
            }
        }),
{
    let i = place as usize;
    if i >= shared_state.places.len() {
        return Err(as_unreachable(ExecError::NoPlace));
    }
    match &shared_state.places[i] {
        Some(loc) => {
            let mut accessor: Vec<Accessor> = Vec::new();
            assert(accessor@ =~= seq![]);
            match get_loc_and_initialize(
                loc,
                local_state,
                shared_state,
                solver,
                &mut accessor,
                info,
                false,
            ) {
                Err(e) => Err(as_unreachable(e)),
                Ok(v) => match solver.ask(Request::SmtValue(v), info) {
                    Ok(Answer::Exp(exp)) => Ok(exp),
                    Ok(_) => Err(as_unreachable(ExecError::UnexpectedAnswer)),
                    Err(e) => Err(as_unreachable(e)),
                },
            }
        },
        None => Err(as_unreachable(ExecError::NoPlace)),
    }
}

/// The trees of a list of expressions.
pub open spec fn trees<V>(exps: Seq<Exp<V>>) -> Seq<Tree<V>> {
    Seq::new(exps.len(), |i: int| exps[i].tree())
}

fn resolve_exp(
    exp: &Exp<Place>,
    local_state: &mut LocalState,
    shared_state: &SharedState,
    solver: &mut Solver,
    info: SourceLoc,
) -> (r: Result<Exp<Sym>, ExecError>)
    ensures
        ({
            let (w, out) = resolve(
                state::world(*old(local_state), *old(solver)),
                *shared_state,
                exp.tree(),
                info,
            );
            &&& state::world(*final(local_state), *final(solver)) == w
            &&& match r {
                Ok(exp) => out == Ok::<Tree<Sym>, ExecError>(exp.tree()),
                Err(e) => out == Err::<Tree<Sym>, ExecError>(e),
            }
        }),
    decreases exp,
{
    if let Exp::Var(place) = exp {
        return lookup_place(*place, local_state, shared_state, solver, info);
    }
    let n = exp.num_kids();
    let ghost kids = exp.tree().kids();
    let ghost whole = resolve_all(
        state::world(*local_state, *solver),
        *shared_state,
        kids,
        0,
        seq![],
        info,
    );
    let mut operands: Vec<Exp<Sym>> = Vec::new();
    let mut i: usize = 0;
    proof {
        exp.lemma_tree_kids();
        assert(trees(operands@) =~= seq![]);
    }
    while i < n
        invariant
            n == exp.kids().len(),
            n == kids.len(),
            i <= n,
            !(exp is Var),
            kids == exp.tree().kids(),
            operands@.len() == i,
            forall|k: int| 0 <= k < n ==> #[trigger] kids[k] == exp.kids()[k].tree(),
            whole == resolve_all(
                state::world(*old(local_state), *old(solver)),
                *shared_state,
                kids,
                0,
                seq![],
                info,
            ),
            whole == resolve_all(
                state::world(*local_state, *solver),
                *shared_state,
                kids,
                i as int,
                trees(operands@),
                info,
            ),
        decreases n - i,
    {
        proof {
            exp.lemma_kids_decrease(i as int);
            assert(kids[i as int] == exp.kids()[i as int].tree());
        }
        match resolve_exp(exp.kid(i), local_state, shared_state, solver, info) {
            Ok(operand) => {
                let ghost before = operands@;
                operands.push(operand);
                assert(trees(operands@) =~= trees(before).push(operand.tree()));
            },
            Err(e) => {
                return Err(e);
            },
        }
        i = i + 1;
    }
    let ghost done = operands@;
    let r = exp.rebuild(operands);
    proof {
        r.lemma_tree_kids();
        assert(r.tree().kids() =~= trees(done));
    }
    Ok(r)
}

/// Initialises a register, and records what it is assumed to hold.
pub open spec fn reset_one(
    m: Machine,
    sh: SharedState,
    loc: Loc,
    reset: Reset,
    synchronize: bool,
    info: SourceLoc,
) -> (Machine, Result<(), ExecError>) {
    let (s, r) = m.solver.ask_val(RequestView::Reset(reset, m.frame.memory), info);
    let m = Machine { solver: s, ..m };
    match r {
        Err(e) => (m, Err(e)),
        Ok(v) => {
            let (w, r) = assign::assigned(m.world(), sh, loc, v, seq![], info);
            match r {
                Err(e) => (m.with_world(w), Err(e)),
                Ok(_) => {
                    let regs = w.local.regs;
                    let local = LocalView {
                        regs: if synchronize {
                            state::RegistersView {
                                values: regs.values,
                                unsynchronized: regs.unsynchronized.remove(loc.base()),
                            }
                        } else {
                            regs
                        },
                        ..w.local
                    };
                    let event = EventView::AssumeReg(loc.base(), loc.written_path(), v);
                    (m.with_world(World { local, solver: w.solver.record(event) }), Ok(()))
                },
            }
        },
    }
}

/// Initialises registers from position `i` on. Those that the task
/// initialises in its own way are left to it.
pub open spec fn reset_each(
    m: Machine,
    sh: SharedState,
    resets: Seq<(Loc, Reset)>,
    except: Seq<(Loc, Reset)>,
    synchronize: bool,
    i: int,
    info: SourceLoc,
) -> (Machine, Result<(), ExecError>)
    decreases resets.len() - i,
{
    if 0 <= i < resets.len() {
        if resets::has_place(except, resets[i].0) {
            reset_each(m, sh, resets, except, synchronize, i + 1, info)
        } else {
            let (m, r) = reset_one(m, sh, resets[i].0, resets[i].1, synchronize, info);
            match r {
                Err(e) => (m, Err(e)),
                Ok(_) => reset_each(m, sh, resets, except, synchronize, i + 1, info),
            }
        }
    } else {
        (m, Ok(()))
    }
}

fn reset_register(
    loc: &Loc,
    reset: Reset,
    synchronize: bool,
    frame: &mut LocalFrame,
    shared_state: &SharedState,
    solver: &mut Solver,
    info: SourceLoc,
) -> (r: Result<(), ExecError>)
    ensures
        (machine(*final(frame), *final(solver)), r) == reset_one(
            machine(*old(frame), *old(solver)),
            *shared_state,
            *loc,
            reset,
            synchronize,
            info,
        ),
{
    let v = match solver.ask_val(Request::Reset(reset, frame.memory), info) {
        Ok(v) => v,
        Err(e) => {
            return Err(e);
        },
    };
    let mut accessor: Vec<Accessor> = Vec::new();
    assert(accessor@ =~= seq![]);
    match assign_with_accessor(
        loc,
        v.dup(),
        &mut frame.local_state,
        shared_state,
        solver,
        &mut accessor,
        info,
    ) {
        Err(e) => Err(e),
        Ok(_) => {
            let reg_id = loc.id();
            if synchronize {
                frame.local_state.regs.synchronize_register(reg_id);
            }
            assert(accessor@ =~= loc.written_path());
            solver.add_event(Event::AssumeReg(reg_id, accessor, v));
            Ok(())
        },
    }
}

fn reset_list(
    resets: &Vec<(Loc, Reset)>,
    except: &Vec<(Loc, Reset)>,
    synchronize: bool,
    frame: &mut LocalFrame,
    shared_state: &SharedState,
    solver: &mut Solver,
    info: SourceLoc,
) -> (r: Result<(), ExecError>)
    ensures
        (machine(*final(frame), *final(solver)), r) == reset_each(
            machine(*old(frame), *old(solver)),
            *shared_state,
            resets@,
            except@,
            synchronize,
            0,
            info,
        ),
{
    let ghost whole = reset_each(
        machine(*frame, *solver),
        *shared_state,
        resets@,
        except@,
        synchronize,
        0,
        info,
    );
    let mut i: usize = 0;
    while i < resets.len()
        invariant
            i <= resets@.len(),
            whole == reset_each(
                machine(*old(frame), *old(solver)),
                *shared_state,
                resets@,
                except@,
                synchronize,
                0,
                info,
            ),
            whole == reset_each(
                machine(*frame, *solver),
                *shared_state,
                resets@,
                except@,
                synchronize,
                i as int,
                info,
            ),
        decreases resets@.len() - i,
    {
        if !contains_place(except, &resets[i].0) {
            match reset_register(
                &resets[i].0,
                resets[i].1,
                synchronize,
                frame,
                shared_state,
                solver,
                info,
            ) {
                Ok(_) => {},
                Err(e) => {
                    return Err(e);
                },
            }
        }
        i = i + 1;
    }
    Ok(())
}

/// Asserts the constraints on the initial state from position `i` on.
pub open spec fn assert_constraints(
    w: World,
    sh: SharedState,
    constraints: Seq<Exp<Place>>,
    i: int,
    info: SourceLoc,
) -> (World, Result<(), ExecError>)
    decreases constraints.len() - i,
{
    if 0 <= i < constraints.len() {
        let t = constraints[i].tree();
        let (w, r) = resolve(w, sh, t, info);
        match r {
            Err(e) => (w, Err(e)),
            Ok(exp) => assert_constraints(
                World { solver: w.solver.record(EventView::Assume(t)).assert_exp(exp), ..w },
                sh,
                constraints,
                i + 1,
                info,
            ),
        }
    } else {
        (w, Ok(()))
    }
}

/// Asserts the constraints on the initial state, and makes sure that they can
/// be met.
pub open spec fn constrain(w: World, sh: SharedState, info: SourceLoc) -> (
    World,
    Result<(), ExecError>,
) {
    if sh.reset_constraints@.len() == 0 {
        (w, Ok(()))
    } else {
        let (w, r) = assert_constraints(w, sh, sh.reset_constraints@, 0, info);
        match r {
            Err(e) => (w, Err(e)),
            Ok(_) => {
                let (s, r) = w.solver.ask_sat(RequestView::CheckSat, info);
                (
                    World { solver: s, ..w },
                    match r {
                        Err(e) => Err(e),
                        Ok(verdict) => match verdict.spec_is_unsat() {
                            Err(e) => Err(e),
                            Ok(unsat) => if unsat {
                                Err(ExecError::Dead)
                            } else {
                                Ok(())
                            },
                        },
                    },
                )
            },
        }
    }
}

fn assert_reset_constraints(
    local_state: &mut LocalState,
    shared_state: &SharedState,
    solver: &mut Solver,
    info: SourceLoc,
) -> (r: Result<(), ExecError>)
    ensures
        (state::world(*final(local_state), *final(solver)), r) == constrain(
            state::world(*old(local_state), *old(solver)),
            *shared_state,
            info,
        ),
{
    let constraints = &shared_state.reset_constraints;
    if constraints.len() == 0 {
        return Ok(());
    }
    let ghost whole = assert_constraints(
        state::world(*local_state, *solver),
        *shared_state,
        constraints@,
        0,
        info,
    );
    let mut i: usize = 0;
    while i < constraints.len()
        invariant
            i <= constraints@.len(),
            constraints@ == shared_state.reset_constraints@,
            constraints@.len() > 0,
            whole == assert_constraints(
                state::world(*old(local_state), *old(solver)),
                *shared_state,
                constraints@,
                0,
                info,
            ),
            whole == assert_constraints(
                state::world(*local_state, *solver),
                *shared_state,
                constraints@,
                i as int,
                info,
            ),
        decreases constraints@.len() - i,
    {
        match resolve_exp(&constraints[i], local_state, shared_state, solver, info) {
            Err(e) => {
                return Err(e);
            },
            Ok(exp) => {
                solver.add_event(Event::Assume(constraints[i].clone()));
                solver.assert_exp(exp);
            },
        }
        i = i + 1;
    }
    match solver.ask_sat(Request::CheckSat, info) {
        Err(e) => Err(e),
        Ok(verdict) => match verdict.is_unsat() {
            Err(e) => Err(e),
            Ok(unsat) => if unsat {
                Err(ExecError::Dead)
            } else {
                Ok(())
            },
        },
    }
}

/// The trees of arguments, where they are given.
pub open spec fn arg_trees<V>(args: Seq<Option<Exp<V>>>) -> Seq<Option<Tree<V>>> {
    Seq::new(
        args.len(),
        |i: int|
            match args[i] {
                Some(exp) => Some(exp.tree()),
                None => None,
            },
    )
}

/// Reads the arguments of an assumption from position `i` on.
pub open spec fn resolve_args(
    w: World,
    sh: SharedState,
    args: Seq<Option<Tree<Place>>>,
    i: int,
    done: Seq<Option<Tree<Sym>>>,
    info: SourceLoc,
) -> (World, Result<Seq<Option<Tree<Sym>>>, ExecError>)
    decreases args.len() - i,
{
    if 0 <= i < args.len() {
        match args[i] {
            None => resolve_args(w, sh, args, i + 1, done.push(None), info),
            Some(t) => {
                let (w, r) = resolve(w, sh, t, info);
                match r {
                    Ok(exp) => resolve_args(w, sh, args, i + 1, done.push(Some(exp)), info),
                    Err(e) => (w, Err(e)),
                }
            },
        }
    } else {
        (w, Ok(done))
    }
}

/// The values of arguments from position `i` on. Where no argument is given,
/// it is the unit value.
pub open spec fn arg_values(s: SolverView, args: Seq<Option<Tree<Sym>>>, i: int, done: Seq<Val>) -> (
    SolverView,
    Result<Seq<Val>, ExecError>,
)
    decreases args.len() - i,
{
    if 0 <= i < args.len() {
        match args[i] {
            None => arg_values(s, args, i + 1, done.push(Val::Unit)),
            Some(t) => {
                let (s, r) = value_of_exp(s, t);
                match r {
                    Ok(v) => arg_values(s, args, i + 1, done.push(v)),
                    Err(e) => (s, Err(e)),
                }
            },
        }
    } else {
        (s, Ok(done))
    }
}

/// The values that an assumption speaks of, in the state as it is now. The
/// result is read even if an argument could not be, and its error goes first.
/// Only a reply that is missing comes before that.
pub open spec fn assumption_values(
    w: World,
    sh: SharedState,
    args: Seq<Option<Tree<Place>>>,
    result: Tree<Place>,
    info: SourceLoc,
) -> (World, Result<(Seq<Val>, Val), ExecError>) {
    let (w, smt_args) = resolve_args(w, sh, args, 0, seq![], info);
    if smt_args matches Err(ExecError::Pending) {
        (w, Err(ExecError::Pending))
    } else {
        let (w, smt_result) = resolve(w, sh, result, info);
        match smt_result {
            Err(e) => (w, Err(e)),
            Ok(smt_result) => match smt_args {
                Err(e) => (w, Err(e)),
                Ok(smt_args) => {
                    let (s, vals) = arg_values(w.solver, smt_args, 0, seq![]);
                    match vals {
                        Err(e) => (World { solver: s, ..w }, Err(e)),
                        Ok(vals) => {
                            let (s, v) = value_of_exp(s, smt_result);
                            (
                                World { solver: s, ..w },
                                match v {
                                    Err(e) => Err(e),
                                    Ok(v) => Ok((vals, v)),
                                },
                            )
                        },
                    }
                },
            },
        }
    }
}

/// Takes up the assumptions about functions from position `i` on.
pub open spec fn assume_functions(
    m: Machine,
    sh: SharedState,
    assumptions: Seq<FunctionAssumption>,
    i: int,
    info: SourceLoc,
) -> (Machine, Result<(), ExecError>)
    decreases assumptions.len() - i,
{
    if 0 <= i < assumptions.len() {
        let a = assumptions[i];
        let (w, r) = assumption_values(
            m.world(),
            sh,
            arg_trees(a.args@),
            a.result.tree(),
            info,
        );
        let m = m.with_world(w);
        match r {
            Err(e) => (m, Err(e)),
            Ok((args, result)) => assume_functions(
                Machine {
                    frame: FrameView {
                        function_assumptions: m.frame.function_assumptions.push(
                            Assumption { function: a.function, args: Vals::of(args), result },
                        ),
                        ..m.frame
                    },
                    solver: m.solver.record(
                        EventView::AssumeFun { name: a.function, args, return_value: result },
                    ),
                },
                sh,
                assumptions,
                i + 1,
                info,
            ),
        }
    } else {
        (m, Ok(()))
    }
}

fn resolve_arg_list(
    args: &Vec<Option<Exp<Place>>>,
    local_state: &mut LocalState,
    shared_state: &SharedState,
    solver: &mut Solver,
    info: SourceLoc,
) -> (r: Result<Vec<Option<Exp<Sym>>>, ExecError>)
    ensures
        ({
            let (w, out) = resolve_args(
                state::world(*old(local_state), *old(solver)),
                *shared_state,
                arg_trees(args@),
                0,
                seq![],
                info,
            );
            &&& state::world(*final(local_state), *final(solver)) == w
            &&& match r {
                Ok(args) => out == Ok::<Seq<Option<Tree<Sym>>>, ExecError>(arg_trees(args@)),
                Err(e) => out == Err::<Seq<Option<Tree<Sym>>>, ExecError>(e),
            }
        }),
{
    let ghost whole = resolve_args(
        state::world(*local_state, *solver),
        *shared_state,
        arg_trees(args@),
        0,
        seq![],
        info,
    );
    let mut done: Vec<Option<Exp<Sym>>> = Vec::new();
    assert(arg_trees(done@) =~= seq![]);
    let mut i: usize = 0;
    while i < args.len()
        invariant
            i <= args@.len(),
            whole == resolve_args(
                state::world(*old(local_state), *old(solver)),
                *shared_state,
                arg_trees(args@),
                0,
                seq![],
                info,
            ),
            whole == resolve_args(
                state::world(*local_state, *solver),
                *shared_state,
                arg_trees(args@),
                i as int,
                arg_trees(done@),
                info,
            ),
        decreases args@.len() - i,
    {
        let ghost before = done@;
        match &args[i] {
            None => {
                done.push(None);
                assert(arg_trees(done@) =~= arg_trees(before).push(None));
            },
            Some(exp) => match resolve_exp(exp, local_state, shared_state, solver, info) {
                Ok(exp) => {
                    done.push(Some(exp));
                    assert(arg_trees(done@) =~= arg_trees(before).push(Some(exp.tree())));
                },
                Err(e) => {
                    return Err(e);
                },
            },
        }
        i = i + 1;
    }
    Ok(done)
}

fn arg_value_list(args: &Vec<Option<Exp<Sym>>>, solver: &mut Solver) -> (r: Result<
    Vec<Val>,
    ExecError,
>)
    ensures
        ({
            let (s, out) = arg_values(old(solver)@, arg_trees(args@), 0, seq![]);
            &&& final(solver)@ == s
            &&& match r {
                Ok(vals) => out == Ok::<Seq<Val>, ExecError>(vals@),
                Err(e) => out == Err::<Seq<Val>, ExecError>(e),
            }
        }),
{
    let ghost whole = arg_values(solver@, arg_trees(args@), 0, seq![]);
    let mut vals: Vec<Val> = Vec::new();
    assert(vals@ =~= seq![]);
    let mut i: usize = 0;
    while i < args.len()
        invariant
            i <= args@.len(),
            whole == arg_values(old(solver)@, arg_trees(args@), 0, seq![]),
            whole == arg_values(solver@, arg_trees(args@), i as int, vals@),
        decreases args@.len() - i,
    {
        match &args[i] {
            None => {
                vals.push(Val::Unit);
            },
            Some(exp) => match smt_exp_to_value(exp.clone(), solver) {
                Ok(v) => {
                    vals.push(v);
                },
                Err(e) => {
                    return Err(e);
                },
            },
        }
        i = i + 1;
    }
    Ok(vals)
}

fn assume_function(
    assumption: &FunctionAssumption,
    local_state: &mut LocalState,
    shared_state: &SharedState,
    solver: &mut Solver,
    info: SourceLoc,
) -> (r: Result<(Vec<Val>, Val), ExecError>)
    ensures
        ({
            let (w, out) = assumption_values(
                state::world(*old(local_state), *old(solver)),
                *shared_state,
                arg_trees(assumption.args@),
                assumption.result.tree(),
                info,
            );
            &&& state::world(*final(local_state), *final(solver)) == w
            &&& match r {
                Ok((args, v)) => out == Ok::<(Seq<Val>, Val), ExecError>((args@, v)),
                Err(e) => out == Err::<(Seq<Val>, Val), ExecError>(e),
            }
        }),
{
    let smt_args = resolve_arg_list(&assumption.args, local_state, shared_state, solver, info);
    if let Err(ExecError::Pending) = smt_args {
        return Err(ExecError::Pending);
    }
    let smt_result = match resolve_exp(
        &assumption.result,
        local_state,
        shared_state,
        solver,
        info,
    ) {
        Ok(exp) => exp,
        Err(e) => {
            return Err(e);
        },
    };
    let smt_args = match smt_args {
        Ok(args) => args,
        Err(e) => {
            return Err(e);
        },
    };
    let vals = match arg_value_list(&smt_args, solver) {
        Ok(vals) => vals,
        Err(e) => {
            return Err(e);
        },
    };
    match smt_exp_to_value(smt_result, solver) {
        Ok(v) => Ok((vals, v)),
        Err(e) => Err(e),
    }
}

fn assume_function_list(
    frame: &mut LocalFrame,
    shared_state: &SharedState,
    solver: &mut Solver,
    info: SourceLoc,
) -> (r: Result<(), ExecError>)
    ensures
        (machine(*final(frame), *final(solver)), r) == assume_functions(
            machine(*old(frame), *old(solver)),
            *shared_state,
            shared_state.function_assumptions@,
            0,
            info,
        ),
{
    let assumptions = &shared_state.function_assumptions;
    let ghost whole = assume_functions(
        machine(*frame, *solver),
        *shared_state,
        assumptions@,
        0,
        info,
    );
    let mut i: usize = 0;
    while i < assumptions.len()
        invariant
            i <= assumptions@.len(),
            assumptions@ == shared_state.function_assumptions@,
            whole == assume_functions(
                machine(*old(frame), *old(solver)),
                *shared_state,
                assumptions@,
                0,
                info,
            ),
            whole == assume_functions(
                machine(*frame, *solver),
                *shared_state,
                assumptions@,
                i as int,
                info,
            ),
        decreases assumptions@.len() - i,
    {
        let a = &assumptions[i];
        match assume_function(a, &mut frame.local_state, shared_state, solver, info) {
            Err(e) => {
                return Err(e);
            },
            Ok((args, result)) => {
                let event = Event::AssumeFun {
                    name: a.function,
                    args: copy_vals(&args),
                    return_value: result.dup(),
                };
                solver.add_event(event);
                frame.function_assumptions.push(
                    Assumption { function: a.function, args: Vals::from_vec(args), result },
                );
            },
        }
        i = i + 1;
    }
    Ok(())
}

/// Brings the registers into their initial state: those that the program
/// initialises, then those that the task initialises; then asserts the
/// constraints on that state, and takes up the assumptions about functions.
pub open spec fn reset_all(m: Machine, sh: SharedState, ts: TaskStateView, info: SourceLoc) -> (
    Machine,
    Result<(), ExecError>,
) {
    let (m, r) = reset_each(
        m,
        sh,
        sh.reset_registers@,
        ts.reset_registers,
        true,
        0,
        info,
    );
    match r {
        Err(e) => (m, Err(e)),
        Ok(_) => {
            let (m, r) = reset_each(m, sh, ts.reset_registers, seq![], false, 0, info);
            match r {
                Err(e) => (m, Err(e)),
                Ok(_) => {
                    let (w, r) = constrain(m.world(), sh, info);
                    let m = m.with_world(w);
                    match r {
                        Err(e) => (m, Err(e)),
                        Ok(_) => assume_functions(m, sh, sh.function_assumptions@, 0, info),
                    }
                },
            }
        },
    }
}

/// Brings the registers into their initial state.
pub fn reset_registers(
    frame: &mut LocalFrame,
    task_state: &TaskState,
    shared_state: &SharedState,
    solver: &mut Solver,
    info: SourceLoc,
) -> (r: Result<(), ExecError>)
    ensures
        (machine(*final(frame), *final(solver)), r) == reset_all(
            machine(*old(frame), *old(solver)),
            *shared_state,
            task_state@,
            info,
        ),
{
    match reset_list(
        shared_state.reset_registers.list(),
        task_state.reset_registers.list(),
        true,
        frame,
        shared_state,
        solver,
        info,
    ) {
        Ok(_) => {},
        Err(e) => {
            return Err(e);
        },
    }
    let none: Vec<(Loc, Reset)> = Vec::new();
    assert(none@ =~= seq![]);
    match reset_list(
        task_state.reset_registers.list(),
        &none,
        false,
        frame,
        shared_state,
        solver,
        info,
    ) {
        Ok(_) => {},
        Err(e) => {
            return Err(e);
        },
    }
    match assert_reset_constraints(&mut frame.local_state, shared_state, solver, info) {
        Ok(_) => {},
        Err(e) => {
            return Err(e);
        },
    }
    assume_function_list(frame, shared_state, solver, info)
}

/// Without exceptions, a list goes on as its tail does.
proof fn lemma_reset_tail(
    m: Machine,
    sh: SharedState,
    resets: Seq<(Loc, Reset)>,
    synchronize: bool,
    i: int,
    info: SourceLoc,
)
    requires
        resets.len() > 0,
        0 <= i,
    ensures
        reset_each(m, sh, resets, seq![], synchronize, i + 1, info) == reset_each(
            m,
            sh,
            resets.drop_first(),
            seq![],
            synchronize,
            i,
            info,
        ),
    decreases resets.len() - i,
{
    if i + 1 < resets.len() {
        let (loc, reset) = resets[i + 1];
        assert(resets.drop_first()[i] == resets[i + 1]);
        let (m1, _) = reset_one(m, sh, loc, reset, synchronize, info);
        lemma_reset_tail(m1, sh, resets, synchronize, i + 1, info);
    }
}

/// Initialising registers with exceptions is initialising those that are left
/// without the exceptions.
pub proof fn law_exceptions_are_left_out(
    m: Machine,
    sh: SharedState,
    resets: Seq<(Loc, Reset)>,
    except: Seq<(Loc, Reset)>,
    synchronize: bool,
    i: int,
    info: SourceLoc,
)
    requires
        0 <= i <= resets.len(),
    ensures
        reset_each(m, sh, resets, except, synchronize, i, info) == reset_each(
            m,
            sh,
            resets::without(resets.skip(i), except),
            seq![],
            synchronize,
            0,
            info,
        ),
    decreases resets.len() - i,
{
    if i < resets.len() {
        let here = resets.skip(i);
        let left = resets::without(here, except);
        let rest = resets::without(resets.skip(i + 1), except);
        assert(here.drop_first() =~= resets.skip(i + 1));
        assert(here[0] == resets[i]);
        if resets::has_place(except, resets[i].0) {
            law_exceptions_are_left_out(m, sh, resets, except, synchronize, i + 1, info);
        } else {
            let (m1, _) = reset_one(m, sh, resets[i].0, resets[i].1, synchronize, info);
            law_exceptions_are_left_out(m1, sh, resets, except, synchronize, i + 1, info);
            assert(left == seq![resets[i]] + rest);
            assert(left.drop_first() =~= rest);
            lemma_reset_tail(m1, sh, left, synchronize, 0, info);
        }
    }
}

} // verus!
