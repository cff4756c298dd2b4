//! What holds of executions as a whole.

use super::assign;
use super::call;
use super::collect;
use super::error::ExecError;
use super::eval;
use super::explore;
use super::frame::{self, Assumption, FrameView};
use super::ir::{Exp, FunctionAssumption, Instr, Loc, Primop, Reset, SharedState, SourceLoc, Ty, UVal, Val, Vals, INSTR_ANNOUNCE, RETURN};
use super::names::Name;
use super::prefix;
use super::replay;
use super::reset::{self, Machine, TaskStateView};
use super::run::{self, Context, Effect, Flow, RunResultView};
use super::solver::{self, Accessor, AskedView, DefView, EventView, ReplyView, RequestView, SmtResult, SolverView};
use super::special;
use super::state::{self, LocalView, World};
use super::task::{self, TaskView};
use crate::bitvector::B64;
use crate::smt::literal;
use crate::smt::semantics::{self, Interp, Value};
use crate::smt::smtlib::Sym;
use crate::smt::tree::{self, Tree};
use std::sync::Arc;
use vstd::prelude::*;

verus! {

/// Whether an expression is true under an interpretation.
pub open spec fn holds(interp: Interp<Sym>, t: Tree<Sym>) -> bool {
    semantics::denote(interp, t) == Value::Bool(true)
}

/// What the last event of a path asserts.
pub open spec fn last_assertion(trace: Seq<EventView>) -> Tree<Sym> {
    match trace.last() {
        EventView::Smt(DefView::Assert(t), _, _) => t,
        _ => arbitrary(),
    }
}

/// Where a jump splits a path, the two paths have the same past up to the
/// fork, and they part completely: whatever the symbols stand for, as long as
/// the condition is a boolean, exactly one of the two assertions holds that
/// the paths go on with.
pub proof fn law_jump_splits(
    m: Machine,
    cx: Context,
    v: Sym,
    target: usize,
    info: SourceLoc,
    replies: Seq<ReplyView>,
    interp: Interp<Sym>,
)
    requires
        run::branch(m, cx, v, target, info).spawned.len() > 0,
        (interp.var)(v) is Bool,
    ensures
        ({
            let effect = run::branch(m, cx, v, target, info);
            let other = effect.spawned[0];
            let here = effect.machine.solver.trace;
            let there = explore::start_of(other, replies).solver.trace;
            let past = other.checkpoint.trace;
            &&& effect.spawned.len() == 1
            &&& here.len() == past.len() + 2 && there.len() == past.len() + 2
            &&& here.take(past.len() as int) == past && there.take(past.len() as int) == past
            &&& here[past.len() as int] == EventView::Fork(m.frame.forks, v, 0, info)
            &&& there[past.len() as int] == EventView::Fork(m.frame.forks, v, 1, info)
            &&& here.last() is Smt && there.last() is Smt
            &&& holds(interp, last_assertion(here)) != holds(interp, last_assertion(there))
            &&& effect.machine.frame.pc == target
            &&& other.frame.pc == (m.frame.pc + 1) as usize
        }),
{
    let effect = run::branch(m, cx, v, target, info);
    let other = effect.spawned[0];
    let past = other.checkpoint.trace;
    let here = effect.machine.solver.trace;
    let there = explore::start_of(other, replies).solver.trace;
    assert(here.take(past.len() as int) =~= past);
    assert(there.take(past.len() as int) =~= past);
    let yes = solver::var(v);
    let no = solver::unary(tree::Op::Not, solver::var(v));
    assert(last_assertion(here) == yes);
    assert(last_assertion(there) == no);
    reveal_with_fuel(semantics::denote, 3);
    reveal_with_fuel(semantics::denote_all, 3);
    assert(semantics::denote_all(interp, seq![yes])[0] == (interp.var)(v));
}

/// Where a path is split on a value, both paths start with what had happened
/// before, and they part completely: whatever the symbols stand for, exactly
/// one of the two assertions holds that the paths go on with.
pub proof fn law_monomorphize_splits(
    m: Machine,
    sh: SharedState,
    cx: Context,
    id: Name,
    info: SourceLoc,
    replies: Seq<ReplyView>,
    interp: Interp<Sym>,
)
    requires
        run::monomorphize(m, sh, cx, id, info).spawned.len() > 0,
    ensures
        ({
            let effect = run::monomorphize(m, sh, cx, id, info);
            let other = effect.spawned[0];
            let here = effect.machine.solver.trace;
            let there = explore::start_of(other, replies).solver.trace;
            let past = other.checkpoint.trace;
            &&& effect.spawned.len() == 1
            &&& prefix::starts(past, here)
            &&& prefix::starts(past, there)
            &&& there.last() is Smt
            &&& exists|i: int|
                {
                    &&& past.len() <= i < here.len()
                    &&& here[i] is Smt
                    &&& holds(interp, #[trigger] last_assertion(here.take(i + 1))) != holds(
                        interp,
                        last_assertion(there),
                    )
                }
            &&& other.frame.pc == m.frame.pc
        }),
{
    broadcast use prefix::group_prefix;

    let effect = run::monomorphize(m, sh, cx, id, info);
    let other = effect.spawned[0];
    let past = other.checkpoint.trace;
    let here = effect.machine.solver.trace;
    let there = explore::start_of(other, replies).solver.trace;
    let (w, r) = state::read_id(m.world(), sh, id, seq![], info, false);
    let m1 = m.with_world(w);
    let v = r->Ok_0->Symbolic_0;
    let (s, b) = run::possible_value(m1.solver, v, info);
    let constant = tree::leaf(literal::bits_op(b->Ok_0));
    let equal = solver::binary(tree::Op::Eq, solver::var(v), constant);
    let differs = solver::binary(tree::Op::Neq, solver::var(v), constant);
    let n = m1.frame.forks;
    let asserted = s.record(EventView::Fork(n, v, 0, info)).assert_exp(equal);
    replay::lemma_possible_value(m1.solver, v, info, seq![]);
    let forked = Machine {
        frame: FrameView { forks: (n + 1) as u32, ..m1.frame },
        solver: asserted,
    };
    let value = Val::Bits(B64::of(b->Ok_0));
    replay::lemma_finish(forked, sh, Loc::Id(id), value, info, seq![]);
    assert(prefix::starts(asserted.trace, here));
    let i = asserted.trace.len() - 1;
    assert(here[i] == asserted.trace[i] && here.take(i + 1) =~= asserted.trace) by {
        reveal(prefix::starts);
    }
    assert(last_assertion(here.take(i + 1)) == equal);
    assert(last_assertion(there) == differs);
    reveal_with_fuel(semantics::denote, 3);
    reveal_with_fuel(semantics::denote_all, 3);
    let vals = semantics::denote_all(interp, seq![solver::var(v), constant]);
    assert(semantics::denote(interp, equal) == Value::Bool(vals[0] == vals[1]));
    assert(semantics::denote(interp, differs) == Value::Bool(vals[0] != vals[1]));
}

/// Whether a place is a variable or register, or a field inside one, and not
/// what a reference refers to.
pub open spec fn is_direct(loc: Loc) -> bool
    decreases loc,
{
    match loc {
        Loc::Id(_) => true,
        Loc::Field(inner, _) => is_direct(*inner),
        Loc::Addr(_) => false,
    }
}

/// Whether a name means the same for a read as for an assignment. An
/// assignment prefers a variable at the top level to a register, and a read
/// prefers the register.
pub open spec fn is_unambiguous(local: LocalView, id: Name) -> bool {
    local.vars.dom().contains(id) || !(local.lets.dom().contains(id)
        && local.regs.values.dom().contains(id))
}

/// Whether the same names have a meaning in two states.
pub open spec fn same_names(a: LocalView, b: LocalView) -> bool {
    &&& a.vars.dom() == b.vars.dom()
    &&& a.lets.dom() == b.lets.dom()
    &&& a.regs.values.dom() == b.regs.values.dom()
}

/// Whether a name means the same, and holds the same, in two states.
pub open spec fn same_at(a: LocalView, b: LocalView, id: Name) -> bool {
    &&& a.vars.dom().contains(id) == b.vars.dom().contains(id)
    &&& a.vars.dom().contains(id) ==> a.vars[id] == b.vars[id]
    &&& a.lets.dom().contains(id) == b.lets.dom().contains(id)
    &&& a.lets.dom().contains(id) ==> a.lets[id] == b.lets[id]
    &&& a.regs.values.dom().contains(id) == b.regs.values.dom().contains(id)
    &&& a.regs.values.dom().contains(id) ==> a.regs.values[id] == b.regs.values[id]
}

/// A read changes nothing but what it initialises.
proof fn lemma_read_keeps(
    w: World,
    sh: SharedState,
    loc: Loc,
    accessor: Seq<Accessor>,
    info: SourceLoc,
    for_write: bool,
)
    ensures
        ({
            let after = state::read_loc(w, sh, loc, accessor, info, for_write).0.local;
            &&& same_names(w.local, after)
            &&& forall|id: Name| id != loc.base() ==> #[trigger] same_at(w.local, after, id)
        }),
    decreases loc,
{
    match loc {
        Loc::Id(id) => {
            let after = state::read_loc(w, sh, loc, accessor, info, for_write).0.local;
            assert(w.local.vars.dom() =~= after.vars.dom());
            assert(w.local.lets.dom() =~= after.lets.dom());
            assert(w.local.regs.values.dom() =~= after.regs.values.dom());
        },
        Loc::Field(inner, field) => lemma_read_keeps(
            w,
            sh,
            *inner,
            accessor.push(Accessor::Field(field)),
            info,
            for_write,
        ),
        Loc::Addr(_) => {},
    }
}

/// A place that has been assigned to gives the value back when it is read.
pub proof fn law_read_after_assign(
    w: World,
    sh: SharedState,
    loc: Loc,
    v: Val,
    accessor: Seq<Accessor>,
    info: SourceLoc,
    read_accessor: Seq<Accessor>,
    read_info: SourceLoc,
    for_write: bool,
)
    requires
        is_direct(loc),
        is_unambiguous(w.local, loc.base()),
        assign::assigned(w, sh, loc, v, accessor, info).1 is Ok,
    ensures
        ({
            let after = assign::assigned(w, sh, loc, v, accessor, info).0;
            state::read_loc(after, sh, loc, read_accessor, read_info, for_write).1 == Ok::<
                Val,
                ExecError,
            >(v)
        }),
    decreases loc,
{
    if let Loc::Field(inner, field) = loc {
        lemma_read_keeps(w, sh, *inner, accessor, info, true);
        let (w1, r) = state::read_loc(w, sh, *inner, accessor, info, true);
        if let Ok(Val::Struct(fields)) = r {
            fields.lemma_with(field, v);
            law_read_after_assign(
                w1,
                sh,
                *inner,
                Val::Struct(fields.with(field, v)),
                accessor.push(Accessor::Field(field)),
                info,
                read_accessor.push(Accessor::Field(field)),
                read_info,
                for_write,
            );
        }
    }
}

/// An assignment leaves all other variables and registers as they are.
pub proof fn law_assign_keeps_others(
    w: World,
    sh: SharedState,
    loc: Loc,
    v: Val,
    accessor: Seq<Accessor>,
    info: SourceLoc,
    id: Name,
)
    requires
        is_direct(loc),
        id != loc.base(),
    ensures
        same_at(w.local, assign::assigned(w, sh, loc, v, accessor, info).0.local, id),
    decreases loc,
{
    if let Loc::Field(inner, field) = loc {
        lemma_read_keeps(w, sh, *inner, accessor, info, true);
        let (w1, r) = state::read_loc(w, sh, *inner, accessor, info, true);
        assert(same_at(w.local, w1.local, id));
        if let Ok(Val::Struct(fields)) = r {
            law_assign_keeps_others(
                w1,
                sh,
                *inner,
                Val::Struct(fields.with(field, v)),
                accessor.push(Accessor::Field(field)),
                info,
                id,
            );
        }
    }
}

/// Whether the stacks are in step: for each call that has not returned there
/// are the variables of the caller, the way back, and an entry in the
/// backtrace.
pub open spec fn balanced(frame: FrameView) -> bool {
    &&& frame.stack_vars.len() == frame.stack_call.len()
    &&& frame.stack_vars.len() == frame.backtrace.len()
}

/// Whether no address has been reached more often than is allowed.
pub open spec fn within_limit(frame: FrameView, pc_limit: Option<(Name, usize)>) -> bool {
    match pc_limit {
        Some((_, n)) => forall|pc: Seq<bool>| #[trigger]
            special::visits_of(frame.pc_visits, pc) <= n,
        None => true,
    }
}

/// Whether a path was ended because an address would be reached too often.
pub open spec fn limit_reached<T>(r: Result<T, ExecError>) -> bool {
    r matches Err(ExecError::PCLimitReached(_))
}

/// Whether two frames have the same calls in progress.
pub open spec fn same_calls(a: FrameView, b: FrameView) -> bool {
    &&& a.stack_vars == b.stack_vars
    &&& a.stack_call == b.stack_call
    &&& a.backtrace == b.backtrace
}

proof fn lemma_reset_each_keeps(
    m: Machine,
    sh: SharedState,
    resets: Seq<(Loc, Reset)>,
    except: Seq<(Loc, Reset)>,
    synchronize: bool,
    i: int,
    info: SourceLoc,
)
    ensures
        ({
            let after = reset::reset_each(m, sh, resets, except, synchronize, i, info).0.frame;
            &&& same_calls(m.frame, after)
            &&& m.frame.pc_visits == after.pc_visits
        }),
    decreases resets.len() - i,
{
    if 0 <= i < resets.len() {
        let (m1, _) = reset::reset_one(m, sh, resets[i].0, resets[i].1, synchronize, info);
        lemma_reset_each_keeps(m, sh, resets, except, synchronize, i + 1, info);
        lemma_reset_each_keeps(m1, sh, resets, except, synchronize, i + 1, info);
    }
}

proof fn lemma_assume_keeps(
    m: Machine,
    sh: SharedState,
    assumptions: Seq<FunctionAssumption>,
    i: int,
    info: SourceLoc,
)
    ensures
        ({
            let after = reset::assume_functions(m, sh, assumptions, i, info).0.frame;
            &&& same_calls(m.frame, after)
            &&& m.frame.pc_visits == after.pc_visits
        }),
    decreases assumptions.len() - i,
{
    if 0 <= i < assumptions.len() {
        let a = assumptions[i];
        let args = reset::arg_trees(a.args@);
        let (w, r) = reset::assumption_values(m.world(), sh, args, a.result.tree(), info);
        let m1 = m.with_world(w);
        if let Ok((args, result)) = r {
            let m2 = Machine {
                frame: FrameView {
                    function_assumptions: m1.frame.function_assumptions.push(
                        Assumption { function: a.function, args: Vals::of(args), result },
                    ),
                    ..m1.frame
                },
                solver: m1.solver.record(
                    EventView::AssumeFun { name: a.function, args, return_value: result },
                ),
            };
            lemma_assume_keeps(m2, sh, assumptions, i + 1, info);
        }
    }
}

proof fn lemma_reset_all_keeps(m: Machine, sh: SharedState, ts: TaskStateView, info: SourceLoc)
    ensures
        ({
            let after = reset::reset_all(m, sh, ts, info).0.frame;
            &&& same_calls(m.frame, after)
            &&& m.frame.pc_visits == after.pc_visits
        }),
{
    let first = sh.reset_registers@;
    lemma_reset_each_keeps(m, sh, first, ts.reset_registers, true, 0, info);
    let (m1, _) = reset::reset_each(m, sh, first, ts.reset_registers, true, 0, info);
    lemma_reset_each_keeps(m1, sh, ts.reset_registers, seq![], false, 0, info);
    let (m2, _) = reset::reset_each(m1, sh, ts.reset_registers, seq![], false, 0, info);
    let m3 = m2.with_world(reset::constrain(m2.world(), sh, info).0);
    lemma_assume_keeps(m3, sh, sh.function_assumptions@, 0, info);
}

/// One more visit counts for its own address alone.
proof fn lemma_visit(visits: Seq<Seq<bool>>, pc: Seq<bool>, other: Seq<bool>)
    ensures
        special::visits_of(visits.push(pc), other) == special::visits_of(visits, other) + if pc
            == other {
            1nat
        } else {
            0nat
        },
{
    assert(visits.push(pc).drop_last() =~= visits);
}

proof fn lemma_count_visit_keeps(m: Machine, limit: Option<(Name, usize)>, info: SourceLoc)
    ensures
        ({
            let (after, r) = special::count_visit(m, limit, info);
            &&& same_calls(m.frame, after.frame)
            &&& within_limit(m.frame, limit) ==> within_limit(after.frame, limit) || limit_reached(
                r,
            )
        }),
{
    if let Some((arch_pc, n)) = limit {
        let (after, r) = special::count_visit(m, limit, info);
        if within_limit(m.frame, limit) && !limit_reached(r) {
            assert forall|other: Seq<bool>| #[trigger]
                special::visits_of(after.frame.pc_visits, other) <= n by {
                assert(special::visits_of(m.frame.pc_visits, other) <= n);
                let (_, _, read) = m.frame.local.regs.get(arch_pc, m.solver, info);
                if let Ok(Some(Val::Bits(pc))) = read {
                    lemma_visit(m.frame.pc_visits, pc@, other);
                }
            }
        }
    }
}

#[verifier::spinoff_prover]
#[verifier::rlimit(40)]
proof fn lemma_special_keeps(
    m: Machine,
    sh: SharedState,
    ts: TaskStateView,
    loc: Loc,
    f: Name,
    args: Seq<Exp>,
    info: SourceLoc,
)
    ensures
        ({
            let (after, r) = special::special(m, sh, ts, loc, f, args, info);
            &&& same_calls(m.frame, after.frame)
            &&& within_limit(m.frame, ts.pc_limit) ==> within_limit(after.frame, ts.pc_limit)
                || limit_reached(r)
        }),
{
    lemma_reset_all_keeps(m, sh, ts, info);
    if f == INSTR_ANNOUNCE && args.len() == 1 {
        let (w, r) = eval::eval(m.world(), sh, args[0], seq![], info);
        lemma_count_visit_keeps(m.with_world(w), ts.pc_limit, info);
    }
}

/// Whether an effect keeps the stacks in step and the addresses within their
/// limit, on the path itself and on those that branch off.
pub open spec fn keeps(m: Machine, cx: Context, effect: Effect) -> bool {
    let limit = cx.task_state@.pc_limit;
    &&& balanced(m.frame) ==> {
        &&& balanced(effect.machine.frame)
        &&& forall|i: int|
            0 <= i < effect.spawned.len() ==> balanced((#[trigger] effect.spawned[i]).frame)
    }
    &&& within_limit(m.frame, limit) ==> {
        &&& within_limit(effect.machine.frame, limit) || limit_reached(effect.result)
        &&& forall|i: int|
            0 <= i < effect.spawned.len() ==> within_limit(
                (#[trigger] effect.spawned[i]).frame,
                limit,
            )
    }
}

proof fn lemma_call_keeps(
    m: Machine,
    sh: SharedState,
    cx: Context,
    loc: Loc,
    f: Name,
    args: Seq<Exp>,
    info: SourceLoc,
)
    ensures
        keeps(m, cx, run::call(m, sh, cx, loc, f, args, info)),
{
    if !sh.functions@.dom().contains(f) {
        lemma_special_keeps(m, sh, cx.task_state@, loc, f, args, info);
    }
}

proof fn lemma_return_keeps(m: Machine, sh: SharedState, cx: Context, v: Val)
    ensures
        keeps(m, cx, call::return_value(m, sh, v)),
{
}

proof fn lemma_end_keeps(m: Machine, sh: SharedState, cx: Context)
    ensures
        keeps(m, cx, call::end(m, sh)),
{
    let vars = m.frame.local.vars;
    if vars.dom().contains(RETURN) {
        match vars[RETURN] {
            UVal::Init(v) => lemma_return_keeps(m, sh, cx, v),
            UVal::Uninit(ty) => {
                let (s, r) = m.solver.ask_val(RequestView::Symbolic(ty), SourceLoc::Unknown);
                if let Ok(v) = r {
                    lemma_return_keeps(Machine { solver: s, ..m }, sh, cx, v);
                }
            },
        }
    }
}

proof fn lemma_jump_keeps(
    m: Machine,
    sh: SharedState,
    cx: Context,
    exp: Exp,
    target: usize,
    info: SourceLoc,
)
    ensures
        keeps(m, cx, run::jump(m, sh, cx, exp, target, info)),
{
}

proof fn lemma_monomorphize_keeps(
    m: Machine,
    sh: SharedState,
    cx: Context,
    id: Name,
    info: SourceLoc,
)
    ensures
        keeps(m, cx, run::monomorphize(m, sh, cx, id, info)),
{
}

proof fn lemma_primop_keeps(
    m: Machine,
    sh: SharedState,
    cx: Context,
    loc: Loc,
    f: Primop,
    args: Seq<Val>,
    info: SourceLoc,
)
    ensures
        keeps(m, cx, run::primop(m, sh, loc, f, args, info)),
{
}

proof fn lemma_operators_keep(m: Machine, sh: SharedState, cx: Context, instr: Instr)
    requires
        instr is PrimopUnary || instr is PrimopBinary || instr is PrimopVariadic,
    ensures
        keeps(m, cx, run::execute(m, sh, cx, instr)),
{
    match instr {
        Instr::PrimopUnary(loc, f, arg, info) => {
            let (m1, r) = run::eval_in(m, sh, arg, info);
            if let Ok(v) = r {
                lemma_primop_keeps(m1, sh, cx, loc, f, seq![v], info);
            }
        },
        Instr::PrimopBinary(loc, f, arg1, arg2, info) => {
            let (m1, r1) = run::eval_in(m, sh, arg1, info);
            let (m2, r2) = run::eval_in(m1, sh, arg2, info);
            if r1 is Ok && r2 is Ok {
                lemma_primop_keeps(m2, sh, cx, loc, f, seq![r1->Ok_0, r2->Ok_0], info);
            }
        },
        _ => {},
    }
}

proof fn lemma_execute_keeps(m: Machine, sh: SharedState, cx: Context, instr: Instr)
    ensures
        keeps(m, cx, run::execute(m, sh, cx, instr)),
{
    match instr {
        Instr::Jump(exp, target, info) => lemma_jump_keeps(m, sh, cx, exp, target, info),
        Instr::Call(loc, _, f, args, info) => lemma_call_keeps(m, sh, cx, loc, f, args@, info),
        Instr::End => lemma_end_keeps(m, sh, cx),
        Instr::Monomorphize(id, info) => lemma_monomorphize_keeps(m, sh, cx, id, info),
        Instr::Arbitrary => lemma_return_keeps(m, sh, cx, Val::Poison),
        Instr::PrimopUnary(_, _, _, _)
        | Instr::PrimopBinary(_, _, _, _, _)
        | Instr::PrimopVariadic(_, _, _, _) => lemma_operators_keep(m, sh, cx, instr),
        _ => {},
    }
}

proof fn lemma_run_keeps(
    fuel: nat,
    m: Machine,
    sh: SharedState,
    cx: Context,
    spawned: Seq<TaskView>,
)
    ensures
        ({
            let p = run::run_steps(fuel, m, sh, cx, spawned);
            let limit = cx.task_state@.pc_limit;
            &&& prefix::starts(spawned, p.spawned)
            &&& balanced(m.frame) ==> {
                &&& balanced(p.machine.frame)
                &&& forall|i: int|
                    spawned.len() <= i < p.spawned.len() ==> balanced(
                        (#[trigger] p.spawned[i]).frame,
                    )
            }
            &&& within_limit(m.frame, limit) ==> {
                &&& within_limit(p.machine.frame, limit) || (p.result is Some && limit_reached(
                    p.result->0,
                ))
                &&& forall|i: int|
                    spawned.len() <= i < p.spawned.len() ==> within_limit(
                        (#[trigger] p.spawned[i]).frame,
                        limit,
                    )
            }
        }),
    decreases fuel,
{
    broadcast use prefix::group_prefix;

    if fuel > 0 {
        let (s, r) = run::check_time(m.solver, cx.timeout);
        if m.frame.pc < m.frame.instrs@.len() && r is Ok {
            let m1 = Machine { solver: s, ..m };
            lemma_execute_keeps(m1, sh, cx, m.frame.instrs@[m.frame.pc as int]);
        }
        let effect = run::step(m, sh, cx);
        let more = spawned + effect.spawned;
        if effect.result matches Ok(Flow::Next) {
            lemma_run_keeps((fuel - 1) as nat, effect.machine, sh, cx, more);
        }
        let p = run::run_steps(fuel, m, sh, cx, spawned);
        assert(prefix::starts(more, p.spawned));
        assert forall|i: int| spawned.len() <= i < more.len() implies #[trigger] p.spawned[i]
            == effect.spawned[i - spawned.len()] by {
            reveal(prefix::starts);
        }
    }
}

/// Along a path the stacks stay in step, and so they are where paths branch
/// off from it.
pub proof fn law_stacks_stay_balanced(fuel: nat, m: Machine, sh: SharedState, cx: Context)
    requires
        balanced(m.frame),
    ensures
        ({
            let p = run::run_steps(fuel, m, sh, cx, seq![]);
            &&& balanced(p.machine.frame)
            &&& forall|i: int|
                0 <= i < p.spawned.len() ==> balanced((#[trigger] p.spawned[i]).frame)
        }),
{
    lemma_run_keeps(fuel, m, sh, cx, seq![]);
}

/// A path on which each address may be reached a number of times ends where
/// one would be reached more often, and so do the paths that branch off from
/// it: they start within the limit.
pub proof fn law_pc_limit_holds(fuel: nat, m: Machine, sh: SharedState, cx: Context)
    requires
        within_limit(m.frame, cx.task_state@.pc_limit),
    ensures
        ({
            let p = run::run_steps(fuel, m, sh, cx, seq![]);
            let limit = cx.task_state@.pc_limit;
            &&& !(p.result is Some && limit_reached(p.result->0)) ==> within_limit(
                p.machine.frame,
                limit,
            )
            &&& forall|i: int|
                0 <= i < p.spawned.len() ==> within_limit((#[trigger] p.spawned[i]).frame, limit)
        }),
{
    lemma_run_keeps(fuel, m, sh, cx, seq![]);
}

/// A new frame has no calls in progress and has reached no address, so that
/// its stacks are in step and it is within every limit.
pub proof fn law_new_frame_is_fresh(
    name: Name,
    params: Seq<(Name, Ty)>,
    ret_ty: Ty,
    vals: Option<Seq<Val>>,
    instrs: Arc<Vec<Instr>>,
    limit: Option<(Name, usize)>,
)
    ensures
        ({
            let fresh = frame::initial_frame(name, params, ret_ty, vals, instrs);
            balanced(fresh) && within_limit(fresh, limit)
        }),
{
}

/// A variable that is assigned to right after it is declared never comes to
/// the solver.
pub proof fn law_assigned_variable_asks_nothing(
    m: Machine,
    sh: SharedState,
    id: Name,
    ty: Ty,
    v: Val,
    info: SourceLoc,
    read_info: SourceLoc,
)
    ensures
        ({
            let declared = run::declare(m, id, UVal::Uninit(ty));
            let (w, r) = assign::assigned(declared.world(), sh, Loc::Id(id), v, seq![], info);
            let (after, value) = state::read_id(w, sh, id, seq![], read_info, false);
            &&& r is Ok
            &&& value == Ok::<Val, ExecError>(v)
            &&& after.solver == m.solver
        }),
{
}

/// A variable without a value gets one from the solver when it is first read,
/// and keeps it: reading it again gives the same value and changes nothing.
pub proof fn law_variable_is_initialised_once(
    w: World,
    sh: SharedState,
    id: Name,
    ty: Ty,
    accessor: Seq<Accessor>,
    info: SourceLoc,
    for_write: bool,
    read_again: SourceLoc,
)
    requires
        w.local.vars.dom().contains(id),
        w.local.vars[id] == UVal::Uninit(ty),
        state::read_id(w, sh, id, accessor, info, for_write).1 is Ok,
    ensures
        ({
            let (first, v) = state::read_id(w, sh, id, accessor, info, for_write);
            &&& first.solver.asked == w.solver.asked.push(
                AskedView { request: RequestView::Symbolic(ty), attrs: w.solver.attrs, info },
            )
            &&& state::read_id(first, sh, id, accessor, read_again, for_write) == (first, v)
        }),
{
}

/// A task that is resumed finds the solver as it was at the checkpoint: the
/// same past, and the same symbols free.
pub proof fn law_resumed_where_it_was(
    s: SolverView,
    id: usize,
    frame: FrameView,
    state: TaskStateView,
    replies: Seq<ReplyView>,
)
    ensures
        ({
            let suspended = TaskView {
                id,
                frame,
                checkpoint: task::checkpoint_of(s),
                fork_cond: None,
                state,
                stop_conditions: None,
            };
            let resumed = explore::start_of(suspended, replies);
            &&& resumed.frame == frame
            &&& resumed.solver.trace == s.trace
            &&& resumed.solver.next == s.next
            &&& resumed.solver.replies == replies
            &&& resumed.solver.asked.len() == 0
        }),
{
}

/// Whether an interpretation agrees with an event: an assertion holds, and a
/// symbol that is defined stands for its definition.
pub open spec fn agrees_with(interp: Interp<Sym>, event: EventView) -> bool {
    match event {
        EventView::Smt(DefView::Assert(t), _, _) => holds(interp, t),
        EventView::Smt(DefView::DefineConst(v, t), _, _) => (interp.var)(v) == semantics::denote(
            interp,
            t,
        ),
        _ => true,
    }
}

/// Whether an interpretation agrees with all that is known on a path.
pub open spec fn takes_path(interp: Interp<Sym>, trace: Seq<EventView>) -> bool {
    forall|i: int| 0 <= i < trace.len() ==> agrees_with(interp, #[trigger] trace[i])
}

/// Whether the solver is right when it says that a path cannot end with
/// false.
pub open spec fn right_about_false(s: SolverView, v: Sym, interp: Interp<Sym>) -> bool {
    let asserted = s.assert_exp(solver::unary(tree::Op::Not, solver::var(v)));
    let (_, verdict) = asserted.ask_sat(RequestView::CheckSat, SourceLoc::Unknown);
    verdict == Ok::<SmtResult, ExecError>(SmtResult::Unsat) ==> !takes_path(
        interp,
        asserted.trace,
    )
}

/// A path of a boolean function that is found not to end with false ends with
/// true, whatever the symbols stand for on it, provided that the solver is
/// right.
pub proof fn law_not_false_means_true(
    s: SolverView,
    value: Val,
    frame: FrameView,
    interp: Interp<Sym>,
)
    requires
        collect::can_be_false(s, RunResultView::Finished(value, frame)).1 == Ok::<bool, ExecError>(
            false,
        ),
        takes_path(interp, s.trace),
        match value {
            Val::Bool(_) => true,
            Val::Symbolic(v) => (interp.var)(v) is Bool && right_about_false(s, v, interp),
            _ => false,
        },
    ensures
        match value {
            Val::Symbolic(v) => (interp.var)(v) == Value::Bool(true),
            _ => value == Val::Bool(true),
        },
{
    if let Val::Symbolic(v) = value {
        let no = solver::unary(tree::Op::Not, solver::var(v));
        let asserted = s.assert_exp(no);
        if (interp.var)(v) == Value::Bool(false) {
            reveal_with_fuel(semantics::denote, 3);
            reveal_with_fuel(semantics::denote_all, 3);
            assert(semantics::denote_all(interp, seq![solver::var(v)])[0] == (interp.var)(v));
            assert(holds(interp, no));
            assert forall|i: int| 0 <= i < asserted.trace.len() implies agrees_with(
                interp,
                #[trigger] asserted.trace[i],
            ) by {
                if i < s.trace.len() {
                    assert(asserted.trace[i] == s.trace[i]);
                }
            }
            assert(takes_path(interp, asserted.trace));
        }
    }
}

/// What is collected over a number of paths, given for each whether it can
/// end with false.
pub open spec fn collected_over(bad: Seq<bool>) -> bool
    decreases bad.len(),
{
    bad.len() == 0 || (collected_over(bad.drop_last()) && !bad.last())
}

/// What is collected is true exactly if no path can end with false.
pub proof fn law_collected_over_all_paths(bad: Seq<bool>)
    ensures
        collected_over(bad) <==> forall|i: int| 0 <= i < bad.len() ==> !#[trigger] bad[i],
    decreases bad.len(),
{
    if bad.len() > 0 {
        let rest = bad.drop_last();
        law_collected_over_all_paths(rest);
        assert(forall|i: int| 0 <= i < rest.len() ==> rest[i] == #[trigger] bad[i]);
        if collected_over(bad) {
            assert forall|i: int| 0 <= i < bad.len() implies !#[trigger] bad[i] by {
                if i < rest.len() {
                    assert(!rest[i]);
                }
            }
        }
        if forall|i: int| 0 <= i < bad.len() ==> !#[trigger] bad[i] {
            assert(!bad[bad.len() - 1]);
            assert forall|i: int| 0 <= i < rest.len() implies !#[trigger] rest[i] by {
                assert(rest[i] == bad[i]);
            }
        }
    }
}

} // verus!
