//! What the paths have in common that a path is split into, and how a value is
//! found to split on.

use super::error::ExecError;
use super::ir::{Instr, SharedState, SourceLoc, Val};
use super::names::Name;
use super::reset::Machine;
use super::run::{self, Context};
use super::solver::{AnswerView, DefView, EventView, RequestView, SmtResult, SolverView, SymbolValue};
use super::state;
use super::task;
use crate::smt::semantics::{self, Interp, Value};
use crate::smt::smtlib::{self, Sym};
use crate::smt::tree::Tree;
use vstd::prelude::*;

verus! {

/// Whether a task goes on under the conditions of the path that it was split
/// off from.
pub open spec fn inherits(other: task::TaskView, cx: Context) -> bool {
    &&& other.id == cx.task_id
    &&& other.state == cx.task_state@
    &&& match cx.stop_conditions {
        Some(stop) => other.stop_conditions == Some(*stop),
        None => other.stop_conditions is None,
    }
}

/// Only jumps and splits on a value split a path, into two at most, and what
/// is split off belongs to the same task: it has the same state to start from
/// and the same conditions to stop.
pub proof fn law_split_off_paths_inherit(m: Machine, sh: SharedState, cx: Context, instr: Instr)
    ensures
        ({
            let effect = run::execute(m, sh, cx, instr);
            &&& effect.spawned.len() <= 1
            &&& effect.spawned.len() > 0 ==> instr is Jump || instr is Monomorphize
            &&& effect.spawned.len() > 0 ==> inherits(effect.spawned[0], cx)
        }),
{
}

/// Each fork gets the next number, on both sides, and the path that goes on
/// counts it.
pub proof fn law_forks_are_counted(
    m: Machine,
    sh: SharedState,
    cx: Context,
    id: Name,
    v: Sym,
    target: usize,
    info: SourceLoc,
)
    ensures
        ({
            let effect = run::branch(m, cx, v, target, info);
            effect.spawned.len() > 0 ==> {
                &&& effect.machine.frame.forks == m.frame.forks + 1
                &&& (effect.spawned[0].fork_cond matches Some((_, EventView::Fork(n, w, side, at)))
                    && n == m.frame.forks && w == v && side == 1 && at == info)
            }
        }),
        ({
            let effect = run::monomorphize(m, sh, cx, id, info);
            effect.spawned.len() > 0 ==> {
                &&& effect.machine.frame.forks == m.frame.forks + 1
                &&& effect.spawned[0].frame.forks == m.frame.forks + 1
                &&& (effect.spawned[0].fork_cond matches Some((_, EventView::Fork(n, w, side, at)))
                    && n == m.frame.forks && side == 1 && at == info && state::read_id(
                    m.world(),
                    sh,
                    id,
                    seq![],
                    info,
                    false,
                ).1 == Ok::<Val, ExecError>(Val::Symbolic(w)))
            }
        }),
{
}

/// A jump on a symbolic condition asks whether it can be true and whether it
/// can be false. It splits the path only if both can be, and no input leads
/// there if neither can.
pub proof fn law_branch_asks_both(
    m: Machine,
    cx: Context,
    v: Sym,
    target: usize,
    info: SourceLoc,
    interp: Interp<Sym>,
)
    requires
        (interp.var)(v) is Bool,
        m.frame.forks < u32::MAX,
        m.solver.asked.len() + 1 < m.solver.replies.len(),
        m.solver.next + m.solver.replies[m.solver.asked.len() as int].fresh
            + m.solver.replies[m.solver.asked.len() as int + 1].fresh <= u32::MAX,
    ensures
        ({
            let effect = run::branch(m, cx, v, target, info);
            let n = m.solver.asked.len() as int;
            let first = m.solver.replies[n].answer;
            let second = m.solver.replies[n + 1].answer;
            let sat = AnswerView::Sat(SmtResult::Sat);
            let unsat = AnswerView::Sat(SmtResult::Unsat);
            &&& first == sat && second == sat ==> effect.spawned.len() == 1
            &&& effect.spawned.len() > 0 ==> first == sat && second == sat
            &&& first == sat && second == unsat ==> effect.result is Ok
                && effect.machine.frame.pc == target
            &&& first == unsat && second == sat ==> effect.result is Ok
                && effect.machine.frame.pc == (m.frame.pc + 1) as usize
            &&& first == unsat && second == unsat ==> effect.result == Err::<run::Flow, ExecError>(
                ExecError::Dead,
            )
            &&& first == AnswerView::Sat(SmtResult::Unknown) ==> effect.result == Err::<
                run::Flow,
                ExecError,
            >(ExecError::Unknown)
            &&& (effect.machine.solver.asked[n].request matches RequestView::CheckSatWith(t)
                && semantics::denote(interp, t) == (interp.var)(v))
        }),
{
    let effect = run::branch(m, cx, v, target, info);
    let n = m.solver.asked.len() as int;
    assert(effect.machine.solver.asked[n].request == RequestView::CheckSatWith(Tree::Var(v)));
}

/// To find a value of a symbol that is possible on a path, its length is asked
/// for, then whether there is a model, with a symbol of that length that is
/// equal to it, and then the value in the model. Without a model no input
/// leads there.
pub proof fn law_possible_value(s: SolverView, v: Sym, info: SourceLoc, interp: Interp<Sym>)
    ensures
        ({
            let (after, r) = run::possible_value(s, v, info);
            let n = s.asked.len() as int;
            &&& after.asked.len() > n && after.asked[n].request == RequestView::Length(v)
            &&& r is Ok ==> {
                &&& after.asked.len() == n + 3
                &&& after.asked[n + 1].request == RequestView::CheckSat
                &&& after.asked[n + 2].request == RequestView::ModelValue(v)
                &&& s.replies[n + 1].answer == AnswerView::Sat(SmtResult::Sat)
                &&& (s.replies[n + 2].answer matches AnswerView::Model(Some(SymbolValue::Bits(b)))
                    && r == Ok::<Seq<bool>, ExecError>(b@))
            }
            &&& after.asked.len() == n + 2 && s.replies.len() > n + 1 && s.replies[n + 1].answer
                == AnswerView::Sat(SmtResult::Unsat) ==> r is Err
            &&& after.asked.len() == n + 3 ==> s.replies[n + 1].answer == AnswerView::Sat(
                SmtResult::Sat,
            )
            &&& after.asked.len() >= n + 2 ==> {
                let past = s.trace.len() + s.replies[n].events.len() as int;
                &&& after.trace.len() >= past + 2
                &&& (s.replies[n].answer matches AnswerView::Length(Some(len)) && (
                after.trace[past] matches EventView::Smt(
                    DefView::DeclareConst(sym, ty),
                    _,
                    _,
                ) && ty == smtlib::Ty::BitVec(len) && (after.trace[past + 1] matches EventView::Smt(
                    DefView::Assert(t),
                    _,
                    _,
                ) && (semantics::denote(interp, t) == Value::Bool(true) <==> (interp.var)(v) == (
                interp.var)(sym)))))
            }
        }),
{
    let (s1, r1) = s.ask(RequestView::Length(v), info);
    let n = s.asked.len() as int;
    assert(s1.asked[n].request == RequestView::Length(v));
    if let Ok(AnswerView::Length(Some(len))) = r1 {
        let (s2, r2) = s1.declare_const(smtlib::Ty::BitVec(len), info);
        if let Ok(sym) = r2 {
            let equal = super::solver::binary(
                crate::smt::tree::Op::Eq,
                super::solver::var(v),
                super::solver::var(sym),
            );
            let s3 = s2.assert_exp(equal);
            let (s4, _) = s3.ask_sat(RequestView::CheckSat, info);
            let (s5, _) = run::model_bits(s4, v, info);
            let past = s1.trace.len() as int;
            assert(s4.trace[past] == s3.trace[past] && s4.trace[past + 1] == s3.trace[past + 1]);
            assert(s5.trace[past] == s3.trace[past] && s5.trace[past + 1] == s3.trace[past + 1]);
            reveal_with_fuel(semantics::denote, 3);
            reveal_with_fuel(semantics::denote_all, 3);
            let vals = semantics::denote_all(
                interp,
                seq![super::solver::var(v), super::solver::var(sym)],
            );
            assert(vals[0] == (interp.var)(v) && vals[1] == (interp.var)(sym));
        }
    }
}

/// A path for which there is no value is dead.
pub proof fn law_no_possible_value(s: SolverView, v: Sym, info: SourceLoc, len: u32)
    requires
        s.asked.len() + 1 < s.replies.len(),
        s.replies[s.asked.len() as int].answer == AnswerView::Length(Some(len)),
        s.replies[s.asked.len() as int + 1].answer == AnswerView::Sat(SmtResult::Unsat),
        s.next + s.replies[s.asked.len() as int].fresh + 1
            + s.replies[s.asked.len() as int + 1].fresh <= u32::MAX,
    ensures
        run::possible_value(s, v, info).1 == Err::<Seq<bool>, ExecError>(ExecError::Dead),
{
}

/// The path that is split off on a value goes on from where the value was read:
/// nothing that was asked to find a value belongs to its past, and its
/// variables and registers are as they were.
pub proof fn law_split_off_past(
    m: Machine,
    sh: SharedState,
    cx: Context,
    id: Name,
    info: SourceLoc,
)
    requires
        run::monomorphize(m, sh, cx, id, info).spawned.len() > 0,
    ensures
        ({
            let read = state::read_id(m.world(), sh, id, seq![], info, false).0;
            let other = run::monomorphize(m, sh, cx, id, info).spawned[0];
            &&& other.checkpoint.trace == read.solver.trace
            &&& other.checkpoint.next == read.solver.next
            &&& other.frame.local == read.local
            &&& other.frame.pc == m.frame.pc
            &&& other.frame.instrs == m.frame.instrs
            &&& other.frame.stack_call == m.frame.stack_call
        }),
{
}

/// The path that is split off at a jump has the same variables, registers and
/// calls as the one that goes on.
pub proof fn law_split_off_at_jump(
    m: Machine,
    cx: Context,
    v: Sym,
    target: usize,
    info: SourceLoc,
)
    requires
        run::branch(m, cx, v, target, info).spawned.len() > 0,
    ensures
        ({
            let effect = run::branch(m, cx, v, target, info);
            let other = effect.spawned[0];
            &&& other.frame.local == m.frame.local
            &&& other.frame.memory == m.frame.memory
            &&& other.frame.stack_call == m.frame.stack_call
            &&& other.frame.stack_vars == m.frame.stack_vars
            &&& effect.machine.frame.local == m.frame.local
            &&& effect.machine.frame.memory == m.frame.memory
            &&& effect.machine.frame.stack_call == m.frame.stack_call
            &&& effect.machine.frame.stack_vars == m.frame.stack_vars
        }),
{
}

} // verus!
