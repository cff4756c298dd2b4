//! The initial state: what is taken up when the registers are reset.

use super::assign;
use super::error::ExecError;
use super::frame::Assumption;
use super::functions;
use super::instructions;
use super::ir::{FunctionAssumption, Loc, Place, Reset, SharedState, SourceLoc, UVal, Val, Vals, RESET_REGISTERS};
use super::laws;
use super::names::Name;
use super::prefix;
use super::replay;
use super::reset::{self, Machine, TaskStateView};
use super::resets;
use super::run::Context;
use super::solver::{AnswerView, DefView, EventView, RequestView, SmtResult, SolverView};
use super::special;
use super::state::{self, World};
use crate::bitvector::B64;
use crate::smt::semantics::{self, Interp, Value};
use crate::smt::smtlib::{self, Sym};
use crate::smt::tree::{Op, Tree};
use vstd::prelude::*;

verus! {

/// Whether two states hold the same, and get the same answers.
spec fn reads_alike(a: World, b: World) -> bool {
    &&& a.local.vars == b.local.vars
    &&& a.local.lets == b.local.lets
    &&& a.local.regs.values == b.local.regs.values
    &&& a.solver.asked.len() == b.solver.asked.len()
    &&& a.solver.replies == b.solver.replies
    &&& a.solver.next == b.solver.next
}

proof fn lemma_reads_alike(
    a: World,
    b: World,
    sh: SharedState,
    loc: Loc,
    accessor: Seq<super::solver::Accessor>,
    info: SourceLoc,
)
    requires
        reads_alike(a, b),
    ensures
        state::read_loc(a, sh, loc, accessor, info, false).1 == state::read_loc(
            b,
            sh,
            loc,
            accessor,
            info,
            false,
        ).1,
    decreases loc,
{
    if let Loc::Field(outer, field) = loc {
        lemma_reads_alike(
            a,
            b,
            sh,
            *outer,
            accessor.push(super::solver::Accessor::Field(field)),
            info,
        );
    }
}

/// A register that is reset holds the value that its initialiser gives in the
/// memory as it is, and the value is recorded as one that is assumed of the
/// register. If it counts as synchronised, only this register does so newly.
pub proof fn law_reset_register(
    m: Machine,
    sh: SharedState,
    loc: Loc,
    reset: Reset,
    synchronize: bool,
    info: SourceLoc,
    read_info: SourceLoc,
)
    requires
        laws::is_direct(loc),
        laws::is_unambiguous(m.frame.local, loc.base()),
    ensures
        ({
            let (after, r) = reset::reset_one(m, sh, loc, reset, synchronize, info);
            let n = m.solver.asked.len() as int;
            &&& n < after.solver.asked.len()
            &&& after.solver.asked[n].request == RequestView::Reset(reset, m.frame.memory)
            &&& r is Ok ==> (m.solver.replies[n].answer matches AnswerView::Val(v) && {
                &&& instructions::held(after, sh, loc, read_info) == Ok::<Val, ExecError>(v)
                &&& after.solver.trace.len() > 0
                &&& after.solver.trace.last() == EventView::AssumeReg(
                    loc.base(),
                    loc.written_path(),
                    v,
                )
                &&& synchronize ==> !after.frame.local.regs.unsynchronized.contains(loc.base())
            })
        }),
{
    let n = m.solver.asked.len() as int;
    replay::lemma_reset_one(m, sh, loc, reset, synchronize, info, seq![]);
    let (s, r) = m.solver.ask_val(RequestView::Reset(reset, m.frame.memory), info);
    assert(s.asked[n].request == RequestView::Reset(reset, m.frame.memory));
    if let Ok(v) = r {
        let asked = Machine { solver: s, ..m };
        let (w, ok) = assign::assigned(asked.world(), sh, loc, v, seq![], info);
        replay::lemma_assigned(asked.world(), sh, loc, v, seq![], info, seq![]);
        reveal(prefix::starts);
        if ok is Ok {
            laws::law_read_after_assign(
                asked.world(),
                sh,
                loc,
                v,
                seq![],
                info,
                seq![],
                read_info,
                false,
            );
            let after = reset::reset_one(m, sh, loc, reset, synchronize, info).0;
            lemma_reads_alike(w, after.world(), sh, loc, seq![], read_info);
        }
    }
}

/// A reset leaves what other names hold as it is.
pub proof fn law_reset_keeps_others(
    m: Machine,
    sh: SharedState,
    loc: Loc,
    reset: Reset,
    synchronize: bool,
    info: SourceLoc,
    id: Name,
)
    requires
        laws::is_direct(loc),
        id != loc.base(),
    ensures
        laws::same_at(
            m.frame.local,
            reset::reset_one(m, sh, loc, reset, synchronize, info).0.frame.local,
            id,
        ),
{
    let (s, r) = m.solver.ask_val(RequestView::Reset(reset, m.frame.memory), info);
    if let Ok(v) = r {
        let asked = Machine { solver: s, ..m };
        laws::law_assign_keeps_others(asked.world(), sh, loc, v, seq![], info, id);
    }
}

/// The registers of the program are reset first, without those that the task
/// resets in a way of its own, and count as synchronised; then those of the
/// task are.
pub proof fn law_program_then_task(m: Machine, sh: SharedState, ts: TaskStateView, info: SourceLoc)
    requires
        sh.reset_constraints@.len() == 0,
        sh.function_assumptions@.len() == 0,
    ensures
        ({
            let program = resets::without(sh.reset_registers@, ts.reset_registers);
            let (first, r) = reset::reset_each(m, sh, program, seq![], true, 0, info);
            let (second, last) = reset::reset_each(
                first,
                sh,
                ts.reset_registers,
                seq![],
                false,
                0,
                info,
            );
            let all = reset::reset_all(m, sh, ts, info);
            &&& r is Err ==> all == (first, r)
            &&& r is Ok ==> all.0 == second && (all.1 is Ok <==> last is Ok)
            &&& r is Ok && last is Err ==> all.1 == last
        }),
{
    reset::law_exceptions_are_left_out(
        m,
        sh,
        sh.reset_registers@,
        ts.reset_registers,
        true,
        0,
        info,
    );
    assert(sh.reset_registers@.skip(0) =~= sh.reset_registers@);
    let (m1, _) = reset::reset_each(
        m,
        sh,
        sh.reset_registers@,
        ts.reset_registers,
        true,
        0,
        info,
    );
    let (m2, _) = reset::reset_each(m1, sh, ts.reset_registers, seq![], false, 0, info);
    assert(m2.with_world(m2.world()) == m2);
}

/// Two lists of initialisers one after the other are the same as both
/// together.
pub proof fn law_resets_go_on(
    m: Machine,
    sh: SharedState,
    resets: Seq<(Loc, Reset)>,
    last: (Loc, Reset),
    synchronize: bool,
    i: int,
    info: SourceLoc,
)
    requires
        0 <= i <= resets.len(),
    ensures
        ({
            let (before, r) = reset::reset_each(m, sh, resets, seq![], synchronize, i, info);
            let all = resets.push(last);
            &&& r is Err ==> reset::reset_each(m, sh, all, seq![], synchronize, i, info) == (
                before,
                r,
            )
            &&& r is Ok ==> reset::reset_each(m, sh, all, seq![], synchronize, i, info)
                == reset::reset_one(before, sh, last.0, last.1, synchronize, info)
        }),
    decreases resets.len() - i,
{
    let all = resets.push(last);
    if i < resets.len() {
        let (m1, _) = reset::reset_one(m, sh, resets[i].0, resets[i].1, synchronize, info);
        law_resets_go_on(m1, sh, resets, last, synchronize, i + 1, info);
    } else {
        let (m1, r) = reset::reset_one(m, sh, last.0, last.1, synchronize, info);
        assert(all[i] == last);
        assert(reset::reset_each(m1, sh, all, seq![], synchronize, i + 1, info) == (
            m1,
            Ok::<(), ExecError>(()),
        ));
    }
}

/// After a call that resets the registers, all of them count as synchronised.
pub proof fn law_reset_call_synchronizes(
    m: Machine,
    sh: SharedState,
    ts: TaskStateView,
    id: Name,
    info: SourceLoc,
)
    requires
        reset::reset_all(m, sh, ts, info).0.frame.local.vars.dom().contains(id),
    ensures
        ({
            let (before, ok) = reset::reset_all(m, sh, ts, info);
            let (after, r) = special::reset_call(m, sh, ts, Loc::Id(id), info);
            &&& r is Ok <==> ok is Ok
            &&& r is Ok ==> {
                &&& after.frame.local.regs.unsynchronized == Set::<Name>::empty()
                &&& after.frame.local.regs.values == before.frame.local.regs.values
                &&& after.frame.local.vars[id] == UVal::Init(Val::Unit)
                &&& after.frame.pc == (before.frame.pc + 1) as usize
                &&& after.solver == before.solver
            }
        }),
{
}

/// Where a constraint names a place, what the place holds is put in, as the
/// solver expresses it.
pub proof fn law_place_is_looked_up(w: World, sh: SharedState, place: Place, info: SourceLoc)
    ensures
        ({
            let (after, r) = reset::resolve(w, sh, Tree::Var(place), info);
            r matches Ok(t) ==> {
                &&& place < sh.places@.len()
                &&& sh.places@[place as int] matches Some(loc) && {
                    let (read, held) = state::read_loc(w, sh, loc, seq![], info, false);
                    let n = read.solver.asked.len() as int;
                    &&& held matches Ok(v) && after.solver.asked.len() == n + 1
                        && after.solver.asked[n].request == RequestView::SmtValue(v)
                    &&& w.solver.replies[n].answer == AnswerView::Exp(t)
                }
            }
        }),
{
    if place < sh.places@.len() && sh.places@[place as int] is Some {
        let loc = sh.places@[place as int]->0;
        replay::lemma_read_loc(w, sh, loc, seq![], info, false, seq![]);
    }
}

/// Whether an expression is what a constraint is in some state.
pub open spec fn resolves_to(sh: SharedState, t: Tree<Place>, exp: Tree<Sym>, info: SourceLoc) -> bool {
    exists|w: World|
        (#[trigger] reset::resolve(w, sh, t, info)).1 == Ok::<Tree<Sym>, ExecError>(exp)
}

proof fn lemma_resolved_operands(
    w: World,
    sh: SharedState,
    kids: Seq<Tree<Place>>,
    j: int,
    done: Seq<Tree<Sym>>,
    info: SourceLoc,
)
    requires
        0 <= j <= kids.len(),
        done.len() == j,
        forall|k: int| 0 <= k < j ==> resolves_to(sh, kids[k], #[trigger] done[k], info),
    ensures
        reset::resolve_all(w, sh, kids, j, done, info).1 matches Ok(all) ==> {
            &&& all.len() == kids.len()
            &&& forall|k: int| 0 <= k < kids.len() ==> resolves_to(sh, kids[k], #[trigger] all[k], info)
        },
    decreases kids.len() - j,
{
    if j < kids.len() {
        let (w1, r) = reset::resolve(w, sh, kids[j], info);
        if let Ok(t) = r {
            assert(resolves_to(sh, kids[j], t, info));
            lemma_resolved_operands(w1, sh, kids, j + 1, done.push(t), info);
        }
    }
}

/// A constraint keeps its operators when places are put in, and each operand
/// stays in its position.
pub proof fn law_constraint_keeps_its_form(
    w: World,
    sh: SharedState,
    op: Op,
    kids: Seq<Tree<Place>>,
    info: SourceLoc,
)
    ensures
        reset::resolve(w, sh, Tree::Node(op, kids), info).1 matches Ok(t) ==> (t matches Tree::Node(
            same,
            operands,
        ) && {
            &&& same == op
            &&& operands.len() == kids.len()
            &&& forall|k: int|
                0 <= k < kids.len() ==> resolves_to(sh, kids[k], #[trigger] operands[k], info)
        }),
{
    lemma_resolved_operands(w, sh, kids, 0, seq![], info);
}

/// Whether a constraint has been recorded and asserted at a position of a
/// path.
pub open spec fn constrained_at(
    trace: Seq<EventView>,
    p: int,
    sh: SharedState,
    t: Tree<Place>,
    info: SourceLoc,
) -> bool {
    &&& 0 <= p && p + 1 < trace.len()
    &&& trace[p] == EventView::Assume(t)
    &&& trace[p + 1] matches EventView::Smt(DefView::Assert(exp), _, _) && resolves_to(
        sh,
        t,
        exp,
        info,
    )
}

/// Every constraint on the initial state is recorded and asserted.
pub proof fn law_constraints_are_asserted(
    w: World,
    sh: SharedState,
    constraints: Seq<smtlib::Exp<Place>>,
    i: int,
    info: SourceLoc,
    k: int,
)
    requires
        0 <= i <= k < constraints.len(),
        reset::assert_constraints(w, sh, constraints, i, info).1 is Ok,
    ensures
        exists|p: int|
            #[trigger] constrained_at(
                reset::assert_constraints(w, sh, constraints, i, info).0.solver.trace,
                p,
                sh,
                constraints[k].tree(),
                info,
            ),
    decreases k - i,
{
    let t = constraints[i].tree();
    let (w1, r) = reset::resolve(w, sh, t, info);
    if let Ok(exp) = r {
        let s = w1.solver.record(EventView::Assume(t)).assert_exp(exp);
        let next = World { solver: s, ..w1 };
        if i < k {
            law_constraints_are_asserted(next, sh, constraints, i + 1, info, k);
        } else {
            replay::lemma_assert_constraints(next, sh, constraints, i + 1, info, seq![]);
            reveal(prefix::starts);
            let end = reset::assert_constraints(next, sh, constraints, i + 1, info).0.solver.trace;
            let p = w1.solver.trace.len() as int;
            assert(resolves_to(sh, t, exp, info));
            assert(end[p] == s.trace[p] && end[p + 1] == s.trace[p + 1]);
            assert(constrained_at(end, p, sh, t, info));
        }
    }
}

/// The constraints on the initial state are checked once they are asserted:
/// the path goes on if they can be met, and is dead if they cannot.
pub proof fn law_constraints_are_checked(w: World, sh: SharedState, info: SourceLoc)
    requires
        sh.reset_constraints@.len() > 0,
    ensures
        ({
            let (asserted, ok) = reset::assert_constraints(w, sh, sh.reset_constraints@, 0, info);
            let (after, r) = reset::constrain(w, sh, info);
            let n = asserted.solver.asked.len() as int;
            &&& ok is Err ==> r == ok
            &&& ok is Ok ==> {
                &&& after.solver.asked.len() == n + 1
                &&& after.solver.asked[n].request == RequestView::CheckSat
                &&& after.local == asserted.local
                &&& r is Ok ==> w.solver.replies[n].answer == AnswerView::Sat(SmtResult::Sat)
                &&& n < w.solver.replies.len() && w.solver.replies[n].answer == AnswerView::Sat(
                    SmtResult::Sat,
                ) && asserted.solver.next + w.solver.replies[n].fresh <= u32::MAX ==> r is Ok
                &&& n < w.solver.replies.len() && w.solver.replies[n].answer == AnswerView::Sat(
                    SmtResult::Unsat,
                ) && asserted.solver.next + w.solver.replies[n].fresh <= u32::MAX ==> r == Err::<
                    (),
                    ExecError,
                >(ExecError::Dead)
            }
        }),
{
    replay::lemma_assert_constraints(w, sh, sh.reset_constraints@, 0, info, seq![]);
}

/// Without constraints nothing is asked.
pub proof fn law_no_constraints(w: World, sh: SharedState, info: SourceLoc)
    requires
        sh.reset_constraints@.len() == 0,
    ensures
        reset::constrain(w, sh, info) == (w, Ok::<(), ExecError>(())),
{
}

/// What a value means to the solver.
pub open spec fn meaning(interp: Interp<Sym>, v: Val) -> Value {
    match v {
        Val::Symbolic(sym) => (interp.var)(sym),
        Val::Bits(b) => Value::Bits(b@),
        Val::Bool(b) => Value::Bool(b),
        Val::Enum(m) => semantics::denote(interp, Tree::Node(Op::Enum(m), seq![])),
        _ => Value::Other(smtlib::Ty::Bool, 0),
    }
}

/// The value that is made of an expression means what the expression does.
pub proof fn law_value_of_expression(s: SolverView, t: Tree<Sym>, interp: Interp<Sym>)
    requires
        reset::value_of_exp(s, t).1 is Ok,
        laws::takes_path(interp, reset::value_of_exp(s, t).0.trace),
        t matches Tree::Node(Op::Bits64(b), _) ==> b.len() <= 64,
        t matches Tree::Node(Op::Enum(_), kids) ==> kids.len() == 0,
    ensures
        meaning(interp, reset::value_of_exp(s, t).1->Ok_0) == semantics::denote(interp, t),
{
    let (after, r) = reset::value_of_exp(s, t);
    match t {
        Tree::Var(_) => {},
        Tree::Node(Op::Bits64(b), _) => {
            B64::lemma_of(b);
        },
        Tree::Node(Op::Enum(m), kids) => {
            assert(kids =~= seq![]);
        },
        Tree::Node(Op::Bool(_), _) => {},
        _ => {
            assert(laws::agrees_with(interp, after.trace[s.trace.len() as int]));
        },
    }
}

/// Whether a value is what an expression of an assumption stands for.
pub open spec fn stands_for(sh: SharedState, t: Tree<Place>, v: Val, info: SourceLoc) -> bool {
    exists|exp: Tree<Sym>, s: SolverView|
        resolves_to(sh, t, exp, info) && (#[trigger] reset::value_of_exp(s, exp)).1 == Ok::<
            Val,
            ExecError,
        >(v)
}

proof fn lemma_resolved_args(
    w: World,
    sh: SharedState,
    args: Seq<Option<Tree<Place>>>,
    i: int,
    done: Seq<Option<Tree<Sym>>>,
    info: SourceLoc,
)
    requires
        0 <= i <= args.len(),
        done.len() == i,
        forall|k: int|
            0 <= k < i ==> match (args[k], #[trigger] done[k]) {
                (Some(t), Some(exp)) => resolves_to(sh, t, exp, info),
                (None, None) => true,
                _ => false,
            },
    ensures
        reset::resolve_args(w, sh, args, i, done, info).1 matches Ok(all) ==> {
            &&& all.len() == args.len()
            &&& forall|k: int|
                0 <= k < args.len() ==> match (args[k], #[trigger] all[k]) {
                    (Some(t), Some(exp)) => resolves_to(sh, t, exp, info),
                    (None, None) => true,
                    _ => false,
                }
        },
    decreases args.len() - i,
{
    if i < args.len() {
        match args[i] {
            None => lemma_resolved_args(w, sh, args, i + 1, done.push(None), info),
            Some(t) => {
                let (w1, r) = reset::resolve(w, sh, t, info);
                if let Ok(exp) = r {
                    assert(resolves_to(sh, t, exp, info));
                    lemma_resolved_args(w1, sh, args, i + 1, done.push(Some(exp)), info);
                }
            },
        }
    }
}

/// Whether a value is the one that an argument of an assumption stands for:
/// the unit value if none is given.
pub open spec fn argument(sh: SharedState, arg: Option<Tree<Place>>, v: Val, info: SourceLoc) -> bool {
    match arg {
        None => v == Val::Unit,
        Some(t) => stands_for(sh, t, v, info),
    }
}

proof fn lemma_argument_values(
    s: SolverView,
    sh: SharedState,
    args: Seq<Option<Tree<Place>>>,
    exps: Seq<Option<Tree<Sym>>>,
    i: int,
    done: Seq<Val>,
    info: SourceLoc,
)
    requires
        0 <= i <= args.len(),
        done.len() == i,
        exps.len() == args.len(),
        forall|k: int|
            0 <= k < args.len() ==> match (args[k], #[trigger] exps[k]) {
                (Some(t), Some(exp)) => resolves_to(sh, t, exp, info),
                (None, None) => true,
                _ => false,
            },
        forall|k: int| 0 <= k < i ==> argument(sh, args[k], #[trigger] done[k], info),
    ensures
        reset::arg_values(s, exps, i, done).1 matches Ok(all) ==> {
            &&& all.len() == args.len()
            &&& forall|k: int| 0 <= k < args.len() ==> argument(sh, args[k], #[trigger] all[k], info)
        },
    decreases args.len() - i,
{
    if i < args.len() {
        let exp = exps[i];
        match exp {
            None => lemma_argument_values(s, sh, args, exps, i + 1, done.push(Val::Unit), info),
            Some(exp) => {
                let (s1, r) = reset::value_of_exp(s, exp);
                if let Ok(v) = r {
                    assert(argument(sh, args[i], v, info));
                    lemma_argument_values(s1, sh, args, exps, i + 1, done.push(v), info);
                }
            },
        }
    }
}

/// The values of an assumption about a function are those that its arguments
/// and its result stand for, each argument in its position.
pub proof fn law_assumption_values(
    w: World,
    sh: SharedState,
    args: Seq<Option<Tree<Place>>>,
    result: Tree<Place>,
    info: SourceLoc,
)
    ensures
        reset::assumption_values(w, sh, args, result, info).1 matches Ok((vals, v)) ==> {
            &&& vals.len() == args.len()
            &&& forall|k: int| 0 <= k < args.len() ==> argument(sh, args[k], #[trigger] vals[k], info)
            &&& stands_for(sh, result, v, info)
        },
{
    lemma_resolved_args(w, sh, args, 0, seq![], info);
    let (w1, exps) = reset::resolve_args(w, sh, args, 0, seq![], info);
    let (w2, exp) = reset::resolve(w1, sh, result, info);
    if let Ok(exps) = exps {
        if let Ok(exp) = exp {
            assert(resolves_to(sh, result, exp, info));
            lemma_argument_values(w2.solver, sh, args, exps, 0, seq![], info);
            let (s, vals) = reset::arg_values(w2.solver, exps, 0, seq![]);
            if vals is Ok {
                let (s1, v) = reset::value_of_exp(s, exp);
                if let Ok(v) = v {
                    assert(stands_for(sh, result, v, info));
                }
            }
        }
    }
}

/// Whether an assumption has been taken up as it was given.
pub open spec fn taken_up(
    sh: SharedState,
    given: FunctionAssumption,
    a: Assumption,
    info: SourceLoc,
) -> bool {
    &&& a.function == given.function
    &&& a.args@.len() == given.args@.len()
    &&& forall|k: int|
        0 <= k < given.args@.len() ==> argument(
            sh,
            reset::arg_trees(given.args@)[k],
            #[trigger] a.args@[k],
            info,
        )
    &&& stands_for(sh, given.result.tree(), a.result, info)
}

/// All assumptions about functions are taken up in their order, behind those
/// that there are already.
pub proof fn law_assumptions_are_taken_up(
    m: Machine,
    sh: SharedState,
    assumptions: Seq<FunctionAssumption>,
    i: int,
    info: SourceLoc,
)
    requires
        0 <= i <= assumptions.len(),
        reset::assume_functions(m, sh, assumptions, i, info).1 is Ok,
    ensures
        ({
            let before = m.frame.function_assumptions;
            let after = reset::assume_functions(
                m,
                sh,
                assumptions,
                i,
                info,
            ).0.frame.function_assumptions;
            &&& after.len() == before.len() + assumptions.len() - i
            &&& forall|k: int| 0 <= k < before.len() ==> #[trigger] after[k] == before[k]
            &&& forall|k: int|
                i <= k < assumptions.len() ==> taken_up(
                    sh,
                    #[trigger] assumptions[k],
                    after[before.len() + k - i],
                    info,
                )
        }),
    decreases assumptions.len() - i,
{
    if i < assumptions.len() {
        let a = assumptions[i];
        let args = reset::arg_trees(a.args@);
        law_assumption_values(m.world(), sh, args, a.result.tree(), info);
        let (w, r) = reset::assumption_values(m.world(), sh, args, a.result.tree(), info);
        let m1 = m.with_world(w);
        if let Ok((vals, result)) = r {
            Vals::lemma_of(vals);
            let new = Assumption { function: a.function, args: Vals::of(vals), result };
            let m2 = Machine {
                frame: super::frame::FrameView {
                    function_assumptions: m1.frame.function_assumptions.push(new),
                    ..m1.frame
                },
                solver: m1.solver.record(
                    EventView::AssumeFun { name: a.function, args: vals, return_value: result },
                ),
            };
            assert(taken_up(sh, a, new, info));
            law_assumptions_are_taken_up(m2, sh, assumptions, i + 1, info);
            let after = reset::assume_functions(
                m2,
                sh,
                assumptions,
                i + 1,
                info,
            ).0.frame.function_assumptions;
            assert(after[m.frame.function_assumptions.len() as int] == new);
        }
    }
}

/// A single assumption that is taken up is recorded last, with the same
/// function, arguments and result.
pub proof fn law_assumption_is_recorded(
    m: Machine,
    sh: SharedState,
    assumptions: Seq<FunctionAssumption>,
    info: SourceLoc,
)
    requires
        assumptions.len() == 1,
        reset::assume_functions(m, sh, assumptions, 0, info).1 is Ok,
    ensures
        ({
            let after = reset::assume_functions(m, sh, assumptions, 0, info).0;
            let a = after.frame.function_assumptions.last();
            &&& after.solver.trace.len() > 0
            &&& after.solver.trace.last() == (EventView::AssumeFun {
                name: a.function,
                args: a.args@,
                return_value: a.result,
            })
        }),
{
    let a = assumptions[0];
    let args = reset::arg_trees(a.args@);
    let (w, r) = reset::assumption_values(m.world(), sh, args, a.result.tree(), info);
    if let Ok((vals, result)) = r {
        Vals::lemma_of(vals);
        reveal_with_fuel(reset::assume_functions, 2);
    }
}

/// A call of the function that resets the registers brings them into their
/// initial state, as the program and the task of the path have it, and goes
/// on.
pub proof fn law_reset_function(
    m: Machine,
    sh: SharedState,
    cx: Context,
    id: Name,
    args: Vec<super::ir::Exp>,
    info: SourceLoc,
)
    requires
        !sh.functions@.dom().contains(RESET_REGISTERS),
        reset::reset_all(m, sh, cx.task_state@, info).0.frame.local.vars.dom().contains(id),
    ensures
        ({
            let (before, ok) = reset::reset_all(m, sh, cx.task_state@, info);
            let effect = functions::call_of(m, sh, cx, Loc::Id(id), RESET_REGISTERS, args, info);
            &&& effect.result is Ok <==> ok is Ok
            &&& ok is Ok ==> {
                &&& effect.machine.frame.local.regs.values == before.frame.local.regs.values
                &&& effect.machine.frame.local.regs.unsynchronized == Set::<Name>::empty()
                &&& effect.machine.solver == before.solver
            }
            &&& ok matches Err(e) ==> (effect.result matches Err(f) && f == e)
        }),
{
    law_reset_call_synchronizes(m, sh, cx.task_state@, id, info);
}

} // verus!
