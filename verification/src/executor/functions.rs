//! What the functions are for that the executor provides itself.

use super::assign;
use super::choices;
use super::error::ExecError;
use super::eval;
use super::instructions;
use super::ir::{Exp, Instr, Loc, SharedState, SourceLoc, UVal, Val, Vals, ABSTRACT_CALL, ABSTRACT_PRIMOP, INSTR_ANNOUNCE, INTERNAL_VECTOR_INIT, INTERNAL_VECTOR_UPDATE, ITE_PHI, READ_REGISTER_FROM_VECTOR, REG_DEREF, WRITE_REGISTER_FROM_VECTOR};
use super::laws;
use super::names::Name;
use super::prefix;
use super::replay;
use super::reset::Machine;
use super::run::{self, Context, Effect};
use super::solver::{AnswerView, EventView, RequestView};
use super::special::{self, Choice};
use super::state::World;
use super::vector;
use crate::smt::smtlib::Sym;
use vstd::prelude::*;

verus! {

/// A call of a function that the program does not define.
pub open spec fn call_of(
    m: Machine,
    sh: SharedState,
    cx: Context,
    loc: Loc,
    f: Name,
    args: Vec<Exp>,
    info: SourceLoc,
) -> Effect {
    run::execute(m, sh, cx, Instr::Call(loc, false, f, args, info))
}

/// Whether a result has gone to its place, and the next instruction follows.
pub open spec fn delivers(
    m: Machine,
    sh: SharedState,
    effect: Effect,
    loc: Loc,
    v: Val,
    read_info: SourceLoc,
) -> bool {
    &&& instructions::moves_on(m, effect)
    &&& instructions::held(effect.machine, sh, loc, read_info) == Ok::<Val, ExecError>(v)
}

proof fn lemma_delivers(
    start: Machine,
    m: Machine,
    sh: SharedState,
    loc: Loc,
    v: Val,
    info: SourceLoc,
    read_info: SourceLoc,
)
    requires
        start.frame.pc == m.frame.pc,
        m.frame.pc < usize::MAX,
        laws::is_direct(loc),
        laws::is_unambiguous(m.frame.local, loc.base()),
        special::finish(m, sh, loc, v, info).1 is Ok,
    ensures
        ({
            let (end, r) = special::finish(m, sh, loc, v, info);
            delivers(start, sh, run::proceed(end, r), loc, v, read_info)
        }),
{
    laws::law_read_after_assign(m.world(), sh, loc, v, seq![], info, seq![], read_info, false);
    let (w, _) = assign::assigned(m.world(), sh, loc, v, seq![], info);
    assert(special::finish(m, sh, loc, v, info).0.world() == w);
}

/// A vector that is made has the length that is asked for, and none of its
/// elements has a value that could be used. A length below zero is an error.
pub proof fn law_vector_init(
    m: Machine,
    sh: SharedState,
    cx: Context,
    id: Name,
    args: Vec<Exp>,
    info: SourceLoc,
    read_info: SourceLoc,
    len: i64,
)
    requires
        m.frame.pc < usize::MAX,
        !sh.functions@.dom().contains(INTERNAL_VECTOR_INIT),
        args@.len() == 1,
        run::eval_in(m, sh, args@[0], info).1 == Ok::<Val, ExecError>(Val::I64(len)),
    ensures
        ({
            let before = run::eval_in(m, sh, args@[0], info).0;
            let vars = before.frame.local.vars;
            let effect = call_of(m, sh, cx, Loc::Id(id), INTERNAL_VECTOR_INIT, args, info);
            let waits = vars.dom().contains(id) && (vars[id] matches UVal::Uninit(ty) && (ty
                is Vector || ty is FixedVector));
            &&& effect.result is Ok <==> waits && len >= 0
            &&& effect.result is Ok ==> exists|vals: Vals| #[trigger]
                delivers(m, sh, effect, Loc::Id(id), Val::Vector(vals), read_info) && vals@.len()
                    == len && forall|i: int| 0 <= i < len ==> (#[trigger] vals@[i]) == Val::Poison
        }),
{
    let before = run::eval_in(m, sh, args@[0], info).0;
    if special::awaits_vector(before.frame.local.vars, Loc::Id(id)) && len >= 0 {
        let vals = Vals::of(special::poison(len as nat));
        Vals::lemma_of(special::poison(len as nat));
        lemma_delivers(m, before, sh, Loc::Id(id), Val::Vector(vals), info, read_info);
    }
}

/// To change an element of a vector is asked for with the vector, the position
/// and the element, in the order in which they are given.
pub proof fn law_vector_update(
    m: Machine,
    sh: SharedState,
    cx: Context,
    loc: Loc,
    args: Vec<Exp>,
    info: SourceLoc,
)
    requires
        !sh.functions@.dom().contains(INTERNAL_VECTOR_UPDATE),
        args@.len() == 3,
        run::eval_all_in(m, sh, args@, info).1 is Ok,
    ensures
        ({
            let (before, vals) = run::eval_all_in(m, sh, args@, info);
            let effect = call_of(m, sh, cx, loc, INTERNAL_VECTOR_UPDATE, args, info);
            let n = before.solver.asked.len() as int;
            &&& n < effect.machine.solver.asked.len()
            &&& effect.machine.solver.asked[n].request == RequestView::VectorUpdate(
                vals->Ok_0,
                before.frame,
            )
        }),
{
    let (before, vals) = run::eval_all_in(m, sh, args@, info);
    let request = RequestView::VectorUpdate(vals->Ok_0, before.frame);
    let (after, r) = special::ask_stepped(before, request, info);
    assert(after.solver.asked[before.solver.asked.len() as int].request == request);
    if let Ok(v) = r {
        replay::lemma_finish(after, sh, loc, v, info, seq![]);
        reveal(prefix::starts);
    }
}

/// A primitive operation that may change the frame changes the variables, the
/// registers and the memory as its answer says, and nothing else of it.
pub proof fn law_stepped_frame(m: Machine, request: RequestView, info: SourceLoc)
    ensures
        ({
            let (after, r) = special::ask_stepped(m, request, info);
            let n = m.solver.asked.len() as int;
            &&& after.solver.asked.last().request == request
            &&& r matches Ok(v) ==> n < m.solver.replies.len() && (m.solver.replies[n].answer
                matches AnswerView::Stepped(u, frame) && {
                &&& u == v
                &&& after.frame.local == frame.local && after.frame.memory == frame.memory
                &&& laws::same_calls(m.frame, after.frame)
                &&& after.frame.pc == m.frame.pc && after.frame.forks == m.frame.forks
                &&& after.frame.instrs == m.frame.instrs
                &&& after.frame.pc_visits == m.frame.pc_visits
            })
            &&& r is Err ==> after.frame == m.frame
        }),
{
}

/// To read a register by an index takes the index first and the registers
/// second, and gives what is read by this index from these registers.
pub proof fn law_read_register_call(
    m: Machine,
    sh: SharedState,
    cx: Context,
    loc: Loc,
    args: Vec<Exp>,
    info: SourceLoc,
    read_info: SourceLoc,
)
    requires
        m.frame.pc < usize::MAX,
        !sh.functions@.dom().contains(READ_REGISTER_FROM_VECTOR),
        args@.len() == 2,
        run::eval_all_in(m, sh, args@, info).1 is Ok,
        laws::is_direct(loc),
    ensures
        ({
            let (before, vals) = run::eval_all_in(m, sh, args@, info);
            let (w, read) = vector::read_indexed(
                before.world(),
                vals->Ok_0[0],
                vals->Ok_0[1],
                info,
            );
            let effect = call_of(m, sh, cx, loc, READ_REGISTER_FROM_VECTOR, args, info);
            &&& effect.result is Ok ==> read is Ok
            &&& effect.result is Ok && laws::is_unambiguous(w.local, loc.base()) ==> delivers(
                m,
                sh,
                effect,
                loc,
                read->Ok_0,
                read_info,
            )
        }),
{
    let (before, vals) = run::eval_all_in(m, sh, args@, info);
    let (w, read) = vector::read_indexed(before.world(), vals->Ok_0[0], vals->Ok_0[1], info);
    let after = before.with_world(w);
    if let Ok(v) = read {
        if special::finish(after, sh, loc, v, info).1 is Ok && laws::is_unambiguous(
            w.local,
            loc.base(),
        ) {
            lemma_delivers(m, after, sh, loc, v, info, read_info);
        }
    }
}

/// To write to a register by an index takes the index first, then the value,
/// then the registers; and the registers are afterwards as such a write leaves
/// them. The call itself has no result.
pub proof fn law_write_register_call(
    m: Machine,
    sh: SharedState,
    cx: Context,
    id: Name,
    args: Vec<Exp>,
    info: SourceLoc,
    read_info: SourceLoc,
)
    requires
        m.frame.pc < usize::MAX,
        !sh.functions@.dom().contains(WRITE_REGISTER_FROM_VECTOR),
        args@.len() == 3,
        run::eval_all_in(m, sh, args@, info).1 is Ok,
    ensures
        ({
            let (before, vals) = run::eval_all_in(m, sh, args@, info);
            let (w, wrote) = vector::write_indexed(
                before.world(),
                vals->Ok_0[0],
                vals->Ok_0[1],
                vals->Ok_0[2],
                info,
            );
            let effect = call_of(m, sh, cx, Loc::Id(id), WRITE_REGISTER_FROM_VECTOR, args, info);
            &&& effect.result is Ok <==> wrote is Ok
            &&& effect.result is Ok ==> {
                &&& laws::is_unambiguous(w.local, id) ==> delivers(
                    m,
                    sh,
                    effect,
                    Loc::Id(id),
                    Val::Unit,
                    read_info,
                )
                &&& forall|other: Name|
                    other != id ==> #[trigger] laws::same_at(
                        w.local,
                        effect.machine.frame.local,
                        other,
                    )
            }
        }),
{
    let (before, vals) = run::eval_all_in(m, sh, args@, info);
    let (w, wrote) = vector::write_indexed(
        before.world(),
        vals->Ok_0[0],
        vals->Ok_0[1],
        vals->Ok_0[2],
        info,
    );
    let after = before.with_world(w);
    if wrote is Ok {
        if laws::is_unambiguous(w.local, id) {
            lemma_delivers(m, after, sh, Loc::Id(id), Val::Unit, info, read_info);
        }
    }
}

/// To read through a reference gives what the register holds that is referred
/// to, and records that this register was read.
pub proof fn law_reg_deref(
    m: Machine,
    sh: SharedState,
    cx: Context,
    id: Name,
    args: Vec<Exp>,
    info: SourceLoc,
    read_info: SourceLoc,
    reg: Name,
    v: Val,
)
    requires
        m.frame.pc < usize::MAX,
        !sh.functions@.dom().contains(REG_DEREF),
        args@.len() == 1,
        run::eval_in(m, sh, args@[0], info).1 == Ok::<Val, ExecError>(Val::Ref(reg)),
        ({
            let local = run::eval_in(m, sh, args@[0], info).0.frame.local;
            &&& local.regs.values.dom().contains(reg)
            &&& local.regs.values[reg] == UVal::Init(v)
            &&& laws::is_unambiguous(local, id)
        }),
    ensures
        ({
            let before = run::eval_in(m, sh, args@[0], info).0;
            let effect = call_of(m, sh, cx, Loc::Id(id), REG_DEREF, args, info);
            let n = before.solver.trace.len() as int;
            &&& delivers(m, sh, effect, Loc::Id(id), v, read_info)
            &&& n < effect.machine.solver.trace.len()
            &&& effect.machine.solver.trace[n] == EventView::ReadReg(reg, seq![], v)
        }),
{
    let before = run::eval_in(m, sh, args@[0], info).0;
    let (regs, s, r) = before.frame.local.regs.get(reg, before.solver, info);
    assert(regs == before.frame.local.regs);
    let after = Machine {
        solver: before.solver.record(EventView::ReadReg(reg, seq![], v)),
        ..before
    };
    lemma_delivers(m, after, sh, Loc::Id(id), v, info, read_info);
    replay::lemma_finish(after, sh, Loc::Id(id), v, info, seq![]);
    reveal(prefix::starts);
}

/// A call that is made abstract gives any value of the type that the function
/// returns, the function being the one that the last argument refers to. It is
/// recorded with the other arguments and that value.
pub proof fn law_abstract_call(
    m: Machine,
    sh: SharedState,
    cx: Context,
    id: Name,
    primitive: bool,
    args: Vec<Exp>,
    info: SourceLoc,
    read_info: SourceLoc,
    f: Name,
)
    requires
        m.frame.pc < usize::MAX,
        !sh.functions@.dom().contains(ABSTRACT_CALL),
        !sh.functions@.dom().contains(ABSTRACT_PRIMOP),
        args@.len() > 0,
        run::eval_all_in(m, sh, args@, info).1 is Ok,
        run::eval_all_in(m, sh, args@, info).1->Ok_0.last() == Val::Ref(f),
        laws::is_unambiguous(run::eval_all_in(m, sh, args@, info).0.frame.local, id),
    ensures
        ({
            let (before, vals) = run::eval_all_in(m, sh, args@, info);
            let name = if primitive {
                ABSTRACT_PRIMOP
            } else {
                ABSTRACT_CALL
            };
            let effect = call_of(m, sh, cx, Loc::Id(id), name, args, info);
            let n = before.solver.asked.len() as int;
            let ty = if primitive {
                sh.externs@[f]
            } else {
                sh.functions@[f].ret_ty
            };
            let exists_already = if primitive {
                sh.externs@.dom().contains(f)
            } else {
                sh.functions@.dom().contains(f)
            };
            &&& exists_already <==> effect.machine.solver.asked.len() > n
            &&& exists_already ==> effect.machine.solver.asked[n].request == RequestView::Symbolic(
                ty,
            )
            &&& effect.result is Ok ==> {
                &&& exists_already
                &&& before.solver.replies[n].answer matches AnswerView::Val(v) && {
                    &&& delivers(m, sh, effect, Loc::Id(id), v, read_info)
                    &&& effect.machine.solver.trace.contains(
                        EventView::Abstract {
                            name: f,
                            primitive,
                            args: vals->Ok_0.drop_last(),
                            return_value: v,
                        },
                    )
                }
            }
        }),
{
    let (before, vals) = run::eval_all_in(m, sh, args@, info);
    let n = before.solver.asked.len() as int;
    if let Some(ty) = special::abstract_result(sh, f, primitive) {
        let (s, r) = before.solver.ask_val(RequestView::Symbolic(ty), info);
        assert(s.asked[n].request == RequestView::Symbolic(ty));
        if let Ok(v) = r {
            let event = EventView::Abstract {
                name: f,
                primitive,
                args: vals->Ok_0.drop_last(),
                return_value: v,
            };
            let after = Machine { solver: s.record(event), ..before };
            lemma_delivers(m, after, sh, Loc::Id(id), v, info, read_info);
            replay::lemma_finish(after, sh, Loc::Id(id), v, info, seq![]);
            let end = special::finish(after, sh, Loc::Id(id), v, info).0.solver;
            reveal(prefix::starts);
            assert(end.trace[s.trace.len() as int] == event);
            assert(end.asked[n] == s.asked[n]);
        }
    }
}

/// A constructor that is applied gives a value with that constructor, which
/// holds what the constructor was applied to.
pub proof fn law_construct(
    m: Machine,
    sh: SharedState,
    cx: Context,
    id: Name,
    ctor: Name,
    args: Vec<Exp>,
    info: SourceLoc,
    read_info: SourceLoc,
)
    requires
        m.frame.pc < usize::MAX,
        !sh.functions@.dom().contains(ctor),
        sh.union_ctors@.contains(ctor),
        ctor > INSTR_ANNOUNCE,
        args@.len() == 1,
        run::eval_in(m, sh, args@[0], info).1 is Ok,
        laws::is_unambiguous(run::eval_in(m, sh, args@[0], info).0.frame.local, id),
    ensures
        ({
            let v = run::eval_in(m, sh, args@[0], info).1->Ok_0;
            let effect = call_of(m, sh, cx, Loc::Id(id), ctor, args, info);
            &&& delivers(m, sh, effect, Loc::Id(id), Val::Ctor(ctor, Box::new(v)), read_info)
            &&& eval::unwrapped(ctor, Val::Ctor(ctor, Box::new(v)), info) == Ok::<Val, ExecError>(v)
        }),
{
    let (before, v) = run::eval_in(m, sh, args@[0], info);
    lemma_delivers(
        m,
        before,
        sh,
        Loc::Id(id),
        Val::Ctor(ctor, Box::new(v->Ok_0)),
        info,
        read_info,
    );
}

/// A function that neither the program defines nor the executor provides, and
/// that is not a constructor, cannot be called.
pub proof fn law_unknown_function(
    m: Machine,
    sh: SharedState,
    cx: Context,
    loc: Loc,
    f: Name,
    args: Vec<Exp>,
    info: SourceLoc,
)
    requires
        !sh.functions@.dom().contains(f),
        !sh.union_ctors@.contains(f),
        f > INSTR_ANNOUNCE || f < INTERNAL_VECTOR_INIT,
    ensures
        ({
            let effect = call_of(m, sh, cx, loc, f, args, info);
            &&& effect.machine == m
            &&& effect.result matches Err(ExecError::NoFunction(g, at)) && g == f && at == info
        }),
{
}

/// How often an address stands in a list.
pub open spec fn times(visits: Seq<Seq<bool>>, pc: Seq<bool>) -> nat {
    visits.filter(|p: Seq<bool>| p == pc).len()
}

/// How often an address has been reached is how often it stands in the list of
/// those that have been.
pub proof fn law_visits_are_counted(visits: Seq<Seq<bool>>, pc: Seq<bool>)
    ensures
        special::visits_of(visits, pc) == times(visits, pc),
    decreases visits.len(),
{
    reveal(Seq::filter);
    if visits.len() > 0 {
        law_visits_are_counted(visits.drop_last(), pc);
    }
}

/// The start of an instruction of the machine is recorded with its opcode, and
/// counted for the address that the given register holds. The path is ended
/// exactly if that address has been reached more often than is allowed, this
/// time included.
pub proof fn law_announce(
    m: Machine,
    sh: SharedState,
    cx: Context,
    id: Name,
    args: Vec<Exp>,
    info: SourceLoc,
    arch_pc: Name,
    limit: usize,
    pc: crate::bitvector::B64,
)
    requires
        m.frame.pc < usize::MAX,
        !sh.functions@.dom().contains(INSTR_ANNOUNCE),
        args@.len() == 1,
        run::eval_in(m, sh, args@[0], info).1 is Ok,
        cx.task_state@.pc_limit == Some((arch_pc, limit)),
        ({
            let regs = run::eval_in(m, sh, args@[0], info).0.frame.local.regs.values;
            regs.dom().contains(arch_pc) && regs[arch_pc] == UVal::Init(Val::Bits(pc))
        }),
    ensures
        ({
            let (before, opcode) = run::eval_in(m, sh, args@[0], info);
            let effect = call_of(m, sh, cx, Loc::Id(id), INSTR_ANNOUNCE, args, info);
            let visits = before.frame.pc_visits.push(pc@);
            &&& effect.machine.frame.pc_visits == visits
            &&& effect.result is Ok <==> times(visits, pc@) <= limit
            &&& times(visits, pc@) > limit ==> (effect.result matches Err(ExecError::PCLimitReached(_)))
            &&& effect.result is Ok ==> {
                &&& instructions::moves_on(m, effect)
                &&& before.solver.trace.len() < effect.machine.solver.trace.len()
                &&& effect.machine.solver.trace[before.solver.trace.len() as int]
                    == EventView::Instr(opcode->Ok_0)
            }
        }),
{
    let (before, opcode) = run::eval_in(m, sh, args@[0], info);
    let visits = before.frame.pc_visits.push(pc@);
    law_visits_are_counted(visits, pc@);
    let (regs, s, r) = before.frame.local.regs.get(arch_pc, before.solver, info);
    assert(regs == before.frame.local.regs);
    let (counted, ok) = special::count_visit(before, Some((arch_pc, limit)), info);
    if ok is Ok {
        let after = Machine {
            solver: counted.solver.record(EventView::Instr(opcode->Ok_0)),
            ..counted
        };
        replay::lemma_finish(after, sh, Loc::Id(id), Val::Unit, info, seq![]);
        reveal(prefix::starts);
    }
}

/// Without a limit, the start of an instruction is recorded and counts for
/// nothing.
pub proof fn law_announce_without_limit(
    m: Machine,
    sh: SharedState,
    cx: Context,
    id: Name,
    args: Vec<Exp>,
    info: SourceLoc,
)
    requires
        m.frame.pc < usize::MAX,
        !sh.functions@.dom().contains(INSTR_ANNOUNCE),
        args@.len() == 1,
        run::eval_in(m, sh, args@[0], info).1 is Ok,
        cx.task_state@.pc_limit is None,
    ensures
        ({
            let (before, opcode) = run::eval_in(m, sh, args@[0], info);
            let effect = call_of(m, sh, cx, Loc::Id(id), INSTR_ANNOUNCE, args, info);
            &&& instructions::moves_on(m, effect)
            &&& effect.machine.frame.pc_visits == m.frame.pc_visits
            &&& before.solver.trace.len() < effect.machine.solver.trace.len()
            &&& effect.machine.solver.trace[before.solver.trace.len() as int] == EventView::Instr(
                opcode->Ok_0,
            )
        }),
{
    let (before, opcode) = run::eval_in(m, sh, args@[0], info);
    let after = Machine { solver: before.solver.record(EventView::Instr(opcode->Ok_0)), ..before };
    replay::lemma_finish(after, sh, Loc::Id(id), Val::Unit, info, seq![]);
    reveal(prefix::starts);
}

/// The pairs of a condition and a value among arguments, of which all values
/// are known.
pub open spec fn all_steady(w: World, sh: SharedState, args: Seq<Exp>, info: SourceLoc) -> bool {
    &&& args.len() % 2 == 0
    &&& forall|i: int| 0 <= i < args.len() ==> choices::steady(w, sh, #[trigger] args[i], info)
    &&& forall|i: int|
        0 <= i < args.len() && i % 2 == 0 ==> {
            let c = choices::value_of(w, sh, #[trigger] args[i], info);
            c is Bool || c is Symbolic
        }
}

/// Whether the condition of a pair is true.
pub open spec fn is_taken(w: World, sh: SharedState, args: Seq<Exp>, i: int, info: SourceLoc) -> bool {
    choices::value_of(w, sh, args[2 * i], info) == Val::Bool(true)
}

/// The choices that are left open from pair `i` on: those whose condition is
/// symbolic, each with the value of the same pair.
pub open spec fn left_open(w: World, sh: SharedState, args: Seq<Exp>, i: int, info: SourceLoc) -> Seq<
    (Sym, Val),
>
    decreases args.len() - 2 * i,
{
    if 0 <= i && 2 * i + 1 < args.len() {
        let rest = left_open(w, sh, args, i + 1, info);
        match choices::value_of(w, sh, args[2 * i], info) {
            Val::Symbolic(sym) => seq![(sym, choices::value_of(w, sh, args[2 * i + 1], info))]
                + rest,
            _ => rest,
        }
    } else {
        seq![]
    }
}

proof fn lemma_choose_pairs(
    w: World,
    sh: SharedState,
    args: Seq<Exp>,
    i: int,
    chosen: Option<Val>,
    open: Seq<Choice>,
    info: SourceLoc,
)
    requires
        all_steady(w, sh, args, info),
        0 <= i <= args.len() / 2,
        args.len() <= usize::MAX,
        forall|k: int|
            0 <= k < open.len() ==> (#[trigger] open[k]).arg < args.len(),
    ensures
        ({
            let (after, r) = special::choose_pairs(w, sh, args, i, chosen, open, info);
            &&& after == w
            &&& r is Ok
            &&& r matches Ok((picked, all)) ==> {
                &&& (forall|k: int|
                    i <= k < args.len() / 2 ==> !#[trigger] is_taken(w, sh, args, k, info))
                    ==> picked == chosen
                &&& forall|k: int|
                    i <= k < args.len() / 2 && #[trigger] is_taken(w, sh, args, k, info) && (
                    forall|l: int|
                        k < l < args.len() / 2 ==> !#[trigger] is_taken(w, sh, args, l, info))
                        ==> picked == Some(choices::value_of(w, sh, args[2 * k + 1], info))
                &&& forall|k: int| 0 <= k < all.len() ==> (#[trigger] all[k]).arg < args.len()
                &&& pairs_of(w, sh, args, all, info) == pairs_of(w, sh, args, open, info)
                    + left_open(w, sh, args, i, info)
            }
        }),
    decreases args.len() - 2 * i,
{
    if 2 * i + 1 < args.len() {
        assert(choices::steady(w, sh, args[2 * i], info));
        assert(choices::steady(w, sh, args[2 * i + 1], info));
        let c = choices::value_of(w, sh, args[2 * i], info);
        let v = choices::value_of(w, sh, args[2 * i + 1], info);
        match c {
            Val::Bool(b) => if b {
                assert(is_taken(w, sh, args, i, info));
                lemma_choose_pairs(w, sh, args, i + 1, Some(v), open, info);
            } else {
                lemma_choose_pairs(w, sh, args, i + 1, chosen, open, info);
            },
            Val::Symbolic(sym) => {
                let choice = Choice { sym, arg: (2 * i + 1) as usize };
                let more = open.push(choice);
                lemma_choose_pairs(w, sh, args, i + 1, chosen, more, info);
                assert(pairs_of(w, sh, args, more, info) =~= pairs_of(w, sh, args, open, info).push(
                    (sym, v),
                ));
                let rest = left_open(w, sh, args, i + 1, info);
                assert(pairs_of(w, sh, args, open, info).push((sym, v)) + rest =~= pairs_of(
                    w,
                    sh,
                    args,
                    open,
                    info,
                ) + (seq![(sym, v)] + rest));
            },
            _ => {},
        }
    } else {
        assert(pairs_of(w, sh, args, open, info) + left_open(w, sh, args, i, info) =~= pairs_of(
            w,
            sh,
            args,
            open,
            info,
        ));
    }
}

/// The symbols and values of choices.
pub open spec fn pairs_of(
    w: World,
    sh: SharedState,
    args: Seq<Exp>,
    open: Seq<Choice>,
    info: SourceLoc,
) -> Seq<(Sym, Val)> {
    Seq::new(
        open.len(),
        |k: int| (open[k].sym, choices::value_of(w, sh, args[open[k].arg as int], info)),
    )
}

proof fn lemma_open_values(
    w: World,
    sh: SharedState,
    args: Seq<Exp>,
    open: Seq<Choice>,
    i: int,
    done: Seq<(Sym, Val)>,
    info: SourceLoc,
)
    requires
        all_steady(w, sh, args, info),
        0 <= i <= open.len(),
        forall|k: int| 0 <= k < open.len() ==> (#[trigger] open[k]).arg < args.len(),
        done == pairs_of(w, sh, args, open, info).take(i),
    ensures
        special::open_values(w, sh, args, open, i, done, info) == (
            w,
            Ok::<Seq<(Sym, Val)>, ExecError>(pairs_of(w, sh, args, open, info)),
        ),
    decreases open.len() - i,
{
    let all = pairs_of(w, sh, args, open, info);
    if i < open.len() {
        assert(open[i].arg < args.len());
        assert(choices::steady(w, sh, args[open[i].arg as int], info));
        assert(all.take(i + 1) =~= done.push(all[i]));
        lemma_open_values(w, sh, args, open, i + 1, done.push(all[i]), info);
    } else {
        assert(all.take(i) =~= all);
    }
}

/// A choice by conditions gives the value whose condition is true, the last of
/// them if there are several. If none is known to be true, the value is asked
/// for with all pairs whose condition is symbolic, each condition together with
/// its own value and in the order in which they are given.
pub proof fn law_phi_chooses(
    m: Machine,
    sh: SharedState,
    cx: Context,
    id: Name,
    args: Vec<Exp>,
    info: SourceLoc,
    read_info: SourceLoc,
    k: int,
)
    requires
        m.frame.pc < usize::MAX,
        !sh.functions@.dom().contains(ITE_PHI),
        all_steady(m.world(), sh, args@, info),
        args@.len() <= usize::MAX,
        laws::is_unambiguous(m.frame.local, id),
    ensures
        ({
            let w = m.world();
            let effect = call_of(m, sh, cx, Loc::Id(id), ITE_PHI, args, info);
            let open = left_open(w, sh, args@, 0, info);
            let n = m.solver.asked.len() as int;
            &&& 0 <= k < args@.len() / 2 && is_taken(w, sh, args@, k, info) && (forall|l: int|
                k < l < args@.len() / 2 ==> !#[trigger] is_taken(w, sh, args@, l, info)) ==> delivers(
                m,
                sh,
                effect,
                Loc::Id(id),
                choices::value_of(w, sh, args@[2 * k + 1], info),
                read_info,
            )
            &&& (forall|l: int|
                0 <= l < args@.len() / 2 ==> !#[trigger] is_taken(w, sh, args@, l, info)) ==> {
                &&& open.len() == 0 ==> effect.result is Err
                &&& open.len() > 0 ==> n < effect.machine.solver.asked.len()
                    && effect.machine.solver.asked[n].request == RequestView::ItePhi(open)
                &&& effect.result is Ok ==> (m.solver.replies[n].answer matches AnswerView::Val(v)
                    && delivers(m, sh, effect, Loc::Id(id), v, read_info))
            }
        }),
{
    let w = m.world();
    let none: Seq<Choice> = seq![];
    lemma_choose_pairs(w, sh, args@, 0, None, none, info);
    let (after, r) = special::choose_pairs(w, sh, args@, 0, None, none, info);
    let (picked, all) = r->Ok_0;
    assert(m.with_world(w) == m);
    assert(pairs_of(w, sh, args@, none, info) + left_open(w, sh, args@, 0, info) =~= left_open(
        w,
        sh,
        args@,
        0,
        info,
    ));
    if 0 <= k < args@.len() / 2 && is_taken(w, sh, args@, k, info) && (forall|l: int|
        k < l < args@.len() / 2 ==> !#[trigger] is_taken(w, sh, args@, l, info)) {
        lemma_delivers(
            m,
            m,
            sh,
            Loc::Id(id),
            choices::value_of(w, sh, args@[2 * k + 1], info),
            info,
            read_info,
        );
    }
    if forall|l: int| 0 <= l < args@.len() / 2 ==> !#[trigger] is_taken(w, sh, args@, l, info) {
        let open = pairs_of(w, sh, args@, all, info);
        assert(open.take(0) =~= seq![]);
        lemma_open_values(w, sh, args@, all, 0, seq![], info);
        if open.len() > 0 {
            let n = m.solver.asked.len() as int;
            let (s, r) = m.solver.ask_val(RequestView::ItePhi(open), info);
            assert(s.asked[n].request == RequestView::ItePhi(open));
            if let Ok(v) = r {
                let asked = Machine { solver: s, ..m };
                lemma_delivers(m, asked, sh, Loc::Id(id), v, info, read_info);
                replay::lemma_finish(asked, sh, Loc::Id(id), v, info, seq![]);
                reveal(prefix::starts);
            }
        }
    }
}

} // verus!
