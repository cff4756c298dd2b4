//! What replies change about a path.
//!
//! A path only ever grows: what has happened on it and what has been asked on
//! it stay. A path that ends without a missing reply is the same however many
//! more replies there are, so that it can be executed again from its start
//! each time that another reply is known. And a path that does not end for
//! want of a reply has asked for it.

use super::assign;
use super::call;
use super::error::ExecError;
use super::eval;
use super::explore;
use super::frame::{Assumption, FrameView};
use super::ir::{Exp, Fields, Function, FunctionAssumption, Instr, Loc, Op, Place, Primop, Reset, SharedState, SourceLoc, UVal, Val, Vals, RETURN};
use super::names::Name;
use super::prefix;
use super::reset::{self, Machine, TaskStateView};
use super::run::{self, Context, Effect, Flow, Progress};
use super::solver::{self, Accessor, AnswerView, DefAttrs, EventView, ReplyView, RequestView, SolverView};
use super::special::{self, Choice};
use super::state::{self, LocalView, RegistersView, World};
use super::task::TaskView;
use super::vector::{self, Index, IndexErrors};
use crate::bitvector::B64;
use crate::smt::literal;
use crate::smt::smtlib::{self, Sym};
use crate::smt::tree::{self, Tree};
use vstd::prelude::*;

verus! {

broadcast use super::prefix::group_prefix;

/// Whether a path goes on from one state to another: nothing that has
/// happened or that has been asked is lost, and symbols are not used twice.
pub open spec fn grows(a: SolverView, b: SolverView) -> bool {
    &&& prefix::starts(a.trace, b.trace)
    &&& prefix::starts(a.asked, b.asked)
    &&& a.next <= b.next
    &&& a.replies == b.replies
}

/// The state with more replies to come.
pub open spec fn given(s: SolverView, more: Seq<ReplyView>) -> SolverView {
    SolverView { replies: s.replies + more, ..s }
}

pub open spec fn world_given(w: World, more: Seq<ReplyView>) -> World {
    World { solver: given(w.solver, more), ..w }
}

pub open spec fn machine_given(m: Machine, more: Seq<ReplyView>) -> Machine {
    Machine { solver: given(m.solver, more), ..m }
}

/// Whether a result says that a reply is missing.
pub open spec fn pending<T>(r: Result<T, ExecError>) -> bool {
    r matches Err(ExecError::Pending)
}

/// Whether no reply claims that a reply is missing.
pub open spec fn decided(replies: Seq<ReplyView>) -> bool {
    forall|i: int|
        0 <= i < replies.len() ==> (#[trigger] replies[i]).answer != AnswerView::Error(
            ExecError::Pending,
        )
}

/// Whether a request has been made that has no reply.
pub open spec fn waits(s: SolverView) -> bool {
    s.asked.len() > s.replies.len()
}

/// Whether a step of a path grows it, is the same with more replies unless a
/// reply is missing, and waits for one only if it has asked for it.
pub open spec fn replays<T>(
    s: SolverView,
    out: (SolverView, Result<T, ExecError>),
    again: (SolverView, Result<T, ExecError>),
    more: Seq<ReplyView>,
) -> bool {
    &&& grows(s, out.0)
    &&& !pending(out.1) ==> again == (given(out.0, more), out.1)
    &&& pending(out.1) && decided(s.replies) ==> waits(out.0)
}

pub open spec fn world_replays<T>(
    w: World,
    out: (World, Result<T, ExecError>),
    again: (World, Result<T, ExecError>),
    more: Seq<ReplyView>,
) -> bool {
    &&& grows(w.solver, out.0.solver)
    &&& !pending(out.1) ==> again == (world_given(out.0, more), out.1)
    &&& pending(out.1) && decided(w.solver.replies) ==> waits(out.0.solver)
}

pub open spec fn machine_replays<T>(
    m: Machine,
    out: (Machine, Result<T, ExecError>),
    again: (Machine, Result<T, ExecError>),
    more: Seq<ReplyView>,
) -> bool {
    &&& grows(m.solver, out.0.solver)
    &&& !pending(out.1) ==> again == (machine_given(out.0, more), out.1)
    &&& pending(out.1) && decided(m.solver.replies) ==> waits(out.0.solver)
}

pub open spec fn effect_replays(
    m: Machine,
    out: Effect,
    again: Effect,
    more: Seq<ReplyView>,
) -> bool {
    &&& grows(m.solver, out.machine.solver)
    &&& !pending(out.result) ==> again == (Effect {
        machine: machine_given(out.machine, more),
        ..out
    })
    &&& pending(out.result) && decided(m.solver.replies) ==> waits(out.machine.solver)
}

proof fn lemma_ask(s: SolverView, request: RequestView, info: SourceLoc, more: Seq<ReplyView>)
    ensures
        replays(s, s.ask(request, info), given(s, more).ask(request, info), more),
{
    let n = s.asked.len();
    if n < s.replies.len() {
        assert((s.replies + more)[n as int] == s.replies[n as int]);
    }
}

proof fn lemma_ask_val(s: SolverView, request: RequestView, info: SourceLoc, more: Seq<ReplyView>)
    ensures
        replays(s, s.ask_val(request, info), given(s, more).ask_val(request, info), more),
{
    lemma_ask(s, request, info, more);
}

proof fn lemma_ask_sat(s: SolverView, request: RequestView, info: SourceLoc, more: Seq<ReplyView>)
    ensures
        replays(s, s.ask_sat(request, info), given(s, more).ask_sat(request, info), more),
{
    lemma_ask(s, request, info, more);
}

proof fn lemma_initialize(
    m: Map<Name, UVal>,
    id: Name,
    s: SolverView,
    info: SourceLoc,
    more: Seq<ReplyView>,
)
    ensures
        ({
            let (m1, s1, r) = state::initialize(m, id, s, info);
            let (m2, s2, r2) = state::initialize(m, id, given(s, more), info);
            &&& replays(s, (s1, r), (s2, r2), more)
            &&& !pending(r) ==> m2 == m1
        }),
{
    if m.dom().contains(id) {
        if let UVal::Uninit(ty) = m[id] {
            lemma_ask_val(s, RequestView::Symbolic(ty), info, more);
        }
    }
}

proof fn lemma_read_global(
    w: World,
    sh: SharedState,
    id: Name,
    info: SourceLoc,
    more: Seq<ReplyView>,
)
    ensures
        world_replays(
            w,
            state::read_global(w, sh, id, info),
            state::read_global(world_given(w, more), sh, id, info),
            more,
        ),
{
    lemma_initialize(w.local.lets, id, w.solver, info, more);
    let (_, s, r) = state::initialize(w.local.lets, id, w.solver, info);
    if r matches Ok(None) && sh.enum_members@.dom().contains(id) {
        let member = sh.enum_members@[id];
        lemma_ask(s, RequestView::GetEnum(member.enum_name, member.size), info, more);
    }
}

proof fn lemma_read_register(
    w: World,
    sh: SharedState,
    id: Name,
    accessor: Seq<Accessor>,
    info: SourceLoc,
    for_write: bool,
    more: Seq<ReplyView>,
)
    ensures
        world_replays(
            w,
            state::read_register(w, sh, id, accessor, info, for_write),
            state::read_register(world_given(w, more), sh, id, accessor, info, for_write),
            more,
        ),
{
    lemma_initialize(w.local.regs.values, id, w.solver, info, more);
    let (regs, s, r) = w.local.regs.get(id, w.solver, info);
    if r matches Ok(None) {
        lemma_read_global(
            World { local: LocalView { regs, ..w.local }, solver: s },
            sh,
            id,
            info,
            more,
        );
    }
}

proof fn lemma_read_id(
    w: World,
    sh: SharedState,
    id: Name,
    accessor: Seq<Accessor>,
    info: SourceLoc,
    for_write: bool,
    more: Seq<ReplyView>,
)
    ensures
        world_replays(
            w,
            state::read_id(w, sh, id, accessor, info, for_write),
            state::read_id(world_given(w, more), sh, id, accessor, info, for_write),
            more,
        ),
{
    lemma_initialize(w.local.vars, id, w.solver, info, more);
    let (vars, s, r) = state::initialize(w.local.vars, id, w.solver, info);
    if r matches Ok(None) {
        lemma_read_register(
            World { local: LocalView { vars, ..w.local }, solver: s },
            sh,
            id,
            accessor,
            info,
            for_write,
            more,
        );
    }
}

pub(crate) proof fn lemma_read_loc(
    w: World,
    sh: SharedState,
    loc: Loc,
    accessor: Seq<Accessor>,
    info: SourceLoc,
    for_write: bool,
    more: Seq<ReplyView>,
)
    ensures
        world_replays(
            w,
            state::read_loc(w, sh, loc, accessor, info, for_write),
            state::read_loc(world_given(w, more), sh, loc, accessor, info, for_write),
            more,
        ),
    decreases loc,
{
    match loc {
        Loc::Id(id) => lemma_read_id(w, sh, id, accessor, info, for_write, more),
        Loc::Field(inner, field) => lemma_read_loc(
            w,
            sh,
            *inner,
            accessor.push(Accessor::Field(field)),
            info,
            for_write,
            more,
        ),
        Loc::Addr(_) => {},
    }
}

pub(crate) proof fn lemma_assigned(
    w: World,
    sh: SharedState,
    loc: Loc,
    v: Val,
    accessor: Seq<Accessor>,
    info: SourceLoc,
    more: Seq<ReplyView>,
)
    ensures
        world_replays(
            w,
            assign::assigned(w, sh, loc, v, accessor, info),
            assign::assigned(world_given(w, more), sh, loc, v, accessor, info),
            more,
        ),
    decreases loc,
{
    match loc {
        Loc::Id(_) => {},
        Loc::Field(inner, field) => {
            lemma_read_loc(w, sh, *inner, accessor, info, true, more);
            let (w1, r) = state::read_loc(w, sh, *inner, accessor, info, true);
            if let Ok(Val::Struct(fields)) = r {
                lemma_assigned(
                    w1,
                    sh,
                    *inner,
                    Val::Struct(fields.with(field, v)),
                    accessor.push(Accessor::Field(field)),
                    info,
                    more,
                );
            }
        },
        Loc::Addr(inner) => lemma_read_loc(w, sh, *inner, accessor, info, true, more),
    }
}

proof fn lemma_index_of(
    s: SolverView,
    n: Val,
    bits: u32,
    errors: IndexErrors,
    info: SourceLoc,
    more: Seq<ReplyView>,
)
    ensures
        replays(
            s,
            vector::index_of(s, n, bits, errors, info),
            vector::index_of(given(s, more), n, bits, errors, info),
            more,
        ),
{
    if let Val::Symbolic(v) = n {
        lemma_ask(s, RequestView::Length(v), info, more);
    }
}

pub(crate) proof fn lemma_choose_value(
    s: SolverView,
    choice: Sym,
    a: Val,
    b: Val,
    info: SourceLoc,
    more: Seq<ReplyView>,
)
    ensures
        replays(
            s,
            vector::choose_value(s, choice, a, b, info),
            vector::choose_value(given(s, more), choice, a, b, info),
            more,
        ),
{
    let marked = SolverView { attrs: DefAttrs { uninteresting: true }, ..s };
    lemma_ask_val(marked, RequestView::Ite(choice, a, b), info, more);
}

pub(crate) proof fn lemma_must_read(w: World, reg: Name, info: SourceLoc, more: Seq<ReplyView>)
    ensures
        world_replays(
            w,
            vector::must_read(w, reg, info),
            vector::must_read(world_given(w, more), reg, info),
            more,
        ),
{
    lemma_initialize(w.local.regs.values, reg, w.solver, info, more);
}

pub(crate) proof fn lemma_read_chain(
    w: World,
    regs: Seq<Name>,
    j: int,
    i: Sym,
    bits: u32,
    chain: Val,
    values: Seq<Val>,
    info: SourceLoc,
    more: Seq<ReplyView>,
)
    ensures
        world_replays(
            w,
            vector::read_chain(w, regs, j, i, bits, chain, values, info),
            vector::read_chain(world_given(w, more), regs, j, i, bits, chain, values, info),
            more,
        ),
    decreases regs.len() - j,
{
    if j < regs.len() {
        let (s, choice) = vector::define_choice(w.solver, i, j, bits, info);
        if let Ok(choice) = choice {
            let w1 = World { solver: s, ..w };
            lemma_must_read(w1, regs[j], info, more);
            let (w2, value) = vector::must_read(w1, regs[j], info);
            if let Ok(value) = value {
                lemma_choose_value(w2.solver, choice, value, chain, info, more);
                let (s, r) = vector::choose_value(w2.solver, choice, value, chain, info);
                if let Ok(chain) = r {
                    lemma_read_chain(
                        World { solver: s, ..w2 },
                        regs,
                        j + 1,
                        i,
                        bits,
                        chain,
                        values.push(value),
                        info,
                        more,
                    );
                }
            }
        }
    }
}

proof fn lemma_read_indexed(w: World, n: Val, vector: Val, info: SourceLoc, more: Seq<ReplyView>)
    ensures
        world_replays(
            w,
            vector::read_indexed(w, n, vector, info),
            vector::read_indexed(world_given(w, more), n, vector, info),
            more,
        ),
{
    if let Some(regs) = vector::registers(vector) {
        let bits = vector::index_bits(regs.len()) as u32;
        lemma_index_of(w.solver, n, bits, vector::spec_read_errors(), info, more);
        let (s, index) = vector::index_of(
            w.solver,
            n,
            bits,
            vector::spec_read_errors(),
            info,
        );
        let w1 = World { solver: s, ..w };
        match index {
            Ok(Index::Concrete(i)) => {
                lemma_must_read(w1, regs[i as int], info, more);
            },
            Ok(Index::Symbolic(i)) => {
                lemma_must_read(w1, regs[0], info, more);
                let (w2, first) = vector::must_read(w1, regs[0], info);
                if let Ok(first) = first {
                    lemma_read_chain(w2, regs, 1, i, bits, first, seq![first], info, more);
                }
            },
            Err(_) => {},
        }
    }
}

pub(crate) proof fn lemma_write_chain(
    w: World,
    regs: Seq<Name>,
    j: int,
    i: Sym,
    bits: u32,
    value: Val,
    values: Seq<Val>,
    info: SourceLoc,
    more: Seq<ReplyView>,
)
    ensures
        world_replays(
            w,
            vector::write_chain(w, regs, j, i, bits, value, values, info),
            vector::write_chain(world_given(w, more), regs, j, i, bits, value, values, info),
            more,
        ),
    decreases regs.len() - j,
{
    if j < regs.len() {
        let marked = SolverView { attrs: DefAttrs { uninteresting: true }, ..w.solver };
        let (s, choice) = vector::define_choice(marked, i, j, bits, info);
        if let Ok(choice) = choice {
            let w1 = World { solver: s, ..w };
            lemma_must_read(w1, regs[j], info, more);
            let (w2, current) = vector::must_read(w1, regs[j], info);
            if let Ok(current) = current {
                lemma_choose_value(w2.solver, choice, value, current, info, more);
                let (s, r) = vector::choose_value(w2.solver, choice, value, current, info);
                if let Ok(chosen) = r {
                    let local = LocalView {
                        regs: w2.local.regs.assign(regs[j], chosen),
                        ..w2.local
                    };
                    lemma_write_chain(
                        World { local, solver: s },
                        regs,
                        j + 1,
                        i,
                        bits,
                        value,
                        values.push(current),
                        info,
                        more,
                    );
                }
            }
        }
    }
}

proof fn lemma_write_indexed(
    w: World,
    n: Val,
    value: Val,
    vector: Val,
    info: SourceLoc,
    more: Seq<ReplyView>,
)
    ensures
        world_replays(
            w,
            vector::write_indexed(w, n, value, vector, info),
            vector::write_indexed(world_given(w, more), n, value, vector, info),
            more,
        ),
{
    if let Some(regs) = vector::registers(vector) {
        let bits = vector::index_bits(regs.len()) as u32;
        lemma_index_of(w.solver, n, bits, vector::spec_write_errors(), info, more);
        let (s, index) = vector::index_of(
            w.solver,
            n,
            bits,
            vector::spec_write_errors(),
            info,
        );
        if let Ok(Index::Symbolic(i)) = index {
            lemma_write_chain(
                World { solver: s, ..w },
                regs,
                0,
                i,
                bits,
                value,
                seq![],
                info,
                more,
            );
        }
    }
}

proof fn lemma_apply_op(
    s: SolverView,
    op: Op,
    args: Seq<Val>,
    info: SourceLoc,
    more: Seq<ReplyView>,
)
    ensures
        replays(
            s,
            eval::apply_op(s, op, args, info),
            eval::apply_op(given(s, more), op, args, info),
            more,
        ),
{
    lemma_ask_val(s, RequestView::Op(op, args.take(op.spec_arity() as int)), info, more);
}

pub(crate) proof fn lemma_eval(
    w: World,
    sh: SharedState,
    exp: Exp,
    accessor: Seq<Accessor>,
    info: SourceLoc,
    more: Seq<ReplyView>,
)
    ensures
        world_replays(
            w,
            eval::eval(w, sh, exp, accessor, info),
            eval::eval(world_given(w, more), sh, exp, accessor, info),
            more,
        ),
    decreases exp, 0nat,
{
    match exp {
        Exp::Id(id) => lemma_read_id(w, sh, id, accessor, info, false, more),
        Exp::Undefined(ty) => lemma_ask_val(w.solver, RequestView::Symbolic(ty), info, more),
        Exp::Call(op, args) => {
            lemma_eval_all(w, sh, args@, 0, seq![], info, more);
            let (w1, r) = eval::eval_all(w, sh, args@, 0, seq![], info);
            if let Ok(vals) = r {
                lemma_apply_op(w1.solver, op, vals, info, more);
            }
        },
        Exp::Kind(_, inner) => lemma_eval(w, sh, *inner, seq![], info, more),
        Exp::Unwrap(_, inner) => lemma_eval(w, sh, *inner, seq![], info, more),
        Exp::Field(inner, field) => lemma_eval(
            w,
            sh,
            eval::shared_exp(inner),
            accessor.push(Accessor::Field(field)),
            info,
            more,
        ),
        Exp::Struct(_, fields) => lemma_eval_fields(w, sh, fields@, 0, Fields::Nil, info, more),
        _ => {},
    }
}

proof fn lemma_eval_all(
    w: World,
    sh: SharedState,
    exps: Seq<Exp>,
    j: int,
    done: Seq<Val>,
    info: SourceLoc,
    more: Seq<ReplyView>,
)
    ensures
        world_replays(
            w,
            eval::eval_all(w, sh, exps, j, done, info),
            eval::eval_all(world_given(w, more), sh, exps, j, done, info),
            more,
        ),
    decreases exps, exps.len() - j,
{
    if 0 <= j < exps.len() {
        lemma_eval(w, sh, exps[j], seq![], info, more);
        let (w1, r) = eval::eval(w, sh, exps[j], seq![], info);
        if let Ok(v) = r {
            lemma_eval_all(w1, sh, exps, j + 1, done.push(v), info, more);
        }
    }
}

proof fn lemma_eval_fields(
    w: World,
    sh: SharedState,
    fields: Seq<(Name, Exp)>,
    j: int,
    done: Fields,
    info: SourceLoc,
    more: Seq<ReplyView>,
)
    ensures
        world_replays(
            w,
            eval::eval_fields(w, sh, fields, j, done, info),
            eval::eval_fields(world_given(w, more), sh, fields, j, done, info),
            more,
        ),
    decreases fields, fields.len() - j,
{
    if 0 <= j < fields.len() {
        lemma_eval(w, sh, fields[j].1, seq![], info, more);
        let (w1, r) = eval::eval(w, sh, fields[j].1, seq![], info);
        if let Ok(v) = r {
            lemma_eval_fields(w1, sh, fields, j + 1, done.with(fields[j].0, v), info, more);
        }
    }
}

proof fn lemma_lookup(
    w: World,
    sh: SharedState,
    place: Place,
    info: SourceLoc,
    more: Seq<ReplyView>,
)
    ensures
        world_replays(
            w,
            reset::lookup(w, sh, place, info),
            reset::lookup(world_given(w, more), sh, place, info),
            more,
        ),
{
    if place < sh.places@.len() && sh.places@[place as int] is Some {
        let loc = sh.places@[place as int]->0;
        lemma_read_loc(w, sh, loc, seq![], info, false, more);
        let (w1, r) = state::read_loc(w, sh, loc, seq![], info, false);
        if let Ok(v) = r {
            lemma_ask(w1.solver, RequestView::SmtValue(v), info, more);
        }
    }
}

proof fn lemma_resolve(
    w: World,
    sh: SharedState,
    t: Tree<Place>,
    info: SourceLoc,
    more: Seq<ReplyView>,
)
    ensures
        world_replays(
            w,
            reset::resolve(w, sh, t, info),
            reset::resolve(world_given(w, more), sh, t, info),
            more,
        ),
    decreases t, 0nat,
{
    match t {
        Tree::Var(place) => lemma_lookup(w, sh, place, info, more),
        Tree::Node(_, kids) => lemma_resolve_all(w, sh, kids, 0, seq![], info, more),
    }
}

proof fn lemma_resolve_all(
    w: World,
    sh: SharedState,
    kids: Seq<Tree<Place>>,
    j: int,
    done: Seq<Tree<Sym>>,
    info: SourceLoc,
    more: Seq<ReplyView>,
)
    ensures
        world_replays(
            w,
            reset::resolve_all(w, sh, kids, j, done, info),
            reset::resolve_all(world_given(w, more), sh, kids, j, done, info),
            more,
        ),
    decreases kids, kids.len() - j,
{
    if 0 <= j < kids.len() {
        lemma_resolve(w, sh, kids[j], info, more);
        let (w1, r) = reset::resolve(w, sh, kids[j], info);
        if let Ok(t) = r {
            lemma_resolve_all(w1, sh, kids, j + 1, done.push(t), info, more);
        }
    }
}

pub(crate) proof fn lemma_reset_one(
    m: Machine,
    sh: SharedState,
    loc: Loc,
    reset: Reset,
    synchronize: bool,
    info: SourceLoc,
    more: Seq<ReplyView>,
)
    ensures
        machine_replays(
            m,
            reset::reset_one(m, sh, loc, reset, synchronize, info),
            reset::reset_one(machine_given(m, more), sh, loc, reset, synchronize, info),
            more,
        ),
{
    let request = RequestView::Reset(reset, m.frame.memory);
    lemma_ask_val(m.solver, request, info, more);
    let (s, r) = m.solver.ask_val(request, info);
    if let Ok(v) = r {
        let m1 = Machine { solver: s, ..m };
        lemma_assigned(m1.world(), sh, loc, v, seq![], info, more);
    }
}

proof fn lemma_reset_each(
    m: Machine,
    sh: SharedState,
    resets: Seq<(Loc, Reset)>,
    except: Seq<(Loc, Reset)>,
    synchronize: bool,
    i: int,
    info: SourceLoc,
    more: Seq<ReplyView>,
)
    ensures
        machine_replays(
            m,
            reset::reset_each(m, sh, resets, except, synchronize, i, info),
            reset::reset_each(
                machine_given(m, more),
                sh,
                resets,
                except,
                synchronize,
                i,
                info,
            ),
            more,
        ),
    decreases resets.len() - i,
{
    if 0 <= i < resets.len() {
        if exists|j: int| 0 <= j < except.len() && (#[trigger] except[j]).0 == resets[i].0 {
            lemma_reset_each(m, sh, resets, except, synchronize, i + 1, info, more);
        } else {
            lemma_reset_one(m, sh, resets[i].0, resets[i].1, synchronize, info, more);
            let (m1, r) = reset::reset_one(m, sh, resets[i].0, resets[i].1, synchronize, info);
            if r is Ok {
                lemma_reset_each(m1, sh, resets, except, synchronize, i + 1, info, more);
            }
        }
    }
}

pub(crate) proof fn lemma_assert_constraints(
    w: World,
    sh: SharedState,
    constraints: Seq<smtlib::Exp<Place>>,
    i: int,
    info: SourceLoc,
    more: Seq<ReplyView>,
)
    ensures
        world_replays(
            w,
            reset::assert_constraints(w, sh, constraints, i, info),
            reset::assert_constraints(world_given(w, more), sh, constraints, i, info),
            more,
        ),
    decreases constraints.len() - i,
{
    if 0 <= i < constraints.len() {
        let t = constraints[i].tree();
        lemma_resolve(w, sh, t, info, more);
        let (w1, r) = reset::resolve(w, sh, t, info);
        if let Ok(exp) = r {
            let s = w1.solver.record(EventView::Assume(t)).assert_exp(exp);
            lemma_assert_constraints(
                World { solver: s, ..w1 },
                sh,
                constraints,
                i + 1,
                info,
                more,
            );
        }
    }
}

proof fn lemma_constrain(w: World, sh: SharedState, info: SourceLoc, more: Seq<ReplyView>)
    ensures
        world_replays(
            w,
            reset::constrain(w, sh, info),
            reset::constrain(world_given(w, more), sh, info),
            more,
        ),
{
    lemma_assert_constraints(w, sh, sh.reset_constraints@, 0, info, more);
    let (w1, r) = reset::assert_constraints(w, sh, sh.reset_constraints@, 0, info);
    if r is Ok {
        lemma_ask_sat(w1.solver, RequestView::CheckSat, info, more);
    }
}

proof fn lemma_resolve_args(
    w: World,
    sh: SharedState,
    args: Seq<Option<Tree<Place>>>,
    i: int,
    done: Seq<Option<Tree<Sym>>>,
    info: SourceLoc,
    more: Seq<ReplyView>,
)
    ensures
        world_replays(
            w,
            reset::resolve_args(w, sh, args, i, done, info),
            reset::resolve_args(world_given(w, more), sh, args, i, done, info),
            more,
        ),
    decreases args.len() - i,
{
    if 0 <= i < args.len() {
        match args[i] {
            None => lemma_resolve_args(w, sh, args, i + 1, done.push(None), info, more),
            Some(t) => {
                lemma_resolve(w, sh, t, info, more);
                let (w1, r) = reset::resolve(w, sh, t, info);
                if let Ok(exp) = r {
                    lemma_resolve_args(w1, sh, args, i + 1, done.push(Some(exp)), info, more);
                }
            },
        }
    }
}

proof fn lemma_arg_values(
    s: SolverView,
    args: Seq<Option<Tree<Sym>>>,
    i: int,
    done: Seq<Val>,
    more: Seq<ReplyView>,
)
    ensures
        replays(
            s,
            reset::arg_values(s, args, i, done),
            reset::arg_values(given(s, more), args, i, done),
            more,
        ),
    decreases args.len() - i,
{
    if 0 <= i < args.len() {
        match args[i] {
            None => lemma_arg_values(s, args, i + 1, done.push(Val::Unit), more),
            Some(t) => {
                let (s1, r) = reset::value_of_exp(s, t);
                if let Ok(v) = r {
                    lemma_arg_values(s1, args, i + 1, done.push(v), more);
                }
            },
        }
    }
}

proof fn lemma_assumption_values(
    w: World,
    sh: SharedState,
    args: Seq<Option<Tree<Place>>>,
    result: Tree<Place>,
    info: SourceLoc,
    more: Seq<ReplyView>,
)
    ensures
        world_replays(
            w,
            reset::assumption_values(w, sh, args, result, info),
            reset::assumption_values(world_given(w, more), sh, args, result, info),
            more,
        ),
{
    lemma_resolve_args(w, sh, args, 0, seq![], info, more);
    let (w1, smt_args) = reset::resolve_args(w, sh, args, 0, seq![], info);
    lemma_resolve(w1, sh, result, info, more);
    let (w2, smt_result) = reset::resolve(w1, sh, result, info);
    if let Ok(smt_args) = smt_args {
        lemma_arg_values(w2.solver, smt_args, 0, seq![], more);
    }
}

proof fn lemma_assume_functions(
    m: Machine,
    sh: SharedState,
    assumptions: Seq<FunctionAssumption>,
    i: int,
    info: SourceLoc,
    more: Seq<ReplyView>,
)
    ensures
        machine_replays(
            m,
            reset::assume_functions(m, sh, assumptions, i, info),
            reset::assume_functions(machine_given(m, more), sh, assumptions, i, info),
            more,
        ),
    decreases assumptions.len() - i,
{
    if 0 <= i < assumptions.len() {
        let a = assumptions[i];
        let args = reset::arg_trees(a.args@);
        lemma_assumption_values(m.world(), sh, args, a.result.tree(), info, more);
        let (w, r) = reset::assumption_values(m.world(), sh, args, a.result.tree(), info);
        let m1 = m.with_world(w);
        if let Ok((args, result)) = r {
            let m2 = Machine {
                frame: FrameView {
                    function_assumptions: m1.frame.function_assumptions.push(
                        Assumption { function: a.function, args: Vals::of(args), result },
                    ),
                    ..m1.frame
                },
                solver: m1.solver.record(
                    EventView::AssumeFun { name: a.function, args, return_value: result },
                ),
            };
            lemma_assume_functions(m2, sh, assumptions, i + 1, info, more);
        }
    }
}

proof fn lemma_reset_all(
    m: Machine,
    sh: SharedState,
    ts: TaskStateView,
    info: SourceLoc,
    more: Seq<ReplyView>,
)
    ensures
        machine_replays(
            m,
            reset::reset_all(m, sh, ts, info),
            reset::reset_all(machine_given(m, more), sh, ts, info),
            more,
        ),
{
    let first = sh.reset_registers@;
    lemma_reset_each(m, sh, first, ts.reset_registers, true, 0, info, more);
    let (m1, _) = reset::reset_each(m, sh, first, ts.reset_registers, true, 0, info);
    lemma_reset_each(m1, sh, ts.reset_registers, seq![], false, 0, info, more);
    let (m2, _) = reset::reset_each(m1, sh, ts.reset_registers, seq![], false, 0, info);
    lemma_constrain(m2.world(), sh, info, more);
    let m3 = m2.with_world(reset::constrain(m2.world(), sh, info).0);
    lemma_assume_functions(m3, sh, sh.function_assumptions@, 0, info, more);
}

pub(crate) proof fn lemma_finish(
    m: Machine,
    sh: SharedState,
    loc: Loc,
    v: Val,
    info: SourceLoc,
    more: Seq<ReplyView>,
)
    ensures
        machine_replays(
            m,
            special::finish(m, sh, loc, v, info),
            special::finish(machine_given(m, more), sh, loc, v, info),
            more,
        ),
{
    lemma_assigned(m.world(), sh, loc, v, seq![], info, more);
}

proof fn lemma_ask_stepped(
    m: Machine,
    request: RequestView,
    info: SourceLoc,
    more: Seq<ReplyView>,
)
    ensures
        machine_replays(
            m,
            special::ask_stepped(m, request, info),
            special::ask_stepped(machine_given(m, more), request, info),
            more,
        ),
{
    lemma_ask(m.solver, request, info, more);
}

proof fn lemma_choose_pairs(
    w: World,
    sh: SharedState,
    args: Seq<Exp>,
    i: int,
    chosen: Option<Val>,
    open: Seq<Choice>,
    info: SourceLoc,
    more: Seq<ReplyView>,
)
    ensures
        world_replays(
            w,
            special::choose_pairs(w, sh, args, i, chosen, open, info),
            special::choose_pairs(world_given(w, more), sh, args, i, chosen, open, info),
            more,
        ),
    decreases args.len() - 2 * i,
{
    if 0 <= i && 2 * i + 1 < args.len() {
        lemma_eval(w, sh, args[2 * i], seq![], info, more);
        let (w1, r) = eval::eval(w, sh, args[2 * i], seq![], info);
        match r {
            Err(ExecError::VariableNotFound(_)) => {
                lemma_choose_pairs(w1, sh, args, i + 1, chosen, open, info, more);
            },
            Ok(Val::Bool(b)) => {
                if b {
                    lemma_eval(w1, sh, args[2 * i + 1], seq![], info, more);
                    let (w2, r) = eval::eval(w1, sh, args[2 * i + 1], seq![], info);
                    if let Ok(v) = r {
                        lemma_choose_pairs(w2, sh, args, i + 1, Some(v), open, info, more);
                    }
                } else {
                    lemma_choose_pairs(w1, sh, args, i + 1, chosen, open, info, more);
                }
            },
            Ok(Val::Symbolic(sym)) => {
                let choice = Choice { sym, arg: (2 * i + 1) as usize };
                lemma_choose_pairs(w1, sh, args, i + 1, chosen, open.push(choice), info, more);
            },
            _ => {},
        }
    }
}

proof fn lemma_open_values(
    w: World,
    sh: SharedState,
    args: Seq<Exp>,
    open: Seq<Choice>,
    i: int,
    done: Seq<(Sym, Val)>,
    info: SourceLoc,
    more: Seq<ReplyView>,
)
    ensures
        world_replays(
            w,
            special::open_values(w, sh, args, open, i, done, info),
            special::open_values(world_given(w, more), sh, args, open, i, done, info),
            more,
        ),
    decreases open.len() - i,
{
    if 0 <= i < open.len() {
        lemma_eval(w, sh, args[open[i].arg as int], seq![], info, more);
        let (w1, r) = eval::eval(w, sh, args[open[i].arg as int], seq![], info);
        if let Ok(v) = r {
            lemma_open_values(
                w1,
                sh,
                args,
                open,
                i + 1,
                done.push((open[i].sym, v)),
                info,
                more,
            );
        }
    }
}

proof fn lemma_phi(
    m: Machine,
    sh: SharedState,
    loc: Loc,
    args: Seq<Exp>,
    info: SourceLoc,
    more: Seq<ReplyView>,
)
    ensures
        machine_replays(
            m,
            special::phi(m, sh, loc, args, info),
            special::phi(machine_given(m, more), sh, loc, args, info),
            more,
        ),
{
    lemma_choose_pairs(m.world(), sh, args, 0, None, seq![], info, more);
    let (w, r) = special::choose_pairs(m.world(), sh, args, 0, None, seq![], info);
    let m1 = m.with_world(w);
    match r {
        Ok((Some(v), _)) => lemma_finish(m1, sh, loc, v, info, more),
        Ok((None, open)) => {
            lemma_open_values(m1.world(), sh, args, open, 0, seq![], info, more);
            let (w, r) = special::open_values(m1.world(), sh, args, open, 0, seq![], info);
            let m2 = m1.with_world(w);
            if let Ok(choices) = r {
                lemma_ask_val(m2.solver, RequestView::ItePhi(choices), info, more);
                let (s, r) = m2.solver.ask_val(RequestView::ItePhi(choices), info);
                if let Ok(v) = r {
                    lemma_finish(Machine { solver: s, ..m2 }, sh, loc, v, info, more);
                }
            }
        },
        Err(_) => {},
    }
}

proof fn lemma_vector_calls(
    m: Machine,
    sh: SharedState,
    loc: Loc,
    args: Seq<Exp>,
    info: SourceLoc,
    more: Seq<ReplyView>,
)
    ensures
        machine_replays(
            m,
            special::vector_init(m, sh, loc, args[0], info),
            special::vector_init(machine_given(m, more), sh, loc, args[0], info),
            more,
        ),
        machine_replays(
            m,
            special::vector_update(m, sh, loc, args, info),
            special::vector_update(machine_given(m, more), sh, loc, args, info),
            more,
        ),
{
    lemma_eval(m.world(), sh, args[0], seq![], info, more);
    let (w, r) = eval::eval(m.world(), sh, args[0], seq![], info);
    if let Ok(Val::I64(len)) = r {
        let v = Val::Vector(Vals::of(special::poison(len as nat)));
        lemma_finish(m.with_world(w), sh, loc, v, info, more);
    }
    lemma_eval_all(m.world(), sh, args, 0, seq![], info, more);
    let (w, r) = eval::eval_all(m.world(), sh, args, 0, seq![], info);
    let m1 = m.with_world(w);
    if let Ok(vals) = r {
        let request = RequestView::VectorUpdate(vals, m1.frame);
        lemma_ask_stepped(m1, request, info, more);
        let (m2, r) = special::ask_stepped(m1, request, info);
        if let Ok(v) = r {
            lemma_finish(m2, sh, loc, v, info, more);
        }
    }
}

proof fn lemma_reset_call(
    m: Machine,
    sh: SharedState,
    ts: TaskStateView,
    loc: Loc,
    info: SourceLoc,
    more: Seq<ReplyView>,
)
    ensures
        machine_replays(
            m,
            special::reset_call(m, sh, ts, loc, info),
            special::reset_call(machine_given(m, more), sh, ts, loc, info),
            more,
        ),
{
    lemma_reset_all(m, sh, ts, info, more);
    let (m1, _) = reset::reset_all(m, sh, ts, info);
    let regs = RegistersView {
        values: m1.frame.local.regs.values,
        unsynchronized: Set::empty(),
    };
    let local = LocalView { regs, ..m1.frame.local };
    let m2 = Machine { frame: FrameView { local, ..m1.frame }, ..m1 };
    lemma_finish(m2, sh, loc, Val::Unit, info, more);
}

proof fn lemma_reg_deref(
    m: Machine,
    sh: SharedState,
    loc: Loc,
    arg: Exp,
    info: SourceLoc,
    more: Seq<ReplyView>,
)
    ensures
        machine_replays(
            m,
            special::reg_deref(m, sh, loc, arg, info),
            special::reg_deref(machine_given(m, more), sh, loc, arg, info),
            more,
        ),
{
    lemma_eval(m.world(), sh, arg, seq![], info, more);
    let (w, r) = eval::eval(m.world(), sh, arg, seq![], info);
    let m1 = m.with_world(w);
    if let Ok(Val::Ref(reg)) = r {
        lemma_initialize(m1.frame.local.regs.values, reg, m1.solver, info, more);
        let (regs, s, r) = m1.frame.local.regs.get(reg, m1.solver, info);
        let m2 = m1.with_world(World { local: LocalView { regs, ..m1.frame.local }, solver: s });
        if let Ok(Some(v)) = r {
            let m3 = Machine {
                solver: m2.solver.record(EventView::ReadReg(reg, seq![], v)),
                ..m2
            };
            lemma_finish(m3, sh, loc, v, info, more);
        }
    }
}

proof fn lemma_abstract_call(
    m: Machine,
    sh: SharedState,
    loc: Loc,
    primitive: bool,
    args: Seq<Exp>,
    info: SourceLoc,
    more: Seq<ReplyView>,
)
    ensures
        machine_replays(
            m,
            special::abstract_call(m, sh, loc, primitive, args, info),
            special::abstract_call(machine_given(m, more), sh, loc, primitive, args, info),
            more,
        ),
{
    lemma_eval_all(m.world(), sh, args, 0, seq![], info, more);
    let (w, r) = eval::eval_all(m.world(), sh, args, 0, seq![], info);
    let m1 = m.with_world(w);
    if let Ok(vals) = r {
        if let Val::Ref(f) = vals.last() {
            if let Some(ty) = special::abstract_result(sh, f, primitive) {
                lemma_ask_val(m1.solver, RequestView::Symbolic(ty), info, more);
                let (s, r) = m1.solver.ask_val(RequestView::Symbolic(ty), info);
                if let Ok(v) = r {
                    let event = EventView::Abstract {
                        name: f,
                        primitive,
                        args: vals.drop_last(),
                        return_value: v,
                    };
                    let m2 = Machine { solver: s.record(event), ..m1 };
                    lemma_finish(m2, sh, loc, v, info, more);
                }
            }
        }
    }
}

proof fn lemma_register_calls(
    m: Machine,
    sh: SharedState,
    loc: Loc,
    args: Seq<Exp>,
    info: SourceLoc,
    more: Seq<ReplyView>,
)
    ensures
        machine_replays(
            m,
            special::read_call(m, sh, loc, args, info),
            special::read_call(machine_given(m, more), sh, loc, args, info),
            more,
        ),
        machine_replays(
            m,
            special::write_call(m, sh, loc, args, info),
            special::write_call(machine_given(m, more), sh, loc, args, info),
            more,
        ),
{
    lemma_eval_all(m.world(), sh, args, 0, seq![], info, more);
    let (w, r) = eval::eval_all(m.world(), sh, args, 0, seq![], info);
    let m1 = m.with_world(w);
    if let Ok(vals) = r {
        lemma_read_indexed(m1.world(), vals[0], vals[1], info, more);
        let (w, r) = vector::read_indexed(m1.world(), vals[0], vals[1], info);
        if let Ok(v) = r {
            lemma_finish(m1.with_world(w), sh, loc, v, info, more);
        }
        lemma_write_indexed(m1.world(), vals[0], vals[1], vals[2], info, more);
        let (w, r) = vector::write_indexed(m1.world(), vals[0], vals[1], vals[2], info);
        if r is Ok {
            lemma_finish(m1.with_world(w), sh, loc, Val::Unit, info, more);
        }
    }
}

proof fn lemma_count_visit(
    m: Machine,
    pc_limit: Option<(Name, usize)>,
    info: SourceLoc,
    more: Seq<ReplyView>,
)
    ensures
        machine_replays(
            m,
            special::count_visit(m, pc_limit, info),
            special::count_visit(machine_given(m, more), pc_limit, info),
            more,
        ),
{
    if let Some((arch_pc, _)) = pc_limit {
        lemma_initialize(m.frame.local.regs.values, arch_pc, m.solver, info, more);
    }
}

proof fn lemma_announce(
    m: Machine,
    sh: SharedState,
    ts: TaskStateView,
    loc: Loc,
    args: Seq<Exp>,
    info: SourceLoc,
    more: Seq<ReplyView>,
)
    ensures
        machine_replays(
            m,
            special::announce(m, sh, ts, loc, args, info),
            special::announce(machine_given(m, more), sh, ts, loc, args, info),
            more,
        ),
{
    lemma_eval(m.world(), sh, args[0], seq![], info, more);
    let (w, r) = eval::eval(m.world(), sh, args[0], seq![], info);
    let m1 = m.with_world(w);
    if let Ok(opcode) = r {
        lemma_count_visit(m1, ts.pc_limit, info, more);
        let (m2, r) = special::count_visit(m1, ts.pc_limit, info);
        if r is Ok {
            let m3 = Machine { solver: m2.solver.record(EventView::Instr(opcode)), ..m2 };
            lemma_finish(m3, sh, loc, Val::Unit, info, more);
        }
    }
}

proof fn lemma_construct(
    m: Machine,
    sh: SharedState,
    loc: Loc,
    ctor: Name,
    args: Seq<Exp>,
    info: SourceLoc,
    more: Seq<ReplyView>,
)
    ensures
        machine_replays(
            m,
            special::construct(m, sh, loc, ctor, args, info),
            special::construct(machine_given(m, more), sh, loc, ctor, args, info),
            more,
        ),
{
    lemma_eval(m.world(), sh, args[0], seq![], info, more);
    let (w, r) = eval::eval(m.world(), sh, args[0], seq![], info);
    if let Ok(v) = r {
        lemma_finish(m.with_world(w), sh, loc, Val::Ctor(ctor, Box::new(v)), info, more);
    }
}

proof fn lemma_special(
    m: Machine,
    sh: SharedState,
    ts: TaskStateView,
    loc: Loc,
    f: Name,
    args: Seq<Exp>,
    info: SourceLoc,
    more: Seq<ReplyView>,
)
    ensures
        machine_replays(
            m,
            special::special(m, sh, ts, loc, f, args, info),
            special::special(machine_given(m, more), sh, ts, loc, f, args, info),
            more,
        ),
{
    lemma_vector_calls(m, sh, loc, args, info, more);
    lemma_reset_call(m, sh, ts, loc, info, more);
    lemma_phi(m, sh, loc, args, info, more);
    lemma_reg_deref(m, sh, loc, args[0], info, more);
    lemma_abstract_call(m, sh, loc, true, args, info, more);
    lemma_abstract_call(m, sh, loc, false, args, info, more);
    lemma_register_calls(m, sh, loc, args, info, more);
    lemma_announce(m, sh, ts, loc, args, info, more);
    lemma_construct(m, sh, loc, f, args, info, more);
}

proof fn lemma_certainly_equal(
    s: SolverView,
    a: Val,
    b: Val,
    info: SourceLoc,
    more: Seq<ReplyView>,
)
    ensures
        replays(
            s,
            call::certainly_equal(s, a, b, info),
            call::certainly_equal(given(s, more), a, b, info),
            more,
        ),
{
    lemma_ask_val(s, RequestView::EqAnything(a, b), info, more);
    let (s1, r) = s.ask_val(RequestView::EqAnything(a, b), info);
    if let Ok(Val::Symbolic(v)) = r {
        lemma_ask_sat(s1, RequestView::CheckSatWith(call::is_false(v)), info, more);
    }
}

proof fn lemma_certainly_all_equal(
    s: SolverView,
    required: Seq<Val>,
    args: Seq<Val>,
    i: int,
    info: SourceLoc,
    more: Seq<ReplyView>,
)
    ensures
        replays(
            s,
            call::certainly_all_equal(s, required, args, i, info),
            call::certainly_all_equal(given(s, more), required, args, i, info),
            more,
        ),
    decreases required.len() - i,
{
    if 0 <= i < required.len() {
        lemma_certainly_equal(s, required[i], args[i], info, more);
        let (s1, _) = call::certainly_equal(s, required[i], args[i], info);
        lemma_certainly_all_equal(s1, required, args, i + 1, info, more);
    }
}

proof fn lemma_assumed_result(
    s: SolverView,
    assumptions: Seq<Assumption>,
    f: Name,
    args: Seq<Val>,
    i: int,
    info: SourceLoc,
    more: Seq<ReplyView>,
)
    ensures
        replays(
            s,
            call::assumed_result(s, assumptions, f, args, i, info),
            call::assumed_result(given(s, more), assumptions, f, args, i, info),
            more,
        ),
    decreases assumptions.len() - i,
{
    if 0 <= i < assumptions.len() {
        let a = assumptions[i];
        if a.function == f && a.args@.len() == args.len() {
            lemma_certainly_all_equal(s, a.args@, args, 0, info, more);
            let (s1, _) = call::certainly_all_equal(s, a.args@, args, 0, info);
            lemma_assumed_result(s1, assumptions, f, args, i + 1, info, more);
        } else {
            lemma_assumed_result(s, assumptions, f, args, i + 1, info, more);
        }
    }
}

proof fn lemma_call_with(
    m: Machine,
    sh: SharedState,
    cx: Context,
    loc: Loc,
    f: Name,
    function: Function,
    args: Seq<Val>,
    info: SourceLoc,
    more: Seq<ReplyView>,
)
    ensures
        effect_replays(
            m,
            call::call_with(m, sh, cx, loc, f, function, args, info),
            call::call_with(machine_given(m, more), sh, cx, loc, f, function, args, info),
            more,
        ),
{
    let s = call::trace_function(m.solver, sh, f, true);
    let known = m.frame.function_assumptions;
    lemma_assumed_result(s, known, f, args, 0, info, more);
    let (s1, r) = call::assumed_result(s, known, f, args, 0, info);
    if let Ok(Some(result)) = r {
        let m1 = Machine { solver: s1, ..m };
        lemma_assigned(m1.world(), sh, loc, result, seq![], info, more);
    }
}

proof fn lemma_return_value(m: Machine, sh: SharedState, v: Val, more: Seq<ReplyView>)
    ensures
        effect_replays(
            m,
            call::return_value(m, sh, v),
            call::return_value(machine_given(m, more), sh, v),
            more,
        ),
{
    let s = call::trace_function(m.solver, sh, m.frame.function_name, false);
    if m.frame.stack_call.len() > 0 {
        let record = m.frame.stack_call.last();
        let m1 = Machine { frame: call::leave(m.frame), solver: s };
        lemma_assigned(m1.world(), sh, record.loc, v, seq![], record.info, more);
    }
}

proof fn lemma_end(m: Machine, sh: SharedState, more: Seq<ReplyView>)
    ensures
        effect_replays(m, call::end(m, sh), call::end(machine_given(m, more), sh), more),
{
    let vars = m.frame.local.vars;
    if vars.dom().contains(RETURN) {
        match vars[RETURN] {
            UVal::Init(v) => lemma_return_value(m, sh, v, more),
            UVal::Uninit(ty) => {
                let request = RequestView::Symbolic(ty);
                lemma_ask_val(m.solver, request, SourceLoc::Unknown, more);
                let (s, r) = m.solver.ask_val(request, SourceLoc::Unknown);
                if let Ok(v) = r {
                    lemma_return_value(Machine { solver: s, ..m }, sh, v, more);
                }
            },
        }
    }
}

proof fn lemma_can_be(s: SolverView, t: Tree<Sym>, info: SourceLoc, more: Seq<ReplyView>)
    ensures
        replays(s, run::can_be(s, t, info), run::can_be(given(s, more), t, info), more),
{
    lemma_ask_sat(s, RequestView::CheckSatWith(t), info, more);
}

proof fn lemma_branch(
    m: Machine,
    cx: Context,
    v: Sym,
    target: usize,
    info: SourceLoc,
    more: Seq<ReplyView>,
)
    ensures
        effect_replays(
            m,
            run::branch(m, cx, v, target, info),
            run::branch(machine_given(m, more), cx, v, target, info),
            more,
        ),
{
    let yes = solver::var(v);
    let no = solver::unary(tree::Op::Not, solver::var(v));
    lemma_can_be(m.solver, yes, info, more);
    let (s, _) = run::can_be(m.solver, yes, info);
    lemma_can_be(s, no, info, more);
}

proof fn lemma_jump(
    m: Machine,
    sh: SharedState,
    cx: Context,
    exp: Exp,
    target: usize,
    info: SourceLoc,
    more: Seq<ReplyView>,
)
    ensures
        effect_replays(
            m,
            run::jump(m, sh, cx, exp, target, info),
            run::jump(machine_given(m, more), sh, cx, exp, target, info),
            more,
        ),
{
    lemma_eval(m.world(), sh, exp, seq![], info, more);
    let (m1, r) = run::eval_in(m, sh, exp, info);
    if let Ok(Val::Symbolic(v)) = r {
        lemma_branch(m1, cx, v, target, info, more);
    }
}

pub(crate) proof fn lemma_possible_value(s: SolverView, v: Sym, info: SourceLoc, more: Seq<ReplyView>)
    ensures
        replays(
            s,
            run::possible_value(s, v, info),
            run::possible_value(given(s, more), v, info),
            more,
        ),
{
    lemma_ask(s, RequestView::Length(v), info, more);
    let (s1, r) = s.ask(RequestView::Length(v), info);
    if let Ok(AnswerView::Length(Some(len))) = r {
        let (s2, r) = s1.declare_const(smtlib::Ty::BitVec(len), info);
        if let Ok(sym) = r {
            let s3 = s2.assert_exp(
                solver::binary(tree::Op::Eq, solver::var(v), solver::var(sym)),
            );
            lemma_ask_sat(s3, RequestView::CheckSat, info, more);
            let (s4, _) = s3.ask_sat(RequestView::CheckSat, info);
            lemma_ask(s4, RequestView::ModelValue(v), info, more);
        }
    }
}

proof fn lemma_monomorphize(
    m: Machine,
    sh: SharedState,
    cx: Context,
    id: Name,
    info: SourceLoc,
    more: Seq<ReplyView>,
)
    ensures
        effect_replays(
            m,
            run::monomorphize(m, sh, cx, id, info),
            run::monomorphize(machine_given(m, more), sh, cx, id, info),
            more,
        ),
{
    lemma_read_id(m.world(), sh, id, seq![], info, false, more);
    let (w, r) = state::read_id(m.world(), sh, id, seq![], info, false);
    let m1 = m.with_world(w);
    if let Ok(Val::Symbolic(v)) = r {
        lemma_possible_value(m1.solver, v, info, more);
        let (s, r) = run::possible_value(m1.solver, v, info);
        if let Ok(b) = r {
            let n = m1.frame.forks;
            let constant = tree::leaf(literal::bits_op(b));
            let forked = Machine {
                frame: FrameView { forks: (n + 1) as u32, ..m1.frame },
                solver: s.record(EventView::Fork(n, v, 0, info)).assert_exp(
                    solver::binary(tree::Op::Eq, solver::var(v), constant),
                ),
            };
            lemma_finish(forked, sh, Loc::Id(id), Val::Bits(B64::of(b)), info, more);
        }
    }
}

proof fn lemma_primop(
    m: Machine,
    sh: SharedState,
    loc: Loc,
    f: Primop,
    args: Seq<Val>,
    info: SourceLoc,
    more: Seq<ReplyView>,
)
    ensures
        effect_replays(
            m,
            run::primop(m, sh, loc, f, args, info),
            run::primop(machine_given(m, more), sh, loc, f, args, info),
            more,
        ),
{
    lemma_ask_val(m.solver, RequestView::Primop(f, args), info, more);
    let (s, r) = m.solver.ask_val(RequestView::Primop(f, args), info);
    if let Ok(v) = r {
        lemma_finish(Machine { solver: s, ..m }, sh, loc, v, info, more);
    }
}

proof fn lemma_primop_unary(
    m: Machine,
    sh: SharedState,
    loc: Loc,
    f: Primop,
    arg: Exp,
    info: SourceLoc,
    more: Seq<ReplyView>,
)
    ensures
        effect_replays(
            m,
            run::primop_unary(m, sh, loc, f, arg, info),
            run::primop_unary(machine_given(m, more), sh, loc, f, arg, info),
            more,
        ),
{
    lemma_eval(m.world(), sh, arg, seq![], info, more);
    let (m1, r) = run::eval_in(m, sh, arg, info);
    if let Ok(v) = r {
        lemma_primop(m1, sh, loc, f, seq![v], info, more);
    }
}

proof fn lemma_primop_binary(
    m: Machine,
    sh: SharedState,
    loc: Loc,
    f: Primop,
    arg1: Exp,
    arg2: Exp,
    info: SourceLoc,
    more: Seq<ReplyView>,
)
    ensures
        effect_replays(
            m,
            run::primop_binary(m, sh, loc, f, arg1, arg2, info),
            run::primop_binary(machine_given(m, more), sh, loc, f, arg1, arg2, info),
            more,
        ),
{
    lemma_eval(m.world(), sh, arg1, seq![], info, more);
    let (m1, r1) = run::eval_in(m, sh, arg1, info);
    if let Ok(v1) = r1 {
        lemma_eval(m1.world(), sh, arg2, seq![], info, more);
        let (m2, r2) = run::eval_in(m1, sh, arg2, info);
        if let Ok(v2) = r2 {
            lemma_primop(m2, sh, loc, f, seq![v1, v2], info, more);
        }
    }
}

proof fn lemma_primop_variadic(
    m: Machine,
    sh: SharedState,
    loc: Loc,
    f: Primop,
    args: Seq<Exp>,
    info: SourceLoc,
    more: Seq<ReplyView>,
)
    ensures
        effect_replays(
            m,
            run::primop_variadic(m, sh, loc, f, args, info),
            run::primop_variadic(machine_given(m, more), sh, loc, f, args, info),
            more,
        ),
{
    lemma_eval_all(m.world(), sh, args, 0, seq![], info, more);
    let (m1, r) = run::eval_all_in(m, sh, args, info);
    if let Ok(vals) = r {
        let request = RequestView::PrimopVariadic(f, vals, m1.frame);
        lemma_ask_stepped(m1, request, info, more);
        let (m2, r) = special::ask_stepped(m1, request, info);
        if let Ok(v) = r {
            lemma_finish(m2, sh, loc, v, info, more);
        }
    }
}

proof fn lemma_call(
    m: Machine,
    sh: SharedState,
    cx: Context,
    loc: Loc,
    f: Name,
    args: Seq<Exp>,
    info: SourceLoc,
    more: Seq<ReplyView>,
)
    ensures
        effect_replays(
            m,
            run::call(m, sh, cx, loc, f, args, info),
            run::call(machine_given(m, more), sh, cx, loc, f, args, info),
            more,
        ),
{
    if sh.functions@.dom().contains(f) {
        lemma_eval_all(m.world(), sh, args, 0, seq![], info, more);
        let (m1, r) = run::eval_all_in(m, sh, args, info);
        if let Ok(vals) = r {
            lemma_call_with(m1, sh, cx, loc, f, sh.functions@[f], vals, info, more);
        }
    } else {
        lemma_special(m, sh, cx.task_state@, loc, f, args, info, more);
    }
}

proof fn lemma_execute(
    m: Machine,
    sh: SharedState,
    cx: Context,
    instr: Instr,
    more: Seq<ReplyView>,
)
    ensures
        effect_replays(
            m,
            run::execute(m, sh, cx, instr),
            run::execute(machine_given(m, more), sh, cx, instr),
            more,
        ),
{
    match instr {
        Instr::Init(_, _, exp, info) => lemma_eval(m.world(), sh, exp, seq![], info, more),
        Instr::Jump(exp, target, info) => lemma_jump(m, sh, cx, exp, target, info, more),
        Instr::Copy(loc, exp, info) => {
            lemma_eval(m.world(), sh, exp, seq![], info, more);
            let (m1, r) = run::eval_in(m, sh, exp, info);
            if let Ok(v) = r {
                lemma_finish(m1, sh, loc, v, info, more);
            }
        },
        Instr::PrimopUnary(loc, f, arg, info) => {
            lemma_primop_unary(m, sh, loc, f, arg, info, more);
        },
        Instr::PrimopBinary(loc, f, arg1, arg2, info) => {
            lemma_primop_binary(m, sh, loc, f, arg1, arg2, info, more);
        },
        Instr::PrimopVariadic(loc, f, args, info) => {
            lemma_primop_variadic(m, sh, loc, f, args@, info, more);
        },
        Instr::Call(loc, _, f, args, info) => lemma_call(m, sh, cx, loc, f, args@, info, more),
        Instr::End => lemma_end(m, sh, more),
        Instr::Monomorphize(id, info) => lemma_monomorphize(m, sh, cx, id, info, more),
        Instr::Arbitrary => lemma_return_value(m, sh, Val::Poison, more),
        _ => {},
    }
}

proof fn lemma_step(m: Machine, sh: SharedState, cx: Context, more: Seq<ReplyView>)
    ensures
        effect_replays(
            m,
            run::step(m, sh, cx),
            run::step(machine_given(m, more), sh, cx),
            more,
        ),
{
    if m.frame.pc < m.frame.instrs@.len() {
        lemma_ask(m.solver, RequestView::Elapsed, SourceLoc::Unknown, more);
        let (s, r) = run::check_time(m.solver, cx.timeout);
        if r is Ok {
            let m1 = Machine { solver: s, ..m };
            lemma_execute(m1, sh, cx, m.frame.instrs@[m.frame.pc as int], more);
        }
    }
}

proof fn lemma_run_steps(
    fuel: nat,
    m: Machine,
    sh: SharedState,
    cx: Context,
    spawned: Seq<TaskView>,
    more: Seq<ReplyView>,
)
    ensures
        ({
            let p = run::run_steps(fuel, m, sh, cx, spawned);
            let again = run::run_steps(fuel, machine_given(m, more), sh, cx, spawned);
            let stuck = p.result == Some(Err::<Val, ExecError>(ExecError::Pending));
            &&& grows(m.solver, p.machine.solver)
            &&& !stuck ==> again == (Progress {
                machine: machine_given(p.machine, more),
                ..p
            })
            &&& stuck && decided(m.solver.replies) ==> waits(p.machine.solver)
        }),
    decreases fuel,
{
    if fuel > 0 {
        lemma_step(m, sh, cx, more);
        let effect = run::step(m, sh, cx);
        if effect.result matches Ok(Flow::Next) {
            let spawned = spawned + effect.spawned;
            lemma_run_steps((fuel - 1) as nat, effect.machine, sh, cx, spawned, more);
        }
    }
}

/// A path only ever grows. The events on it stay in their places, the
/// requests that were made on it stay in theirs, the symbols that were free
/// are not used before the next free one, and the replies do not change.
pub proof fn law_path_grows(
    fuel: nat,
    m: Machine,
    sh: SharedState,
    cx: Context,
    spawned: Seq<TaskView>,
)
    ensures
        grows(m.solver, run::run_steps(fuel, m, sh, cx, spawned).machine.solver),
{
    lemma_run_steps(fuel, m, sh, cx, spawned, seq![]);
}

/// More replies do not change a path that does not lack one: it ends with the
/// same result in the same state, and the same paths have branched off.
pub proof fn law_more_replies(
    fuel: nat,
    m: Machine,
    sh: SharedState,
    cx: Context,
    spawned: Seq<TaskView>,
    more: Seq<ReplyView>,
)
    requires
        run::run_steps(fuel, m, sh, cx, spawned).result != Some(
            Err::<Val, ExecError>(ExecError::Pending),
        ),
    ensures
        ({
            let p = run::run_steps(fuel, m, sh, cx, spawned);
            run::run_steps(fuel, machine_given(m, more), sh, cx, spawned) == Progress {
                machine: machine_given(p.machine, more),
                ..p
            }
        }),
{
    lemma_run_steps(fuel, m, sh, cx, spawned, more);
}

/// A path that lacks a reply has asked for it: there is a request at the
/// position that follows the last reply.
pub proof fn law_pending_has_asked(
    fuel: nat,
    m: Machine,
    sh: SharedState,
    cx: Context,
    spawned: Seq<TaskView>,
)
    requires
        decided(m.solver.replies),
        run::run_steps(fuel, m, sh, cx, spawned).result == Some(
            Err::<Val, ExecError>(ExecError::Pending),
        ),
    ensures
        ({
            let end = run::run_steps(fuel, m, sh, cx, spawned).machine.solver;
            m.solver.replies.len() < end.asked.len()
        }),
{
    lemma_run_steps(fuel, m, sh, cx, spawned, seq![]);
}

/// A task that is executed again with more replies repeats its path, unless
/// that path lacked a reply.
pub proof fn law_task_repeats(
    task: super::task::Task,
    replies: Seq<ReplyView>,
    more: Seq<ReplyView>,
    timeout: Option<u64>,
    sh: SharedState,
    fuel: nat,
)
    requires
        explore::progress_of(task, replies, timeout, sh, fuel).result != Some(
            Err::<Val, ExecError>(ExecError::Pending),
        ),
    ensures
        ({
            let p = explore::progress_of(task, replies, timeout, sh, fuel);
            explore::progress_of(task, replies + more, timeout, sh, fuel) == Progress {
                machine: machine_given(p.machine, more),
                ..p
            }
        }),
{
    let cx = explore::context_of(task, timeout);
    law_more_replies(fuel, explore::start_of(task@, replies), sh, cx, seq![], more);
}

} // verus!
