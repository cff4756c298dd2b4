//! What the instructions of a program are for.

use super::assign;
use super::call;
use super::error::ExecError;
use super::eval;
use super::explore;
use super::frame::{self, FrameView};
use super::ir::{Exp, ExitCause, Function, Instr, Loc, Op, Primop, SharedState, SourceLoc, Ty, UVal, Val, RETURN};
use super::laws;
use super::names::Name;
use super::prefix;
use super::replay;
use super::reset::Machine;
use super::run::{self, Context, Effect, Flow};
use super::solver::{self, Accessor, AnswerView, EventView, ReplyView, RequestView, SmtResult, SolverView};
use super::special;
use super::state::{self, LocalView, World};
use super::stop::StopAction;
use crate::bitvector::B64;
use crate::smt::literal;
use crate::smt::semantics::{self, Interp, Value};
use crate::smt::smtlib::Sym;
use crate::smt::tree;
use vstd::prelude::*;

verus! {

/// What a place holds.
pub open spec fn held(m: Machine, sh: SharedState, loc: Loc, info: SourceLoc) -> Result<
    Val,
    ExecError,
> {
    state::read_loc(m.world(), sh, loc, seq![], info, false).1
}

/// Whether an instruction has been carried out, and the next one follows.
pub open spec fn moves_on(m: Machine, effect: Effect) -> bool {
    &&& effect.result matches Ok(Flow::Next)
    &&& effect.machine.frame.pc == m.frame.pc + 1
}

/// A literal has itself as its value, whatever the state, and changes
/// nothing.
pub proof fn law_literals_mean_themselves(
    w: World,
    sh: SharedState,
    accessor: Seq<Accessor>,
    info: SourceLoc,
    n: i64,
    k: i128,
    b: bool,
    bits: B64,
    s: String,
    reg: Name,
)
    requires
        bits@.len() <= 64,
    ensures
        eval::eval(w, sh, Exp::I64(n), accessor, info) == (w, Ok::<Val, ExecError>(Val::I64(n))),
        eval::eval(w, sh, Exp::I128(k), accessor, info) == (w, Ok::<Val, ExecError>(Val::I128(k))),
        eval::eval(w, sh, Exp::Bool(b), accessor, info) == (w, Ok::<Val, ExecError>(Val::Bool(b))),
        eval::eval(w, sh, Exp::Unit, accessor, info) == (w, Ok::<Val, ExecError>(Val::Unit)),
        eval::eval(w, sh, Exp::Ref(reg), accessor, info) == (w, Ok::<Val, ExecError>(Val::Ref(reg))),
        eval::eval(w, sh, Exp::String(s), accessor, info) == (
            w,
            Ok::<Val, ExecError>(Val::String(s)),
        ),
        ({
            let (after, r) = eval::eval(w, sh, Exp::Bits(bits), accessor, info);
            &&& after == w
            &&& r matches Ok(Val::Bits(c)) && c@ == bits@
        }),
{
    B64::lemma_of(bits@);
}

/// A value that is not determined is one that is asked for, of the type that
/// is given.
pub proof fn law_undefined_is_asked_for(
    w: World,
    sh: SharedState,
    ty: Ty,
    accessor: Seq<Accessor>,
    info: SourceLoc,
)
    ensures
        ({
            let (after, r) = eval::eval(w, sh, Exp::Undefined(ty), accessor, info);
            &&& after.local == w.local
            &&& after.solver.asked.len() == w.solver.asked.len() + 1
            &&& after.solver.asked.last().request == RequestView::Symbolic(ty)
            &&& r matches Ok(v) ==> w.solver.asked.len() < w.solver.replies.len()
                && w.solver.replies[w.solver.asked.len() as int].answer == AnswerView::Val(v)
        }),
{
}

proof fn lemma_eval_all_from(
    w: World,
    sh: SharedState,
    exps: Seq<Exp>,
    j: int,
    done: Seq<Val>,
    info: SourceLoc,
    start: World,
)
    requires
        0 <= j <= exps.len(),
        done.len() == j,
        eval::eval_all(start, sh, exps.take(j), 0, seq![], info) == (
            w,
            Ok::<Seq<Val>, ExecError>(done),
        ),
        eval::eval_all(w, sh, exps, j, done, info).1 is Ok,
    ensures
        ({
            let vals = eval::eval_all(w, sh, exps, j, done, info).1->Ok_0;
            &&& vals.len() == exps.len()
            &&& vals.take(j) == done
            &&& forall|k: int|
                j <= k < exps.len() ==> {
                    let (before, r) = eval::eval_all(
                        start,
                        sh,
                        #[trigger] exps.take(k),
                        0,
                        seq![],
                        info,
                    );
                    &&& r is Ok
                    &&& eval::eval(before, sh, exps[k], seq![], info).1 == Ok::<Val, ExecError>(
                        vals[k],
                    )
                }
        }),
    decreases exps.len() - j,
{
    if j < exps.len() {
        let (w1, r) = eval::eval(w, sh, exps[j], seq![], info);
        let v = r->Ok_0;
        lemma_eval_all_extend(start, sh, exps.take(j), exps[j], 0, seq![], info);
        assert(exps.take(j).push(exps[j]) =~= exps.take(j + 1));
        lemma_eval_all_from(w1, sh, exps, j + 1, done.push(v), info, start);
        let vals = eval::eval_all(w, sh, exps, j, done, info).1->Ok_0;
        assert(vals[j] == vals.take(j + 1)[j]);
        assert(vals.take(j) =~= vals.take(j + 1).take(j));
        assert(done.push(v).take(j) =~= done);
    } else {
        assert(done.take(j) =~= done);
    }
}

/// Evaluating one more expression evaluates the others first.
proof fn lemma_eval_all_extend(
    w: World,
    sh: SharedState,
    exps: Seq<Exp>,
    last: Exp,
    j: int,
    done: Seq<Val>,
    info: SourceLoc,
)
    requires
        0 <= j <= exps.len(),
        eval::eval_all(w, sh, exps, j, done, info).1 is Ok,
    ensures
        ({
            let (before, r) = eval::eval_all(w, sh, exps, j, done, info);
            let (after, v) = eval::eval(before, sh, last, seq![], info);
            v is Ok ==> eval::eval_all(w, sh, exps.push(last), j, done, info) == (
                after,
                Ok::<Seq<Val>, ExecError>(r->Ok_0.push(v->Ok_0)),
            )
        }),
    decreases exps.len() - j,
{
    let more = exps.push(last);
    if j < exps.len() {
        let (w1, r) = eval::eval(w, sh, exps[j], seq![], info);
        assert(more[j] == exps[j]);
        lemma_eval_all_extend(w1, sh, exps, last, j + 1, done.push(r->Ok_0), info);
    } else {
        let (w1, v) = eval::eval(w, sh, last, seq![], info);
        if let Ok(v) = v {
            assert(eval::eval_all(w1, sh, more, j + 1, done.push(v), info) == (
                w1,
                Ok::<Seq<Val>, ExecError>(done.push(v)),
            ));
        }
    }
}

/// The arguments of a call are evaluated from left to right, and each value
/// stands where its expression stands.
pub proof fn law_arguments_in_order(w: World, sh: SharedState, exps: Seq<Exp>, info: SourceLoc)
    requires
        eval::eval_all(w, sh, exps, 0, seq![], info).1 is Ok,
    ensures
        ({
            let vals = eval::eval_all(w, sh, exps, 0, seq![], info).1->Ok_0;
            &&& vals.len() == exps.len()
            &&& forall|k: int|
                0 <= k < exps.len() ==> {
                    let (before, r) = eval::eval_all(w, sh, #[trigger] exps.take(k), 0, seq![], info);
                    &&& r is Ok
                    &&& eval::eval(before, sh, exps[k], seq![], info).1 == Ok::<Val, ExecError>(
                        vals[k],
                    )
                }
        }),
{
    assert(exps.take(0) =~= seq![]);
    lemma_eval_all_from(w, sh, exps, 0, seq![], info, w);
}

/// Whether a primitive operation has been asked for on exactly these values,
/// as the request with the given number.
pub open spec fn asked_for(s: SolverView, n: nat, f: Primop, args: Seq<Val>) -> bool {
    &&& n < s.asked.len()
    &&& s.asked[n as int].request == RequestView::Primop(f, args)
}

/// What a primitive operation has been asked for stays asked for.
proof fn lemma_primop_asks(
    m: Machine,
    sh: SharedState,
    loc: Loc,
    f: Primop,
    args: Seq<Val>,
    info: SourceLoc,
)
    ensures
        asked_for(
            run::primop(m, sh, loc, f, args, info).machine.solver,
            m.solver.asked.len(),
            f,
            args,
        ),
{
    let (s, r) = m.solver.ask_val(RequestView::Primop(f, args), info);
    let n = m.solver.asked.len();
    assert(s.asked[n as int].request == RequestView::Primop(f, args));
    if let Ok(v) = r {
        replay::lemma_finish(Machine { solver: s, ..m }, sh, loc, v, info, seq![]);
        reveal(prefix::starts);
    }
}

/// A unary primitive instruction asks for its operation on the value of its
/// operand.
pub proof fn law_unary_operand(
    m: Machine,
    sh: SharedState,
    cx: Context,
    loc: Loc,
    f: Primop,
    arg: Exp,
    info: SourceLoc,
)
    requires
        run::eval_in(m, sh, arg, info).1 is Ok,
    ensures
        ({
            let (before, v) = run::eval_in(m, sh, arg, info);
            asked_for(
                run::execute(m, sh, cx, Instr::PrimopUnary(loc, f, arg, info)).machine.solver,
                before.solver.asked.len(),
                f,
                seq![v->Ok_0],
            )
        }),
{
    let (before, v) = run::eval_in(m, sh, arg, info);
    lemma_primop_asks(before, sh, loc, f, seq![v->Ok_0], info);
}

/// A binary primitive instruction asks for its operation on exactly two
/// values: first the one of its first operand, then the one of its second
/// operand, which is evaluated after the first.
pub proof fn law_binary_operands(
    m: Machine,
    sh: SharedState,
    cx: Context,
    loc: Loc,
    f: Primop,
    arg1: Exp,
    arg2: Exp,
    info: SourceLoc,
)
    requires
        run::eval_in(m, sh, arg1, info).1 is Ok,
        run::eval_in(run::eval_in(m, sh, arg1, info).0, sh, arg2, info).1 is Ok,
    ensures
        ({
            let (between, a) = run::eval_in(m, sh, arg1, info);
            let (before, b) = run::eval_in(between, sh, arg2, info);
            let asked = run::execute(
                m,
                sh,
                cx,
                Instr::PrimopBinary(loc, f, arg1, arg2, info),
            ).machine.solver.asked;
            let n = before.solver.asked.len() as int;
            &&& n < asked.len()
            &&& asked[n].request matches RequestView::Primop(g, args) && g == f && args.len() == 2
                && args[0] == a->Ok_0 && args[1] == b->Ok_0
        }),
{
    let (between, a) = run::eval_in(m, sh, arg1, info);
    let (before, b) = run::eval_in(between, sh, arg2, info);
    lemma_primop_asks(before, sh, loc, f, seq![a->Ok_0, b->Ok_0], info);
}

/// On two numbers that are written out, a binary primitive instruction asks
/// for its operation on these numbers in the order in which they are written.
pub proof fn law_binary_literals(
    m: Machine,
    sh: SharedState,
    cx: Context,
    loc: Loc,
    f: Primop,
    a: i64,
    b: i64,
    info: SourceLoc,
)
    ensures
        asked_for(
            run::execute(
                m,
                sh,
                cx,
                Instr::PrimopBinary(loc, f, Exp::I64(a), Exp::I64(b), info),
            ).machine.solver,
            m.solver.asked.len(),
            f,
            seq![Val::I64(a), Val::I64(b)],
        ),
{
    lemma_primop_asks(m, sh, loc, f, seq![Val::I64(a), Val::I64(b)], info);
}

/// A variadic primitive instruction asks for its operation on the values of
/// its operands and on the frame as it is then.
pub proof fn law_variadic_operands(
    m: Machine,
    sh: SharedState,
    cx: Context,
    loc: Loc,
    f: Primop,
    args: Vec<Exp>,
    info: SourceLoc,
)
    requires
        run::eval_all_in(m, sh, args@, info).1 is Ok,
    ensures
        ({
            let (before, vals) = run::eval_all_in(m, sh, args@, info);
            let asked = run::execute(
                m,
                sh,
                cx,
                Instr::PrimopVariadic(loc, f, args, info),
            ).machine.solver.asked;
            let n = before.solver.asked.len() as int;
            &&& n < asked.len()
            &&& asked[n].request == RequestView::PrimopVariadic(f, vals->Ok_0, before.frame)
        }),
{
    let (before, vals) = run::eval_all_in(m, sh, args@, info);
    let request = RequestView::PrimopVariadic(f, vals->Ok_0, before.frame);
    let (after, r) = special::ask_stepped(before, request, info);
    assert(after.solver.asked[before.solver.asked.len() as int].request == request);
    if let Ok(v) = r {
        replay::lemma_finish(after, sh, loc, v, info, seq![]);
        reveal(prefix::starts);
    }
}

/// An operator in an expression is asked for on the values of its operands,
/// in their order.
pub proof fn law_operator_operands(
    w: World,
    sh: SharedState,
    op: Op,
    args: Vec<Exp>,
    accessor: Seq<Accessor>,
    info: SourceLoc,
)
    requires
        eval::eval_all(w, sh, args@, 0, seq![], info).1 is Ok,
        args@.len() == op.spec_arity(),
    ensures
        ({
            let (before, vals) = eval::eval_all(w, sh, args@, 0, seq![], info);
            let (after, r) = eval::eval(w, sh, Exp::Call(op, args), accessor, info);
            &&& after.solver.asked.len() == before.solver.asked.len() + 1
            &&& after.solver.asked.last().request == RequestView::Op(op, vals->Ok_0)
            &&& r matches Ok(v) ==> before.solver.replies[before.solver.asked.len() as int].answer
                == AnswerView::Val(v)
        }),
{
    let (before, vals) = eval::eval_all(w, sh, args@, 0, seq![], info);
    law_arguments_in_order(w, sh, args@, info);
    assert(vals->Ok_0.take(args@.len() as int) =~= vals->Ok_0);
}

/// The operators on one operand are those that look at a single value; to set
/// a slice takes three; all others compare or combine two values.
pub proof fn law_operator_arities(op: Op)
    ensures
        1 <= op.spec_arity() <= 3,
        op.spec_arity() == 1 <==> (op == Op::Not || op == Op::Bvnot || op is Signed || op is Unsigned
            || op is ZeroExtend || op == Op::Head || op == Op::Tail || op == Op::IsEmpty),
        op.spec_arity() == 3 <==> op == Op::SetSlice,
{
}

/// What is assigned is held, and the next instruction follows.
proof fn lemma_finish_holds(
    m: Machine,
    sh: SharedState,
    loc: Loc,
    v: Val,
    info: SourceLoc,
    read_info: SourceLoc,
)
    requires
        laws::is_direct(loc),
        laws::is_unambiguous(m.frame.local, loc.base()),
        special::finish(m, sh, loc, v, info).1 is Ok,
    ensures
        held(special::finish(m, sh, loc, v, info).0, sh, loc, read_info) == Ok::<Val, ExecError>(v),
{
    laws::law_read_after_assign(
        m.world(),
        sh,
        loc,
        v,
        seq![],
        info,
        seq![],
        read_info,
        false,
    );
    let (w, _) = assign::assigned(m.world(), sh, loc, v, seq![], info);
    assert(special::finish(m, sh, loc, v, info).0.world() == w);
}

/// A place that a value is copied to holds that value afterwards. A variable
/// or register can always be copied to.
pub proof fn law_copy_then_read(
    m: Machine,
    sh: SharedState,
    cx: Context,
    loc: Loc,
    exp: Exp,
    info: SourceLoc,
    read_info: SourceLoc,
)
    requires
        m.frame.pc < usize::MAX,
        laws::is_direct(loc),
        run::eval_in(m, sh, exp, info).1 is Ok,
        laws::is_unambiguous(run::eval_in(m, sh, exp, info).0.frame.local, loc.base()),
    ensures
        ({
            let v = run::eval_in(m, sh, exp, info).1;
            let effect = run::execute(m, sh, cx, Instr::Copy(loc, exp, info));
            &&& loc is Id ==> effect.result is Ok
            &&& effect.result is Ok ==> {
                &&& moves_on(m, effect)
                &&& held(effect.machine, sh, loc, read_info) == v
            }
        }),
{
    let (before, v) = run::eval_in(m, sh, exp, info);
    if special::finish(before, sh, loc, v->Ok_0, info).1 is Ok {
        lemma_finish_holds(before, sh, loc, v->Ok_0, info, read_info);
    }
}

/// A variable that is declared with a value holds that value afterwards, and
/// everything else holds what it held before.
pub proof fn law_init_then_read(
    m: Machine,
    sh: SharedState,
    cx: Context,
    id: Name,
    ty: Ty,
    exp: Exp,
    info: SourceLoc,
    read_info: SourceLoc,
)
    requires
        m.frame.pc < usize::MAX,
        run::eval_in(m, sh, exp, info).1 is Ok,
    ensures
        ({
            let (before, v) = run::eval_in(m, sh, exp, info);
            let effect = run::execute(m, sh, cx, Instr::Init(id, ty, exp, info));
            &&& moves_on(m, effect)
            &&& held(effect.machine, sh, Loc::Id(id), read_info) == v
            &&& effect.machine.solver == before.solver
            &&& forall|other: Name|
                other != id ==> #[trigger] laws::same_at(
                    before.frame.local,
                    effect.machine.frame.local,
                    other,
                )
        }),
{
}

/// A variable that is declared without a value gets one of its type when it
/// is first read, and until then nothing is asked for. Everything else holds
/// what it held before.
pub proof fn law_decl_then_read(
    m: Machine,
    sh: SharedState,
    cx: Context,
    id: Name,
    ty: Ty,
    info: SourceLoc,
    read_info: SourceLoc,
)
    requires
        m.frame.pc < usize::MAX,
    ensures
        ({
            let effect = run::execute(m, sh, cx, Instr::Decl(id, ty, info));
            let (after, r) = run::eval_in(effect.machine, sh, Exp::Id(id), read_info);
            &&& moves_on(m, effect)
            &&& effect.machine.solver == m.solver
            &&& after.solver.asked.len() == m.solver.asked.len() + 1
            &&& after.solver.asked.last().request == RequestView::Symbolic(ty)
            &&& forall|other: Name|
                other != id ==> #[trigger] laws::same_at(
                    m.frame.local,
                    effect.machine.frame.local,
                    other,
                )
        }),
{
}

/// What a unary or a binary primitive operation gives back goes to the place
/// that the instruction names, and the next instruction follows.
pub proof fn law_primop_result(
    m: Machine,
    sh: SharedState,
    cx: Context,
    loc: Loc,
    f: Primop,
    arg1: Exp,
    arg2: Exp,
    info: SourceLoc,
    read_info: SourceLoc,
)
    requires
        m.frame.pc < usize::MAX,
        laws::is_direct(loc),
    ensures
        ({
            let (before, a) = run::eval_in(m, sh, arg1, info);
            let effect = run::execute(m, sh, cx, Instr::PrimopUnary(loc, f, arg1, info));
            effect.result is Ok && laws::is_unambiguous(before.frame.local, loc.base()) ==> {
                let n = before.solver.asked.len() as int;
                &&& moves_on(m, effect)
                &&& n < m.solver.replies.len()
                &&& m.solver.replies[n].answer matches AnswerView::Val(v) && held(
                    effect.machine,
                    sh,
                    loc,
                    read_info,
                ) == Ok::<Val, ExecError>(v)
            }
        }),
        ({
            let (between, a) = run::eval_in(m, sh, arg1, info);
            let (before, b) = run::eval_in(between, sh, arg2, info);
            let effect = run::execute(m, sh, cx, Instr::PrimopBinary(loc, f, arg1, arg2, info));
            effect.result is Ok && laws::is_unambiguous(before.frame.local, loc.base()) ==> {
                let n = before.solver.asked.len() as int;
                &&& moves_on(m, effect)
                &&& n < m.solver.replies.len()
                &&& m.solver.replies[n].answer matches AnswerView::Val(v) && held(
                    effect.machine,
                    sh,
                    loc,
                    read_info,
                ) == Ok::<Val, ExecError>(v)
            }
        }),
{
    let (between, a) = run::eval_in(m, sh, arg1, info);
    let (before, b) = run::eval_in(between, sh, arg2, info);
    replay::lemma_eval(m.world(), sh, arg1, seq![], info, seq![]);
    replay::lemma_eval(between.world(), sh, arg2, seq![], info, seq![]);
    if let Ok(a) = a {
        lemma_primop_holds(between, sh, loc, f, seq![a], info, read_info);
        if let Ok(b) = b {
            lemma_primop_holds(before, sh, loc, f, seq![a, b], info, read_info);
        }
    }
}

proof fn lemma_primop_holds(
    m: Machine,
    sh: SharedState,
    loc: Loc,
    f: Primop,
    args: Seq<Val>,
    info: SourceLoc,
    read_info: SourceLoc,
)
    requires
        m.frame.pc < usize::MAX,
        laws::is_direct(loc),
    ensures
        ({
            let effect = run::primop(m, sh, loc, f, args, info);
            effect.result is Ok && laws::is_unambiguous(m.frame.local, loc.base()) ==> {
                let n = m.solver.asked.len() as int;
                &&& moves_on(m, effect)
                &&& n < m.solver.replies.len()
                &&& m.solver.replies[n].answer matches AnswerView::Val(v) && held(
                    effect.machine,
                    sh,
                    loc,
                    read_info,
                ) == Ok::<Val, ExecError>(v)
            }
        }),
{
    let (s, r) = m.solver.ask_val(RequestView::Primop(f, args), info);
    if r is Ok && laws::is_unambiguous(m.frame.local, loc.base()) {
        let after = Machine { solver: s, ..m };
        if special::finish(after, sh, loc, r->Ok_0, info).1 is Ok {
            lemma_finish_holds(after, sh, loc, r->Ok_0, info, read_info);
        }
    }
}

/// An unconditional jump changes where execution goes on, and nothing else.
pub proof fn law_goto_only_moves(m: Machine, sh: SharedState, cx: Context, target: usize)
    ensures
        ({
            let effect = run::execute(m, sh, cx, Instr::Goto(target));
            &&& effect.result matches Ok(Flow::Next)
            &&& effect.spawned.len() == 0
            &&& effect.machine.solver == m.solver
            &&& effect.machine.frame.pc == target
            &&& effect.machine.frame == FrameView { pc: target, ..m.frame }
        }),
{
}

/// Whether an interpretation is not excluded by a verdict of the solver: no
/// expression that it makes true has been found to be impossible.
pub open spec fn not_excluded(interp: Interp<Sym>, s: SolverView) -> bool {
    forall|k: int|
        0 <= k < s.asked.len() && k < s.replies.len() && (#[trigger] s.asked[k]).request
            is CheckSatWith && s.replies[k].answer == AnswerView::Sat(SmtResult::Unsat)
            ==> !laws::holds(interp, s.asked[k].request->CheckSatWith_0)
}

/// A jump on a condition that is known goes to its target if the condition is
/// true, and to the next instruction if it is false.
pub proof fn law_jump_on_known_condition(
    m: Machine,
    sh: SharedState,
    cx: Context,
    exp: Exp,
    target: usize,
    info: SourceLoc,
    b: bool,
)
    requires
        m.frame.pc < usize::MAX,
        run::eval_in(m, sh, exp, info).1 == Ok::<Val, ExecError>(Val::Bool(b)),
    ensures
        ({
            let effect = run::execute(m, sh, cx, Instr::Jump(exp, target, info));
            &&& effect.result matches Ok(Flow::Next)
            &&& effect.spawned.len() == 0
            &&& effect.machine.solver == run::eval_in(m, sh, exp, info).0.solver
            &&& b ==> effect.machine.frame.pc == target
            &&& !b ==> effect.machine.frame.pc == m.frame.pc + 1
        }),
{
}

/// Where a jump with the given target leads if its condition is true or
/// false.
pub open spec fn destination(m: Machine, target: usize, condition: bool) -> int {
    if condition {
        target as int
    } else {
        m.frame.pc + 1
    }
}

/// A jump on a symbolic condition takes the jump on paths where the condition
/// is true, and only there; and whatever the symbols stand for, as long as the
/// solver is right, there is a path for it: the one that goes on, or the one
/// that branches off. The new path belongs to the same task.
pub proof fn law_jump_on_symbolic_condition(
    m: Machine,
    sh: SharedState,
    cx: Context,
    exp: Exp,
    target: usize,
    info: SourceLoc,
    v: Sym,
    replies: Seq<ReplyView>,
    interp: Interp<Sym>,
    condition: bool,
)
    requires
        m.frame.pc < usize::MAX,
        run::eval_in(m, sh, exp, info).1 == Ok::<Val, ExecError>(Val::Symbolic(v)),
        run::execute(m, sh, cx, Instr::Jump(exp, target, info)).result is Ok,
        (interp.var)(v) == Value::Bool(condition),
    ensures
        ({
            let effect = run::execute(m, sh, cx, Instr::Jump(exp, target, info));
            let here = laws::last_assertion(effect.machine.solver.trace);
            let other = effect.spawned[0];
            let there = laws::last_assertion(explore::start_of(other, replies).solver.trace);
            let forked = effect.spawned.len() > 0;
            &&& effect.spawned.len() <= 1
            &&& laws::holds(interp, here) ==> effect.machine.frame.pc == destination(
                m,
                target,
                condition,
            )
            &&& forked ==> {
                &&& laws::holds(interp, there) ==> other.frame.pc == destination(
                    m,
                    target,
                    condition,
                )
                &&& other.id == cx.task_id
                &&& other.state == cx.task_state@
            }
            &&& not_excluded(interp, effect.machine.solver) ==> laws::holds(interp, here) || (forked
                && laws::holds(interp, there))
        }),
{
    let before = run::eval_in(m, sh, exp, info).0;
    let effect = run::branch(before, cx, v, target, info);
    let yes = solver::var(v);
    let no = solver::unary(tree::Op::Not, solver::var(v));
    reveal_with_fuel(semantics::denote, 3);
    reveal_with_fuel(semantics::denote_all, 3);
    assert(semantics::denote_all(interp, seq![yes])[0] == (interp.var)(v));
    assert(laws::holds(interp, yes) == condition);
    assert(laws::holds(interp, no) == !condition);
    let n = before.solver.asked.len() as int;
    assert(effect.machine.solver.asked[n].request == RequestView::CheckSatWith(yes));
    assert(effect.machine.solver.asked[n + 1].request == RequestView::CheckSatWith(no));
}

/// Whether the words that a model is told in have no more bits than a word
/// has.
pub open spec fn words_fit(replies: Seq<ReplyView>) -> bool {
    forall|k: int|
        0 <= k < replies.len() ==> ((#[trigger] replies[k]).answer matches AnswerView::Model(
            Some(solver::SymbolValue::Bits(b)),
        ) ==> b@.len() <= 64)
}

/// A path that splits on a value goes on with a value that its symbol has on
/// it: the place that was symbolic holds then what the symbol stands for. The
/// path that branches off tries the same instruction again, with all that the
/// symbol can stand for except that value.
pub proof fn law_monomorphized_value(
    m: Machine,
    sh: SharedState,
    cx: Context,
    id: Name,
    info: SourceLoc,
    read_info: SourceLoc,
    replies: Seq<ReplyView>,
    interp: Interp<Sym>,
    v: Sym,
)
    requires
        m.frame.pc < usize::MAX,
        state::read_id(m.world(), sh, id, seq![], info, false).1 == Ok::<Val, ExecError>(
            Val::Symbolic(v),
        ),
        laws::is_unambiguous(
            state::read_id(m.world(), sh, id, seq![], info, false).0.local,
            id,
        ),
        run::execute(m, sh, cx, Instr::Monomorphize(id, info)).result is Ok,
        words_fit(m.solver.replies),
    ensures
        ({
            let effect = run::execute(m, sh, cx, Instr::Monomorphize(id, info));
            let other = effect.spawned[0];
            let value = held(effect.machine, sh, Loc::Id(id), read_info);
            let there = explore::start_of(other, replies);
            &&& moves_on(m, effect)
            &&& value matches Ok(Val::Bits(b)) && {
                &&& laws::takes_path(interp, effect.machine.solver.trace) ==> (interp.var)(v)
                    == Value::Bits(b@)
                &&& laws::takes_path(interp, there.solver.trace) ==> (interp.var)(v)
                    != Value::Bits(b@)
                &&& (interp.var)(v) != Value::Bits(b@) ==> laws::holds(
                    interp,
                    laws::last_assertion(there.solver.trace),
                )
            }
            &&& effect.spawned.len() == 1
            &&& other.frame.pc == m.frame.pc
            &&& held(there, sh, Loc::Id(id), read_info) == Ok::<Val, ExecError>(Val::Symbolic(v))
            &&& other.id == cx.task_id
            &&& other.state == cx.task_state@
        }),
{
    broadcast use prefix::group_prefix;

    let effect = run::monomorphize(m, sh, cx, id, info);
    let (w, r) = state::read_id(m.world(), sh, id, seq![], info, false);
    let m1 = m.with_world(w);
    let (s, b) = run::possible_value(m1.solver, v, info);
    let bits = b->Ok_0;
    let constant = tree::leaf::<Sym>(literal::bits_op(bits));
    let equal = solver::binary(tree::Op::Eq, solver::var(v), constant);
    let differs = solver::binary(tree::Op::Neq, solver::var(v), constant);
    let n = m1.frame.forks;
    let asserted = s.record(EventView::Fork(n, v, 0, info)).assert_exp(equal);
    let forked = Machine {
        frame: FrameView { forks: (n + 1) as u32, ..m1.frame },
        solver: asserted,
    };
    let value = Val::Bits(B64::of(bits));
    replay::lemma_read_loc(m.world(), sh, Loc::Id(id), seq![], info, false, seq![]);
    lemma_possible_value_fits(m1.solver, v, info);
    B64::lemma_of(bits);
    replay::lemma_finish(forked, sh, Loc::Id(id), value, info, seq![]);
    lemma_finish_holds(forked, sh, Loc::Id(id), value, info, read_info);
    reveal_with_fuel(semantics::denote, 3);
    reveal_with_fuel(semantics::denote_all, 3);
    let vals = semantics::denote_all(interp, seq![solver::var(v), constant]);
    assert(vals[0] == (interp.var)(v));
    assert(vals[1] == Value::Bits(bits));
    assert(semantics::denote(interp, equal) == Value::Bool(vals[0] == vals[1]));
    assert(semantics::denote(interp, differs) == Value::Bool(vals[0] != vals[1]));
    let here = effect.machine.solver.trace;
    let i = asserted.trace.len() - 1;
    assert(here[i] == asserted.trace[i]) by {
        reveal(prefix::starts);
    }
    if laws::takes_path(interp, here) {
        assert(laws::agrees_with(interp, here[i]));
    }
    let there = explore::start_of(effect.spawned[0], replies).solver.trace;
    assert(there.last() == EventView::Smt(
        solver::DefView::Assert(differs),
        solver::DefAttrs { uninteresting: false },
        SourceLoc::Unknown,
    ));
    if laws::takes_path(interp, there) {
        assert(laws::agrees_with(interp, there[there.len() - 1]));
    }
}

/// A possible value fits in a word.
proof fn lemma_possible_value_fits(s: SolverView, v: Sym, info: SourceLoc)
    requires
        words_fit(s.replies),
    ensures
        run::possible_value(s, v, info).1 matches Ok(bits) ==> bits.len() <= 64,
{
}

/// Each parameter is bound to the argument at its position.
proof fn lemma_bind_args(
    m: Map<Name, UVal>,
    params: Seq<(Name, Ty)>,
    vals: Seq<Val>,
    j: int,
    i: int,
)
    requires
        0 <= j,
        forall|a: int, b: int|
            0 <= a < b < params.len() ==> (#[trigger] params[a]).0 != (#[trigger] params[b]).0,
    ensures
        ({
            let bound = frame::bind_args(m, params, vals, j);
            &&& j <= i < params.len() && i < vals.len() ==> bound.dom().contains(params[i].0)
                && bound[params[i].0] == UVal::Init(vals[i])
            &&& forall|id: Name|
                (forall|a: int|
                    j <= a < params.len() && a < vals.len() ==> (#[trigger] params[a]).0 != id) ==> {
                    &&& #[trigger] bound.dom().contains(id) <==> m.dom().contains(id)
                    &&& m.dom().contains(id) ==> bound[id] == m[id]
                }
        }),
    decreases params.len() - j,
{
    if j < params.len() && j < vals.len() {
        let next = m.insert(params[j].0, UVal::Init(vals[j]));
        lemma_bind_args(next, params, vals, j + 1, i);
        let bound = frame::bind_args(m, params, vals, j);
        if i == j {
            assert forall|a: int| j + 1 <= a < params.len() && a < vals.len() implies (
            #[trigger] params[a]).0 != params[j].0 by {}
            assert(bound.dom().contains(params[j].0) <==> next.dom().contains(params[j].0));
        }
        assert forall|id: Name|
            (forall|a: int|
                j <= a < params.len() && a < vals.len() ==> (#[trigger] params[a]).0 != id) implies {
            &&& #[trigger] bound.dom().contains(id) <==> m.dom().contains(id)
            &&& m.dom().contains(id) ==> bound[id] == m[id]
        } by {
            assert(params[j].0 != id);
            assert(bound.dom().contains(id) <==> next.dom().contains(id));
        }
    }
}

/// Whether the parameters of a function have names of their own.
pub open spec fn has_distinct_params(function: Function) -> bool {
    &&& forall|a: int, b: int|
        0 <= a < b < function.params@.len() ==> (#[trigger] function.params@[a]).0 != (
        #[trigger] function.params@[b]).0
    &&& forall|a: int| 0 <= a < function.params@.len() ==> (#[trigger] function.params@[a]).0 != RETURN
}

/// Whether a call is executed: it is not stopped, and nothing is assumed of
/// its result.
pub open spec fn is_executed(
    m: Machine,
    sh: SharedState,
    cx: Context,
    f: Name,
    vals: Seq<Val>,
    info: SourceLoc,
) -> bool {
    &&& call::stop_decision(cx, m.frame, f) is None
    &&& call::assumed_result(
        call::trace_function(m.solver, sh, f, true),
        m.frame.function_assumptions,
        f,
        vals,
        0,
        info,
    ).1 == Ok::<Option<Val>, ExecError>(None)
}

/// A call of a function starts it at its first instruction. Each of its
/// parameters holds the argument at its position, its result has no value yet,
/// and it has no other variables. Registers, memory and the variables at the
/// top level are those of the caller.
pub proof fn law_call_enters(
    m: Machine,
    sh: SharedState,
    cx: Context,
    loc: Loc,
    ret: bool,
    f: Name,
    args: Vec<Exp>,
    info: SourceLoc,
    i: int,
    id: Name,
)
    requires
        m.frame.pc < usize::MAX,
        sh.functions@.dom().contains(f),
        has_distinct_params(sh.functions@[f]),
        run::eval_all_in(m, sh, args@, info).1 is Ok,
        is_executed(
            run::eval_all_in(m, sh, args@, info).0,
            sh,
            cx,
            f,
            run::eval_all_in(m, sh, args@, info).1->Ok_0,
            info,
        ),
        args@.len() == sh.functions@[f].params@.len(),
        0 <= i < args@.len(),
    ensures
        ({
            let function = sh.functions@[f];
            let (before, vals) = run::eval_all_in(m, sh, args@, info);
            let effect = run::execute(m, sh, cx, Instr::Call(loc, ret, f, args, info));
            let inside = effect.machine.frame;
            &&& effect.result matches Ok(Flow::Next)
            &&& effect.spawned.len() == 0
            &&& inside.function_name == f
            &&& inside.pc == 0
            &&& inside.instrs == function.instrs
            &&& inside.local.vars.dom().contains(function.params@[i].0)
            &&& inside.local.vars[function.params@[i].0] == UVal::Init(vals->Ok_0[i])
            &&& inside.local.vars.dom().contains(RETURN)
            &&& inside.local.vars[RETURN] == UVal::Uninit(function.ret_ty)
            &&& inside.local.vars.dom().contains(id) ==> id == RETURN || exists|a: int|
                0 <= a < function.params@.len() && (#[trigger] function.params@[a]).0 == id
            &&& inside.local.regs == before.frame.local.regs
            &&& inside.local.lets == before.frame.local.lets
            &&& inside.memory == before.frame.memory
        }),
{
    let function = sh.functions@[f];
    let (before, vals) = run::eval_all_in(m, sh, args@, info);
    law_arguments_in_order(m.world(), sh, args@, info);
    let start = Map::<Name, UVal>::empty().insert(RETURN, UVal::Uninit(function.ret_ty));
    lemma_bind_args(start, function.params@, vals->Ok_0, 0, i);
    let bound = frame::bind_args(start, function.params@, vals->Ok_0, 0);
    assert(bound.dom().contains(RETURN) <==> start.dom().contains(RETURN));
    if bound.dom().contains(id) && id != RETURN {
        if forall|a: int|
            0 <= a < function.params@.len() && a < vals->Ok_0.len() ==> (
            #[trigger] function.params@[a]).0 != id {
            assert(bound.dom().contains(id) <==> start.dom().contains(id));
        }
    }
}

/// When a function that has been called ends, execution goes on behind the
/// call, in the function that has made it and with its variables; and the
/// place that the call names holds the result. What the function has done to
/// registers and to the variables at the top level stays.
pub proof fn law_call_comes_back(
    m: Machine,
    sh: SharedState,
    cx: Context,
    loc: Loc,
    ret: bool,
    f: Name,
    args: Vec<Exp>,
    info: SourceLoc,
    later: Machine,
    result: Val,
    read_info: SourceLoc,
)
    requires
        m.frame.pc < usize::MAX,
        sh.functions@.dom().contains(f),
        run::eval_all_in(m, sh, args@, info).1 is Ok,
        is_executed(
            run::eval_all_in(m, sh, args@, info).0,
            sh,
            cx,
            f,
            run::eval_all_in(m, sh, args@, info).1->Ok_0,
            info,
        ),
        args@.len() == sh.functions@[f].params@.len(),
        laws::same_calls(
            run::execute(m, sh, cx, Instr::Call(loc, ret, f, args, info)).machine.frame,
            later.frame,
        ),
        later.frame.local.vars.dom().contains(RETURN),
        later.frame.local.vars[RETURN] == UVal::Init(result),
        laws::is_direct(loc),
        laws::is_unambiguous(
            LocalView {
                vars: run::eval_all_in(m, sh, args@, info).0.frame.local.vars,
                ..later.frame.local
            },
            loc.base(),
        ),
    ensures
        ({
            let caller = run::eval_all_in(m, sh, args@, info).0.frame;
            let effect = run::execute(later, sh, cx, Instr::End);
            let after = effect.machine.frame;
            let back = LocalView { vars: caller.local.vars, ..later.frame.local };
            &&& loc is Id ==> effect.result is Ok
            &&& effect.result is Ok ==> {
                &&& effect.result matches Ok(Flow::Next)
                &&& held(effect.machine, sh, loc, read_info) == Ok::<Val, ExecError>(result)
            }
            &&& after.function_name == m.frame.function_name
            &&& after.pc == m.frame.pc + 1
            &&& after.instrs == m.frame.instrs
            &&& laws::same_calls(after, m.frame)
            &&& forall|id: Name|
                id != loc.base() ==> #[trigger] laws::same_at(back, after.local, id)
        }),
{
    let (before, vals) = run::eval_all_in(m, sh, args@, info);
    law_arguments_in_order(m.world(), sh, args@, info);
    let inside = run::execute(m, sh, cx, Instr::Call(loc, ret, f, args, info)).machine.frame;
    assert(inside.stack_call.drop_last() =~= before.frame.stack_call);
    assert(inside.backtrace.drop_last() =~= before.frame.backtrace);
    assert(inside.stack_vars.drop_last() =~= before.frame.stack_vars);
    let traced = call::trace_function(later.solver, sh, later.frame.function_name, false);
    let back = Machine { frame: call::leave(later.frame), solver: traced };
    let record = later.frame.stack_call.last();
    let (w, r) = assign::assigned(back.world(), sh, loc, result, seq![], record.info);
    if r is Ok {
        laws::law_read_after_assign(
            back.world(),
            sh,
            loc,
            result,
            seq![],
            record.info,
            seq![],
            read_info,
            false,
        );
    }
    assert forall|id: Name| id != loc.base() implies #[trigger] laws::same_at(
        back.frame.local,
        w.local,
        id,
    ) by {
        laws::law_assign_keeps_others(back.world(), sh, loc, result, seq![], record.info, id);
    }
}

/// A function that was not called ends the path with its result. If the result
/// was never set, any value of its type will do. What does not come back ends
/// with no value that could be used.
pub proof fn law_end_of_path(m: Machine, sh: SharedState, cx: Context)
    requires
        m.frame.stack_call.len() == 0,
        m.frame.local.vars.dom().contains(RETURN),
    ensures
        ({
            let effect = run::execute(m, sh, cx, Instr::End);
            match m.frame.local.vars[RETURN] {
                UVal::Init(v) => effect.result == Ok::<Flow, ExecError>(Flow::Done(v)),
                UVal::Uninit(ty) => {
                    &&& effect.machine.solver.asked.len() == m.solver.asked.len() + 1
                    &&& effect.machine.solver.asked.last().request == RequestView::Symbolic(ty)
                    &&& effect.result matches Ok(Flow::Done(v)) ==> m.solver.replies[m.solver.asked.len() as int].answer
                        == AnswerView::Val(v)
                },
            }
        }),
        run::execute(m, sh, cx, Instr::Arbitrary).result == Ok::<Flow, ExecError>(
            Flow::Done(Val::Poison),
        ),
{
}

/// A call that a stop condition kills ends the path with an error that names
/// the function. One that is made abstract ends the path, with a record of the
/// call and its arguments as the last thing on it.
pub proof fn law_stopped_call(
    m: Machine,
    sh: SharedState,
    cx: Context,
    loc: Loc,
    ret: bool,
    f: Name,
    args: Vec<Exp>,
    info: SourceLoc,
)
    requires
        sh.functions@.dom().contains(f),
        run::eval_all_in(m, sh, args@, info).1 is Ok,
    ensures
        ({
            let (before, vals) = run::eval_all_in(m, sh, args@, info);
            let effect = run::execute(m, sh, cx, Instr::Call(loc, ret, f, args, info));
            let decision = call::stop_decision(cx, before.frame, f);
            &&& decision == Some(StopAction::Kill) ==> effect.result == Err::<Flow, ExecError>(
                ExecError::Stopped(f),
            )
            &&& decision == Some(StopAction::Abstract) ==> {
                &&& effect.result == Ok::<Flow, ExecError>(Flow::Done(Val::Poison))
                &&& effect.machine.solver.trace.last() == (EventView::Abstract {
                    name: f,
                    primitive: false,
                    args: vals->Ok_0,
                    return_value: Val::Poison,
                })
            }
        }),
{
}

/// A function that is traced leaves a record when it is entered and another
/// one when it is left; one that is not traced leaves none.
pub proof fn law_traced_functions(s: SolverView, sh: SharedState, f: Name, call: bool)
    ensures
        ({
            let after = call::trace_function(s, sh, f, call);
            &&& sh.trace_functions@.contains(f) ==> after.trace == s.trace.push(
                EventView::Function { name: f, call },
            )
            &&& !sh.trace_functions@.contains(f) ==> after == s
        }),
{
}

/// Two values count as equal only if they have been found to be: either for
/// sure, or because the symbol that says so can stand for nothing but true.
pub proof fn law_certainly_equal(
    s: SolverView,
    a: Val,
    b: Val,
    info: SourceLoc,
    interp: Interp<Sym>,
)
    ensures
        ({
            let (after, r) = call::certainly_equal(s, a, b, info);
            let n = s.asked.len() as int;
            r is Ok ==> {
                &&& after.asked[n].request == RequestView::EqAnything(a, b)
                &&& n < s.replies.len()
                &&& match s.replies[n].answer {
                    AnswerView::Val(Val::Bool(equal)) => r->Ok_0 == equal,
                    AnswerView::Val(Val::Symbolic(v)) => {
                        &&& n + 1 < s.replies.len()
                        &&& r->Ok_0 <==> s.replies[n + 1].answer == AnswerView::Sat(SmtResult::Unsat)
                        &&& r->Ok_0 && not_excluded(interp, after) && (interp.var)(v) is Bool ==> (
                        interp.var)(v) == Value::Bool(true)
                    },
                    _ => false,
                }
            }
        }),
{
    let (after, r) = call::certainly_equal(s, a, b, info);
    let n = s.asked.len() as int;
    let (s1, answer) = s.ask_val(RequestView::EqAnything(a, b), info);
    if let Ok(Val::Symbolic(v)) = answer {
        let t = call::is_false(v);
        assert(r is Ok ==> after.asked[n + 1].request == RequestView::CheckSatWith(t));
        reveal_with_fuel(semantics::denote, 3);
        reveal_with_fuel(semantics::denote_all, 3);
        let no = tree::leaf::<Sym>(tree::Op::Bool(false));
        let vals = semantics::denote_all(interp, seq![solver::var(v), no]);
        assert(vals[0] == (interp.var)(v));
        assert(vals[1] == Value::Bool(false));
        assert(semantics::denote(interp, t) == Value::Bool(vals[0] == vals[1]));
    }
}

/// Whether two values have been found to be certainly equal, at some point of
/// a path.
pub open spec fn found_equal(a: Val, b: Val, info: SourceLoc) -> bool {
    exists|s: SolverView|
        (#[trigger] call::certainly_equal(s, a, b, info)).1 == Ok::<bool, ExecError>(true)
}

/// All arguments are found to be equal only if each is.
proof fn lemma_all_equal(
    s: SolverView,
    required: Seq<Val>,
    args: Seq<Val>,
    i: int,
    info: SourceLoc,
    j: int,
)
    requires
        0 <= i <= j < required.len(),
        call::certainly_all_equal(s, required, args, i, info).1 == Ok::<bool, ExecError>(true),
    ensures
        found_equal(required[j], args[j], info),
    decreases j - i,
{
    let (s1, r) = call::certainly_equal(s, required[i], args[i], info);
    if i < j {
        lemma_all_equal(s1, required, args, i + 1, info, j);
    }
}

/// Whether an assumption is about a call: of this function, with as many
/// arguments, each of which was found to be certainly the one that is assumed.
pub open spec fn applies(
    a: super::frame::Assumption,
    f: Name,
    args: Seq<Val>,
    info: SourceLoc,
) -> bool {
    &&& a.function == f
    &&& a.args@.len() == args.len()
    &&& forall|j: int| 0 <= j < args.len() ==> found_equal(a.args@[j], #[trigger] args[j], info)
}

/// What a call is assumed to give is what an assumption says that applies to
/// it.
pub proof fn law_assumption_applies(
    s: SolverView,
    assumptions: Seq<super::frame::Assumption>,
    f: Name,
    args: Seq<Val>,
    info: SourceLoc,
    result: Val,
)
    requires
        call::assumed_result(s, assumptions, f, args, 0, info).1 == Ok::<Option<Val>, ExecError>(
            Some(result),
        ),
    ensures
        exists|k: int|
            0 <= k < assumptions.len() && applies(#[trigger] assumptions[k], f, args, info)
                && assumptions[k].result == result,
{
    lemma_assumption_applies(s, assumptions, f, args, 0, info, result);
}

proof fn lemma_assumption_applies(
    s: SolverView,
    assumptions: Seq<super::frame::Assumption>,
    f: Name,
    args: Seq<Val>,
    i: int,
    info: SourceLoc,
    result: Val,
)
    requires
        0 <= i,
        call::assumed_result(s, assumptions, f, args, i, info).1 == Ok::<Option<Val>, ExecError>(
            Some(result),
        ),
    ensures
        exists|k: int|
            0 <= k < assumptions.len() && applies(#[trigger] assumptions[k], f, args, info)
                && assumptions[k].result == result,
    decreases assumptions.len() - i,
{
    let a = assumptions[i];
    if a.function == f && a.args@.len() == args.len() {
        let (s1, r) = call::certainly_all_equal(s, a.args@, args, 0, info);
        if r == Ok::<bool, ExecError>(true) {
            assert forall|j: int| 0 <= j < args.len() implies found_equal(
                a.args@[j],
                #[trigger] args[j],
                info,
            ) by {
                lemma_all_equal(s, a.args@, args, 0, info, j);
            }
            assert(applies(assumptions[i], f, args, info));
        } else {
            lemma_assumption_applies(s1, assumptions, f, args, i + 1, info, result);
        }
    } else {
        lemma_assumption_applies(s, assumptions, f, args, i + 1, info, result);
    }
}

/// If no result is assumed of a call, each assumption is of another function or
/// of another number of arguments, or its arguments were not found to be
/// certainly those of the call.
pub proof fn law_no_assumption_applies(
    s: SolverView,
    assumptions: Seq<super::frame::Assumption>,
    f: Name,
    args: Seq<Val>,
    i: int,
    info: SourceLoc,
    k: int,
)
    requires
        0 <= i <= k < assumptions.len(),
        call::assumed_result(s, assumptions, f, args, i, info).1 == Ok::<Option<Val>, ExecError>(
            None,
        ),
        assumptions[k].function == f,
        assumptions[k].args@.len() == args.len(),
    ensures
        exists|s1: SolverView|
            (#[trigger] call::certainly_all_equal(s1, assumptions[k].args@, args, 0, info)).1
                == Ok::<bool, ExecError>(false),
    decreases k - i,
{
    if i < k {
        let a = assumptions[i];
        if a.function == f && a.args@.len() == args.len() {
            let (s1, r) = call::certainly_all_equal(s, a.args@, args, 0, info);
            law_no_assumption_applies(s1, assumptions, f, args, i + 1, info, k);
        } else {
            law_no_assumption_applies(s, assumptions, f, args, i + 1, info, k);
        }
    }
}

/// A call whose result is assumed is not executed: the place that it names
/// holds that result, the use of the assumption is recorded, and the next
/// instruction follows.
pub proof fn law_assumed_call(
    m: Machine,
    sh: SharedState,
    cx: Context,
    loc: Loc,
    ret: bool,
    f: Name,
    args: Vec<Exp>,
    info: SourceLoc,
    result: Val,
    read_info: SourceLoc,
)
    requires
        m.frame.pc < usize::MAX,
        sh.functions@.dom().contains(f),
        run::eval_all_in(m, sh, args@, info).1 is Ok,
        ({
            let (before, vals) = run::eval_all_in(m, sh, args@, info);
            &&& call::stop_decision(cx, before.frame, f) is None
            &&& call::assumed_result(
                call::trace_function(before.solver, sh, f, true),
                before.frame.function_assumptions,
                f,
                vals->Ok_0,
                0,
                info,
            ).1 == Ok::<Option<Val>, ExecError>(Some(result))
            &&& laws::is_unambiguous(before.frame.local, loc.base())
        }),
        laws::is_direct(loc),
    ensures
        ({
            let vals = run::eval_all_in(m, sh, args@, info).1;
            let effect = run::execute(m, sh, cx, Instr::Call(loc, ret, f, args, info));
            &&& loc is Id ==> effect.result is Ok
            &&& effect.result is Ok ==> {
                &&& moves_on(m, effect)
                &&& laws::same_calls(m.frame, effect.machine.frame)
                &&& effect.machine.frame.function_name == m.frame.function_name
                &&& held(effect.machine, sh, loc, read_info) == Ok::<Val, ExecError>(result)
                &&& effect.machine.solver.trace.last() == (EventView::UseFunAssumption {
                    name: f,
                    args: vals->Ok_0,
                    return_value: result,
                })
            }
        }),
{
    let (before, vals) = run::eval_all_in(m, sh, args@, info);
    let s = call::assumed_result(
        call::trace_function(before.solver, sh, f, true),
        before.frame.function_assumptions,
        f,
        vals->Ok_0,
        0,
        info,
    ).0;
    let asked = Machine { solver: s, ..before };
    let (w, r) = assign::assigned(asked.world(), sh, loc, result, seq![], info);
    let event = EventView::UseFunAssumption { name: f, args: vals->Ok_0, return_value: result };
    if r is Ok {
        laws::law_read_after_assign(
            asked.world(),
            sh,
            loc,
            result,
            seq![],
            info,
            seq![],
            read_info,
            false,
        );
        lemma_read_ignores_trace(w, sh, loc, seq![], read_info, event);
    }
}

/// What a place holds does not depend on what has been recorded.
proof fn lemma_read_ignores_trace(
    w: World,
    sh: SharedState,
    loc: Loc,
    accessor: Seq<Accessor>,
    info: SourceLoc,
    event: EventView,
)
    ensures
        state::read_loc(w, sh, loc, accessor, info, false).1 == state::read_loc(
            World { solver: w.solver.record(event), ..w },
            sh,
            loc,
            accessor,
            info,
            false,
        ).1,
    decreases loc,
{
    if let Loc::Field(inner, field) = loc {
        lemma_read_ignores_trace(
            w,
            sh,
            *inner,
            accessor.push(Accessor::Field(field)),
            info,
            event,
        );
    }
}

/// An exit ends the path with the error that its cause stands for, and changes
/// nothing.
pub proof fn law_exit(m: Machine, sh: SharedState, cx: Context, cause: ExitCause, info: SourceLoc)
    ensures
        ({
            let effect = run::execute(m, sh, cx, Instr::Exit(cause, info));
            &&& effect.machine == m
            &&& effect.result matches Err(e) && {
                &&& e is MatchFailure <==> cause == ExitCause::MatchFailure
                &&& e is AssertionFailure <==> cause == ExitCause::AssertionFailure
                &&& e is Exit <==> cause == ExitCause::Explicit
                &&& e matches ExecError::MatchFailure(at) ==> at == info
                &&& e matches ExecError::AssertionFailure(message, at) ==> message is None && at
                    == info
            }
        }),
{
}

/// A path times out as soon as more time has passed than it may take: more
/// full seconds, or as many and a part of another one. Without a limit it is
/// not even asked how much has passed.
pub proof fn law_timeout(s: SolverView, limit: u64)
    ensures
        run::check_time(s, None) == (s, Ok::<(), ExecError>(())),
        ({
            let (after, r) = run::check_time(s, Some(limit));
            let n = s.asked.len() as int;
            &&& after.asked.last().request == RequestView::Elapsed
            &&& n < s.replies.len() && s.next + s.replies[n].fresh <= u32::MAX ==> (
            s.replies[n].answer matches AnswerView::Elapsed(ns) ==> {
                let secs = ns as int / 1_000_000_000;
                let rest = ns as int % 1_000_000_000;
                &&& r is Ok <==> secs < limit || (secs == limit && rest == 0)
                &&& r is Err ==> r == Err::<(), ExecError>(ExecError::Timeout)
            })
        }),
{
}

/// The instruction that is executed next is the one at the position of the
/// path, if there is time left; and behind the last one the path is at its
/// end.
pub proof fn law_step_executes_next(m: Machine, sh: SharedState, cx: Context)
    ensures
        m.frame.pc >= m.frame.instrs@.len() ==> run::step(m, sh, cx).result == Ok::<
            Flow,
            ExecError,
        >(Flow::Done(Val::Unit)),
        m.frame.pc < m.frame.instrs@.len() && cx.timeout is None ==> run::step(m, sh, cx)
            == run::execute(m, sh, cx, m.frame.instrs@[m.frame.pc as int]),
{
}

/// A path that is executed for some instructions and then for some more goes
/// where it goes if it is executed for all of them at once.
pub proof fn law_steps_add_up(a: nat, b: nat, m: Machine, sh: SharedState, cx: Context, spawned: Seq<super::task::TaskView>)
    ensures
        ({
            let first = run::run_steps(a, m, sh, cx, spawned);
            run::run_steps(a + b, m, sh, cx, spawned) == if first.result is None {
                run::run_steps(b, first.machine, sh, cx, first.spawned)
            } else {
                first
            }
        }),
    decreases a,
{
    if a > 0 {
        let effect = run::step(m, sh, cx);
        if effect.result matches Ok(Flow::Next) {
            law_steps_add_up(
                (a - 1) as nat,
                b,
                effect.machine,
                sh,
                cx,
                spawned + effect.spawned,
            );
        }
    }
}

} // verus!
