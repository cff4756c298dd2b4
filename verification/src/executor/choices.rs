//! What is chosen where a choice is symbolic.

use super::error::ExecError;
use super::eval;
use super::ir::{Exp, Fields, SharedState, SourceLoc, UVal, Val};
use super::laws;
use super::names::Name;
use super::prefix;
use super::replay;
use super::solver::{self, Accessor, AnswerView, DefAttrs, EventView, RequestView, SolverView};
use super::state::{LocalView, World};
use super::vector;
use crate::bv;
use crate::smt::semantics::{self, Interp, Value};
use crate::smt::smtlib::Sym;
use crate::smt::tree;
use vstd::prelude::*;

verus! {

/// Two numbers below two to the power of a length are equal if their bits
/// are.
proof fn lemma_same_bits(len: nat, a: nat, b: nat)
    requires
        a < vstd::arithmetic::power2::pow2(len),
        b < vstd::arithmetic::power2::pow2(len),
    ensures
        bv::from_int(len, a as int) == bv::from_int(len, b as int) <==> a == b,
{
    bv::lemma_to_nat_from_int(len, a as int);
    bv::lemma_to_nat_from_int(len, b as int);
    vstd::arithmetic::div_mod::lemma_small_mod(a, vstd::arithmetic::power2::pow2(len));
    vstd::arithmetic::div_mod::lemma_small_mod(b, vstd::arithmetic::power2::pow2(len));
}

/// A check whether a value has another constructor than the given one gives
/// the same on a value whose constructor is symbolic as on a value with the
/// constructor that the symbol stands for: whether the constructors differ.
pub proof fn law_kind_check_on_symbolic_constructor(
    w: World,
    sh: SharedState,
    ctor: Name,
    exp: Exp,
    info: SourceLoc,
    sym: Sym,
    possibilities: Fields,
    interp: Interp<Sym>,
    actual: Name,
    contents: Val,
)
    requires
        eval::eval(w, sh, exp, seq![], info).1 == Ok::<Val, ExecError>(
            Val::SymbolicCtor(sym, possibilities),
        ),
        eval::eval(w, sh, Exp::Kind(ctor, Box::new(exp)), seq![], info).1 is Ok,
        (interp.var)(sym) == Value::Bits(bv::from_int(32, actual as int)),
        laws::takes_path(
            interp,
            eval::eval(w, sh, Exp::Kind(ctor, Box::new(exp)), seq![], info).0.solver.trace,
        ),
    ensures
        ({
            let (_, r) = eval::eval(w, sh, Exp::Kind(ctor, Box::new(exp)), seq![], info);
            let (_, concrete) = eval::kind_check(
                w.solver,
                ctor,
                Val::Ctor(actual, Box::new(contents)),
                info,
            );
            &&& r matches Ok(Val::Symbolic(b)) && (interp.var)(b) == Value::Bool(ctor != actual)
            &&& concrete == Ok::<Val, ExecError>(Val::Bool(ctor != actual))
        }),
{
    let before = eval::eval(w, sh, exp, seq![], info).0;
    let (after, r) = eval::eval(w, sh, Exp::Kind(ctor, Box::new(exp)), seq![], info);
    let constant = eval::ctor_constant(ctor);
    let trace = after.solver.trace;
    assert(laws::agrees_with(interp, trace[trace.len() - 1]));
    reveal_with_fuel(semantics::denote, 3);
    reveal_with_fuel(semantics::denote_all, 3);
    let vals = semantics::denote_all(interp, seq![solver::var(sym), constant]);
    assert(vals[0] == (interp.var)(sym));
    assert(vals[1] == Value::Bits(bv::from_int(32, ctor as int)));
    vstd::arithmetic::power2::lemma2_to64();
    lemma_same_bits(32, ctor as nat, actual as nat);
}

/// A value with a constructor can be taken apart by this constructor and by
/// no other, which is what a check of its kind says; and what comes out is
/// what the constructor was applied to. None of this changes anything.
pub proof fn law_kind_and_unwrap(
    w: World,
    sh: SharedState,
    ctor: Name,
    exp: Exp,
    accessor: Seq<Accessor>,
    info: SourceLoc,
    actual: Name,
    contents: Val,
)
    requires
        eval::eval(w, sh, exp, seq![], info).1 == Ok::<Val, ExecError>(
            Val::Ctor(actual, Box::new(contents)),
        ),
    ensures
        ({
            let after = eval::eval(w, sh, exp, seq![], info).0;
            let (w1, kind) = eval::eval(w, sh, Exp::Kind(ctor, Box::new(exp)), accessor, info);
            let (w2, inner) = eval::eval(w, sh, Exp::Unwrap(ctor, Box::new(exp)), accessor, info);
            &&& w1 == after && w2 == after
            &&& kind matches Ok(Val::Bool(b)) && b == (inner is Err)
            &&& inner is Ok <==> ctor == actual
            &&& inner is Ok ==> inner == Ok::<Val, ExecError>(contents)
        }),
{
}

/// What is taken out of a value whose constructor is symbolic is what it
/// holds if it has the given constructor, as long as it can have it.
pub proof fn law_unwrap_symbolic_constructor(
    w: World,
    sh: SharedState,
    ctor: Name,
    exp: Exp,
    accessor: Seq<Accessor>,
    info: SourceLoc,
    sym: Sym,
    possibilities: Fields,
)
    requires
        eval::eval(w, sh, exp, seq![], info).1 == Ok::<Val, ExecError>(
            Val::SymbolicCtor(sym, possibilities),
        ),
    ensures
        ({
            let (_, inner) = eval::eval(w, sh, Exp::Unwrap(ctor, Box::new(exp)), accessor, info);
            &&& inner is Ok <==> possibilities@.dom().contains(ctor)
            &&& inner matches Ok(v) ==> v == possibilities@[ctor]
        }),
{
}

/// Whether every choice between two values has been answered by the value
/// that the condition chooses, as far as the meaning of values goes.
pub open spec fn choices_answered<T>(
    interp: Interp<Sym>,
    meaning: spec_fn(Val) -> T,
    s: SolverView,
) -> bool {
    forall|n: int|
        0 <= n < s.asked.len() && n < s.replies.len() && (#[trigger] s.asked[n]).request is Ite
            && s.replies[n].answer is Val ==> meaning(s.replies[n].answer->Val_0) == if (
        interp.var)(s.asked[n].request->Ite_0) == Value::Bool(true) {
            meaning(s.asked[n].request->Ite_1)
        } else {
            meaning(s.asked[n].request->Ite_2)
        }
}

/// The number of bits that an index has tells the elements apart, and one bit
/// less would not.
pub proof fn law_index_bits(n: nat)
    ensures
        n <= vstd::arithmetic::power2::pow2(vector::index_bits(n)),
        vector::index_bits(n) >= 1,
        vector::index_bits(n) > 1 ==> n > vstd::arithmetic::power2::pow2(
            (vector::index_bits(n) - 1) as nat,
        ),
    decreases n,
{
    vstd::arithmetic::power2::lemma2_to64();
    if n > 2 {
        let half = (n + 1) / 2;
        law_index_bits(half);
        vstd::arithmetic::power2::lemma_pow2_unfold(vector::index_bits(n));
        if vector::index_bits(half) > 1 {
            vstd::arithmetic::power2::lemma_pow2_unfold((vector::index_bits(n) - 1) as nat);
        }
    }
}

/// The condition that an index is `j` is true exactly if it is.
proof fn lemma_choice_means(
    s: SolverView,
    i: Sym,
    j: int,
    bits: u32,
    info: SourceLoc,
    end: SolverView,
    interp: Interp<Sym>,
    t: Seq<bool>,
)
    requires
        vector::define_choice(s, i, j, bits, info).1 is Ok,
        (interp.var)(i) == Value::Bits(t),
        t.len() == bits,
        0 <= j < vstd::arithmetic::power2::pow2(bits as nat),
        prefix::starts(vector::define_choice(s, i, j, bits, info).0.trace, end.trace),
        laws::takes_path(interp, end.trace),
    ensures
        (interp.var)(vector::define_choice(s, i, j, bits, info).1->Ok_0) == Value::Bool(
            bv::to_nat(t) == j,
        ),
{
    let (s1, r) = vector::define_choice(s, i, j, bits, info);
    let k = s1.trace.len() - 1;
    assert(end.trace[k] == s1.trace[k]) by {
        reveal(prefix::starts);
    }
    assert(laws::agrees_with(interp, end.trace[k])) by {
        reveal(prefix::starts);
    }
    let constant = tree::leaf::<Sym>(tree::Op::Bits64(bv::from_int(bits as nat, j)));
    reveal_with_fuel(semantics::denote, 3);
    reveal_with_fuel(semantics::denote_all, 3);
    let vals = semantics::denote_all(interp, seq![solver::var(i), constant]);
    assert(vals[0] == Value::Bits(t));
    assert(vals[1] == Value::Bits(bv::from_int(bits as nat, j)));
    bv::lemma_from_int_to_nat(t);
    bv::lemma_to_nat_bound(t);
    lemma_same_bits(bits as nat, bv::to_nat(t), j as nat);
}

/// The value that a choice has been answered by is the one that is chosen.
proof fn lemma_chosen<T>(
    s: SolverView,
    choice: Sym,
    a: Val,
    b: Val,
    info: SourceLoc,
    end: SolverView,
    interp: Interp<Sym>,
    meaning: spec_fn(Val) -> T,
)
    requires
        vector::choose_value(s, choice, a, b, info).1 is Ok,
        replay::grows(vector::choose_value(s, choice, a, b, info).0, end),
        choices_answered(interp, meaning, end),
    ensures
        meaning(vector::choose_value(s, choice, a, b, info).1->Ok_0) == if (interp.var)(choice)
            == Value::Bool(true) {
            meaning(a)
        } else {
            meaning(b)
        },
{
    let n = s.asked.len() as int;
    let (s1, r) = vector::choose_value(s, choice, a, b, info);
    assert(s1.asked[n].request == RequestView::Ite(choice, a, b));
    assert(end.asked[n] == s1.asked[n] && n < end.asked.len()) by {
        reveal(prefix::starts);
    }
}

/// The register that an index chooses: the one at its position, or the first
/// one if there is none.
pub open spec fn chosen(k: nat, n: nat) -> int {
    if k < n {
        k as int
    } else {
        0
    }
}

/// Whether the registers hold values.
pub open spec fn hold(local: LocalView, regs: Seq<Name>, values: Seq<Val>) -> bool {
    &&& regs.len() == values.len()
    &&& forall|q: int|
        0 <= q < regs.len() ==> {
            &&& local.regs.values.dom().contains(#[trigger] regs[q])
            &&& local.regs.values[regs[q]] == UVal::Init(values[q])
        }
}

proof fn lemma_read_chain_means<T>(
    w: World,
    regs: Seq<Name>,
    j: int,
    i: Sym,
    bits: u32,
    chain: Val,
    values: Seq<Val>,
    info: SourceLoc,
    interp: Interp<Sym>,
    meaning: spec_fn(Val) -> T,
    t: Seq<bool>,
)
    requires
        1 <= j <= regs.len(),
        values.len() == j,
        t.len() == bits,
        regs.len() <= vstd::arithmetic::power2::pow2(bits as nat),
        (interp.var)(i) == Value::Bits(t),
        hold(w.local, regs.take(j), values),
        meaning(chain) == meaning(values[chosen(bv::to_nat(t), j as nat)]),
        vector::read_chain(w, regs, j, i, bits, chain, values, info).1 is Ok,
        laws::takes_path(
            interp,
            vector::read_chain(w, regs, j, i, bits, chain, values, info).0.solver.trace,
        ),
        choices_answered(
            interp,
            meaning,
            vector::read_chain(w, regs, j, i, bits, chain, values, info).0.solver,
        ),
    ensures
        ({
            let (end, r) = vector::read_chain(w, regs, j, i, bits, chain, values, info);
            let (result, all) = r->Ok_0;
            &&& hold(end.local, regs, all)
            &&& all.take(j) == values
            &&& meaning(result) == meaning(all[chosen(bv::to_nat(t), regs.len())])
        }),
    decreases regs.len() - j,
{
    broadcast use prefix::group_prefix;

    let (end, out) = vector::read_chain(w, regs, j, i, bits, chain, values, info);
    if j < regs.len() {
        let (s, choice) = vector::define_choice(w.solver, i, j, bits, info);
        let w1 = World { solver: s, ..w };
        let (w2, value) = vector::must_read(w1, regs[j], info);
        let (s3, r) = vector::choose_value(w2.solver, choice->Ok_0, value->Ok_0, chain, info);
        let w3 = World { solver: s3, ..w2 };
        replay::lemma_must_read(w1, regs[j], info, seq![]);
        replay::lemma_choose_value(w2.solver, choice->Ok_0, value->Ok_0, chain, info, seq![]);
        replay::lemma_read_chain(
            w3,
            regs,
            j + 1,
            i,
            bits,
            r->Ok_0,
            values.push(value->Ok_0),
            info,
            seq![],
        );
        lemma_choice_means(w.solver, i, j, bits, info, end.solver, interp, t);
        lemma_chosen(
            w2.solver,
            choice->Ok_0,
            value->Ok_0,
            chain,
            info,
            end.solver,
            interp,
            meaning,
        );
        let more = values.push(value->Ok_0);
        assert(hold(w3.local, regs.take(j + 1), more)) by {
            assert forall|q: int| 0 <= q < j + 1 implies {
                &&& w3.local.regs.values.dom().contains(#[trigger] regs.take(j + 1)[q])
                &&& w3.local.regs.values[regs.take(j + 1)[q]] == UVal::Init(more[q])
            } by {
                if q < j {
                    assert(regs.take(j)[q] == regs[q]);
                }
            }
        }
        lemma_read_chain_means(
            w3,
            regs,
            j + 1,
            i,
            bits,
            r->Ok_0,
            more,
            info,
            interp,
            meaning,
            t,
        );
        let all = out->Ok_0.1;
        assert(all.take(j) =~= all.take(j + 1).take(j));
        assert(more.take(j) =~= values);
    } else {
        assert(regs.take(j) =~= regs);
        assert(values.take(j) =~= values);
    }
}

/// The low bits of the number that a bitvector of another length denotes.
proof fn lemma_fixed_length_means(
    s: SolverView,
    v: Sym,
    from: u32,
    to: u32,
    info: SourceLoc,
    end: SolverView,
    interp: Interp<Sym>,
    t: Seq<bool>,
)
    requires
        to >= 1,
        vector::fixed_length(s, v, from, to, info).1 is Ok,
        (interp.var)(v) == Value::Bits(t),
        t.len() == from,
        prefix::starts(vector::fixed_length(s, v, from, to, info).0.trace, end.trace),
        laws::takes_path(interp, end.trace),
    ensures
        (interp.var)(vector::fixed_length(s, v, from, to, info).1->Ok_0) == Value::Bits(
            bv::from_int(to as nat, bv::to_nat(t) as int),
        ),
{
    let (s1, r) = vector::fixed_length(s, v, from, to, info);
    let k = s1.trace.len() - 1;
    bv::lemma_from_int_to_nat(t);
    bv::lemma_to_nat_bound(t);
    let whole = bv::from_int(to as nat, bv::to_nat(t) as int);
    if from != to {
        assert(end.trace[k] == s1.trace[k] && laws::agrees_with(interp, end.trace[k])) by {
            reveal(prefix::starts);
        }
        reveal_with_fuel(semantics::denote, 3);
        reveal_with_fuel(semantics::denote_all, 3);
        let vals = semantics::denote_all(interp, seq![solver::var(v)]);
        assert(vals[0] == Value::Bits(t));
        if from > to {
            assert(bv::extract(t, to - 1, 0) =~= whole) by {
                assert forall|q: int| 0 <= q < to implies t[q] == #[trigger] whole[q] by {
                    assert(bv::from_int(t.len(), bv::to_nat(t) as int)[q] == t[q]);
                }
            }
        } else {
            assert(bv::zero_extend(t, (to - from) as nat) =~= whole) by {
                assert forall|q: int| 0 <= q < to implies bv::zero_extend(t, (to - from) as nat)[q]
                    == #[trigger] whole[q] by {
                    if q < from {
                        assert(bv::from_int(t.len(), bv::to_nat(t) as int)[q] == t[q]);
                    } else {
                        bv::lemma_int_bit_high(bv::to_nat(t), t.len(), q as nat);
                    }
                }
            }
        }
    }
}

/// The number that an index stands for in a vector of `n` elements, as far as
/// it fits in the bits that such an index has.
pub open spec fn index_value(t: Seq<bool>, n: nat) -> nat {
    (bv::to_nat(t) as int % (vstd::arithmetic::power2::pow2(vector::index_bits(n)) as int)) as nat
}

/// A register that is read by a symbolic index has the value of the register
/// at the position that the index stands for, whatever that is: if choices
/// between two values are answered by the value that is chosen, the result
/// means what that register holds. An index behind the end means the first
/// register.
pub proof fn law_read_by_symbolic_index<T>(
    w: World,
    v: Sym,
    vector: Val,
    info: SourceLoc,
    interp: Interp<Sym>,
    meaning: spec_fn(Val) -> T,
    t: Seq<bool>,
)
    requires
        vector::registers(vector) is Some,
        vector::registers(vector)->0.len() <= usize::MAX,
        vector::read_indexed(w, Val::Symbolic(v), vector, info).1 is Ok,
        (interp.var)(v) == Value::Bits(t),
        w.solver.replies[w.solver.asked.len() as int].answer == AnswerView::Length(
            Some(t.len() as u32),
        ),
        t.len() <= u32::MAX,
        laws::takes_path(
            interp,
            vector::read_indexed(w, Val::Symbolic(v), vector, info).0.solver.trace,
        ),
        choices_answered(
            interp,
            meaning,
            vector::read_indexed(w, Val::Symbolic(v), vector, info).0.solver,
        ),
    ensures
        ({
            let regs = vector::registers(vector)->0;
            let (end, result) = vector::read_indexed(w, Val::Symbolic(v), vector, info);
            let k = index_value(t, regs.len());
            let reg = regs[chosen(k, regs.len())];
            &&& regs.len() > 0
            &&& end.local.regs.values.dom().contains(reg)
            &&& end.local.regs.values[reg] matches UVal::Init(value) && meaning(result->Ok_0)
                == meaning(value)
            &&& bv::to_nat(t) < regs.len() ==> k == bv::to_nat(t)
            &&& end.local.vars == w.local.vars && end.local.lets == w.local.lets
        }),
{
    broadcast use prefix::group_prefix;

    let regs = vector::registers(vector)->0;
    let bits = vector::index_bits(regs.len()) as u32;
    law_index_bits(regs.len());
    vector::lemma_index_bits_word(regs.len());
    let errors = vector::spec_read_errors();
    let (end, result) = vector::read_indexed(w, Val::Symbolic(v), vector, info);
    let (s0, _) = w.solver.ask(RequestView::Length(v), info);
    let (s1, index) = vector::index_of(w.solver, Val::Symbolic(v), bits, errors, info);
    let i = index->Ok_0->Symbolic_0;
    let w1 = World { solver: s1, ..w };
    let (w2, first) = vector::must_read(w1, regs[0], info);
    let (w3, r) = vector::read_chain(
        w2,
        regs,
        1,
        i,
        bits,
        first->Ok_0,
        seq![first->Ok_0],
        info,
    );
    replay::lemma_must_read(w1, regs[0], info, seq![]);
    replay::lemma_read_chain(w2, regs, 1, i, bits, first->Ok_0, seq![first->Ok_0], info, seq![]);
    assert(prefix::starts(w3.solver.trace, end.solver.trace));
    lemma_fixed_length_means(s0, v, t.len() as u32, bits, info, end.solver, interp, t);
    let u = bv::from_int(bits as nat, bv::to_nat(t) as int);
    bv::lemma_to_nat_from_int(bits as nat, bv::to_nat(t) as int);
    if bv::to_nat(t) < regs.len() {
        vstd::arithmetic::div_mod::lemma_small_mod(
            bv::to_nat(t),
            vstd::arithmetic::power2::pow2(bits as nat),
        );
    }
    lemma_shorter_path(interp, w3.solver.trace, end.solver.trace);
    assert(regs.take(1) =~= seq![regs[0]]);
    lemma_read_chain_means(
        w2,
        regs,
        1,
        i,
        bits,
        first->Ok_0,
        seq![first->Ok_0],
        info,
        interp,
        meaning,
        u,
    );
    assert(bv::to_nat(u) == index_value(t, regs.len()));
    lemma_read_chain_keeps(w2, regs, 1, i, bits, first->Ok_0, seq![first->Ok_0], info);
}

/// An interpretation that takes a path has taken it from the start.
proof fn lemma_shorter_path(interp: Interp<Sym>, a: Seq<EventView>, b: Seq<EventView>)
    requires
        prefix::starts(a, b),
        laws::takes_path(interp, b),
    ensures
        laws::takes_path(interp, a),
{
    reveal(prefix::starts);
    assert forall|i: int| 0 <= i < a.len() implies laws::agrees_with(interp, #[trigger] a[i]) by {
        assert(b[i] == a[i]);
    }
}

/// Reading registers changes no variables.
proof fn lemma_read_chain_keeps(
    w: World,
    regs: Seq<Name>,
    j: int,
    i: Sym,
    bits: u32,
    chain: Val,
    values: Seq<Val>,
    info: SourceLoc,
)
    ensures
        ({
            let end = vector::read_chain(w, regs, j, i, bits, chain, values, info).0;
            end.local.vars == w.local.vars && end.local.lets == w.local.lets
        }),
    decreases regs.len() - j,
{
    if j < regs.len() {
        let (s, choice) = vector::define_choice(w.solver, i, j, bits, info);
        let w1 = World { solver: s, ..w };
        let (w2, value) = vector::must_read(w1, regs[j], info);
        let (s3, r) = vector::choose_value(w2.solver, choice->Ok_0, value->Ok_0, chain, info);
        if choice is Ok && value is Ok && r is Ok {
            lemma_read_chain_keeps(
                World { solver: s3, ..w2 },
                regs,
                j + 1,
                i,
                bits,
                r->Ok_0,
                values.push(value->Ok_0),
                info,
            );
        }
    }
}

/// Whether registers hold values that mean what they meant before, except
/// that the one at position `k` has the meaning of another value; as far as
/// they come before position `j`. From there on they hold the same values.
pub open spec fn written<T>(
    local: LocalView,
    regs: Seq<Name>,
    old: Seq<Val>,
    j: int,
    k: nat,
    value: Val,
    meaning: spec_fn(Val) -> T,
) -> bool {
    forall|q: int|
        0 <= q < regs.len() ==> {
            &&& local.regs.values.dom().contains(#[trigger] regs[q])
            &&& local.regs.values[regs[q]] matches UVal::Init(x) && if q >= j {
                x == old[q]
            } else {
                meaning(x) == if q == k {
                    meaning(value)
                } else {
                    meaning(old[q])
                }
            }
        }
}

proof fn lemma_write_chain_means<T>(
    w: World,
    regs: Seq<Name>,
    j: int,
    i: Sym,
    bits: u32,
    value: Val,
    values: Seq<Val>,
    info: SourceLoc,
    interp: Interp<Sym>,
    meaning: spec_fn(Val) -> T,
    t: Seq<bool>,
    old: Seq<Val>,
    start: LocalView,
)
    requires
        0 <= j <= regs.len(),
        t.len() == bits,
        regs.no_duplicates(),
        regs.len() <= vstd::arithmetic::power2::pow2(bits as nat),
        old.len() == regs.len(),
        (interp.var)(i) == Value::Bits(t),
        written(w.local, regs, old, j, bv::to_nat(t), value, meaning),
        forall|reg: Name|
            !regs.contains(reg) ==> #[trigger] laws::same_at(start, w.local, reg),
        w.local.vars == start.vars && w.local.lets == start.lets,
        vector::write_chain(w, regs, j, i, bits, value, values, info).1 is Ok,
        laws::takes_path(
            interp,
            vector::write_chain(w, regs, j, i, bits, value, values, info).0.solver.trace,
        ),
        choices_answered(
            interp,
            meaning,
            vector::write_chain(w, regs, j, i, bits, value, values, info).0.solver,
        ),
    ensures
        ({
            let end = vector::write_chain(w, regs, j, i, bits, value, values, info).0;
            &&& written(end.local, regs, old, regs.len() as int, bv::to_nat(t), value, meaning)
            &&& forall|reg: Name|
                !regs.contains(reg) ==> #[trigger] laws::same_at(start, end.local, reg)
            &&& end.local.vars == start.vars && end.local.lets == start.lets
        }),
    decreases regs.len() - j,
{
    broadcast use prefix::group_prefix;

    let (end, out) = vector::write_chain(w, regs, j, i, bits, value, values, info);
    if j < regs.len() {
        let marked = SolverView { attrs: DefAttrs { uninteresting: true }, ..w.solver };
        let (s, choice) = vector::define_choice(marked, i, j, bits, info);
        let w1 = World { solver: s, ..w };
        assert(w.local.regs.values.dom().contains(regs[j]));
        let (w2, current) = vector::must_read(w1, regs[j], info);
        assert(current == Ok::<Val, ExecError>(old[j]));
        let (s3, r) = vector::choose_value(w2.solver, choice->Ok_0, value, old[j], info);
        let local = LocalView { regs: w2.local.regs.assign(regs[j], r->Ok_0), ..w2.local };
        let w3 = World { local, solver: s3 };
        let more = values.push(old[j]);
        replay::lemma_must_read(w1, regs[j], info, seq![]);
        replay::lemma_choose_value(w2.solver, choice->Ok_0, value, old[j], info, seq![]);
        replay::lemma_write_chain(w3, regs, j + 1, i, bits, value, more, info, seq![]);
        lemma_choice_means(marked, i, j, bits, info, end.solver, interp, t);
        lemma_chosen(
            w2.solver,
            choice->Ok_0,
            value,
            old[j],
            info,
            end.solver,
            interp,
            meaning,
        );
        assert(written(w3.local, regs, old, j + 1, bv::to_nat(t), value, meaning)) by {
            assert forall|q: int| 0 <= q < regs.len() implies {
                &&& w3.local.regs.values.dom().contains(#[trigger] regs[q])
                &&& w3.local.regs.values[regs[q]] matches UVal::Init(x) && if q >= j + 1 {
                    x == old[q]
                } else {
                    meaning(x) == if q == bv::to_nat(t) {
                        meaning(value)
                    } else {
                        meaning(old[q])
                    }
                }
            } by {
                assert(w.local.regs.values.dom().contains(regs[q]));
            }
        }
        assert forall|reg: Name| !regs.contains(reg) implies #[trigger] laws::same_at(
            start,
            w3.local,
            reg,
        ) by {
            assert(laws::same_at(start, w.local, reg));
            assert(regs.contains(regs[j]));
        }
        lemma_write_chain_means(
            w3,
            regs,
            j + 1,
            i,
            bits,
            value,
            more,
            info,
            interp,
            meaning,
            t,
            old,
            start,
        );
    }
}

/// A write by a symbolic index changes the register at the position that the
/// index stands for, and no other: afterwards that register means what has
/// been written, and all others mean what they meant before.
pub proof fn law_write_by_symbolic_index<T>(
    w: World,
    v: Sym,
    value: Val,
    vector: Val,
    info: SourceLoc,
    interp: Interp<Sym>,
    meaning: spec_fn(Val) -> T,
    t: Seq<bool>,
    old: Seq<Val>,
)
    requires
        vector::registers(vector) is Some,
        vector::registers(vector)->0.len() <= usize::MAX,
        vector::registers(vector)->0.no_duplicates(),
        hold(w.local, vector::registers(vector)->0, old),
        vector::write_indexed(w, Val::Symbolic(v), value, vector, info).1 is Ok,
        (interp.var)(v) == Value::Bits(t),
        t.len() <= u32::MAX,
        w.solver.replies[w.solver.asked.len() as int].answer == AnswerView::Length(
            Some(t.len() as u32),
        ),
        laws::takes_path(
            interp,
            vector::write_indexed(w, Val::Symbolic(v), value, vector, info).0.solver.trace,
        ),
        choices_answered(
            interp,
            meaning,
            vector::write_indexed(w, Val::Symbolic(v), value, vector, info).0.solver,
        ),
    ensures
        ({
            let regs = vector::registers(vector)->0;
            let end = vector::write_indexed(w, Val::Symbolic(v), value, vector, info).0;
            let k = index_value(t, regs.len());
            &&& written(end.local, regs, old, regs.len() as int, k, value, meaning)
            &&& bv::to_nat(t) < regs.len() ==> k == bv::to_nat(t)
            &&& forall|reg: Name|
                !regs.contains(reg) ==> #[trigger] laws::same_at(w.local, end.local, reg)
            &&& end.local.vars == w.local.vars && end.local.lets == w.local.lets
        }),
{
    broadcast use prefix::group_prefix;

    let regs = vector::registers(vector)->0;
    let bits = vector::index_bits(regs.len()) as u32;
    law_index_bits(regs.len());
    vector::lemma_index_bits_word(regs.len());
    let errors = vector::spec_write_errors();
    let (end, result) = vector::write_indexed(w, Val::Symbolic(v), value, vector, info);
    let (s0, _) = w.solver.ask(RequestView::Length(v), info);
    let (s1, index) = vector::index_of(w.solver, Val::Symbolic(v), bits, errors, info);
    let i = index->Ok_0->Symbolic_0;
    let w1 = World { solver: s1, ..w };
    let (w2, r) = vector::write_chain(w1, regs, 0, i, bits, value, seq![], info);
    replay::lemma_write_chain(w1, regs, 0, i, bits, value, seq![], info, seq![]);
    assert(prefix::starts(w2.solver.trace, end.solver.trace));
    lemma_fixed_length_means(s0, v, t.len() as u32, bits, info, end.solver, interp, t);
    let u = bv::from_int(bits as nat, bv::to_nat(t) as int);
    bv::lemma_to_nat_from_int(bits as nat, bv::to_nat(t) as int);
    if bv::to_nat(t) < regs.len() {
        vstd::arithmetic::div_mod::lemma_small_mod(
            bv::to_nat(t),
            vstd::arithmetic::power2::pow2(bits as nat),
        );
    }
    lemma_shorter_path(interp, w2.solver.trace, end.solver.trace);
    lemma_write_chain_means(
        w1,
        regs,
        0,
        i,
        bits,
        value,
        seq![],
        info,
        interp,
        meaning,
        u,
        old,
        w.local,
    );
    assert(bv::to_nat(u) == index_value(t, regs.len()));
}

/// The number that a value stands for as an index.
pub open spec fn index_number(n: Val) -> Option<int> {
    match n {
        Val::Bits(b) => Some(bv::to_nat(b@) as int),
        Val::I64(i) => Some(i as int),
        Val::I128(i) => Some(i as int),
        _ => None,
    }
}

/// Reading by an index that is known gives what the register at that position
/// holds, and records that this register was read. Writing by it changes that
/// register alone, and records that. An index that is not the position of a
/// register gives an error, and then nothing changes.
pub proof fn law_known_index(
    w: World,
    n: Val,
    value: Val,
    vector: Val,
    info: SourceLoc,
    old: Seq<Val>,
    k: int,
)
    requires
        vector::registers(vector) is Some,
        hold(w.local, vector::registers(vector)->0, old),
        old.len() <= usize::MAX,
        index_number(n) == Some(k),
        n matches Val::Bits(b) ==> b@.len() <= 64,
    ensures
        ({
            let regs = vector::registers(vector)->0;
            let (after_read, read) = vector::read_indexed(w, n, vector, info);
            let (after_write, wrote) = vector::write_indexed(w, n, value, vector, info);
            &&& (read is Ok <==> 0 <= k < regs.len()) && (wrote is Ok <==> 0 <= k < regs.len())
            &&& read is Err ==> after_read == w && after_write == w
            &&& 0 <= k < regs.len() ==> {
                &&& read == Ok::<Val, ExecError>(old[k])
                &&& after_read.local == w.local
                &&& after_read.solver.trace == w.solver.trace.push(
                    EventView::ReadReg(regs[k], seq![], old[k]),
                )
                &&& after_write.solver.trace == w.solver.trace.push(
                    EventView::WriteReg(regs[k], seq![], value),
                )
                &&& after_write.local.regs.values == w.local.regs.values.insert(
                    regs[k],
                    UVal::Init(value),
                )
                &&& after_write.local.regs.unsynchronized.contains(regs[k])
            }
        }),
{
    let regs = vector::registers(vector)->0;
    if let Val::Bits(b) = n {
        bv::lemma_to_nat_bound(b@);
        vstd::arithmetic::power2::lemma2_to64_rest();
        if b@.len() < 64 {
            vstd::arithmetic::power2::lemma_pow2_strictly_increases(b@.len(), 64);
        }
    }
    if 0 <= k < regs.len() {
        assert(w.local.regs.values.dom().contains(regs[k]));
        let (regs1, s, r) = w.local.regs.get(regs[k], w.solver, info);
        assert(regs1 == w.local.regs);
    }
}

/// Whether the value of an expression is known without anything being asked,
/// recorded or changed.
pub open spec fn steady(w: World, sh: SharedState, exp: Exp, info: SourceLoc) -> bool {
    &&& eval::eval(w, sh, exp, seq![], info).0 == w
    &&& eval::eval(w, sh, exp, seq![], info).1 is Ok
}

/// The value of such an expression.
pub open spec fn value_of(w: World, sh: SharedState, exp: Exp, info: SourceLoc) -> Val {
    eval::eval(w, sh, exp, seq![], info).1->Ok_0
}

/// The fields of a struct that is written out have the values of their
/// expressions, and there are no others.
pub proof fn law_struct_fields(
    w: World,
    sh: SharedState,
    name: Name,
    fields: Vec<(Name, Exp)>,
    accessor: Seq<Accessor>,
    info: SourceLoc,
)
    requires
        forall|j: int| 0 <= j < fields@.len() ==> steady(w, sh, (#[trigger] fields@[j]).1, info),
        forall|i: int, j: int|
            0 <= i < j < fields@.len() ==> (#[trigger] fields@[i]).0 != (#[trigger] fields@[j]).0,
    ensures
        ({
            let (after, r) = eval::eval(w, sh, Exp::Struct(name, fields), accessor, info);
            &&& after == w
            &&& r matches Ok(Val::Struct(fs)) && {
                &&& forall|f: Name| #[trigger]
                    fs@.dom().contains(f) <==> exists|j: int|
                        0 <= j < fields@.len() && (#[trigger] fields@[j]).0 == f
                &&& forall|j: int|
                    0 <= j < fields@.len() ==> fs@[(#[trigger] fields@[j]).0] == value_of(
                        w,
                        sh,
                        fields@[j].1,
                        info,
                    )
            }
        }),
{
    lemma_eval_fields(w, sh, fields@, 0, Fields::Nil, info);
}

proof fn lemma_eval_fields(
    w: World,
    sh: SharedState,
    fields: Seq<(Name, Exp)>,
    j: int,
    done: Fields,
    info: SourceLoc,
)
    requires
        0 <= j <= fields.len(),
        forall|j: int| 0 <= j < fields.len() ==> steady(w, sh, (#[trigger] fields[j]).1, info),
        forall|i: int, j: int|
            0 <= i < j < fields.len() ==> (#[trigger] fields[i]).0 != (#[trigger] fields[j]).0,
        forall|f: Name| #[trigger]
            done@.dom().contains(f) <==> exists|i: int|
                0 <= i < j && (#[trigger] fields[i]).0 == f,
        forall|i: int|
            0 <= i < j ==> done@[(#[trigger] fields[i]).0] == value_of(w, sh, fields[i].1, info),
    ensures
        ({
            let (after, r) = eval::eval_fields(w, sh, fields, j, done, info);
            &&& after == w
            &&& r is Ok
            &&& forall|f: Name| #[trigger]
                r->Ok_0@.dom().contains(f) <==> exists|i: int|
                    0 <= i < fields.len() && (#[trigger] fields[i]).0 == f
            &&& forall|i: int|
                0 <= i < fields.len() ==> r->Ok_0@[(#[trigger] fields[i]).0] == value_of(
                    w,
                    sh,
                    fields[i].1,
                    info,
                )
        }),
    decreases fields.len() - j,
{
    if j < fields.len() {
        let v = value_of(w, sh, fields[j].1, info);
        assert(steady(w, sh, fields[j].1, info));
        done.lemma_with(fields[j].0, v);
        let next = done.with(fields[j].0, v);
        assert forall|f: Name| #[trigger] next@.dom().contains(f) <==> exists|i: int|
            0 <= i < j + 1 && (#[trigger] fields[i]).0 == f by {
            if next@.dom().contains(f) {
                if f == fields[j].0 {
                    assert(fields[j].0 == f);
                } else {
                    assert(done@.dom().contains(f));
                }
            }
        }
        lemma_eval_fields(w, sh, fields, j + 1, next, info);
    }
}

/// A field of a value is what the struct holds under that name. It can be read
/// exactly if the value is a struct that has it.
pub proof fn law_field_of_struct(
    w: World,
    sh: SharedState,
    exp: std::sync::Arc<Exp>,
    field: Name,
    accessor: Seq<Accessor>,
    info: SourceLoc,
)
    ensures
        ({
            let (inner_world, inner) = eval::eval(
                w,
                sh,
                eval::shared_exp(exp),
                accessor.push(Accessor::Field(field)),
                info,
            );
            let (after, r) = eval::eval(w, sh, Exp::Field(exp, field), accessor, info);
            &&& after == inner_world
            &&& r is Ok <==> (inner matches Ok(Val::Struct(fs)) && fs@.dom().contains(field))
            &&& r matches Ok(v) ==> inner->Ok_0->Struct_0@[field] == v
        }),
{
}

} // verus!
