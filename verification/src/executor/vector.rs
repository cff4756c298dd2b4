//! Registers that are chosen by an index.

use super::error::{ExecError, Malformed, TypeError};
use super::ir::{SourceLoc, Val, Vals, READ_REGISTER_FROM_VECTOR, WRITE_REGISTER_FROM_VECTOR};
use super::names::{Dup, Name};
use super::solver::{self, Answer, AnswerView, DefAttrs, Event, EventView, Request, RequestView, Solver, SolverView};
use super::state::{self, LocalState, LocalView, World};
use crate::bitvector::B64;
use crate::bv;
use crate::smt::smtlib::{Exp, Sym};
use crate::smt::tree::{self, Tree};
use vstd::prelude::*;

verus! {

/// How many bits an index into `n` elements has: the least number of bits,
/// one at least, that tells the elements apart.
pub open spec fn index_bits(n: nat) -> nat
    decreases n,
{
    if n <= 2 {
        1
    } else {
        1 + index_bits((n + 1) / 2)
    }
}

/// An index has no more bits than the number of elements.
proof fn lemma_index_bits(n: nat, k: nat)
    requires
        n <= vstd::arithmetic::power2::pow2(k),
        k >= 1,
    ensures
        1 <= index_bits(n) <= k,
    decreases n,
{
    vstd::arithmetic::power2::lemma2_to64();
    if n > 2 {
        if k == 1 {
            assert(false);
        }
        vstd::arithmetic::power2::lemma_pow2_unfold(k);
        lemma_index_bits((n + 1) / 2, (k - 1) as nat);
    }
}

/// An index into as many elements as a machine can hold fits in a word.
pub(crate) proof fn lemma_index_bits_word(n: nat)
    requires
        n <= usize::MAX,
    ensures
        1 <= index_bits(n) <= 64,
{
    vstd::arithmetic::power2::lemma2_to64_rest();
    lemma_index_bits(n, 64);
}

pub fn required_index_bits(n: usize) -> (r: u32)
    ensures
        r == index_bits(n as nat),
        1 <= r <= 64,
{
    proof {
        vstd::arithmetic::power2::lemma2_to64_rest();
        lemma_index_bits(n as nat, 64);
    }
    let mut m = n;
    let mut r: u32 = 1;
    while m > 2
        invariant
            r + index_bits(m as nat) == 1 + index_bits(n as nat),
            1 <= index_bits(n as nat) <= 64,
            1 <= r,
        decreases m,
    {
        proof {
            vstd::arithmetic::power2::lemma2_to64_rest();
            lemma_index_bits(((m + 1) / 2) as nat, 64);
        }
        m = m / 2 + m % 2;
        r = r + 1;
    }
    r
}

/// The registers that a vector of references names.
pub open spec fn registers(v: Val) -> Option<Seq<Name>> {
    match v {
        Val::Vector(vals) => if forall|i: int|
            0 <= i < vals@.len() ==> (#[trigger] vals@[i]) is Ref {
            Some(Seq::new(vals@.len(), |i: int| vals@[i]->Ref_0))
        } else {
            None
        },
        _ => None,
    }
}

fn registers_of(v: &Val) -> (r: Option<Vec<Name>>)
    ensures
        match r {
            Some(regs) => registers(*v) == Some(regs@),
            None => registers(*v) is None,
        },
{
    let vals = match v {
        Val::Vector(vals) => vals.to_vec(),
        _ => {
            return None;
        },
    };
    let mut regs: Vec<Name> = Vec::new();
    let mut i: usize = 0;
    while i < vals.len()
        invariant
            *v is Vector,
            v->Vector_0@ == vals@,
            i <= vals@.len(),
            regs@.len() == i,
            forall|j: int|
                0 <= j < i ==> (#[trigger] vals@[j]) is Ref && vals@[j]->Ref_0 == regs@[j],
        decreases vals@.len() - i,
    {
        match &vals[i] {
            Val::Ref(r) => {
                regs.push(*r);
            },
            _ => {
                assert(!(vals@[i as int] is Ref));
                return None;
            },
        }
        i = i + 1;
    }
    assert(registers(*v)->0 =~= regs@);
    Some(regs)
}

/// The element that is meant.
pub enum Index {
    Concrete(u64),
    Symbolic(Sym),
}

/// The errors of reading or of writing.
pub struct IndexErrors {
    pub registers: TypeError,
    pub index: TypeError,
    pub length: TypeError,
    pub index_type: TypeError,
}

pub open spec fn spec_read_errors() -> IndexErrors {
    IndexErrors {
        registers: TypeError::ReadVectorRegisters,
        index: TypeError::ReadVectorIndex,
        length: TypeError::ReadVectorIndexLength,
        index_type: TypeError::ReadVectorIndexType,
    }
}

pub open spec fn spec_write_errors() -> IndexErrors {
    IndexErrors {
        registers: TypeError::WriteVectorRegisters,
        index: TypeError::WriteVectorIndex,
        length: TypeError::WriteVectorIndexLength,
        index_type: TypeError::WriteVectorIndexType,
    }
}

fn read_errors() -> (r: IndexErrors)
    ensures
        r == spec_read_errors(),
{
    IndexErrors {
        registers: TypeError::ReadVectorRegisters,
        index: TypeError::ReadVectorIndex,
        length: TypeError::ReadVectorIndexLength,
        index_type: TypeError::ReadVectorIndexType,
    }
}

fn write_errors() -> (r: IndexErrors)
    ensures
        r == spec_write_errors(),
{
    IndexErrors {
        registers: TypeError::WriteVectorRegisters,
        index: TypeError::WriteVectorIndex,
        length: TypeError::WriteVectorIndexLength,
        index_type: TypeError::WriteVectorIndexType,
    }
}

/// An index of `to` bits with the value of `i`, which has `from` bits, as far
/// as it fits.
pub open spec fn fixed_length(s: SolverView, i: Sym, from: u32, to: u32, info: SourceLoc) -> (
    SolverView,
    Result<Sym, ExecError>,
) {
    if from == to {
        (s, Ok(i))
    } else if from > to {
        s.define_const(
            solver::unary(tree::Op::Extract((to - 1) as u32, 0), solver::var(i)),
            info,
        )
    } else {
        s.define_const(
            solver::unary(tree::Op::ZeroExtend((to - from) as u32), solver::var(i)),
            info,
        )
    }
}

pub fn fix_index_length(i: Sym, from: u32, to: u32, solver: &mut Solver, info: SourceLoc) -> (r:
    Result<Sym, ExecError>)
    requires
        to >= 1,
    ensures
        (final(solver)@, r) == fixed_length(old(solver)@, i, from, to, info),
{
    if from == to {
        Ok(i)
    } else if from > to {
        let exp = Exp::Extract(to - 1, 0, Box::new(Exp::Var(i)));
        proof {
            exp.lemma_tree1();
        }
        solver.define_const(exp, info)
    } else {
        let exp = Exp::ZeroExtend(to - from, Box::new(Exp::Var(i)));
        proof {
            exp.lemma_tree1();
        }
        solver.define_const(exp, info)
    }
}

/// The element that a value stands for as an index.
pub open spec fn index_of(
    s: SolverView,
    n: Val,
    bits: u32,
    errors: IndexErrors,
    info: SourceLoc,
) -> (SolverView, Result<Index, ExecError>) {
    match n {
        Val::Bits(b) => (s, Ok(Index::Concrete(bv::to_nat(b@) as u64))),
        Val::I64(i) => (
            s,
            if i >= 0 {
                Ok(Index::Concrete(i as u64))
            } else {
                Err(ExecError::Type(errors.index, info))
            },
        ),
        Val::I128(i) => (
            s,
            if 0 <= i <= u64::MAX {
                Ok(Index::Concrete(i as u64))
            } else {
                Err(ExecError::Type(errors.index, info))
            },
        ),
        Val::Symbolic(v) => {
            let (s, r) = s.ask(RequestView::Length(v), info);
            match r {
                Ok(AnswerView::Length(Some(len))) => {
                    let (s, r) = fixed_length(s, v, len, bits, info);
                    (
                        s,
                        match r {
                            Ok(v) => Ok(Index::Symbolic(v)),
                            Err(e) => Err(e),
                        },
                    )
                },
                Ok(AnswerView::Length(None)) => (s, Err(ExecError::Type(errors.length, info))),
                Ok(_) => (s, Err(ExecError::UnexpectedAnswer)),
                Err(e) => (s, Err(e)),
            }
        },
        _ => (s, Err(ExecError::Type(errors.index_type, info))),
    }
}

fn get_index(n: &Val, bits: u32, errors: &IndexErrors, solver: &mut Solver, info: SourceLoc) -> (r:
    Result<Index, ExecError>)
    requires
        bits >= 1,
    ensures
        (final(solver)@, r) == index_of(old(solver)@, *n, bits, *errors, info),
{
    match n {
        Val::Bits(b) => Ok(Index::Concrete(b.lower_u64())),
        Val::I64(i) => if *i >= 0 {
            Ok(Index::Concrete(*i as u64))
        } else {
            Err(ExecError::Type(errors.index.dup(), info))
        },
        Val::I128(i) => if *i >= 0 && *i <= u64::MAX as i128 {
            Ok(Index::Concrete(*i as u64))
        } else {
            Err(ExecError::Type(errors.index.dup(), info))
        },
        Val::Symbolic(v) => match solver.ask(Request::Length(*v), info) {
            Ok(Answer::Length(Some(len))) => match fix_index_length(*v, len, bits, solver, info) {
                Ok(v) => Ok(Index::Symbolic(v)),
                Err(e) => Err(e),
            },
            Ok(Answer::Length(None)) => Err(ExecError::Type(errors.length.dup(), info)),
            Ok(_) => Err(ExecError::UnexpectedAnswer),
            Err(e) => Err(e),
        },
        _ => Err(ExecError::Type(errors.index_type.dup(), info)),
    }
}

/// The condition that a symbolic index is `j`.
pub open spec fn chooses(i: Sym, j: int, bits: u32) -> Tree<Sym> {
    solver::binary(
        tree::Op::Eq,
        solver::var(i),
        tree::leaf(tree::Op::Bits64(bv::from_int(bits as nat, j))),
    )
}

/// Defines the condition that a symbolic index is `j`, as one of no interest
/// to readers of the trace.
pub open spec fn define_choice(s: SolverView, i: Sym, j: int, bits: u32, info: SourceLoc) -> (
    SolverView,
    Result<Sym, ExecError>,
) {
    let attrs = s.attrs;
    let marked = SolverView { attrs: DefAttrs { uninteresting: true }, ..s };
    let (s, r) = marked.define_const(chooses(i, j, bits), info);
    (SolverView { attrs, ..s }, r)
}

fn define_choice_const(i: Sym, j: u64, bits: u32, solver: &mut Solver, info: SourceLoc) -> (r:
    Result<Sym, ExecError>)
    requires
        bits <= 64,
    ensures
        (final(solver)@, r) == define_choice(old(solver)@, i, j as int, bits, info),
{
    let attrs = solver.attrs();
    solver.set_def_attrs(DefAttrs { uninteresting: true });
    let constant = Exp::Bits64(B64::new(j, bits));
    proof {
        constant.lemma_tree0();
    }
    let exp = Exp::Eq(Box::new(Exp::Var(i)), Box::new(constant));
    proof {
        exp.lemma_tree2();
    }
    let r = solver.define_const(exp, info);
    solver.set_def_attrs(attrs);
    r
}

/// Asks for the value that a condition chooses, as a definition of no
/// interest to readers of the trace.
pub open spec fn choose_value(s: SolverView, choice: Sym, a: Val, b: Val, info: SourceLoc) -> (
    SolverView,
    Result<Val, ExecError>,
) {
    let attrs = s.attrs;
    let marked = SolverView { attrs: DefAttrs { uninteresting: true }, ..s };
    let (s, r) = marked.ask_val(RequestView::Ite(choice, a, b), info);
    (SolverView { attrs, ..s }, r)
}

fn build_choice(choice: Sym, a: &Val, b: &Val, solver: &mut Solver, info: SourceLoc) -> (r: Result<
    Val,
    ExecError,
>)
    ensures
        (final(solver)@, r) == choose_value(old(solver)@, choice, *a, *b, info),
{
    let attrs = solver.attrs();
    solver.set_def_attrs(DefAttrs { uninteresting: true });
    let r = solver.ask_val(Request::Ite(choice, a.dup(), b.dup()), info);
    solver.set_def_attrs(attrs);
    r
}

/// Reads a register that has to exist.
pub open spec fn must_read(w: World, reg: Name, info: SourceLoc) -> (
    World,
    Result<Val, ExecError>,
) {
    let (regs, s, r) = w.local.regs.get(reg, w.solver, info);
    (
        World { local: LocalView { regs, ..w.local }, solver: s },
        match r {
            Ok(Some(v)) => Ok(v),
            Ok(None) => Err(ExecError::Malformed(Malformed::NoRegister)),
            Err(e) => Err(e),
        },
    )
}

fn get_existing(reg: Name, local_state: &mut LocalState, solver: &mut Solver, info: SourceLoc) -> (r:
    Result<Val, ExecError>)
    ensures
        (state::world(*final(local_state), *final(solver)), r) == must_read(
            state::world(*old(local_state), *old(solver)),
            reg,
            info,
        ),
{
    match local_state.regs.get(reg, solver, info) {
        Ok(Some(v)) => Ok(v),
        Ok(None) => Err(ExecError::Malformed(Malformed::NoRegister)),
        Err(e) => Err(e),
    }
}

/// The value of the register that a symbolic index chooses, from position
/// `j` on, where `chain` is the value if the index is below `j`; and all the
/// values, where `values` are those below `j`.
pub open spec fn read_chain(
    w: World,
    regs: Seq<Name>,
    j: int,
    i: Sym,
    bits: u32,
    chain: Val,
    values: Seq<Val>,
    info: SourceLoc,
) -> (World, Result<(Val, Seq<Val>), ExecError>)
    decreases regs.len() - j,
{
    if j >= regs.len() {
        (w, Ok((chain, values)))
    } else {
        let (s, choice) = define_choice(w.solver, i, j, bits, info);
        let w = World { solver: s, ..w };
        match choice {
            Err(e) => (w, Err(e)),
            Ok(choice) => {
                let (w, value) = must_read(w, regs[j], info);
                match value {
                    Err(e) => (w, Err(e)),
                    Ok(value) => {
                        let (s, r) = choose_value(w.solver, choice, value, chain, info);
                        let w = World { solver: s, ..w };
                        match r {
                            Err(e) => (w, Err(e)),
                            Ok(chain) => read_chain(
                                w,
                                regs,
                                j + 1,
                                i,
                                bits,
                                chain,
                                values.push(value),
                                info,
                            ),
                        }
                    },
                }
            },
        }
    }
}

/// Reads the register that an index chooses, and records that.
pub open spec fn read_indexed(w: World, n: Val, vector: Val, info: SourceLoc) -> (
    World,
    Result<Val, ExecError>,
) {
    match registers(vector) {
        None => (w, Err(ExecError::Type(spec_read_errors().registers, info))),
        Some(regs) => {
            let bits = index_bits(regs.len()) as u32;
            let (s, index) = index_of(w.solver, n, bits, spec_read_errors(), info);
            let w = World { solver: s, ..w };
            match index {
                Err(e) => (w, Err(e)),
                Ok(Index::Concrete(i)) => if i < regs.len() {
                    let reg = regs[i as int];
                    let (w, r) = must_read(w, reg, info);
                    match r {
                        Err(e) => (w, Err(e)),
                        Ok(v) => (
                            World {
                                solver: w.solver.record(EventView::ReadReg(reg, seq![], v)),
                                ..w
                            },
                            Ok(v),
                        ),
                    }
                } else {
                    (w, Err(ExecError::Malformed(Malformed::IndexOutOfRange)))
                },
                Ok(Index::Symbolic(i)) => if regs.len() == 0 {
                    (w, Err(ExecError::Malformed(Malformed::IndexOutOfRange)))
                } else {
                    let (w, first) = must_read(w, regs[0], info);
                    match first {
                        Err(e) => (w, Err(e)),
                        Ok(first) => {
                            let (w, r) = read_chain(
                                w,
                                regs,
                                1,
                                i,
                                bits,
                                first,
                                seq![first],
                                info,
                            );
                            match r {
                                Err(e) => (w, Err(e)),
                                Ok((chain, values)) => (
                                    World {
                                        solver: w.solver.record(
                                            EventView::Abstract {
                                                name: READ_REGISTER_FROM_VECTOR,
                                                primitive: true,
                                                args: seq![n, vector, Val::Vector(Vals::of(values))],
                                                return_value: chain,
                                            },
                                        ),
                                        ..w
                                    },
                                    Ok(chain),
                                ),
                            }
                        },
                    }
                },
            }
        },
    }
}

fn read_by_choice(
    regs: &Vec<Name>,
    i: Sym,
    bits: u32,
    first: Val,
    local_state: &mut LocalState,
    solver: &mut Solver,
    info: SourceLoc,
) -> (r: Result<(Val, Vec<Val>), ExecError>)
    requires
        bits <= 64,
        regs@.len() > 0,
    ensures
        ({
            let (w, out) = read_chain(
                state::world(*old(local_state), *old(solver)),
                regs@,
                1,
                i,
                bits,
                first,
                seq![first],
                info,
            );
            &&& state::world(*final(local_state), *final(solver)) == w
            &&& match r {
                Ok((chain, values)) => out == Ok::<(Val, Seq<Val>), ExecError>((chain, values@)),
                Err(e) => out == Err::<(Val, Seq<Val>), ExecError>(e),
            }
        }),
{
    let ghost whole = read_chain(
        state::world(*local_state, *solver),
        regs@,
        1,
        i,
        bits,
        first,
        seq![first],
        info,
    );
    let mut chain = first.dup();
    let mut values: Vec<Val> = Vec::new();
    values.push(first);
    assert(values@ =~= seq![first]);
    let mut j: usize = 1;
    while j < regs.len()
        invariant
            1 <= j <= regs@.len(),
            bits <= 64,
            whole == read_chain(
                state::world(*old(local_state), *old(solver)),
                regs@,
                1,
                i,
                bits,
                first,
                seq![first],
                info,
            ),
            whole == read_chain(
                state::world(*local_state, *solver),
                regs@,
                j as int,
                i,
                bits,
                chain,
                values@,
                info,
            ),
        decreases regs@.len() - j,
    {
        let choice = match define_choice_const(i, j as u64, bits, solver, info) {
            Ok(choice) => choice,
            Err(e) => {
                return Err(e);
            },
        };
        let value = match get_existing(regs[j], local_state, solver, info) {
            Ok(value) => value,
            Err(e) => {
                return Err(e);
            },
        };
        chain =
        match build_choice(choice, &value, &chain, solver, info) {
            Ok(v) => v,
            Err(e) => {
                return Err(e);
            },
        };
        values.push(value);
        j = j + 1;
    }
    Ok((chain, values))
}

pub fn read_register_from_vector(
    n: Val,
    regs_vector: Val,
    local_state: &mut LocalState,
    solver: &mut Solver,
    info: SourceLoc,
) -> (r: Result<Val, ExecError>)
    ensures
        (state::world(*final(local_state), *final(solver)), r) == read_indexed(
            state::world(*old(local_state), *old(solver)),
            n,
            regs_vector,
            info,
        ),
{
    let errors = read_errors();
    let regs = match registers_of(&regs_vector) {
        Some(regs) => regs,
        None => {
            return Err(ExecError::Type(errors.registers.dup(), info));
        },
    };
    let bits = required_index_bits(regs.len());
    match get_index(&n, bits, &errors, solver, info) {
        Err(e) => Err(e),
        Ok(Index::Concrete(i)) => {
            if i < regs.len() as u64 {
                let reg = regs[i as usize];
                match get_existing(reg, local_state, solver, info) {
                    Err(e) => Err(e),
                    Ok(v) => {
                        let event = Event::ReadReg(reg, Vec::new(), v.dup());
                        assert(event@ == EventView::ReadReg(reg, seq![], v));
                        solver.add_event(event);
                        Ok(v)
                    },
                }
            } else {
                Err(ExecError::Malformed(Malformed::IndexOutOfRange))
            }
        },
        Ok(Index::Symbolic(i)) => {
            if regs.len() == 0 {
                return Err(ExecError::Malformed(Malformed::IndexOutOfRange));
            }
            let first = match get_existing(regs[0], local_state, solver, info) {
                Err(e) => {
                    return Err(e);
                },
                Ok(v) => v,
            };
            match read_by_choice(&regs, i, bits, first, local_state, solver, info) {
                Err(e) => Err(e),
                Ok((chain, values)) => {
                    let args = vec![n, regs_vector, Val::Vector(Vals::from_vec(values))];
                    let event = Event::Abstract {
                        name: READ_REGISTER_FROM_VECTOR,
                        primitive: true,
                        args,
                        return_value: chain.dup(),
                    };
                    solver.add_event(event);
                    Ok(chain)
                },
            }
        },
    }
}

/// Gives each register from position `j` on the new value if a symbolic index
/// chooses it, and collects the values before; `values` are those below `j`.
pub open spec fn write_chain(
    w: World,
    regs: Seq<Name>,
    j: int,
    i: Sym,
    bits: u32,
    value: Val,
    values: Seq<Val>,
    info: SourceLoc,
) -> (World, Result<Seq<Val>, ExecError>)
    decreases regs.len() - j,
{
    if j >= regs.len() {
        (w, Ok(values))
    } else {
        let marked = SolverView { attrs: DefAttrs { uninteresting: true }, ..w.solver };
        let (s, choice) = define_choice(marked, i, j, bits, info);
        let w = World { solver: s, ..w };
        match choice {
            Err(e) => (w, Err(e)),
            Ok(choice) => {
                let (w, current) = must_read(w, regs[j], info);
                match current {
                    Err(e) => (w, Err(e)),
                    Ok(current) => {
                        let (s, r) = choose_value(w.solver, choice, value, current, info);
                        let w = World { solver: s, ..w };
                        match r {
                            Err(e) => (w, Err(e)),
                            Ok(chosen) => write_chain(
                                World {
                                    local: LocalView {
                                        regs: w.local.regs.assign(regs[j], chosen),
                                        ..w.local
                                    },
                                    ..w
                                },
                                regs,
                                j + 1,
                                i,
                                bits,
                                value,
                                values.push(current),
                                info,
                            ),
                        }
                    },
                }
            },
        }
    }
}

/// Writes to the register that an index chooses, and records that. After a
/// symbolic choice, definitions stay marked as being of no interest.
pub open spec fn write_indexed(w: World, n: Val, value: Val, vector: Val, info: SourceLoc) -> (
    World,
    Result<(), ExecError>,
) {
    match registers(vector) {
        None => (w, Err(ExecError::Type(spec_write_errors().registers, info))),
        Some(regs) => {
            let bits = index_bits(regs.len()) as u32;
            let (s, index) = index_of(w.solver, n, bits, spec_write_errors(), info);
            let w = World { solver: s, ..w };
            match index {
                Err(e) => (w, Err(e)),
                Ok(Index::Concrete(i)) => if i < regs.len() {
                    let reg = regs[i as int];
                    (
                        World {
                            local: LocalView { regs: w.local.regs.assign(reg, value), ..w.local },
                            solver: w.solver.record(EventView::WriteReg(reg, seq![], value)),
                        },
                        Ok(()),
                    )
                } else {
                    (w, Err(ExecError::Malformed(Malformed::IndexOutOfRange)))
                },
                Ok(Index::Symbolic(i)) => {
                    let (w, r) = write_chain(w, regs, 0, i, bits, value, seq![], info);
                    match r {
                        Err(e) => (w, Err(e)),
                        Ok(values) => (
                            World {
                                solver: w.solver.record(
                                    EventView::Abstract {
                                        name: WRITE_REGISTER_FROM_VECTOR,
                                        primitive: true,
                                        args: seq![
                                            n,
                                            value,
                                            vector,
                                            Val::Vector(Vals::of(values)),
                                        ],
                                        return_value: Val::Unit,
                                    },
                                ),
                                ..w
                            },
                            Ok(()),
                        ),
                    }
                },
            }
        },
    }
}

fn write_by_choice(
    regs: &Vec<Name>,
    i: Sym,
    bits: u32,
    value: &Val,
    local_state: &mut LocalState,
    solver: &mut Solver,
    info: SourceLoc,
) -> (r: Result<Vec<Val>, ExecError>)
    requires
        bits <= 64,
    ensures
        ({
            let (w, out) = write_chain(
                state::world(*old(local_state), *old(solver)),
                regs@,
                0,
                i,
                bits,
                *value,
                seq![],
                info,
            );
            &&& state::world(*final(local_state), *final(solver)) == w
            &&& match r {
                Ok(values) => out == Ok::<Seq<Val>, ExecError>(values@),
                Err(e) => out == Err::<Seq<Val>, ExecError>(e),
            }
        }),
{
    let ghost whole = write_chain(
        state::world(*local_state, *solver),
        regs@,
        0,
        i,
        bits,
        *value,
        seq![],
        info,
    );
    let mut values: Vec<Val> = Vec::new();
    let mut j: usize = 0;
    assert(values@ =~= seq![]);
    while j < regs.len()
        invariant
            j <= regs@.len(),
            bits <= 64,
            whole == write_chain(
                state::world(*old(local_state), *old(solver)),
                regs@,
                0,
                i,
                bits,
                *value,
                seq![],
                info,
            ),
            whole == write_chain(
                state::world(*local_state, *solver),
                regs@,
                j as int,
                i,
                bits,
                *value,
                values@,
                info,
            ),
        decreases regs@.len() - j,
    {
        solver.set_def_attrs(DefAttrs { uninteresting: true });
        let choice = match define_choice_const(i, j as u64, bits, solver, info) {
            Ok(choice) => choice,
            Err(e) => {
                return Err(e);
            },
        };
        let current = match get_existing(regs[j], local_state, solver, info) {
            Ok(v) => v,
            Err(e) => {
                return Err(e);
            },
        };
        let chosen = match build_choice(choice, value, &current, solver, info) {
            Ok(v) => v,
            Err(e) => {
                return Err(e);
            },
        };
        local_state.regs.assign(regs[j], chosen);
        values.push(current);
        j = j + 1;
    }
    Ok(values)
}

pub fn write_register_from_vector(
    n: Val,
    value: Val,
    regs_vector: Val,
    local_state: &mut LocalState,
    solver: &mut Solver,
    info: SourceLoc,
) -> (r: Result<(), ExecError>)
    ensures
        (state::world(*final(local_state), *final(solver)), r) == write_indexed(
            state::world(*old(local_state), *old(solver)),
            n,
            value,
            regs_vector,
            info,
        ),
{
    let errors = write_errors();
    let regs = match registers_of(&regs_vector) {
        Some(regs) => regs,
        None => {
            return Err(ExecError::Type(errors.registers.dup(), info));
        },
    };
    let bits = required_index_bits(regs.len());
    match get_index(&n, bits, &errors, solver, info) {
        Err(e) => Err(e),
        Ok(Index::Concrete(i)) => {
            if i < regs.len() as u64 {
                let reg = regs[i as usize];
                local_state.regs.assign(reg, value.dup());
                let event = Event::WriteReg(reg, Vec::new(), value);
                assert(event@ == EventView::WriteReg(reg, seq![], value));
                solver.add_event(event);
                Ok(())
            } else {
                Err(ExecError::Malformed(Malformed::IndexOutOfRange))
            }
        },
        Ok(Index::Symbolic(i)) => {
            match write_by_choice(&regs, i, bits, &value, local_state, solver, info) {
                Err(e) => Err(e),
                Ok(values) => {
                    let args = vec![n, value, regs_vector, Val::Vector(Vals::from_vec(values))];
                    let event = Event::Abstract {
                        name: WRITE_REGISTER_FROM_VECTOR,
                        primitive: true,
                        args,
                        return_value: Val::Unit,
                    };
                    solver.add_event(event);
                    Ok(())
                },
            }
        },
    }
}

} // verus!
