//! What the path records of registers that are read and written by an index.

use super::choices;
use super::error::ExecError;
use super::ir::{SourceLoc, UVal, Val, Vals, READ_REGISTER_FROM_VECTOR, WRITE_REGISTER_FROM_VECTOR};
use super::names::Name;
use super::solver::{DefAttrs, DefView, EventView, RequestView, SolverView};
use super::state::{LocalView, World};
use super::vector;
use crate::smt::smtlib::Sym;
use vstd::prelude::*;

verus! {

/// The registers that a vector refers to are those of its elements, each in
/// its position.
pub proof fn law_registers_in_order(vector: Val)
    ensures
        vector::registers(vector) matches Some(regs) ==> (vector matches Val::Vector(vals) && {
            &&& regs.len() == vals@.len()
            &&& forall|i: int| 0 <= i < regs.len() ==> vals@[i] == Val::Ref(#[trigger] regs[i])
        }),
{
}

/// What is defined and asked for to choose a register is marked as
/// uninteresting, and nothing that comes later is marked because of it.
pub proof fn law_choices_are_uninteresting(
    s: SolverView,
    i: Sym,
    j: int,
    bits: u32,
    choice: Sym,
    a: Val,
    b: Val,
    info: SourceLoc,
)
    ensures
        ({
            let (defined, d) = vector::define_choice(s, i, j, bits, info);
            let (asked, _) = vector::choose_value(s, choice, a, b, info);
            &&& defined.attrs == s.attrs
            &&& d matches Ok(sym) ==> (defined.trace.last() matches EventView::Smt(
                DefView::DefineConst(v, _),
                attrs,
                _,
            ) && v == sym && attrs.uninteresting)
            &&& asked.attrs == s.attrs
            &&& asked.asked.last().attrs.uninteresting
            &&& asked.asked.last().request == RequestView::Ite(choice, a, b)
        }),
{
}

proof fn lemma_values_read(
    w: World,
    regs: Seq<Name>,
    j: int,
    i: Sym,
    bits: u32,
    chain: Val,
    values: Seq<Val>,
    info: SourceLoc,
)
    requires
        1 <= j <= regs.len(),
        choices::hold(w.local, regs.take(j), values),
        vector::read_chain(w, regs, j, i, bits, chain, values, info).1 is Ok,
    ensures
        ({
            let (end, r) = vector::read_chain(w, regs, j, i, bits, chain, values, info);
            choices::hold(end.local, regs, r->Ok_0.1)
        }),
    decreases regs.len() - j,
{
    if j < regs.len() {
        let (s, choice) = vector::define_choice(w.solver, i, j, bits, info);
        let w1 = World { solver: s, ..w };
        let (w2, value) = vector::must_read(w1, regs[j], info);
        let (s3, r) = vector::choose_value(w2.solver, choice->Ok_0, value->Ok_0, chain, info);
        let w3 = World { solver: s3, ..w2 };
        let more = values.push(value->Ok_0);
        assert forall|q: int| 0 <= q < j + 1 implies {
            &&& w3.local.regs.values.dom().contains(#[trigger] regs.take(j + 1)[q])
            &&& w3.local.regs.values[regs.take(j + 1)[q]] == UVal::Init(more[q])
        } by {
            if q < j {
                assert(regs.take(j)[q] == regs[q]);
            }
        }
        lemma_values_read(w3, regs, j + 1, i, bits, r->Ok_0, more, info);
    } else {
        assert(regs.take(j) =~= regs);
    }
}

/// A read by a symbolic index is recorded last, as an abstract call of the
/// function that reads, with the index, the vector and what all its registers
/// hold, and with the value that was read.
pub proof fn law_symbolic_read_is_recorded(w: World, v: Sym, vector: Val, info: SourceLoc)
    requires
        vector::read_indexed(w, Val::Symbolic(v), vector, info).1 is Ok,
    ensures
        ({
            let (end, r) = vector::read_indexed(w, Val::Symbolic(v), vector, info);
            let regs = vector::registers(vector)->0;
            &&& end.solver.trace.len() > 0
            &&& (end.solver.trace.last() matches EventView::Abstract {
                name,
                primitive,
                args,
                return_value,
            } && {
                &&& name == READ_REGISTER_FROM_VECTOR
                &&& primitive
                &&& args.len() == 3
                &&& args[0] == Val::Symbolic(v)
                &&& args[1] == vector
                &&& (args[2] matches Val::Vector(values) && choices::hold(end.local, regs, values@))
                &&& r == Ok::<Val, ExecError>(return_value)
            })
        }),
{
    let regs = vector::registers(vector)->0;
    let bits = vector::index_bits(regs.len()) as u32;
    let errors = vector::spec_read_errors();
    let (s1, index) = vector::index_of(w.solver, Val::Symbolic(v), bits, errors, info);
    let i = index->Ok_0->Symbolic_0;
    let w1 = World { solver: s1, ..w };
    let (w2, first) = vector::must_read(w1, regs[0], info);
    let start = seq![first->Ok_0];
    let (w3, r) = vector::read_chain(w2, regs, 1, i, bits, first->Ok_0, start, info);
    assert(regs.take(1) =~= seq![regs[0]]);
    lemma_values_read(w2, regs, 1, i, bits, first->Ok_0, start, info);
    Vals::lemma_of(r->Ok_0.1);
}

/// Whether no register occurs twice.
pub open spec fn are_distinct(regs: Seq<Name>) -> bool {
    forall|a: int, b: int| 0 <= a < b < regs.len() ==> #[trigger] regs[a] != #[trigger] regs[b]
}

proof fn lemma_values_written(
    w: World,
    regs: Seq<Name>,
    j: int,
    i: Sym,
    bits: u32,
    value: Val,
    values: Seq<Val>,
    info: SourceLoc,
    before: Seq<Val>,
)
    requires
        0 <= j <= regs.len(),
        are_distinct(regs),
        regs.len() == before.len(),
        values == before.take(j),
        forall|q: int|
            j <= q < regs.len() ==> {
                &&& w.local.regs.values.dom().contains(#[trigger] regs[q])
                &&& w.local.regs.values[regs[q]] == UVal::Init(before[q])
            },
        vector::write_chain(w, regs, j, i, bits, value, values, info).1 is Ok,
    ensures
        vector::write_chain(w, regs, j, i, bits, value, values, info).1->Ok_0 == before,
    decreases regs.len() - j,
{
    if j < regs.len() {
        let marked = SolverView { attrs: DefAttrs { uninteresting: true }, ..w.solver };
        let (s, choice) = vector::define_choice(marked, i, j, bits, info);
        let w1 = World { solver: s, ..w };
        let (w2, current) = vector::must_read(w1, regs[j], info);
        assert(current == Ok::<Val, ExecError>(before[j]));
        let (s3, r) = vector::choose_value(w2.solver, choice->Ok_0, value, before[j], info);
        let w3 = World { solver: s3, ..w2 };
        let w4 = World {
            local: LocalView { regs: w3.local.regs.assign(regs[j], r->Ok_0), ..w3.local },
            ..w3
        };
        assert(values.push(before[j]) =~= before.take(j + 1));
        assert forall|q: int| j + 1 <= q < regs.len() implies {
            &&& w4.local.regs.values.dom().contains(#[trigger] regs[q])
            &&& w4.local.regs.values[regs[q]] == UVal::Init(before[q])
        } by {
            assert(regs[j] != regs[q]);
        }
        lemma_values_written(w4, regs, j + 1, i, bits, value, values.push(before[j]), info, before);
    } else {
        assert(before.take(j) =~= before);
    }
}

/// A write by a symbolic index is recorded last, as an abstract call of the
/// function that writes, with the index, the value, the vector and what all
/// its registers held before. It has no result.
pub proof fn law_symbolic_write_is_recorded(
    w: World,
    v: Sym,
    value: Val,
    vector: Val,
    info: SourceLoc,
    before: Seq<Val>,
)
    requires
        vector::registers(vector) is Some,
        are_distinct(vector::registers(vector)->0),
        choices::hold(w.local, vector::registers(vector)->0, before),
        vector::write_indexed(w, Val::Symbolic(v), value, vector, info).1 is Ok,
    ensures
        ({
            let end = vector::write_indexed(w, Val::Symbolic(v), value, vector, info).0;
            &&& end.solver.trace.len() > 0
            &&& (end.solver.trace.last() matches EventView::Abstract {
                name,
                primitive,
                args,
                return_value,
            } && {
                &&& name == WRITE_REGISTER_FROM_VECTOR
                &&& primitive
                &&& args.len() == 4
                &&& args[0] == Val::Symbolic(v)
                &&& args[1] == value
                &&& args[2] == vector
                &&& (args[3] matches Val::Vector(held) && held@ == before)
                &&& return_value == Val::Unit
            })
        }),
{
    let regs = vector::registers(vector)->0;
    let bits = vector::index_bits(regs.len()) as u32;
    let errors = vector::spec_write_errors();
    let (s1, index) = vector::index_of(w.solver, Val::Symbolic(v), bits, errors, info);
    let i = index->Ok_0->Symbolic_0;
    let w1 = World { solver: s1, ..w };
    assert(before.take(0) =~= seq![]);
    lemma_values_written(w1, regs, 0, i, bits, value, seq![], info, before);
    Vals::lemma_of(before);
}

} // verus!
