//! What is not accepted, and with which error.

use super::assign;
use super::error::{ExecError, Malformed, TypeError};
use super::eval;
use super::functions;
use super::ir::{Exp, Instr, Loc, SharedState, SourceLoc, UVal, Val, ABSTRACT_CALL, ITE_PHI, REG_DEREF};
use super::names::Name;
use super::reset::Machine;
use super::run::{self, Context, Flow};
use super::solver::SolverView;
use super::state::{self, World};
use super::vector;
use std::sync::Arc;
use vstd::prelude::*;

verus! {

/// A jump needs a condition that is true or false, or a symbol.
pub proof fn law_jump_needs_a_condition(
    m: Machine,
    sh: SharedState,
    cx: Context,
    exp: Exp,
    target: usize,
    info: SourceLoc,
    v: Val,
)
    requires
        run::eval_in(m, sh, exp, info).1 == Ok::<Val, ExecError>(v),
        !(v is Bool) && !(v is Symbolic),
    ensures
        run::execute(m, sh, cx, Instr::Jump(exp, target, info)).result == Err::<Flow, ExecError>(
            ExecError::Type(TypeError::JumpOnNonBoolean(v), info),
        ),
{
}

/// An error while an operand is evaluated ends the instruction, with that
/// error.
pub proof fn law_errors_end_instructions(
    m: Machine,
    sh: SharedState,
    cx: Context,
    loc: Loc,
    id: Name,
    ty: super::ir::Ty,
    exp: Exp,
    other: Exp,
    f: super::ir::Primop,
    target: usize,
    info: SourceLoc,
    e: ExecError,
)
    requires
        run::eval_in(m, sh, exp, info).1 == Err::<Val, ExecError>(e),
    ensures
        ({
            let failed = Err::<Flow, ExecError>(e);
            &&& run::execute(m, sh, cx, Instr::Jump(exp, target, info)).result == failed
            &&& run::execute(m, sh, cx, Instr::Copy(loc, exp, info)).result == failed
            &&& run::execute(m, sh, cx, Instr::Init(id, ty, exp, info)).result == failed
            &&& run::execute(m, sh, cx, Instr::PrimopUnary(loc, f, exp, info)).result == failed
            &&& run::execute(m, sh, cx, Instr::PrimopBinary(loc, f, exp, other, info)).result
                == failed
        }),
{
}

/// Only values with a constructor can be checked for one or be unwrapped, and
/// only with the constructor that they have or can have.
pub proof fn law_constructors_are_needed(
    s: SolverView,
    ctor: Name,
    v: Val,
    other: Name,
    contents: Val,
    info: SourceLoc,
)
    requires
        !(v is Ctor) && !(v is SymbolicCtor),
        ctor != other,
    ensures
        eval::kind_check(s, ctor, v, info) == (
            s,
            Err::<Val, ExecError>(ExecError::Type(TypeError::KindCheck(v), info)),
        ),
        eval::unwrapped(ctor, v, info) == Err::<Val, ExecError>(
            ExecError::Type(TypeError::Unwrap(v), info),
        ),
        ({
            let built = Val::Ctor(other, Box::new(contents));
            eval::unwrapped(ctor, built, info) == Err::<Val, ExecError>(
                ExecError::Type(TypeError::Unwrap(built), info),
            )
        }),
{
}

/// Only a field that a struct has can be read or assigned to.
pub proof fn law_fields_are_needed(
    w: World,
    sh: SharedState,
    id: Name,
    field: Name,
    v: Val,
    new: Val,
    exp: Arc<Exp>,
    info: SourceLoc,
)
    requires
        w.local.vars.dom().contains(id),
        w.local.vars[id] == UVal::Init(v),
    ensures
        ({
            let place = Loc::Field(Box::new(Loc::Id(id)), field);
            let read = state::read_loc(w, sh, place, seq![], info, false).1;
            let wrote = assign::assigned(w, sh, place, new, seq![], info);
            &&& !(v is Struct) ==> {
                &&& read == Err::<Val, ExecError>(ExecError::Malformed(Malformed::NotAStruct))
                &&& wrote == (
                    w,
                    Err::<(), ExecError>(ExecError::Malformed(Malformed::NotAStruct)),
                )
                &&& (eval::field_of(v, exp, field, info) matches Err(ExecError::Type(
                    TypeError::NotAStruct { .. },
                    at,
                )) && at == info)
            }
            &&& v matches Val::Struct(fields) ==> !fields@.dom().contains(field) ==> {
                &&& read == Err::<Val, ExecError>(
                    ExecError::Malformed(Malformed::NoField(field)),
                )
                &&& wrote == (
                    w,
                    Err::<(), ExecError>(ExecError::Malformed(Malformed::NoFieldToAssign)),
                )
                &&& eval::field_of(v, exp, field, info) == Err::<Val, ExecError>(
                    ExecError::Malformed(Malformed::NoField(field)),
                )
            }
        }),
{
    let inner = Loc::Id(id);
    assert(state::read_loc(w, sh, inner, seq![], info, true) == (w, Ok::<Val, ExecError>(v)));
    let step = seq![super::solver::Accessor::Field(field)];
    let none: Seq<super::solver::Accessor> = seq![];
    assert(state::read_loc(w, sh, inner, none.push(step[0]), info, false) == (
        w,
        Ok::<Val, ExecError>(v),
    ));
}

/// What is assigned to through a reference has to be a reference, and cannot
/// be read as a place.
pub proof fn law_references_are_needed(
    w: World,
    sh: SharedState,
    id: Name,
    v: Val,
    new: Val,
    info: SourceLoc,
)
    requires
        w.local.vars.dom().contains(id),
        w.local.vars[id] == UVal::Init(v),
        !(v is Ref),
    ensures
        ({
            let place = Loc::Addr(Box::new(Loc::Id(id)));
            &&& assign::assigned(w, sh, place, new, seq![], info) == (
                w,
                Err::<(), ExecError>(ExecError::Malformed(Malformed::NotAReference)),
            )
            &&& state::read_loc(w, sh, place, seq![], info, false) == (
                w,
                Err::<Val, ExecError>(ExecError::Malformed(Malformed::UnreadablePlace)),
            )
        }),
{
}

/// An operator needs as many arguments as it takes.
pub proof fn law_arguments_are_needed(
    s: SolverView,
    op: super::ir::Op,
    args: Seq<Val>,
    info: SourceLoc,
)
    requires
        args.len() < op.spec_arity(),
    ensures
        eval::apply_op(s, op, args, info) == (
            s,
            Err::<Val, ExecError>(ExecError::Malformed(Malformed::MissingArguments)),
        ),
{
}

/// A vector that is read or written by an index has to hold references to
/// registers and nothing else.
pub proof fn law_registers_are_needed(w: World, n: Val, v: Val, vector: Val, info: SourceLoc)
    requires
        !(vector is Vector) || exists|i: int|
            0 <= i < vector->Vector_0@.len() && !((#[trigger] vector->Vector_0@[i]) is Ref),
    ensures
        vector::read_indexed(w, n, vector, info) == (
            w,
            Err::<Val, ExecError>(ExecError::Type(TypeError::ReadVectorRegisters, info)),
        ),
        vector::write_indexed(w, n, v, vector, info) == (
            w,
            Err::<(), ExecError>(ExecError::Type(TypeError::WriteVectorRegisters, info)),
        ),
{
}

/// An index has to be a number or a symbol, and a number has to be one of a
/// position in the vector.
pub proof fn law_positions_are_needed(w: World, n: Val, v: Val, vector: Val, info: SourceLoc)
    requires
        vector::registers(vector) is Some,
    ensures
        ({
            let len = vector::registers(vector)->0.len();
            let read = vector::read_indexed(w, n, vector, info);
            let wrote = vector::write_indexed(w, n, v, vector, info);
            let outside = ExecError::Malformed(Malformed::IndexOutOfRange);
            &&& n matches Val::I64(i) ==> {
                &&& i < 0 ==> read == (
                    w,
                    Err::<Val, ExecError>(ExecError::Type(TypeError::ReadVectorIndex, info)),
                ) && wrote == (
                    w,
                    Err::<(), ExecError>(ExecError::Type(TypeError::WriteVectorIndex, info)),
                )
                &&& i >= len ==> read == (w, Err::<Val, ExecError>(outside)) && wrote == (
                    w,
                    Err::<(), ExecError>(outside),
                )
            }
            &&& !(n is I64 || n is I128 || n is Bits || n is Symbolic) ==> read == (
                w,
                Err::<Val, ExecError>(ExecError::Type(TypeError::ReadVectorIndexType, info)),
            ) && wrote == (
                w,
                Err::<(), ExecError>(ExecError::Type(TypeError::WriteVectorIndexType, info)),
            )
        }),
{
    if let Val::I64(i) = n {
        if i >= 0 {
            assert((i as u64) as int == i);
        }
    }
}

/// A choice by conditions needs each of them to be true, false or a symbol.
pub proof fn law_choice_needs_conditions(
    m: Machine,
    sh: SharedState,
    cx: Context,
    loc: Loc,
    args: Vec<Exp>,
    info: SourceLoc,
    v: Val,
)
    requires
        !sh.functions@.dom().contains(ITE_PHI),
        args@.len() >= 2,
        run::eval_in(m, sh, args@[0], info).1 == Ok::<Val, ExecError>(v),
        !(v is Bool) && !(v is Symbolic),
    ensures
        functions::call_of(m, sh, cx, loc, ITE_PHI, args, info).result == Err::<Flow, ExecError>(
            ExecError::Type(TypeError::ItePhi, info),
        ),
{
}

/// To read through a reference needs a reference to a register that exists.
pub proof fn law_register_to_read_is_needed(
    m: Machine,
    sh: SharedState,
    cx: Context,
    loc: Loc,
    args: Vec<Exp>,
    info: SourceLoc,
    v: Val,
)
    requires
        !sh.functions@.dom().contains(REG_DEREF),
        args@.len() == 1,
        run::eval_in(m, sh, args@[0], info).1 == Ok::<Val, ExecError>(v),
        v matches Val::Ref(reg) ==> !run::eval_in(
            m,
            sh,
            args@[0],
            info,
        ).0.frame.local.regs.values.dom().contains(reg),
    ensures
        functions::call_of(m, sh, cx, loc, REG_DEREF, args, info).result is Err,
{
}

/// A call can be made abstract only of a function that is known.
pub proof fn law_abstract_function_is_needed(
    m: Machine,
    sh: SharedState,
    cx: Context,
    loc: Loc,
    args: Vec<Exp>,
    info: SourceLoc,
    f: Name,
)
    requires
        !sh.functions@.dom().contains(ABSTRACT_CALL),
        !sh.functions@.dom().contains(f),
        args@.len() > 0,
        run::eval_all_in(m, sh, args@, info).1 is Ok,
        run::eval_all_in(m, sh, args@, info).1->Ok_0.last() == Val::Ref(f),
    ensures
        functions::call_of(m, sh, cx, loc, ABSTRACT_CALL, args, info).result == Err::<
            Flow,
            ExecError,
        >(ExecError::Malformed(Malformed::NoAbstractFunction)),
{
}

/// A function can be called with no more arguments than it has parameters.
/// With fewer it is entered, and the other parameters have no value.
pub proof fn law_too_many_arguments(
    m: Machine,
    sh: SharedState,
    cx: Context,
    loc: Loc,
    direct: bool,
    f: Name,
    args: Vec<Exp>,
    info: SourceLoc,
    id: Name,
)
    requires
        sh.functions@.dom().contains(f),
        run::eval_all_in(m, sh, args@, info).1 is Ok,
        ({
            let (before, vals) = run::eval_all_in(m, sh, args@, info);
            super::instructions::is_executed(before, sh, cx, f, vals->Ok_0, info)
        }),
    ensures
        ({
            let vals = run::eval_all_in(m, sh, args@, info).1->Ok_0;
            let params = sh.functions@[f].params@;
            let effect = run::execute(m, sh, cx, Instr::Call(loc, direct, f, args, info));
            &&& effect.result is Ok <==> vals.len() <= params.len()
            &&& vals.len() > params.len() ==> effect.result == Err::<Flow, ExecError>(
                ExecError::Malformed(Malformed::MissingArguments),
            )
            &&& vals.len() <= params.len() ==> {
                &&& effect.machine.frame.function_name == f
                &&& effect.machine.frame.pc == 0
                &&& id != super::ir::RETURN && (forall|k: int|
                    0 <= k < vals.len() ==> (#[trigger] params[k]).0 != id)
                    ==> !effect.machine.frame.local.vars.dom().contains(id)
            }
        }),
{
    let vals = run::eval_all_in(m, sh, args@, info).1->Ok_0;
    let function = sh.functions@[f];
    let start = Map::<Name, UVal>::empty().insert(
        super::ir::RETURN,
        UVal::Uninit(function.ret_ty),
    );
    if id != super::ir::RETURN && (forall|k: int|
        0 <= k < vals.len() ==> (#[trigger] function.params@[k]).0 != id) {
        lemma_not_bound(start, function.params@, vals, 0, id);
    }
}

proof fn lemma_not_bound(
    m: Map<Name, UVal>,
    params: Seq<(Name, super::ir::Ty)>,
    vals: Seq<Val>,
    i: int,
    id: Name,
)
    requires
        0 <= i,
        !m.dom().contains(id),
        forall|k: int| 0 <= k < vals.len() ==> (#[trigger] params[k]).0 != id,
    ensures
        !super::frame::bind_args(m, params, vals, i).dom().contains(id),
    decreases params.len() - i,
{
    if i < params.len() && i < vals.len() {
        assert(params[i].0 != id);
        lemma_not_bound(m.insert(params[i].0, UVal::Init(vals[i])), params, vals, i + 1, id);
    }
}

} // verus!
