//! Evaluating the expressions of a program.

use super::error::{ExecError, Malformed, TypeError};
use super::frame::share;
use super::ir::{Exp, Fields, Op, SharedState, SourceLoc, Val};
use super::names::{Dup, Name};
use super::solver::{self, Accessor, Request, RequestView, Solver, SolverView};
use super::state::{self, get_id_and_initialize, LocalState, World};
use crate::bitvector::B64;
use crate::bv;
use crate::smt::literal::{self, bits64};
use crate::smt::smtlib;
use crate::smt::tree;
use std::sync::Arc;
use vstd::prelude::*;

verus! {

impl Exp {
    /// The fields that lead to the part that is read, the innermost first.
    pub open spec fn path(self) -> Seq<Accessor>
        decreases self,
    {
        match self {
            Exp::Field(exp, field) => seq![Accessor::Field(field)] + exp.path(),
            _ => seq![],
        }
    }
}

/// The constructor with this name, as an SMT constant.
pub open spec fn ctor_constant(ctor: Name) -> tree::Tree<smtlib::Sym> {
    tree::leaf(literal::bits_op(bv::from_int(32, ctor as int)))
}

/// Whether a value has another constructor than the given one.
pub open spec fn kind_check(s: SolverView, ctor: Name, v: Val, info: SourceLoc) -> (
    SolverView,
    Result<Val, ExecError>,
) {
    match v {
        Val::Ctor(c, _) => (s, Ok(Val::Bool(ctor != c))),
        Val::SymbolicCtor(sym, _) => {
            let (s, r) = s.define_const(
                solver::binary(tree::Op::Neq, solver::var(sym), ctor_constant(ctor)),
                info,
            );
            (
                s,
                match r {
                    Ok(b) => Ok(Val::Symbolic(b)),
                    Err(e) => Err(e),
                },
            )
        },
        _ => (s, Err(ExecError::Type(TypeError::KindCheck(v), info))),
    }
}

/// What a constructor holds.
pub open spec fn unwrapped(ctor: Name, v: Val, info: SourceLoc) -> Result<Val, ExecError> {
    match v {
        Val::Ctor(c, contents) => if ctor == c {
            Ok(*contents)
        } else {
            Err(ExecError::Type(TypeError::Unwrap(v), info))
        },
        Val::SymbolicCtor(_, possibilities) => if possibilities@.dom().contains(ctor) {
            Ok(possibilities@[ctor])
        } else {
            Err(ExecError::Type(TypeError::NoPossibleValue, info))
        },
        _ => Err(ExecError::Type(TypeError::Unwrap(v), info)),
    }
}

/// An expression that is shared.
#[verifier::inline]
pub open spec fn shared_exp(exp: Arc<Exp>) -> Exp {
    *exp
}

/// A field of the value of an expression.
pub open spec fn field_of(v: Val, exp: Arc<Exp>, field: Name, info: SourceLoc) -> Result<
    Val,
    ExecError,
> {
    match v {
        Val::Struct(fields) => if fields@.dom().contains(field) {
            Ok(fields@[field])
        } else {
            Err(ExecError::Malformed(Malformed::NoField(field)))
        },
        _ => Err(ExecError::Type(TypeError::NotAStruct { field, exp, value: v }, info)),
    }
}

/// The result of an operator on arguments.
pub open spec fn apply_op(s: SolverView, op: Op, args: Seq<Val>, info: SourceLoc) -> (
    SolverView,
    Result<Val, ExecError>,
) {
    if args.len() < op.spec_arity() {
        (s, Err(ExecError::Malformed(Malformed::MissingArguments)))
    } else {
        s.ask_val(RequestView::Op(op, args.take(op.spec_arity() as int)), info)
    }
}

/// Evaluates an expression. The accessor is the path from the result to the
/// part of it that is wanted.
pub open spec fn eval(
    w: World,
    sh: SharedState,
    exp: Exp,
    accessor: Seq<Accessor>,
    info: SourceLoc,
) -> (World, Result<Val, ExecError>)
    decreases exp, 0nat,
{
    match exp {
        Exp::Id(id) => state::read_id(w, sh, id, accessor, info, false),
        Exp::I64(n) => (w, Ok(Val::I64(n))),
        Exp::I128(n) => (w, Ok(Val::I128(n))),
        Exp::Unit => (w, Ok(Val::Unit)),
        Exp::Bool(b) => (w, Ok(Val::Bool(b))),
        Exp::Bits(b) => (w, Ok(Val::Bits(B64::of(b@)))),
        Exp::String(s) => (w, Ok(Val::String(s))),
        Exp::Undefined(ty) => {
            let (s, r) = w.solver.ask_val(RequestView::Symbolic(ty), info);
            (World { solver: s, ..w }, r)
        },
        Exp::Call(op, args) => {
            let (w, r) = eval_all(w, sh, args@, 0, seq![], info);
            match r {
                Ok(vals) => {
                    let (s, r) = apply_op(w.solver, op, vals, info);
                    (World { solver: s, ..w }, r)
                },
                Err(e) => (w, Err(e)),
            }
        },
        Exp::Kind(ctor, exp) => {
            let (w, r) = eval(w, sh, *exp, seq![], info);
            match r {
                Ok(v) => {
                    let (s, r) = kind_check(w.solver, ctor, v, info);
                    (World { solver: s, ..w }, r)
                },
                Err(e) => (w, Err(e)),
            }
        },
        Exp::Unwrap(ctor, exp) => {
            let (w, r) = eval(w, sh, *exp, seq![], info);
            match r {
                Ok(v) => (w, unwrapped(ctor, v, info)),
                Err(e) => (w, Err(e)),
            }
        },
        Exp::Field(exp, field) => {
            let (w, r) = eval(w, sh, *exp, accessor.push(Accessor::Field(field)), info);
            match r {
                Ok(v) => (w, field_of(v, exp, field, info)),
                Err(e) => (w, Err(e)),
            }
        },
        Exp::Ref(reg) => (w, Ok(Val::Ref(reg))),
        Exp::Struct(_, fields) => {
            let (w, r) = eval_fields(w, sh, fields@, 0, Fields::Nil, info);
            match r {
                Ok(fields) => (w, Ok(Val::Struct(fields))),
                Err(e) => (w, Err(e)),
            }
        },
    }
}

/// Evaluates expressions from position `j` on, where `done` are the values of
/// those before.
pub open spec fn eval_all(
    w: World,
    sh: SharedState,
    exps: Seq<Exp>,
    j: int,
    done: Seq<Val>,
    info: SourceLoc,
) -> (World, Result<Seq<Val>, ExecError>)
    decreases exps, exps.len() - j,
{
    if 0 <= j < exps.len() {
        let (w, r) = eval(w, sh, exps[j], seq![], info);
        match r {
            Ok(v) => eval_all(w, sh, exps, j + 1, done.push(v), info),
            Err(e) => (w, Err(e)),
        }
    } else {
        (w, Ok(done))
    }
}

/// Evaluates the fields of a struct from position `j` on, where `done` are
/// those before.
pub open spec fn eval_fields(
    w: World,
    sh: SharedState,
    fields: Seq<(Name, Exp)>,
    j: int,
    done: Fields,
    info: SourceLoc,
) -> (World, Result<Fields, ExecError>)
    decreases fields, fields.len() - j,
{
    if 0 <= j < fields.len() {
        let (w, r) = eval(w, sh, fields[j].1, seq![], info);
        match r {
            Ok(v) => eval_fields(w, sh, fields, j + 1, done.with(fields[j].0, v), info),
            Err(e) => (w, Err(e)),
        }
    } else {
        (w, Ok(done))
    }
}

fn check_kind(ctor: Name, v: &Val, solver: &mut Solver, info: SourceLoc) -> (r: Result<
    Val,
    ExecError,
>)
    ensures
        (final(solver)@, r) == kind_check(old(solver)@, ctor, *v, info),
{
    match v {
        Val::Ctor(c, _) => Ok(Val::Bool(ctor != *c)),
        Val::SymbolicCtor(sym, _) => {
            let exp = smtlib::Exp::Neq(
                Box::new(smtlib::Exp::Var(*sym)),
                Box::new(bits64(ctor as u64, 32)),
            );
            proof {
                exp.lemma_tree2();
            }
            match solver.define_const(exp, info) {
                Ok(b) => Ok(Val::Symbolic(b)),
                Err(e) => Err(e),
            }
        },
        _ => Err(ExecError::Type(TypeError::KindCheck(v.dup()), info)),
    }
}

fn unwrap_ctor(ctor: Name, v: Val, info: SourceLoc) -> (r: Result<Val, ExecError>)
    ensures
        r == unwrapped(ctor, v, info),
{
    match v {
        Val::Ctor(c, contents) => if ctor == c {
            Ok(*contents)
        } else {
            Err(ExecError::Type(TypeError::Unwrap(Val::Ctor(c, contents)), info))
        },
        Val::SymbolicCtor(_, possibilities) => match possibilities.get(ctor) {
            Some(v) => Ok(v.dup()),
            None => Err(ExecError::Type(TypeError::NoPossibleValue, info)),
        },
        v => Err(ExecError::Type(TypeError::Unwrap(v), info)),
    }
}

fn get_field(v: Val, exp: &Arc<Exp>, field: Name, info: SourceLoc) -> (r: Result<Val, ExecError>)
    ensures
        r == field_of(v, *exp, field, info),
{
    match v {
        Val::Struct(fields) => match fields.get(field) {
            Some(v) => Ok(v.dup()),
            None => Err(ExecError::Malformed(Malformed::NoField(field))),
        },
        v => Err(
            ExecError::Type(TypeError::NotAStruct { field, exp: share(exp), value: v }, info),
        ),
    }
}

fn call_op(op: Op, args: Vec<Val>, solver: &mut Solver, info: SourceLoc) -> (r: Result<
    Val,
    ExecError,
>)
    ensures
        (final(solver)@, r) == apply_op(old(solver)@, op, args@, info),
{
    let n = op.arity();
    if args.len() < n {
        return Err(ExecError::Malformed(Malformed::MissingArguments));
    }
    let mut args = args;
    let ghost all = args@;
    args.truncate(n);
    assert(args@ =~= all.take(n as int));
    solver.ask_val(Request::Op(op, args), info)
}

/// Evaluates an expression, and extends the accessor by the path that it
/// reads.
pub fn eval_exp_with_accessor(
    exp: &Exp,
    local_state: &mut LocalState,
    shared_state: &SharedState,
    solver: &mut Solver,
    accessor: &mut Vec<Accessor>,
    info: SourceLoc,
) -> (r: Result<Val, ExecError>)
    ensures
        (state::world(*final(local_state), *final(solver)), r) == eval(
            state::world(*old(local_state), *old(solver)),
            *shared_state,
            *exp,
            old(accessor)@,
            info,
        ),
        final(accessor)@ == old(accessor)@ + exp.path(),
    decreases exp, 0nat,
{
    let ghost before = accessor@;
    proof {
        if !(exp is Field) {
            assert(before + exp.path() =~= before);
        }
    }
    match exp {
        Exp::Id(id) => get_id_and_initialize(
            *id,
            local_state,
            shared_state,
            solver,
            accessor,
            info,
            false,
        ),
        Exp::I64(n) => Ok(Val::I64(*n)),
        Exp::I128(n) => Ok(Val::I128(*n)),
        Exp::Unit => Ok(Val::Unit),
        Exp::Bool(b) => Ok(Val::Bool(*b)),
        Exp::Bits(b) => {
            proof {
                bv::lemma_from_int_to_nat(b@);
            }
            Ok(Val::Bits(B64::new(b.lower_u64(), b.len())))
        },
        Exp::String(s) => Ok(Val::String(s.clone())),
        Exp::Undefined(ty) => solver.ask_val(Request::Symbolic(ty.dup()), info),
        Exp::Call(op, args) => match eval_args(args, local_state, shared_state, solver, info) {
            Ok(vals) => call_op(*op, vals, solver, info),
            Err(e) => Err(e),
        },
        Exp::Kind(ctor, exp) => match eval_exp(exp, local_state, shared_state, solver, info) {
            Ok(v) => check_kind(*ctor, &v, solver, info),
            Err(e) => Err(e),
        },
        Exp::Unwrap(ctor, exp) => match eval_exp(exp, local_state, shared_state, solver, info) {
            Ok(v) => unwrap_ctor(*ctor, v, info),
            Err(e) => Err(e),
        },
        Exp::Field(inner, field) => {
            accessor.push(Accessor::Field(*field));
            let r = eval_exp_with_accessor(
                inner,
                local_state,
                shared_state,
                solver,
                accessor,
                info,
            );
            assert(before.push(Accessor::Field(*field)) + inner.path() =~= before + exp.path());
            match r {
                Ok(v) => get_field(v, inner, *field, info),
                Err(e) => Err(e),
            }
        },
        Exp::Ref(reg) => Ok(Val::Ref(*reg)),
        Exp::Struct(_, fields) => {
            match eval_struct(fields, local_state, shared_state, solver, info) {
                Ok(fields) => Ok(Val::Struct(fields)),
                Err(e) => Err(e),
            }
        },
    }
}

/// Evaluates an expression.
pub fn eval_exp(
    exp: &Exp,
    local_state: &mut LocalState,
    shared_state: &SharedState,
    solver: &mut Solver,
    info: SourceLoc,
) -> (r: Result<Val, ExecError>)
    ensures
        (state::world(*final(local_state), *final(solver)), r) == eval(
            state::world(*old(local_state), *old(solver)),
            *shared_state,
            *exp,
            seq![],
            info,
        ),
    decreases exp, 1nat,
{
    let mut accessor: Vec<Accessor> = Vec::new();
    assert(accessor@ =~= seq![]);
    eval_exp_with_accessor(exp, local_state, shared_state, solver, &mut accessor, info)
}

/// Evaluates arguments from left to right.
pub fn eval_args(
    args: &Vec<Exp>,
    local_state: &mut LocalState,
    shared_state: &SharedState,
    solver: &mut Solver,
    info: SourceLoc,
) -> (r: Result<Vec<Val>, ExecError>)
    ensures
        ({
            let (w, out) = eval_all(
                state::world(*old(local_state), *old(solver)),
                *shared_state,
                args@,
                0,
                seq![],
                info,
            );
            &&& state::world(*final(local_state), *final(solver)) == w
            &&& match r {
                Ok(vals) => out == Ok::<Seq<Val>, ExecError>(vals@),
                Err(e) => out == Err::<Seq<Val>, ExecError>(e),
            }
        }),
    decreases args, 2nat,
{
    let mut vals: Vec<Val> = Vec::new();
    let ghost whole = eval_all(
        state::world(*local_state, *solver),
        *shared_state,
        args@,
        0,
        seq![],
        info,
    );
    assert(vals@ =~= seq![]);
    let mut i: usize = 0;
    while i < args.len()
        invariant
            i <= args@.len(),
            whole == eval_all(
                state::world(*old(local_state), *old(solver)),
                *shared_state,
                args@,
                0,
                seq![],
                info,
            ),
            whole == eval_all(
                state::world(*local_state, *solver),
                *shared_state,
                args@,
                i as int,
                vals@,
                info,
            ),
        decreases args@.len() - i,
    {
        match eval_exp(&args[i], local_state, shared_state, solver, info) {
            Ok(v) => {
                vals.push(v);
            },
            Err(e) => {
                return Err(e);
            },
        }
        i = i + 1;
    }
    Ok(vals)
}

fn eval_struct(
    fields: &Vec<(Name, Exp)>,
    local_state: &mut LocalState,
    shared_state: &SharedState,
    solver: &mut Solver,
    info: SourceLoc,
) -> (r: Result<Fields, ExecError>)
    ensures
        (state::world(*final(local_state), *final(solver)), r) == eval_fields(
            state::world(*old(local_state), *old(solver)),
            *shared_state,
            fields@,
            0,
            Fields::Nil,
            info,
        ),
    decreases fields, 2nat,
{
    let mut done = Fields::Nil;
    let ghost whole = eval_fields(
        state::world(*local_state, *solver),
        *shared_state,
        fields@,
        0,
        Fields::Nil,
        info,
    );
    let mut i: usize = 0;
    while i < fields.len()
        invariant
            i <= fields@.len(),
            whole == eval_fields(
                state::world(*old(local_state), *old(solver)),
                *shared_state,
                fields@,
                0,
                Fields::Nil,
                info,
            ),
            whole == eval_fields(
                state::world(*local_state, *solver),
                *shared_state,
                fields@,
                i as int,
                done,
                info,
            ),
        decreases fields@.len() - i,
    {
        match eval_exp(&fields[i].1, local_state, shared_state, solver, info) {
            Ok(v) => {
                done = done.insert(fields[i].0, v);
            },
            Err(e) => {
                return Err(e);
            },
        }
        i = i + 1;
    }
    Ok(done)
}

} // verus!
