//! The meaning of expressions.
//!
//! The boolean operators, and those bitvector operators that `apply` spells
//! out, have the meaning that SMTLIB gives them. The remaining ones have
//! whatever meaning an interpretation gives them: functions, arrays,
//! enumerations, distinctness, floating point, and of the bitvector operators
//! multiplication, division and remainder, the signed comparisons and the
//! arithmetic shift.

use super::infer::{FunctionContext, TypeContext};
use super::smtlib::{Sym, Ty};
use super::tree::{Op, Tree};
use crate::bv;
use vstd::prelude::*;

verus! {

pub enum Value {
    Bool(bool),
    Bits(Seq<bool>),
    /// A value of a type that is not looked into, and which of them it is.
    Other(Ty, int),
}

/// A meaning for the variables, and for the operators that are not looked
/// into. It also serves where an operator is applied to values that it does
/// not take.
#[verifier::reject_recursive_types(V)]
pub struct Interp<V> {
    pub var: spec_fn(V) -> Value,
    pub op: spec_fn(Op, Seq<Value>) -> Value,
}

/// A bitvector operator on two bitvectors of one length.
pub open spec fn binary(
    vals: Seq<Value>,
    f: spec_fn(Seq<bool>, Seq<bool>) -> Value,
    other: Value,
) -> Value {
    match (vals[0], vals[1]) {
        (Value::Bits(s), Value::Bits(t)) => if s.len() == t.len() {
            f(s, t)
        } else {
            other
        },
        _ => other,
    }
}

/// The value of an operator on values.
pub open spec fn apply<V>(interp: Interp<V>, op: Op, vals: Seq<Value>) -> Value {
    let other = (interp.op)(op, vals);
    match op {
        Op::Bits(s) | Op::Bits64(s) => Value::Bits(s),
        Op::Bool(b) => Value::Bool(b),
        Op::Eq => Value::Bool(vals[0] == vals[1]),
        Op::Neq => Value::Bool(vals[0] != vals[1]),
        Op::And => match (vals[0], vals[1]) {
            (Value::Bool(a), Value::Bool(b)) => Value::Bool(a && b),
            _ => other,
        },
        Op::Or => match (vals[0], vals[1]) {
            (Value::Bool(a), Value::Bool(b)) => Value::Bool(a || b),
            _ => other,
        },
        Op::Not => match vals[0] {
            Value::Bool(b) => Value::Bool(!b),
            _ => other,
        },
        Op::Ite => match vals[0] {
            Value::Bool(b) => if b {
                vals[1]
            } else {
                vals[2]
            },
            _ => other,
        },
        Op::Bvnot => match vals[0] {
            Value::Bits(s) => Value::Bits(bv::bvnot(s)),
            _ => other,
        },
        Op::Bvneg => match vals[0] {
            Value::Bits(s) => Value::Bits(bv::bvneg(s)),
            _ => other,
        },
        Op::Bvand => binary(
            vals,
            |s: Seq<bool>, t: Seq<bool>| Value::Bits(bv::bvand(s, t)),
            other,
        ),
        Op::Bvor => binary(
            vals,
            |s: Seq<bool>, t: Seq<bool>| Value::Bits(bv::bvor(s, t)),
            other,
        ),
        Op::Bvxor => binary(
            vals,
            |s: Seq<bool>, t: Seq<bool>| Value::Bits(bv::bvxor(s, t)),
            other,
        ),
        Op::Bvnand => binary(
            vals,
            |s: Seq<bool>, t: Seq<bool>| Value::Bits(bv::bvnot(bv::bvand(s, t))),
            other,
        ),
        Op::Bvnor => binary(
            vals,
            |s: Seq<bool>, t: Seq<bool>| Value::Bits(bv::bvnot(bv::bvor(s, t))),
            other,
        ),
        Op::Bvxnor => binary(
            vals,
            |s: Seq<bool>, t: Seq<bool>| Value::Bits(bv::bvnot(bv::bvxor(s, t))),
            other,
        ),
        Op::Bvadd => binary(
            vals,
            |s: Seq<bool>, t: Seq<bool>| Value::Bits(bv::bvadd(s, t)),
            other,
        ),
        Op::Bvsub => binary(
            vals,
            |s: Seq<bool>, t: Seq<bool>| Value::Bits(bv::bvsub(s, t)),
            other,
        ),
        Op::Bvshl => binary(
            vals,
            |s: Seq<bool>, t: Seq<bool>| Value::Bits(bv::bvshl(s, t)),
            other,
        ),
        Op::Bvlshr => binary(
            vals,
            |s: Seq<bool>, t: Seq<bool>| Value::Bits(bv::bvlshr(s, t)),
            other,
        ),
        Op::Bvult => binary(
            vals,
            |s: Seq<bool>, t: Seq<bool>| Value::Bool(bv::bvult(s, t)),
            other,
        ),
        Op::Bvugt => binary(
            vals,
            |s: Seq<bool>, t: Seq<bool>| Value::Bool(bv::bvult(t, s)),
            other,
        ),
        Op::Bvule => binary(
            vals,
            |s: Seq<bool>, t: Seq<bool>| Value::Bool(!bv::bvult(t, s)),
            other,
        ),
        Op::Bvuge => binary(
            vals,
            |s: Seq<bool>, t: Seq<bool>| Value::Bool(!bv::bvult(s, t)),
            other,
        ),
        Op::Extract(hi, lo) => match vals[0] {
            Value::Bits(s) => if lo <= hi < s.len() {
                Value::Bits(bv::extract(s, hi as int, lo as int))
            } else {
                other
            },
            _ => other,
        },
        Op::ZeroExtend(n) => match vals[0] {
            Value::Bits(s) => Value::Bits(bv::zero_extend(s, n as nat)),
            _ => other,
        },
        Op::SignExtend(n) => match vals[0] {
            Value::Bits(s) => Value::Bits(bv::sign_extend(s, n as nat)),
            _ => other,
        },
        Op::Concat => match (vals[0], vals[1]) {
            (Value::Bits(s), Value::Bits(t)) => Value::Bits(bv::concat(s, t)),
            _ => other,
        },
        _ => other,
    }
}

/// The values of the trees.
pub open spec fn denote_all<V>(interp: Interp<V>, trees: Seq<Tree<V>>) -> Seq<Value>
    decreases trees, 0nat,
{
    Seq::new(
        trees.len(),
        |i: int|
            if 0 <= i < trees.len() {
                denote(interp, trees[i])
            } else {
                arbitrary()
            },
    )
}

/// The value of an expression.
pub open spec fn denote<V>(interp: Interp<V>, t: Tree<V>) -> Value
    decreases t, 1nat,
{
    match t {
        Tree::Var(v) => (interp.var)(v),
        Tree::Node(op, kids) => apply(interp, op, denote_all(interp, kids)),
    }
}

/// Whether a value is of a type.
pub open spec fn has_type(v: Value, ty: Ty) -> bool {
    match ty {
        Ty::Bool => v is Bool,
        Ty::BitVec(n) => v matches Value::Bits(s) && s.len() == n,
        _ => v matches Value::Other(t, _) && t == ty,
    }
}

/// The interpretation gives variables and operators values of their types.
pub open spec fn respects(
    interp: Interp<Sym>,
    tcx: TypeContext,
    ftcx: FunctionContext,
) -> bool {
    &&& forall|v: Sym| #[trigger] tcx.dom().contains(v) ==> has_type((interp.var)(v), tcx[v])
    &&& forall|op: Op, vals: Seq<Value>, tys: Seq<Ty>|
        {
            &&& vals.len() == tys.len()
            &&& forall|i: int| 0 <= i < tys.len() ==> has_type(vals[i], #[trigger] tys[i])
            &&& #[trigger] super::typing::op_type(op, tys, ftcx) is Some
        } ==> has_type(
            #[trigger] (interp.op)(op, vals),
            super::typing::op_type(op, tys, ftcx)->0,
        )
}

/// The type of a value.
pub open spec fn type_of_value(v: Value) -> Ty {
    match v {
        Value::Bool(_) => Ty::Bool,
        Value::Bits(s) => Ty::BitVec(s.len() as u32),
        Value::Other(ty, _) => ty,
    }
}

/// A value of a type.
pub open spec fn some_value(ty: Ty) -> Value {
    match ty {
        Ty::Bool => Value::Bool(false),
        Ty::BitVec(n) => Value::Bits(Seq::new(n as nat, |i: int| false)),
        _ => Value::Other(ty, 0),
    }
}

/// The interpretation that gives everything that is of one type the same
/// value.
pub open spec fn plain_interp(tcx: TypeContext, ftcx: FunctionContext) -> Interp<Sym> {
    Interp {
        var: |v: Sym| some_value(tcx[v]),
        op: |op: Op, vals: Seq<Value>|
            some_value(
                super::typing::op_type(
                    op,
                    Seq::new(vals.len(), |i: int| type_of_value(vals[i])),
                    ftcx,
                )->0,
            ),
    }
}

/// In every context there is an interpretation that gives variables and
/// operators values of their types.
pub proof fn law_interpretations_exist(tcx: TypeContext, ftcx: FunctionContext)
    ensures
        respects(plain_interp(tcx, ftcx), tcx, ftcx),
{
    let interp = plain_interp(tcx, ftcx);
    assert forall|op: Op, vals: Seq<Value>, tys: Seq<Ty>|
        {
            &&& vals.len() == tys.len()
            &&& forall|i: int| 0 <= i < tys.len() ==> has_type(vals[i], #[trigger] tys[i])
            &&& #[trigger] super::typing::op_type(op, tys, ftcx) is Some
        } implies has_type(
        #[trigger] (interp.op)(op, vals),
        super::typing::op_type(op, tys, ftcx)->0,
    ) by {
        let found = Seq::new(vals.len(), |i: int| type_of_value(vals[i]));
        assert forall|i: int| 0 <= i < tys.len() implies found[i] == tys[i] by {
            assert(has_type(vals[i], tys[i]));
        }
        assert(found =~= tys);
    }
}

/// Whether a well-formed expression and all its sub-expressions have values of
/// their types.
pub open spec fn well_valued(
    interp: Interp<Sym>,
    t: Tree<Sym>,
    tcx: TypeContext,
    ftcx: FunctionContext,
) -> bool
    decreases t,
{
    &&& has_type(denote(interp, t), super::typing::type_of(t, tcx, ftcx)->0)
    &&& match t {
        Tree::Var(_) => true,
        Tree::Node(_, kids) => forall|i: int|
            0 <= i < kids.len() ==> well_valued(interp, #[trigger] kids[i], tcx, ftcx),
    }
}

/// An operator on values of types that it takes gives a value of its type.
proof fn lemma_apply_has_type(
    interp: Interp<Sym>,
    tcx: TypeContext,
    ftcx: FunctionContext,
    op: Op,
    vals: Seq<Value>,
    tys: Seq<Ty>,
)
    requires
        respects(interp, tcx, ftcx),
        vals.len() == tys.len(),
        forall|i: int| 0 <= i < tys.len() ==> has_type(vals[i], #[trigger] tys[i]),
        super::typing::op_type(op, tys, ftcx) is Some,
    ensures
        has_type(apply(interp, op, vals), super::typing::op_type(op, tys, ftcx)->0),
{
    assert(has_type(
        (interp.op)(op, vals),
        super::typing::op_type(op, tys, ftcx)->0,
    ));
    if tys.len() > 0 {
        assert(has_type(vals[0], tys[0]));
    }
    if tys.len() > 1 {
        assert(has_type(vals[1], tys[1]));
    }
    if tys.len() > 2 {
        assert(has_type(vals[2], tys[2]));
    }
}

/// Under an interpretation that respects types, well-formed expressions and
/// their sub-expressions have values of their types.
pub proof fn law_denotation_has_type(
    interp: Interp<Sym>,
    t: Tree<Sym>,
    tcx: TypeContext,
    ftcx: FunctionContext,
)
    requires
        respects(interp, tcx, ftcx),
        super::typing::type_of(t, tcx, ftcx) is Some,
    ensures
        has_type(denote(interp, t), super::typing::type_of(t, tcx, ftcx)->0),
        well_valued(interp, t, tcx, ftcx),
    decreases t,
{
    match t {
        Tree::Var(v) => {
            assert(tcx.dom().contains(v));
        },
        Tree::Node(op, kids) => {
            let tys = super::typing::types_of(kids, tcx, ftcx);
            let vals = denote_all(interp, kids);
            assert forall|i: int| 0 <= i < kids.len() implies {
                &&& well_valued(interp, #[trigger] kids[i], tcx, ftcx)
                &&& has_type(vals[i], tys[i])
            } by {
                law_denotation_has_type(interp, kids[i], tcx, ftcx);
            }
            assert forall|i: int| 0 <= i < tys.len() implies has_type(
                vals[i],
                #[trigger] tys[i],
            ) by {
                assert(well_valued(interp, kids[i], tcx, ftcx));
            }
            lemma_apply_has_type(interp, tcx, ftcx, op, vals, tys);
        },
    }
}

/// A short constant that is well-formed stands for its bits.
proof fn lemma_constants(
    interp: Interp<Sym>,
    t: Tree<Sym>,
    tcx: TypeContext,
    ftcx: FunctionContext,
)
    requires
        super::typing::type_of(t, tcx, ftcx) is Some,
    ensures
        t.bool_constant() matches Some(b) ==> {
            &&& denote(interp, t) == Value::Bool(b)
            &&& super::typing::type_of(t, tcx, ftcx) == Some(Ty::Bool)
        },
        t.short_constant() matches Some(s) ==> {
            &&& denote(interp, t) == Value::Bits(s)
            &&& super::typing::type_of(t, tcx, ftcx) == Some(Ty::BitVec(s.len() as u32))
            &&& s.len() <= 64
        },
        t.long_constant() matches Some(s) ==> {
            &&& denote(interp, t) == Value::Bits(s)
            &&& super::typing::type_of(t, tcx, ftcx) == Some(Ty::BitVec(s.len() as u32))
            &&& s.len() <= u32::MAX
        },
{
}

/// A leaf has the value and the type of its operator.
proof fn lemma_leaf(interp: Interp<Sym>, op: Op, tcx: TypeContext, ftcx: FunctionContext)
    ensures
        denote(interp, super::tree::leaf(op)) == apply(interp, op, seq![]),
        super::typing::type_of(super::tree::leaf(op), tcx, ftcx) == super::typing::op_type(
            op,
            seq![],
            ftcx,
        ),
{
    assert(denote_all(interp, Seq::<Tree<Sym>>::empty()) =~= seq![]);
    assert(super::typing::types_of(Seq::<Tree<Sym>>::empty(), tcx, ftcx) =~= seq![]);
}

/// Folding an operator on well-formed operands keeps value and type, and
/// stays within the bounds of the constants.
proof fn lemma_fold(
    interp: Interp<Sym>,
    op: Op,
    kids: Seq<Tree<Sym>>,
    tcx: TypeContext,
    ftcx: FunctionContext,
)
    requires
        super::typing::type_of(Tree::Node(op, kids), tcx, ftcx) is Some,
        forall|i: int|
            0 <= i < kids.len() ==> has_type(
                denote(interp, #[trigger] kids[i]),
                super::typing::type_of(kids[i], tcx, ftcx)->0,
            ),
    ensures
        super::eval::fold_ok(op, kids),
        denote(interp, super::eval::fold(op, kids)) == denote(interp, Tree::Node(op, kids)),
        super::typing::type_of(super::eval::fold(op, kids), tcx, ftcx) == super::typing::type_of(
            Tree::Node(op, kids),
            tcx,
            ftcx,
        ),
{
    let t = Tree::Node(op, kids);
    let tys = super::typing::types_of(kids, tcx, ftcx);
    let vals = denote_all(interp, kids);
    assert forall|i: int| 0 <= i < kids.len() implies has_type(vals[i], #[trigger] tys[i]) by {
        assert(has_type(
            denote(interp, kids[i]),
            super::typing::type_of(kids[i], tcx, ftcx)->0,
        ));
    }
    if kids.len() > 0 {
        assert(super::typing::type_of(kids[0], tcx, ftcx) is Some);
        lemma_constants(interp, kids[0], tcx, ftcx);
        assert(has_type(vals[0], tys[0]));
    }
    if kids.len() > 1 {
        assert(super::typing::type_of(kids[1], tcx, ftcx) is Some);
        lemma_constants(interp, kids[1], tcx, ftcx);
        assert(has_type(vals[1], tys[1]));
    }
    if kids.len() > 2 {
        assert(super::typing::type_of(kids[2], tcx, ftcx) is Some);
        assert(has_type(vals[2], tys[2]));
    }
    let r = super::eval::fold(op, kids);
    if r is Node && r->Node_1.len() == 0 {
        lemma_leaf(interp, r->Node_0, tcx, ftcx);
        assert(r->Node_1 =~= Seq::empty());
    }
}

/// Evaluation of a well-formed expression goes through, and changes neither
/// its value nor its type, under every interpretation that gives the
/// expression and its sub-expressions values of their types.
pub proof fn law_eval_preserves_meaning(
    interp: Interp<Sym>,
    t: Tree<Sym>,
    tcx: TypeContext,
    ftcx: FunctionContext,
)
    requires
        super::typing::type_of(t, tcx, ftcx) is Some,
        well_valued(interp, t, tcx, ftcx),
    ensures
        super::eval::eval_ok(t),
        denote(interp, super::eval::eval(t)) == denote(interp, t),
        super::typing::type_of(super::eval::eval(t), tcx, ftcx) == super::typing::type_of(
            t,
            tcx,
            ftcx,
        ),
    decreases t,
{
    match t {
        Tree::Var(_) => {},
        Tree::Node(op, kids) => {
            let ekids = super::eval::eval_kids(kids);
            assert forall|i: int| 0 <= i < kids.len() implies {
                &&& super::eval::eval_ok(#[trigger] kids[i])
                &&& denote(interp, ekids[i]) == denote(interp, kids[i])
                &&& super::typing::type_of(ekids[i], tcx, ftcx) == super::typing::type_of(
                    kids[i],
                    tcx,
                    ftcx,
                )
                &&& super::typing::type_of(kids[i], tcx, ftcx) is Some
                &&& has_type(
                    denote(interp, ekids[i]),
                    super::typing::type_of(ekids[i], tcx, ftcx)->0,
                )
            } by {
                law_eval_preserves_meaning(interp, kids[i], tcx, ftcx);
            }
            assert(denote_all(interp, ekids) =~= denote_all(interp, kids));
            assert(super::typing::types_of(ekids, tcx, ftcx) =~= super::typing::types_of(
                kids,
                tcx,
                ftcx,
            ));
            if super::eval::is_folded(op) {
                assert(super::typing::type_of(Tree::Node(op, ekids), tcx, ftcx)
                    == super::typing::type_of(t, tcx, ftcx));
                assert forall|i: int| 0 <= i < ekids.len() implies has_type(
                    denote(interp, #[trigger] ekids[i]),
                    super::typing::type_of(ekids[i], tcx, ftcx)->0,
                ) by {
                    assert(super::eval::eval_ok(kids[i]));
                }
                lemma_fold(interp, op, ekids, tcx, ftcx);
            }
        },
    }
}

/// Evaluation of a well-formed expression goes through and keeps its type.
pub proof fn law_eval_preserves_type(t: Tree<Sym>, tcx: TypeContext, ftcx: FunctionContext)
    requires
        super::typing::type_of(t, tcx, ftcx) is Some,
    ensures
        super::eval::eval_ok(t),
        super::typing::type_of(super::eval::eval(t), tcx, ftcx) == super::typing::type_of(
            t,
            tcx,
            ftcx,
        ),
{
    let interp = plain_interp(tcx, ftcx);
    law_interpretations_exist(tcx, ftcx);
    law_denotation_has_type(interp, t, tcx, ftcx);
    law_eval_preserves_meaning(interp, t, tcx, ftcx);
}

} // verus!
