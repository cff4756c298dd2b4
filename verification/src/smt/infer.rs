//! The types of expressions.

use super::smtlib::{Exp, FPBinary, FPRoundingUnary, FPUnary, Sym, Ty};
use super::tree::{Op, Tree};
use std::collections::HashMap;
use vstd::prelude::*;

verus! {

broadcast use vstd::std_specs::hash::group_hash_axioms;

/// The types of the variables.
pub type TypeContext = Map<Sym, Ty>;

/// The argument types and the result type of each function.
pub type FunctionContext = Map<Sym, (Vec<Ty>, Ty)>;

impl FPUnary {
    /// The type of the result, if the operator alone decides it.
    pub open spec fn spec_result_ty(self) -> Option<Ty> {
        match self {
            FPUnary::FromIEEE(sbits, ebits) => Some(Ty::Float(ebits, sbits)),
            FPUnary::Abs | FPUnary::Neg => None,
            _ => Some(Ty::Bool),
        }
    }

    pub fn result_ty(self) -> (r: Option<Ty>)
        ensures
            r == self.spec_result_ty(),
    {
        match self {
            FPUnary::FromIEEE(sbits, ebits) => Some(Ty::Float(ebits, sbits)),
            FPUnary::IsNormal
            | FPUnary::IsSubnormal
            | FPUnary::IsZero
            | FPUnary::IsInfinite
            | FPUnary::IsNaN
            | FPUnary::IsNegative
            | FPUnary::IsPositive => Some(Ty::Bool),
            FPUnary::Abs | FPUnary::Neg => None,
        }
    }
}

impl FPRoundingUnary {
    /// The type of the result, if the operator alone decides it.
    pub open spec fn spec_result_ty(self) -> Option<Ty> {
        match self {
            FPRoundingUnary::Convert(ebits, sbits)
            | FPRoundingUnary::FromSigned(ebits, sbits)
            | FPRoundingUnary::FromUnsigned(ebits, sbits) => Some(Ty::Float(ebits, sbits)),
            FPRoundingUnary::ToSigned(size) | FPRoundingUnary::ToUnsigned(size) => Some(
                Ty::BitVec(size),
            ),
            _ => None,
        }
    }

    pub fn result_ty(self) -> (r: Option<Ty>)
        ensures
            r == self.spec_result_ty(),
    {
        match self {
            FPRoundingUnary::Convert(ebits, sbits)
            | FPRoundingUnary::FromSigned(ebits, sbits)
            | FPRoundingUnary::FromUnsigned(ebits, sbits) => Some(Ty::Float(ebits, sbits)),
            FPRoundingUnary::ToSigned(size) | FPRoundingUnary::ToUnsigned(size) => Some(
                Ty::BitVec(size),
            ),
            FPRoundingUnary::Sqrt | FPRoundingUnary::RoundToIntegral => None,
        }
    }
}

impl FPBinary {
    pub open spec fn spec_is_predicate(self) -> bool {
        match self {
            FPBinary::Leq | FPBinary::Lt | FPBinary::Geq | FPBinary::Gt | FPBinary::Eq => true,
            _ => false,
        }
    }

    /// Whether the result is a boolean.
    pub fn is_predicate(self) -> (r: bool)
        ensures
            r == self.spec_is_predicate(),
    {
        matches!(
            self,
            FPBinary::Leq | FPBinary::Lt | FPBinary::Geq | FPBinary::Gt | FPBinary::Eq
        )
    }
}

/// The operators whose result is a boolean whatever the operands are.
pub open spec fn is_predicate(op: Op) -> bool {
    match op {
        Op::Bool(_)
        | Op::Not
        | Op::Eq
        | Op::Neq
        | Op::And
        | Op::Or
        | Op::Bvult
        | Op::Bvslt
        | Op::Bvule
        | Op::Bvsle
        | Op::Bvuge
        | Op::Bvsge
        | Op::Bvugt
        | Op::Bvsgt
        | Op::Distinct => true,
        Op::FPBinary(op) => op.spec_is_predicate(),
        _ => false,
    }
}

/// The position of the operand whose type the result has, for the operators
/// that preserve a type.
pub open spec fn typed_like(op: Op) -> Option<int> {
    match op {
        Op::Bvnot
        | Op::Bvneg
        | Op::Bvand
        | Op::Bvor
        | Op::Bvxor
        | Op::Bvnand
        | Op::Bvnor
        | Op::Bvxnor
        | Op::Bvadd
        | Op::Bvsub
        | Op::Bvmul
        | Op::Bvudiv
        | Op::Bvsdiv
        | Op::Bvurem
        | Op::Bvsrem
        | Op::Bvsmod
        | Op::Bvshl
        | Op::Bvlshr
        | Op::Bvashr
        | Op::Store => Some(0),
        Op::Ite | Op::FPfma | Op::FPRoundingBinary(_) => Some(1),
        Op::FPUnary(op) => if op.spec_result_ty() is None {
            Some(0)
        } else {
            None
        },
        Op::FPRoundingUnary(op) => if op.spec_result_ty() is None {
            Some(1)
        } else {
            None
        },
        Op::FPBinary(op) => if op.spec_is_predicate() {
            None
        } else {
            Some(0)
        },
        _ => None,
    }
}

/// The type of an expression, read off without checking the operands that do
/// not decide it.
pub open spec fn infer(t: Tree<Sym>, tcx: TypeContext, ftcx: FunctionContext) -> Option<Ty>
    decreases t,
{
    match t {
        Tree::Var(v) => if tcx.dom().contains(v) {
            Some(tcx[v])
        } else {
            None
        },
        Tree::Node(op, kids) => if is_predicate(op) {
            Some(Ty::Bool)
        } else if typed_like(op) is Some && 0 <= typed_like(op)->0 < kids.len() {
            infer(kids[typed_like(op)->0], tcx, ftcx)
        } else {
            match op {
                Op::Bits(s) => Some(Ty::BitVec(s.len() as u32)),
                Op::Bits64(s) => Some(Ty::BitVec(s.len() as u32)),
                Op::Enum(m) => Some(Ty::Enum(m.enum_id)),
                Op::Extract(hi, lo) => Some(Ty::BitVec((hi - lo + 1) as u32)),
                Op::ZeroExtend(n) | Op::SignExtend(n) => if kids.len() > 0 {
                    match infer(kids[0], tcx, ftcx) {
                        Some(Ty::BitVec(size)) => Some(Ty::BitVec((size + n) as u32)),
                        _ => None,
                    }
                } else {
                    None
                },
                Op::Concat => if kids.len() > 1 {
                    match (infer(kids[0], tcx, ftcx), infer(kids[1], tcx, ftcx)) {
                        (Some(Ty::BitVec(l)), Some(Ty::BitVec(r))) => Some(
                            Ty::BitVec((l + r) as u32),
                        ),
                        _ => None,
                    }
                } else {
                    None
                },
                Op::App(f) => if ftcx.dom().contains(f) {
                    Some(ftcx[f].1)
                } else {
                    None
                },
                Op::Select => if kids.len() > 0 {
                    match infer(kids[0], tcx, ftcx) {
                        Some(Ty::Array(_, codom)) => Some(*codom),
                        _ => None,
                    }
                } else {
                    None
                },
                Op::FPConstant(_, ebits, sbits) => Some(Ty::Float(ebits, sbits)),
                Op::FPRoundingMode(_) => Some(Ty::RoundingMode),
                Op::FPUnary(op) => op.spec_result_ty(),
                Op::FPRoundingUnary(op) => op.spec_result_ty(),
                _ => None,
            }
        },
    }
}

/// The lengths that inference computes are lengths that a bitvector type can
/// have.
pub open spec fn infer_ok(t: Tree<Sym>, tcx: TypeContext, ftcx: FunctionContext) -> bool
    decreases t,
{
    match t {
        Tree::Var(_) => true,
        Tree::Node(op, kids) => if typed_like(op) is Some && 0 <= typed_like(op)->0 < kids.len() {
            infer_ok(kids[typed_like(op)->0], tcx, ftcx)
        } else {
            match op {
                Op::Extract(hi, lo) => lo <= hi && hi - lo < u32::MAX,
                Op::ZeroExtend(n) | Op::SignExtend(n) => kids.len() > 0 ==> {
                    &&& infer_ok(kids[0], tcx, ftcx)
                    &&& infer(kids[0], tcx, ftcx) matches Some(Ty::BitVec(size)) ==> size + n
                        <= u32::MAX
                },
                Op::Concat => kids.len() > 1 ==> {
                    &&& infer_ok(kids[0], tcx, ftcx)
                    &&& infer_ok(kids[1], tcx, ftcx)
                    &&& infer(kids[0], tcx, ftcx) matches Some(Ty::BitVec(l)) ==> infer(
                        kids[1],
                        tcx,
                        ftcx,
                    ) matches Some(Ty::BitVec(r)) ==> l + r <= u32::MAX
                },
                Op::Select => kids.len() > 0 ==> infer_ok(kids[0], tcx, ftcx),
                _ => true,
            }
        },
    }
}

impl Exp<Sym> {
    /// Infers the type of a well-formed expression.
    pub fn infer(
        &self,
        tcx: &HashMap<Sym, Ty>,
        ftcx: &HashMap<Sym, (Vec<Ty>, Ty)>,
    ) -> (r: Option<Ty>)
        requires
            infer_ok(self.tree(), tcx@, ftcx@),
        ensures
            r == infer(self.tree(), tcx@, ftcx@),
        decreases self,
    {
        proof {
            self.lemma_tree_kids();
        }
        match self {
            Exp::Var(v) => match tcx.get(v) {
                Some(ty) => Some(ty.clone()),
                None => None,
            },
            Exp::Bits(bits) => Some(Ty::BitVec(bits.len() as u32)),
            Exp::Bits64(bits) => Some(Ty::BitVec(bits.len())),
            Exp::Enum(m) => Some(Ty::Enum(m.enum_id)),
            Exp::Bool(_)
            | Exp::Not(_)
            | Exp::Eq(_, _)
            | Exp::Neq(_, _)
            | Exp::And(_, _)
            | Exp::Or(_, _)
            | Exp::Bvult(_, _)
            | Exp::Bvslt(_, _)
            | Exp::Bvule(_, _)
            | Exp::Bvsle(_, _)
            | Exp::Bvuge(_, _)
            | Exp::Bvsge(_, _)
            | Exp::Bvugt(_, _)
            | Exp::Bvsgt(_, _)
            | Exp::Distinct(_) => Some(Ty::Bool),
            Exp::Bvnot(exp) | Exp::Bvneg(exp) => exp.infer(tcx, ftcx),
            Exp::Extract(hi, lo, _) => Some(Ty::BitVec((*hi - *lo) + 1)),
            Exp::ZeroExtend(n, exp) | Exp::SignExtend(n, exp) => match exp.infer(tcx, ftcx) {
                Some(Ty::BitVec(size)) => Some(Ty::BitVec(size + *n)),
                _ => None,
            },
            Exp::Bvand(lhs, _)
            | Exp::Bvor(lhs, _)
            | Exp::Bvxor(lhs, _)
            | Exp::Bvnand(lhs, _)
            | Exp::Bvnor(lhs, _)
            | Exp::Bvxnor(lhs, _)
            | Exp::Bvadd(lhs, _)
            | Exp::Bvsub(lhs, _)
            | Exp::Bvmul(lhs, _)
            | Exp::Bvudiv(lhs, _)
            | Exp::Bvsdiv(lhs, _)
            | Exp::Bvurem(lhs, _)
            | Exp::Bvsrem(lhs, _)
            | Exp::Bvsmod(lhs, _)
            | Exp::Bvshl(lhs, _)
            | Exp::Bvlshr(lhs, _)
            | Exp::Bvashr(lhs, _) => lhs.infer(tcx, ftcx),
            Exp::Concat(lhs, rhs) => match (lhs.infer(tcx, ftcx), rhs.infer(tcx, ftcx)) {
                (Some(Ty::BitVec(l)), Some(Ty::BitVec(r))) => Some(Ty::BitVec(l + r)),
                _ => None,
            },
            Exp::Ite(_, then_exp, _) => then_exp.infer(tcx, ftcx),
            Exp::App(f, _) => match ftcx.get(f) {
                Some(sig) => Some(sig.1.clone()),
                None => None,
            },
            Exp::Select(array, _) => match array.infer(tcx, ftcx) {
                Some(Ty::Array(_, codom)) => Some(*codom),
                _ => None,
            },
            Exp::Store(array, _, _) => array.infer(tcx, ftcx),
            Exp::FPConstant(_, ebits, sbits) => Some(Ty::Float(*ebits, *sbits)),
            Exp::FPRoundingMode(_) => Some(Ty::RoundingMode),
            Exp::FPUnary(op, exp) => match op.result_ty() {
                Some(ty) => Some(ty),
                None => exp.infer(tcx, ftcx),
            },
            Exp::FPRoundingUnary(op, _, exp) => match op.result_ty() {
                Some(ty) => Some(ty),
                None => exp.infer(tcx, ftcx),
            },
            Exp::FPBinary(op, lhs, _) => if op.is_predicate() {
                Some(Ty::Bool)
            } else {
                lhs.infer(tcx, ftcx)
            },
            Exp::FPRoundingBinary(_, _, lhs, _) => lhs.infer(tcx, ftcx),
            Exp::FPfma(_, x, _, _) => x.infer(tcx, ftcx),
        }
    }
}

} // verus!
