//! The typing rules of SMTLIB, and what evaluation and rewriting keep.

use super::infer::{FunctionContext, TypeContext};
use super::smtlib::{FPRoundingUnary, FPUnary, Sym, Ty};
use super::tree::{Op, Tree};
use vstd::prelude::*;

verus! {

/// The result type of an operator on operands of the given types, if the
/// operands are ones that the operator takes.
pub open spec fn op_type(op: Op, tys: Seq<Ty>, ftcx: FunctionContext) -> Option<Ty> {
    match op {
        Op::Bits(s) => if tys.len() == 0 && s.len() <= u32::MAX {
            Some(Ty::BitVec(s.len() as u32))
        } else {
            None
        },
        Op::Bits64(s) => if tys.len() == 0 && s.len() <= 64 {
            Some(Ty::BitVec(s.len() as u32))
        } else {
            None
        },
        Op::Enum(m) => if tys.len() == 0 {
            Some(Ty::Enum(m.enum_id))
        } else {
            None
        },
        Op::Bool(_) => if tys.len() == 0 {
            Some(Ty::Bool)
        } else {
            None
        },
        Op::Eq | Op::Neq => if tys.len() == 2 && tys[0] == tys[1] {
            Some(Ty::Bool)
        } else {
            None
        },
        Op::And | Op::Or => if tys.len() == 2 && tys[0] is Bool && tys[1] is Bool {
            Some(Ty::Bool)
        } else {
            None
        },
        Op::Not => if tys.len() == 1 && tys[0] is Bool {
            Some(Ty::Bool)
        } else {
            None
        },
        Op::Bvnot | Op::Bvneg => if tys.len() == 1 && tys[0] is BitVec {
            Some(tys[0])
        } else {
            None
        },
        Op::Bvand
        | Op::Bvor
        | Op::Bvxor
        | Op::Bvnand
        | Op::Bvnor
        | Op::Bvxnor
        | Op::Bvadd
        | Op::Bvsub
        | Op::Bvmul
        | Op::Bvudiv
        | Op::Bvsdiv
        | Op::Bvurem
        | Op::Bvsrem
        | Op::Bvsmod
        | Op::Bvshl
        | Op::Bvlshr
        | Op::Bvashr => if tys.len() == 2 && tys[0] is BitVec && tys[0] == tys[1] {
            Some(tys[0])
        } else {
            None
        },
        Op::Bvult
        | Op::Bvslt
        | Op::Bvule
        | Op::Bvsle
        | Op::Bvuge
        | Op::Bvsge
        | Op::Bvugt
        | Op::Bvsgt => if tys.len() == 2 && tys[0] is BitVec && tys[0] == tys[1] {
            Some(Ty::Bool)
        } else {
            None
        },
        Op::Extract(hi, lo) => if tys.len() == 1 && tys[0] is BitVec && lo <= hi
            < tys[0]->BitVec_0 {
            Some(Ty::BitVec((hi - lo + 1) as u32))
        } else {
            None
        },
        Op::ZeroExtend(n) | Op::SignExtend(n) => if tys.len() == 1 && tys[0] is BitVec
            && tys[0]->BitVec_0 + n <= u32::MAX {
            Some(Ty::BitVec((tys[0]->BitVec_0 + n) as u32))
        } else {
            None
        },
        Op::Concat => if tys.len() == 2 && tys[0] is BitVec && tys[1] is BitVec
            && tys[0]->BitVec_0 + tys[1]->BitVec_0 <= u32::MAX {
            Some(Ty::BitVec((tys[0]->BitVec_0 + tys[1]->BitVec_0) as u32))
        } else {
            None
        },
        Op::Ite => if tys.len() == 3 && tys[0] is Bool && tys[1] == tys[2] {
            Some(tys[1])
        } else {
            None
        },
        Op::App(f) => if ftcx.dom().contains(f) && tys == ftcx[f].0@ {
            Some(ftcx[f].1)
        } else {
            None
        },
        Op::Select => if tys.len() == 2 && tys[0] is Array && *tys[0]->Array_0 == tys[1] {
            Some(*tys[0]->Array_1)
        } else {
            None
        },
        Op::Store => if tys.len() == 3 && tys[0] is Array && *tys[0]->Array_0 == tys[1]
            && *tys[0]->Array_1 == tys[2] {
            Some(tys[0])
        } else {
            None
        },
        Op::Distinct => if forall|i: int| 0 <= i < tys.len() ==> #[trigger] tys[i] == tys[0] {
            Some(Ty::Bool)
        } else {
            None
        },
        Op::FPConstant(_, ebits, sbits) => if tys.len() == 0 {
            Some(Ty::Float(ebits, sbits))
        } else {
            None
        },
        Op::FPRoundingMode(_) => if tys.len() == 0 {
            Some(Ty::RoundingMode)
        } else {
            None
        },
        Op::FPUnary(op) => match op {
            FPUnary::FromIEEE(sbits, ebits) => if tys.len() == 1 && tys[0] is BitVec
                && tys[0]->BitVec_0 == sbits + ebits {
                Some(Ty::Float(ebits, sbits))
            } else {
                None
            },
            FPUnary::Abs | FPUnary::Neg => if tys.len() == 1 && tys[0] is Float {
                Some(tys[0])
            } else {
                None
            },
            _ => if tys.len() == 1 && tys[0] is Float {
                Some(Ty::Bool)
            } else {
                None
            },
        },
        Op::FPRoundingUnary(op) => if tys.len() == 2 && tys[0] is RoundingMode {
            match op {
                FPRoundingUnary::Sqrt | FPRoundingUnary::RoundToIntegral => if tys[1] is Float {
                    Some(tys[1])
                } else {
                    None
                },
                FPRoundingUnary::Convert(ebits, sbits) => if tys[1] is Float {
                    Some(Ty::Float(ebits, sbits))
                } else {
                    None
                },
                FPRoundingUnary::FromSigned(ebits, sbits)
                | FPRoundingUnary::FromUnsigned(ebits, sbits) => if tys[1] is BitVec {
                    Some(Ty::Float(ebits, sbits))
                } else {
                    None
                },
                FPRoundingUnary::ToSigned(size) | FPRoundingUnary::ToUnsigned(size) => if tys[1]
                    is Float {
                    Some(Ty::BitVec(size))
                } else {
                    None
                },
            }
        } else {
            None
        },
        Op::FPBinary(op) => if tys.len() == 2 && tys[0] is Float && tys[0] == tys[1] {
            Some(
                if op.spec_is_predicate() {
                    Ty::Bool
                } else {
                    tys[0]
                },
            )
        } else {
            None
        },
        Op::FPRoundingBinary(_) => if tys.len() == 3 && tys[0] is RoundingMode && tys[1] is Float
            && tys[1] == tys[2] {
            Some(tys[1])
        } else {
            None
        },
        Op::FPfma => if tys.len() == 4 && tys[0] is RoundingMode && tys[1] is Float && tys[1]
            == tys[2] && tys[2] == tys[3] {
            Some(tys[1])
        } else {
            None
        },
    }
}

/// The types of the trees, where `type_of` gives one.
pub open spec fn types_of(
    trees: Seq<Tree<Sym>>,
    tcx: TypeContext,
    ftcx: FunctionContext,
) -> Seq<Ty>
    decreases trees, 0nat,
{
    Seq::new(
        trees.len(),
        |i: int|
            if 0 <= i < trees.len() {
                type_of(trees[i], tcx, ftcx)->0
            } else {
                arbitrary()
            },
    )
}

/// The type of a well-formed expression; `None` if it is not well-formed.
pub open spec fn type_of(t: Tree<Sym>, tcx: TypeContext, ftcx: FunctionContext) -> Option<Ty>
    decreases t, 1nat,
{
    match t {
        Tree::Var(v) => if tcx.dom().contains(v) {
            Some(tcx[v])
        } else {
            None
        },
        Tree::Node(op, kids) => if forall|i: int|
            0 <= i < kids.len() ==> type_of(#[trigger] kids[i], tcx, ftcx) is Some {
            op_type(op, types_of(kids, tcx, ftcx), ftcx)
        } else {
            None
        },
    }
}

/// Inference finds the type of every well-formed expression.
pub proof fn law_infer_well_formed(t: Tree<Sym>, tcx: TypeContext, ftcx: FunctionContext)
    requires
        type_of(t, tcx, ftcx) is Some,
    ensures
        super::infer::infer_ok(t, tcx, ftcx),
        super::infer::infer(t, tcx, ftcx) == type_of(t, tcx, ftcx),
    decreases t,
{
    match t {
        Tree::Var(_) => {},
        Tree::Node(op, kids) => {
            let tys = types_of(kids, tcx, ftcx);
            assert forall|i: int| 0 <= i < kids.len() implies super::infer::infer_ok(
                #[trigger] kids[i],
                tcx,
                ftcx,
            ) && super::infer::infer(kids[i], tcx, ftcx) == Some(tys[i]) by {
                law_infer_well_formed(kids[i], tcx, ftcx);
            }
        },
    }
}

} // verus!
