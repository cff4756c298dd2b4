//! A subset of the SMTLIB format, which mostly corresponds to the theory of
//! quantifier-free bitvectors and arrays.

use crate::bitvector::B64;
use vstd::prelude::*;

verus! {

/// An SMT variable or function symbol.
pub type Sym = u32;

/// An enumeration known to the solver.
#[derive(Clone, Copy, Debug, PartialEq, Eq, Structural)]
pub struct EnumId {
    pub id: usize,
}

/// A member of an enumeration.
#[derive(Clone, Copy, Debug, PartialEq, Eq, Structural)]
pub struct EnumMember {
    pub enum_id: EnumId,
    pub member: usize,
}

#[derive(Debug)]
pub enum Ty {
    Bool,
    BitVec(u32),
    Enum(EnumId),
    Array(Box<Ty>, Box<Ty>),
    Float(u32, u32),
    RoundingMode,
}

impl Clone for Ty {
    fn clone(&self) -> (r: Self)
        ensures
            r == *self,
        decreases self,
    {
        match self {
            Ty::Bool => Ty::Bool,
            Ty::BitVec(n) => Ty::BitVec(*n),
            Ty::Enum(id) => Ty::Enum(*id),
            Ty::Array(dom, codom) => Ty::Array(
                Box::new((**dom).clone()),
                Box::new((**codom).clone()),
            ),
            Ty::Float(e, s) => Ty::Float(*e, *s),
            Ty::RoundingMode => Ty::RoundingMode,
        }
    }
}

#[derive(Clone, Copy, Debug, PartialEq, Eq, Structural)]
pub enum FPRoundingMode {
    RoundNearestTiesToEven,
    RoundNearestTiesToAway,
    RoundTowardPositive,
    RoundTowardNegative,
    RoundTowardZero,
}

#[derive(Clone, Copy, Debug, PartialEq, Eq, Structural)]
pub enum FPConstant {
    NaN,
    /// Minus infinity if negative, else plus infinity, and likewise for `Zero`.
    Inf { negative: bool },
    Zero { negative: bool },
}

#[derive(Clone, Copy, Debug, PartialEq, Eq, Structural)]
pub enum FPUnary {
    Abs,
    Neg,
    IsNormal,
    IsSubnormal,
    IsZero,
    IsInfinite,
    IsNaN,
    IsNegative,
    IsPositive,
    /// Reads a bitvector in IEEE 754-2008 interchange format.
    FromIEEE(u32, u32),
}

#[derive(Clone, Copy, Debug, PartialEq, Eq, Structural)]
pub enum FPRoundingUnary {
    Sqrt,
    RoundToIntegral,
    Convert(u32, u32),
    FromSigned(u32, u32),
    FromUnsigned(u32, u32),
    ToSigned(u32),
    ToUnsigned(u32),
}

/// SMTLIB is slightly inconsistent about whether it uses `le` or `leq` as a
/// suffix between bitvectors and floating point. The names follow SMTLIB.
#[derive(Clone, Copy, Debug, PartialEq, Eq, Structural)]
pub enum FPBinary {
    Rem,
    Min,
    Max,
    Leq,
    Lt,
    Geq,
    Gt,
    /// IEEE 754-2008 equality, which differs from SMTLIB equality.
    Eq,
}

#[derive(Clone, Copy, Debug, PartialEq, Eq, Structural)]
pub enum FPRoundingBinary {
    Add,
    Sub,
    Mul,
    Div,
}

#[derive(Debug)]
pub enum Exp<V> {
    Var(V),
    /// A bitvector of any length, least significant bit first.
    Bits(Vec<bool>),
    Bits64(B64),
    Enum(EnumMember),
    Bool(bool),
    Eq(Box<Exp<V>>, Box<Exp<V>>),
    Neq(Box<Exp<V>>, Box<Exp<V>>),
    And(Box<Exp<V>>, Box<Exp<V>>),
    Or(Box<Exp<V>>, Box<Exp<V>>),
    Not(Box<Exp<V>>),
    Bvnot(Box<Exp<V>>),
    Bvand(Box<Exp<V>>, Box<Exp<V>>),
    Bvor(Box<Exp<V>>, Box<Exp<V>>),
    Bvxor(Box<Exp<V>>, Box<Exp<V>>),
    Bvnand(Box<Exp<V>>, Box<Exp<V>>),
    Bvnor(Box<Exp<V>>, Box<Exp<V>>),
    Bvxnor(Box<Exp<V>>, Box<Exp<V>>),
    Bvneg(Box<Exp<V>>),
    Bvadd(Box<Exp<V>>, Box<Exp<V>>),
    Bvsub(Box<Exp<V>>, Box<Exp<V>>),
    Bvmul(Box<Exp<V>>, Box<Exp<V>>),
    Bvudiv(Box<Exp<V>>, Box<Exp<V>>),
    Bvsdiv(Box<Exp<V>>, Box<Exp<V>>),
    Bvurem(Box<Exp<V>>, Box<Exp<V>>),
    Bvsrem(Box<Exp<V>>, Box<Exp<V>>),
    Bvsmod(Box<Exp<V>>, Box<Exp<V>>),
    Bvult(Box<Exp<V>>, Box<Exp<V>>),
    Bvslt(Box<Exp<V>>, Box<Exp<V>>),
    Bvule(Box<Exp<V>>, Box<Exp<V>>),
    Bvsle(Box<Exp<V>>, Box<Exp<V>>),
    Bvuge(Box<Exp<V>>, Box<Exp<V>>),
    Bvsge(Box<Exp<V>>, Box<Exp<V>>),
    Bvugt(Box<Exp<V>>, Box<Exp<V>>),
    Bvsgt(Box<Exp<V>>, Box<Exp<V>>),
    Extract(u32, u32, Box<Exp<V>>),
    ZeroExtend(u32, Box<Exp<V>>),
    SignExtend(u32, Box<Exp<V>>),
    Bvshl(Box<Exp<V>>, Box<Exp<V>>),
    Bvlshr(Box<Exp<V>>, Box<Exp<V>>),
    Bvashr(Box<Exp<V>>, Box<Exp<V>>),
    Concat(Box<Exp<V>>, Box<Exp<V>>),
    Ite(Box<Exp<V>>, Box<Exp<V>>, Box<Exp<V>>),
    App(Sym, Vec<Exp<V>>),
    Select(Box<Exp<V>>, Box<Exp<V>>),
    Store(Box<Exp<V>>, Box<Exp<V>>, Box<Exp<V>>),
    Distinct(Vec<Exp<V>>),
    FPConstant(FPConstant, u32, u32),
    FPRoundingMode(FPRoundingMode),
    FPUnary(FPUnary, Box<Exp<V>>),
    FPRoundingUnary(FPRoundingUnary, Box<Exp<V>>, Box<Exp<V>>),
    FPBinary(FPBinary, Box<Exp<V>>, Box<Exp<V>>),
    FPRoundingBinary(FPRoundingBinary, Box<Exp<V>>, Box<Exp<V>>, Box<Exp<V>>),
    FPfma(Box<Exp<V>>, Box<Exp<V>>, Box<Exp<V>>, Box<Exp<V>>),
}

#[derive(Debug)]
pub enum Def {
    DeclareConst(Sym, Ty),
    DeclareFun(Sym, Vec<Ty>, Ty),
    DefineConst(Sym, Exp<Sym>),
    DefineEnum(usize),
    Assert(Exp<Sym>),
}

} // verus!
