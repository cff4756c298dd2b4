//! Expressions seen as trees.
//!
//! Most traversals treat every operator alike: they visit the operands and
//! put the operator back. This file separates the two. An expression is
//! either a variable, or an operator applied to operands; `Tree` is the
//! mathematical form of that, and the functions here reach the operands of
//! an expression whatever its operator is.

use super::smtlib::{EnumMember, Exp, FPBinary, FPConstant, FPRoundingBinary, FPRoundingMode, FPRoundingUnary, FPUnary, Sym};
use vstd::prelude::*;

verus! {

/// An operator together with everything about it that is not an operand.
pub enum Op {
    Bits(Seq<bool>),
    Bits64(Seq<bool>),
    Enum(EnumMember),
    Bool(bool),
    Eq,
    Neq,
    And,
    Or,
    Not,
    Bvnot,
    Bvneg,
    Bvand,
    Bvor,
    Bvxor,
    Bvnand,
    Bvnor,
    Bvxnor,
    Bvadd,
    Bvsub,
    Bvmul,
    Bvudiv,
    Bvsdiv,
    Bvurem,
    Bvsrem,
    Bvsmod,
    Bvult,
    Bvslt,
    Bvule,
    Bvsle,
    Bvuge,
    Bvsge,
    Bvugt,
    Bvsgt,
    Bvshl,
    Bvlshr,
    Bvashr,
    Concat,
    Select,
    Extract(u32, u32),
    ZeroExtend(u32),
    SignExtend(u32),
    Ite,
    App(Sym),
    Store,
    Distinct,
    FPConstant(FPConstant, u32, u32),
    FPRoundingMode(FPRoundingMode),
    FPUnary(FPUnary),
    FPRoundingUnary(FPRoundingUnary),
    FPBinary(FPBinary),
    FPRoundingBinary(FPRoundingBinary),
    FPfma,
}

/// An expression as a tree.
pub enum Tree<V> {
    Var(V),
    Node(Op, Seq<Tree<V>>),
}

/// An operator without operands.
pub open spec fn leaf<V>(op: Op) -> Tree<V> {
    Tree::Node(op, seq![])
}

impl<V> Tree<V> {
    /// The operands; a variable has none.
    pub open spec fn kids(self) -> Seq<Tree<V>> {
        match self {
            Tree::Var(_) => seq![],
            Tree::Node(_, kids) => kids,
        }
    }

    /// The number of operators on the longest path from the root.
    pub open spec fn height(self) -> nat
        decreases self,
    {
        match self {
            Tree::Var(_) => 0,
            Tree::Node(_, kids) => 1 + max_height(kids),
        }
    }
}

/// The largest height among the trees, zero if there are none.
pub open spec fn max_height<V>(trees: Seq<Tree<V>>) -> nat
    decreases trees,
{
    if trees.len() == 0 {
        0
    } else {
        let rest = max_height(trees.drop_last());
        if trees.last().height() > rest {
            trees.last().height()
        } else {
            rest
        }
    }
}

/// Every tree of a sequence is at most as high as the highest.
pub proof fn lemma_max_height<V>(trees: Seq<Tree<V>>, i: int)
    requires
        0 <= i < trees.len(),
    ensures
        trees[i].height() <= max_height(trees),
    decreases trees.len(),
{
    if i < trees.len() - 1 {
        lemma_max_height(trees.drop_last(), i);
        assert(trees.drop_last()[i] == trees[i]);
    }
}

impl<V> Exp<V> {
    /// The operator of an expression that is not a variable.
    pub open spec fn op(self) -> Op {
        match self {
            Exp::Var(_) => arbitrary(),
            Exp::Bits(b) => Op::Bits(b@),
            Exp::Bits64(b) => Op::Bits64(b@),
            Exp::Enum(m) => Op::Enum(m),
            Exp::Bool(b) => Op::Bool(b),
            Exp::Not(_) => Op::Not,
            Exp::Bvnot(_) => Op::Bvnot,
            Exp::Bvneg(_) => Op::Bvneg,
            Exp::Eq(_, _) => Op::Eq,
            Exp::Neq(_, _) => Op::Neq,
            Exp::And(_, _) => Op::And,
            Exp::Or(_, _) => Op::Or,
            Exp::Bvand(_, _) => Op::Bvand,
            Exp::Bvor(_, _) => Op::Bvor,
            Exp::Bvxor(_, _) => Op::Bvxor,
            Exp::Bvnand(_, _) => Op::Bvnand,
            Exp::Bvnor(_, _) => Op::Bvnor,
            Exp::Bvxnor(_, _) => Op::Bvxnor,
            Exp::Bvadd(_, _) => Op::Bvadd,
            Exp::Bvsub(_, _) => Op::Bvsub,
            Exp::Bvmul(_, _) => Op::Bvmul,
            Exp::Bvudiv(_, _) => Op::Bvudiv,
            Exp::Bvsdiv(_, _) => Op::Bvsdiv,
            Exp::Bvurem(_, _) => Op::Bvurem,
            Exp::Bvsrem(_, _) => Op::Bvsrem,
            Exp::Bvsmod(_, _) => Op::Bvsmod,
            Exp::Bvult(_, _) => Op::Bvult,
            Exp::Bvslt(_, _) => Op::Bvslt,
            Exp::Bvule(_, _) => Op::Bvule,
            Exp::Bvsle(_, _) => Op::Bvsle,
            Exp::Bvuge(_, _) => Op::Bvuge,
            Exp::Bvsge(_, _) => Op::Bvsge,
            Exp::Bvugt(_, _) => Op::Bvugt,
            Exp::Bvsgt(_, _) => Op::Bvsgt,
            Exp::Bvshl(_, _) => Op::Bvshl,
            Exp::Bvlshr(_, _) => Op::Bvlshr,
            Exp::Bvashr(_, _) => Op::Bvashr,
            Exp::Concat(_, _) => Op::Concat,
            Exp::Select(_, _) => Op::Select,
            Exp::Extract(hi, lo, _) => Op::Extract(hi, lo),
            Exp::ZeroExtend(n, _) => Op::ZeroExtend(n),
            Exp::SignExtend(n, _) => Op::SignExtend(n),
            Exp::Ite(_, _, _) => Op::Ite,
            Exp::App(f, _) => Op::App(f),
            Exp::Store(_, _, _) => Op::Store,
            Exp::Distinct(_) => Op::Distinct,
            Exp::FPConstant(c, e, s) => Op::FPConstant(c, e, s),
            Exp::FPRoundingMode(m) => Op::FPRoundingMode(m),
            Exp::FPUnary(op, _) => Op::FPUnary(op),
            Exp::FPRoundingUnary(op, _, _) => Op::FPRoundingUnary(op),
            Exp::FPBinary(op, _, _) => Op::FPBinary(op),
            Exp::FPRoundingBinary(op, _, _, _) => Op::FPRoundingBinary(op),
            Exp::FPfma(_, _, _, _) => Op::FPfma,
        }
    }

    /// The operands, from left to right.
    pub open spec fn kids(self) -> Seq<Exp<V>> {
        match self {
            Exp::Var(_)
            | Exp::Bits(_)
            | Exp::Bits64(_)
            | Exp::Enum(_)
            | Exp::Bool(_)
            | Exp::FPConstant(_, _, _)
            | Exp::FPRoundingMode(_) => seq![],
            Exp::Not(a)
            | Exp::Bvnot(a)
            | Exp::Bvneg(a)
            | Exp::Extract(_, _, a)
            | Exp::ZeroExtend(_, a)
            | Exp::SignExtend(_, a)
            | Exp::FPUnary(_, a) => seq![*a],
            Exp::Eq(a, b)
            | Exp::Neq(a, b)
            | Exp::And(a, b)
            | Exp::Or(a, b)
            | Exp::Bvand(a, b)
            | Exp::Bvor(a, b)
            | Exp::Bvxor(a, b)
            | Exp::Bvnand(a, b)
            | Exp::Bvnor(a, b)
            | Exp::Bvxnor(a, b)
            | Exp::Bvadd(a, b)
            | Exp::Bvsub(a, b)
            | Exp::Bvmul(a, b)
            | Exp::Bvudiv(a, b)
            | Exp::Bvsdiv(a, b)
            | Exp::Bvurem(a, b)
            | Exp::Bvsrem(a, b)
            | Exp::Bvsmod(a, b)
            | Exp::Bvult(a, b)
            | Exp::Bvslt(a, b)
            | Exp::Bvule(a, b)
            | Exp::Bvsle(a, b)
            | Exp::Bvuge(a, b)
            | Exp::Bvsge(a, b)
            | Exp::Bvugt(a, b)
            | Exp::Bvsgt(a, b)
            | Exp::Bvshl(a, b)
            | Exp::Bvlshr(a, b)
            | Exp::Bvashr(a, b)
            | Exp::Concat(a, b)
            | Exp::Select(a, b)
            | Exp::FPRoundingUnary(_, a, b)
            | Exp::FPBinary(_, a, b) => seq![*a, *b],
            Exp::Ite(a, b, c) | Exp::Store(a, b, c) | Exp::FPRoundingBinary(_, a, b, c) => {
                seq![*a, *b, *c]
            },
            Exp::FPfma(a, b, c, d) => seq![*a, *b, *c, *d],
            Exp::App(_, args) | Exp::Distinct(args) => args@,
        }
    }

    /// The tree that an expression stands for.
    pub open spec fn tree(self) -> Tree<V>
        decreases self,
    {
        proof {
            assert forall|i: int| 0 <= i < self.kids().len() implies #[trigger] decreases_to!(
                self => self.kids()[i]
            ) by {
                self.lemma_kids_decrease(i);
            }
        }
        match self {
            Exp::Var(v) => Tree::Var(v),
            _ => Tree::Node(
                self.op(),
                Seq::new(
                    self.kids().len(),
                    |i: int|
                        if 0 <= i < self.kids().len() {
                            self.kids()[i].tree()
                        } else {
                            arbitrary()
                        },
                ),
            ),
        }
    }

    /// An operand is smaller than the expression that holds it.
    pub proof fn lemma_kids_decrease(self, i: int)
        requires
            0 <= i < self.kids().len(),
        ensures
            decreases_to!(self => self.kids()[i]),
    {
        match self {
            Exp::App(_, args) | Exp::Distinct(args) => {
                assert(decreases_to!(self => args));
                assert(decreases_to!(args => args@));
                assert(decreases_to!(args@ => args@[i]));
            },
            _ => {},
        }
    }

    /// The operands of the tree are the trees of the operands.
    pub proof fn lemma_tree_kids(self)
        ensures
            self.tree().kids().len() == self.kids().len(),
            forall|i: int|
                0 <= i < self.kids().len() ==> #[trigger] self.tree().kids()[i]
                    == self.kids()[i].tree(),
    {
    }

    /// The number of operands.
    pub fn num_kids(&self) -> (n: usize)
        ensures
            n == self.kids().len(),
    {
        match self {
            Exp::Var(_)
            | Exp::Bits(_)
            | Exp::Bits64(_)
            | Exp::Enum(_)
            | Exp::Bool(_)
            | Exp::FPConstant(_, _, _)
            | Exp::FPRoundingMode(_) => 0,
            Exp::Not(_)
            | Exp::Bvnot(_)
            | Exp::Bvneg(_)
            | Exp::Extract(_, _, _)
            | Exp::ZeroExtend(_, _)
            | Exp::SignExtend(_, _)
            | Exp::FPUnary(_, _) => 1,
            Exp::Ite(_, _, _) | Exp::Store(_, _, _) | Exp::FPRoundingBinary(_, _, _, _) => 3,
            Exp::FPfma(_, _, _, _) => 4,
            Exp::App(_, args) | Exp::Distinct(args) => args.len(),
            _ => 2,
        }
    }

    /// The operand at position `i`.
    pub fn kid(&self, i: usize) -> (r: &Exp<V>)
        requires
            i < self.kids().len(),
        ensures
            *r == self.kids()[i as int],
    {
        match self {
            Exp::Not(a)
            | Exp::Bvnot(a)
            | Exp::Bvneg(a)
            | Exp::Extract(_, _, a)
            | Exp::ZeroExtend(_, a)
            | Exp::SignExtend(_, a)
            | Exp::FPUnary(_, a) => a,
            Exp::Eq(a, b)
            | Exp::Neq(a, b)
            | Exp::And(a, b)
            | Exp::Or(a, b)
            | Exp::Bvand(a, b)
            | Exp::Bvor(a, b)
            | Exp::Bvxor(a, b)
            | Exp::Bvnand(a, b)
            | Exp::Bvnor(a, b)
            | Exp::Bvxnor(a, b)
            | Exp::Bvadd(a, b)
            | Exp::Bvsub(a, b)
            | Exp::Bvmul(a, b)
            | Exp::Bvudiv(a, b)
            | Exp::Bvsdiv(a, b)
            | Exp::Bvurem(a, b)
            | Exp::Bvsrem(a, b)
            | Exp::Bvsmod(a, b)
            | Exp::Bvult(a, b)
            | Exp::Bvslt(a, b)
            | Exp::Bvule(a, b)
            | Exp::Bvsle(a, b)
            | Exp::Bvuge(a, b)
            | Exp::Bvsge(a, b)
            | Exp::Bvugt(a, b)
            | Exp::Bvsgt(a, b)
            | Exp::Bvshl(a, b)
            | Exp::Bvlshr(a, b)
            | Exp::Bvashr(a, b)
            | Exp::Concat(a, b)
            | Exp::Select(a, b)
            | Exp::FPRoundingUnary(_, a, b)
            | Exp::FPBinary(_, a, b) => {
                if i == 0 {
                    a
                } else {
                    b
                }
            },
            Exp::Ite(a, b, c) | Exp::Store(a, b, c) | Exp::FPRoundingBinary(_, a, b, c) => {
                if i == 0 {
                    a
                } else if i == 1 {
                    b
                } else {
                    c
                }
            },
            Exp::FPfma(a, b, c, d) => {
                if i == 0 {
                    a
                } else if i == 1 {
                    b
                } else if i == 2 {
                    c
                } else {
                    d
                }
            },
            Exp::App(_, args) | Exp::Distinct(args) => &args[i],
            _ => self,
        }
    }

    /// The operand at position `i`, to be changed in place.
    pub fn kid_mut(&mut self, i: usize) -> (r: &mut Exp<V>)
        requires
            i < old(self).kids().len(),
        ensures
            *r == old(self).kids()[i as int],
            final(self).op() == old(self).op(),
            final(self).kids() == old(self).kids().update(i as int, *final(r)),
            !(*final(self) is Var),
    {
        match self {
            Exp::Not(a) => a,
            Exp::Bvnot(a) => a,
            Exp::Bvneg(a) => a,
            Exp::Extract(_, _, a) => a,
            Exp::ZeroExtend(_, a) => a,
            Exp::SignExtend(_, a) => a,
            Exp::FPUnary(_, a) => a,
            Exp::Eq(a, b) => pick(i, a, b),
            Exp::Neq(a, b) => pick(i, a, b),
            Exp::And(a, b) => pick(i, a, b),
            Exp::Or(a, b) => pick(i, a, b),
            Exp::Bvand(a, b) => pick(i, a, b),
            Exp::Bvor(a, b) => pick(i, a, b),
            Exp::Bvxor(a, b) => pick(i, a, b),
            Exp::Bvnand(a, b) => pick(i, a, b),
            Exp::Bvnor(a, b) => pick(i, a, b),
            Exp::Bvxnor(a, b) => pick(i, a, b),
            Exp::Bvadd(a, b) => pick(i, a, b),
            Exp::Bvsub(a, b) => pick(i, a, b),
            Exp::Bvmul(a, b) => pick(i, a, b),
            Exp::Bvudiv(a, b) => pick(i, a, b),
            Exp::Bvsdiv(a, b) => pick(i, a, b),
            Exp::Bvurem(a, b) => pick(i, a, b),
            Exp::Bvsrem(a, b) => pick(i, a, b),
            Exp::Bvsmod(a, b) => pick(i, a, b),
            Exp::Bvult(a, b) => pick(i, a, b),
            Exp::Bvslt(a, b) => pick(i, a, b),
            Exp::Bvule(a, b) => pick(i, a, b),
            Exp::Bvsle(a, b) => pick(i, a, b),
            Exp::Bvuge(a, b) => pick(i, a, b),
            Exp::Bvsge(a, b) => pick(i, a, b),
            Exp::Bvugt(a, b) => pick(i, a, b),
            Exp::Bvsgt(a, b) => pick(i, a, b),
            Exp::Bvshl(a, b) => pick(i, a, b),
            Exp::Bvlshr(a, b) => pick(i, a, b),
            Exp::Bvashr(a, b) => pick(i, a, b),
            Exp::Concat(a, b) => pick(i, a, b),
            Exp::Select(a, b) => pick(i, a, b),
            Exp::FPRoundingUnary(_, a, b) => pick(i, a, b),
            Exp::FPBinary(_, a, b) => pick(i, a, b),
            Exp::Ite(a, b, c) => {
                if i == 0 {
                    a
                } else if i == 1 {
                    b
                } else {
                    c
                }
            },
            Exp::Store(a, b, c) => {
                if i == 0 {
                    a
                } else if i == 1 {
                    b
                } else {
                    c
                }
            },
            Exp::FPRoundingBinary(_, a, b, c) => {
                if i == 0 {
                    a
                } else if i == 1 {
                    b
                } else {
                    c
                }
            },
            Exp::FPfma(a, b, c, d) => {
                if i == 0 {
                    a
                } else if i == 1 {
                    b
                } else if i == 2 {
                    c
                } else {
                    d
                }
            },
            Exp::App(_, args) => &mut args[i],
            Exp::Distinct(args) => &mut args[i],
            _ => self,
        }
    }

    /// The operator of `self` applied to other operands.
    pub fn rebuild<W>(&self, operands: Vec<Exp<W>>) -> (r: Exp<W>)
        requires
            !(self is Var),
            operands@.len() == self.kids().len(),
        ensures
            !(r is Var),
            r.op() == self.op(),
            r.kids() == operands@,
    {
        let mut operands = operands;
        match self {
            Exp::Bits(b) => Exp::Bits(b.clone()),
            Exp::Bits64(b) => Exp::Bits64(*b),
            Exp::Enum(m) => Exp::Enum(*m),
            Exp::FPConstant(c, e, s) => Exp::FPConstant(*c, *e, *s),
            Exp::FPRoundingMode(m) => Exp::FPRoundingMode(*m),
            Exp::Not(_) => Exp::Not(last(&mut operands)),
            Exp::Bvnot(_) => Exp::Bvnot(last(&mut operands)),
            Exp::Bvneg(_) => Exp::Bvneg(last(&mut operands)),
            Exp::Extract(hi, lo, _) => Exp::Extract(*hi, *lo, last(&mut operands)),
            Exp::ZeroExtend(n, _) => Exp::ZeroExtend(*n, last(&mut operands)),
            Exp::SignExtend(n, _) => Exp::SignExtend(*n, last(&mut operands)),
            Exp::FPUnary(op, _) => Exp::FPUnary(*op, last(&mut operands)),
            Exp::Eq(_, _) => {
                let b = last(&mut operands);
                let a = last(&mut operands);
                Exp::Eq(a, b)
            },
            Exp::Neq(_, _) => {
                let b = last(&mut operands);
                let a = last(&mut operands);
                Exp::Neq(a, b)
            },
            Exp::And(_, _) => {
                let b = last(&mut operands);
                let a = last(&mut operands);
                Exp::And(a, b)
            },
            Exp::Or(_, _) => {
                let b = last(&mut operands);
                let a = last(&mut operands);
                Exp::Or(a, b)
            },
            Exp::Bvand(_, _) => {
                let b = last(&mut operands);
                let a = last(&mut operands);
                Exp::Bvand(a, b)
            },
            Exp::Bvor(_, _) => {
                let b = last(&mut operands);
                let a = last(&mut operands);
                Exp::Bvor(a, b)
            },
            Exp::Bvxor(_, _) => {
                let b = last(&mut operands);
                let a = last(&mut operands);
                Exp::Bvxor(a, b)
            },
            Exp::Bvnand(_, _) => {
                let b = last(&mut operands);
                let a = last(&mut operands);
                Exp::Bvnand(a, b)
            },
            Exp::Bvnor(_, _) => {
                let b = last(&mut operands);
                let a = last(&mut operands);
                Exp::Bvnor(a, b)
            },
            Exp::Bvxnor(_, _) => {
                let b = last(&mut operands);
                let a = last(&mut operands);
                Exp::Bvxnor(a, b)
            },
            Exp::Bvadd(_, _) => {
                let b = last(&mut operands);
                let a = last(&mut operands);
                Exp::Bvadd(a, b)
            },
            Exp::Bvsub(_, _) => {
                let b = last(&mut operands);
                let a = last(&mut operands);
                Exp::Bvsub(a, b)
            },
            Exp::Bvmul(_, _) => {
                let b = last(&mut operands);
                let a = last(&mut operands);
                Exp::Bvmul(a, b)
            },
            Exp::Bvudiv(_, _) => {
                let b = last(&mut operands);
                let a = last(&mut operands);
                Exp::Bvudiv(a, b)
            },
            Exp::Bvsdiv(_, _) => {
                let b = last(&mut operands);
                let a = last(&mut operands);
                Exp::Bvsdiv(a, b)
            },
            Exp::Bvurem(_, _) => {
                let b = last(&mut operands);
                let a = last(&mut operands);
                Exp::Bvurem(a, b)
            },
            Exp::Bvsrem(_, _) => {
                let b = last(&mut operands);
                let a = last(&mut operands);
                Exp::Bvsrem(a, b)
            },
            Exp::Bvsmod(_, _) => {
                let b = last(&mut operands);
                let a = last(&mut operands);
                Exp::Bvsmod(a, b)
            },
            Exp::Bvult(_, _) => {
                let b = last(&mut operands);
                let a = last(&mut operands);
                Exp::Bvult(a, b)
            },
            Exp::Bvslt(_, _) => {
                let b = last(&mut operands);
                let a = last(&mut operands);
                Exp::Bvslt(a, b)
            },
            Exp::Bvule(_, _) => {
                let b = last(&mut operands);
                let a = last(&mut operands);
                Exp::Bvule(a, b)
            },
            Exp::Bvsle(_, _) => {
                let b = last(&mut operands);
                let a = last(&mut operands);
                Exp::Bvsle(a, b)
            },
            Exp::Bvuge(_, _) => {
                let b = last(&mut operands);
                let a = last(&mut operands);
                Exp::Bvuge(a, b)
            },
            Exp::Bvsge(_, _) => {
                let b = last(&mut operands);
                let a = last(&mut operands);
                Exp::Bvsge(a, b)
            },
            Exp::Bvugt(_, _) => {
                let b = last(&mut operands);
                let a = last(&mut operands);
                Exp::Bvugt(a, b)
            },
            Exp::Bvsgt(_, _) => {
                let b = last(&mut operands);
                let a = last(&mut operands);
                Exp::Bvsgt(a, b)
            },
            Exp::Bvshl(_, _) => {
                let b = last(&mut operands);
                let a = last(&mut operands);
                Exp::Bvshl(a, b)
            },
            Exp::Bvlshr(_, _) => {
                let b = last(&mut operands);
                let a = last(&mut operands);
                Exp::Bvlshr(a, b)
            },
            Exp::Bvashr(_, _) => {
                let b = last(&mut operands);
                let a = last(&mut operands);
                Exp::Bvashr(a, b)
            },
            Exp::Concat(_, _) => {
                let b = last(&mut operands);
                let a = last(&mut operands);
                Exp::Concat(a, b)
            },
            Exp::Select(_, _) => {
                let b = last(&mut operands);
                let a = last(&mut operands);
                Exp::Select(a, b)
            },
            Exp::FPRoundingUnary(op, _, _) => {
                let b = last(&mut operands);
                let a = last(&mut operands);
                Exp::FPRoundingUnary(*op, a, b)
            },
            Exp::FPBinary(op, _, _) => {
                let b = last(&mut operands);
                let a = last(&mut operands);
                Exp::FPBinary(*op, a, b)
            },
            Exp::Ite(_, _, _) => {
                let c = last(&mut operands);
                let b = last(&mut operands);
                let a = last(&mut operands);
                Exp::Ite(a, b, c)
            },
            Exp::Store(_, _, _) => {
                let c = last(&mut operands);
                let b = last(&mut operands);
                let a = last(&mut operands);
                Exp::Store(a, b, c)
            },
            Exp::FPRoundingBinary(op, _, _, _) => {
                let c = last(&mut operands);
                let b = last(&mut operands);
                let a = last(&mut operands);
                Exp::FPRoundingBinary(*op, a, b, c)
            },
            Exp::FPfma(_, _, _, _) => {
                let d = last(&mut operands);
                let c = last(&mut operands);
                let b = last(&mut operands);
                let a = last(&mut operands);
                Exp::FPfma(a, b, c, d)
            },
            Exp::App(f, _) => Exp::App(*f, operands),
            Exp::Distinct(_) => Exp::Distinct(operands),
            Exp::Bool(b) => Exp::Bool(*b),
            Exp::Var(_) => Exp::Bool(false),
        }
    }
}

/// The first of two references for zero, else the second.
fn pick<'a, V>(i: usize, a: &'a mut Exp<V>, b: &'a mut Exp<V>) -> (r: &'a mut Exp<V>)
    ensures
        i == 0 ==> *r == *old(a) && *final(a) == *final(r) && *final(b) == *old(b),
        i != 0 ==> *r == *old(b) && *final(b) == *final(r) && *final(a) == *old(a),
{
    if i == 0 {
        a
    } else {
        b
    }
}

/// Takes the last operand off.
fn last<V>(operands: &mut Vec<Exp<V>>) -> (r: Box<Exp<V>>)
    requires
        old(operands)@.len() > 0,
    ensures
        *r == old(operands)@.last(),
        final(operands)@ == old(operands)@.drop_last(),
{
    Box::new(operands.pop().unwrap())
}

} // verus!
