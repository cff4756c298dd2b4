//! Constant folding.

use super::smtlib::Exp;
use super::tree::{Op, Tree};
use crate::bitvector::B64;
use crate::bv;
use vstd::prelude::*;

verus! {

/// The operators whose operands are evaluated.
pub open spec fn is_folded(op: Op) -> bool {
    match op {
        Op::Bvnot
        | Op::Eq
        | Op::Neq
        | Op::And
        | Op::Or
        | Op::Not
        | Op::Bvand
        | Op::Bvor
        | Op::Bvxor
        | Op::Bvadd
        | Op::Bvsub
        | Op::Bvlshr
        | Op::Bvshl
        | Op::Extract(_, _)
        | Op::ZeroExtend(_)
        | Op::SignExtend(_)
        | Op::Ite => true,
        _ => false,
    }
}

impl<V> Tree<V> {
    /// The value of a boolean constant.
    pub open spec fn bool_constant(self) -> Option<bool> {
        match self {
            Tree::Node(Op::Bool(b), _) => Some(b),
            _ => None,
        }
    }

    /// The bits of a bitvector constant that fits in a word.
    pub open spec fn short_constant(self) -> Option<Seq<bool>> {
        match self {
            Tree::Node(Op::Bits64(s), _) => Some(s),
            _ => None,
        }
    }

    /// The bits of a bitvector constant that is spelled out bit by bit.
    pub open spec fn long_constant(self) -> Option<Seq<bool>> {
        match self {
            Tree::Node(Op::Bits(s), _) => Some(s),
            _ => None,
        }
    }
}

/// A binary operator on two short constants, or left as it is.
pub open spec fn fold_binary<V>(
    op: Op,
    kids: Seq<Tree<V>>,
    f: spec_fn(Seq<bool>, Seq<bool>) -> Seq<bool>,
) -> Tree<V> {
    match (kids[0].short_constant(), kids[1].short_constant()) {
        (Some(s), Some(t)) => super::tree::leaf(Op::Bits64(f(s, t))),
        _ => Tree::Node(op, kids),
    }
}

/// An operator applied to operands that are evaluated already.
pub open spec fn fold<V>(op: Op, kids: Seq<Tree<V>>) -> Tree<V> {
    match op {
        Op::Bvnot => match (kids[0].short_constant(), kids[0].long_constant()) {
            (Some(s), _) => super::tree::leaf(Op::Bits64(bv::bvnot(s))),
            (_, Some(s)) => super::tree::leaf(Op::Bits(bv::bvnot(s))),
            _ => Tree::Node(op, kids),
        },
        Op::And => match (kids[0].bool_constant(), kids[1].bool_constant()) {
            (Some(a), Some(b)) => super::tree::leaf(Op::Bool(a && b)),
            (Some(a), None) => if a {
                kids[1]
            } else {
                super::tree::leaf(Op::Bool(false))
            },
            (None, Some(b)) => if b {
                kids[0]
            } else {
                super::tree::leaf(Op::Bool(false))
            },
            (None, None) => Tree::Node(op, kids),
        },
        Op::Or => match (kids[0].bool_constant(), kids[1].bool_constant()) {
            (Some(a), Some(b)) => super::tree::leaf(Op::Bool(a || b)),
            (Some(a), None) => if a {
                super::tree::leaf(Op::Bool(true))
            } else {
                kids[1]
            },
            (None, Some(b)) => if b {
                super::tree::leaf(Op::Bool(true))
            } else {
                kids[0]
            },
            (None, None) => Tree::Node(op, kids),
        },
        Op::Not => match kids[0].bool_constant() {
            Some(b) => super::tree::leaf(Op::Bool(!b)),
            None => Tree::Node(op, kids),
        },
        Op::Bvand => fold_binary(op, kids, |s: Seq<bool>, t: Seq<bool>| bv::bvand(s, t)),
        Op::Bvor => fold_binary(op, kids, |s: Seq<bool>, t: Seq<bool>| bv::bvor(s, t)),
        Op::Bvxor => fold_binary(op, kids, |s: Seq<bool>, t: Seq<bool>| bv::bvxor(s, t)),
        Op::Bvadd => fold_binary(op, kids, |s: Seq<bool>, t: Seq<bool>| bv::bvadd(s, t)),
        Op::Bvsub => fold_binary(op, kids, |s: Seq<bool>, t: Seq<bool>| bv::bvsub(s, t)),
        Op::Bvlshr => fold_binary(op, kids, |s: Seq<bool>, t: Seq<bool>| bv::bvlshr(s, t)),
        Op::Bvshl => fold_binary(op, kids, |s: Seq<bool>, t: Seq<bool>| bv::bvshl(s, t)),
        Op::Extract(hi, lo) => match (kids[0].short_constant(), kids[0].long_constant()) {
            (Some(s), _) => super::tree::leaf(
                Op::Bits64(bv::extract(s, hi as int, lo as int)),
            ),
            (_, Some(s)) => {
                let r = bv::extract(s, hi as int, lo as int);
                super::tree::leaf(
                    if r.len() <= 64 {
                        Op::Bits64(r)
                    } else {
                        Op::Bits(r)
                    },
                )
            },
            _ => Tree::Node(op, kids),
        },
        Op::ZeroExtend(n) => match kids[0].short_constant() {
            Some(s) if s.len() + n <= 64 => super::tree::leaf(
                Op::Bits64(bv::zero_extend(s, n as nat)),
            ),
            _ => Tree::Node(op, kids),
        },
        Op::SignExtend(n) => match kids[0].short_constant() {
            Some(s) if s.len() + n <= 64 => super::tree::leaf(
                Op::Bits64(bv::sign_extend(s, n as nat)),
            ),
            _ => Tree::Node(op, kids),
        },
        Op::Ite => match kids[0].bool_constant() {
            Some(b) => if b {
                kids[1]
            } else {
                kids[2]
            },
            None => Tree::Node(op, kids),
        },
        _ => Tree::Node(op, kids),
    }
}

/// The operands, each evaluated.
pub open spec fn eval_kids<V>(kids: Seq<Tree<V>>) -> Seq<Tree<V>>
    decreases kids, 0nat,
{
    Seq::new(
        kids.len(),
        |i: int|
            if 0 <= i < kids.len() {
                eval(kids[i])
            } else {
                arbitrary()
            },
    )
}

/// The tree with its constants folded, as far as the operators are ones that
/// are evaluated.
pub open spec fn eval<V>(t: Tree<V>) -> Tree<V>
    decreases t, 1nat,
{
    match t {
        Tree::Node(op, kids) => if is_folded(op) {
            fold(op, eval_kids(kids))
        } else {
            t
        },
        Tree::Var(_) => t,
    }
}

/// The bits that an operator selects or adds are there to be selected, and
/// can be counted.
pub open spec fn fold_ok<V>(op: Op, kids: Seq<Tree<V>>) -> bool {
    match op {
        Op::Extract(hi, lo) => {
            &&& kids[0].short_constant() matches Some(s) ==> lo <= hi < s.len()
            &&& kids[0].long_constant() matches Some(s) ==> lo <= hi < s.len() && hi - lo < u32::MAX
        },
        Op::ZeroExtend(n) | Op::SignExtend(n) => kids[0].short_constant() matches Some(s)
            ==> s.len() + n <= u32::MAX,
        _ => true,
    }
}

/// No constant that evaluation meets is taken apart outside its bounds.
pub open spec fn eval_ok<V>(t: Tree<V>) -> bool
    decreases t,
{
    match t {
        Tree::Node(op, kids) => is_folded(op) ==> {
            &&& forall|i: int| 0 <= i < kids.len() ==> eval_ok(#[trigger] kids[i])
            &&& fold_ok(op, eval_kids(kids))
        },
        Tree::Var(_) => true,
    }
}

impl<V> Exp<V> {
    /// An expression without operands is a leaf.
    pub proof fn lemma_tree0(self)
        requires
            self.kids().len() == 0,
            !(self is Var),
        ensures
            self.tree() == super::tree::leaf::<V>(self.op()),
    {
        assert(self.tree().kids() =~= seq![]);
    }

    pub proof fn lemma_tree1(self)
        requires
            self.kids().len() == 1,
        ensures
            self.tree() == Tree::Node(self.op(), seq![self.kids()[0].tree()]),
    {
        assert(self.tree().kids() =~= seq![self.kids()[0].tree()]);
    }

    pub proof fn lemma_tree2(self)
        requires
            self.kids().len() == 2,
        ensures
            self.tree() == Tree::Node(
                self.op(),
                seq![self.kids()[0].tree(), self.kids()[1].tree()],
            ),
    {
        assert(self.tree().kids() =~= seq![self.kids()[0].tree(), self.kids()[1].tree()]);
    }

    pub proof fn lemma_tree3(self)
        requires
            self.kids().len() == 3,
        ensures
            self.tree() == Tree::Node(
                self.op(),
                seq![self.kids()[0].tree(), self.kids()[1].tree(), self.kids()[2].tree()],
            ),
    {
        assert(self.tree().kids() =~= seq![
            self.kids()[0].tree(),
            self.kids()[1].tree(),
            self.kids()[2].tree(),
        ]);
    }

    /// The value of a boolean constant.
    fn extract_bool(&self) -> (r: Option<bool>)
        ensures
            r == self.tree().bool_constant(),
    {
        match self {
            Exp::Bool(b) => Some(*b),
            _ => None,
        }
    }

    /// The value of a bitvector constant that fits in a word.
    fn extract_bits64(&self) -> (r: Option<B64>)
        ensures
            r is Some <==> self.tree().short_constant() is Some,
            r matches Some(b) ==> self.tree().short_constant() == Some(b@),
    {
        match self {
            Exp::Bits64(b) => Some(*b),
            _ => None,
        }
    }
}

/// Bits `hi` down to `lo` of an evaluated operand.
fn eval_extract<V>(hi: u32, lo: u32, exp: Exp<V>) -> (r: Exp<V>)
    requires
        fold_ok(Op::Extract(hi, lo), seq![exp.tree()]),
    ensures
        r.tree() == fold(Op::Extract(hi, lo), seq![exp.tree()]),
{
    match exp {
        Exp::Bits64(bits) => {
            let r = Exp::Bits64(bits.extract(hi, lo).unwrap());
            proof {
                r.lemma_tree0();
            }
            r
        },
        Exp::Bits(orig) => {
            let len: u32 = (hi - lo) + 1;
            let ghost want = bv::extract(orig@, hi as int, lo as int);
            if len <= 64 {
                let mut bits = B64::zeros(len);
                let mut n: u32 = 0;
                assert(bits@.subrange(0, 0) =~= want.subrange(0, 0));
                while n < len
                    invariant
                        len == hi - lo + 1,
                        len <= 64,
                        n <= len,
                        hi < orig@.len(),
                        lo <= hi,
                        want == bv::extract(orig@, hi as int, lo as int),
                        bits@.len() == len,
                        forall|j: int| 0 <= j < n ==> bits@[j] == want[j],
                        forall|j: int| n <= j < len ==> !bits@[j],
                    decreases len - n,
                {
                    if orig[(n + lo) as usize] {
                        bits = bits.set_bit(n);
                    }
                    n = n + 1;
                }
                let r = Exp::Bits64(bits);
                proof {
                    assert(bits@ =~= want);
                    r.lemma_tree0();
                }
                r
            } else {
                let mut vec: Vec<bool> = Vec::new();
                let mut n: u32 = 0;
                while n < len
                    invariant
                        len == hi - lo + 1,
                        n <= len,
                        hi < orig@.len(),
                        lo <= hi,
                        want == bv::extract(orig@, hi as int, lo as int),
                        vec@ == want.take(n as int),
                    decreases len - n,
                {
                    vec.push(orig[(n + lo) as usize]);
                    n = n + 1;
                    assert(vec@ =~= want.take(n as int));
                }
                let r = Exp::Bits(vec);
                proof {
                    assert(vec@ =~= want);
                    r.lemma_tree0();
                }
                r
            }
        },
        exp => {
            let r = Exp::Extract(hi, lo, Box::new(exp));
            proof {
                r.lemma_tree1();
            }
            r
        },
    }
}

/// An evaluated operand with `len` zero bits added.
fn eval_zero_extend<V>(len: u32, exp: Exp<V>) -> (r: Exp<V>)
    requires
        fold_ok(Op::ZeroExtend(len), seq![exp.tree()]),
    ensures
        r.tree() == fold(Op::ZeroExtend(len), seq![exp.tree()]),
{
    if let Some(bits) = exp.extract_bits64() {
        let n = bits.len();
        if n + len <= 64 {
            let r = Exp::Bits64(bits.zero_extend(n + len));
            proof {
                r.lemma_tree0();
            }
            return r;
        }
    }
    let r = Exp::ZeroExtend(len, Box::new(exp));
    proof {
        r.lemma_tree1();
    }
    r
}

/// An evaluated operand with `len` copies of its most significant bit added.
fn eval_sign_extend<V>(len: u32, exp: Exp<V>) -> (r: Exp<V>)
    requires
        fold_ok(Op::SignExtend(len), seq![exp.tree()]),
    ensures
        r.tree() == fold(Op::SignExtend(len), seq![exp.tree()]),
{
    if let Some(bits) = exp.extract_bits64() {
        let n = bits.len();
        if n + len <= 64 {
            let r = Exp::Bits64(bits.sign_extend(n + len));
            proof {
                r.lemma_tree0();
            }
            return r;
        }
    }
    let r = Exp::SignExtend(len, Box::new(exp));
    proof {
        r.lemma_tree1();
    }
    r
}

/// The bits after inverting each.
fn invert(bits: Vec<bool>) -> (r: Vec<bool>)
    ensures
        r@ == bv::bvnot(bits@),
{
    let mut out: Vec<bool> = Vec::new();
    let mut i: usize = 0;
    while i < bits.len()
        invariant
            i <= bits@.len(),
            out@ == bv::bvnot(bits@).take(i as int),
        decreases bits@.len() - i,
    {
        out.push(!bits[i]);
        i = i + 1;
        assert(out@ =~= bv::bvnot(bits@).take(i as int));
    }
    assert(out@ =~= bv::bvnot(bits@));
    out
}

/// Inverts the bits of an evaluated operand.
fn eval_bvnot<V>(exp: Exp<V>) -> (r: Exp<V>)
    ensures
        r.tree() == fold(Op::Bvnot, seq![exp.tree()]),
{
    match exp {
        Exp::Bits64(bits) => {
            let r = Exp::Bits64(bits.not());
            proof {
                r.lemma_tree0();
            }
            r
        },
        Exp::Bits(vec) => {
            let r = Exp::Bits(invert(vec));
            proof {
                r.lemma_tree0();
            }
            r
        },
        exp => {
            let r = Exp::Bvnot(Box::new(exp));
            proof {
                r.lemma_tree1();
            }
            r
        },
    }
}

/// Negates an evaluated operand.
fn eval_not<V>(exp: Exp<V>) -> (r: Exp<V>)
    ensures
        r.tree() == fold(Op::Not, seq![exp.tree()]),
{
    if let Some(b) = exp.extract_bool() {
        let r = Exp::Bool(!b);
        proof {
            r.lemma_tree0();
        }
        r
    } else {
        let r = Exp::Not(Box::new(exp));
        proof {
            r.lemma_tree1();
        }
        r
    }
}

/// The conjunction of two evaluated operands.
fn eval_and<V>(lhs: Exp<V>, rhs: Exp<V>) -> (r: Exp<V>)
    ensures
        r.tree() == fold(Op::And, seq![lhs.tree(), rhs.tree()]),
{
    match (lhs.extract_bool(), rhs.extract_bool()) {
        (Some(a), Some(b)) => {
            let r = Exp::Bool(a && b);
            proof {
                r.lemma_tree0();
            }
            r
        },
        (Some(true), None) => rhs,
        (None, Some(true)) => lhs,
        (None, None) => {
            let r = Exp::And(Box::new(lhs), Box::new(rhs));
            proof {
                r.lemma_tree2();
            }
            r
        },
        _ => {
            let r = Exp::Bool(false);
            proof {
                r.lemma_tree0();
            }
            r
        },
    }
}

/// The disjunction of two evaluated operands.
fn eval_or<V>(lhs: Exp<V>, rhs: Exp<V>) -> (r: Exp<V>)
    ensures
        r.tree() == fold(Op::Or, seq![lhs.tree(), rhs.tree()]),
{
    match (lhs.extract_bool(), rhs.extract_bool()) {
        (Some(a), Some(b)) => {
            let r = Exp::Bool(a || b);
            proof {
                r.lemma_tree0();
            }
            r
        },
        (Some(false), None) => rhs,
        (None, Some(false)) => lhs,
        (None, None) => {
            let r = Exp::Or(Box::new(lhs), Box::new(rhs));
            proof {
                r.lemma_tree2();
            }
            r
        },
        _ => {
            let r = Exp::Bool(true);
            proof {
                r.lemma_tree0();
            }
            r
        },
    }
}

fn eval_bvand<V>(lhs: Exp<V>, rhs: Exp<V>) -> (r: Exp<V>)
    ensures
        r.tree() == fold(Op::Bvand, seq![lhs.tree(), rhs.tree()]),
{
    if let (Some(a), Some(b)) = (lhs.extract_bits64(), rhs.extract_bits64()) {
        let r = Exp::Bits64(a.bitand(b));
        proof {
            r.lemma_tree0();
        }
        r
    } else {
        let r = Exp::Bvand(Box::new(lhs), Box::new(rhs));
        proof {
            r.lemma_tree2();
        }
        r
    }
}

fn eval_bvor<V>(lhs: Exp<V>, rhs: Exp<V>) -> (r: Exp<V>)
    ensures
        r.tree() == fold(Op::Bvor, seq![lhs.tree(), rhs.tree()]),
{
    if let (Some(a), Some(b)) = (lhs.extract_bits64(), rhs.extract_bits64()) {
        let r = Exp::Bits64(a.bitor(b));
        proof {
            r.lemma_tree0();
        }
        r
    } else {
        let r = Exp::Bvor(Box::new(lhs), Box::new(rhs));
        proof {
            r.lemma_tree2();
        }
        r
    }
}

fn eval_bvxor<V>(lhs: Exp<V>, rhs: Exp<V>) -> (r: Exp<V>)
    ensures
        r.tree() == fold(Op::Bvxor, seq![lhs.tree(), rhs.tree()]),
{
    if let (Some(a), Some(b)) = (lhs.extract_bits64(), rhs.extract_bits64()) {
        let r = Exp::Bits64(a.bitxor(b));
        proof {
            r.lemma_tree0();
        }
        r
    } else {
        let r = Exp::Bvxor(Box::new(lhs), Box::new(rhs));
        proof {
            r.lemma_tree2();
        }
        r
    }
}

fn eval_bvadd<V>(lhs: Exp<V>, rhs: Exp<V>) -> (r: Exp<V>)
    ensures
        r.tree() == fold(Op::Bvadd, seq![lhs.tree(), rhs.tree()]),
{
    if let (Some(a), Some(b)) = (lhs.extract_bits64(), rhs.extract_bits64()) {
        let r = Exp::Bits64(a.add(b));
        proof {
            r.lemma_tree0();
        }
        r
    } else {
        let r = Exp::Bvadd(Box::new(lhs), Box::new(rhs));
        proof {
            r.lemma_tree2();
        }
        r
    }
}

fn eval_bvsub<V>(lhs: Exp<V>, rhs: Exp<V>) -> (r: Exp<V>)
    ensures
        r.tree() == fold(Op::Bvsub, seq![lhs.tree(), rhs.tree()]),
{
    if let (Some(a), Some(b)) = (lhs.extract_bits64(), rhs.extract_bits64()) {
        let r = Exp::Bits64(a.sub(b));
        proof {
            r.lemma_tree0();
        }
        r
    } else {
        let r = Exp::Bvsub(Box::new(lhs), Box::new(rhs));
        proof {
            r.lemma_tree2();
        }
        r
    }
}

fn eval_bvlshr<V>(lhs: Exp<V>, rhs: Exp<V>) -> (r: Exp<V>)
    ensures
        r.tree() == fold(Op::Bvlshr, seq![lhs.tree(), rhs.tree()]),
{
    if let (Some(a), Some(b)) = (lhs.extract_bits64(), rhs.extract_bits64()) {
        let r = Exp::Bits64(a.shr(b));
        proof {
            r.lemma_tree0();
        }
        r
    } else {
        let r = Exp::Bvlshr(Box::new(lhs), Box::new(rhs));
        proof {
            r.lemma_tree2();
        }
        r
    }
}

fn eval_bvshl<V>(lhs: Exp<V>, rhs: Exp<V>) -> (r: Exp<V>)
    ensures
        r.tree() == fold(Op::Bvshl, seq![lhs.tree(), rhs.tree()]),
{
    if let (Some(a), Some(b)) = (lhs.extract_bits64(), rhs.extract_bits64()) {
        let r = Exp::Bits64(a.shl(b));
        proof {
            r.lemma_tree0();
        }
        r
    } else {
        let r = Exp::Bvshl(Box::new(lhs), Box::new(rhs));
        proof {
            r.lemma_tree2();
        }
        r
    }
}

/// Chooses between two evaluated operands if the guard is a constant.
fn eval_ite<V>(guard: Exp<V>, true_exp: Exp<V>, false_exp: Exp<V>) -> (r: Exp<V>)
    ensures
        r.tree() == fold(Op::Ite, seq![guard.tree(), true_exp.tree(), false_exp.tree()]),
{
    match guard.extract_bool() {
        Some(true) => true_exp,
        Some(false) => false_exp,
        None => {
            let r = Exp::Ite(Box::new(guard), Box::new(true_exp), Box::new(false_exp));
            proof {
                r.lemma_tree3();
            }
            r
        },
    }
}

/// Equality and disequality of evaluated operands are not folded.
fn eval_eq<V>(lhs: Exp<V>, rhs: Exp<V>) -> (r: Exp<V>)
    ensures
        r.tree() == fold(Op::Eq, seq![lhs.tree(), rhs.tree()]),
{
    let r = Exp::Eq(Box::new(lhs), Box::new(rhs));
    proof {
        r.lemma_tree2();
    }
    r
}

fn eval_neq<V>(lhs: Exp<V>, rhs: Exp<V>) -> (r: Exp<V>)
    ensures
        r.tree() == fold(Op::Neq, seq![lhs.tree(), rhs.tree()]),
{
    let r = Exp::Neq(Box::new(lhs), Box::new(rhs));
    proof {
        r.lemma_tree2();
    }
    r
}

impl<V> Exp<V> {
    /// Folds the constants of an expression. Operators that are not known to
    /// fold are left as they are, operands included.
    pub fn eval(self) -> (r: Exp<V>)
        requires
            eval_ok(self.tree()),
        ensures
            r.tree() == eval(self.tree()),
        decreases self,
    {
        proof {
            self.lemma_eval_unfold();
        }
        match self {
            Exp::Bvnot(exp) => eval_bvnot((*exp).eval()),
            Exp::Eq(lhs, rhs) => eval_eq((*lhs).eval(), (*rhs).eval()),
            Exp::Neq(lhs, rhs) => eval_neq((*lhs).eval(), (*rhs).eval()),
            Exp::And(lhs, rhs) => eval_and((*lhs).eval(), (*rhs).eval()),
            Exp::Or(lhs, rhs) => eval_or((*lhs).eval(), (*rhs).eval()),
            Exp::Not(exp) => eval_not((*exp).eval()),
            Exp::Bvand(lhs, rhs) => eval_bvand((*lhs).eval(), (*rhs).eval()),
            Exp::Bvor(lhs, rhs) => eval_bvor((*lhs).eval(), (*rhs).eval()),
            Exp::Bvxor(lhs, rhs) => eval_bvxor((*lhs).eval(), (*rhs).eval()),
            Exp::Bvadd(lhs, rhs) => eval_bvadd((*lhs).eval(), (*rhs).eval()),
            Exp::Bvsub(lhs, rhs) => eval_bvsub((*lhs).eval(), (*rhs).eval()),
            Exp::Bvlshr(lhs, rhs) => eval_bvlshr((*lhs).eval(), (*rhs).eval()),
            Exp::Bvshl(lhs, rhs) => eval_bvshl((*lhs).eval(), (*rhs).eval()),
            Exp::Extract(hi, lo, exp) => eval_extract(hi, lo, (*exp).eval()),
            Exp::ZeroExtend(len, exp) => eval_zero_extend(len, (*exp).eval()),
            Exp::SignExtend(len, exp) => eval_sign_extend(len, (*exp).eval()),
            Exp::Ite(guard, true_exp, false_exp) => eval_ite(
                (*guard).eval(),
                (*true_exp).eval(),
                (*false_exp).eval(),
            ),
            exp => exp,
        }
    }

    /// Evaluation of an expression in terms of its evaluated operands.
    proof fn lemma_eval_unfold(self)
        ensures
            self is Var ==> eval(self.tree()) == self.tree(),
            !(self is Var) && !is_folded(self.op()) ==> eval(self.tree()) == self.tree(),
            !(self is Var) && is_folded(self.op()) ==> eval(self.tree()) == fold(
                self.op(),
                eval_kids(self.tree().kids()),
            ),
            !(self is Var) && is_folded(self.op()) && eval_ok(self.tree()) ==> fold_ok(
                self.op(),
                eval_kids(self.tree().kids()),
            ),
            eval_ok(self.tree()) && !(self is Var) && is_folded(self.op()) ==> forall|i: int|
                0 <= i < self.kids().len() ==> eval_ok(#[trigger] self.kids()[i].tree()),
            !(self is Var) && is_folded(self.op()) ==> ({
                let k = self.kids();
                &&& k.len() == 1 ==> eval_kids(self.tree().kids()) == seq![eval(k[0].tree())]
                &&& k.len() == 2 ==> eval_kids(self.tree().kids()) == seq![
                    eval(k[0].tree()),
                    eval(k[1].tree()),
                ]
                &&& k.len() == 3 ==> eval_kids(self.tree().kids()) == seq![
                    eval(k[0].tree()),
                    eval(k[1].tree()),
                    eval(k[2].tree()),
                ]
            }),
    {
        if !(self is Var) && is_folded(self.op()) {
            let k = self.kids();
            let e = eval_kids(self.tree().kids());
            self.lemma_tree_kids();
            if eval_ok(self.tree()) {
                assert forall|i: int| 0 <= i < k.len() implies eval_ok(
                    #[trigger] k[i].tree(),
                ) by {
                    assert(eval_ok(self.tree().kids()[i]));
                }
            }
            if k.len() == 1 {
                assert(e =~= seq![eval(k[0].tree())]);
            } else if k.len() == 2 {
                assert(e =~= seq![eval(k[0].tree()), eval(k[1].tree())]);
            } else if k.len() == 3 {
                assert(e =~= seq![eval(k[0].tree()), eval(k[1].tree()), eval(k[2].tree())]);
            }
        }
    }
}

} // verus!
