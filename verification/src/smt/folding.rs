//! What becomes of constants, and what operators stand for.

use super::eval;
use super::infer;
use super::literal;
use super::rewrite;
use super::semantics::{self, Interp, Value};
use super::smtlib::{Exp, FPBinary, FPRoundingBinary, FPRoundingUnary, FPUnary, Sym, Ty};
use super::subst;
use super::tree::{Op, Tree};
use crate::bv;
use vstd::prelude::*;

verus! {

/// An operator on the trees of two expressions, in their order.
pub open spec fn two<V>(op: Op, a: Exp<V>, b: Exp<V>) -> Tree<V> {
    Tree::Node(op, seq![a.tree(), b.tree()])
}

/// An expression with two operands stands for its operator on the first and
/// the second of them.
pub proof fn law_trees_of_binary<V>(a: Exp<V>, b: Exp<V>)
    ensures
        Exp::Eq(Box::new(a), Box::new(b)).tree() == two(Op::Eq, a, b),
        Exp::Neq(Box::new(a), Box::new(b)).tree() == two(Op::Neq, a, b),
        Exp::And(Box::new(a), Box::new(b)).tree() == two(Op::And, a, b),
        Exp::Or(Box::new(a), Box::new(b)).tree() == two(Op::Or, a, b),
        Exp::Bvand(Box::new(a), Box::new(b)).tree() == two(Op::Bvand, a, b),
        Exp::Bvor(Box::new(a), Box::new(b)).tree() == two(Op::Bvor, a, b),
        Exp::Bvxor(Box::new(a), Box::new(b)).tree() == two(Op::Bvxor, a, b),
        Exp::Bvnand(Box::new(a), Box::new(b)).tree() == two(Op::Bvnand, a, b),
        Exp::Bvnor(Box::new(a), Box::new(b)).tree() == two(Op::Bvnor, a, b),
        Exp::Bvxnor(Box::new(a), Box::new(b)).tree() == two(Op::Bvxnor, a, b),
        Exp::Bvadd(Box::new(a), Box::new(b)).tree() == two(Op::Bvadd, a, b),
        Exp::Bvsub(Box::new(a), Box::new(b)).tree() == two(Op::Bvsub, a, b),
        Exp::Bvmul(Box::new(a), Box::new(b)).tree() == two(Op::Bvmul, a, b),
        Exp::Bvudiv(Box::new(a), Box::new(b)).tree() == two(Op::Bvudiv, a, b),
        Exp::Bvsdiv(Box::new(a), Box::new(b)).tree() == two(Op::Bvsdiv, a, b),
        Exp::Bvurem(Box::new(a), Box::new(b)).tree() == two(Op::Bvurem, a, b),
        Exp::Bvsrem(Box::new(a), Box::new(b)).tree() == two(Op::Bvsrem, a, b),
        Exp::Bvsmod(Box::new(a), Box::new(b)).tree() == two(Op::Bvsmod, a, b),
        Exp::Bvult(Box::new(a), Box::new(b)).tree() == two(Op::Bvult, a, b),
        Exp::Bvslt(Box::new(a), Box::new(b)).tree() == two(Op::Bvslt, a, b),
        Exp::Bvule(Box::new(a), Box::new(b)).tree() == two(Op::Bvule, a, b),
        Exp::Bvsle(Box::new(a), Box::new(b)).tree() == two(Op::Bvsle, a, b),
        Exp::Bvuge(Box::new(a), Box::new(b)).tree() == two(Op::Bvuge, a, b),
        Exp::Bvsge(Box::new(a), Box::new(b)).tree() == two(Op::Bvsge, a, b),
        Exp::Bvugt(Box::new(a), Box::new(b)).tree() == two(Op::Bvugt, a, b),
        Exp::Bvsgt(Box::new(a), Box::new(b)).tree() == two(Op::Bvsgt, a, b),
        Exp::Bvshl(Box::new(a), Box::new(b)).tree() == two(Op::Bvshl, a, b),
        Exp::Bvlshr(Box::new(a), Box::new(b)).tree() == two(Op::Bvlshr, a, b),
        Exp::Bvashr(Box::new(a), Box::new(b)).tree() == two(Op::Bvashr, a, b),
        Exp::Concat(Box::new(a), Box::new(b)).tree() == two(Op::Concat, a, b),
        Exp::Select(Box::new(a), Box::new(b)).tree() == two(Op::Select, a, b),
{
    Exp::Eq(Box::new(a), Box::new(b)).lemma_tree2();
    Exp::Neq(Box::new(a), Box::new(b)).lemma_tree2();
    Exp::And(Box::new(a), Box::new(b)).lemma_tree2();
    Exp::Or(Box::new(a), Box::new(b)).lemma_tree2();
    Exp::Bvand(Box::new(a), Box::new(b)).lemma_tree2();
    Exp::Bvor(Box::new(a), Box::new(b)).lemma_tree2();
    Exp::Bvxor(Box::new(a), Box::new(b)).lemma_tree2();
    Exp::Bvnand(Box::new(a), Box::new(b)).lemma_tree2();
    Exp::Bvnor(Box::new(a), Box::new(b)).lemma_tree2();
    Exp::Bvxnor(Box::new(a), Box::new(b)).lemma_tree2();
    Exp::Bvadd(Box::new(a), Box::new(b)).lemma_tree2();
    Exp::Bvsub(Box::new(a), Box::new(b)).lemma_tree2();
    Exp::Bvmul(Box::new(a), Box::new(b)).lemma_tree2();
    Exp::Bvudiv(Box::new(a), Box::new(b)).lemma_tree2();
    Exp::Bvsdiv(Box::new(a), Box::new(b)).lemma_tree2();
    Exp::Bvurem(Box::new(a), Box::new(b)).lemma_tree2();
    Exp::Bvsrem(Box::new(a), Box::new(b)).lemma_tree2();
    Exp::Bvsmod(Box::new(a), Box::new(b)).lemma_tree2();
    Exp::Bvult(Box::new(a), Box::new(b)).lemma_tree2();
    Exp::Bvslt(Box::new(a), Box::new(b)).lemma_tree2();
    Exp::Bvule(Box::new(a), Box::new(b)).lemma_tree2();
    Exp::Bvsle(Box::new(a), Box::new(b)).lemma_tree2();
    Exp::Bvuge(Box::new(a), Box::new(b)).lemma_tree2();
    Exp::Bvsge(Box::new(a), Box::new(b)).lemma_tree2();
    Exp::Bvugt(Box::new(a), Box::new(b)).lemma_tree2();
    Exp::Bvsgt(Box::new(a), Box::new(b)).lemma_tree2();
    Exp::Bvshl(Box::new(a), Box::new(b)).lemma_tree2();
    Exp::Bvlshr(Box::new(a), Box::new(b)).lemma_tree2();
    Exp::Bvashr(Box::new(a), Box::new(b)).lemma_tree2();
    Exp::Concat(Box::new(a), Box::new(b)).lemma_tree2();
    Exp::Select(Box::new(a), Box::new(b)).lemma_tree2();
}

/// An expression with one or three operands stands for its operator on these,
/// in their order.
pub proof fn law_trees_of_others<V>(a: Exp<V>, b: Exp<V>, c: Exp<V>, hi: u32, lo: u32)
    ensures
        Exp::Not(Box::new(a)).tree() == Tree::Node(Op::Not, seq![a.tree()]),
        Exp::Bvnot(Box::new(a)).tree() == Tree::Node(Op::Bvnot, seq![a.tree()]),
        Exp::Bvneg(Box::new(a)).tree() == Tree::Node(Op::Bvneg, seq![a.tree()]),
        Exp::Extract(hi, lo, Box::new(a)).tree() == Tree::Node(
            Op::Extract(hi, lo),
            seq![a.tree()],
        ),
        Exp::ZeroExtend(hi, Box::new(a)).tree() == Tree::Node(Op::ZeroExtend(hi), seq![a.tree()]),
        Exp::SignExtend(hi, Box::new(a)).tree() == Tree::Node(Op::SignExtend(hi), seq![a.tree()]),
        Exp::Ite(Box::new(a), Box::new(b), Box::new(c)).tree() == Tree::Node(
            Op::Ite,
            seq![a.tree(), b.tree(), c.tree()],
        ),
        Exp::Store(Box::new(a), Box::new(b), Box::new(c)).tree() == Tree::Node(
            Op::Store,
            seq![a.tree(), b.tree(), c.tree()],
        ),
{
    Exp::Not(Box::new(a)).lemma_tree1();
    Exp::Bvnot(Box::new(a)).lemma_tree1();
    Exp::Bvneg(Box::new(a)).lemma_tree1();
    Exp::Extract(hi, lo, Box::new(a)).lemma_tree1();
    Exp::ZeroExtend(hi, Box::new(a)).lemma_tree1();
    Exp::SignExtend(hi, Box::new(a)).lemma_tree1();
    Exp::Ite(Box::new(a), Box::new(b), Box::new(c)).lemma_tree3();
    Exp::Store(Box::new(a), Box::new(b), Box::new(c)).lemma_tree3();
}

/// Whether a tree is a boolean constant.
pub open spec fn is_bool<V>(t: Tree<V>, b: bool) -> bool {
    t matches Tree::Node(op, _) && op == Op::Bool(b)
}

/// Of a conjunction with a constant operand that is true the other operand
/// is left, and with one that is false nothing but false; a disjunction is
/// treated the other way round.
pub proof fn law_connectives_are_folded<V>(a: Tree<V>, b: Tree<V>, known: bool)
    ensures
        ({
            let (x, y) = (eval::eval(a), eval::eval(b));
            let and = eval::eval(Tree::Node(Op::And, seq![a, b]));
            let or = eval::eval(Tree::Node(Op::Or, seq![a, b]));
            let not = eval::eval(Tree::Node(Op::Not, seq![a]));
            &&& is_bool(x, false) || is_bool(y, false) ==> is_bool(and, false)
            &&& is_bool(x, true) && is_bool(y, true) ==> is_bool(and, true)
            &&& is_bool(x, true) && y.bool_constant() is None ==> and == y
            &&& is_bool(y, true) && x.bool_constant() is None ==> and == x
            &&& is_bool(x, true) || is_bool(y, true) ==> is_bool(or, true)
            &&& is_bool(x, false) && is_bool(y, false) ==> is_bool(or, false)
            &&& is_bool(x, false) && y.bool_constant() is None ==> or == y
            &&& is_bool(y, false) && x.bool_constant() is None ==> or == x
            &&& is_bool(x, known) ==> is_bool(not, !known)
            &&& x.bool_constant() is None ==> not == Tree::Node(Op::Not, seq![x])
            &&& x.bool_constant() is None && y.bool_constant() is None ==> {
                &&& and == Tree::Node(Op::And, seq![x, y])
                &&& or == Tree::Node(Op::Or, seq![x, y])
            }
        }),
{
    assert(eval::eval_kids(seq![a, b]) =~= seq![eval::eval(a), eval::eval(b)]);
    assert(eval::eval_kids(seq![a]) =~= seq![eval::eval(a)]);
}

/// Of a choice by a constant the operand that it chooses is left.
pub proof fn law_choices_are_folded<V>(c: Tree<V>, a: Tree<V>, b: Tree<V>)
    ensures
        ({
            let r = eval::eval(Tree::Node(Op::Ite, seq![c, a, b]));
            &&& is_bool(eval::eval(c), true) ==> r == eval::eval(a)
            &&& is_bool(eval::eval(c), false) ==> r == eval::eval(b)
            &&& eval::eval(c).bool_constant() is None ==> r == Tree::Node(
                Op::Ite,
                seq![eval::eval(c), eval::eval(a), eval::eval(b)],
            )
        }),
{
    assert(eval::eval_kids(seq![c, a, b]) =~= seq![eval::eval(c), eval::eval(a), eval::eval(b)]);
}

/// The operators on two bitvectors that are evaluated on constants.
pub open spec fn is_computed(op: Op) -> bool {
    op is Bvand || op is Bvor || op is Bvxor || op is Bvadd || op is Bvsub || op is Bvshl
        || op is Bvlshr
}

/// An operator on two bitvector constants that fit in a word becomes the
/// constant that it has as its value. If an operand is not constant, the
/// operator stays, on evaluated operands.
pub proof fn law_words_are_folded<V>(op: Op, a: Tree<V>, b: Tree<V>, interp: Interp<V>)
    requires
        is_computed(op),
    ensures
        ({
            let (x, y) = (eval::eval(a), eval::eval(b));
            let r = eval::eval(Tree::Node(op, seq![a, b]));
            match (x.short_constant(), y.short_constant()) {
                (Some(s), Some(t)) => s.len() == t.len() ==> (r.short_constant() matches Some(bits)
                    && Value::Bits(bits) == semantics::apply(
                    interp,
                    op,
                    seq![Value::Bits(s), Value::Bits(t)],
                )),
                _ => r == Tree::Node(op, seq![x, y]),
            }
        }),
{
    assert(eval::eval_kids(seq![a, b]) =~= seq![eval::eval(a), eval::eval(b)]);
}

/// An operator on one bitvector constant becomes the constant that it has as
/// its value, as long as an extension still fits in a word.
pub proof fn law_word_is_folded<V>(a: Tree<V>, hi: u32, lo: u32, interp: Interp<V>)
    ensures
        ({
            let x = eval::eval(a);
            let not = eval::eval(Tree::Node(Op::Bvnot, seq![a]));
            let part = eval::eval(Tree::Node(Op::Extract(hi, lo), seq![a]));
            let zero = eval::eval(Tree::Node(Op::ZeroExtend(hi), seq![a]));
            let sign = eval::eval(Tree::Node(Op::SignExtend(hi), seq![a]));
            &&& x.short_constant() matches Some(s) ==> {
                let v = seq![Value::Bits(s)];
                &&& (not.short_constant() matches Some(bits) && Value::Bits(bits)
                    == semantics::apply(interp, Op::Bvnot, v))
                &&& lo <= hi < s.len() ==> (part.short_constant() matches Some(bits)
                    && Value::Bits(bits) == semantics::apply(interp, Op::Extract(hi, lo), v))
                &&& s.len() + hi <= 64 ==> (zero.short_constant() matches Some(bits)
                    && Value::Bits(bits) == semantics::apply(interp, Op::ZeroExtend(hi), v))
                &&& s.len() + hi <= 64 ==> (sign.short_constant() matches Some(bits)
                    && Value::Bits(bits) == semantics::apply(interp, Op::SignExtend(hi), v))
                &&& s.len() + hi > 64 ==> zero == Tree::Node(Op::ZeroExtend(hi), seq![x]) && sign
                    == Tree::Node(Op::SignExtend(hi), seq![x])
            }
            &&& x.long_constant() matches Some(s) ==> {
                let v = seq![Value::Bits(s)];
                &&& (not.long_constant() matches Some(bits) && Value::Bits(bits)
                    == semantics::apply(interp, Op::Bvnot, v))
                &&& lo <= hi < s.len() && hi - lo < 64 ==> (part.short_constant() matches Some(bits)
                    && Value::Bits(bits) == semantics::apply(interp, Op::Extract(hi, lo), v))
                &&& lo <= hi < s.len() && hi - lo >= 64 ==> (part.long_constant() matches Some(bits)
                    && Value::Bits(bits) == semantics::apply(interp, Op::Extract(hi, lo), v))
            }
            &&& x.short_constant() is None && x.long_constant() is None ==> {
                &&& not == Tree::Node(Op::Bvnot, seq![x])
                &&& part == Tree::Node(Op::Extract(hi, lo), seq![x])
            }
        }),
{
    assert(eval::eval_kids(seq![a]) =~= seq![eval::eval(a)]);
}

/// Of a comparison for equality the operands are evaluated and the comparison
/// is kept. Other operators, constants and variables stay as they are.
pub proof fn law_the_rest_stays<V>(a: Tree<V>, b: Tree<V>, op: Op, kids: Seq<Tree<V>>, v: V)
    requires
        !is_computed(op),
        !(op is And || op is Or || op is Not || op is Ite || op is Bvnot || op is Extract
            || op is ZeroExtend || op is SignExtend || op is Eq || op is Neq),
    ensures
        eval::eval(Tree::Node(Op::Eq, seq![a, b])) == Tree::Node(
            Op::Eq,
            seq![eval::eval(a), eval::eval(b)],
        ),
        eval::eval(Tree::Node(Op::Neq, seq![a, b])) == Tree::Node(
            Op::Neq,
            seq![eval::eval(a), eval::eval(b)],
        ),
        eval::eval(Tree::Node(op, kids)) == Tree::Node(op, kids),
        eval::eval(Tree::Var(v)) == Tree::Var(v),
{
    assert(eval::eval_kids(seq![a, b]) =~= seq![eval::eval(a), eval::eval(b)]);
}

/// An extraction from a bitwise operator, a sum or a difference becomes that
/// operator on extractions of the same bits, the operands in their order. Any
/// other expression stays as it is.
pub proof fn law_extraction_moves_inwards<V>(
    hi: u32,
    lo: u32,
    op: Op,
    a: Tree<V>,
    b: Tree<V>,
    other: Tree<V>,
)
    requires
        op is Bvand || op is Bvor || op is Bvxor || op is Bvnand || op is Bvnor || op is Bvxnor
            || op is Bvadd || op is Bvsub,
        other matches Tree::Node(Op::Extract(_, _), kids) ==> !(kids[0] is Node) || {
            let inner = kids[0]->Node_0;
            !(inner is Bvand || inner is Bvor || inner is Bvxor || inner is Bvnand || inner is Bvnor
                || inner is Bvxnor || inner is Bvadd || inner is Bvsub)
        },
    ensures
        rewrite::commute_extract(
            Tree::Node(Op::Extract(hi, lo), seq![Tree::Node(op, seq![a, b])]),
        ) == Tree::Node(
            op,
            seq![
                Tree::Node(Op::Extract(hi, lo), seq![a]),
                Tree::Node(Op::Extract(hi, lo), seq![b]),
            ],
        ),
        rewrite::commute_extract(other) == other,
{
}

/// The connectives on truth values.
pub proof fn law_truth_values<V>(interp: Interp<V>, a: bool, b: bool, x: Value, y: Value)
    ensures
        ({
            let ab = seq![Value::Bool(a), Value::Bool(b)];
            &&& semantics::apply(interp, Op::And, ab) == Value::Bool(true) <==> a && b
            &&& semantics::apply(interp, Op::Or, ab) == Value::Bool(false) <==> !a && !b
            &&& semantics::apply(interp, Op::Not, ab) == Value::Bool(true) <==> !a
            &&& semantics::apply(interp, Op::And, ab) is Bool
            &&& semantics::apply(interp, Op::Or, ab) is Bool
            &&& semantics::apply(interp, Op::Not, ab) is Bool
            &&& semantics::apply(interp, Op::Ite, seq![Value::Bool(true), x, y]) == x
            &&& semantics::apply(interp, Op::Ite, seq![Value::Bool(false), x, y]) == y
            &&& semantics::apply(interp, Op::Eq, seq![x, y]) == Value::Bool(x == y)
            &&& semantics::apply(interp, Op::Neq, seq![x, y]) == Value::Bool(x != y)
        }),
{
}

/// The comparisons of unsigned bitvectors compare the numbers.
pub proof fn law_comparisons<V>(interp: Interp<V>, s: Seq<bool>, t: Seq<bool>)
    requires
        s.len() == t.len(),
    ensures
        ({
            let st = seq![Value::Bits(s), Value::Bits(t)];
            let (m, n) = (bv::to_nat(s), bv::to_nat(t));
            &&& semantics::apply(interp, Op::Bvult, st) == Value::Bool(m < n)
            &&& semantics::apply(interp, Op::Bvule, st) == Value::Bool(m <= n)
            &&& semantics::apply(interp, Op::Bvugt, st) == Value::Bool(m > n)
            &&& semantics::apply(interp, Op::Bvuge, st) == Value::Bool(m >= n)
        }),
{
}

/// The type that a floating point operator gives its result: the format or
/// the length that it names, a truth value for a test, and else that of its
/// operand.
pub proof fn law_float_types(exponent: u32, significand: u32, size: u32)
    ensures
        FPRoundingUnary::Convert(exponent, significand).spec_result_ty() == Some(
            Ty::Float(exponent, significand),
        ),
        FPRoundingUnary::FromSigned(exponent, significand).spec_result_ty() == Some(
            Ty::Float(exponent, significand),
        ),
        FPRoundingUnary::FromUnsigned(exponent, significand).spec_result_ty() == Some(
            Ty::Float(exponent, significand),
        ),
        FPRoundingUnary::ToSigned(size).spec_result_ty() == Some(Ty::BitVec(size)),
        FPRoundingUnary::ToUnsigned(size).spec_result_ty() == Some(Ty::BitVec(size)),
        FPRoundingUnary::Sqrt.spec_result_ty() is None,
        FPRoundingUnary::RoundToIntegral.spec_result_ty() is None,
        FPUnary::IsNaN.spec_result_ty() == Some(Ty::Bool),
        FPUnary::IsZero.spec_result_ty() == Some(Ty::Bool),
        FPUnary::IsNormal.spec_result_ty() == Some(Ty::Bool),
        FPUnary::IsSubnormal.spec_result_ty() == Some(Ty::Bool),
        FPUnary::IsInfinite.spec_result_ty() == Some(Ty::Bool),
        FPUnary::IsNegative.spec_result_ty() == Some(Ty::Bool),
        FPUnary::IsPositive.spec_result_ty() == Some(Ty::Bool),
        FPUnary::Abs.spec_result_ty() is None,
        FPUnary::Neg.spec_result_ty() is None,
        FPUnary::FromIEEE(significand, exponent).spec_result_ty() == Some(
            Ty::Float(exponent, significand),
        ),
        FPBinary::Lt.spec_is_predicate() && FPBinary::Leq.spec_is_predicate(),
        FPBinary::Gt.spec_is_predicate() && FPBinary::Geq.spec_is_predicate(),
        FPBinary::Eq.spec_is_predicate(),
        !FPBinary::Rem.spec_is_predicate(),
        !FPBinary::Min.spec_is_predicate() && !FPBinary::Max.spec_is_predicate(),
{
}

/// A bitvector constant is kept in a word exactly if it fits in one, and has
/// the same value either way.
pub proof fn law_constants<V>(interp: Interp<V>, s: Seq<bool>, vals: Seq<Value>)
    ensures
        literal::bits_op(s) is Bits64 <==> s.len() <= 64,
        semantics::apply(interp, literal::bits_op(s), vals) == Value::Bits(s),
{
}

/// A replacement is offered for a variable exactly if the table has an
/// expression for it. Once the variables of a tree have been replaced, the
/// table has none left for those that occur in it, and the same as before for
/// the others.
pub proof fn law_replacements_are_used_up(
    substs: Map<Sym, Option<Exp<Sym>>>,
    t: Tree<Sym>,
    v: Sym,
)
    ensures
        subst::offered(substs).dom().contains(v) <==> substs.dom().contains(v) && substs[v] is Some,
        subst::offered(substs).dom().contains(v) ==> subst::offered(substs)[v]
            == substs[v]->0.tree(),
        ({
            let left = subst::used_up(substs, seq![t]);
            &&& left.dom() == substs.dom()
            &&& substs.dom().contains(v) && t.count(v) > 0 ==> left[v] is None
            &&& substs.dom().contains(v) && t.count(v) == 0 ==> left[v] == substs[v]
        }),
{
    let left = subst::used_up(substs, seq![t]);
    assert(left.dom() =~= substs.dom());
    assert(seq![t].drop_last() =~= seq![]);
    reveal_with_fuel(subst::count_all, 2);
    assert(subst::count_all(seq![t], v) == t.count(v));
}

/// A variable occurs in an operator as often as in its operands together, and
/// once in itself.
pub proof fn law_occurrences<V>(op: Op, a: Tree<V>, b: Tree<V>, v: V, w: V)
    ensures
        Tree::Node(op, seq![a, b]).count(v) == a.count(v) + b.count(v),
        Tree::Var(v).count(v) == 1,
        v != w ==> Tree::Var(w).count(v) == 0,
{
    assert(seq![a, b].drop_last() =~= seq![a]);
    assert(seq![a].drop_last() =~= seq![]);
    assert(subst::count_all(seq![], v) == 0);
    assert(subst::count_all(seq![a], v) == subst::count_all(seq![], v) + a.count(v));
    assert(subst::count_all(seq![a, b], v) == subst::count_all(seq![a], v) + b.count(v));
}

/// The type of an expression is read off the one operand that decides it,
/// whatever the others are: the first of an operator on bitvectors or of an
/// array that is stored to, and the second of a choice, after its condition,
/// and of a floating point operation, after its rounding mode.
pub proof fn law_types_are_read_off(
    a: Tree<Sym>,
    b: Tree<Sym>,
    c: Tree<Sym>,
    d: Tree<Sym>,
    rounding: FPRoundingBinary,
    tcx: infer::TypeContext,
    ftcx: infer::FunctionContext,
)
    ensures
        infer::infer(Tree::Node(Op::Ite, seq![c, a, b]), tcx, ftcx) == infer::infer(a, tcx, ftcx),
        infer::infer(Tree::Node(Op::Store, seq![a, b, c]), tcx, ftcx) == infer::infer(
            a,
            tcx,
            ftcx,
        ),
        infer::infer(Tree::Node(Op::FPRoundingBinary(rounding), seq![c, a, b]), tcx, ftcx)
            == infer::infer(a, tcx, ftcx),
        infer::infer(Tree::Node(Op::FPfma, seq![c, a, b, d]), tcx, ftcx) == infer::infer(
            a,
            tcx,
            ftcx,
        ),
        infer::infer(Tree::Node(Op::Bvadd, seq![a, b]), tcx, ftcx) == infer::infer(a, tcx, ftcx),
        infer::infer(Tree::Node(Op::Bvsub, seq![a, b]), tcx, ftcx) == infer::infer(a, tcx, ftcx),
        infer::infer(Tree::Node(Op::Bvand, seq![a, b]), tcx, ftcx) == infer::infer(a, tcx, ftcx),
        infer::infer(Tree::Node(Op::Bvor, seq![a, b]), tcx, ftcx) == infer::infer(a, tcx, ftcx),
        infer::infer(Tree::Node(Op::Bvshl, seq![a, b]), tcx, ftcx) == infer::infer(a, tcx, ftcx),
        infer::infer(Tree::Node(Op::Bvlshr, seq![a, b]), tcx, ftcx) == infer::infer(a, tcx, ftcx),
        infer::infer(Tree::Node(Op::Eq, seq![a, b]), tcx, ftcx) == Some(Ty::Bool),
        infer::infer(Tree::Node(Op::Bvult, seq![a, b]), tcx, ftcx) == Some(Ty::Bool),
        infer::infer(Tree::Node(Op::Bvslt, seq![a, b]), tcx, ftcx) == Some(Ty::Bool),
{
    reveal_with_fuel(infer::infer, 2);
}

} // verus!
