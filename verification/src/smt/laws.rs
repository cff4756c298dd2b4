//! What evaluating, rewriting and substituting keep.

use super::infer::{FunctionContext, TypeContext};
use super::semantics::{Interp, Value};
use super::smtlib::{Exp, Sym, Ty};
use super::tree::{Op, Tree};
use crate::bv;
use vstd::prelude::*;

verus! {

/// How many operands an operator takes; `None` where it takes any number.
pub open spec fn arity(op: Op) -> Option<nat> {
    match op {
        Op::Bits(_)
        | Op::Bits64(_)
        | Op::Enum(_)
        | Op::Bool(_)
        | Op::FPConstant(_, _, _)
        | Op::FPRoundingMode(_) => Some(0),
        Op::Not
        | Op::Bvnot
        | Op::Bvneg
        | Op::Extract(_, _)
        | Op::ZeroExtend(_)
        | Op::SignExtend(_)
        | Op::FPUnary(_) => Some(1),
        Op::Ite | Op::Store | Op::FPRoundingBinary(_) => Some(3),
        Op::FPfma => Some(4),
        Op::App(_) | Op::Distinct => None,
        _ => Some(2),
    }
}

/// Every operator in the tree has the operands that it takes.
pub open spec fn well_shaped<V>(t: Tree<V>) -> bool
    decreases t,
{
    match t {
        Tree::Var(_) => true,
        Tree::Node(op, kids) => {
            &&& arity(op) matches Some(n) ==> kids.len() == n
            &&& forall|i: int| 0 <= i < kids.len() ==> well_shaped(#[trigger] kids[i])
        },
    }
}

/// The tree of an expression is well shaped.
pub proof fn law_well_shaped<V>(e: Exp<V>)
    ensures
        well_shaped(e.tree()),
    decreases e,
{
    if !(e is Var) {
        e.lemma_tree_kids();
        assert forall|i: int| 0 <= i < e.tree().kids().len() implies well_shaped(
            #[trigger] e.tree().kids()[i],
        ) by {
            e.lemma_kids_decrease(i);
            law_well_shaped(e.kids()[i]);
        }
    }
}

/// Evaluating twice gives the same as evaluating once.
pub proof fn law_eval_idempotent<V>(t: Tree<V>)
    requires
        well_shaped(t),
    ensures
        well_shaped(super::eval::eval(t)),
        super::eval::eval(super::eval::eval(t)) == super::eval::eval(t),
    decreases t,
{
    if let Tree::Node(op, kids) = t {
        if super::eval::is_folded(op) {
            let ekids = super::eval::eval_kids(kids);
            assert forall|i: int| 0 <= i < kids.len() implies {
                &&& well_shaped(#[trigger] ekids[i])
                &&& super::eval::eval(ekids[i]) == ekids[i]
            } by {
                law_eval_idempotent(kids[i]);
            }
            assert(super::eval::eval_kids(ekids) =~= ekids);
            let r = super::eval::fold(op, ekids);
            if r != Tree::Node(op, ekids) && !(exists|i: int|
                0 <= i < ekids.len() && r == #[trigger] ekids[i]) {
                assert(r is Node && !super::eval::is_folded(r->Node_0));
            }
        }
    }
}

/// The extractions that can be moved past a sum or a difference are those
/// that start at the least significant bit. The other operators let every
/// extraction through.
pub open spec fn extracts_from_low_bit<V>(t: Tree<V>) -> bool {
    match t {
        Tree::Node(Op::Extract(_, lo), kids) => match kids[0] {
            Tree::Node(Op::Bvadd, _) | Tree::Node(Op::Bvsub, _) => lo == 0,
            _ => true,
        },
        _ => true,
    }
}

/// Moving an extraction inwards changes neither the value nor the type of a
/// well-formed expression whose sub-expressions have values of their types,
/// as long as no sum or difference is cut off from the carries of its low
/// bits.
pub proof fn law_commute_extract_preserves_meaning(
    interp: Interp<Sym>,
    t: Tree<Sym>,
    tcx: TypeContext,
    ftcx: FunctionContext,
)
    requires
        super::typing::type_of(t, tcx, ftcx) is Some,
        super::semantics::well_valued(interp, t, tcx, ftcx),
        extracts_from_low_bit(t),
    ensures
        super::semantics::denote(interp, super::rewrite::commute_extract(t))
            == super::semantics::denote(interp, t),
        super::typing::type_of(super::rewrite::commute_extract(t), tcx, ftcx)
            == super::typing::type_of(t, tcx, ftcx),
{
    law_commute_extract_preserves_type(t, tcx, ftcx);
    let r = super::rewrite::commute_extract(t);
    if r != t {
        let hi = t->Node_0->Extract_0;
        let lo = t->Node_0->Extract_1;
        let kids = t->Node_1;
        let op = kids[0]->Node_0;
        let operands = kids[0]->Node_1;
        let ktys = super::typing::types_of(kids, tcx, ftcx);
        assert(super::typing::op_type(Op::Extract(hi, lo), ktys, ftcx) is Some);
        assert(super::typing::type_of(kids[0], tcx, ftcx) is Some);
        assert(ktys[0] == super::typing::type_of(kids[0], tcx, ftcx)->0);
        let tys = super::typing::types_of(operands, tcx, ftcx);
        assert(super::typing::op_type(op, tys, ftcx) == Some(ktys[0]));
        assert(super::typing::type_of(operands[0], tcx, ftcx) is Some);
        assert(super::typing::type_of(operands[1], tcx, ftcx) is Some);
        assert(super::semantics::well_valued(interp, kids[0], tcx, ftcx));
        assert(super::semantics::well_valued(interp, operands[0], tcx, ftcx));
        assert(super::semantics::well_valued(interp, operands[1], tcx, ftcx));
        let s = super::semantics::denote(interp, operands[0])->Bits_0;
        let u = super::semantics::denote(interp, operands[1])->Bits_0;
        assert(super::semantics::denote_all(interp, operands) =~= seq![
            Value::Bits(s),
            Value::Bits(u),
        ]);
        let l = Tree::Node(Op::Extract(hi, lo), seq![operands[0]]);
        let m = Tree::Node(Op::Extract(hi, lo), seq![operands[1]]);
        assert(super::semantics::denote_all(interp, seq![operands[0]]) =~= seq![Value::Bits(s)]);
        assert(super::semantics::denote_all(interp, seq![operands[1]]) =~= seq![Value::Bits(u)]);
        let es = bv::extract(s, hi as int, lo as int);
        let eu = bv::extract(u, hi as int, lo as int);
        assert(super::semantics::denote(interp, l) == Value::Bits(es));
        assert(super::semantics::denote(interp, m) == Value::Bits(eu));
        assert(super::semantics::denote_all(interp, seq![l, m]) =~= seq![
            Value::Bits(es),
            Value::Bits(eu),
        ]);
        assert(r == Tree::Node(op, seq![l, m]));
        if op is Bvadd || op is Bvsub {
            bv::lemma_extract_low_arithmetic(s, u, hi as int);
        }
        lemma_extract_bitwise(s, u, hi as int, lo as int);
        let whole = super::semantics::denote(interp, kids[0])->Bits_0;
        assert(super::semantics::denote_all(interp, kids) =~= seq![Value::Bits(whole)]);
        assert(super::semantics::denote(interp, t) == Value::Bits(
            bv::extract(whole, hi as int, lo as int),
        ));
    }
}

/// Moving an extraction inwards keeps the type of a well-formed expression,
/// wherever the extraction starts.
pub proof fn law_commute_extract_preserves_type(
    t: Tree<Sym>,
    tcx: TypeContext,
    ftcx: FunctionContext,
)
    requires
        super::typing::type_of(t, tcx, ftcx) is Some,
    ensures
        super::typing::type_of(super::rewrite::commute_extract(t), tcx, ftcx)
            == super::typing::type_of(t, tcx, ftcx),
{
    let r = super::rewrite::commute_extract(t);
    if r != t {
        let hi = t->Node_0->Extract_0;
        let lo = t->Node_0->Extract_1;
        let kids = t->Node_1;
        let op = kids[0]->Node_0;
        let operands = kids[0]->Node_1;
        let ktys = super::typing::types_of(kids, tcx, ftcx);
        let tys = super::typing::types_of(operands, tcx, ftcx);
        assert(super::typing::op_type(Op::Extract(hi, lo), ktys, ftcx) is Some);
        assert(super::typing::type_of(kids[0], tcx, ftcx) is Some);
        assert(super::typing::op_type(op, tys, ftcx) == Some(ktys[0]));
        assert(super::typing::type_of(operands[0], tcx, ftcx) is Some);
        assert(super::typing::type_of(operands[1], tcx, ftcx) is Some);
        let l = Tree::Node(Op::Extract(hi, lo), seq![operands[0]]);
        let m = Tree::Node(Op::Extract(hi, lo), seq![operands[1]]);
        let ty = Ty::BitVec((hi - lo + 1) as u32);
        assert(super::typing::types_of(seq![operands[0]], tcx, ftcx) =~= seq![tys[0]]);
        assert(super::typing::types_of(seq![operands[1]], tcx, ftcx) =~= seq![tys[1]]);
        assert(super::typing::type_of(l, tcx, ftcx) == Some(ty));
        assert(super::typing::type_of(m, tcx, ftcx) == Some(ty));
        assert(super::typing::types_of(seq![l, m], tcx, ftcx) =~= seq![ty, ty]);
    }
}

/// A bitwise operator can be applied before or after an extraction.
proof fn lemma_extract_bitwise(s: Seq<bool>, t: Seq<bool>, hi: int, lo: int)
    requires
        s.len() == t.len(),
        0 <= lo <= hi < s.len(),
    ensures
        bv::extract(bv::bvand(s, t), hi, lo) == bv::bvand(
            bv::extract(s, hi, lo),
            bv::extract(t, hi, lo),
        ),
        bv::extract(bv::bvor(s, t), hi, lo) == bv::bvor(
            bv::extract(s, hi, lo),
            bv::extract(t, hi, lo),
        ),
        bv::extract(bv::bvxor(s, t), hi, lo) == bv::bvxor(
            bv::extract(s, hi, lo),
            bv::extract(t, hi, lo),
        ),
        bv::extract(bv::bvnot(bv::bvand(s, t)), hi, lo) == bv::bvnot(
            bv::bvand(bv::extract(s, hi, lo), bv::extract(t, hi, lo)),
        ),
        bv::extract(bv::bvnot(bv::bvor(s, t)), hi, lo) == bv::bvnot(
            bv::bvor(bv::extract(s, hi, lo), bv::extract(t, hi, lo)),
        ),
        bv::extract(bv::bvnot(bv::bvxor(s, t)), hi, lo) == bv::bvnot(
            bv::bvxor(bv::extract(s, hi, lo), bv::extract(t, hi, lo)),
        ),
{
}

/// A single tree is as high as the highest of the sequence that holds it.
proof fn lemma_single_height<V>(t: Tree<V>)
    ensures
        super::tree::max_height(seq![t]) == t.height(),
{
    let none = seq![t].drop_last();
    assert(none.len() == 0);
    assert(super::tree::max_height(none) == 0);
    assert(seq![t].last() == t);
}

/// Moving an extraction inwards never makes an expression higher, so it can
/// be done from the top down.
pub proof fn law_commute_extract_height<V>(t: Tree<V>)
    requires
        well_shaped(t),
    ensures
        super::rewrite::commute_extract(t).height() <= t.height(),
{
    let r = super::rewrite::commute_extract(t);
    if r != t {
        let ext = t->Node_0;
        let kids = t->Node_1;
        assert(well_shaped(kids[0]));
        let operands = kids[0]->Node_1;
        let l = Tree::Node(ext, seq![operands[0]]);
        let m = Tree::Node(ext, seq![operands[1]]);
        super::tree::lemma_max_height(kids, 0);
        super::tree::lemma_max_height(operands, 0);
        super::tree::lemma_max_height(operands, 1);
        lemma_single_height(operands[0]);
        lemma_single_height(operands[1]);
        lemma_single_height(l);
        assert(seq![l, m].drop_last() =~= seq![l]);
        assert(seq![l, m].last() == m);
        assert(l.height() == 1 + operands[0].height());
        assert(m.height() == 1 + operands[1].height());
        assert(super::tree::max_height(seq![l, m]) <= 1 + super::tree::max_height(operands));
        assert(kids[0].height() == 1 + super::tree::max_height(operands));
        assert(r == Tree::Node(kids[0]->Node_0, seq![l, m]));
    }
}

/// Replacing variables by expressions amounts to giving the variables the
/// values of those expressions.
pub proof fn law_subst_meaning<V>(interp: Interp<V>, t: Tree<V>, m: Map<V, Tree<V>>)
    ensures
        super::semantics::denote(interp, t.subst(m)) == super::semantics::denote(
            substituted(interp, m),
            t,
        ),
    decreases t,
{
    if let Tree::Node(op, kids) = t {
        let rkids = t.subst(m).kids();
        assert forall|i: int| 0 <= i < kids.len() implies super::semantics::denote(
            interp,
            #[trigger] rkids[i],
        ) == super::semantics::denote(substituted(interp, m), kids[i]) by {
            law_subst_meaning(interp, kids[i], m);
        }
        assert(super::semantics::denote_all(interp, rkids) =~= super::semantics::denote_all(
            substituted(interp, m),
            kids,
        ));
    }
}

/// The interpretation that gives the variables of `m` the values of what `m`
/// puts in their place.
pub open spec fn substituted<V>(interp: Interp<V>, m: Map<V, Tree<V>>) -> Interp<V> {
    Interp {
        var: |v: V|
            if m.dom().contains(v) {
                super::semantics::denote(interp, m[v])
            } else {
                (interp.var)(v)
            },
        op: interp.op,
    }
}

/// Applying a function that keeps values to every sub-expression keeps the
/// value of the whole, from the bottom up.
pub proof fn law_modify_preserves_meaning<V, F: Fn(Exp<V>) -> Exp<V>>(
    interp: Interp<V>,
    f: F,
    before: Exp<V>,
    after: Exp<V>,
)
    requires
        super::rewrite::modified_bottom_up(f, before, after),
        keeps_values(interp, f),
    ensures
        super::semantics::denote(interp, after.tree()) == super::semantics::denote(
            interp,
            before.tree(),
        ),
    decreases before,
{
    let mid = choose|mid: Exp<V>|
        {
            &&& #[trigger] super::rewrite::same_operator(before, mid)
            &&& forall|i: int|
                0 <= i < before.kids().len() ==> super::rewrite::modified_bottom_up(
                    f,
                    #[trigger] before.kids()[i],
                    mid.kids()[i],
                )
            &&& super::rewrite::applied(f, mid, after)
        };
    if !(before is Var) {
        before.lemma_tree_kids();
        mid.lemma_tree_kids();
        assert forall|i: int| 0 <= i < before.kids().len() implies super::semantics::denote(
            interp,
            #[trigger] mid.tree().kids()[i],
        ) == super::semantics::denote(interp, before.tree().kids()[i]) by {
            before.lemma_kids_decrease(i);
            let b = before.kids()[i];
            law_modify_preserves_meaning(interp, f, b, mid.kids()[i]);
        }
        assert(super::semantics::denote_all(interp, mid.tree().kids())
            =~= super::semantics::denote_all(interp, before.tree().kids()));
    }
}

/// Whatever `f` makes of an expression has the value of that expression.
pub open spec fn keeps_values<V, F: Fn(Exp<V>) -> Exp<V>>(interp: Interp<V>, f: F) -> bool {
    forall|a: Exp<V>, b: Exp<V>| #[trigger]
        super::rewrite::applied(f, a, b) ==> super::semantics::denote(interp, b.tree())
            == super::semantics::denote(interp, a.tree())
}

/// Applying a function that keeps values to every sub-expression keeps the
/// value of the whole, from the top down.
pub proof fn law_modify_top_down_preserves_meaning<V, F: Fn(Exp<V>) -> Exp<V>>(
    interp: Interp<V>,
    f: F,
    before: Exp<V>,
    after: Exp<V>,
)
    requires
        super::rewrite::modified_top_down(f, before, after),
        keeps_values(interp, f),
    ensures
        super::semantics::denote(interp, after.tree()) == super::semantics::denote(
            interp,
            before.tree(),
        ),
    decreases after,
{
    let mid = choose|mid: Exp<V>|
        {
            &&& #[trigger] super::rewrite::same_operator(mid, after)
            &&& super::rewrite::applied(f, before, mid)
            &&& forall|i: int|
                0 <= i < after.kids().len() ==> super::rewrite::modified_top_down(
                    f,
                    mid.kids()[i],
                    #[trigger] after.kids()[i],
                )
        };
    if !(after is Var) {
        after.lemma_tree_kids();
        mid.lemma_tree_kids();
        assert forall|i: int| 0 <= i < after.kids().len() implies super::semantics::denote(
            interp,
            #[trigger] after.tree().kids()[i],
        ) == super::semantics::denote(interp, mid.tree().kids()[i]) by {
            after.lemma_kids_decrease(i);
            let a = after.kids()[i];
            law_modify_top_down_preserves_meaning(interp, f, mid.kids()[i], a);
        }
        assert(super::semantics::denote_all(interp, after.tree().kids())
            =~= super::semantics::denote_all(interp, mid.tree().kids()));
    }
}

/// Mapping variables to expressions that have the values of the variables
/// keeps the value of the whole.
pub proof fn law_map_var_meaning<'a, V: 'a, W, E, F: FnMut(&'a V) -> Result<Exp<W>, E>>(
    interp: Interp<V>,
    mapped: Interp<W>,
    f: F,
    exp: &'a Exp<V>,
    out: Exp<W>,
)
    requires
        super::subst::var_mapped(f, exp, Ok::<Exp<W>, E>(out)),
        interp.op == mapped.op,
        forall|v: &'a V, e: Exp<W>| #[trigger]
            call_ensures(f, (v,), Ok::<Exp<W>, E>(e)) ==> super::semantics::denote(
                mapped,
                e.tree(),
            ) == (interp.var)(*v),
    ensures
        super::semantics::denote(mapped, out.tree()) == super::semantics::denote(
            interp,
            exp.tree(),
        ),
    decreases exp,
{
    if !(exp is Var) {
        exp.lemma_tree_kids();
        out.lemma_tree_kids();
        assert forall|i: int| 0 <= i < exp.kids().len() implies super::semantics::denote(
            mapped,
            #[trigger] out.tree().kids()[i],
        ) == super::semantics::denote(interp, exp.tree().kids()[i]) by {
            exp.lemma_kids_decrease(i);
            let k = &exp.kids()[i];
            law_map_var_meaning::<V, W, E, F>(interp, mapped, f, k, out.kids()[i]);
        }
        assert(super::semantics::denote_all(mapped, out.tree().kids())
            =~= super::semantics::denote_all(interp, exp.tree().kids()));
    }
}

} // verus!
