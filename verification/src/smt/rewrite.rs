//! Rewriting an expression from the bottom up or from the top down.

use super::smtlib::Exp;
use super::tree::{Op, Tree};
use vstd::prelude::*;

verus! {

/// `f` can turn `a` into `b`.
pub open spec fn applied<V, F: Fn(Exp<V>) -> Exp<V>>(f: F, a: Exp<V>, b: Exp<V>) -> bool {
    call_ensures(f, (a,), b)
}

/// `a` and `b` are the same variable, or the same operator with as many
/// operands.
pub open spec fn same_operator<V>(a: Exp<V>, b: Exp<V>) -> bool {
    &&& a is Var <==> b is Var
    &&& a is Var ==> a == b
    &&& !(a is Var) ==> a.op() == b.op()
    &&& a.kids().len() == b.kids().len()
}

/// `after` is what remains of `before` when `f` has been applied to each
/// sub-expression, operands before the operator that holds them.
pub open spec fn modified_bottom_up<V, F: Fn(Exp<V>) -> Exp<V>>(
    f: F,
    before: Exp<V>,
    after: Exp<V>,
) -> bool
    decreases before,
{
    proof {
        assert forall|i: int| 0 <= i < before.kids().len() implies #[trigger] decreases_to!(
            before => before.kids()[i]
        ) by {
            before.lemma_kids_decrease(i);
        }
    }
    exists|mid: Exp<V>|
        {
            &&& #[trigger] same_operator(before, mid)
            &&& forall|i: int|
                0 <= i < before.kids().len() ==> modified_bottom_up(
                    f,
                    #[trigger] before.kids()[i],
                    mid.kids()[i],
                )
            &&& applied(f, mid, after)
        }
}

/// `after` is what remains of `before` when `f` has been applied to each
/// sub-expression, the operator before its operands. The operands that are
/// visited are those that `f` has left in place.
pub open spec fn modified_top_down<V, F: Fn(Exp<V>) -> Exp<V>>(
    f: F,
    before: Exp<V>,
    after: Exp<V>,
) -> bool
    decreases after,
{
    proof {
        assert forall|i: int| 0 <= i < after.kids().len() implies #[trigger] decreases_to!(
            after => after.kids()[i]
        ) by {
            after.lemma_kids_decrease(i);
        }
    }
    exists|mid: Exp<V>|
        {
            &&& #[trigger] same_operator(mid, after)
            &&& applied(f, before, mid)
            &&& forall|i: int|
                0 <= i < after.kids().len() ==> modified_top_down(
                    f,
                    mid.kids()[i],
                    #[trigger] after.kids()[i],
                )
        }
}

/// Applying `f` to an expression, and then to the operands of what comes out,
/// and so on, goes down less than `depth` levels.
pub open spec fn ends_within<V, F: Fn(Exp<V>) -> Exp<V>>(f: F, e: Exp<V>, depth: nat) -> bool
    decreases depth,
{
    depth > 0 && forall|m: Exp<V>, i: int|
        #![trigger applied(f, e, m), m.kids()[i]]
        applied(f, e, m) && 0 <= i < m.kids().len() ==> ends_within(
            f,
            m.kids()[i],
            (depth - 1) as nat,
        )
}

/// Applying `f` from the top down comes to an end on an expression.
pub open spec fn descends<V, F: Fn(Exp<V>) -> Exp<V>>(f: F, e: Exp<V>) -> bool {
    exists|depth: nat| #[trigger] ends_within(f, e, depth)
}

/// Whether applying `f` stays below a number of levels, and below no smaller one.
pub open spec fn is_least<V, F: Fn(Exp<V>) -> Exp<V>>(f: F, e: Exp<V>, depth: nat) -> bool {
    &&& ends_within(f, e, depth)
    &&& forall|d: nat| d < depth ==> !#[trigger] ends_within(f, e, d)
}

/// The smallest number of levels that applying `f` stays below, where it ends.
pub open spec fn least<V, F: Fn(Exp<V>) -> Exp<V>>(f: F, e: Exp<V>) -> nat {
    choose|depth: nat| is_least(f, e, depth)
}

/// Where there is a bound, there is a smallest one.
proof fn lemma_least<V, F: Fn(Exp<V>) -> Exp<V>>(f: F, e: Exp<V>, depth: nat)
    requires
        ends_within(f, e, depth),
    ensures
        is_least(f, e, least(f, e)),
        least(f, e) <= depth,
    decreases depth,
{
    if exists|d: nat| d < depth && #[trigger] ends_within(f, e, d) {
        let d = choose|d: nat| d < depth && #[trigger] ends_within(f, e, d);
        lemma_least(f, e, d);
    } else {
        assert(is_least(f, e, depth));
    }
}

/// `rank` bounds how often `f` can be applied on the way down: it is smaller
/// for an operand than for the expression that holds it, and `f` does not
/// increase it.
pub open spec fn ranks_descent<V, F: Fn(Exp<V>) -> Exp<V>>(
    f: F,
    rank: spec_fn(Exp<V>) -> nat,
) -> bool {
    &&& forall|a: Exp<V>, b: Exp<V>| #[trigger] applied(f, a, b) ==> rank(b) <= rank(a)
    &&& forall|e: Exp<V>, i: int|
        0 <= i < e.kids().len() ==> rank(#[trigger] e.kids()[i]) < rank(e)
}

/// A function whose applications are ranked can be applied from the top down.
pub proof fn law_ranked_descends<V, F: Fn(Exp<V>) -> Exp<V>>(
    f: F,
    rank: spec_fn(Exp<V>) -> nat,
    e: Exp<V>,
)
    requires
        ranks_descent(f, rank),
    ensures
        ends_within(f, e, rank(e) + 1),
        descends(f, e),
    decreases rank(e),
{
    assert forall|m: Exp<V>, i: int|
        #![trigger applied(f, e, m), m.kids()[i]]
        applied(f, e, m) && 0 <= i < m.kids().len() implies ends_within(
        f,
        m.kids()[i],
        rank(e),
    ) by {
        law_ranked_descends(f, rank, m.kids()[i]);
        lemma_ends_later(f, m.kids()[i], rank(m.kids()[i]) + 1, rank(e));
    }
}

/// A bound can be raised.
proof fn lemma_ends_later<V, F: Fn(Exp<V>) -> Exp<V>>(f: F, e: Exp<V>, depth: nat, later: nat)
    requires
        ends_within(f, e, depth),
        depth <= later,
    ensures
        ends_within(f, e, later),
    decreases depth,
{
    assert forall|m: Exp<V>, i: int|
        #![trigger applied(f, e, m), m.kids()[i]]
        applied(f, e, m) && 0 <= i < m.kids().len() implies ends_within(
        f,
        m.kids()[i],
        (later - 1) as nat,
    ) by {
        lemma_ends_later(f, m.kids()[i], (depth - 1) as nat, (later - 1) as nat);
    }
}

/// A function that never makes an expression higher can be applied from the
/// top down.
pub proof fn law_bounded_height_descends<V, F: Fn(Exp<V>) -> Exp<V>>(f: F, e: Exp<V>)
    requires
        forall|a: Exp<V>, b: Exp<V>| #[trigger]
            applied(f, a, b) ==> b.tree().height() <= a.tree().height(),
    ensures
        descends(f, e),
{
    let rank = |e: Exp<V>| e.tree().height();
    assert forall|e: Exp<V>, i: int| 0 <= i < e.kids().len() implies rank(#[trigger] e.kids()[i])
        < rank(e) by {
        e.lemma_tree_kids();
        super::tree::lemma_max_height(e.tree().kids(), i);
        assert(e.tree().kids()[i] == e.kids()[i].tree());
    }
    assert forall|a: Exp<V>, b: Exp<V>| #[trigger] applied(f, a, b) implies rank(b) <= rank(a) by {}
    law_ranked_descends(f, rank, e);
}

/// A binary operator whose operands can be extracted from one by one.
pub open spec fn commutes_with_extract(op: Op) -> bool {
    match op {
        Op::Bvand
        | Op::Bvor
        | Op::Bvxor
        | Op::Bvnand
        | Op::Bvnor
        | Op::Bvxnor
        | Op::Bvadd
        | Op::Bvsub => true,
        _ => false,
    }
}

/// An extraction from a binary operator becomes the operator on extractions;
/// any other tree stays as it is.
pub open spec fn commute_extract<V>(t: Tree<V>) -> Tree<V> {
    match t {
        Tree::Node(Op::Extract(hi, lo), kids) => match kids[0] {
            Tree::Node(op, operands) => if commutes_with_extract(op) {
                Tree::Node(
                    op,
                    seq![
                        Tree::Node(Op::Extract(hi, lo), seq![operands[0]]),
                        Tree::Node(Op::Extract(hi, lo), seq![operands[1]]),
                    ],
                )
            } else {
                t
            },
            Tree::Var(_) => t,
        },
        _ => t,
    }
}

impl<V: Copy> Clone for Exp<V> {
    fn clone(&self) -> (r: Self)
        ensures
            r.tree() == self.tree(),
        decreases self,
    {
        if let Exp::Var(v) = self {
            return Exp::Var(*v);
        }
        let n = self.num_kids();
        let mut operands: Vec<Exp<V>> = Vec::new();
        let mut i: usize = 0;
        while i < n
            invariant
                n == self.kids().len(),
                i <= n,
                operands@.len() == i,
                forall|j: int|
                    0 <= j < i ==> (#[trigger] operands@[j]).tree() == self.kids()[j].tree(),
            decreases n - i,
        {
            proof {
                self.lemma_kids_decrease(i as int);
            }
            operands.push(self.kid(i).clone());
            i = i + 1;
        }
        let r = self.rebuild(operands);
        assert(r.tree().kids() =~= self.tree().kids());
        r
    }
}

impl<V> Exp<V> {
    /// Applies `f` to each sub-expression in a bottom-up order.
    pub fn modify<F>(&mut self, f: &F) where F: Fn(Exp<V>) -> Exp<V>
        requires
            forall|x: Exp<V>| call_requires(*f, (x,)),
        ensures
            modified_bottom_up(*f, *old(self), *final(self)),
        decreases *old(self),
    {
        let n = self.num_kids();
        let mut i: usize = 0;
        while i < n
            invariant
                n == old(self).kids().len(),
                i <= n,
                forall|x: Exp<V>| call_requires(*f, (x,)),
                same_operator(*old(self), *self),
                forall|j: int|
                    0 <= j < i ==> modified_bottom_up(
                        *f,
                        #[trigger] old(self).kids()[j],
                        self.kids()[j],
                    ),
                forall|j: int| i <= j < n ==> self.kids()[j] == #[trigger] old(self).kids()[j],
            decreases n - i,
        {
            proof {
                old(self).lemma_kids_decrease(i as int);
            }
            self.kid_mut(i).modify(f);
            i = i + 1;
        }
        let ghost mid = *self;
        let mut exp = Exp::Bool(false);
        core::mem::swap(self, &mut exp);
        let r = f(exp);
        *self = r;
        assert(applied(*f, mid, *self));
        assert(same_operator(*old(self), mid));
    }

    /// Applies `f` to each sub-expression in a top-down order.
    pub fn modify_top_down<F>(&mut self, f: &F) where F: Fn(Exp<V>) -> Exp<V>
        requires
            forall|x: Exp<V>| call_requires(*f, (x,)),
            descends(*f, *old(self)),
        ensures
            modified_top_down(*f, *old(self), *final(self)),
        decreases least(*f, *old(self)),
    {
        let ghost depth = least(*f, *old(self));
        proof {
            lemma_least(*f, *old(self), choose|d: nat| #[trigger] ends_within(*f, *old(self), d));
        }
        let mut exp = Exp::Bool(false);
        core::mem::swap(self, &mut exp);
        let r = f(exp);
        *self = r;
        let ghost mid = *self;
        assert(applied(*f, *old(self), mid));
        let n = self.num_kids();
        let mut i: usize = 0;
        while i < n
            invariant
                n == mid.kids().len(),
                i <= n,
                forall|x: Exp<V>| call_requires(*f, (x,)),
                depth == least(*f, *old(self)),
                ends_within(*f, *old(self), depth),
                applied(*f, *old(self), mid),
                same_operator(mid, *self),
                forall|j: int|
                    0 <= j < i ==> modified_top_down(
                        *f,
                        mid.kids()[j],
                        #[trigger] self.kids()[j],
                    ),
                forall|j: int| i <= j < n ==> #[trigger] self.kids()[j] == mid.kids()[j],
            decreases n - i,
        {
            proof {
                assert(ends_within(*f, mid.kids()[i as int], (depth - 1) as nat));
                lemma_least(*f, mid.kids()[i as int], (depth - 1) as nat);
            }
            let ghost before = *self;
            self.kid_mut(i).modify_top_down(f);
            assert forall|j: int| 0 <= j < i + 1 implies modified_top_down(
                *f,
                mid.kids()[j],
                #[trigger] self.kids()[j],
            ) by {
                if j < i {
                    assert(self.kids()[j] == before.kids()[j]);
                }
            }
            i = i + 1;
        }
        assert(same_operator(mid, *self));
    }

    /// Moves an extraction from a binary bitvector operator onto its operands.
    pub fn commute_extract(&mut self)
        ensures
            final(self).tree() == commute_extract(old(self).tree()),
    {
        let mut exp = Exp::Bool(false);
        core::mem::swap(self, &mut exp);
        let r = exp.commuted();
        *self = r;
    }

    fn commuted(self) -> (r: Exp<V>)
        ensures
            r.tree() == commute_extract(self.tree()),
    {
        proof {
            if self is Extract {
                self.lemma_tree1();
                let exp = self.kids()[0];
                if exp.kids().len() == 2 {
                    exp.lemma_tree2();
                }
            }
        }
        match self {
            Exp::Extract(hi, lo, exp) => {
                let r = match *exp {
                    Exp::Bvand(lhs, rhs) => Exp::Bvand(
                        Box::new(Exp::Extract(hi, lo, lhs)),
                        Box::new(Exp::Extract(hi, lo, rhs)),
                    ),
                    Exp::Bvor(lhs, rhs) => Exp::Bvor(
                        Box::new(Exp::Extract(hi, lo, lhs)),
                        Box::new(Exp::Extract(hi, lo, rhs)),
                    ),
                    Exp::Bvxor(lhs, rhs) => Exp::Bvxor(
                        Box::new(Exp::Extract(hi, lo, lhs)),
                        Box::new(Exp::Extract(hi, lo, rhs)),
                    ),
                    Exp::Bvnand(lhs, rhs) => Exp::Bvnand(
                        Box::new(Exp::Extract(hi, lo, lhs)),
                        Box::new(Exp::Extract(hi, lo, rhs)),
                    ),
                    Exp::Bvnor(lhs, rhs) => Exp::Bvnor(
                        Box::new(Exp::Extract(hi, lo, lhs)),
                        Box::new(Exp::Extract(hi, lo, rhs)),
                    ),
                    Exp::Bvxnor(lhs, rhs) => Exp::Bvxnor(
                        Box::new(Exp::Extract(hi, lo, lhs)),
                        Box::new(Exp::Extract(hi, lo, rhs)),
                    ),
                    Exp::Bvadd(lhs, rhs) => Exp::Bvadd(
                        Box::new(Exp::Extract(hi, lo, lhs)),
                        Box::new(Exp::Extract(hi, lo, rhs)),
                    ),
                    Exp::Bvsub(lhs, rhs) => Exp::Bvsub(
                        Box::new(Exp::Extract(hi, lo, lhs)),
                        Box::new(Exp::Extract(hi, lo, rhs)),
                    ),
                    exp => Exp::Extract(hi, lo, Box::new(exp)),
                };
                proof {
                    if r is Extract {
                        r.lemma_tree1();
                    } else {
                        r.lemma_tree2();
                        r.kids()[0].lemma_tree1();
                        r.kids()[1].lemma_tree1();
                    }
                }
                r
            },
            exp => exp,
        }
    }
}

} // verus!
