//! Replacing the variables of an expression.

use super::smtlib::{Exp, Sym};
use super::tree::Tree;
use std::collections::HashMap;
use vstd::prelude::*;

verus! {

broadcast use vstd::std_specs::hash::group_hash_axioms;

/// `r` is a result of mapping the variables of `exp` by `f` from left to
/// right: the expression with each variable replaced, or the first error.
pub open spec fn var_mapped<'a, V: 'a, W, E, F: FnMut(&'a V) -> Result<Exp<W>, E>>(
    f: F,
    exp: &'a Exp<V>,
    r: Result<Exp<W>, E>,
) -> bool
    decreases exp,
{
    proof {
        assert forall|i: int| 0 <= i < exp.kids().len() implies #[trigger] decreases_to!(
            exp => exp.kids()[i]
        ) by {
            exp.lemma_kids_decrease(i);
        }
    }
    match exp {
        Exp::Var(v) => call_ensures(f, (v,), r),
        _ => match r {
            Ok(out) => {
                &&& !(out is Var)
                &&& out.op() == exp.op()
                &&& out.kids().len() == exp.kids().len()
                &&& forall|i: int|
                    0 <= i < exp.kids().len() ==> var_mapped(
                        f,
                        #[trigger] &exp.kids()[i],
                        Ok::<Exp<W>, E>(out.kids()[i]),
                    )
            },
            Err(_) => exists|done: Seq<Exp<W>>|
                {
                    &&& #[trigger] done.len() < exp.kids().len()
                    &&& forall|i: int|
                        0 <= i < done.len() ==> var_mapped(
                            f,
                            &exp.kids()[i],
                            Ok::<Exp<W>, E>(#[trigger] done[i]),
                        )
                    &&& var_mapped(f, &exp.kids()[done.len() as int], r)
                },
        },
    }
}

impl<V> Tree<V> {
    /// How often `v` occurs.
    pub open spec fn count(self, v: V) -> nat
        decreases self,
    {
        match self {
            Tree::Var(w) => if w == v {
                1
            } else {
                0
            },
            Tree::Node(_, kids) => count_all(kids, v),
        }
    }

    /// The tree with the variables in the domain of `m` replaced.
    pub open spec fn subst(self, m: Map<V, Tree<V>>) -> Tree<V>
        decreases self,
    {
        match self {
            Tree::Var(v) => if m.dom().contains(v) {
                m[v]
            } else {
                self
            },
            Tree::Node(op, kids) => Tree::Node(
                op,
                Seq::new(
                    kids.len(),
                    |i: int|
                        if 0 <= i < kids.len() {
                            kids[i].subst(m)
                        } else {
                            arbitrary()
                        },
                ),
            ),
        }
    }
}

/// How often `v` occurs in the trees together.
pub open spec fn count_all<V>(trees: Seq<Tree<V>>, v: V) -> nat
    decreases trees,
{
    if trees.len() == 0 {
        0
    } else {
        count_all(trees.drop_last(), v) + trees.last().count(v)
    }
}

/// A tree contributes its own occurrences to those of a sequence, on top of
/// the ones before it.
pub proof fn lemma_count_all<V>(trees: Seq<Tree<V>>, i: int, v: V)
    requires
        0 <= i < trees.len(),
    ensures
        count_all(trees.take(i), v) + trees[i].count(v) <= count_all(trees, v),
        count_all(trees.take(i + 1), v) == count_all(trees.take(i), v) + trees[i].count(v),
    decreases trees.len(),
{
    assert(trees.take(i + 1).drop_last() =~= trees.take(i));
    if i < trees.len() - 1 {
        let rest = trees.drop_last();
        lemma_count_all(rest, i, v);
        assert(rest.take(i) =~= trees.take(i));
    } else {
        assert(trees.take(i + 1) =~= trees);
    }
}

/// Substitution only looks at the variables that occur.
pub proof fn lemma_subst_agree<V>(t: Tree<V>, m1: Map<V, Tree<V>>, m2: Map<V, Tree<V>>)
    requires
        forall|v: V| #[trigger]
            t.count(v) > 0 ==> (m1.dom().contains(v) <==> m2.dom().contains(v)) && (
            m1.dom().contains(v) ==> m1[v] == m2[v]),
    ensures
        t.subst(m1) == t.subst(m2),
    decreases t,
{
    match t {
        Tree::Var(v) => {
            assert(t.count(v) == 1);
        },
        Tree::Node(op, kids) => {
            assert forall|i: int| 0 <= i < kids.len() implies #[trigger] t.subst(m1).kids()[i]
                == t.subst(m2).kids()[i] by {
                assert forall|v: V| #[trigger] kids[i].count(v) > 0 implies (m1.dom().contains(v)
                    <==> m2.dom().contains(v)) && (m1.dom().contains(v) ==> m1[v] == m2[v]) by {
                    lemma_count_all(kids, i, v);
                    assert(t.count(v) > 0);
                }
                lemma_subst_agree(kids[i], m1, m2);
            }
            assert(t.subst(m1).kids() =~= t.subst(m2).kids());
        },
    }
}

/// The replacements that a table offers.
pub open spec fn offered(substs: Map<Sym, Option<Exp<Sym>>>) -> Map<Sym, Tree<Sym>> {
    Map::new(
        |v: Sym| substs.dom().contains(v) && substs[v] is Some,
        |v: Sym| substs[v]->0.tree(),
    )
}

/// Each variable that the table speaks of occurs at most as often as the
/// table has a replacement for it.
pub open spec fn substitutable(substs: Map<Sym, Option<Exp<Sym>>>, trees: Seq<Tree<Sym>>) -> bool {
    forall|v: Sym| #[trigger]
        substs.dom().contains(v) ==> count_all(trees, v) <= (if substs[v] is Some {
            1nat
        } else {
            0nat
        })
}

/// The table after the replacements for the variables that occur in the
/// trees have been taken out.
pub open spec fn used_up(
    substs: Map<Sym, Option<Exp<Sym>>>,
    trees: Seq<Tree<Sym>>,
) -> Map<Sym, Option<Exp<Sym>>> {
    Map::new(
        |v: Sym| substs.dom().contains(v),
        |v: Sym|
            if count_all(trees, v) > 0 {
                None
            } else {
                substs[v]
            },
    )
}

impl<V> Exp<V> {
    /// Maps each variable to an expression, from left to right, and stops at
    /// the first error.
    pub fn map_var<'a, F, E, W>(&'a self, f: &mut F) -> (r: Result<Exp<W>, E>) where
        F: FnMut(&'a V) -> Result<Exp<W>, E>,
        V: 'a,

        requires
            forall|v: &'a V| call_requires(*old(f), (v,)),
        ensures
            *final(f) == *old(f),
            var_mapped(*old(f), self, r),
        decreases self,
    {
        if let Exp::Var(v) = self {
            return f(v);
        }
        let n = self.num_kids();
        let mut operands: Vec<Exp<W>> = Vec::new();
        let mut i: usize = 0;
        while i < n
            invariant
                !(*self is Var),
                n == self.kids().len(),
                i <= n,
                *f == *old(f),
                forall|v: &'a V| call_requires(*old(f), (v,)),
                operands@.len() == i,
                forall|j: int|
                    0 <= j < i ==> var_mapped(
                        *old(f),
                        &self.kids()[j],
                        Ok::<Exp<W>, E>(#[trigger] operands@[j]),
                    ),
            decreases n - i,
        {
            proof {
                self.lemma_kids_decrease(i as int);
            }
            match self.kid(i).map_var(f) {
                Ok(exp) => {
                    operands.push(exp);
                },
                Err(err) => {
                    assert(operands@.len() < self.kids().len());
                    return Err(err);
                },
            }
            i = i + 1;
        }
        Ok(self.rebuild(operands))
    }
}

impl Exp<Sym> {
    /// Replaces each variable that the table has an expression for, and takes
    /// that expression out of the table. The replacements themselves are not
    /// searched for variables.
    pub fn subst_once_in_place(&mut self, substs: &mut HashMap<Sym, Option<Exp<Sym>>>)
        requires
            substitutable(old(substs)@, seq![old(self).tree()]),
        ensures
            final(self).tree() == old(self).tree().subst(offered(old(substs)@)),
            final(substs)@ == used_up(old(substs)@, seq![old(self).tree()]),
        decreases *old(self),
    {
        let ghost m = substs@;
        let ghost t = self.tree();
        proof {
            lemma_count_single(t);
        }
        if let Exp::Var(v) = self {
            let v = *v;
            match substs.remove(&v) {
                Some(slot) => {
                    substs.insert(v, None);
                    proof {
                        assert(m.dom().contains(v));
                        assert(count_all(seq![t], v) == 1);
                        assert forall|w: Sym| w != v implies #[trigger] count_all(seq![t], w)
                            == 0 by {}
                        assert(substs@ =~= used_up(m, seq![t]));
                    }
                    if let Some(exp) = slot {
                        *self = exp;
                    }
                },
                None => {
                    proof {
                        assert(substs@ =~= used_up(m, seq![t]));
                    }
                },
            }
            return;
        }
        let n = self.num_kids();
        let ghost kids = t.kids();
        proof {
            self.lemma_tree_kids();
            assert(used_up(m, kids.take(0)) =~= m);
            assert forall|v: Sym| #[trigger] m.dom().contains(v) implies count_all(kids, v) <= (
            if m[v] is Some {
                1nat
            } else {
                0nat
            }) by {
                assert(t.count(v) == count_all(kids, v));
            }
        }
        let mut i: usize = 0;
        while i < n
            invariant
                n == old(self).kids().len(),
                n == kids.len(),
                i <= n,
                !(*old(self) is Var),
                !(*self is Var),
                self.op() == old(self).op(),
                self.kids().len() == n,
                t == old(self).tree(),
                kids == t.kids(),
                substitutable(m, kids),
                substs@ == used_up(m, kids.take(i as int)),
                forall|j: int| 0 <= j < n ==> #[trigger] kids[j] == old(self).kids()[j].tree(),
                forall|j: int|
                    0 <= j < i ==> (#[trigger] self.kids()[j]).tree() == kids[j].subst(offered(m)),
                forall|j: int| i <= j < n ==> #[trigger] self.kids()[j] == old(self).kids()[j],
            decreases n - i,
        {
            let ghost before = *self;
            proof {
                old(self).lemma_kids_decrease(i as int);
                lemma_step(m, kids, i as int);
            }
            self.kid_mut(i).subst_once_in_place(substs);
            proof {
                assert forall|j: int| 0 <= j < i + 1 implies (#[trigger] self.kids()[j]).tree()
                    == kids[j].subst(offered(m)) by {
                    if j < i {
                        assert(self.kids()[j] == before.kids()[j]);
                    }
                }
            }
            i = i + 1;
        }
        proof {
            assert(kids.take(n as int) =~= kids);
            assert(self.tree().kids() =~= t.subst(offered(m)).kids());
            assert(used_up(m, seq![t]) =~= used_up(m, kids)) by {
                assert forall|v: Sym| count_all(seq![t], v) == #[trigger] count_all(kids, v) by {}
            }
        }
    }
}

proof fn lemma_count_single(t: Tree<Sym>)
    ensures
        forall|v: Sym| #[trigger] count_all(seq![t], v) == t.count(v),
{
    assert forall|v: Sym| #[trigger] count_all(seq![t], v) == t.count(v) by {
        assert(seq![t].drop_last() =~= Seq::<Tree<Sym>>::empty());
        assert(count_all(Seq::<Tree<Sym>>::empty(), v) == 0);
    }
}

/// After the operands before `i`, the operand at `i` can still be substituted
/// in, with the same result, and uses up what it uses up.
proof fn lemma_step(m: Map<Sym, Option<Exp<Sym>>>, kids: Seq<Tree<Sym>>, i: int)
    requires
        0 <= i < kids.len(),
        substitutable(m, kids),
    ensures
        substitutable(used_up(m, kids.take(i)), seq![kids[i]]),
        kids[i].subst(offered(used_up(m, kids.take(i)))) == kids[i].subst(offered(m)),
        used_up(used_up(m, kids.take(i)), seq![kids[i]]) == used_up(m, kids.take(i + 1)),
{
    let mi = used_up(m, kids.take(i));
    lemma_count_single(kids[i]);
    assert forall|v: Sym| #[trigger] mi.dom().contains(v) implies count_all(seq![kids[i]], v) <= (
    if mi[v] is Some {
        1nat
    } else {
        0nat
    }) by {
        assert(m.dom().contains(v));
        lemma_count_all(kids, i, v);
    }
    assert forall|v: Sym| #[trigger] kids[i].count(v) > 0 implies (offered(mi).dom().contains(v)
        <==> offered(m).dom().contains(v)) && (offered(mi).dom().contains(v) ==> offered(mi)[v]
        == offered(m)[v]) by {
        if m.dom().contains(v) {
            lemma_count_all(kids, i, v);
        }
    }
    lemma_subst_agree(kids[i], offered(mi), offered(m));
    assert forall|v: Sym| #[trigger] m.dom().contains(v) implies used_up(mi, seq![kids[i]])[v]
        == used_up(m, kids.take(i + 1))[v] by {
        lemma_count_all(kids, i, v);
    }
    assert(used_up(mi, seq![kids[i]]) =~= used_up(m, kids.take(i + 1)));
}

} // verus!
