//! How registers are initialised.

use super::ir::{Loc, Reset};
use vstd::prelude::*;

verus! {

/// No place is initialised in more than one way.
pub open spec fn one_per_place(resets: Seq<(Loc, Reset)>) -> bool {
    forall|i: int, j: int|
        0 <= i < j < resets.len() ==> (#[trigger] resets[i]).0 != (#[trigger] resets[j]).0
}

/// The position of a place, or the number of places.
pub open spec fn position(resets: Seq<(Loc, Reset)>, loc: Loc) -> int
    decreases resets.len(),
{
    if resets.len() == 0 || resets[0].0 == loc {
        0
    } else {
        1 + position(resets.drop_first(), loc)
    }
}

/// Whether a place is among those that are initialised.
pub open spec fn has_place(resets: Seq<(Loc, Reset)>, loc: Loc) -> bool {
    exists|j: int| 0 <= j < resets.len() && (#[trigger] resets[j]).0 == loc
}

/// The initialisers with one more, in place of the one that the place has had.
pub open spec fn with_reset(resets: Seq<(Loc, Reset)>, loc: Loc, reset: Reset) -> Seq<
    (Loc, Reset),
> {
    let i = position(resets, loc);
    if i < resets.len() {
        resets.update(i, (loc, reset))
    } else {
        resets.push((loc, reset))
    }
}

/// The position of a place is the first where it stands.
proof fn lemma_position(resets: Seq<(Loc, Reset)>, loc: Loc)
    ensures
        0 <= position(resets, loc) <= resets.len(),
        position(resets, loc) < resets.len() ==> resets[position(resets, loc)].0 == loc,
        forall|j: int| 0 <= j < position(resets, loc) ==> (#[trigger] resets[j]).0 != loc,
    decreases resets.len(),
{
    if resets.len() > 0 && resets[0].0 != loc {
        let rest = resets.drop_first();
        lemma_position(rest, loc);
        assert forall|j: int| 0 <= j < position(resets, loc) implies (#[trigger] resets[j]).0
            != loc by {
            if j > 0 {
                assert(rest[j - 1] == resets[j]);
            }
        }
    }
}

fn find(resets: &Vec<(Loc, Reset)>, loc: &Loc) -> (r: usize)
    ensures
        r == position(resets@, *loc),
{
    proof {
        lemma_position(resets@, *loc);
    }
    let mut i: usize = 0;
    while i < resets.len()
        invariant
            i <= resets@.len(),
            i <= position(resets@, *loc) <= resets@.len(),
            position(resets@, *loc) < resets@.len() ==> resets@[position(resets@, *loc)].0 == *loc,
            forall|j: int| 0 <= j < position(resets@, *loc) ==> (#[trigger] resets@[j]).0 != *loc,
        decreases resets@.len() - i,
    {
        if resets[i].0.same(loc) {
            assert(resets@[i as int].0 == *loc);
            return i;
        }
        i = i + 1;
    }
    i
}

/// Whether a place is among those that are initialised.
pub fn contains_place(resets: &Vec<(Loc, Reset)>, loc: &Loc) -> (r: bool)
    ensures
        r == has_place(resets@, *loc),
{
    proof {
        lemma_position(resets@, *loc);
    }
    find(resets, loc) < resets.len()
}

/// A way to initialise each of a number of places, in the order in which the
/// places were first given.
pub struct Resets {
    list: Vec<(Loc, Reset)>,
}

impl View for Resets {
    type V = Seq<(Loc, Reset)>;

    closed spec fn view(&self) -> Seq<(Loc, Reset)> {
        self.list@
    }
}

impl Resets {
    #[verifier::type_invariant]
    spec fn wf(self) -> bool {
        one_per_place(self.list@)
    }

    pub fn new() -> (r: Self)
        ensures
            r@ == Seq::<(Loc, Reset)>::empty(),
    {
        let r = Resets { list: Vec::new() };
        assert(r@ =~= Seq::empty());
        r
    }

    /// The places and their initialisers.
    pub fn list(&self) -> (r: &Vec<(Loc, Reset)>)
        ensures
            r@ == self@,
            one_per_place(r@),
    {
        proof {
            use_type_invariant(self);
        }
        &self.list
    }

    /// Sets the way in which a place is initialised.
    pub fn insert(&mut self, loc: Loc, reset: Reset)
        ensures
            final(self)@ == with_reset(old(self)@, loc, reset),
            one_per_place(final(self)@),
    {
        proof {
            use_type_invariant(&*self);
        }
        let mut list: Vec<(Loc, Reset)> = Vec::new();
        std::mem::swap(&mut list, &mut self.list);
        let ghost before = list@;
        let i = find(&list, &loc);
        proof {
            lemma_position(before, loc);
        }
        if i < list.len() {
            list.set(i, (loc, reset));
        } else {
            list.push((loc, reset));
        }
        assert(list@ == with_reset(before, loc, reset));
        self.list = list;
    }
}

/// The initialisers that remain when those of another list take the place of
/// some of them.
pub open spec fn without(resets: Seq<(Loc, Reset)>, except: Seq<(Loc, Reset)>) -> Seq<(Loc, Reset)>
    decreases resets.len(),
{
    if resets.len() == 0 {
        seq![]
    } else {
        let rest = without(resets.drop_first(), except);
        if has_place(except, resets[0].0) {
            rest
        } else {
            seq![resets[0]] + rest
        }
    }
}

/// What remains is among what there was, and not in the other list.
proof fn lemma_without(resets: Seq<(Loc, Reset)>, except: Seq<(Loc, Reset)>)
    requires
        one_per_place(resets),
    ensures
        one_per_place(without(resets, except)),
        forall|r: (Loc, Reset)| #[trigger]
            without(resets, except).contains(r) <==> resets.contains(r) && !has_place(except, r.0),
    decreases resets.len(),
{
    if resets.len() > 0 {
        let first = resets[0];
        let tail = resets.drop_first();
        let rest = without(tail, except);
        let all = without(resets, except);
        assert forall|i: int, j: int| 0 <= i < j < tail.len() implies (#[trigger] tail[i]).0 != (
        #[trigger] tail[j]).0 by {
            assert(tail[i] == resets[i + 1] && tail[j] == resets[j + 1]);
        }
        lemma_without(tail, except);
        assert forall|r: (Loc, Reset)| resets.contains(r) <==> r == first || tail.contains(r) by {
            if resets.contains(r) {
                let k = choose|k: int| 0 <= k < resets.len() && resets[k] == r;
                if k > 0 {
                    assert(tail[k - 1] == r);
                }
            }
            if tail.contains(r) {
                let k = choose|k: int| 0 <= k < tail.len() && tail[k] == r;
                assert(resets[k + 1] == r);
            }
            assert(resets[0] == first);
        }
        if !has_place(except, first.0) {
            assert(all == seq![first] + rest);
            assert forall|r: (Loc, Reset)| all.contains(r) <==> r == first || rest.contains(r) by {
                if all.contains(r) {
                    let k = choose|k: int| 0 <= k < all.len() && all[k] == r;
                    if k > 0 {
                        assert(rest[k - 1] == r);
                    }
                }
                if rest.contains(r) {
                    let k = choose|k: int| 0 <= k < rest.len() && rest[k] == r;
                    assert(all[k + 1] == r);
                }
                assert(all[0] == first);
            }
            assert forall|i: int, j: int| 0 <= i < j < all.len() implies (#[trigger] all[i]).0 != (
            #[trigger] all[j]).0 by {
                assert(all[j] == rest[j - 1]);
                if i > 0 {
                    assert(all[i] == rest[i - 1]);
                } else {
                    assert(rest.contains(rest[j - 1]));
                    assert(tail.contains(rest[j - 1]));
                    let k = choose|k: int| 0 <= k < tail.len() && tail[k] == rest[j - 1];
                    assert(tail[k] == resets[k + 1]);
                }
            }
        }
    }
}

/// When the initialisers of a task are added to those of the program and take
/// precedence over them, each place that either speaks of is initialised
/// exactly once: in the way of the task if that has one, and else in the way
/// of the program.
pub proof fn law_one_reset_per_place(program: Seq<(Loc, Reset)>, task: Seq<(Loc, Reset)>)
    requires
        one_per_place(program),
        one_per_place(task),
    ensures
        ({
            let all = without(program, task) + task;
            &&& one_per_place(all)
            &&& forall|r: (Loc, Reset)| #[trigger]
                all.contains(r) <==> task.contains(r) || program.contains(r) && !has_place(
                    task,
                    r.0,
                )
        }),
{
    let left = without(program, task);
    let all = left + task;
    lemma_without(program, task);
    assert forall|i: int, j: int| 0 <= i < j < all.len() implies (#[trigger] all[i]).0 != (
    #[trigger] all[j]).0 by {
        if j < left.len() {
            assert(all[i] == left[i] && all[j] == left[j]);
        } else if i >= left.len() {
            assert(all[i] == task[i - left.len()] && all[j] == task[j - left.len()]);
        } else {
            assert(left.contains(left[i]));
            assert(task[j - left.len()].0 == all[j].0);
        }
    }
    assert forall|r: (Loc, Reset)| #[trigger] all.contains(r) <==> left.contains(r)
        || task.contains(r) by {
        if left.contains(r) {
            let k = choose|k: int| 0 <= k < left.len() && left[k] == r;
            assert(all[k] == r);
        }
        if task.contains(r) {
            let k = choose|k: int| 0 <= k < task.len() && task[k] == r;
            assert(all[left.len() + k] == r);
        }
        if all.contains(r) {
            let k = choose|k: int| 0 <= k < all.len() && all[k] == r;
            if k < left.len() {
                assert(left[k] == r);
            } else {
                assert(task[k - left.len()] == r);
            }
        }
    }
}

} // verus!
