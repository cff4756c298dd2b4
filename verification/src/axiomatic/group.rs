//! Sharing tests among groups of threads.

use vstd::prelude::*;

verus! {

/// The elements that belong to one of a number of groups: beginning with the
/// one whose position is the number of the group, every element that is as
/// many positions further as there are groups.
pub struct GroupIndex<'a, A> {
    i: usize,
    group_id: usize,
    num_groups: usize,
    buf: &'a Vec<A>,
}

/// The position of an element of a group, given how many elements of the
/// group come before it.
pub open spec fn position_of(taken: nat, group: nat, groups: nat) -> nat {
    taken * groups + group
}

impl<'a, A> GroupIndex<'a, A> {
    /// How many elements have been given out.
    pub closed spec fn taken(&self) -> nat {
        self.i as nat
    }

    pub closed spec fn group(&self) -> nat {
        self.group_id as nat
    }

    pub closed spec fn groups(&self) -> nat {
        self.num_groups as nat
    }

    pub closed spec fn elements(&self) -> Seq<A> {
        self.buf@
    }

    pub fn new(buf: &'a Vec<A>, group_id: usize, num_groups: usize) -> (r: Self)
        ensures
            r.taken() == 0,
            r.group() == group_id,
            r.groups() == num_groups,
            r.elements() == buf@,
    {
        GroupIndex { i: 0, group_id, num_groups, buf }
    }

    /// The next element of the group.
    pub fn next(&mut self) -> (r: Option<&'a A>)
        requires
            old(self).groups() > 0 || old(self).taken() < usize::MAX,
        ensures
            final(self).group() == old(self).group(),
            final(self).groups() == old(self).groups(),
            final(self).elements() == old(self).elements(),
            ({
                let k = position_of(old(self).taken(), old(self).group(), old(self).groups());
                if k < old(self).elements().len() {
                    &&& r matches Some(a) && *a == old(self).elements()[k as int]
                    &&& final(self).taken() == old(self).taken() + 1
                } else {
                    &&& r is None
                    &&& final(self).taken() == old(self).taken()
                }
            }),
    {
        let i = self.i as u128;
        let n = self.num_groups as u128;
        let g = self.group_id as u128;
        proof {
            lemma_product_fits(self.i, self.num_groups);
            if self.num_groups >= 1 {
                assert(self.i <= self.i * self.num_groups) by (nonlinear_arith)
                    requires
                        self.num_groups >= 1,
                ;
            }
        }
        let k = i * n + g;
        let len = self.buf.len();
        if k < len as u128 {
            self.i = self.i + 1;
            Some(&self.buf[k as usize])
        } else {
            None
        }
    }
}

/// The product of two words fits in a double word, with room for another
/// word.
proof fn lemma_product_fits(a: usize, b: usize)
    ensures
        0 <= a * b <= 0xffff_ffff_ffff_ffff * 0xffff_ffff_ffff_ffff,
{
    assert(0 <= a * b <= 0xffff_ffff_ffff_ffff * 0xffff_ffff_ffff_ffff) by (nonlinear_arith)
        requires
            0 <= a <= 0xffff_ffff_ffff_ffff,
            0 <= b <= 0xffff_ffff_ffff_ffff,
    ;
}

/// Every position belongs to exactly one group, and is given out exactly once
/// there.
pub proof fn law_groups_partition(num_groups: nat, position: nat)
    requires
        num_groups > 0,
    ensures
        position % num_groups < num_groups,
        (position / num_groups) * num_groups + position % num_groups == position,
        forall|i: nat, group: nat|
            #![trigger i * num_groups + group]
            group < num_groups && i * num_groups + group == position ==> i == position / num_groups
                && group == position % num_groups,
{
    vstd::arithmetic::div_mod::lemma_fundamental_div_mod(position as int, num_groups as int);
    vstd::arithmetic::div_mod::lemma_mod_bound(position as int, num_groups as int);
    assert(num_groups as int * (position as int / num_groups as int) == (position / num_groups)
        * num_groups) by (nonlinear_arith);
    assert forall|i: nat, group: nat|
        #![trigger i * num_groups + group]
        group < num_groups && i * num_groups + group == position implies i == position / num_groups
        && group == position % num_groups by {
        vstd::arithmetic::div_mod::lemma_fundamental_div_mod_converse(
            position as int,
            num_groups as int,
            i as int,
            group as int,
        );
    }
}

/// The groups give out every position, no two of them the same, and each its
/// own in ascending order.
pub proof fn law_groups_give_out_all(
    groups: nat,
    position: nat,
    taken: nat,
    group: nat,
    other_taken: nat,
    other_group: nat,
)
    requires
        groups > 0,
        group < groups,
        other_group < groups,
    ensures
        position_of(position / groups, position % groups, groups) == position,
        position % groups < groups,
        position_of(taken, group, groups) == position_of(other_taken, other_group, groups) ==> taken
            == other_taken && group == other_group,
        taken < other_taken ==> position_of(taken, group, groups) < position_of(
            other_taken,
            group,
            groups,
        ),
{
    law_groups_partition(groups, position);
    law_groups_partition(groups, position_of(taken, group, groups));
    assert(taken * groups + group == position_of(taken, group, groups));
    assert(other_taken * groups + other_group == position_of(other_taken, other_group, groups));
    if taken < other_taken {
        assert(taken * groups < other_taken * groups) by (nonlinear_arith)
            requires
                taken < other_taken,
                groups > 0,
        ;
    }
}

} // verus!
