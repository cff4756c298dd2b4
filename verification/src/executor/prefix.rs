//! Sequences that begin in the same way.

use vstd::prelude::*;

verus! {

/// Whether a sequence is the start of another one.
#[verifier::opaque]
pub open spec fn starts<T>(a: Seq<T>, b: Seq<T>) -> bool {
    a.len() <= b.len() && forall|i: int| 0 <= i < a.len() ==> #[trigger] b[i] == a[i]
}

pub broadcast proof fn lemma_starts_self<T>(a: Seq<T>)
    ensures
        #[trigger] starts(a, a),
{
    reveal(starts);
}

pub broadcast proof fn lemma_starts_push<T>(a: Seq<T>, x: T)
    ensures
        starts(a, #[trigger] a.push(x)),
{
    reveal(starts);
}

pub broadcast proof fn lemma_starts_add<T>(a: Seq<T>, b: Seq<T>)
    ensures
        starts(a, #[trigger] (a + b)),
{
    reveal(starts);
}

pub broadcast proof fn lemma_starts_trans<T>(a: Seq<T>, b: Seq<T>, c: Seq<T>)
    requires
        #[trigger] starts(a, b),
        #[trigger] starts(b, c),
    ensures
        starts(a, c),
{
    reveal(starts);
}

pub broadcast proof fn lemma_starts_len<T>(a: Seq<T>, b: Seq<T>)
    requires
        #[trigger] starts(a, b),
    ensures
        a.len() <= b.len(),
{
    reveal(starts);
}

pub broadcast group group_prefix {
    lemma_starts_self,
    lemma_starts_push,
    lemma_starts_add,
    lemma_starts_trans,
    lemma_starts_len,
}

} // verus!
