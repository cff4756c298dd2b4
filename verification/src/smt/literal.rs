//! Bitvector constants, from words and from their spelling.

use super::smtlib::Exp;
use super::tree::Op;
use crate::bitvector::{B64, ParsedBits};
use crate::bv;
use vstd::prelude::*;

verus! {

/// The operator of a bitvector constant: constants that fit in a word are
/// kept in one.
pub open spec fn bits_op(s: Seq<bool>) -> Op {
    if s.len() <= 64 {
        Op::Bits64(s)
    } else {
        Op::Bits(s)
    }
}

/// The constant of `size` bits whose low bits are those of `bits`.
pub fn bits64<V>(bits: u64, size: u32) -> (r: Exp<V>)
    ensures
        r.tree() == super::tree::leaf::<V>(bits_op(bv::from_int(size as nat, bits as int))),
{
    if size <= 64 {
        let r = Exp::Bits64(B64::new(bits, size));
        proof {
            r.lemma_tree0();
        }
        r
    } else {
        let word = B64::from_u64(bits);
        let ghost all = bv::from_int(size as nat, bits as int);
        let mut bitvec: Vec<bool> = Vec::new();
        let mut n: u32 = 0;
        while n < size
            invariant
                n <= size,
                bitvec@.len() == n,
                word@ == bv::from_int(64, bits as int),
                all == bv::from_int(size as nat, bits as int),
                forall|i: int| 0 <= i < n ==> bitvec@[i] == #[trigger] all[i],
            decreases size - n,
        {
            let bit = n < 64 && word.bit(n);
            proof {
                if n >= 64 {
                    vstd::arithmetic::power2::lemma2_to64();
                    bv::lemma_int_bit_high(bits as nat, 64, n as nat);
                }
                assert(all[n as int] == bv::int_bit(bits as int, n as nat));
            }
            bitvec.push(bit);
            n = n + 1;
        }
        assert(bitvec@ =~= all);
        let r = Exp::Bits(bitvec);
        proof {
            r.lemma_tree0();
        }
        r
    }
}

/// The constant that a literal such as `#b1010` or `0xFF` spells.
pub fn smt_bits_from_str<V>(s: &str) -> (r: Option<Exp<V>>)
    ensures
        r is Some <==> bv::literal(s@) is Some,
        r matches Some(exp) ==> exp.tree() == super::tree::leaf::<V>(
            bits_op(bv::literal(s@)->0),
        ),
{
    match B64::from_str_long(s) {
        Some(ParsedBits::Short(b)) => {
            proof {
                bv::lemma_from_int_to_nat(b@);
            }
            Some(bits64(b.lower_u64(), b.len()))
        },
        Some(ParsedBits::Long(bits)) => {
            let r = Exp::Bits(bits);
            proof {
                r.lemma_tree0();
            }
            Some(r)
        },
        None => None,
    }
}

} // verus!
