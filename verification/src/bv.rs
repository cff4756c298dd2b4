//! Mathematical bitvectors.
//!
//! A bitvector is a sequence of bits, least significant bit first. The
//! functions here are the operators of the SMTLIB theory of fixed size
//! bitvectors, written over such sequences.

use vstd::prelude::*;

verus! {

/// The bit at position `i`, where positions past the end read as zero.
pub open spec fn bit_at(s: Seq<bool>, i: int) -> bool {
    0 <= i < s.len() && s[i]
}

/// The number that a bitvector denotes when read as unsigned.
pub open spec fn to_nat(s: Seq<bool>) -> nat
    decreases s.len(),
{
    if s.len() == 0 {
        0
    } else {
        (if s[0] { 1nat } else { 0nat }) + 2 * to_nat(s.drop_first())
    }
}

/// Bit `i` of the two's complement representation of `n`.
pub open spec fn int_bit(n: int, i: nat) -> bool {
    (n / (vstd::arithmetic::power2::pow2(i) as int)) % 2 == 1
}

/// The `len` least significant bits of `n`.
pub open spec fn from_int(len: nat, n: int) -> Seq<bool> {
    Seq::new(len, |i: int| int_bit(n, i as nat))
}

pub open spec fn zeros(len: nat) -> Seq<bool> {
    Seq::new(len, |i: int| false)
}

pub open spec fn bvnot(s: Seq<bool>) -> Seq<bool> {
    Seq::new(s.len(), |i: int| !s[i])
}

pub open spec fn bvand(s: Seq<bool>, t: Seq<bool>) -> Seq<bool> {
    Seq::new(s.len(), |i: int| s[i] && bit_at(t, i))
}

pub open spec fn bvor(s: Seq<bool>, t: Seq<bool>) -> Seq<bool> {
    Seq::new(s.len(), |i: int| s[i] || bit_at(t, i))
}

pub open spec fn bvxor(s: Seq<bool>, t: Seq<bool>) -> Seq<bool> {
    Seq::new(s.len(), |i: int| s[i] != bit_at(t, i))
}

pub open spec fn bvadd(s: Seq<bool>, t: Seq<bool>) -> Seq<bool> {
    from_int(s.len(), (to_nat(s) + to_nat(t)) as int)
}

pub open spec fn bvsub(s: Seq<bool>, t: Seq<bool>) -> Seq<bool> {
    from_int(s.len(), to_nat(s) - to_nat(t))
}

pub open spec fn bvneg(s: Seq<bool>) -> Seq<bool> {
    from_int(s.len(), -(to_nat(s) as int))
}

/// Shift towards the most significant bit by the unsigned value of `t`.
pub open spec fn bvshl(s: Seq<bool>, t: Seq<bool>) -> Seq<bool> {
    Seq::new(s.len(), |i: int| bit_at(s, i - to_nat(t)))
}

/// Shift towards the least significant bit by the unsigned value of `t`.
pub open spec fn bvlshr(s: Seq<bool>, t: Seq<bool>) -> Seq<bool> {
    Seq::new(s.len(), |i: int| bit_at(s, i + to_nat(t)))
}

/// Bits `hi` down to `lo`, both included.
pub open spec fn extract(s: Seq<bool>, hi: int, lo: int) -> Seq<bool> {
    s.subrange(lo, hi + 1)
}

/// `k` zero bits above the most significant bit.
pub open spec fn zero_extend(s: Seq<bool>, k: nat) -> Seq<bool> {
    s + zeros(k)
}

/// `k` copies of the most significant bit above it.
pub open spec fn sign_extend(s: Seq<bool>, k: nat) -> Seq<bool> {
    s + Seq::new(k, |i: int| bit_at(s, s.len() - 1))
}

/// `s` holds the most significant bits.
pub open spec fn concat(s: Seq<bool>, t: Seq<bool>) -> Seq<bool> {
    t + s
}

pub open spec fn bvult(s: Seq<bool>, t: Seq<bool>) -> bool {
    to_nat(s) < to_nat(t)
}

/// The bit that a binary digit stands for.
pub open spec fn binary_digit(c: char) -> Option<Seq<bool>> {
    if c == '0' {
        Some(seq![false])
    } else if c == '1' {
        Some(seq![true])
    } else {
        None
    }
}

/// The value of a hexadecimal digit.
pub open spec fn hex_value(c: char) -> Option<int> {
    if '0' <= c <= '9' {
        Some(c as int - '0' as int)
    } else if 'a' <= c <= 'f' {
        Some(c as int - 'a' as int + 10)
    } else if 'A' <= c <= 'F' {
        Some(c as int - 'A' as int + 10)
    } else {
        None
    }
}

/// The four bits that a hexadecimal digit stands for.
pub open spec fn hex_digit(c: char) -> Option<Seq<bool>> {
    match hex_value(c) {
        Some(n) => Some(from_int(4, n)),
        None => None,
    }
}

/// The bits that a sequence of digits stands for, the most significant digit
/// first.
pub open spec fn digits(s: Seq<char>, digit: spec_fn(char) -> Option<Seq<bool>>) -> Option<
    Seq<bool>,
>
    decreases s.len(),
{
    if s.len() == 0 {
        Some(seq![])
    } else {
        match (digit(s[0]), digits(s.drop_first(), digit)) {
            (Some(high), Some(low)) => Some(concat(high, low)),
            _ => None,
        }
    }
}

/// The bitvector that a literal spells: `#` or `0`, then `x` and hexadecimal
/// digits or `b` and binary digits.
pub open spec fn literal(s: Seq<char>) -> Option<Seq<bool>> {
    if s.len() > 2 && (s[0] == '#' || s[0] == '0') {
        if s[1] == 'x' {
            digits(s.skip(2), |c: char| hex_digit(c))
        } else if s[1] == 'b' {
            digits(s.skip(2), |c: char| binary_digit(c))
        } else {
            None
        }
    } else {
        None
    }
}

/// A bitvector of `s.len()` bits denotes a number below two to that power.
pub proof fn lemma_to_nat_bound(s: Seq<bool>)
    ensures
        to_nat(s) < vstd::arithmetic::power2::pow2(s.len()),
    decreases s.len(),
{
    if s.len() == 0 {
        vstd::arithmetic::power2::lemma2_to64();
    } else {
        lemma_to_nat_bound(s.drop_first());
        vstd::arithmetic::power2::lemma_pow2_unfold(s.len());
    }
}

/// Dropping the least significant bit of `n` shifts the remaining bits down.
pub proof fn lemma_int_bit_shift(n: int, i: nat)
    ensures
        int_bit(n, i + 1) == int_bit(n / 2, i),
{
    vstd::arithmetic::power2::lemma_pow2_pos(i);
    vstd::arithmetic::power2::lemma_pow2_unfold(i + 1);
    lemma_halve(n, vstd::arithmetic::power2::pow2(i) as int);
}

/// Division by `2 * p` in two steps, for the quotient and the remainder.
proof fn lemma_halve(n: int, p: int)
    requires
        p > 0,
    ensures
        n / (2 * p) == (n / 2) / p,
        n % (2 * p) == 2 * ((n / 2) % p) + n % 2,
{
    vstd::arithmetic::div_mod::lemma_fundamental_div_mod(n, 2);
    vstd::arithmetic::div_mod::lemma_fundamental_div_mod(n / 2, p);
    vstd::arithmetic::div_mod::lemma_mod_bound(n / 2, p);
    let q = (n / 2) / p;
    let r = 2 * ((n / 2) % p) + n % 2;
    assert(n == q * (2 * p) + r) by (nonlinear_arith)
        requires
            n == 2 * (n / 2) + n % 2,
            n / 2 == p * q + (n / 2) % p,
            r == 2 * ((n / 2) % p) + n % 2,
    ;
    vstd::arithmetic::div_mod::lemma_fundamental_div_mod_converse(n, 2 * p, q, r);
}

/// Reading back the low bits of `n` gives the remainder modulo a power of two.
pub proof fn lemma_to_nat_from_int(len: nat, n: int)
    ensures
        to_nat(from_int(len, n)) == n % (vstd::arithmetic::power2::pow2(len) as int),
    decreases len,
{
    vstd::arithmetic::power2::lemma2_to64();
    if len == 0 {
        assert(from_int(len, n).len() == 0);
    } else {
        let m: nat = (len - 1) as nat;
        let s = from_int(len, n);
        lemma_to_nat_from_int(m, n / 2);
        assert(s.drop_first() =~= from_int(m, n / 2)) by {
            assert forall|i: int| 0 <= i < m implies s.drop_first()[i] == from_int(m, n / 2)[i] by {
                lemma_int_bit_shift(n, i as nat);
            }
        }
        vstd::arithmetic::power2::lemma_pow2_unfold(len);
        vstd::arithmetic::power2::lemma_pow2_pos(m);
        let p = vstd::arithmetic::power2::pow2(m) as int;
        assert(int_bit(n, 0) == (n % 2 == 1)) by {
            assert(n / 1 == n);
        }
        lemma_halve(n, p);
    }
}

/// The bits of the number that a bitvector denotes are its own bits.
pub proof fn lemma_from_int_to_nat(s: Seq<bool>)
    ensures
        from_int(s.len(), to_nat(s) as int) == s,
    decreases s.len(),
{
    let n = to_nat(s) as int;
    if s.len() != 0 {
        let rest = s.drop_first();
        lemma_from_int_to_nat(rest);
        assert(n / 2 == to_nat(rest));
        assert(n % 2 == (if s[0] { 1int } else { 0int }));
        assert forall|i: int| 0 <= i < s.len() implies from_int(s.len(), n)[i] == s[i] by {
            if i == 0 {
                vstd::arithmetic::power2::lemma2_to64();
                assert(n / 1 == n);
            } else {
                lemma_int_bit_shift(n, (i - 1) as nat);
                assert(from_int(rest.len(), n / 2)[i - 1] == rest[i - 1]);
            }
        }
    }
    assert(from_int(s.len(), n) =~= s);
}

/// Two bitvectors of one length that denote the same number are the same.
pub proof fn lemma_to_nat_injective(s: Seq<bool>, t: Seq<bool>)
    requires
        s.len() == t.len(),
        to_nat(s) == to_nat(t),
    ensures
        s == t,
{
    lemma_from_int_to_nat(s);
    lemma_from_int_to_nat(t);
}

/// Numbers that agree modulo two to the power `len` have the same low bits.
pub proof fn lemma_from_int_mod(len: nat, n: int, m: int)
    requires
        n % (vstd::arithmetic::power2::pow2(len) as int) == m % (
        vstd::arithmetic::power2::pow2(len) as int),
    ensures
        from_int(len, n) == from_int(len, m),
{
    lemma_to_nat_from_int(len, n);
    lemma_to_nat_from_int(len, m);
    lemma_to_nat_injective(from_int(len, n), from_int(len, m));
}

/// A number below two to the power `len` has no bit at or above `len`.
pub proof fn lemma_int_bit_high(n: nat, len: nat, i: nat)
    requires
        n < vstd::arithmetic::power2::pow2(len),
        len <= i,
    ensures
        !int_bit(n as int, i),
{
    if len < i {
        vstd::arithmetic::power2::lemma_pow2_strictly_increases(len, i);
    }
    vstd::arithmetic::div_mod::lemma_basic_div(
        n as int,
        vstd::arithmetic::power2::pow2(i) as int,
    );
}

/// The low bits of a bitvector are the low bits of the number it denotes.
proof fn lemma_low_bits(s: Seq<bool>, k: nat)
    requires
        k <= s.len(),
    ensures
        s.subrange(0, k as int) == from_int(k, to_nat(s) as int),
        to_nat(s.subrange(0, k as int)) == to_nat(s) as int % (
        vstd::arithmetic::power2::pow2(k) as int),
{
    lemma_from_int_to_nat(s);
    assert(s.subrange(0, k as int) =~= from_int(k, to_nat(s) as int)) by {
        assert forall|i: int| 0 <= i < k implies s[i] == #[trigger] int_bit(
            to_nat(s) as int,
            i as nat,
        ) by {
            assert(from_int(s.len(), to_nat(s) as int)[i] == s[i]);
        }
    }
    lemma_to_nat_from_int(k, to_nat(s) as int);
}

/// The low bits of a sum or a difference depend on the low bits of the
/// operands alone.
pub proof fn lemma_extract_low_arithmetic(s: Seq<bool>, t: Seq<bool>, hi: int)
    requires
        s.len() == t.len(),
        0 <= hi < s.len(),
    ensures
        extract(bvadd(s, t), hi, 0) == bvadd(extract(s, hi, 0), extract(t, hi, 0)),
        extract(bvsub(s, t), hi, 0) == bvsub(extract(s, hi, 0), extract(t, hi, 0)),
{
    let k: nat = (hi + 1) as nat;
    let p = vstd::arithmetic::power2::pow2(k) as int;
    let a = to_nat(s) as int;
    let b = to_nat(t) as int;
    vstd::arithmetic::power2::lemma_pow2_pos(k);
    lemma_low_bits(s, k);
    lemma_low_bits(t, k);
    vstd::arithmetic::div_mod::lemma_add_mod_noop(a, b, p);
    vstd::arithmetic::div_mod::lemma_sub_mod_noop(a, b, p);
    lemma_from_int_mod(k, a + b, a % p + b % p);
    lemma_from_int_mod(k, a - b, a % p - b % p);
    assert(extract(bvadd(s, t), hi, 0) =~= from_int(k, a + b));
    assert(extract(bvsub(s, t), hi, 0) =~= from_int(k, a - b));
}

/// The number before a power of two has every bit below that power.
pub proof fn lemma_int_bit_ones(n: nat, i: nat)
    requires
        i < n,
    ensures
        int_bit(vstd::arithmetic::power2::pow2(n) - 1, i),
    decreases i,
{
    let m: nat = (n - 1) as nat;
    vstd::arithmetic::power2::lemma_pow2_unfold(n);
    vstd::arithmetic::power2::lemma_pow2_pos(m);
    let ones = vstd::arithmetic::power2::pow2(n) - 1;
    if i == 0 {
        vstd::arithmetic::power2::lemma2_to64();
        assert(ones / 1 == ones);
    } else {
        let j: nat = (i - 1) as nat;
        lemma_int_bit_shift(ones, j);
        assert(ones / 2 == vstd::arithmetic::power2::pow2(m) - 1);
        lemma_int_bit_ones(m, j);
    }
}

/// A bitvector without a bit is zero.
pub proof fn lemma_to_nat_zeros(len: nat)
    ensures
        to_nat(zeros(len)) == 0,
    decreases len,
{
    if len > 0 {
        lemma_to_nat_zeros((len - 1) as nat);
        assert(zeros(len).drop_first() =~= zeros((len - 1) as nat));
    }
}

/// If no bit is left under a mask of `n` ones, the number is a multiple of
/// two to the power `n`.
pub proof fn lemma_mask_multiple(s: Seq<bool>, n: nat)
    requires
        n <= s.len(),
        bvand(s, from_int(s.len(), vstd::arithmetic::power2::pow2(n) - 1)) == from_int(s.len(), 0),
    ensures
        to_nat(s) as int % (vstd::arithmetic::power2::pow2(n) as int) == 0,
{
    let mask = from_int(s.len(), vstd::arithmetic::power2::pow2(n) - 1);
    assert(s.subrange(0, n as int) =~= zeros(n)) by {
        assert forall|i: int| 0 <= i < n implies !#[trigger] s[i] by {
            lemma_int_bit_ones(n, i as nat);
            assert(bvand(s, mask)[i] == from_int(s.len(), 0)[i]);
            vstd::arithmetic::power2::lemma_pow2_pos(i as nat);
            vstd::arithmetic::div_mod::lemma_div_of0(
                vstd::arithmetic::power2::pow2(i as nat) as int,
            );
        }
    }
    lemma_low_bits(s, n);
    lemma_to_nat_zeros(n);
}

} // verus!
