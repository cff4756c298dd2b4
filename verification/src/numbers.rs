//! What bitvectors and texts stand for as numbers.

use crate::bv;
use crate::text;
use vstd::arithmetic::{div_mod, power2};
use vstd::prelude::*;

verus! {

/// A sum is the sum of the numbers, as far as it fits.
pub proof fn law_sum(s: Seq<bool>, t: Seq<bool>)
    requires
        s.len() == t.len(),
    ensures
        bv::bvadd(s, t).len() == s.len(),
        bv::to_nat(bv::bvadd(s, t)) == (bv::to_nat(s) + bv::to_nat(t)) % power2::pow2(s.len()),
        bv::bvadd(s, t) == bv::bvadd(t, s),
{
    bv::lemma_to_nat_from_int(s.len(), (bv::to_nat(s) + bv::to_nat(t)) as int);
}

/// What is subtracted and added again leaves what there was.
pub proof fn law_difference(s: Seq<bool>, t: Seq<bool>)
    requires
        s.len() == t.len(),
    ensures
        bv::bvsub(s, t).len() == s.len(),
        bv::bvadd(bv::bvsub(s, t), t) == s,
        bv::to_nat(t) <= bv::to_nat(s) ==> bv::to_nat(bv::bvsub(s, t)) == bv::to_nat(s)
            - bv::to_nat(t),
{
    let n = s.len();
    let p = power2::pow2(n) as int;
    let a = bv::to_nat(s) as int;
    let b = bv::to_nat(t) as int;
    power2::lemma_pow2_pos(n);
    bv::lemma_to_nat_bound(s);
    bv::lemma_to_nat_bound(t);
    bv::lemma_to_nat_from_int(n, a - b);
    law_sum(bv::bvsub(s, t), t);
    div_mod::lemma_add_mod_noop_right(b, a - b, p);
    div_mod::lemma_small_mod(a as nat, p as nat);
    bv::lemma_to_nat_injective(bv::bvadd(bv::bvsub(s, t), t), s);
    if b <= a {
        div_mod::lemma_small_mod((a - b) as nat, p as nat);
    }
}

/// A bitvector and its negation add up to zero.
pub proof fn law_negation(s: Seq<bool>)
    ensures
        bv::bvneg(s).len() == s.len(),
        bv::to_nat(bv::bvadd(s, bv::bvneg(s))) == 0,
{
    let p = power2::pow2(s.len()) as int;
    let a = bv::to_nat(s) as int;
    power2::lemma_pow2_pos(s.len());
    bv::lemma_to_nat_from_int(s.len(), -a);
    law_sum(s, bv::bvneg(s));
    div_mod::lemma_add_mod_noop_right(a, -a, p);
}

/// A bitvector and its complement add up to all ones.
pub proof fn law_complement(s: Seq<bool>)
    ensures
        bv::bvnot(s).len() == s.len(),
        bv::to_nat(s) + bv::to_nat(bv::bvnot(s)) == power2::pow2(s.len()) - 1,
        bv::bvnot(bv::bvnot(s)) == s,
    decreases s.len(),
{
    assert(bv::bvnot(bv::bvnot(s)) =~= s);
    power2::lemma2_to64();
    if s.len() > 0 {
        law_complement(s.drop_first());
        assert(bv::bvnot(s).drop_first() =~= bv::bvnot(s.drop_first()));
        power2::lemma_pow2_unfold(s.len());
    }
}

/// The bits that two bitvectors have in common and those that either has add
/// up to both of them; those that only one has are the rest. What is in common
/// is no more than either, and neither is more than what either has.
pub proof fn law_bitwise(s: Seq<bool>, t: Seq<bool>)
    requires
        s.len() == t.len(),
    ensures
        ({
            let both = bv::to_nat(bv::bvand(s, t));
            let either = bv::to_nat(bv::bvor(s, t));
            let one = bv::to_nat(bv::bvxor(s, t));
            &&& both + either == bv::to_nat(s) + bv::to_nat(t)
            &&& one + both == either
            &&& both <= bv::to_nat(s) <= either
            &&& both <= bv::to_nat(t) <= either
        }),
        bv::bvand(s, t).len() == s.len(),
        bv::bvor(s, t).len() == s.len(),
        bv::bvxor(s, t).len() == s.len(),
        bv::bvxor(bv::bvxor(s, t), t) == s,
        bv::bvand(s, s) == s,
        bv::bvor(s, s) == s,
        bv::bvnot(bv::bvand(s, t)) == bv::bvor(bv::bvnot(s), bv::bvnot(t)),
    decreases s.len(),
{
    assert(bv::bvxor(bv::bvxor(s, t), t) =~= s);
    assert(bv::bvand(s, s) =~= s);
    assert(bv::bvor(s, s) =~= s);
    assert(bv::bvnot(bv::bvand(s, t)) =~= bv::bvor(bv::bvnot(s), bv::bvnot(t)));
    if s.len() > 0 {
        let a = s.drop_first();
        let b = t.drop_first();
        law_bitwise(a, b);
        assert(bv::bvand(s, t).drop_first() =~= bv::bvand(a, b));
        assert(bv::bvor(s, t).drop_first() =~= bv::bvor(a, b));
        assert(bv::bvxor(s, t).drop_first() =~= bv::bvxor(a, b));
    }
}

/// In a concatenation the first bitvector stands above the second.
pub proof fn law_concatenation(s: Seq<bool>, t: Seq<bool>)
    ensures
        bv::concat(s, t).len() == s.len() + t.len(),
        bv::to_nat(bv::concat(s, t)) == bv::to_nat(s) * power2::pow2(t.len()) + bv::to_nat(t),
    decreases t.len(),
{
    power2::lemma2_to64();
    if t.len() == 0 {
        assert(bv::concat(s, t) =~= s);
    } else {
        let rest = t.drop_first();
        law_concatenation(s, rest);
        assert(bv::concat(s, t).drop_first() =~= bv::concat(s, rest));
        power2::lemma_pow2_unfold(t.len());
        let a = bv::to_nat(s) as int;
        let p = power2::pow2(rest.len()) as int;
        assert(2 * (a * p) == a * (2 * p)) by (nonlinear_arith);
    }
}

/// What stands above the `k` lowest bits is the quotient by two to the power
/// `k`, and these bits are the remainder.
proof fn lemma_split(s: Seq<bool>, k: nat)
    requires
        k <= s.len(),
    ensures
        bv::to_nat(s.skip(k as int)) == bv::to_nat(s) as int / power2::pow2(k) as int,
        bv::to_nat(s.take(k as int)) == bv::to_nat(s) as int % power2::pow2(k) as int,
{
    let high = s.skip(k as int);
    let low = s.take(k as int);
    power2::lemma_pow2_pos(k);
    law_concatenation(high, low);
    assert(bv::concat(high, low) =~= s);
    bv::lemma_to_nat_bound(low);
    let q = bv::to_nat(high) as int;
    let p = power2::pow2(k) as int;
    assert(q * p == p * q) by (nonlinear_arith);
    div_mod::lemma_div_multiples_vanish_fancy(q, bv::to_nat(low) as int, p);
    div_mod::lemma_fundamental_div_mod(bv::to_nat(s) as int, p);
}

/// An extraction gives the quotient by two to the power of the lowest bit, up
/// to as many bits as are extracted.
pub proof fn law_extraction(s: Seq<bool>, hi: int, lo: int)
    requires
        0 <= lo <= hi < s.len(),
    ensures
        bv::extract(s, hi, lo).len() == hi - lo + 1,
        bv::to_nat(bv::extract(s, hi, lo)) == (bv::to_nat(s) as int / power2::pow2(lo as nat) as int)
            % power2::pow2((hi - lo + 1) as nat) as int,
{
    let high = s.skip(lo);
    let w = (hi - lo + 1) as nat;
    assert(bv::extract(s, hi, lo) =~= high.take(w as int));
    lemma_split(s, lo as nat);
    lemma_split(high, w);
}

/// An extension with zeros stands for the same number.
pub proof fn law_zero_extension(s: Seq<bool>, k: nat)
    ensures
        bv::zero_extend(s, k).len() == s.len() + k,
        bv::to_nat(bv::zero_extend(s, k)) == bv::to_nat(s),
{
    assert(bv::zero_extend(s, k) =~= bv::concat(bv::zeros(k), s));
    law_concatenation(bv::zeros(k), s);
    bv::lemma_to_nat_zeros(k);
    assert(0 * power2::pow2(s.len()) == 0);
}

/// The number that a bitvector denotes when read as signed.
pub open spec fn to_signed(s: Seq<bool>) -> int {
    if s.len() > 0 && s.last() {
        bv::to_nat(s) - power2::pow2(s.len())
    } else {
        bv::to_nat(s) as int
    }
}

/// An extension with the sign stands for the same signed number.
pub proof fn law_sign_extension(s: Seq<bool>, k: nat)
    requires
        s.len() > 0,
    ensures
        bv::sign_extend(s, k).len() == s.len() + k,
        to_signed(bv::sign_extend(s, k)) == to_signed(s),
{
    let n = s.len();
    let r = bv::sign_extend(s, k);
    let sign = s.last();
    let above = Seq::new(k, |i: int| sign);
    assert(r =~= bv::concat(above, s));
    law_concatenation(above, s);
    power2::lemma_pow2_adds(k, n);
    if sign {
        assert(bv::bvnot(above) =~= bv::zeros(k));
        law_complement(above);
        bv::lemma_to_nat_zeros(k);
        let p = power2::pow2(n) as int;
        let q = power2::pow2(k) as int;
        assert((q - 1) * p == q * p - p) by (nonlinear_arith);
        if k > 0 {
            assert(r.last() == above.last());
        } else {
            assert(r =~= s);
        }
    } else {
        assert(above =~= bv::zeros(k));
        bv::lemma_to_nat_zeros(k);
        assert(0 * power2::pow2(n) == 0);
        if k > 0 {
            assert(r.last() == above.last());
        } else {
            assert(r =~= s);
        }
    }
}

/// A shift up multiplies by two to the power of the shift, as far as the
/// product fits.
pub proof fn law_shift_up(s: Seq<bool>, t: Seq<bool>)
    ensures
        bv::bvshl(s, t).len() == s.len(),
        bv::to_nat(bv::bvshl(s, t)) == (bv::to_nat(s) * power2::pow2(bv::to_nat(t))) as int % power2::pow2(
            s.len(),
        ) as int,
{
    let n = s.len();
    let k = bv::to_nat(t);
    let r = bv::bvshl(s, t);
    let a = bv::to_nat(s) as int;
    power2::lemma_pow2_pos(k);
    power2::lemma_pow2_pos(n);
    if k >= n {
        assert(r =~= bv::zeros(n));
        bv::lemma_to_nat_zeros(n);
        let d = (k - n) as nat;
        power2::lemma_pow2_adds(n, d);
        let p = power2::pow2(n) as int;
        let q = power2::pow2(d) as int;
        assert(a * (p * q) == p * (a * q) + 0) by (nonlinear_arith);
        div_mod::lemma_mod_multiples_vanish(a * q, 0, p);
        div_mod::lemma_small_mod(0, p as nat);
    } else {
        let d = (n - k) as nat;
        let low = s.take(d as int);
        assert(r =~= bv::concat(low, bv::zeros(k)));
        law_concatenation(low, bv::zeros(k));
        bv::lemma_to_nat_zeros(k);
        lemma_split(s, d);
        power2::lemma_pow2_adds(k, d);
        power2::lemma_pow2_pos(d);
        let p = power2::pow2(k) as int;
        div_mod::lemma_truncate_middle(a, p, power2::pow2(d) as int);
        assert(a * p == p * a) by (nonlinear_arith);
        let m = a % (power2::pow2(d) as int);
        assert(m * p == p * m) by (nonlinear_arith);
    }
}

/// A shift down divides by two to the power of the shift.
pub proof fn law_shift_down(s: Seq<bool>, t: Seq<bool>)
    ensures
        bv::bvlshr(s, t).len() == s.len(),
        bv::to_nat(bv::bvlshr(s, t)) == bv::to_nat(s) as int / power2::pow2(bv::to_nat(t)) as int,
{
    let n = s.len();
    let k = bv::to_nat(t);
    let r = bv::bvlshr(s, t);
    if k >= n {
        assert(r =~= bv::zeros(n));
        bv::lemma_to_nat_zeros(n);
        bv::lemma_to_nat_bound(s);
        if k > n {
            power2::lemma_pow2_strictly_increases(n, k);
        }
        div_mod::lemma_basic_div(bv::to_nat(s) as int, power2::pow2(k) as int);
    } else {
        let high = s.skip(k as int);
        assert(r =~= bv::zero_extend(high, k));
        law_zero_extension(high, k);
        lemma_split(s, k);
    }
}

/// Of two bitvectors of one length one is below the other, or they are the
/// same.
pub proof fn law_order(s: Seq<bool>, t: Seq<bool>)
    requires
        s.len() == t.len(),
    ensures
        bv::bvult(s, t) <==> bv::to_nat(s) < bv::to_nat(t),
        !(bv::bvult(s, t) && bv::bvult(t, s)),
        bv::bvult(s, t) || bv::bvult(t, s) || s == t,
{
    if bv::to_nat(s) == bv::to_nat(t) {
        bv::lemma_to_nat_injective(s, t);
    }
}

proof fn lemma_more_digits(s: Seq<char>, c: char, digit: spec_fn(char) -> Option<Seq<bool>>)
    ensures
        bv::digits(s.push(c), digit) == match (bv::digits(s, digit), digit(c)) {
            (Some(high), Some(low)) => Some(bv::concat(high, low)),
            _ => None,
        },
    decreases s.len(),
{
    let all = s.push(c);
    if s.len() == 0 {
        assert(all.drop_first() =~= seq![]);
        assert(bv::digits(all.drop_first(), digit) == Some(Seq::<bool>::empty()));
        if let Some(low) = digit(c) {
            assert(bv::concat(low, Seq::<bool>::empty()) =~= bv::concat(
                Seq::<bool>::empty(),
                low,
            ));
        }
    } else {
        let rest = s.drop_first();
        assert(all.drop_first() =~= rest.push(c));
        lemma_more_digits(rest, c, digit);
        if let (Some(first), Some(middle), Some(low)) = (
            digit(s[0]),
            bv::digits(rest, digit),
            digit(c),
        ) {
            assert(bv::concat(first, bv::concat(middle, low)) =~= bv::concat(
                bv::concat(first, middle),
                low,
            ));
        }
    }
}

/// One more hexadecimal digit behind a literal multiplies the number by
/// sixteen and adds the digit; one more binary digit doubles it and adds the
/// bit. Another character makes it no literal.
pub proof fn law_literal_digits(s: Seq<char>, c: char)
    requires
        bv::literal(s) is Some,
    ensures
        ({
            let longer = bv::literal(s.push(c));
            let n = bv::to_nat(bv::literal(s)->0);
            &&& s[1] == 'x' ==> match bv::hex_value(c) {
                Some(d) => longer matches Some(bits) && bits.len() == bv::literal(s)->0.len() + 4
                    && bv::to_nat(bits) == 16 * n + d,
                None => longer is None,
            }
            &&& s[1] != 'x' ==> match c {
                '0' => longer matches Some(bits) && bits.len() == bv::literal(s)->0.len() + 1
                    && bv::to_nat(bits) == 2 * n,
                '1' => longer matches Some(bits) && bits.len() == bv::literal(s)->0.len() + 1
                    && bv::to_nat(bits) == 2 * n + 1,
                _ => longer is None,
            }
        }),
{
    let bits = bv::literal(s)->0;
    assert(s.push(c).skip(2) =~= s.skip(2).push(c));
    power2::lemma2_to64();
    if s[1] == 'x' {
        lemma_more_digits(s.skip(2), c, |c: char| bv::hex_digit(c));
        if let Some(d) = bv::hex_value(c) {
            let low = bv::from_int(4, d);
            law_concatenation(bits, low);
            bv::lemma_to_nat_from_int(4, d);
            div_mod::lemma_small_mod(d as nat, 16);
            assert(bv::to_nat(bits) * power2::pow2(4) == bv::to_nat(bits) * 16);
        }
    } else {
        lemma_more_digits(s.skip(2), c, |c: char| bv::binary_digit(c));
        if c == '0' {
            law_concatenation(bits, seq![false]);
            assert(bv::to_nat(seq![false]) == 0) by {
                reveal_with_fuel(bv::to_nat, 2);
            }
            assert(bv::to_nat(bits) * power2::pow2(1) == bv::to_nat(bits) * 2);
        } else if c == '1' {
            law_concatenation(bits, seq![true]);
            assert(bv::to_nat(seq![true]) == 1) by {
                reveal_with_fuel(bv::to_nat, 2);
            }
            assert(bv::to_nat(bits) * power2::pow2(1) == bv::to_nat(bits) * 2);
        }
    }
}

/// A literal starts with a hash or a zero, followed by the letter for its
/// base, and has at least one digit.
pub proof fn law_literal_start(s: Seq<char>)
    ensures
        bv::literal(s) is Some ==> {
            &&& s.len() > 2
            &&& s[0] == '#' || s[0] == '0'
            &&& s[1] == 'x' || s[1] == 'b'
        },
        s.len() == 3 && (s[0] == '#' || s[0] == '0') && s[1] == 'x' ==> bv::literal(s)
            == bv::hex_digit(s[2]),
        s.len() == 3 && (s[0] == '#' || s[0] == '0') && s[1] == 'b' ==> bv::literal(s)
            == bv::binary_digit(s[2]),
{
    if s.len() == 3 && (s[0] == '#' || s[0] == '0') {
        let none: Seq<char> = seq![];
        assert(s.skip(2) =~= none.push(s[2]));
        lemma_more_digits(none, s[2], |c: char| bv::hex_digit(c));
        lemma_more_digits(none, s[2], |c: char| bv::binary_digit(c));
        if let Some(d) = bv::hex_digit(s[2]) {
            assert(bv::concat(Seq::<bool>::empty(), d) =~= d);
        }
        if let Some(d) = bv::binary_digit(s[2]) {
            assert(bv::concat(Seq::<bool>::empty(), d) =~= d);
        }
    }
}

/// The hexadecimal digits from zero on, in order and in either case.
pub proof fn law_hex_values()
    ensures
        bv::hex_value('0') == Some(0int),
        bv::hex_value('9') == Some(9int),
        bv::hex_value('a') == Some(10int),
        bv::hex_value('A') == Some(10int),
        bv::hex_value('f') == Some(15int),
        bv::hex_value('F') == Some(15int),
        forall|c: char, d: char|
            #![trigger bv::hex_value(c), bv::hex_value(d)]
            bv::hex_value(c) is Some && bv::hex_value(d) is Some && c as int + 1 == d as int
                ==> bv::hex_value(d)->0 == bv::hex_value(c)->0 + 1,
        forall|c: char| #[trigger] bv::hex_value(c) matches Some(n) ==> 0 <= n < 16,
{
}

proof fn lemma_last_digit(s: Seq<char>, c: char, acc: nat)
    ensures
        text::digits_value(s.push(c), acc) == match (
            text::digits_value(s, acc),
            text::digit_value(c),
        ) {
            (Some(n), Some(d)) => Some(10 * n + d),
            _ => None,
        },
    decreases s.len(),
{
    let all = s.push(c);
    if s.len() == 0 {
        assert(all.drop_first() =~= seq![]);
        reveal_with_fuel(text::digits_value, 2);
    } else {
        assert(all.drop_first() =~= s.drop_first().push(c));
        if let Some(d) = text::digit_value(s[0]) {
            lemma_last_digit(s.drop_first(), c, 10 * acc + d);
        }
    }
}

proof fn lemma_decimal(n: nat)
    ensures
        text::digits_value(text::decimal(n), 0) == Some(n),
        text::decimal(n).len() > 0,
        text::decimal(n)[0] != '+',
        text::decimal(n)[0] != '-',
    decreases n,
{
    if n < 10 {
        let none: Seq<char> = seq![];
        let d = text::digit(n as int);
        assert(text::decimal(n) =~= none.push(d));
        lemma_last_digit(none, d, 0);
    } else {
        lemma_decimal(n / 10);
        lemma_last_digit(text::decimal(n / 10), text::digit((n % 10) as int), 0);
    }
}

/// A number that is written in decimal is read as that number, with a plus
/// sign before it or without.
pub proof fn law_decimal_is_read_back(n: usize)
    ensures
        text::unsigned(text::decimal(n as nat)) == Some(n),
        text::unsigned(seq!['+'] + text::decimal(n as nat)) == Some(n),
        text::unsigned(seq!['-'] + text::decimal(n as nat)) is None,
{
    let s = text::decimal(n as nat);
    lemma_decimal(n as nat);
    assert((seq!['+'] + s).drop_first() =~= s);
}

/// One more digit behind a number multiplies it by ten and adds the digit.
/// Without digits, with another character, or past what can be held there is
/// no number.
pub proof fn law_numbers_are_read(s: Seq<char>, c: char, n: usize)
    requires
        text::unsigned(s) == Some(n),
    ensures
        ({
            let longer = text::unsigned(s.push(c));
            &&& '0' <= c <= '9' ==> {
                let m = 10 * n + (c as int - '0' as int);
                longer == if m <= usize::MAX {
                    Some(m as usize)
                } else {
                    None
                }
            }
            &&& !('0' <= c <= '9') ==> longer is None
        }),
        text::unsigned(seq![]) is None,
        text::unsigned(seq!['+']) is None,
{
    assert(seq!['+'].drop_first() =~= Seq::<char>::empty());
    if s[0] == '+' {
        assert(s.push(c).drop_first() =~= s.drop_first().push(c));
        lemma_last_digit(s.drop_first(), c, 0);
    } else {
        lemma_last_digit(s, c, 0);
    }
}

/// A number that is not negative is written as its digits, and a negative one
/// with a minus sign before those of its absolute value.
pub proof fn law_signs(n: nat)
    requires
        n > 0,
    ensures
        text::signed_decimal(n as int) == text::decimal(n),
        text::signed_decimal(-(n as int)) == seq!['-'] + text::decimal(n),
        text::signed_decimal(0) == seq!['0'],
{
    reveal_strlit("-");
    assert("-"@ =~= seq!['-']);
}

/// Whether all characters are white space, or none is.
pub open spec fn is_all(s: Seq<char>, space: bool) -> bool {
    forall|i: int| 0 <= i < s.len() ==> text::is_space(#[trigger] s[i]) == space
}

proof fn lemma_span(s: Seq<char>, t: Seq<char>, space: bool)
    requires
        is_all(s, space),
        t.len() > 0 ==> text::is_space(t[0]) != space,
    ensures
        text::span(s + t, space) == s.len(),
    decreases s.len(),
{
    let all = s + t;
    if s.len() == 0 {
        assert(all =~= t);
    } else {
        let rest = s.drop_first();
        assert(all.drop_first() =~= rest + t);
        assert(all[0] == s[0]);
        assert(is_all(rest, space)) by {
            assert forall|i: int| 0 <= i < rest.len() implies text::is_space(#[trigger] rest[i])
                == space by {
                assert(rest[i] == s[i + 1]);
            }
        }
        lemma_span(rest, t, space);
    }
}

/// The first word of a text is what stands between the white space at the
/// start and the next white space, and the further words are those of what
/// follows. In white space there is no word.
pub proof fn law_words(space: Seq<char>, w: Seq<char>, rest: Seq<char>, n: nat)
    requires
        is_all(space, true),
        is_all(w, false),
        w.len() > 0,
        rest.len() > 0 ==> text::is_space(rest[0]),
    ensures
        text::word(space + w + rest, 0) == Some(w),
        text::word(space + w + rest, n + 1) == text::word(rest, n),
        text::word(space, n) is None,
{
    let s = space + w + rest;
    let t = w + rest;
    assert(s =~= space + t);
    assert(t[0] == w[0]);
    lemma_span(space, t, true);
    assert(s.skip(space.len() as int) =~= t);
    lemma_span(w, rest, false);
    assert(t.take(w.len() as int) =~= w);
    assert(t.skip(w.len() as int) =~= rest);
    lemma_span(space, seq![], true);
    assert(space + Seq::<char>::empty() =~= space);
}

/// A line ends at a line feed, with or without a carriage return before it,
/// and the further lines are those of what follows. What follows the last line
/// feed is a line if there is anything.
pub proof fn law_lines(line: Seq<char>, rest: Seq<char>)
    requires
        forall|i: int| 0 <= i < line.len() ==> line[i] != '\n',
        line.len() > 0 ==> line.last() != '\r',
    ensures
        text::lines(line + seq!['\n'] + rest) == seq![line] + text::lines(rest),
        text::lines(line + seq!['\r', '\n'] + rest) == seq![line] + text::lines(rest),
        line.len() > 0 ==> text::lines(line) == seq![line],
        text::lines(seq![]).len() == 0,
{
    let unix = line + seq!['\n'] + rest;
    text::lemma_position_is(unix, '\n', line.len());
    assert(unix.take(line.len() as int) =~= line);
    assert(unix.skip(line.len() as int + 1) =~= rest);
    let dos = line + seq!['\r', '\n'] + rest;
    let n = line.len() + 1;
    assert(dos[n as int] == '\n');
    text::lemma_position_is(dos, '\n', n);
    assert(dos.take(n as int) =~= line.push('\r'));
    assert(line.push('\r').drop_last() =~= line);
    assert(dos.skip(n as int + 1) =~= rest);
    text::lemma_position_is(line, '\n', line.len());
}

/// A text that is filled up with dots has the width that is asked for, unless
/// it is wider, and has nothing but dots behind it.
pub proof fn law_dots(s: Seq<char>, width: nat)
    ensures
        ({
            let r = text::dotted(s, width);
            &&& r.len() == if s.len() < width {
                width
            } else {
                s.len()
            }
            &&& r.take(s.len() as int) == s
            &&& forall|i: int| s.len() <= i < r.len() ==> r[i] == '.'
        }),
    decreases width - s.len(),
{
    let r = text::dotted(s, width);
    if s.len() < width {
        let longer = s.push('.');
        law_dots(longer, width);
        assert(r.take(longer.len() as int).take(s.len() as int) =~= s);
        assert(r.take(s.len() as int) =~= s);
        assert(r[s.len() as int] == r.take(longer.len() as int)[s.len() as int]);
    } else {
        assert(r.take(s.len() as int) =~= s);
    }
}

/// A text begins with its own start, and with nothing else of that length.
pub proof fn law_beginnings(start: Seq<char>, rest: Seq<char>, other: Seq<char>)
    ensures
        text::begins_with(start + rest, start),
        other.len() == start.len() && text::begins_with(start + rest, other) ==> other == start,
        other.len() > start.len() ==> !text::begins_with(start, other),
{
    assert((start + rest).take(start.len() as int) =~= start);
}

/// Among the ASCII characters white space are the space and those from the
/// horizontal tab to the carriage return. No letter, digit or sign is white
/// space, and neither is any character above the ideographic space.
pub proof fn law_white_space(c: char)
    ensures
        (c as u32) < 0x80 ==> (text::is_space(c) <==> c == ' ' || 9 <= c as u32 <= 13),
        c as u32 > 0x3000 ==> !text::is_space(c),
        0x2000 <= c as u32 <= 0x200a ==> text::is_space(c),
        text::is_space(c) && 0x80 <= (c as u32) && (c as u32) < 0x2000 ==> c as u32 == 0x85 || c as u32 == 0xa0
            || c as u32 == 0x1680,
{
}

} // verus!
