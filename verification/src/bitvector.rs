//! Bitvectors of at most 64 bits, held in a machine word.

use crate::bv;
use vstd::prelude::*;

verus! {

/// A bitvector of `len` bits, the least significant bit of `bits` first.
#[derive(Clone, Copy, Debug, PartialEq, Eq, Structural)]
pub struct B64 {
    len: u32,
    bits: u64,
}

impl View for B64 {
    type V = Seq<bool>;

    closed spec fn view(&self) -> Seq<bool> {
        bv::from_int(self.len as nat, self.bits as int)
    }
}

impl B64 {
    /// At most 64 bits, and none set past the length.
    #[verifier::type_invariant]
    spec fn wf(self) -> bool {
        self.len <= 64 && self.bits < vstd::arithmetic::power2::pow2(self.len as nat)
    }

    /// A well-formed bitvector denotes the number in its word.
    proof fn lemma_value(self)
        requires
            self.wf(),
        ensures
            bv::to_nat(self@) == self.bits,
            self@.len() == self.len,
    {
        bv::lemma_to_nat_from_int(self.len as nat, self.bits as int);
        vstd::arithmetic::div_mod::lemma_small_mod(
            self.bits as nat,
            vstd::arithmetic::power2::pow2(self.len as nat),
        );
    }

    /// The bitvector with the given bits.
    pub closed spec fn of(s: Seq<bool>) -> B64 {
        B64 { len: s.len() as u32, bits: bv::to_nat(s) as u64 }
    }

    /// `of` gives a bitvector with the bits that it was given.
    pub proof fn lemma_of(s: Seq<bool>)
        requires
            s.len() <= 64,
        ensures
            B64::of(s)@ == s,
    {
        bv::lemma_to_nat_bound(s);
        vstd::arithmetic::power2::lemma2_to64();
        vstd::arithmetic::power2::lemma2_to64_rest();
        if s.len() < 64 {
            vstd::arithmetic::power2::lemma_pow2_strictly_increases(s.len(), 64);
        }
        bv::lemma_from_int_to_nat(s);
    }

    /// Whether two bitvectors have the same bits.
    pub fn same(self, other: B64) -> (r: bool)
        ensures
            r == (self@ == other@),
    {
        proof {
            use_type_invariant(self);
            use_type_invariant(other);
            self.lemma_value();
            other.lemma_value();
        }
        self.len == other.len && self.bits == other.bits
    }

    /// The bitvector of length `len` that holds the low bits of `bits`.
    pub fn new(bits: u64, len: u32) -> (r: B64)
        requires
            len <= 64,
        ensures
            r@ == bv::from_int(len as nat, bits as int),
            r == B64::of(r@),
    {
        let low = bits & low_mask(len);
        proof {
            lemma_mask_mod(bits, len);
            vstd::arithmetic::power2::lemma_pow2_pos(len as nat);
            vstd::arithmetic::div_mod::lemma_mod_bound(
                bits as int,
                vstd::arithmetic::power2::pow2(len as nat) as int,
            );
            vstd::arithmetic::div_mod::lemma_mod_twice(
                bits as int,
                vstd::arithmetic::power2::pow2(len as nat) as int,
            );
            bv::lemma_from_int_mod(len as nat, low as int, bits as int);
        }
        let r = B64 { len, bits: low };
        proof {
            r.lemma_value();
        }
        r
    }

    /// The 64 bits of a word.
    pub fn from_u64(bits: u64) -> (r: B64)
        ensures
            r@ == bv::from_int(64, bits as int),
    {
        proof {
            vstd::arithmetic::power2::lemma2_to64_rest();
        }
        B64 { len: 64, bits }
    }

    pub fn zeros(len: u32) -> (r: B64)
        requires
            len <= 64,
        ensures
            r@ == bv::zeros(len as nat),
    {
        proof {
            vstd::arithmetic::power2::lemma_pow2_pos(len as nat);
        }
        let r = B64 { len, bits: 0 };
        proof {
            assert forall|i: int| 0 <= i < len implies r@[i] == bv::zeros(
                len as nat,
            )[i] by {
                vstd::arithmetic::power2::lemma_pow2_pos(i as nat);
                vstd::arithmetic::div_mod::lemma_div_of0(
                    vstd::arithmetic::power2::pow2(i as nat) as int,
                );
            }
            assert(r@ =~= bv::zeros(len as nat));
        }
        r
    }

    /// The number of bits.
    pub fn len(self) -> (r: u32)
        ensures
            r == self@.len(),
            r <= 64,
    {
        proof {
            use_type_invariant(self);
        }
        self.len
    }

    /// The bits as a word.
    pub fn lower_u64(self) -> (r: u64)
        ensures
            r == bv::to_nat(self@),
    {
        proof {
            use_type_invariant(self);
        }
        proof {
            use_type_invariant(self);
            self.lemma_value();
        }
        self.bits
    }

    pub fn not(self) -> (r: B64)
        ensures
            r@ == bv::bvnot(self@),
    {
        proof {
            use_type_invariant(self);
        }
        let r = B64::new(!self.bits, self.len);
        proof {
            let x = self.bits;
            assert forall|i: int| 0 <= i < self.len implies r@[i] == bv::bvnot(self@)[i] by {
                let k = i as u64;
                lemma_bit(x, k);
                lemma_bit(!x, k);
                assert(((!x) >> k) & 1 == 1 <==> !((x >> k) & 1 == 1)) by (bit_vector)
                    requires
                        k < 64,
                ;
            }
            assert(r@ =~= bv::bvnot(self@));
        }
        r
    }

    pub fn bitand(self, rhs: B64) -> (r: B64)
        ensures
            r@ == bv::bvand(self@, rhs@),
    {
        proof {
            use_type_invariant(self);
            use_type_invariant(rhs);
        }
        let r = B64::new(self.bits & rhs.bits, self.len);
        proof {
            let x = self.bits;
            let y = rhs.bits;
            assert forall|i: int| 0 <= i < self.len implies r@[i] == bv::bvand(self@, rhs@)[i] by {
                let k = i as u64;
                lemma_bit(x, k);
                lemma_bit(x & y, k);
                rhs.lemma_bit_at(k);
                assert(((x & y) >> k) & 1 == 1 <==> (x >> k) & 1 == 1 && (y >> k) & 1 == 1)
                    by (bit_vector);
            }
            assert(r@ =~= bv::bvand(self@, rhs@));
        }
        r
    }

    pub fn bitor(self, rhs: B64) -> (r: B64)
        ensures
            r@ == bv::bvor(self@, rhs@),
    {
        proof {
            use_type_invariant(self);
            use_type_invariant(rhs);
        }
        let r = B64::new(self.bits | rhs.bits, self.len);
        proof {
            let x = self.bits;
            let y = rhs.bits;
            assert forall|i: int| 0 <= i < self.len implies r@[i] == bv::bvor(self@, rhs@)[i] by {
                let k = i as u64;
                lemma_bit(x, k);
                lemma_bit(x | y, k);
                rhs.lemma_bit_at(k);
                assert(((x | y) >> k) & 1 == 1 <==> (x >> k) & 1 == 1 || (y >> k) & 1 == 1)
                    by (bit_vector);
            }
            assert(r@ =~= bv::bvor(self@, rhs@));
        }
        r
    }

    pub fn bitxor(self, rhs: B64) -> (r: B64)
        ensures
            r@ == bv::bvxor(self@, rhs@),
    {
        proof {
            use_type_invariant(self);
            use_type_invariant(rhs);
        }
        let r = B64::new(self.bits ^ rhs.bits, self.len);
        proof {
            let x = self.bits;
            let y = rhs.bits;
            assert forall|i: int| 0 <= i < self.len implies r@[i] == bv::bvxor(self@, rhs@)[i] by {
                let k = i as u64;
                lemma_bit(x, k);
                lemma_bit(x ^ y, k);
                rhs.lemma_bit_at(k);
                assert(((x ^ y) >> k) & 1 == 1 <==> ((x >> k) & 1 == 1) != ((y >> k) & 1 == 1))
                    by (bit_vector);
            }
            assert(r@ =~= bv::bvxor(self@, rhs@));
        }
        r
    }

    /// Addition modulo two to the power of the length of `self`.
    pub fn add(self, rhs: B64) -> (r: B64)
        ensures
            r@ == bv::bvadd(self@, rhs@),
    {
        proof {
            use_type_invariant(self);
            use_type_invariant(rhs);
        }
        let sum = self.bits.wrapping_add(rhs.bits);
        let r = B64::new(sum, self.len);
        proof {
            self.lemma_value();
            rhs.lemma_value();
            let n = (self.bits + rhs.bits) as int;
            lemma_word_mod(n, self.len);
            bv::lemma_from_int_mod(self.len as nat, sum as int, n);
        }
        r
    }

    /// Subtraction modulo two to the power of the length of `self`.
    pub fn sub(self, rhs: B64) -> (r: B64)
        ensures
            r@ == bv::bvsub(self@, rhs@),
    {
        proof {
            use_type_invariant(self);
            use_type_invariant(rhs);
        }
        let diff = self.bits.wrapping_sub(rhs.bits);
        let r = B64::new(diff, self.len);
        proof {
            self.lemma_value();
            rhs.lemma_value();
            let n = self.bits - rhs.bits;
            lemma_word_mod(n, self.len);
            bv::lemma_from_int_mod(self.len as nat, diff as int, n);
        }
        r
    }

    /// Shift left; a shift by the length or more leaves no bit.
    pub fn shl(self, rhs: B64) -> (r: B64)
        ensures
            r@ == bv::bvshl(self@, rhs@),
    {
        proof {
            use_type_invariant(self);
            use_type_invariant(rhs);
        }
        proof {
            rhs.lemma_value();
        }
        if rhs.bits < self.len as u64 {
            let r = B64::new(self.bits << rhs.bits, self.len);
            proof {
                let x = self.bits;
                let s = rhs.bits;
                assert forall|i: int| 0 <= i < self.len implies r@[i] == bv::bvshl(
                    self@,
                    rhs@,
                )[i] by {
                    let k = i as u64;
                    lemma_bit(x << s, k);
                    if k >= s {
                        let d = (k - s) as u64;
                        lemma_bit(x, d);
                        assert(((x << s) >> k) & 1 == (x >> d) & 1) by (bit_vector)
                            requires
                                s <= k < 64,
                                d == k - s,
                        ;
                    } else {
                        assert(((x << s) >> k) & 1 == 0) by (bit_vector)
                            requires
                                k < s < 64,
                        ;
                    }
                }
                assert(r@ =~= bv::bvshl(self@, rhs@));
            }
            r
        } else {
            let r = B64::zeros(self.len);
            assert(r@ =~= bv::bvshl(self@, rhs@));
            r
        }
    }

    /// Logical shift right; a shift by the length or more leaves no bit.
    pub fn shr(self, rhs: B64) -> (r: B64)
        ensures
            r@ == bv::bvlshr(self@, rhs@),
    {
        proof {
            use_type_invariant(self);
            use_type_invariant(rhs);
        }
        proof {
            rhs.lemma_value();
        }
        if rhs.bits < self.len as u64 {
            let r = B64::new(self.bits >> rhs.bits, self.len);
            proof {
                let x = self.bits;
                let s = rhs.bits;
                assert forall|i: int| 0 <= i < self.len implies r@[i] == bv::bvlshr(
                    self@,
                    rhs@,
                )[i] by {
                    let k = i as u64;
                    lemma_bit(x >> s, k);
                    let d = (k + s) as u64;
                    if d < 64 {
                        self.lemma_bit_at(d);
                        assert(((x >> s) >> k) & 1 == (x >> d) & 1) by (bit_vector)
                            requires
                                s < 64,
                                k < 64,
                                d == k + s,
                                d < 64,
                        ;
                    } else {
                        assert(((x >> s) >> k) & 1 == 0) by (bit_vector)
                            requires
                                s < 64,
                                k < 64,
                                k + s >= 64,
                        ;
                    }
                }
                assert(r@ =~= bv::bvlshr(self@, rhs@));
            }
            r
        } else {
            let r = B64::zeros(self.len);
            assert(r@ =~= bv::bvlshr(self@, rhs@));
            r
        }
    }

    /// Bits `high` down to `low`, if both lie within the bitvector.
    pub fn extract(self, high: u32, low: u32) -> (r: Option<B64>)
        ensures
            r is Some <==> low <= high < self@.len(),
            r matches Some(b) ==> b@ == bv::extract(self@, high as int, low as int),
    {
        proof {
            use_type_invariant(self);
        }
        if low <= high && high < self.len {
            let r = B64::new(self.bits >> (low as u64), high - low + 1);
            proof {
                let x = self.bits;
                let s = low as u64;
                let t = bv::extract(self@, high as int, low as int);
                assert forall|i: int| 0 <= i < t.len() implies r@[i] == t[i] by {
                    let k = i as u64;
                    let d = (k + s) as u64;
                    lemma_bit(x >> s, k);
                    lemma_bit(x, d);
                    assert(((x >> s) >> k) & 1 == (x >> d) & 1) by (bit_vector)
                        requires
                            s < 64,
                            k < 64,
                            d == k + s,
                            d < 64,
                    ;
                }
                assert(r@ =~= t);
            }
            Some(r)
        } else {
            None
        }
    }

    pub fn zero_extend(self, new_len: u32) -> (r: B64)
        requires
            self@.len() <= new_len <= 64,
        ensures
            r@ == bv::zero_extend(self@, (new_len - self@.len()) as nat),
    {
        proof {
            use_type_invariant(self);
        }
        let r = B64::new(self.bits, new_len);
        proof {
            let t = bv::zero_extend(self@, (new_len - self.len) as nat);
            assert forall|i: int| 0 <= i < new_len implies r@[i] == t[i] by {
                if i >= self.len {
                    bv::lemma_int_bit_high(self.bits as nat, self.len as nat, i as nat);
                }
            }
            assert(r@ =~= t);
        }
        r
    }

    pub fn sign_extend(self, new_len: u32) -> (r: B64)
        requires
            self@.len() <= new_len <= 64,
        ensures
            r@ == bv::sign_extend(self@, (new_len - self@.len()) as nat),
    {
        proof {
            use_type_invariant(self);
        }
        if self.len > 0 && self.bit(self.len - 1) {
            let high = !low_mask(self.len);
            let r = B64::new(self.bits | high, new_len);
            proof {
                let x = self.bits;
                let n = self.len as u64;
                let t = bv::sign_extend(self@, (new_len - self.len) as nat);
                assert forall|i: int| 0 <= i < new_len implies r@[i] == t[i] by {
                    let k = i as u64;
                    lemma_bit(x | high, k);
                    lemma_mask_bit(self.len, k);
                    let m = !high;
                    assert(!(!low_mask_spec(self.len)) == low_mask_spec(self.len)) by {
                        let v = low_mask_spec(self.len);
                        assert(!(!v) == v) by (bit_vector);
                    }
                    assert(((x | high) >> k) & 1 == 1 <==> (x >> k) & 1 == 1 || !((m >> k) & 1
                        == 1)) by (bit_vector)
                        requires
                            m == !high,
                            k < 64,
                    ;
                    if i < self.len {
                        lemma_bit(x, k);
                    }
                }
                assert(r@ =~= t);
            }
            r
        } else {
            let r = self.zero_extend(new_len);
            assert(r@ =~= bv::sign_extend(self@, (new_len - self.len) as nat));
            r
        }
    }

    /// The bit at position `i`.
    pub fn bit(self, i: u32) -> (r: bool)
        requires
            i < self@.len(),
        ensures
            r == self@[i as int],
    {
        proof {
            use_type_invariant(self);
        }
        proof {
            lemma_bit(self.bits, i as u64);
        }
        (self.bits >> (i as u64)) & 1 == 1
    }

    /// The bitvector with the bit at position `i` set.
    pub fn set_bit(self, i: u32) -> (r: B64)
        requires
            i < self@.len(),
        ensures
            r@ == self@.update(i as int, true),
    {
        proof {
            use_type_invariant(self);
        }
        let r = B64::new(self.bits | (1u64 << (i as u64)), self.len);
        proof {
            let x = self.bits;
            let j = i as u64;
            assert forall|p: int| 0 <= p < self.len implies r@[p] == self@.update(
                i as int,
                true,
            )[p] by {
                let k = p as u64;
                lemma_bit(x | (1u64 << j), k);
                lemma_bit(x, k);
                assert(((x | (1u64 << j)) >> k) & 1 == 1 <==> (x >> k) & 1 == 1 || k == j)
                    by (bit_vector)
                    requires
                        k < 64,
                        j < 64,
                ;
            }
            assert(r@ =~= self@.update(i as int, true));
        }
        r
    }

    proof fn lemma_bit_at(self, k: u64)
        requires
            self.wf(),
            k < 64,
        ensures
            bv::bit_at(self@, k as int) == ((self.bits >> k) & 1 == 1),
    {
        lemma_bit(self.bits, k);
        if k >= self.len {
            bv::lemma_int_bit_high(self.bits as nat, self.len as nat, k as nat);
        }
    }
}

/// The word whose `len` low bits are set.
spec fn low_mask_spec(len: u32) -> u64 {
    if len == 64 {
        u64::MAX
    } else {
        ((1u64 << (len as u64)) - 1) as u64
    }
}

fn low_mask(len: u32) -> (r: u64)
    requires
        len <= 64,
    ensures
        r == low_mask_spec(len),
{
    if len == 64 {
        u64::MAX
    } else {
        let n = len as u64;
        assert(1u64 << n >= 1) by (bit_vector)
            requires
                n < 64,
        ;
        (1u64 << n) - 1
    }
}

proof fn lemma_mask_mod(x: u64, len: u32)
    requires
        len <= 64,
    ensures
        (x & low_mask_spec(len)) == x as nat % vstd::arithmetic::power2::pow2(len as nat),
{
    if len == 64 {
        vstd::arithmetic::power2::lemma2_to64_rest();
        assert(x & 0xffff_ffff_ffff_ffff == x) by (bit_vector);
        vstd::arithmetic::div_mod::lemma_small_mod(
            x as nat,
            vstd::arithmetic::power2::pow2(64),
        );
    } else {
        vstd::bits::lemma_u64_low_bits_mask_is_mod(x, len as nat);
        vstd::bits::lemma_u64_pow2_no_overflow(len as nat);
        vstd::bits::lemma_u64_shl_is_mul(1, len as u64);
    }
}

proof fn lemma_mask_bit(len: u32, k: u64)
    requires
        len <= 64,
        k < 64,
    ensures
        ((low_mask_spec(len) >> k) & 1 == 1) <==> k < len,
{
    if len == 64 {
        assert((0xffff_ffff_ffff_ffffu64 >> k) & 1 == 1) by (bit_vector)
            requires
                k < 64,
        ;
    } else {
        let n = len as u64;
        let m = low_mask_spec(len);
        assert(1u64 << n >= 1) by (bit_vector)
            requires
                n < 64,
        ;
        assert(((m >> k) & 1 == 1) <==> k < n) by (bit_vector)
            requires
                m == (1u64 << n) - 1,
                n < 64,
                k < 64,
        ;
    }
}

/// Reducing modulo two to the power 64 first does not change the low bits.
proof fn lemma_word_mod(n: int, len: u32)
    requires
        len <= 64,
    ensures
        (n % 0x1_0000_0000_0000_0000) % (vstd::arithmetic::power2::pow2(len as nat) as int) == n % (
        vstd::arithmetic::power2::pow2(len as nat) as int),
{
    let rest = (64 - len) as nat;
    vstd::arithmetic::power2::lemma2_to64_rest();
    vstd::arithmetic::power2::lemma_pow2_adds(len as nat, rest);
    vstd::arithmetic::power2::lemma_pow2_pos(len as nat);
    vstd::arithmetic::power2::lemma_pow2_pos(rest);
    vstd::arithmetic::div_mod::lemma_mod_mod(
        n,
        vstd::arithmetic::power2::pow2(len as nat) as int,
        vstd::arithmetic::power2::pow2(rest) as int,
    );
}

/// The bit of a word, read by shifting and as a digit of the number.
proof fn lemma_bit(x: u64, k: u64)
    requires
        k < 64,
    ensures
        bv::int_bit(x as int, k as nat) == ((x >> k) & 1 == 1),
{
    vstd::bits::lemma_u64_shr_is_div(x, k);
    let y = x >> k;
    assert(y & 1 == y % 2) by (bit_vector);
}

/// A bitvector of any length: in a word where it fits, and bit by bit, the
/// least significant one first, where it does not.
pub enum ParsedBits {
    Short(B64),
    Long(Vec<bool>),
}

impl ParsedBits {
    pub open spec fn bits(self) -> Seq<bool> {
        match self {
            ParsedBits::Short(b) => b@,
            ParsedBits::Long(v) => v@,
        }
    }
}

/// The value of a hexadecimal digit.
fn hex_value(c: char) -> (r: Option<u8>)
    ensures
        bv::hex_value(c) == (match r {
            Some(n) => Some(n as int),
            None => None,
        }),
        r matches Some(n) ==> n < 16,
{
    if '0' <= c && c <= '9' {
        Some(c as u8 - '0' as u8)
    } else if 'a' <= c && c <= 'f' {
        Some(c as u8 - 'a' as u8 + 10)
    } else if 'A' <= c && c <= 'F' {
        Some(c as u8 - 'A' as u8 + 10)
    } else {
        None
    }
}

impl B64 {
    /// A bitvector of at most 64 bits, from its bits.
    pub fn from_bits(bits: &Vec<bool>) -> (r: B64)
        requires
            bits@.len() <= 64,
        ensures
            r@ == bits@,
    {
        let n = bits.len() as u32;
        let mut r = B64::zeros(n);
        let mut i: u32 = 0;
        while i < n
            invariant
                n == bits@.len(),
                n <= 64,
                i <= n,
                r@.len() == n,
                forall|j: int| 0 <= j < i ==> r@[j] == bits@[j],
                forall|j: int| i <= j < n ==> !r@[j],
            decreases n - i,
        {
            if bits[i as usize] {
                r = r.set_bit(i);
            }
            i = i + 1;
        }
        assert(r@ =~= bits@);
        r
    }

    /// The bitvector that a literal such as `#b1010` or `0xFF` spells.
    pub fn from_str_long(s: &str) -> (r: Option<ParsedBits>)
        ensures
            r is Some <==> bv::literal(s@) is Some,
            r matches Some(p) ==> p.bits() == bv::literal(s@)->0,
            r matches Some(ParsedBits::Short(b)) ==> b@.len() <= 64,
            r matches Some(ParsedBits::Long(v)) ==> v@.len() > 64,
    {
        let n = s.unicode_len();
        if n <= 2 {
            return None;
        }
        let first = s.get_char(0);
        if first != '#' && first != '0' {
            return None;
        }
        let base = s.get_char(1);
        if base != 'x' && base != 'b' {
            return None;
        }
        let hex = base == 'x';
        let ghost digit = if hex {
            |c: char| bv::hex_digit(c)
        } else {
            |c: char| bv::binary_digit(c)
        };
        let mut bits: Vec<bool> = Vec::new();
        let mut i: usize = n;
        assert(s@.skip(n as int) =~= seq![]);
        while i > 2
            invariant
                2 <= i <= n,
                n == s@.len(),
                bv::digits(s@.skip(i as int), digit) == Some(bits@),
                hex ==> digit == (|c: char| bv::hex_digit(c)),
                !hex ==> digit == (|c: char| bv::binary_digit(c)),
                bv::literal(s@) == bv::digits(s@.skip(2), digit),
            decreases i,
        {
            let c = s.get_char(i - 1);
            let ghost rest = s@.skip(i as int);
            let ghost longer = s@.skip(i - 1);
            assert(longer.drop_first() =~= rest);
            assert(longer[0] == c);
            let ghost low = bits@;
            if hex {
                match hex_value(c) {
                    Some(v) => {
                        let nibble = B64::new(v as u64, 4);
                        bits.push(nibble.bit(0));
                        bits.push(nibble.bit(1));
                        bits.push(nibble.bit(2));
                        bits.push(nibble.bit(3));
                        assert(bits@ =~= bv::concat(bv::from_int(4, v as int), low));
                    },
                    None => {
                        proof {
                            lemma_bad_digit(s@.skip(2), i - 3, digit);
                        }
                        return None;
                    },
                }
            } else if c == '0' {
                bits.push(false);
                assert(bits@ =~= bv::concat(seq![false], low));
            } else if c == '1' {
                bits.push(true);
                assert(bits@ =~= bv::concat(seq![true], low));
            } else {
                proof {
                    lemma_bad_digit(s@.skip(2), i - 3, digit);
                }
                return None;
            }
            i = i - 1;
        }
        if bits.len() <= 64 {
            Some(ParsedBits::Short(B64::from_bits(&bits)))
        } else {
            Some(ParsedBits::Long(bits))
        }
    }
}

/// A character that is no digit spoils the whole sequence.
proof fn lemma_bad_digit(s: Seq<char>, i: int, digit: spec_fn(char) -> Option<Seq<bool>>)
    requires
        0 <= i < s.len(),
        digit(s[i]) is None,
    ensures
        bv::digits(s, digit) is None,
    decreases s.len(),
{
    if i > 0 {
        lemma_bad_digit(s.drop_first(), i - 1, digit);
    }
}

} // verus!
