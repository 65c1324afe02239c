//! `U128`: an unsigned 128-bit value with checked arithmetic.
use vstd::prelude::*;

use crate::bytes::{decode_le, encode_le, le_value};
use crate::signed::{as_signed, I128};

verus! {

/// 2^128, one past the largest `U128`.
pub open spec fn two_pow_128() -> nat {
    u128::MAX as nat + 1
}

/// An unsigned 128-bit integer.
#[derive(Clone, Copy, PartialEq, Eq, Structural, PartialOrd, Ord, Debug)]
pub struct U128(u128);

impl View for U128 {
    type V = nat;

    closed spec fn view(&self) -> nat {
        self.0 as nat
    }
}

/// The character of a decimal digit.
pub open spec fn digit_char(d: nat) -> char {
    ('0' as nat + d) as char
}

/// The decimal digits of `n`, most significant first, without leading zeros.
pub open spec fn decimal(n: nat) -> Seq<char>
    decreases n,
{
    if n < 10 {
        seq![digit_char(n)]
    } else {
        decimal(n / 10).push(digit_char(n % 10))
    }
}

/// Relies on std's `Display` for `u128`: its decimal digits, with no sign,
/// padding or separators.
#[verifier::external_body]
fn decimal_string(v: u128) -> (r: String)
    ensures
        r@ == decimal(v as nat),
{
    v.to_string()
}

/// The sum of the values of a sequence, added from the left.
pub open spec fn seq_sum(s: Seq<U128>) -> nat
    decreases s.len(),
{
    if s.len() == 0 {
        0
    } else {
        seq_sum(s.drop_last()) + s.last()@
    }
}

impl U128 {
    /// Every value lies below 2^128.
    pub proof fn lemma_range(self)
        ensures
            self@ < two_pow_128(),
    {
    }

    /// Two values are equal exactly where their numbers are.
    pub proof fn lemma_view_injective(self, other: U128)
        ensures
            (self@ == other@) <==> (self == other),
    {
    }

    pub fn new(val: u128) -> (r: U128)
        ensures
            r@ == val,
    {
        U128(val)
    }

    pub fn from_le_bytes(bs: [u8; 16]) -> (r: U128)
        ensures
            r@ == le_value(bs@),
    {
        U128(decode_le(bs))
    }

    pub fn is_zero(self) -> (r: bool)
        ensures
            r == (self@ == 0),
    {
        self.0 == 0
    }

    pub fn to_le_bytes(self) -> (r: [u8; 16])
        ensures
            r@.len() == 16,
            le_value(r@) == self@,
    {
        encode_le(self.0)
    }

    /// The value in decimal, as `Display` shows it.
    pub fn to_string(&self) -> (r: String)
        ensures
            r@ == decimal(self@),
    {
        decimal_string(self.0)
    }

    pub fn raw(self) -> (r: u128)
        ensures
            r == self@,
    {
        self.0
    }

    /// The same 128 bits read as a two's-complement signed value.
    pub fn to_i128(self) -> (r: I128)
        ensures
            r@ == as_signed(self@ as int),
    {
        if self.0 <= 0x7fff_ffff_ffff_ffff_ffff_ffff_ffff_ffff {
            I128::new(self.0 as i128)
        } else {
            let below: u128 = u128::MAX - self.0;
            I128::new(-(below as i128) - 1)
        }
    }

    /// `self + rhs`, or `None` where the sum exceeds `u128::MAX`.
    pub fn checked_add(self, rhs: U128) -> (r: Option<U128>)
        ensures
            r matches Some(v) <==> self@ + rhs@ < two_pow_128(),
            r matches Some(v) ==> v@ == self@ + rhs@,
    {
        match self.0.checked_add(rhs.0) {
            Some(v) => Some(U128(v)),
            None => None,
        }
    }

    /// `self - rhs`, or `None` where `rhs` exceeds `self`.
    pub fn checked_sub(self, rhs: U128) -> (r: Option<U128>)
        ensures
            r matches Some(v) <==> rhs@ <= self@,
            r matches Some(v) ==> v@ == self@ - rhs@,
    {
        match self.0.checked_sub(rhs.0) {
            Some(v) => Some(U128(v)),
            None => None,
        }
    }

    /// `self * rhs`, or `None` where the product exceeds `u128::MAX`.
    pub fn checked_mul(self, rhs: U128) -> (r: Option<U128>)
        ensures
            r matches Some(v) <==> self@ * rhs@ < two_pow_128(),
            r matches Some(v) ==> v@ == self@ * rhs@,
    {
        match self.0.checked_mul(rhs.0) {
            Some(v) => Some(U128(v)),
            None => None,
        }
    }

    /// `self / rhs` rounded down, or `None` where `rhs` is zero.
    pub fn checked_div(self, rhs: U128) -> (r: Option<U128>)
        ensures
            r matches Some(v) <==> rhs@ != 0,
            r matches Some(v) ==> v@ == self@ / rhs@,
    {
        match self.0.checked_div(rhs.0) {
            Some(v) => Some(U128(v)),
            None => None,
        }
    }

    pub fn add(self, rhs: U128) -> (r: U128)
        requires
            self@ + rhs@ < two_pow_128(),
        ensures
            r@ == self@ + rhs@,
    {
        U128(self.0 + rhs.0)
    }

    pub fn sub(self, rhs: U128) -> (r: U128)
        requires
            rhs@ <= self@,
        ensures
            r@ == self@ - rhs@,
    {
        U128(self.0 - rhs.0)
    }

    pub fn mul(self, rhs: U128) -> (r: U128)
        requires
            self@ * rhs@ < two_pow_128(),
        ensures
            r@ == self@ * rhs@,
    {
        U128(self.0 * rhs.0)
    }

    pub fn div(self, rhs: U128) -> (r: U128)
        requires
            rhs@ != 0,
        ensures
            r@ == self@ / rhs@,
    {
        U128(self.0 / rhs.0)
    }

    pub fn add_assign(&mut self, rhs: U128)
        requires
            old(self)@ + rhs@ < two_pow_128(),
        ensures
            final(self)@ == old(self)@ + rhs@,
    {
        self.0 = self.0 + rhs.0;
    }

    pub fn sub_assign(&mut self, rhs: U128)
        requires
            rhs@ <= old(self)@,
        ensures
            final(self)@ == old(self)@ - rhs@,
    {
        self.0 = self.0 - rhs.0;
    }

    /// As `add`, with a primitive right operand.
    pub fn add_raw(self, rhs: u128) -> (r: U128)
        requires
            self@ + rhs < two_pow_128(),
        ensures
            r@ == self@ + rhs,
    {
        self.add(U128(rhs))
    }

    /// As `sub`, with a primitive right operand.
    pub fn sub_raw(self, rhs: u128) -> (r: U128)
        requires
            rhs <= self@,
        ensures
            r@ == self@ - rhs,
    {
        self.sub(U128(rhs))
    }

    /// As `mul`, with a primitive right operand.
    pub fn mul_raw(self, rhs: u128) -> (r: U128)
        requires
            self@ * rhs < two_pow_128(),
        ensures
            r@ == self@ * rhs,
    {
        self.mul(U128(rhs))
    }

    /// As `div`, with a primitive right operand.
    pub fn div_raw(self, rhs: u128) -> (r: U128)
        requires
            rhs != 0,
        ensures
            r@ == self@ / (rhs as nat),
    {
        self.div(U128(rhs))
    }

    /// As `add_assign`, with a primitive right operand.
    pub fn add_assign_raw(&mut self, rhs: u128)
        requires
            old(self)@ + rhs < two_pow_128(),
        ensures
            final(self)@ == old(self)@ + rhs,
    {
        self.add_assign(U128(rhs));
    }

    /// As `sub_assign`, with a primitive right operand.
    pub fn sub_assign_raw(&mut self, rhs: u128)
        requires
            rhs <= old(self)@,
        ensures
            final(self)@ == old(self)@ - rhs,
    {
        self.sub_assign(U128(rhs));
    }

    /// The sum of `items`, or `None` where it exceeds `u128::MAX`.
    pub fn checked_sum(items: &[U128]) -> (r: Option<U128>)
        ensures
            r matches Some(v) <==> seq_sum(items@) < two_pow_128(),
            r matches Some(v) ==> v@ == seq_sum(items@),
    {
        let mut acc = U128(0);
        let mut i: usize = 0;
        while i < items.len()
            invariant
                i <= items@.len(),
                acc@ == seq_sum(items@.take(i as int)),
            decreases items@.len() - i,
        {
            proof {
                assert(items@.take(i + 1).drop_last() =~= items@.take(i as int));
            }
            match acc.checked_add(items[i]) {
                Some(v) => {
                    acc = v;
                },
                None => {
                    proof {
                        lemma_sum_prefix_le(items@, i + 1);
                    }
                    return None;
                },
            }
            i = i + 1;
        }
        proof {
            assert(items@.take(i as int) =~= items@);
        }
        Some(acc)
    }

    /// The sum of `items`, added from zero.
    pub fn sum(items: &[U128]) -> (r: U128)
        requires
            seq_sum(items@) < two_pow_128(),
        ensures
            r@ == seq_sum(items@),
    {
        U128::checked_sum(items).unwrap()
    }
}

/// A prefix never sums to more than the whole sequence.
pub proof fn lemma_sum_prefix_le(s: Seq<U128>, k: int)
    requires
        0 <= k <= s.len(),
    ensures
        seq_sum(s.take(k)) <= seq_sum(s),
    decreases s.len(),
{
    if k < s.len() {
        assert(s.drop_last().take(k) =~= s.take(k));
        lemma_sum_prefix_le(s.drop_last(), k);
    } else {
        assert(s.take(k) =~= s);
    }
}

impl Default for U128 {
    fn default() -> (r: U128)
        ensures
            r@ == 0,
    {
        U128(0)
    }
}

} // verus!
