//! `I128`: a signed 128-bit value carried across byte boundaries.
use vstd::prelude::*;

use crate::bytes::le_value;
use crate::unsigned::{two_pow_128, U128};

verus! {

/// Reads an unsigned 128-bit pattern as two's complement.
pub open spec fn as_signed(n: int) -> int {
    if n < 0x8000_0000_0000_0000_0000_0000_0000_0000 {
        n
    } else {
        n - two_pow_128()
    }
}

/// The unsigned 128-bit pattern of a two's-complement value.
pub open spec fn as_unsigned(v: int) -> int {
    if v >= 0 {
        v
    } else {
        v + two_pow_128()
    }
}

/// A signed 128-bit integer in two's complement.
#[derive(Clone, Copy, PartialEq, Eq, Structural, PartialOrd, Ord, Debug)]
pub struct I128(i128);

impl View for I128 {
    type V = int;

    closed spec fn view(&self) -> int {
        self.0 as int
    }
}

impl I128 {
    /// Every value lies in `[-2^127, 2^127)`.
    pub proof fn lemma_range(self)
        ensures
            -0x8000_0000_0000_0000_0000_0000_0000_0000 <= self@ < 0x8000_0000_0000_0000_0000_0000_0000_0000,
    {
    }

    /// Two values are equal exactly where their numbers are.
    pub proof fn lemma_view_injective(self, other: I128)
        ensures
            (self@ == other@) <==> (self == other),
    {
    }

    pub fn new(val: i128) -> (r: I128)
        ensures
            r@ == val,
    {
        I128(val)
    }

    /// The same 128 bits read as an unsigned value.
    pub fn to_u128(self) -> (r: U128)
        ensures
            r@ == as_unsigned(self@),
    {
        if self.0 >= 0 {
            U128::new(self.0 as u128)
        } else {
            let above: i128 = -(self.0 + 1);
            U128::new(u128::MAX - above as u128)
        }
    }

    pub fn from_le_bytes(bs: [u8; 16]) -> (r: I128)
        ensures
            r@ == as_signed(le_value(bs@) as int),
    {
        U128::from_le_bytes(bs).to_i128()
    }

    pub fn to_le_bytes(self) -> (r: [u8; 16])
        ensures
            r@.len() == 16,
            le_value(r@) == as_unsigned(self@),
    {
        self.to_u128().to_le_bytes()
    }

    pub fn raw(self) -> (r: i128)
        ensures
            r == self@,
    {
        self.0
    }
}

impl Default for I128 {
    fn default() -> (r: I128)
        ensures
            r@ == 0,
    {
        I128(0)
    }
}

} // verus!
