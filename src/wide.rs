//! `U256`: an unsigned 256-bit value kept in four 64-bit limbs.
use vstd::prelude::*;

use vstd::arithmetic::div_mod::lemma_fundamental_div_mod_converse;

use crate::unsigned::{two_pow_128, U128};

verus! {

/// 2^256, one past the largest `U256`.
pub open spec fn two_pow_256() -> nat {
    two_pow_128() * two_pow_128()
}

/// The product of two 128-bit values as a high and a low half.
fn mul_wide(x: u128, y: u128) -> (r: (u128, u128))
    ensures
        r.0 * two_pow_128() + r.1 == x * y,
{
    let x1: u128 = x / 0x1_0000_0000_0000_0000;
    let x0: u128 = x % 0x1_0000_0000_0000_0000;
    let y1: u128 = y / 0x1_0000_0000_0000_0000;
    let y0: u128 = y % 0x1_0000_0000_0000_0000;
    proof {
        assert(x1 * y1 <= u128::MAX && x0 * y1 <= u128::MAX && x1 * y0 <= u128::MAX && x0 * y0
            <= u128::MAX) by (nonlinear_arith)
            requires
                x1 < 0x1_0000_0000_0000_0000,
                x0 < 0x1_0000_0000_0000_0000,
                y1 < 0x1_0000_0000_0000_0000,
                y0 < 0x1_0000_0000_0000_0000,
        ;
    }
    let p00: u128 = x0 * y0;
    let p01: u128 = x0 * y1;
    let p10: u128 = x1 * y0;
    let p11: u128 = x1 * y1;
    proof {
        assert(x * y == p11 * two_pow_128() + (p01 + p10) * 0x1_0000_0000_0000_0000 + p00)
            by (nonlinear_arith)
            requires
                x == x1 * 0x1_0000_0000_0000_0000 + x0,
                y == y1 * 0x1_0000_0000_0000_0000 + y0,
                p00 == x0 * y0,
                p01 == x0 * y1,
                p10 == x1 * y0,
                p11 == x1 * y1,
                two_pow_128() == 0x1_0000_0000_0000_0000 * 0x1_0000_0000_0000_0000,
        ;
        assert(x * y < two_pow_128() * two_pow_128()) by (nonlinear_arith)
            requires
                x < two_pow_128(),
                y < two_pow_128(),
        ;
    }
    let t: u128 = p00 / 0x1_0000_0000_0000_0000 + p01 % 0x1_0000_0000_0000_0000 + p10
        % 0x1_0000_0000_0000_0000;
    let lo: u128 = p00 % 0x1_0000_0000_0000_0000 + (t % 0x1_0000_0000_0000_0000)
        * 0x1_0000_0000_0000_0000;
    proof {
        let hi_int = p11 + p01 / 0x1_0000_0000_0000_0000 + p10 / 0x1_0000_0000_0000_0000 + t
            / 0x1_0000_0000_0000_0000;
        let k: int = 0x1_0000_0000_0000_0000;
        assert(p00 == (p00 as int / k) * k + p00 as int % k);
        assert(p01 == (p01 as int / k) * k + p01 as int % k);
        assert(p10 == (p10 as int / k) * k + p10 as int % k);
        assert(t == (t as int / k) * k + t as int % k);
        assert(two_pow_128() == k * k);
        assert((p01 + p10) * k == (p01 as int / k + p10 as int / k) * (k * k) + (p01 as int % k + p10 as int % k) * k);
        let (a0, a1, b0, b1, c0, c1, t0, t1) = (
            p00 as int % k,
            p00 as int / k,
            p01 as int % k,
            p01 as int / k,
            p10 as int % k,
            p10 as int / k,
            t as int % k,
            t as int / k,
        );
        assert(t == a1 + b0 + c0);
        assert(lo == a0 + t0 * k);
        assert(hi_int == p11 + b1 + c1 + t1);
        assert(x * y == hi_int * two_pow_128() + lo) by (nonlinear_arith)
            requires
                x * y == p11 * (k * k) + (p01 + p10) * k + p00,
                two_pow_128() == k * k,
                p00 == a1 * k + a0,
                p01 == b1 * k + b0,
                p10 == c1 * k + c0,
                t == t1 * k + t0,
                t == a1 + b0 + c0,
                lo == a0 + t0 * k,
                hi_int == p11 + b1 + c1 + t1,
        ;
        assert(hi_int < two_pow_128()) by (nonlinear_arith)
            requires
                x * y == hi_int * two_pow_128() + lo,
                x * y < two_pow_128() * two_pow_128(),
                lo >= 0,
                two_pow_128() > 0,
        ;
    }
    let hi: u128 = p11 + p01 / 0x1_0000_0000_0000_0000 + p10 / 0x1_0000_0000_0000_0000 + t
        / 0x1_0000_0000_0000_0000;
    (hi, lo)
}

/// An unsigned 256-bit integer. The limbs are listed from the most
/// significant down, so that the derived order is the numeric one.
#[derive(Clone, Copy, PartialEq, Eq, Structural, PartialOrd, Ord, Debug)]
pub struct U256 {
    w3: u64,
    w2: u64,
    w1: u64,
    w0: u64,
}

impl U256 {
    /// The upper 128 bits.
    pub closed spec fn high(&self) -> nat {
        (self.w3 * 0x1_0000_0000_0000_0000nat + self.w2) as nat
    }

    /// The lower 128 bits.
    pub closed spec fn low(&self) -> nat {
        (self.w1 * 0x1_0000_0000_0000_0000nat + self.w0) as nat
    }
}

impl View for U256 {
    type V = nat;

    closed spec fn view(&self) -> nat {
        self.high() * two_pow_128() + self.low()
    }
}

impl U256 {
    /// The largest value, 2^256 - 1.
    pub fn max_value() -> (r: U256)
        ensures
            r@ == two_pow_256() - 1,
    {
        U256::from_halves(u128::MAX, u128::MAX)
    }

    /// Every value lies below 2^256.
    pub proof fn lemma_range(self)
        ensures
            self@ < two_pow_256(),
    {
        assert(self.high() < two_pow_128());
        assert(self.low() < two_pow_128());
        assert(self.high() * two_pow_128() + self.low() < two_pow_128() * two_pow_128())
            by (nonlinear_arith)
            requires
                self.high() < two_pow_128(),
                self.low() < two_pow_128(),
        ;
    }

    /// Two values are equal exactly where their numbers are.
    pub proof fn lemma_view_injective(self, other: U256)
        ensures
            (self@ == other@) <==> (self == other),
    {
        if self@ == other@ {
            let (a, b) = (self.high(), self.low());
            let (c, d) = (other.high(), other.low());
            assert(a == c && b == d) by (nonlinear_arith)
                requires
                    a * two_pow_128() + b == c * two_pow_128() + d,
                    b < two_pow_128(),
                    d < two_pow_128(),
                    two_pow_128() > 0,
            ;
        }
    }

    fn halves(self) -> (r: (u128, u128))
        ensures
            r.0 == self.high(),
            r.1 == self.low(),
    {
        (self.w3 as u128 * 0x1_0000_0000_0000_0000 + self.w2 as u128, self.w1 as u128
            * 0x1_0000_0000_0000_0000 + self.w0 as u128)
    }

    fn from_halves(hi: u128, lo: u128) -> (r: U256)
        ensures
            r@ == hi * two_pow_128() + lo,
    {
        let r = U256 {
            w3: (hi / 0x1_0000_0000_0000_0000) as u64,
            w2: (hi % 0x1_0000_0000_0000_0000) as u64,
            w1: (lo / 0x1_0000_0000_0000_0000) as u64,
            w0: (lo % 0x1_0000_0000_0000_0000) as u64,
        };
        assert(r.high() == hi);
        assert(r.low() == lo);
        r
    }

    fn widen(val: u128) -> (r: U256)
        ensures
            r@ == val,
    {
        U256::from_halves(0, val)
    }

    /// The low 128 bits, with no check that the value fits.
    pub fn as_u128(&self) -> (r: U128)
        ensures
            r@ == self@ % two_pow_128(),
    {
        let (hi, lo) = self.halves();
        proof {
            lemma_fundamental_div_mod_converse(self@ as int, two_pow_128() as int, hi as int, lo as int);
        }
        U128::new(lo)
    }

    fn at_most(self, other: U256) -> (r: bool)
        ensures
            r == (self@ <= other@),
    {
        let (a, b) = self.halves();
        let (c, d) = other.halves();
        proof {
            assert((a < c) ==> a * two_pow_128() + b < c * two_pow_128() + d) by (nonlinear_arith)
                requires
                    b < two_pow_128(),
                    d < two_pow_128(),
            ;
            assert((a > c) ==> a * two_pow_128() + b > c * two_pow_128() + d) by (nonlinear_arith)
                requires
                    b < two_pow_128(),
                    d < two_pow_128(),
            ;
        }
        a < c || (a == c && b <= d)
    }

    /// `self + rhs`, or `None` where the sum reaches 2^256.
    pub fn checked_add(self, rhs: U256) -> (r: Option<U256>)
        ensures
            r matches Some(v) <==> self@ + rhs@ < two_pow_256(),
            r matches Some(v) ==> v@ == self@ + rhs@,
    {
        let (a, b) = self.halves();
        let (c, d) = rhs.halves();
        proof {
            self.lemma_range();
            rhs.lemma_range();
        }
        let (lo, carry) = if b <= u128::MAX - d {
            (b + d, 0u128)
        } else {
            (b - (u128::MAX - d) - 1, 1u128)
        };
        assert(b + d == carry * two_pow_128() + lo);
        match a.checked_add(c) {
            None => {
                assert(self@ + rhs@ >= two_pow_256()) by (nonlinear_arith)
                    requires
                        self@ == a * two_pow_128() + b,
                        rhs@ == c * two_pow_128() + d,
                        a + c >= two_pow_128(),
                        b >= 0,
                        d >= 0,
                        two_pow_256() == two_pow_128() * two_pow_128(),
                ;
                None
            },
            Some(h) => match h.checked_add(carry) {
                None => {
                    assert(self@ + rhs@ >= two_pow_256()) by (nonlinear_arith)
                        requires
                            self@ + rhs@ == (h + carry) * two_pow_128() + lo,
                            h + carry >= two_pow_128(),
                            lo >= 0,
                            two_pow_256() == two_pow_128() * two_pow_128(),
                    ;
                    None
                },
                Some(hi) => {
                    let r = U256::from_halves(hi, lo);
                    proof {
                        r.lemma_range();
                    }
                    Some(r)
                },
            },
        }
    }

    /// `self - rhs`, or `None` where `rhs` exceeds `self`.
    pub fn checked_sub(self, rhs: U256) -> (r: Option<U256>)
        ensures
            r matches Some(v) <==> rhs@ <= self@,
            r matches Some(v) ==> v@ == self@ - rhs@,
    {
        let (a, b) = self.halves();
        let (c, d) = rhs.halves();
        let (lo, borrow) = if d <= b {
            (b - d, 0u128)
        } else {
            (u128::MAX - (d - b) + 1, 1u128)
        };
        assert(b - d == lo - borrow * two_pow_128());
        match a.checked_sub(c) {
            None => {
                assert(self@ < rhs@) by (nonlinear_arith)
                    requires
                        self@ == a * two_pow_128() + b,
                        rhs@ == c * two_pow_128() + d,
                        a < c,
                        b < two_pow_128(),
                        d >= 0,
                ;
                None
            },
            Some(h) => match h.checked_sub(borrow) {
                None => {
                    assert(self@ < rhs@);
                    None
                },
                Some(hi) => Some(U256::from_halves(hi, lo)),
            },
        }
    }

    /// `self * rhs`, or `None` where the product reaches 2^256.
    pub fn checked_mul(self, rhs: U256) -> (r: Option<U256>)
        ensures
            r matches Some(v) <==> self@ * rhs@ < two_pow_256(),
            r matches Some(v) ==> v@ == self@ * rhs@,
    {
        let (a, b) = self.halves();
        let (c, d) = rhs.halves();
        let ghost m = two_pow_128();
        if a != 0 && c != 0 {
            assert(self@ * rhs@ >= two_pow_256()) by (nonlinear_arith)
                requires
                    self@ == a * m + b,
                    rhs@ == c * m + d,
                    a >= 1,
                    c >= 1,
                    b >= 0,
                    d >= 0,
                    m > 0,
                    two_pow_256() == m * m,
            ;
            return None;
        }
        let (ph, pl) = mul_wide(b, d);
        // With one high half zero, the product is `cross * 2^128 + b * d`.
        let (x, y): (u128, u128) = if a == 0 {
            (c, b)
        } else {
            (a, d)
        };
        assert(self@ * rhs@ == (x * y) * m + b * d) by (nonlinear_arith)
            requires
                self@ == a * m + b,
                rhs@ == c * m + d,
                a == 0 || c == 0,
                a == 0 ==> x == c && y == b,
                a != 0 ==> x == a && y == d,
        ;
        match x.checked_mul(y) {
            None => {
                assert(self@ * rhs@ >= two_pow_256()) by (nonlinear_arith)
                    requires
                        self@ * rhs@ == (x * y) * m + b * d,
                        x * y >= m,
                        b * d >= 0,
                        two_pow_256() == m * m,
                ;
                None
            },
            Some(cross) => match cross.checked_add(ph) {
                None => {
                    assert(self@ * rhs@ >= two_pow_256()) by (nonlinear_arith)
                        requires
                            self@ * rhs@ == (cross + ph) * m + pl,
                            cross + ph >= m,
                            pl >= 0,
                            two_pow_256() == m * m,
                    ;
                    None
                },
                Some(hi) => {
                    let r = U256::from_halves(hi, pl);
                    proof {
                        r.lemma_range();
                    }
                    Some(r)
                },
            },
        }
    }

    /// Half of `self`, rounded down, and whether `self` is odd.
    fn halve(self) -> (r: (U256, bool))
        ensures
            r.0@ == self@ / 2,
            r.1 == (self@ % 2 == 1),
    {
        let (a, b) = self.halves();
        let hi: u128 = a / 2;
        let lo: u128 = b / 2 + (a % 2) * 0x8000_0000_0000_0000_0000_0000_0000_0000;
        let r = U256::from_halves(hi, lo);
        proof {
            let m = two_pow_128();
            assert(self@ == 2 * (hi * m + lo) + b % 2) by (nonlinear_arith)
                requires
                    self@ == a * m + b,
                    a == 2 * hi + a % 2,
                    b == 2 * (b / 2) + b % 2,
                    lo == b / 2 + (a % 2) * 0x8000_0000_0000_0000_0000_0000_0000_0000,
                    m == 2 * 0x8000_0000_0000_0000_0000_0000_0000_0000,
            ;
            lemma_fundamental_div_mod_converse(self@ as int, 2, r@ as int, (b % 2) as int);
        }
        (r, b % 2 == 1)
    }

    /// `self / rhs` rounded down, or `None` where `rhs` is zero.
    pub fn checked_div(self, rhs: U256) -> (r: Option<U256>)
        ensures
            r matches Some(v) <==> rhs@ != 0,
            r matches Some(v) ==> v@ == self@ / rhs@,
    {
        let zero = U256::widen(0);
        if rhs.at_most(zero) {
            return None;
        }
        let one = U256::widen(1);
        let ghost n = self@;
        let ghost d = rhs@;
        // The quotient is the largest `q` with `q * d <= n`; search for it in `[lo, hi]`.
        let mut lo = zero;
        let mut hi = self;
        assert(n < (n + 1) * d) by (nonlinear_arith)
            requires
                d >= 1,
                n >= 0,
        ;
        while !hi.at_most(lo)
            invariant
                n == self@,
                d == rhs@,
                d >= 1,
                one@ == 1,
                zero@ == 0,
                lo@ <= hi@,
                lo@ * d <= n,
                n < (hi@ + 1) * d,
            decreases hi@ - lo@,
        {
            let gap = hi.checked_sub(lo).unwrap();
            let (half, odd) = gap.halve();
            proof {
                gap.lemma_range();
                hi.lemma_range();
            }
            let up = if odd {
                one
            } else {
                zero
            };
            // `step` is `gap / 2` rounded up: at least one, at most `gap`.
            let step = half.checked_add(up).unwrap();
            let mid = lo.checked_add(step).unwrap();
            assert(gap@ >= 1);
            assert(step@ == gap@ / 2 + gap@ % 2);
            assert(lo@ < mid@ <= hi@);
            let fits = match mid.checked_mul(rhs) {
                Some(p) => p.at_most(self),
                None => {
                    proof {
                        self.lemma_range();
                    }
                    false
                },
            };
            if fits {
                lo = mid;
            } else {
                hi = mid.checked_sub(one).unwrap();
                assert(n < (hi@ + 1) * d);
            }
        }
        let ghost q = lo@;
        assert(lo@ == hi@);
        assert(0 <= n - q * d < d) by (nonlinear_arith)
            requires
                q * d <= n,
                n < (q + 1) * d,
        ;
        proof {
            lemma_fundamental_div_mod_converse(n as int, d as int, q as int, n - q * d);
        }
        Some(lo)
    }

    pub fn add(self, rhs: U256) -> (r: U256)
        requires
            self@ + rhs@ < two_pow_256(),
        ensures
            r@ == self@ + rhs@,
    {
        self.checked_add(rhs).unwrap()
    }

    pub fn sub(self, rhs: U256) -> (r: U256)
        requires
            rhs@ <= self@,
        ensures
            r@ == self@ - rhs@,
    {
        self.checked_sub(rhs).unwrap()
    }

    pub fn mul(self, rhs: U256) -> (r: U256)
        requires
            self@ * rhs@ < two_pow_256(),
        ensures
            r@ == self@ * rhs@,
    {
        self.checked_mul(rhs).unwrap()
    }

    pub fn div(self, rhs: U256) -> (r: U256)
        requires
            rhs@ != 0,
        ensures
            r@ == self@ / rhs@,
    {
        self.checked_div(rhs).unwrap()
    }

    /// As `checked_add`, with a `U128` right operand widened first.
    pub fn checked_add_u128(self, rhs: U128) -> (r: Option<U256>)
        ensures
            r matches Some(v) <==> self@ + rhs@ < two_pow_256(),
            r matches Some(v) ==> v@ == self@ + rhs@,
    {
        self.checked_add(U256::widen(rhs.raw()))
    }

    /// As `checked_sub`, with a `U128` right operand widened first.
    pub fn checked_sub_u128(self, rhs: U128) -> (r: Option<U256>)
        ensures
            r matches Some(v) <==> rhs@ <= self@,
            r matches Some(v) ==> v@ == self@ - rhs@,
    {
        self.checked_sub(U256::widen(rhs.raw()))
    }

    /// As `checked_mul`, with a `U128` right operand widened first.
    pub fn checked_mul_u128(self, rhs: U128) -> (r: Option<U256>)
        ensures
            r matches Some(v) <==> self@ * rhs@ < two_pow_256(),
            r matches Some(v) ==> v@ == self@ * rhs@,
    {
        self.checked_mul(U256::widen(rhs.raw()))
    }

    /// As `checked_div`, with a `U128` right operand widened first.
    pub fn checked_div_u128(self, rhs: U128) -> (r: Option<U256>)
        ensures
            r matches Some(v) <==> rhs@ != 0,
            r matches Some(v) ==> v@ == self@ / rhs@,
    {
        self.checked_div(U256::widen(rhs.raw()))
    }

    pub fn add_u128(self, rhs: U128) -> (r: U256)
        requires
            self@ + rhs@ < two_pow_256(),
        ensures
            r@ == self@ + rhs@,
    {
        self.checked_add(U256::widen(rhs.raw())).unwrap()
    }

    pub fn sub_u128(self, rhs: U128) -> (r: U256)
        requires
            rhs@ <= self@,
        ensures
            r@ == self@ - rhs@,
    {
        self.checked_sub(U256::widen(rhs.raw())).unwrap()
    }

    pub fn mul_u128(self, rhs: U128) -> (r: U256)
        requires
            self@ * rhs@ < two_pow_256(),
        ensures
            r@ == self@ * rhs@,
    {
        self.checked_mul(U256::widen(rhs.raw())).unwrap()
    }

    pub fn div_u128(self, rhs: U128) -> (r: U256)
        requires
            rhs@ != 0,
        ensures
            r@ == self@ / rhs@,
    {
        self.checked_div(U256::widen(rhs.raw())).unwrap()
    }

    pub fn add_assign(&mut self, rhs: U256)
        requires
            old(self)@ + rhs@ < two_pow_256(),
        ensures
            final(self)@ == old(self)@ + rhs@,
    {
        *self = self.checked_add(rhs).unwrap();
    }

    pub fn add_assign_u128(&mut self, rhs: U128)
        requires
            old(self)@ + rhs@ < two_pow_256(),
        ensures
            final(self)@ == old(self)@ + rhs@,
    {
        *self = self.checked_add(U256::widen(rhs.raw())).unwrap();
    }

    pub fn sub_assign(&mut self, rhs: U256)
        requires
            rhs@ <= old(self)@,
        ensures
            final(self)@ == old(self)@ - rhs@,
    {
        *self = self.checked_sub(rhs).unwrap();
    }

    pub fn sub_assign_u128(&mut self, rhs: U128)
        requires
            rhs@ <= old(self)@,
        ensures
            final(self)@ == old(self)@ - rhs@,
    {
        *self = self.checked_sub(U256::widen(rhs.raw())).unwrap();
    }

    /// As `add`, with a primitive right operand widened first.
    pub fn add_raw(self, rhs: u128) -> (r: U256)
        requires
            self@ + rhs < two_pow_256(),
        ensures
            r@ == self@ + rhs,
    {
        self.add(U256::widen(rhs))
    }

    /// As `sub`, with a primitive right operand widened first.
    pub fn sub_raw(self, rhs: u128) -> (r: U256)
        requires
            rhs <= self@,
        ensures
            r@ == self@ - rhs,
    {
        self.sub(U256::widen(rhs))
    }

    /// As `mul`, with a primitive right operand widened first.
    pub fn mul_raw(self, rhs: u128) -> (r: U256)
        requires
            self@ * rhs < two_pow_256(),
        ensures
            r@ == self@ * rhs,
    {
        self.mul(U256::widen(rhs))
    }

    /// The sum of `items`, or `None` where it reaches 2^256.
    pub fn checked_sum(items: &[U256]) -> (r: Option<U256>)
        ensures
            r matches Some(v) <==> wide_sum(items@) < two_pow_256(),
            r matches Some(v) ==> v@ == wide_sum(items@),
    {
        let mut acc = U256::widen(0);
        let mut i: usize = 0;
        while i < items.len()
            invariant
                i <= items@.len(),
                acc@ == wide_sum(items@.take(i as int)),
            decreases items@.len() - i,
        {
            proof {
                assert(items@.take(i + 1).drop_last() =~= items@.take(i as int));
            }
            match acc.checked_add(items[i]) {
                Some(v) => {
                    acc = v;
                },
                None => {
                    proof {
                        lemma_wide_sum_prefix_le(items@, i + 1);
                    }
                    return None;
                },
            }
            i = i + 1;
        }
        proof {
            assert(items@.take(i as int) =~= items@);
            acc.lemma_range();
        }
        Some(acc)
    }

    /// The sum of `items`, added from zero.
    pub fn sum(items: &[U256]) -> (r: U256)
        requires
            wide_sum(items@) < two_pow_256(),
        ensures
            r@ == wide_sum(items@),
    {
        U256::checked_sum(items).unwrap()
    }
}

/// The sum of the values of a sequence, added from the left.
pub open spec fn wide_sum(s: Seq<U256>) -> nat
    decreases s.len(),
{
    if s.len() == 0 {
        0
    } else {
        wide_sum(s.drop_last()) + s.last()@
    }
}

/// A prefix never sums to more than the whole sequence.
pub proof fn lemma_wide_sum_prefix_le(s: Seq<U256>, k: int)
    requires
        0 <= k <= s.len(),
    ensures
        wide_sum(s.take(k)) <= wide_sum(s),
    decreases s.len(),
{
    if k < s.len() {
        assert(s.drop_last().take(k) =~= s.take(k));
        lemma_wide_sum_prefix_le(s.drop_last(), k);
    } else {
        assert(s.take(k) =~= s);
    }
}

impl Default for U256 {
    fn default() -> (r: U256)
        ensures
            r@ == 0,
    {
        U256::widen(0)
    }
}

impl From<u128> for U256 {
    /// Zero extension: the value is kept.
    fn from(val: u128) -> (r: U256)
        ensures
            r@ == val,
    {
        let r = U256 {
            w3: 0,
            w2: 0,
            w1: (val / 0x1_0000_0000_0000_0000) as u64,
            w0: (val % 0x1_0000_0000_0000_0000) as u64,
        };
        assert(r.high() == 0);
        assert(r.low() == val);
        r
    }
}

impl vstd::std_specs::convert::FromSpecImpl<u128> for U256 {
    open spec fn obeys_from_spec() -> bool {
        true
    }

    closed spec fn from_spec(v: u128) -> U256 {
        U256 {
            w3: 0,
            w2: 0,
            w1: (v / 0x1_0000_0000_0000_0000) as u64,
            w0: (v % 0x1_0000_0000_0000_0000) as u64,
        }
    }
}

} // verus!
