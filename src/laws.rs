//! Laws that relate the operations of the three types.
use vstd::prelude::*;

use vstd::arithmetic::div_mod::lemma_div_multiples_vanish;

use crate::bytes::{byte_weight, le_value};
use crate::signed::{as_signed, as_unsigned, I128};
use crate::unsigned::{seq_sum, two_pow_128, U128};
use crate::wide::{two_pow_256, wide_sum, U256};

verus! {

/// Two byte sequences of one length that denote the same number are equal:
/// decoding and then encoding gives back the bytes.
pub proof fn lemma_le_injective(s: Seq<u8>, t: Seq<u8>)
    requires
        s.len() == t.len(),
        le_value(s) == le_value(t),
    ensures
        s == t,
    decreases s.len(),
{
    if s.len() > 0 {
        let n = (s.len() - 1) as nat;
        let w = byte_weight(n);
        let (a, b) = (le_value(s.drop_last()), le_value(t.drop_last()));
        let (x, y) = (s.last() as int, t.last() as int);
        crate::bytes::lemma_le_bound(s.drop_last());
        crate::bytes::lemma_le_bound(t.drop_last());
        assert(a == b && x == y) by (nonlinear_arith)
            requires
                a + w * x == b + w * y,
                0 <= a < w,
                0 <= b < w,
        ;
        lemma_le_injective(s.drop_last(), t.drop_last());
        assert(s =~= s.drop_last().push(s.last()));
        assert(t =~= t.drop_last().push(t.last()));
    } else {
        assert(s =~= t);
    }
}

/// Decoding the encoding of a `U128` gives it back: where `b` is what
/// `to_le_bytes` gives for `x`, and `y` what `from_le_bytes` gives for `b`.
pub proof fn lemma_u128_bytes_round_trip(x: U128, b: Seq<u8>, y: U128)
    requires
        b.len() == 16,
        le_value(b) == x@,
        y@ == le_value(b),
    ensures
        y == x,
{
    x.lemma_view_injective(y);
}

/// Decoding the encoding of an `I128` gives it back: where `b` is what
/// `to_le_bytes` gives for `x`, and `y` what `from_le_bytes` gives for `b`.
pub proof fn lemma_i128_bytes_round_trip(x: I128, b: Seq<u8>, y: I128)
    requires
        b.len() == 16,
        le_value(b) == as_unsigned(x@),
        y@ == as_signed(le_value(b) as int),
    ensures
        y == x,
{
    x.lemma_range();
    x.lemma_view_injective(y);
}

/// Reading a `U128` as signed and back keeps its bits; so does reading an
/// `I128` as unsigned and back.
pub proof fn lemma_reinterpret_round_trip(x: U128, y: I128)
    ensures
        as_unsigned(as_signed(x@ as int)) == x@,
        as_signed(as_unsigned(y@)) == y@,
{
    x.lemma_range();
    y.lemma_range();
}

/// Widening a `U128` and truncating it again gives it back.
pub proof fn lemma_extend_truncate(x: U128)
    ensures
        x@ % two_pow_128() == x@,
{
    x.lemma_range();
    vstd::arithmetic::div_mod::lemma_small_mod(x@, two_pow_128());
}

/// `a + b` and `b + a` both fail or both give one value; likewise `a * b`.
pub proof fn lemma_u128_commutative(a: U128, b: U128)
    ensures
        (a@ + b@ < two_pow_128()) == (b@ + a@ < two_pow_128()),
        a@ + b@ == b@ + a@,
        (a@ * b@ < two_pow_128()) == (b@ * a@ < two_pow_128()),
        a@ * b@ == b@ * a@,
{
    vstd::arithmetic::mul::lemma_mul_is_commutative(a@ as int, b@ as int);
}

/// `a + b` and `b + a` both fail or both give one value; likewise `a * b`.
pub proof fn lemma_u256_commutative(a: U256, b: U256)
    ensures
        (a@ + b@ < two_pow_256()) == (b@ + a@ < two_pow_256()),
        a@ + b@ == b@ + a@,
        (a@ * b@ < two_pow_256()) == (b@ * a@ < two_pow_256()),
        a@ * b@ == b@ * a@,
{
    vstd::arithmetic::mul::lemma_mul_is_commutative(a@ as int, b@ as int);
}

/// Where `(a + b) + c` and `a + (b + c)` succeed, they agree; and one succeeds
/// exactly where the other does.
pub proof fn lemma_u128_add_associative(a: U128, b: U128, c: U128)
    ensures
        (a@ + b@ < two_pow_128() && (a@ + b@) + c@ < two_pow_128()) == (b@ + c@ < two_pow_128()
            && a@ + (b@ + c@) < two_pow_128()),
        (a@ + b@) + c@ == a@ + (b@ + c@),
{
}

/// Where `(a + b) + c` and `a + (b + c)` succeed, they agree; and one succeeds
/// exactly where the other does.
pub proof fn lemma_u256_add_associative(a: U256, b: U256, c: U256)
    ensures
        (a@ + b@ < two_pow_256() && (a@ + b@) + c@ < two_pow_256()) == (b@ + c@ < two_pow_256()
            && a@ + (b@ + c@) < two_pow_256()),
        (a@ + b@) + c@ == a@ + (b@ + c@),
{
}

/// Adding zero and multiplying by one succeed and keep the value.
pub proof fn lemma_u128_identities(a: U128)
    ensures
        a@ + 0 < two_pow_128(),
        a@ + 0 == a@,
        a@ * 1 < two_pow_128(),
        a@ * 1 == a@,
{
    a.lemma_range();
}

/// Adding zero and multiplying by one succeed and keep the value.
pub proof fn lemma_u256_identities(a: U256)
    ensures
        a@ + 0 < two_pow_256(),
        a@ + 0 == a@,
        a@ * 1 < two_pow_256(),
        a@ * 1 == a@,
{
    a.lemma_range();
}

/// The sum of a sequence is the left fold of `+` from zero.
pub proof fn lemma_u128_sum_is_fold(s: Seq<U128>)
    ensures
        seq_sum(s) == s.fold_left(0nat, |acc: nat, x: U128| acc + x@),
        s.len() == 0 ==> seq_sum(s) == 0,
    decreases s.len(),
{
    if s.len() > 0 {
        lemma_u128_sum_is_fold(s.drop_last());
    }
}

/// The sum of a sequence is the left fold of `+` from zero.
pub proof fn lemma_u256_sum_is_fold(s: Seq<U256>)
    ensures
        wide_sum(s) == s.fold_left(0nat, |acc: nat, x: U256| acc + x@),
        s.len() == 0 ==> wide_sum(s) == 0,
    decreases s.len(),
{
    if s.len() > 0 {
        lemma_u256_sum_is_fold(s.drop_last());
    }
}

/// Where `b` is not zero and `a * b` succeeds, `(a * b) / b` is `a`.
pub proof fn lemma_u128_div_undoes_mul(a: U128, b: U128)
    requires
        b@ != 0,
        a@ * b@ < two_pow_128(),
    ensures
        (a@ * b@) / b@ == a@,
{
    lemma_div_multiples_vanish(a@ as int, b@ as int);
    vstd::arithmetic::mul::lemma_mul_is_commutative(a@ as int, b@ as int);
}

/// Where `b` is not zero and `a * b` succeeds, `(a * b) / b` is `a`.
pub proof fn lemma_u256_div_undoes_mul(a: U256, b: U256)
    requires
        b@ != 0,
        a@ * b@ < two_pow_256(),
    ensures
        (a@ * b@) / b@ == a@,
{
    lemma_div_multiples_vanish(a@ as int, b@ as int);
    vstd::arithmetic::mul::lemma_mul_is_commutative(a@ as int, b@ as int);
}

/// Adding one value to both sides keeps their order, where both sums succeed.
pub proof fn lemma_u128_add_monotone(a: U128, b: U128, c: U128)
    requires
        a@ <= b@,
        a@ + c@ < two_pow_128(),
        b@ + c@ < two_pow_128(),
    ensures
        a@ + c@ <= b@ + c@,
{
}

/// Adding one value to both sides keeps their order, where both sums succeed.
pub proof fn lemma_u256_add_monotone(a: U256, b: U256, c: U256)
    requires
        a@ <= b@,
        a@ + c@ < two_pow_256(),
        b@ + c@ < two_pow_256(),
    ensures
        a@ + c@ <= b@ + c@,
{
}

} // verus!
