use ontio_std::{I128, U128, U256};

const TWO_127: u128 = 1u128 << 127;

fn u256_parts(v: U256) -> (u128, u128) {
    let lo = v.as_u128().raw();
    let hi = v.div(U256::from(u128::MAX).add(U256::from(1))).as_u128().raw();
    (hi, lo)
}

#[test]
fn u128_bytes_round_trip() {
    for v in [0u128, 1, 10, 255, 256, 0x0102_0304_0506_0708_090a_0b0c_0d0e_0f10, u128::MAX] {
        let x = U128::new(v);
        let b = x.to_le_bytes();
        assert_eq!(b.len(), 16);
        assert_eq!(b, v.to_le_bytes());
        assert_eq!(U128::from_le_bytes(b), x);
    }
}

#[test]
fn i128_bytes_round_trip() {
    for v in [0i128, 1, -1, -2, i128::MIN, i128::MAX, -123_456_789] {
        let x = I128::new(v);
        let b = x.to_le_bytes();
        assert_eq!(b, v.to_le_bytes());
        assert_eq!(I128::from_le_bytes(b), x);
    }
}

#[test]
fn bytes_decode_then_encode() {
    let b: [u8; 16] = [9, 8, 7, 6, 5, 4, 3, 2, 1, 0, 255, 254, 253, 252, 251, 250];
    assert_eq!(U128::from_le_bytes(b).to_le_bytes(), b);
    assert_eq!(I128::from_le_bytes(b).to_le_bytes(), b);
}

#[test]
fn u128_small_encodings() {
    let one = U128::new(1).to_le_bytes();
    assert_eq!(one, [1, 0, 0, 0, 0, 0, 0, 0, 0, 0, 0, 0, 0, 0, 0, 0]);
    let b = U128::new(256).to_le_bytes();
    assert_eq!(b[0], 0);
    assert_eq!(b[1], 1);
    assert!(b[2..].iter().all(|&x| x == 0));
    let m2 = I128::new(-2).to_le_bytes();
    assert_eq!(m2[0], 0xFE);
    assert!(m2[1..].iter().all(|&x| x == 0xFF));
}

#[test]
fn reinterpretation_identity() {
    for v in [0u128, 1, TWO_127 - 1, TWO_127, u128::MAX] {
        assert_eq!(U128::new(v).to_i128().to_u128().raw(), v);
    }
    for v in [0i128, 1, -1, i128::MIN, i128::MAX] {
        assert_eq!(I128::new(v).to_u128().to_i128().raw(), v);
    }
    assert_eq!(U128::new(TWO_127).to_i128().raw(), i128::MIN);
    assert_eq!(I128::new(-5).to_u128().raw(), u128::MAX - 4);
}

#[test]
fn extension_truncation_identity() {
    for v in [0u128, 7, TWO_127, u128::MAX] {
        let x = U128::new(v);
        assert_eq!(U256::from(x.raw()).as_u128(), x);
    }
}

#[test]
fn truncation_keeps_low_bits() {
    let big = U256::from(u128::MAX).mul(U256::from(4)).add(U256::from(3));
    // (2^128 - 1) * 4 + 3 = 4 * 2^128 - 1: the low half is all ones.
    assert_eq!(big.as_u128().raw(), u128::MAX);
    assert_eq!(U256::from(77).as_u128().raw(), 77);
    assert_eq!(U256::max_value().as_u128().raw(), u128::MAX);
}

#[test]
fn commutativity() {
    let pairs = [(3u128, 5u128), (0, u128::MAX), (u128::MAX, 1), (1u128 << 64, 1u128 << 64), (1u128 << 64, (1u128 << 63) + 9)];
    for (a, b) in pairs {
        let (x, y) = (U128::new(a), U128::new(b));
        assert_eq!(x.checked_add(y), y.checked_add(x));
        assert_eq!(x.checked_mul(y), y.checked_mul(x));
        let (p, q) = (U256::from(a), U256::from(b));
        assert_eq!(p.checked_add(q), q.checked_add(p));
        assert_eq!(p.checked_mul(q), q.checked_mul(p));
    }
    let m = U256::max_value();
    let two = U256::from(2);
    assert_eq!(m.checked_mul(two), two.checked_mul(m));
    assert_eq!(m.checked_add(two), None);
    assert_eq!(two.checked_add(m), None);
}

#[test]
fn associativity() {
    let (a, b, c) = (U128::new(10), U128::new(20), U128::new(30));
    assert_eq!(a.add(b).add(c), a.add(b.add(c)));
    let (p, q, r) = (U256::from(u128::MAX), U256::from(u128::MAX), U256::from(5));
    assert_eq!(p.add(q).add(r), p.add(q.add(r)));
}

#[test]
fn identities() {
    for v in [0u128, 1, u128::MAX] {
        let a = U128::new(v);
        assert_eq!(a.add(U128::new(0)), a);
        assert_eq!(a.mul(U128::new(1)), a);
    }
    let m = U256::max_value();
    assert_eq!(m.add(U256::from(0)), m);
    assert_eq!(m.mul(U256::from(1)), m);
}

#[test]
fn sum_equals_fold() {
    let items = [U128::new(4), U128::new(9), U128::new(100)];
    let folded = items.iter().fold(U128::new(0), |acc, x| acc.add(*x));
    assert_eq!(U128::sum(&items), folded);
    let wide = [U256::from(u128::MAX), U256::from(u128::MAX), U256::from(2)];
    let wfolded = wide.iter().fold(U256::default(), |acc, x| acc.add(*x));
    assert_eq!(U256::sum(&wide), wfolded);
    assert_eq!(U256::sum(&[]), U256::default());
    assert_eq!(U128::checked_sum(&[U128::new(u128::MAX), U128::new(1)]), None);
    assert_eq!(U256::checked_sum(&[U256::max_value(), U256::from(1)]), None);
}

#[test]
fn division_identity() {
    let (a, b) = (U128::new(123_456_789), U128::new(987_654));
    assert_eq!(a.mul(b).div(b), a);
    let (p, q) = (U256::from(u128::MAX), U256::from(u128::MAX - 17));
    assert_eq!(p.mul(q).div(q), p);
    assert_eq!(U256::from(100).div(U256::from(7)), U256::from(14));
    assert_eq!(U128::new(100).div(U128::new(7)), U128::new(14));
}

#[test]
fn failure_on_boundary() {
    let max = U128::new(u128::MAX);
    assert_eq!(max.checked_add(U128::new(1)), None);
    assert_eq!(U128::new(0).checked_sub(U128::new(1)), None);
    assert_eq!(max.checked_mul(U128::new(2)), None);
    assert_eq!(U128::new(5).checked_div(U128::new(0)), None);
    let wmax = U256::max_value();
    assert_eq!(wmax.checked_add(U256::from(1)), None);
    assert_eq!(U256::from(0).checked_sub(U256::from(1)), None);
    assert_eq!(wmax.checked_mul(U256::from(2)), None);
    assert_eq!(U256::from(5).checked_div(U256::from(0)), None);
    assert_eq!(wmax.checked_add_u128(U128::new(1)), None);
    assert_eq!(U256::from(5).checked_div_u128(U128::new(0)), None);
}

#[test]
fn ordering_consistency() {
    let (a, b, c) = (U128::new(3), U128::new(8), U128::new(100));
    assert!(a <= b);
    assert!(a.add(c) <= b.add(c));
    let (p, q, r) = (U256::from(3), U256::from(u128::MAX).add(U256::from(1)), U256::from(5));
    assert!(p <= q);
    assert!(p.add(r) <= q.add(r));
    assert!(U256::from(u128::MAX) < U256::from(u128::MAX).add(U256::from(1)));
}

#[test]
fn half_plus_half_overflows() {
    let h = U128::new(TWO_127);
    assert_eq!(h.checked_add(h), None);
    assert_eq!(U128::new(u128::MAX).checked_add(U128::new(1)), None);
}

#[test]
fn max_u128_squared_in_u256() {
    let m = U256::from(u128::MAX);
    let sq = m.checked_mul(m).unwrap();
    // 2^256 - 2^129 + 1: high half 2^128 - 2, low half 1.
    assert_eq!(u256_parts(sq), (u128::MAX - 1, 1));
    let expected = U256::max_value().sub(U256::from(u128::MAX)).sub(U256::from(u128::MAX));
    assert_eq!(sq, expected);
}

#[test]
fn ten_encodes_to_one_byte() {
    let b = U128::new(10).to_le_bytes();
    assert_eq!(b, [0x0A, 0, 0, 0, 0, 0, 0, 0, 0, 0, 0, 0, 0, 0, 0, 0]);
    assert_eq!(U128::from_le_bytes(b), U128::new(10));
}

#[test]
fn minus_one_is_all_ones() {
    let b = I128::new(-1).to_le_bytes();
    assert_eq!(b, [0xFF; 16]);
    let back = I128::from_le_bytes(b);
    assert_eq!(back, I128::new(-1));
    assert_eq!(back.to_u128().raw(), u128::MAX);
}

#[test]
fn sum_of_small_sequences() {
    assert_eq!(U128::sum(&[U128::new(1), U128::new(2), U128::new(3)]), U128::new(6));
    assert_eq!(U128::sum(&[]), U128::new(0));
}

#[test]
fn u256_max_div_and_sub_underflow() {
    assert_eq!(U256::max_value().div_u128(U128::new(1)), U256::max_value());
    assert_eq!(U256::from(5).checked_sub_u128(U128::new(6)), None);
    assert_eq!(U256::from(5).sub_u128(U128::new(5)), U256::from(0));
}

#[test]
fn mixed_width_operations() {
    let a = U256::from(u128::MAX);
    assert_eq!(a.add_u128(U128::new(1)), U256::from(u128::MAX).add(U256::from(1)));
    assert_eq!(a.mul_u128(U128::new(2)).sub_u128(U128::new(u128::MAX)), a);
    assert_eq!(a.div_u128(U128::new(u128::MAX)), U256::from(1));
    let mut acc = U256::default();
    acc.add_assign_u128(U128::new(7));
    acc.add_assign(U256::from(3));
    acc.sub_assign_u128(U128::new(4));
    acc.sub_assign(U256::from(1));
    assert_eq!(acc, U256::from(5));
    assert_eq!(U256::from(9).checked_mul_u128(U128::new(3)), Some(U256::from(27)));
    assert_eq!(U256::from(9).checked_add_u128(U128::new(3)), Some(U256::from(12)));
}

#[test]
fn u128_assign_forms() {
    let mut x = U128::new(10);
    x.add_assign(U128::new(5));
    assert_eq!(x.raw(), 15);
    x.sub_assign(U128::new(15));
    assert!(x.is_zero());
    assert!(!U128::new(1).is_zero());
    assert_eq!(U128::new(9).sub(U128::new(4)), U128::new(5));
    assert_eq!(U128::default(), U128::new(0));
    assert_eq!(I128::default(), I128::new(0));
}

#[test]
fn wide_division_large() {
    let m = U256::max_value();
    assert_eq!(m.div(m), U256::from(1));
    assert_eq!(m.div(U256::from(2)).mul(U256::from(2)).add(U256::from(1)), m);
    let d = U256::from(u128::MAX).add(U256::from(2));
    let q = m.div(d);
    let r = m.sub(q.mul(d));
    assert!(r < d);
    assert_eq!(U256::from(3).div(U256::from(7)), U256::from(0));
}

#[test]
fn decimal_display() {
    assert_eq!(U128::new(0).to_string(), "0");
    assert_eq!(U128::new(1234567).to_string(), "1234567");
    assert_eq!(U128::new(u128::MAX).to_string(), "340282366920938463463374607431768211455");
}

#[test]
fn primitive_right_operands() {
    let x = U128::new(20);
    assert_eq!(x.add_raw(5), U128::new(25));
    assert_eq!(x.sub_raw(5), U128::new(15));
    assert_eq!(x.mul_raw(5), U128::new(100));
    assert_eq!(x.div_raw(6), U128::new(3));
    let mut y = U128::new(1);
    y.add_assign_raw(9);
    y.sub_assign_raw(3);
    assert_eq!(y.raw(), 7);
    let w = U256::from(u128::MAX);
    assert_eq!(w.add_raw(1), U256::from(u128::MAX).add(U256::from(1)));
    assert_eq!(w.sub_raw(u128::MAX), U256::from(0));
    assert_eq!(w.mul_raw(u128::MAX), w.mul(w));
}
