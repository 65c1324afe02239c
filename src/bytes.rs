//! Little-endian encoding of 128-bit magnitudes as 16 bytes.
use vstd::prelude::*;

verus! {

/// The weight of the byte at position `i`: 256 to the power `i`.
pub open spec fn byte_weight(i: nat) -> nat
    decreases i,
{
    if i == 0 {
        1
    } else {
        256 * byte_weight((i - 1) as nat)
    }
}

/// The number that a little-endian byte sequence denotes.
pub open spec fn le_value(s: Seq<u8>) -> nat
    decreases s.len(),
{
    if s.len() == 0 {
        0
    } else {
        (le_value(s.drop_last()) + byte_weight((s.len() - 1) as nat) * s.last()) as nat
    }
}

proof fn lemma_weight_16()
    ensures
        byte_weight(16) == 0x1_0000_0000_0000_0000_0000_0000_0000_0000,
{
    reveal_with_fuel(byte_weight, 17);
}

/// Reading the first byte off: `le(s) == s[0] + 256 * le(rest)`.
proof fn lemma_le_first(s: Seq<u8>)
    requires
        s.len() > 0,
    ensures
        le_value(s) == s[0] + 256 * le_value(s.drop_first()),
    decreases s.len(),
{
    if s.len() > 1 {
        let t = s.drop_last();
        lemma_le_first(t);
        assert(t.drop_first() =~= s.drop_first().drop_last());
        let n = (s.len() - 1) as nat;
        assert(byte_weight(n) == 256 * byte_weight((n - 1) as nat));
        let w = byte_weight((n - 1) as nat);
        let l = s.last() as int;
        let d = s.drop_first();
        assert(d.last() == l);
        assert(le_value(d) == le_value(d.drop_last()) + w * l);
        assert(t[0] == s[0]);
        assert(le_value(s) == le_value(t) + byte_weight(n) * l);
        assert(le_value(t) == t[0] + 256 * le_value(t.drop_first()));
        assert(256 * (le_value(t.drop_first()) + w * l) == 256 * le_value(t.drop_first()) + (256
            * w) * l) by (nonlinear_arith);
        assert(le_value(d.drop_last()) == le_value(t.drop_first()));
        assert(le_value(s) == s[0] + 256 * le_value(t.drop_first()) + byte_weight(n) * l);
    } else {
        assert(s.drop_first().len() == 0);
        assert(s.drop_last().len() == 0);
        assert(s.last() == s[0]);
        assert(byte_weight(0) == 1);
        assert(le_value(s.drop_first()) == 0);
        assert(le_value(s.drop_last()) == 0);
        assert((s.len() - 1) as nat == 0);
        assert(le_value(s) == le_value(s.drop_last()) + byte_weight(0) * s.last());
        assert(le_value(s) == s[0]);
    }
}

/// A little-endian number of `n` bytes is below `256^n`.
pub(crate) proof fn lemma_le_bound(s: Seq<u8>)
    ensures
        le_value(s) < byte_weight(s.len()),
    decreases s.len(),
{
    if s.len() > 0 {
        let n = (s.len() - 1) as nat;
        lemma_le_bound(s.drop_last());
        let w = byte_weight(n);
        let l = s.last() as int;
        assert(le_value(s.drop_last()) + w * l < 256 * w) by (nonlinear_arith)
            requires
                le_value(s.drop_last()) < w,
                0 <= l <= 255,
        ;
    }
}

/// Encodes `x` as 16 bytes, least significant first.
pub fn encode_le(x: u128) -> (r: [u8; 16])
    ensures
        le_value(r@) == x,
{
    let mut out = [0u8; 16];
    let mut rest: u128 = x;
    let mut i: usize = 0;
    assert(out@.take(0) =~= Seq::<u8>::empty());
    assert(byte_weight(0) == 1);
    while i < 16
        invariant
            i <= 16,
            out@.len() == 16,
            x == le_value(out@.take(i as int)) + byte_weight(i as nat) * rest,
        decreases 16 - i,
    {
        let b: u8 = (rest % 256) as u8;
        let next: u128 = rest / 256;
        let ghost before = out@;
        out[i] = b;
        proof {
            assert(out@.take(i + 1).drop_last() =~= before.take(i as int));
            assert(out@.take(i + 1).last() == b);
            let w = byte_weight(i as nat);
            assert(byte_weight((i + 1) as nat) == 256 * w);
            assert(w * rest == w * b + (256 * w) * next) by (nonlinear_arith)
                requires
                    rest == b + 256 * next,
            ;
        }
        rest = next;
        i = i + 1;
    }
    proof {
        lemma_weight_16();
        assert(out@.take(16) =~= out@);
        assert(rest == 0) by (nonlinear_arith)
            requires
                x == le_value(out@) + 0x1_0000_0000_0000_0000_0000_0000_0000_0000 * rest,
                x < 0x1_0000_0000_0000_0000_0000_0000_0000_0000,
        ;
    }
    out
}

/// Decodes 16 bytes, least significant first.
pub fn decode_le(b: [u8; 16]) -> (r: u128)
    ensures
        r == le_value(b@),
{
    let mut acc: u128 = 0;
    let mut i: usize = 16;
    assert(b@.subrange(16, 16) =~= Seq::<u8>::empty());
    while i > 0
        invariant
            i <= 16,
            b@.len() == 16,
            acc == le_value(b@.subrange(i as int, 16)),
        decreases i,
    {
        let ghost tail = b@.subrange(i as int, 16);
        let ghost longer = b@.subrange(i - 1, 16);
        proof {
            lemma_le_first(longer);
            assert(longer.drop_first() =~= tail);
            lemma_le_bound(tail);
            lemma_le_bound(longer);
            lemma_weight_16();
            if i > 1 {
                assert(byte_weight(16) >= byte_weight(longer.len())) by {
                    lemma_weight_monotone(longer.len(), 16);
                }
            }
        }
        acc = acc * 256 + b[i - 1] as u128;
        i = i - 1;
    }
    proof {
        assert(b@.subrange(0, 16) =~= b@);
    }
    acc
}

proof fn lemma_weight_monotone(i: nat, j: nat)
    requires
        i <= j,
    ensures
        byte_weight(i) <= byte_weight(j),
    decreases j,
{
    if i < j {
        lemma_weight_monotone(i, (j - 1) as nat);
    }
}

} // verus!
