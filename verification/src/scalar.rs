//! Scalars as little-endian sequences of 64-bit limbs, and the digits that a
//! fixed window cuts out of them.

use vstd::arithmetic::div_mod::{
    lemma_div_denominator, lemma_fundamental_div_mod, lemma_fundamental_div_mod_converse,
    lemma_hoist_over_denominator, lemma_mod_bound, lemma_mod_multiples_vanish, lemma_small_mod,
};
use vstd::arithmetic::mul::{lemma_mul_is_associative, lemma_mul_is_commutative};
use vstd::arithmetic::power2::{
    lemma2_to64, lemma2_to64_rest, lemma_pow2_adds, lemma_pow2_pos, pow2,
};
use vstd::bits::{
    lemma_u64_low_bits_mask_is_mod, lemma_u64_pow2_no_overflow, lemma_u64_shr_is_div,
    low_bits_mask,
};
use vstd::prelude::*;

verus! {

/// Width of one limb of a scalar, in bits.
pub const LIMB_BITS: usize = 64;

/// The number that a little-endian sequence of limbs denotes.
pub open spec fn limbs_value(limbs: Seq<u64>) -> nat
    decreases limbs.len(),
{
    if limbs.len() == 0 {
        0
    } else {
        limbs[0] as nat + pow2(64) * limbs_value(limbs.skip(1))
    }
}

/// The number denoted by the `nbits` low bits of a scalar.
pub open spec fn scalar_value(limbs: Seq<u64>, nbits: nat) -> nat {
    limbs_value(limbs) % pow2(nbits)
}

/// What is left of `v` above its `i` lowest windows of `w` bits.
pub open spec fn high_part(v: nat, w: nat, i: nat) -> nat {
    v / pow2(w * i)
}

/// The `i`-th digit of `v` in base `2^w`, counted from the least significant.
pub open spec fn window_digit(v: nat, w: nat, i: nat) -> nat {
    (v / pow2(w * i)) % pow2(w)
}

/// Bits above a digit do not change it.
pub proof fn lemma_digit_ignores_high(x: nat, c: nat, lo: nat, w: nat)
    ensures
        ((x + pow2(lo) * (pow2(w) * c)) / pow2(lo)) % pow2(w) == (x / pow2(lo)) % pow2(w),
{
    lemma_pow2_pos(lo);
    lemma_pow2_pos(w);
    let a = pow2(lo) as int;
    let b = pow2(w) as int;
    let j = b * c;
    assert(pow2(lo) * (pow2(w) * c) == j * a) by {
        lemma_mul_is_commutative(a, j);
    }
    lemma_hoist_over_denominator(x as int, j, pow2(lo));
    assert((x + j * a) / a == x as int / a + j);
    lemma_mod_multiples_vanish(c as int, x as int / a, b);
    assert((b * c + x as int / a) % b == (x as int / a) % b);
}

/// The part above window `i` is `2^w` times the part above window `i + 1`,
/// plus digit `i`.
pub proof fn lemma_high_part_step(v: nat, w: nat, i: nat)
    ensures
        high_part(v, w, i) == pow2(w) * high_part(v, w, i + 1) + window_digit(v, w, i),
{
    lemma_pow2_pos(w);
    lemma_pow2_pos(w * i);
    assert(w * (i + 1) == w * i + w) by (nonlinear_arith);
    lemma_pow2_adds(w * i, w);
    lemma_div_denominator(v as int, pow2(w * i) as int, pow2(w) as int);
    lemma_fundamental_div_mod(high_part(v, w, i) as int, pow2(w) as int);
}

/// Nothing is left above all the windows of a number that fits in them.
pub proof fn lemma_high_part_top(v: nat, w: nat, n: nat)
    requires
        v < pow2(w * n),
    ensures
        high_part(v, w, n) == 0,
{
    lemma_pow2_pos(w * n);
    lemma_fundamental_div_mod_converse(v as int, pow2(w * n) as int, 0, v as int);
}

/// Above no window at all, the whole number is left.
pub proof fn lemma_high_part_bottom(v: nat, w: nat)
    ensures
        high_part(v, w, 0) == v,
{
    assert(w * 0 == 0) by (nonlinear_arith);
    lemma2_to64();
}

/// Cutting a number down to `nbits` bits keeps every digit that lies below.
pub proof fn lemma_digit_of_truncation(f: nat, nbits: nat, w: nat, i: nat)
    requires
        w * (i + 1) <= nbits,
    ensures
        window_digit(f % pow2(nbits), w, i) == window_digit(f, w, i),
{
    lemma_pow2_pos(nbits);
    let v = f % pow2(nbits);
    let q = f / pow2(nbits);
    let rest = (nbits - w * (i + 1)) as nat;
    assert(w * (i + 1) == w * i + w) by (nonlinear_arith);
    lemma_pow2_adds(w * i, w);
    lemma_pow2_adds(w * i + w, rest);
    lemma_fundamental_div_mod(f as int, pow2(nbits) as int);
    let c = pow2(rest) * q;
    assert(pow2(nbits) * q == pow2(w * i) * (pow2(w) * c)) by {
        lemma_mul_is_associative(pow2(w * i) as int, pow2(w) as int, pow2(rest) as int);
        lemma_mul_is_associative(pow2(w * i + w) as int, pow2(rest) as int, q as int);
        lemma_mul_is_associative(pow2(w * i) as int, pow2(w) as int, c as int);
    }
    lemma_digit_ignores_high(v, c, w * i, w);
}

/// A truncated number fits in its bits.
pub proof fn lemma_scalar_value_bound(limbs: Seq<u64>, nbits: nat)
    ensures
        scalar_value(limbs, nbits) < pow2(nbits),
{
    lemma_pow2_pos(nbits);
    assert(limbs_value(limbs) % pow2(nbits) < pow2(nbits)) by {
        lemma_mod_bound(limbs_value(limbs) as int, pow2(nbits) as int);
    }
}

/// Dropping `l` limbs divides the value by `2^(64 l)`.
pub proof fn lemma_limbs_value_skip(limbs: Seq<u64>, l: nat)
    requires
        l <= limbs.len(),
    ensures
        limbs_value(limbs) / pow2(64 * l) == limbs_value(limbs.skip(l as int)),
    decreases l,
{
    if l == 0 {
        assert(limbs.skip(0) =~= limbs);
        lemma2_to64();
    } else {
        let k = (l - 1) as nat;
        lemma_limbs_value_skip(limbs, k);
        let tail = limbs.skip(k as int);
        assert(tail.skip(1) =~= limbs.skip(l as int));
        lemma_pow2_pos(64 * k);
        lemma_pow2_pos(64);
        assert(64 * l == 64 * k + 64);
        lemma_pow2_adds(64 * k, 64);
        lemma_div_denominator(limbs_value(limbs) as int, pow2(64 * k) as int, pow2(64) as int);
        assert(pow2(64) == 0x1_0000_0000_0000_0000) by {
            lemma2_to64_rest();
        }
        assert(limbs_value(tail) == tail[0] as nat + pow2(64) * limbs_value(tail.skip(1)));
        lemma_mul_is_commutative(pow2(64) as int, limbs_value(tail.skip(1)) as int);
        lemma_fundamental_div_mod_converse(
            limbs_value(tail) as int,
            pow2(64) as int,
            limbs_value(tail.skip(1)) as int,
            tail[0] as int,
        );
    }
}

/// Where window `i` of width `w` lies: in limb `(i w) / 64`, at a bit offset
/// that leaves the whole window inside the limb.
pub proof fn lemma_window_position(w: nat, i: nat)
    requires
        1 <= w <= 64,
        64nat % w == 0,
    ensures
        w * i == 64 * ((i * w) / 64) + (i % (64nat / w)) * w,
        (i % (64nat / w)) * w + w <= 64,
        i / (64nat / w) == (i * w) / 64,
{
    let per = 64nat / w;
    lemma_fundamental_div_mod(64, w as int);
    assert(64 == w * per);
    assert(per >= 1) by (nonlinear_arith)
        requires
            64 == w * per,
            w >= 1,
            per >= 0,
    ;
    lemma_fundamental_div_mod(i as int, per as int);
    let q = i / per;
    let r = i % per;
    assert(0 <= r < per);
    assert(w * i == 64 * q + r * w) by (nonlinear_arith)
        requires
            i == per * q + r,
            64 == w * per,
    ;
    assert(r * w + w <= 64) by (nonlinear_arith)
        requires
            0 <= r < per,
            64 == w * per,
            w >= 1,
    ;
    assert(i * w == w * i) by (nonlinear_arith);
    assert(0 <= r * w) by (nonlinear_arith)
        requires
            0 <= r,
            w >= 1,
    ;
    lemma_fundamental_div_mod_converse((i * w) as int, 64, q as int, (r * w) as int);
}

/// The digit that shifting and masking one limb yields is the digit of the
/// whole number.
pub proof fn lemma_limb_digit(limbs: Seq<u64>, w: nat, i: nat, limb: nat, shift: nat, mask: u64)
    requires
        1 <= w < 64,
        64nat % w == 0,
        limb == (i * w) / 64,
        shift == (i % (64nat / w)) * w,
        limb < limbs.len(),
        mask == pow2(w) - 1,
    ensures
        shift + w <= 64,
        ((limbs[limb as int] >> (shift as u64)) & mask) == window_digit(limbs_value(limbs), w, i),
{
    lemma_window_position(w, i);
    let x = limbs[limb as int];
    let f = limbs_value(limbs);
    let tail = limbs.skip(limb as int);
    let above = limbs_value(tail.skip(1));
    lemma_limbs_value_skip(limbs, limb);
    assert(tail[0] == x);
    assert(limbs_value(tail) == x as nat + pow2(64) * above);
    // f / 2^(w i) == (x + 2^64 above) / 2^shift
    lemma_pow2_pos(64 * limb);
    lemma_pow2_pos(shift);
    lemma_pow2_pos(w);
    lemma_pow2_adds(64 * limb, shift);
    lemma_div_denominator(f as int, pow2(64 * limb) as int, pow2(shift) as int);
    assert(f / pow2(w * i) == limbs_value(tail) / pow2(shift));
    // 2^64 == 2^shift * (2^w * 2^rest)
    let rest = (64 - shift - w) as nat;
    lemma_pow2_adds(shift, w);
    lemma_pow2_adds(shift + w, rest);
    let c = pow2(rest) * above;
    assert(pow2(64) * above == pow2(shift) * (pow2(w) * c)) by {
        lemma_mul_is_associative(pow2(shift) as int, pow2(w) as int, pow2(rest) as int);
        lemma_mul_is_associative(pow2(shift + w) as int, pow2(rest) as int, above as int);
        lemma_mul_is_associative(pow2(shift) as int, pow2(w) as int, c as int);
    }
    lemma_digit_ignores_high(x as nat, c, shift, w);
    // the bit operations
    let s = shift as u64;
    lemma_u64_shr_is_div(x, s);
    let y = x >> s;
    lemma_u64_low_bits_mask_is_mod(y, w);
    assert(low_bits_mask(w) == pow2(w) - 1);
    assert(pow2(w) <= u64::MAX) by {
        lemma_u64_pow2_no_overflow(w);
    }
}

/// Every digit of zero is zero, whatever the window size.
pub proof fn lemma_zero_has_zero_digits(w: nat, i: nat)
    ensures
        window_digit(0, w, i) == 0,
{
    lemma_pow2_pos(w * i);
    lemma_pow2_pos(w);
    lemma_fundamental_div_mod_converse(0, pow2(w * i) as int, 0, 0);
    lemma_small_mod(0, pow2(w));
}

/// A scalar whose limbs are all zero has the value zero.
pub proof fn lemma_zero_limbs_value(limbs: Seq<u64>, nbits: nat)
    requires
        forall|j: int| 0 <= j < limbs.len() ==> limbs[j] == 0,
    ensures
        limbs_value(limbs) == 0,
        scalar_value(limbs, nbits) == 0,
    decreases limbs.len(),
{
    if limbs.len() > 0 {
        let tail = limbs.skip(1);
        assert forall|j: int| 0 <= j < tail.len() implies tail[j] == 0 by {
            assert(tail[j] == limbs[j + 1]);
        }
        lemma_zero_limbs_value(tail, nbits);
        assert(pow2(64) * 0 == 0) by (nonlinear_arith);
    }
    lemma_pow2_pos(nbits);
    lemma_small_mod(0, pow2(nbits));
}

} // verus!
