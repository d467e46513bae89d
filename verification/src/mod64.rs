//! The additive group of integers modulo `2^64`: the smallest group that the
//! engine can be run on, with `u64` words as elements and wrapping addition
//! as the group operation.

use crate::group::{msm, scalar_mul, CurveGroup};
use vstd::arithmetic::div_mod::{lemma_add_mod_noop, lemma_small_mod};
use vstd::prelude::*;

verus! {

/// An accumulator over the integers modulo `2^64`. Its affine form is the
/// bare word.
#[derive(Clone, Copy, Debug, PartialEq, Eq)]
pub struct Mod64 {
    /// The residue.
    pub value: u64,
}

/// `2^64`.
pub open spec fn modulus() -> int {
    0x1_0000_0000_0000_0000
}

impl CurveGroup for Mod64 {
    type Affine = u64;

    type Point = u64;

    open spec fn point(&self) -> u64 {
        self.value
    }

    open spec fn affine_point(a: u64) -> u64 {
        a
    }

    open spec fn identity() -> u64 {
        0
    }

    open spec fn sum(a: u64, b: u64) -> u64 {
        a.wrapping_add(b)
    }

    proof fn sum_commutes(a: u64, b: u64) {
    }

    proof fn sum_associates(a: u64, b: u64, c: u64) {
    }

    proof fn sum_identity(a: u64) {
    }

    fn zero() -> (r: Self) {
        Mod64 { value: 0 }
    }

    fn double(&mut self) {
        self.value = self.value.wrapping_add(self.value);
    }

    fn add_assign(&mut self, other: &Self) {
        self.value = self.value.wrapping_add(other.value);
    }

    fn add_assign_mixed(&mut self, other: &u64) {
        self.value = self.value.wrapping_add(*other);
    }

    fn into_affine(&self) -> (a: u64) {
        self.value
    }

    fn into_projective(a: &u64) -> (p: Self) {
        Mod64 { value: *a }
    }
}

/// `Σ ks[i] * ps[i]` over the first `n` indices, as a number.
pub open spec fn weighted_sum(ks: Seq<nat>, ps: Seq<u64>, n: nat) -> nat
    decreases n,
{
    if n == 0 {
        0
    } else {
        (weighted_sum(ks, ps, (n - 1) as nat) + ks[n - 1] * ps[n - 1]) as nat
    }
}

/// Wrapping addition is addition modulo `2^64`.
pub proof fn lemma_sum_is_modular(a: u64, b: u64)
    ensures
        Mod64::sum(a, b) == (a + b) % modulus(),
{
}

/// In this group `k · p` is the product `k * p` modulo `2^64`.
pub proof fn lemma_scalar_mul_is_product(k: nat, p: u64)
    ensures
        scalar_mul::<Mod64>(k, p) == (k * p) % modulus(),
    decreases k,
{
    if k == 0 {
        assert(0 * p == 0) by (nonlinear_arith);
    } else {
        let j = (k - 1) as nat;
        lemma_scalar_mul_is_product(j, p);
        lemma_sum_is_modular(scalar_mul::<Mod64>(j, p), p);
        lemma_add_mod_noop((j * p) as int, p as int, modulus());
        lemma_small_mod(p as nat, modulus() as nat);
        assert(j * p + p == k * p) by (nonlinear_arith)
            requires
                k == j + 1,
        ;
    }
}

/// In this group a multi-scalar sum is the weighted sum of the words modulo
/// `2^64`.
pub proof fn lemma_msm_is_weighted_sum(ks: Seq<nat>, ps: Seq<u64>, n: nat)
    requires
        n <= ks.len(),
        n <= ps.len(),
    ensures
        msm::<Mod64>(ks, ps, n) == weighted_sum(ks, ps, n) % (modulus() as nat),
    decreases n,
{
    if n > 0 {
        let m = (n - 1) as nat;
        let k = ks[m as int];
        let p = ps[m as int];
        lemma_msm_is_weighted_sum(ks, ps, m);
        lemma_scalar_mul_is_product(k, p);
        lemma_sum_is_modular(msm::<Mod64>(ks, ps, m), scalar_mul::<Mod64>(k, p));
        lemma_add_mod_noop(weighted_sum(ks, ps, m) as int, k * p, modulus());
        assert(k * p >= 0) by (nonlinear_arith)
            requires
                k >= 0,
                p >= 0,
        ;
        let a = weighted_sum(ks, ps, m) as int;
        let b = k * p;
        assert(msm::<Mod64>(ks, ps, n) == ((a % modulus()) + (b % modulus())) % modulus());
        assert(weighted_sum(ks, ps, n) == a + b);
    } else {
        assert(weighted_sum(ks, ps, n) == 0);
    }
}

} // verus!
