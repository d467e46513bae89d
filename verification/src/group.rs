//! The group capability that the multiplication engine is written against,
//! and the mathematical meaning of a multi-scalar multiplication.

use vstd::prelude::*;

verus! {

/// A commutative group whose elements come in two executable forms: a
/// projective form that accumulates, and an affine form that is stored.
/// Values of both forms can be handed to other threads.
///
/// Both forms denote an element of `Point`, the mathematical carrier. All
/// contracts of this crate speak of those elements, never of a representation.
pub trait CurveGroup: Sized + Send + Sync {
    /// The stored form of an element.
    type Affine: Copy + Send + Sync;

    /// The mathematical element that a value denotes.
    type Point;

    /// The element that a projective value denotes.
    spec fn point(&self) -> Self::Point;

    /// The element that an affine value denotes.
    spec fn affine_point(a: Self::Affine) -> Self::Point;

    /// The neutral element.
    spec fn identity() -> Self::Point;

    /// The group operation.
    spec fn sum(a: Self::Point, b: Self::Point) -> Self::Point;

    /// The group operation is commutative.
    proof fn sum_commutes(a: Self::Point, b: Self::Point)
        ensures
            Self::sum(a, b) == Self::sum(b, a),
    ;

    /// The group operation is associative.
    proof fn sum_associates(a: Self::Point, b: Self::Point, c: Self::Point)
        ensures
            Self::sum(Self::sum(a, b), c) == Self::sum(a, Self::sum(b, c)),
    ;

    /// Adding the neutral element changes nothing.
    proof fn sum_identity(a: Self::Point)
        ensures
            Self::sum(a, Self::identity()) == a,
    ;

    /// The neutral element in projective form.
    fn zero() -> (r: Self)
        ensures
            r.point() == Self::identity(),
    ;

    /// Replaces the element by its double.
    fn double(&mut self)
        ensures
            final(self).point() == Self::sum(old(self).point(), old(self).point()),
    ;

    /// Adds a projective element into the accumulator.
    fn add_assign(&mut self, other: &Self)
        ensures
            final(self).point() == Self::sum(old(self).point(), other.point()),
    ;

    /// Adds an affine element into the accumulator.
    fn add_assign_mixed(&mut self, other: &Self::Affine)
        ensures
            final(self).point() == Self::sum(old(self).point(), Self::affine_point(*other)),
    ;

    /// The affine form of the same element.
    fn into_affine(&self) -> (a: Self::Affine)
        ensures
            Self::affine_point(a) == self.point(),
    ;

    /// The projective form of the same element.
    fn into_projective(a: &Self::Affine) -> (p: Self)
        ensures
            p.point() == Self::affine_point(*a),
    ;
}

/// `k · p`: the element `p` added to itself `k` times.
pub open spec fn scalar_mul<G: CurveGroup>(k: nat, p: G::Point) -> G::Point
    decreases k,
{
    if k == 0 {
        G::identity()
    } else {
        G::sum(scalar_mul::<G>((k - 1) as nat, p), p)
    }
}

/// `Σ ks[i] · ps[i]` over the first `n` indices.
pub open spec fn msm<G: CurveGroup>(ks: Seq<nat>, ps: Seq<G::Point>, n: nat) -> G::Point
    decreases n,
{
    if n == 0 {
        G::identity()
    } else {
        G::sum(
            msm::<G>(ks, ps, (n - 1) as nat),
            scalar_mul::<G>(ks[n - 1], ps[n - 1]),
        )
    }
}

} // verus!
