//! The engine on the group G1 of BLS12-381, against double-and-add.

use groupy::{CurveAffine, CurveProjective};
use paired::bls12_381::{FrRepr, G1Affine, G1};
use window_msm::accumulate::multiscalar;
use window_msm::group::CurveGroup;
use window_msm::inputs::PublicInputs;
use window_msm::pool::WorkerPool;
use window_msm::schedule::par_multiscalar;
use window_msm::table::{precompute_fixed_window, MultiscalarPrecomp};

/// G1 in projective form, as a group that the engine can run on.
#[derive(Clone, Copy, Debug, PartialEq, Eq)]
struct Jacobian(G1);

impl CurveGroup for Jacobian {
    type Affine = G1Affine;
    type Point = G1Affine;

    fn point(&self) -> G1Affine {
        self.0.into_affine()
    }

    fn affine_point(a: G1Affine) -> G1Affine {
        a
    }

    fn identity() -> G1Affine {
        G1Affine::zero()
    }

    fn sum(a: G1Affine, b: G1Affine) -> G1Affine {
        let mut total = a.into_projective();
        total.add_assign_mixed(&b);
        total.into_affine()
    }

    fn sum_commutes(_a: G1Affine, _b: G1Affine) {}

    fn sum_associates(_a: G1Affine, _b: G1Affine, _c: G1Affine) {}

    fn sum_identity(_a: G1Affine) {}

    fn zero() -> Self {
        Jacobian(G1::zero())
    }

    fn double(&mut self) {
        self.0.double();
    }

    fn add_assign(&mut self, other: &Self) {
        self.0.add_assign(&other.0);
    }

    fn add_assign_mixed(&mut self, other: &G1Affine) {
        self.0.add_assign_mixed(other);
    }

    fn into_affine(&self) -> G1Affine {
        self.0.into_affine()
    }

    fn into_projective(a: &G1Affine) -> Self {
        Jacobian(a.into_projective())
    }
}

type Scalar = [u64; 4];
type Getter = fn(usize) -> Scalar;

fn scalar_at(i: usize) -> Scalar {
    let mut state = (i as u64).wrapping_mul(0x9e37_79b9_7f4a_7c15) ^ 0x5851_f42d_4c95_7f2d;
    let mut next = || {
        state = state.wrapping_mul(6364136223846793005).wrapping_add(1442695040888963407);
        state ^ (state >> 31)
    };
    [next(), next(), next(), next()]
}

fn points(n: usize) -> Vec<G1Affine> {
    let mut out = Vec::with_capacity(n);
    let mut cur = G1::one();
    let mut step = G1::one();
    step.mul_assign(FrRepr::from(0x1234_5678_9abc_def1u64));
    for _ in 0..n {
        out.push(cur.into_affine());
        cur.add_assign(&step);
    }
    out
}

fn naive(points: &[G1Affine], scalars: &[Scalar], nbits: usize) -> G1 {
    let mut total = G1::zero();
    for (p, k) in points.iter().zip(scalars) {
        let mut acc = G1::zero();
        for bit in (0..nbits).rev() {
            acc.double();
            if (k[bit / 64] >> (bit % 64)) & 1 == 1 {
                acc.add_assign_mixed(p);
            }
        }
        total.add_assign(&acc);
    }
    total
}

fn pool(threads: usize) -> WorkerPool {
    WorkerPool::with_threads(threads).unwrap()
}

#[test]
fn curve_rows_hold_multiples() {
    let bases = points(3);
    let table = precompute_fixed_window::<Jacobian>(&bases, 4);
    for (i, row) in table.tables().iter().enumerate() {
        assert_eq!(row.len(), 15);
        for (j, entry) in row.iter().enumerate() {
            let expected = bases[i].mul(FrRepr::from(j as u64 + 1)).into_affine();
            assert_eq!(*entry, expected);
        }
    }
}

#[test]
fn curve_accumulator_equals_double_and_add() {
    let bases = points(5);
    let scalars: Vec<Scalar> = (0..5).map(scalar_at).collect();
    for window_size in [2usize, 4, 8] {
        let table = precompute_fixed_window::<Jacobian>(&bases, window_size);
        let got = multiscalar::<Jacobian, _, 4>(&scalars, &table, 5, 256).unwrap();
        assert_eq!(got.0, naive(&bases, &scalars, 256));
    }
}

#[test]
fn curve_parallel_sum_equals_double_and_add() {
    let shared = pool(4);
    for n in [0usize, 1, 2, 17, 40] {
        let bases = points(n);
        let scalars: Vec<Scalar> = (0..n).map(scalar_at).collect();
        let table = precompute_fixed_window::<Jacobian>(&bases, 4);
        let expected = naive(&bases, &scalars, 256);
        let source: PublicInputs<'_, 4, Getter> = PublicInputs::Slice(&scalars);
        for max_threads in [1usize, 2, 8] {
            let got = par_multiscalar::<Jacobian, _, _, 4>(
                &shared,
                max_threads,
                &source,
                &table,
                n,
                256,
            );
            assert_eq!(got.unwrap().0.into_affine(), expected.into_affine());
        }
        let getter: PublicInputs<'_, 4, Getter> = PublicInputs::Getter(scalar_at);
        let got = par_multiscalar::<Jacobian, _, _, 4>(&shared, 3, &getter, &table, n, 256);
        assert_eq!(got.unwrap().0.into_affine(), expected.into_affine());
    }
}
