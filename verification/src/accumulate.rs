//! The single-threaded windowed accumulator.

use crate::algebra::{lemma_msm_add_at, lemma_msm_double, lemma_msm_prefix, lemma_msm_zero};
use crate::group::{msm, CurveGroup};
use crate::scalar::{
    high_part, lemma_digit_of_truncation, lemma_high_part_bottom, lemma_high_part_step,
    lemma_high_part_top, lemma_limb_digit, lemma_scalar_value_bound, lemma_window_position,
    limbs_value, scalar_value, window_digit, LIMB_BITS,
};
use crate::table::{row_holds_multiples, rows_of, table_points, table_wf, MultiscalarPrecomp};
use vstd::arithmetic::div_mod::lemma_mod_bound;
use vstd::arithmetic::power2::{
    lemma2_to64, lemma_pow2_pos, lemma_pow2_strictly_increases, lemma_pow2_unfold, pow2,
};
use vstd::prelude::*;

verus! {

/// Why an accumulation was refused.
#[derive(Clone, Copy, Debug, PartialEq, Eq, Structural)]
pub enum MultiscalarError {
    /// The window size does not evenly divide the limb width, or does not
    /// evenly divide the number of bits to process.
    UnsupportedWindowSize,
}

/// The window sizes that the accumulator takes for `nbits` bits: those that
/// evenly divide both `nbits` and the limb width.
pub open spec fn window_supported(window_size: usize, nbits: usize) -> bool {
    &&& window_size >= 1
    &&& nbits % window_size == 0
    &&& LIMB_BITS % window_size == 0
}

/// The numbers that the `nbits` low bits of each scalar denote.
pub open spec fn scalar_values<const N: usize>(k: Seq<[u64; N]>, nbits: nat) -> Seq<nat> {
    Seq::new(k.len(), |i: int| scalar_value(k[i]@, nbits))
}

/// Tells whether the accumulator takes this window size for `nbits` bits.
pub fn check_window(window_size: usize, nbits: usize) -> (r: Result<(), MultiscalarError>)
    ensures
        r is Ok <==> window_supported(window_size, nbits),
{
    if window_size == 0 || nbits % window_size != 0 || LIMB_BITS % window_size != 0 {
        Err(MultiscalarError::UnsupportedWindowSize)
    } else {
        Ok(())
    }
}

/// `Σ k[m] · P_m` over the first `num_points` scalars of `k` and the first
/// `num_points` points of the table, reading the `nbits` low bits of each
/// scalar.
///
/// The windows are taken from the most significant down. For each window
/// the accumulator is doubled `window_size` times; then each point's digit
/// is looked up, and the table entry of the point before it is added, so
/// that an addition is always one step behind its lookup. The last point's
/// entry is added after the pass.
///
/// Refused, before any group operation, when the table's window size does
/// not evenly divide `nbits` and the limb width.
pub fn multiscalar<G: CurveGroup, T: MultiscalarPrecomp<G>, const N: usize>(
    k: &[[u64; N]],
    precomp_table: &T,
    num_points: usize,
    nbits: usize,
) -> (r: Result<G, MultiscalarError>)
    requires
        num_points <= k@.len(),
        num_points <= precomp_table.rows().len(),
        nbits <= LIMB_BITS * N,
    ensures
        r is Ok <==> window_supported(precomp_table.spec_window_size(), nbits),
        r matches Ok(total) ==> total.point() == msm::<G>(
            scalar_values(k@, nbits as nat),
            table_points::<G>(precomp_table.rows()),
            num_points as nat,
        ),
{
    let w: usize = precomp_table.window_size();
    let mask: u64 = precomp_table.window_mask();
    let tables = precomp_table.tables();
    if check_window(w, nbits).is_err() {
        return Err(MultiscalarError::UnsupportedWindowSize);
    }
    let ghost rows = precomp_table.rows();
    let ghost vals = scalar_values(k@, nbits as nat);
    let ghost pts = table_points::<G>(rows);
    let ghost n = num_points as nat;
    let ghost wn = w as nat;

    let mut result = G::zero();
    let num_windows: usize = nbits / w;
    let per_limb: usize = LIMB_BITS / w;
    let ghost mut cur: Seq<nat> = Seq::new(n, |m: int| 0nat);
    proof {
        assert(nbits == w * num_windows) by (nonlinear_arith)
            requires
                nbits % w == 0,
                num_windows == nbits / w,
                w >= 1,
        ;
        lemma2_to64();
        if w < 32 {
            lemma_pow2_strictly_increases(wn, 32);
        }
        assert(mask <= u32::MAX);
        assert(per_limb >= 1) by (nonlinear_arith)
            requires
                per_limb == 64usize / w,
                1 <= w <= 32,
        ;
        lemma_msm_zero::<G>(cur, pts, n);
        assert forall|m: int| 0 <= m < n implies cur[m] == high_part(
            vals[m],
            wn,
            num_windows as nat,
        ) by {
            lemma_scalar_value_bound(k@[m]@, nbits as nat);
            lemma_high_part_top(vals[m], wn, num_windows as nat);
        }
    }

    let mut i: usize = num_windows;
    while i > 0
        invariant
            0 <= i <= num_windows,
            nbits == w * num_windows,
            nbits <= LIMB_BITS * N,
            per_limb == LIMB_BITS / w,
            window_supported(w, nbits),
            per_limb >= 1,
            mask <= u32::MAX,
            w == precomp_table.spec_window_size(),
            mask == precomp_table.spec_window_mask(),
            rows == precomp_table.rows(),
            rows_of(tables@) == rows,
            table_wf::<G>(w, mask, rows),
            n == num_points,
            wn == w,
            n <= k@.len(),
            n <= rows.len(),
            vals == scalar_values(k@, nbits as nat),
            pts == table_points::<G>(rows),
            cur.len() == n,
            forall|m: int| 0 <= m < n ==> cur[m] == high_part(vals[m], wn, i as nat),
            result.point() == msm::<G>(cur, pts, n),
        decreases i,
    {
        i = i - 1;
        proof {
            assert(i * w + w <= nbits) by (nonlinear_arith)
                requires
                    i + 1 <= num_windows,
                    nbits == w * num_windows,
                    w >= 1,
            ;
            lemma_window_position(wn, i as nat);
            lemma2_to64();
        }
        let limb: usize = (i * w) / LIMB_BITS;
        let shift: usize = (i % per_limb) * w;

        // Shift the accumulator up by one window.
        let ghost base = cur;
        let mut j: usize = 0;
        while j < w
            invariant
                0 <= j <= w,
                n == num_points,
                cur.len() == n,
                base.len() == n,
                forall|m: int| 0 <= m < n ==> cur[m] == pow2(j as nat) * base[m],
                result.point() == msm::<G>(cur, pts, n),
            decreases w - j,
        {
            let ghost before = cur;
            result.double();
            proof {
                cur = Seq::new(n, |m: int| 2 * before[m]);
                lemma_msm_double::<G>(before, cur, pts, n);
                lemma_pow2_unfold((j + 1) as nat);
                assert forall|m: int| 0 <= m < n implies cur[m] == pow2((j + 1) as nat)
                    * base[m] by {
                    assert(2 * (pow2(j as nat) * base[m]) == (2 * pow2(j as nat)) * base[m])
                        by (nonlinear_arith);
                }
            }
            j = j + 1;
        }

        // Add each point's digit of this window, one step behind its lookup.
        let mut prev_idx: u64 = 0;
        let mut prev_m: usize = 0;
        let mut m: usize = 0;
        while m < num_points
            invariant
                0 <= m <= num_points,
                n == num_points,
                wn == w,
                1 <= w < 64,
                mask <= u32::MAX,
                mask == pow2(wn) - 1,
                LIMB_BITS % w == 0,
                i * w + w <= nbits,
                nbits <= LIMB_BITS * N,
                limb == (i * w) / (LIMB_BITS as int),
                shift == (i % (LIMB_BITS / w)) * w,
                shift + w <= 64,
                n <= k@.len(),
                n <= rows.len(),
                rows_of(tables@) == rows,
                table_wf::<G>(w, mask, rows),
                vals == scalar_values(k@, nbits as nat),
                pts == table_points::<G>(rows),
                cur.len() == n,
                base.len() == n,
                m == 0 ==> prev_idx == 0,
                m > 0 ==> prev_m == m - 1 && prev_idx == window_digit(vals[m - 1], wn, i as nat),
                forall|t: int|
                    0 <= t < n ==> cur[t] == pow2(wn) * base[t] + (if t < m - 1 {
                        window_digit(vals[t], wn, i as nat)
                    } else {
                        0
                    }),
                result.point() == msm::<G>(cur, pts, n),
            decreases num_points - m,
        {
            proof {
                assert(limb < N) by (nonlinear_arith)
                    requires
                        limb == (i * w) / 64,
                        i * w + w <= nbits,
                        nbits <= 64 * N,
                        w >= 1,
                ;
                assert(wn * (i as nat + 1) <= nbits) by (nonlinear_arith)
                    requires
                        i * w + w <= nbits,
                        wn == w,
                ;
                lemma_limb_digit(k@[m as int]@, wn, i as nat, limb as nat, shift as nat, mask);
                lemma_digit_of_truncation(limbs_value(k@[m as int]@), nbits as nat, wn, i as nat);
            }
            let idx: u64 = (k[m][limb] >> (shift as u64)) & mask;
            if prev_idx > 0 && m > 0 {
                let ghost before = cur;
                let ghost d = prev_idx as nat;
                proof {
                    assert(row_holds_multiples::<G>(
                        rows[prev_m as int][0],
                        rows[prev_m as int],
                        (pow2(wn) - 1) as nat,
                    ));
                    assert(d <= pow2(wn) - 1) by {
                        lemma_mod_bound(
                            (vals[m - 1] / pow2(wn * i as nat)) as int,
                            pow2(wn) as int,
                        );
                        lemma_pow2_pos(wn);
                    }
                }
                result.add_assign_mixed(&tables[prev_m][prev_idx as usize - 1]);
                proof {
                    cur = before.update(prev_m as int, before[prev_m as int] + d);
                    lemma_msm_add_at::<G>(before, cur, pts, n, prev_m as int, d);
                }
            }
            prev_idx = idx;
            prev_m = m;
            m = m + 1;
        }
        // The last point's digit is still owed.
        if prev_idx > 0 {
            let ghost before = cur;
            let ghost d = prev_idx as nat;
            proof {
                assert(row_holds_multiples::<G>(
                    rows[prev_m as int][0],
                    rows[prev_m as int],
                    (pow2(wn) - 1) as nat,
                ));
                assert(d <= pow2(wn) - 1) by {
                    lemma_mod_bound(
                        (vals[prev_m as int] / pow2(wn * i as nat)) as int,
                        pow2(wn) as int,
                    );
                    lemma_pow2_pos(wn);
                }
            }
            result.add_assign_mixed(&tables[prev_m][prev_idx as usize - 1]);
            proof {
                cur = before.update(prev_m as int, before[prev_m as int] + d);
                lemma_msm_add_at::<G>(before, cur, pts, n, prev_m as int, d);
            }
        }
        proof {
            assert forall|t: int| 0 <= t < n implies cur[t] == high_part(vals[t], wn, i as nat) by {
                lemma_high_part_step(vals[t], wn, i as nat);
            }
        }
    }
    proof {
        assert forall|t: int| 0 <= t < n implies cur[t] == vals[t] by {
            lemma_high_part_bottom(vals[t], wn);
        }
        lemma_msm_prefix::<G>(cur, pts, vals, pts, n);
    }
    Ok(result)
}

} // verus!
