//! The engine on the integers modulo 2^64, where every expected value can be
//! computed with wrapping arithmetic.

use window_msm::accumulate::{check_window, multiscalar, MultiscalarError};
use window_msm::chunks::{chunk_range, chunk_size_for, num_chunks, num_workers};
use window_msm::group::CurveGroup;
use window_msm::inputs::PublicInputs;
use window_msm::mod64::Mod64;
use window_msm::pool::{pool_threads, PoolError, WorkerPool};
use window_msm::schedule::{
    chunk_sum, combine, new_scratch, par_multiscalar, sequential_sum, worker, Partial,
};
use window_msm::table::{
    mask_for, multiples_row, precompute_fixed_window, MultiscalarPrecomp, MAX_WINDOW_SIZE,
    WINDOW_SIZE,
};
use std::sync::atomic::{AtomicUsize, Ordering};

type Scalar = [u64; 4];
type Getter = fn(usize) -> Scalar;

fn pool(threads: usize) -> WorkerPool {
    WorkerPool::with_threads(threads).unwrap()
}

/// A fixed pseudo-random stream.
fn stream(seed: u64) -> impl FnMut() -> u64 {
    let mut state = seed;
    move || {
        state = state.wrapping_mul(6364136223846793005).wrapping_add(1442695040888963407);
        state ^ (state >> 29)
    }
}

fn sample(n: usize, seed: u64) -> (Vec<u64>, Vec<Scalar>) {
    let mut next = stream(seed);
    let points = (0..n).map(|_| next()).collect();
    let scalars = (0..n).map(|_| [next(), next(), next(), next()]).collect();
    (points, scalars)
}

/// `Σ k_i · P_i` by double-and-add over all 256 bits, most significant first.
fn naive(points: &[u64], scalars: &[Scalar], nbits: usize) -> u64 {
    let mut total = Mod64::zero();
    for (p, k) in points.iter().zip(scalars) {
        let mut acc = Mod64::zero();
        for bit in (0..nbits).rev() {
            acc.double();
            if (k[bit / 64] >> (bit % 64)) & 1 == 1 {
                acc.add_assign_mixed(p);
            }
        }
        total.add_assign(&acc);
    }
    total.value
}

fn slice_of(scalars: &[Scalar]) -> PublicInputs<'_, 4, Getter> {
    PublicInputs::Slice(scalars)
}

#[test]
fn two_points_window_two() {
    let points = [0x1234_5678_9abc_def1u64, 0x0fed_cba9_8765_4321u64];
    let scalars = [[3u64, 0, 0, 0], [5u64, 0, 0, 0]];
    let table = precompute_fixed_window::<Mod64>(&points, 2);
    let expected = points[0].wrapping_mul(3).wrapping_add(points[1].wrapping_mul(5));
    let got = multiscalar::<Mod64, _, 4>(&scalars, &table, 2, 4).unwrap();
    assert_eq!(got.value, expected);
    let got = par_multiscalar::<Mod64, _, _, 4>(&pool(2), 2, &slice_of(&scalars), &table, 2, 4);
    assert_eq!(got.unwrap().value, expected);
}

#[test]
fn window_seven_is_refused_for_sixty_four_bits() {
    let points = [7u64, 11u64];
    let scalars = [[1u64, 0, 0, 0], [2u64, 0, 0, 0]];
    let table = precompute_fixed_window::<Mod64>(&points, 7);
    assert_eq!(table.window_size(), 7);
    assert_eq!(table.window_mask(), 127);
    let got = multiscalar::<Mod64, _, 4>(&scalars, &table, 2, 64);
    assert_eq!(got.err(), Some(MultiscalarError::UnsupportedWindowSize));
    let got = par_multiscalar::<Mod64, _, _, 4>(&pool(2), 2, &slice_of(&scalars), &table, 2, 64);
    assert_eq!(got.err(), Some(MultiscalarError::UnsupportedWindowSize));
}

#[test]
fn window_must_divide_bits_and_limb() {
    assert_eq!(check_window(8, 256), Ok(()));
    assert_eq!(check_window(1, 1), Ok(()));
    assert_eq!(check_window(64, 128), Ok(()));
    assert_eq!(check_window(7, 64), Err(MultiscalarError::UnsupportedWindowSize));
    assert_eq!(check_window(7, 63), Err(MultiscalarError::UnsupportedWindowSize));
    assert_eq!(check_window(8, 60), Err(MultiscalarError::UnsupportedWindowSize));
    assert_eq!(check_window(0, 64), Err(MultiscalarError::UnsupportedWindowSize));
    // window 4 divides the limb but not 6 bits
    let table = precompute_fixed_window::<Mod64>(&[3u64], 4);
    let got = multiscalar::<Mod64, _, 4>(&[[1u64, 0, 0, 0]], &table, 1, 6);
    assert_eq!(got.err(), Some(MultiscalarError::UnsupportedWindowSize));
}

#[test]
fn rows_hold_the_multiples_of_their_point() {
    let (points, _) = sample(5, 1);
    for window_size in [1usize, 2, 3, 4, 8] {
        let table = precompute_fixed_window::<Mod64>(&points, window_size);
        let entries = (1usize << window_size) - 1;
        assert_eq!(table.num_points(), 5);
        assert_eq!(table.table_entries(), entries);
        assert_eq!(table.window_mask(), entries as u64);
        assert_eq!(table.tables().len(), 5);
        for (i, row) in table.tables().iter().enumerate() {
            assert_eq!(row.len(), entries);
            for (j, entry) in row.iter().enumerate() {
                assert_eq!(*entry, points[i].wrapping_mul(j as u64 + 1));
            }
        }
    }
}

#[test]
fn one_row_of_multiples() {
    assert_eq!(multiples_row::<Mod64>(&5, 1), vec![5]);
    assert_eq!(multiples_row::<Mod64>(&5, 3), vec![5, 10, 15]);
    assert_eq!(multiples_row::<Mod64>(&u64::MAX, 3), vec![u64::MAX, u64::MAX - 1, u64::MAX - 2]);
}

#[test]
fn masks() {
    assert_eq!(mask_for(1), 1);
    assert_eq!(mask_for(2), 3);
    assert_eq!(mask_for(8), 255);
    assert_eq!(mask_for(32), 0xffff_ffff);
}

#[test]
fn empty_table() {
    let table = precompute_fixed_window::<Mod64>(&[], 8);
    assert_eq!(table.num_points(), 0);
    assert_eq!(table.tables().len(), 0);
    let got = multiscalar::<Mod64, _, 4>(&[], &table, 0, 256).unwrap();
    assert_eq!(got.value, 0);
}

#[test]
fn parallel_sum_equals_naive_sum() {
    for n in [0usize, 1, 2, 17, 1023, 1024, 1025] {
        let (points, scalars) = sample(n, 40 + n as u64);
        let table = precompute_fixed_window::<Mod64>(&points, 8);
        let got = par_multiscalar::<Mod64, _, _, 4>(&pool(4), 4, &slice_of(&scalars), &table, n, 256);
        assert_eq!(got.unwrap().value, naive(&points, &scalars, 256), "n = {}", n);
    }
}

#[test]
fn accumulator_equals_naive_sum_for_every_window() {
    let (points, scalars) = sample(9, 3);
    for window_size in [1usize, 2, 4, 8, 16] {
        let table = precompute_fixed_window::<Mod64>(&points, window_size);
        for nbits in [0usize, 16, 64, 128, 256] {
            let got = multiscalar::<Mod64, _, 4>(&scalars, &table, 9, nbits).unwrap();
            assert_eq!(got.value, naive(&points, &scalars, nbits), "w = {}", window_size);
        }
    }
}

#[test]
fn only_the_low_bits_are_read() {
    let points = [1u64, 1 << 8];
    let scalars = [[0xabcdu64, 9, 9, 9], [0x1234u64, 7, 7, 7]];
    let table = precompute_fixed_window::<Mod64>(&points, 4);
    let got = multiscalar::<Mod64, _, 4>(&scalars, &table, 2, 8).unwrap();
    assert_eq!(got.value, 0xcd + (0x34 << 8));
    let got = multiscalar::<Mod64, _, 4>(&scalars, &table, 2, 16).unwrap();
    assert_eq!(got.value, 0xabcd + (0x1234 << 8));
}

#[test]
fn only_the_first_points_are_summed() {
    let (points, scalars) = sample(6, 8);
    let table = precompute_fixed_window::<Mod64>(&points, 8);
    let got = multiscalar::<Mod64, _, 4>(&scalars, &table, 4, 256).unwrap();
    assert_eq!(got.value, naive(&points[..4], &scalars[..4], 256));
}

#[test]
fn thread_count_does_not_change_the_result() {
    let (points, scalars) = sample(1500, 5);
    let table = precompute_fixed_window::<Mod64>(&points, 8);
    let expected = naive(&points, &scalars, 256);
    let shared = pool(8);
    for max_threads in [0usize, 1, 2, 8, 100] {
        let got = par_multiscalar::<Mod64, _, _, 4>(
            &shared,
            max_threads,
            &slice_of(&scalars),
            &table,
            1500,
            256,
        );
        assert_eq!(got.unwrap().value, expected, "max_threads = {}", max_threads);
    }
}

#[test]
fn view_at_offset_sums_the_chunk() {
    let (points, scalars) = sample(40, 6);
    let table = precompute_fixed_window::<Mod64>(&points, 4);
    for (offset, len) in [(0usize, 40usize), (7, 16), (39, 1), (40, 0), (16, 24)] {
        let view = table.at_point(offset);
        assert_eq!(view.num_points(), 40 - offset);
        assert_eq!(view.window_size(), 4);
        assert_eq!(view.window_mask(), 15);
        assert_eq!(view.table_entries(), 15);
        let got = multiscalar::<Mod64, _, 4>(&scalars[offset..], &view, len, 256).unwrap();
        let expected = naive(&points[offset..offset + len], &scalars[offset..offset + len], 256);
        assert_eq!(got.value, expected);
        // a view of a view
        let inner = view.at_point(len);
        assert_eq!(inner.num_points(), 40 - offset - len);
        assert_eq!(inner.tables().len(), 40 - offset - len);
    }
}

#[test]
fn zero_scalars_add_nothing() {
    let (points, mut scalars) = sample(20, 7);
    for window_size in [1usize, 2, 4, 8] {
        let table = precompute_fixed_window::<Mod64>(&points, window_size);
        let zeros = vec![[0u64; 4]; 20];
        let got = multiscalar::<Mod64, _, 4>(&zeros, &table, 20, 256).unwrap();
        assert_eq!(got.value, 0);
    }
    let table = precompute_fixed_window::<Mod64>(&points, 8);
    let with_all = naive(&points, &scalars, 256);
    let dropped = points[3].wrapping_mul(scalars[3][0]);
    scalars[3] = [0; 4];
    let got = par_multiscalar::<Mod64, _, _, 4>(&pool(2), 2, &slice_of(&scalars), &table, 20, 256);
    assert_eq!(got.unwrap().value, with_all.wrapping_sub(dropped));
}

fn scalar_at(i: usize) -> Scalar {
    let i = i as u64;
    [i.wrapping_mul(0x9e37_79b9_7f4a_7c15), i + 1, !i, i * i]
}

#[test]
fn getter_and_sequence_agree() {
    for n in [0usize, 3, 16, 100, 1030] {
        let (points, _) = sample(n, 9);
        let scalars: Vec<Scalar> = (0..n).map(scalar_at).collect();
        let table = precompute_fixed_window::<Mod64>(&points, 8);
        let shared = pool(3);
        let from_slice =
            par_multiscalar::<Mod64, _, _, 4>(&shared, 3, &slice_of(&scalars), &table, n, 256);
        let getter: PublicInputs<'_, 4, Getter> = PublicInputs::Getter(scalar_at);
        let from_getter = par_multiscalar::<Mod64, _, _, 4>(&shared, 3, &getter, &table, n, 256);
        assert_eq!(from_slice.unwrap().value, from_getter.unwrap().value);
        assert_eq!(from_getter.unwrap().value, naive(&points, &scalars, 256));
    }
}

#[test]
fn get_reads_either_source() {
    let scalars = [[1u64, 2, 3, 4], [5u64, 6, 7, 8]];
    assert_eq!(slice_of(&scalars).get(1), [5, 6, 7, 8]);
    let getter: PublicInputs<'_, 4, Getter> = PublicInputs::Getter(scalar_at);
    assert_eq!(getter.get(2), scalar_at(2));
    let closure = PublicInputs::<'_, 2, _>::Getter(|i: usize| [i as u64, 1]);
    assert_eq!(closure.get(9), [9, 1]);
}

#[test]
fn three_points_fall_back_to_single_point_chunks() {
    assert_eq!(chunk_size_for(3), 1);
    assert_eq!(num_chunks(3, 1), 3);
    assert_eq!(num_workers(8, 3, 1), 3);
    let (points, scalars) = sample(3, 10);
    let table = precompute_fixed_window::<Mod64>(&points, 8);
    let source = slice_of(&scalars);
    let got = par_multiscalar::<Mod64, _, _, 4>(&pool(8), 8, &source, &table, 3, 256);
    assert_eq!(got.unwrap().value, naive(&points, &scalars, 256));
    // one worker alone takes the three chunks, one point each
    let work = AtomicUsize::new(0);
    let partial = worker::<Mod64, _, _, 4>(&work, &source, &table, 1, 3, 256);
    assert_eq!(partial.claimed, vec![0, 1, 2]);
    assert_eq!(partial.total.value, naive(&points, &scalars, 256));
    // it has taken as many chunks as there are, and draws no further ticket
    assert_eq!(work.load(Ordering::SeqCst), 3);
}

#[test]
fn chunk_sizes() {
    assert_eq!(chunk_size_for(0), 1);
    assert_eq!(chunk_size_for(1), 1);
    assert_eq!(chunk_size_for(15), 1);
    assert_eq!(chunk_size_for(16), 16);
    assert_eq!(chunk_size_for(17), 16);
    assert_eq!(chunk_size_for(1023), 16);
    assert_eq!(chunk_size_for(1024), 256);
    assert_eq!(chunk_size_for(1025), 256);
    assert_eq!(chunk_size_for(usize::MAX), 256);
}

#[test]
fn chunk_counts() {
    assert_eq!(num_chunks(0, 16), 0);
    assert_eq!(num_chunks(1, 16), 1);
    assert_eq!(num_chunks(16, 16), 1);
    assert_eq!(num_chunks(17, 16), 2);
    assert_eq!(num_chunks(1023, 16), 64);
    assert_eq!(num_chunks(1025, 256), 5);
    assert_eq!(num_chunks(usize::MAX, 1), usize::MAX);
    assert_eq!(num_workers(4, 1025, 256), 4);
    assert_eq!(num_workers(8, 1025, 256), 5);
    assert_eq!(num_workers(0, 1025, 256), 0);
    assert_eq!(num_workers(3, 0, 1), 0);
}

#[test]
fn chunk_ranges() {
    assert_eq!(chunk_range(0, 16, 40), Some((0, 16)));
    assert_eq!(chunk_range(1, 16, 40), Some((16, 32)));
    assert_eq!(chunk_range(2, 16, 40), Some((32, 40)));
    assert_eq!(chunk_range(3, 16, 40), None);
    assert_eq!(chunk_range(usize::MAX, 16, 40), None);
    assert_eq!(chunk_range(0, 1, 0), None);
    assert_eq!(chunk_range(2, 16, 32), None);
    assert_eq!(chunk_range(1, 16, 32), Some((16, 32)));
}

#[test]
fn a_worker_stops_at_the_first_ticket_without_a_chunk() {
    let (points, scalars) = sample(40, 11);
    let table = precompute_fixed_window::<Mod64>(&points, 8);
    let source = slice_of(&scalars);
    let work = AtomicUsize::new(0);
    assert_eq!(work.fetch_add(1, Ordering::SeqCst), 0);
    let partial = worker::<Mod64, _, _, 4>(&work, &source, &table, 16, 40, 256);
    assert_eq!(partial.claimed, vec![1, 2]);
    assert_eq!(partial.total.value, naive(&points[16..], &scalars[16..], 256));
    assert_eq!(work.fetch_add(1, Ordering::SeqCst), 4);
    let late = worker::<Mod64, _, _, 4>(&work, &source, &table, 16, 40, 256);
    assert!(late.claimed.is_empty());
    assert_eq!(late.total.value, 0);
}

#[test]
fn chunks_from_either_source() {
    let (points, _) = sample(30, 12);
    let scalars: Vec<Scalar> = (0..30).map(scalar_at).collect();
    let table = precompute_fixed_window::<Mod64>(&points, 8);
    let expected = naive(&points[10..25], &scalars[10..25], 256);
    let mut scratch = new_scratch::<4>(16);
    assert_eq!(scratch, vec![[0u64; 4]; 16]);
    let source = slice_of(&scalars);
    let got = chunk_sum::<Mod64, _, _, 4>(&source, &table, &mut scratch, 10, 25, 30, 256);
    assert_eq!(got.value, expected);
    let getter: PublicInputs<'_, 4, Getter> = PublicInputs::Getter(scalar_at);
    let got = chunk_sum::<Mod64, _, _, 4>(&getter, &table, &mut scratch, 10, 25, 30, 256);
    assert_eq!(got.value, expected);
    assert_eq!(scratch.len(), 16);
    assert_eq!(scratch[0], scalar_at(10));
    assert_eq!(scratch[14], scalar_at(24));
}

#[test]
fn sequential_sum_equals_naive_sum() {
    let (points, scalars) = sample(50, 13);
    let table = precompute_fixed_window::<Mod64>(&points, 8);
    let source = slice_of(&scalars);
    for chunk_size in [1usize, 7, 16, 50, 64] {
        let got = sequential_sum::<Mod64, _, _, 4>(&source, &table, chunk_size, 50, 256);
        assert_eq!(got.value, naive(&points, &scalars, 256));
    }
}

#[test]
fn group_operations_wrap() {
    let mut a = Mod64 { value: u64::MAX };
    a.double();
    assert_eq!(a.value, u64::MAX - 1);
    a.add_assign_mixed(&5);
    assert_eq!(a.value, 3);
    a.add_assign(&Mod64 { value: 4 });
    assert_eq!(a.value, 7);
    assert_eq!(a.into_affine(), 7);
    assert_eq!(Mod64::into_projective(&9).value, 9);
    assert_eq!(Mod64::zero().value, 0);
}

#[test]
fn pools_have_at_least_six_threads() {
    assert_eq!(pool_threads(0), 6);
    assert_eq!(pool_threads(1), 6);
    assert_eq!(pool_threads(6), 6);
    assert_eq!(pool_threads(7), 7);
    assert_eq!(pool_threads(128), 128);
    assert_eq!(WorkerPool::with_threads(3).unwrap().threads(), 3);
    assert!(WorkerPool::for_machine().unwrap().threads() >= 6);
    assert_eq!(WorkerPool::for_cores(2).unwrap().threads(), 6);
    assert_eq!(WorkerPool::for_cores(9).unwrap().threads(), 9);
}

#[test]
fn a_started_pool_is_kept_with_the_number_asked_for() {
    let built = rayon::ThreadPoolBuilder::new().num_threads(2).build();
    let shared = WorkerPool::from_built(built, 2).ok().unwrap();
    assert_eq!(shared.threads(), 2);
    let (points, scalars) = sample(100, 21);
    let table = precompute_fixed_window::<Mod64>(&points, 8);
    let got = par_multiscalar::<Mod64, _, _, 4>(&shared, 2, &slice_of(&scalars), &table, 100, 256);
    assert_eq!(got.unwrap().value, naive(&points, &scalars, 256));
}

#[test]
fn a_pool_that_did_not_start_is_an_error() {
    // rayon's global pool can be started once only: the second attempt fails
    let _ = rayon::ThreadPoolBuilder::new().num_threads(1).build_global();
    let failure = rayon::ThreadPoolBuilder::new().num_threads(1).build_global().unwrap_err();
    let got = WorkerPool::from_built(Err(failure), 4);
    assert_eq!(got.err(), Some(PoolError::Build));
}

fn partial(total: u64, claimed: &[usize]) -> Partial<Mod64> {
    Partial { total: Mod64 { value: total }, claimed: claimed.to_vec() }
}

#[test]
fn totals_are_combined_when_every_chunk_was_taken_once() {
    let parts = vec![partial(10, &[2, 0]), partial(5, &[]), partial(u64::MAX, &[1, 3])];
    assert_eq!(combine(&parts, 4).map(|g| g.value), Some(14));
    assert_eq!(combine::<Mod64>(&vec![], 0).map(|g| g.value), Some(0));
    assert_eq!(combine(&vec![partial(3, &[])], 0).map(|g| g.value), Some(3));
}

#[test]
fn totals_are_not_combined_otherwise() {
    // a chunk is missing
    assert!(combine(&vec![partial(1, &[0, 1]), partial(2, &[3])], 4).is_none());
    assert!(combine::<Mod64>(&vec![], 1).is_none());
    // a chunk was taken twice, by one worker or by two
    assert!(combine(&vec![partial(1, &[0, 1, 0]), partial(2, &[2])], 3).is_none());
    assert!(combine(&vec![partial(1, &[0, 1]), partial(2, &[1, 2])], 3).is_none());
    // a chunk that does not exist
    assert!(combine(&vec![partial(1, &[0, 1, 2])], 2).is_none());
    assert!(combine(&vec![partial(1, &[usize::MAX])], 0).is_none());
}

#[test]
fn window_size_constants() {
    assert_eq!(WINDOW_SIZE, 8);
    assert_eq!(MAX_WINDOW_SIZE, 32);
    assert_eq!(check_window(WINDOW_SIZE, 256), Ok(()));
}
