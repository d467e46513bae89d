//! How the points of a multiplication are cut into chunks of work, and why
//! the chunks' sums add up to the whole.

use crate::algebra::{lemma_msm_split, seq_total};
use crate::group::{msm, CurveGroup};
use vstd::arithmetic::div_mod::lemma_fundamental_div_mod;
use vstd::prelude::*;

verus! {

/// Points per chunk for inputs below `LARGE_INPUT` points.
pub const SMALL_CHUNK: usize = 16;

/// Points per chunk for inputs of `LARGE_INPUT` points or more.
pub const LARGE_CHUNK: usize = 256;

/// The number of points from which chunks are large.
pub const LARGE_INPUT: usize = 1024;

/// The chunk size for `num_points` points: `SMALL_CHUNK` below `LARGE_INPUT`
/// points and `LARGE_CHUNK` from there on, but 1 where that is more than
/// there are points.
pub open spec fn spec_chunk_size(num_points: usize) -> usize {
    let tuned = if num_points >= LARGE_INPUT {
        LARGE_CHUNK
    } else {
        SMALL_CHUNK
    };
    if tuned > num_points {
        1
    } else {
        tuned
    }
}

/// The number of chunks of `chunk_size` points that cover `num_points`
/// points: `num_points / chunk_size`, rounded up.
pub open spec fn spec_num_chunks(num_points: nat, chunk_size: nat) -> nat {
    if num_points == 0 {
        0
    } else {
        ((num_points - 1) / chunk_size as int + 1) as nat
    }
}

/// The number of points in chunk `c`: `chunk_size`, or what is left of
/// `num_points` from the chunk's start.
pub open spec fn spec_chunk_len(c: nat, chunk_size: nat, num_points: nat) -> nat {
    if c * chunk_size + chunk_size <= num_points {
        chunk_size
    } else {
        (num_points - c * chunk_size) as nat
    }
}

/// The sum that each chunk contributes: chunk `c` covers the points from
/// `c * chunk_size` on, `spec_chunk_len` of them.
pub open spec fn chunk_terms<G: CurveGroup>(
    ks: Seq<nat>,
    ps: Seq<G::Point>,
    chunk_size: nat,
    num_points: nat,
) -> Seq<G::Point> {
    Seq::new(
        spec_num_chunks(num_points, chunk_size),
        |c: int|
            msm::<G>(
                ks.skip(c * chunk_size),
                ps.skip(c * chunk_size),
                spec_chunk_len(c as nat, chunk_size, num_points),
            ),
    )
}

/// Chunk `c` exists exactly when its start lies before the last point.
pub proof fn lemma_chunk_exists(num_points: nat, chunk_size: nat, c: nat)
    requires
        chunk_size >= 1,
    ensures
        c < spec_num_chunks(num_points, chunk_size) <==> c * chunk_size < num_points,
{
    if num_points > 0 {
        let q = (num_points - 1) / chunk_size as int;
        let r = (num_points - 1) % chunk_size as int;
        lemma_fundamental_div_mod(num_points - 1, chunk_size as int);
        assert(0 <= r < chunk_size);
        if c <= q {
            assert(c * chunk_size <= chunk_size * q) by (nonlinear_arith)
                requires
                    c <= q,
                    chunk_size >= 1,
            ;
        } else {
            assert(c * chunk_size >= chunk_size * q + chunk_size) by (nonlinear_arith)
                requires
                    c >= q + 1,
                    chunk_size >= 1,
            ;
        }
    } else {
        assert(c * chunk_size >= 0) by (nonlinear_arith)
            requires
                chunk_size >= 1,
        ;
    }
}

/// The first `upto` chunks together cover the first `upto * chunk_size`
/// points, or all points where there are fewer.
pub proof fn lemma_chunks_cover<G: CurveGroup>(
    ks: Seq<nat>,
    ps: Seq<G::Point>,
    chunk_size: nat,
    num_points: nat,
    upto: nat,
)
    requires
        chunk_size >= 1,
        num_points <= ks.len(),
        num_points <= ps.len(),
        upto <= spec_num_chunks(num_points, chunk_size),
    ensures
        seq_total::<G>(chunk_terms::<G>(ks, ps, chunk_size, num_points), upto) == msm::<G>(
            ks,
            ps,
            if upto * chunk_size <= num_points {
                upto * chunk_size
            } else {
                num_points
            },
        ),
    decreases upto,
{
    let terms = chunk_terms::<G>(ks, ps, chunk_size, num_points);
    if upto == 0 {
        assert(0 * chunk_size == 0) by (nonlinear_arith);
    } else {
        let c = (upto - 1) as nat;
        lemma_chunks_cover::<G>(ks, ps, chunk_size, num_points, c);
        lemma_chunk_exists(num_points, chunk_size, c);
        let start = c * chunk_size;
        let len = spec_chunk_len(c, chunk_size, num_points);
        assert(upto * chunk_size == start + chunk_size) by (nonlinear_arith)
            requires
                upto == c + 1,
                start == c * chunk_size,
        ;
        assert(terms[c as int] == msm::<G>(ks.skip(start as int), ps.skip(start as int), len));
        lemma_msm_split::<G>(ks, ps, start, len);
    }
}

/// All chunks together give the whole multi-scalar sum.
pub proof fn lemma_chunks_total<G: CurveGroup>(
    ks: Seq<nat>,
    ps: Seq<G::Point>,
    chunk_size: nat,
    num_points: nat,
)
    requires
        chunk_size >= 1,
        num_points <= ks.len(),
        num_points <= ps.len(),
    ensures
        seq_total::<G>(
            chunk_terms::<G>(ks, ps, chunk_size, num_points),
            spec_num_chunks(num_points, chunk_size),
        ) == msm::<G>(ks, ps, num_points),
{
    let chunks = spec_num_chunks(num_points, chunk_size);
    lemma_chunks_cover::<G>(ks, ps, chunk_size, num_points, chunks);
    lemma_chunk_exists(num_points, chunk_size, chunks);
    if chunks * chunk_size <= num_points {
        assert(chunks * chunk_size == num_points);
    }
}

/// The chunk size for `num_points` points.
pub fn chunk_size_for(num_points: usize) -> (chunk_size: usize)
    ensures
        chunk_size == spec_chunk_size(num_points),
        chunk_size >= 1,
{
    let mut chunk_size = SMALL_CHUNK;
    if num_points >= LARGE_INPUT {
        chunk_size = LARGE_CHUNK;
    }
    if chunk_size > num_points {
        chunk_size = 1;
    }
    chunk_size
}

/// The number of chunks that cover `num_points` points.
pub fn num_chunks(num_points: usize, chunk_size: usize) -> (chunks: usize)
    requires
        chunk_size >= 1,
    ensures
        chunks == spec_num_chunks(num_points as nat, chunk_size as nat),
{
    if num_points == 0 {
        0
    } else {
        proof {
            assert((num_points - 1) / chunk_size as int <= num_points - 1) by (nonlinear_arith)
                requires
                    chunk_size >= 1,
                    num_points >= 1,
            ;
        }
        (num_points - 1) / chunk_size + 1
    }
}

/// The number of workers for a multiplication: as many as there are chunks,
/// but no more than `max_threads`.
pub fn num_workers(max_threads: usize, num_points: usize, chunk_size: usize) -> (workers: usize)
    requires
        chunk_size >= 1,
    ensures
        workers == if max_threads <= spec_num_chunks(num_points as nat, chunk_size as nat) {
            max_threads as nat
        } else {
            spec_num_chunks(num_points as nat, chunk_size as nat)
        },
{
    let chunks = num_chunks(num_points, chunk_size);
    if max_threads <= chunks {
        max_threads
    } else {
        chunks
    }
}

/// The points `[start, end)` of the chunk with index `ticket`, or `None`
/// where the chunk would start at or after the last point.
pub fn chunk_range(ticket: usize, chunk_size: usize, num_points: usize) -> (range: Option<
    (usize, usize),
>)
    requires
        chunk_size >= 1,
    ensures
        range is Some <==> ticket * chunk_size < num_points,
        range matches Some((start, end)) ==> {
            &&& start == ticket * chunk_size
            &&& end == start + spec_chunk_len(ticket as nat, chunk_size as nat, num_points as nat)
            &&& start < end <= num_points
        },
{
    proof {
        lemma_chunk_exists(num_points as nat, chunk_size as nat, ticket as nat);
    }
    if ticket >= num_chunks(num_points, chunk_size) {
        return None;
    }
    assert(ticket * chunk_size < num_points);
    let start_idx = ticket * chunk_size;
    let end_idx = if num_points - start_idx < chunk_size {
        num_points
    } else {
        start_idx + chunk_size
    };
    Some((start_idx, end_idx))
}

} // verus!
