//! The parallel scheduler: workers of a thread pool claim chunks of points
//! from a shared counter, and their partial sums are added up.

use crate::accumulate::{
    check_window, multiscalar, scalar_values, window_supported, MultiscalarError,
};
use crate::algebra::{
    lemma_listed_total_concat, lemma_listed_total_of_all, lemma_msm_prefix, listed_total,
    seq_total,
};
use crate::chunks::{
    chunk_range, chunk_size_for, chunk_terms, lemma_chunk_exists, lemma_chunks_total, num_chunks,
    num_workers, spec_num_chunks,
};
use crate::group::{msm, CurveGroup};
use crate::inputs::PublicInputs;
use crate::pool::WorkerPool;
use crate::scalar::LIMB_BITS;
use crate::table::{table_points, MultiscalarPrecomp};
use crate::ticket::{new_counter, next_ticket};
use rayon::iter::{IntoParallelIterator, ParallelIterator};
use std::sync::atomic::AtomicUsize;
use vstd::prelude::*;
use vstd::slice::slice_subrange;

verus! {

/// What one worker hands back: the sum over the chunks that it claimed, and
/// the indices of those chunks in the order in which it took them.
pub struct Partial<G> {
    /// The sum over the claimed chunks.
    pub total: G,
    /// The indices of the claimed chunks.
    pub claimed: Vec<usize>,
}

/// What a multiplication needs of its inputs: a window size that the
/// accumulator takes, scalars and points for every index, and limbs for
/// every bit.
pub open spec fn job_ready<
    G: CurveGroup,
    T: MultiscalarPrecomp<G>,
    F: Fn(usize) -> [u64; N] + Sync + Send,
    const N: usize,
>(k: &PublicInputs<'_, N, F>, table: &T, num_points: usize, nbits: usize) -> bool {
    &&& window_supported(table.spec_window_size(), nbits)
    &&& k.covers(num_points as nat)
    &&& num_points <= table.rows().len()
    &&& nbits <= LIMB_BITS * N
}

/// The sums that the chunks of a multiplication contribute.
pub open spec fn job_terms<
    G: CurveGroup,
    T: MultiscalarPrecomp<G>,
    F: Fn(usize) -> [u64; N] + Sync + Send,
    const N: usize,
>(
    k: &PublicInputs<'_, N, F>,
    table: &T,
    chunk_size: usize,
    num_points: usize,
    nbits: usize,
) -> Seq<G::Point> {
    chunk_terms::<G>(
        k.values(num_points as nat, nbits as nat),
        table_points::<G>(table.rows()),
        chunk_size as nat,
        num_points as nat,
    )
}

/// A partial result accounts for itself: it lists no more chunks than there
/// are, every chunk that it lists exists, and its total is the sum over the
/// listed chunks.
pub open spec fn accounts_for<G: CurveGroup>(terms: Seq<G::Point>, partial: Partial<G>) -> bool {
    &&& partial.claimed@.len() <= terms.len()
    &&& forall|j: int| 0 <= j < partial.claimed@.len() ==> partial.claimed@[j] < terms.len()
    &&& partial.total.point() == listed_total::<G>(terms, partial.claimed@)
}

/// The sum over the points `[start, end)`: the chunk's scalars are taken
/// from the sequence, or computed into `scratch`, and accumulated against
/// the view of the table that begins at `start`.
pub fn chunk_sum<
    G: CurveGroup,
    T: MultiscalarPrecomp<G>,
    F: Fn(usize) -> [u64; N] + Sync + Send,
    const N: usize,
>(
    k: &PublicInputs<'_, N, F>,
    table: &T,
    scratch: &mut Vec<[u64; N]>,
    start: usize,
    end: usize,
    num_points: usize,
    nbits: usize,
) -> (acc: G)
    requires
        job_ready(k, table, num_points, nbits),
        start <= end <= num_points,
        end - start <= old(scratch)@.len(),
    ensures
        final(scratch)@.len() == old(scratch)@.len(),
        k is Slice ==> final(scratch)@ == old(scratch)@,
        k is Getter ==> forall|j: int|
            0 <= j < old(scratch)@.len() ==> #[trigger] final(scratch)@[j] == if j < end - start {
                k.spec_get(start + j)
            } else {
                old(scratch)@[j]
            },
        acc.point() == msm::<G>(
            k.values(num_points as nat, nbits as nat).skip(start as int),
            table_points::<G>(table.rows()).skip(start as int),
            (end - start) as nat,
        ),
{
    let num_items = end - start;
    let ghost vals = k.values(num_points as nat, nbits as nat);
    let ghost pts = table_points::<G>(table.rows());
    let subset = table.at_point(start);
    assert(table_points::<G>(subset.rows()) =~= pts.skip(start as int));
    let scalars: &[[u64; N]] = match k {
        PublicInputs::Slice(s) => {
            proof {
                if num_points > 0 {
                    assert(k.defined_at(num_points - 1));
                }
            }
            slice_subrange(*s, start, s.len())
        },
        PublicInputs::Getter(getter) => {
            let mut i = start;
            while i < end
                invariant
                    start <= i <= end <= num_points,
                    k.covers(num_points as nat),
                    *k == PublicInputs::<N, F>::Getter(*getter),
                    end - start <= scratch@.len(),
                    scratch@.len() == old(scratch)@.len(),
                    forall|j: int| start <= j < i ==> scratch@[j - start] == k.spec_get(j),
                    forall|j: int|
                        i - start <= j < scratch@.len() ==> scratch@[j] == old(scratch)@[j],
                decreases end - i,
            {
                assert(k.defined_at(i as int));
                let scalar = getter(i);
                scratch.set(i - start, scalar);
                i = i + 1;
            }
            scratch.as_slice()
        },
    };
    proof {
        let got = scalar_values(scalars@, nbits as nat);
        assert forall|j: int| 0 <= j < num_items implies got[j] == vals.skip(start as int)[j] by {
            assert(k.defined_at(start + j));
        }
        lemma_msm_prefix::<G>(
            got,
            pts.skip(start as int),
            vals.skip(start as int),
            pts.skip(start as int),
            num_items as nat,
        );
    }
    match multiscalar(scalars, &subset, num_items, nbits) {
        Ok(acc) => acc,
        Err(_) => G::zero(),
    }
}

/// The limbs of the scalar zero.
pub open spec fn zero_limbs(n: nat) -> Seq<u64> {
    Seq::new(n, |j: int| 0u64)
}

/// A buffer of `len` scalars, all zero.
pub fn new_scratch<const N: usize>(len: usize) -> (scratch: Vec<[u64; N]>)
    ensures
        scratch@.len() == len,
        forall|i: int| 0 <= i < len ==> (#[trigger] scratch@[i])@ == zero_limbs(N as nat),
{
    let mut scratch: Vec<[u64; N]> = Vec::with_capacity(len);
    let mut i: usize = 0;
    while i < len
        invariant
            i <= len,
            scratch@.len() == i,
            forall|t: int| 0 <= t < i ==> (#[trigger] scratch@[t])@ == zero_limbs(N as nat),
        decreases len - i,
    {
        let zero = [0u64; N];
        proof {
            vstd::array::axiom_spec_array_fill_for_copy_type::<u64, N>(0u64);
            assert(zero@ =~= zero_limbs(N as nat));
        }
        scratch.push(zero);
        i = i + 1;
    }
    scratch
}

/// One worker: draws tickets from `work` until one names no chunk, and sums
/// the chunks that its tickets name.
pub fn worker<
    G: CurveGroup,
    T: MultiscalarPrecomp<G>,
    F: Fn(usize) -> [u64; N] + Sync + Send,
    const N: usize,
>(
    work: &AtomicUsize,
    k: &PublicInputs<'_, N, F>,
    table: &T,
    chunk_size: usize,
    num_points: usize,
    nbits: usize,
) -> (partial: Partial<G>)
    requires
        job_ready(k, table, num_points, nbits),
        chunk_size >= 1,
    ensures
        accounts_for(job_terms(k, table, chunk_size, num_points, nbits), partial),
{
    let ghost terms = job_terms(k, table, chunk_size, num_points, nbits);
    let chunks = num_chunks(num_points, chunk_size);
    let mut scratch = new_scratch::<N>(chunk_size);
    let mut total = G::zero();
    let mut claimed: Vec<usize> = Vec::new();
    let mut taken: usize = 0;
    let mut more = true;
    while more && taken < chunks
        invariant
            job_ready(k, table, num_points, nbits),
            chunk_size >= 1,
            terms == job_terms(k, table, chunk_size, num_points, nbits),
            chunks == spec_num_chunks(num_points as nat, chunk_size as nat),
            scratch@.len() == chunk_size,
            taken <= chunks,
            claimed@.len() == taken,
            forall|j: int| 0 <= j < claimed@.len() ==> claimed@[j] < terms.len(),
            total.point() == listed_total::<G>(terms, claimed@),
        decreases chunks - taken, more as int,
    {
        let ticket = next_ticket(work);
        match chunk_range(ticket, chunk_size, num_points) {
            None => {
                more = false;
            },
            Some((start, end)) => {
                proof {
                    lemma_chunk_exists(num_points as nat, chunk_size as nat, ticket as nat);
                }
                let acc = chunk_sum(k, table, &mut scratch, start, end, num_points, nbits);
                total.add_assign(&acc);
                let ghost before = claimed@;
                claimed.push(ticket);
                proof {
                    assert(claimed@.drop_last() =~= before);
                    assert(terms[ticket as int] == acc.point());
                }
                taken = taken + 1;
            },
        }
    }
    Partial { total, claimed }
}

/// Runs `num_threads` workers on the pool and collects what each hands back.
///
/// Trusted: rayon's `ThreadPool::install` runs the closure inside the pool and
/// returns its result, and `into_par_iter().map(..).collect()` on a range
/// returns one item for each index, each of them a result of the mapped
/// function. The mapped function is `worker`, so each item meets its
/// contract. Nothing is claimed of which worker took which chunk.
#[verifier::external_body]
fn run_workers<
    G: CurveGroup,
    T: MultiscalarPrecomp<G>,
    F: Fn(usize) -> [u64; N] + Sync + Send,
    const N: usize,
>(
    pool: &WorkerPool,
    num_threads: usize,
    work: &AtomicUsize,
    k: &PublicInputs<'_, N, F>,
    table: &T,
    chunk_size: usize,
    num_points: usize,
    nbits: usize,
) -> (partials: Vec<Partial<G>>)
    requires
        job_ready(k, table, num_points, nbits),
        chunk_size >= 1,
    ensures
        partials@.len() == num_threads,
        forall|t: int|
            0 <= t < num_threads ==> accounts_for(
                job_terms(k, table, chunk_size, num_points, nbits),
                #[trigger] partials@[t],
            ),
{
    pool.pool.install(
        || {
            (0..num_threads).into_par_iter().map(
                |_tid| worker(work, k, table, chunk_size, num_points, nbits),
            ).collect()
        },
    )
}

/// The sum over all chunks, taken one after the other on the calling thread.
pub fn sequential_sum<
    G: CurveGroup,
    T: MultiscalarPrecomp<G>,
    F: Fn(usize) -> [u64; N] + Sync + Send,
    const N: usize,
>(
    k: &PublicInputs<'_, N, F>,
    table: &T,
    chunk_size: usize,
    num_points: usize,
    nbits: usize,
) -> (total: G)
    requires
        job_ready(k, table, num_points, nbits),
        chunk_size >= 1,
    ensures
        total.point() == msm::<G>(
            k.values(num_points as nat, nbits as nat),
            table_points::<G>(table.rows()),
            num_points as nat,
        ),
{
    let ghost terms = job_terms(k, table, chunk_size, num_points, nbits);
    let chunks = num_chunks(num_points, chunk_size);
    let mut scratch = new_scratch::<N>(chunk_size);
    let mut total = G::zero();
    let mut c: usize = 0;
    while c < chunks
        invariant
            job_ready(k, table, num_points, nbits),
            chunk_size >= 1,
            terms == job_terms(k, table, chunk_size, num_points, nbits),
            chunks == spec_num_chunks(num_points as nat, chunk_size as nat),
            scratch@.len() == chunk_size,
            c <= chunks,
            total.point() == seq_total::<G>(terms, c as nat),
        decreases chunks - c,
    {
        proof {
            lemma_chunk_exists(num_points as nat, chunk_size as nat, c as nat);
        }
        match chunk_range(c, chunk_size, num_points) {
            None => {},
            Some((start, end)) => {
                let acc = chunk_sum(k, table, &mut scratch, start, end, num_points, nbits);
                total.add_assign(&acc);
                proof {
                    assert(terms[c as int] == acc.point());
                }
            },
        }
        c = c + 1;
    }
    proof {
        assert(k.values(num_points as nat, nbits as nat).len() == num_points);
        lemma_chunks_total::<G>(
            k.values(num_points as nat, nbits as nat),
            table_points::<G>(table.rows()),
            chunk_size as nat,
            num_points as nat,
        );
    }
    total
}

/// The chunks that the first `upto` partial results list, one result after
/// the other.
pub open spec fn claims<G>(partials: Seq<Partial<G>>, upto: nat) -> Seq<usize>
    decreases upto,
{
    if upto == 0 {
        Seq::empty()
    } else {
        claims(partials, (upto - 1) as nat) + partials[upto - 1].claimed@
    }
}

/// The sum of the totals of the first `upto` partial results.
pub open spec fn totals_sum<G: CurveGroup>(partials: Seq<Partial<G>>, upto: nat) -> G::Point
    decreases upto,
{
    if upto == 0 {
        G::identity()
    } else {
        G::sum(totals_sum(partials, (upto - 1) as nat), partials[upto - 1].total.point())
    }
}

/// The list holds chunks only, each of the `chunks` chunks is in it, and
/// nothing is in it twice.
pub open spec fn each_chunk_once(list: Seq<usize>, chunks: nat) -> bool {
    &&& list.no_duplicates()
    &&& forall|i: int| 0 <= i < list.len() ==> list[i] < chunks
    &&& forall|c: usize| c < chunks ==> #[trigger] list.contains(c)
}

/// What the first results list stands at the front of what more results
/// list.
pub proof fn lemma_claims_prefix<G>(partials: Seq<Partial<G>>, a: nat, b: nat)
    requires
        a <= b,
    ensures
        claims(partials, a).len() <= claims(partials, b).len(),
        forall|i: int|
            0 <= i < claims(partials, a).len() ==> claims(partials, a)[i] == claims(partials, b)[i],
    decreases b - a,
{
    if a < b {
        lemma_claims_prefix(partials, a, (b - 1) as nat);
    }
}

/// The totals of partial results that account for themselves add up to the
/// sum over the chunks that they list.
pub proof fn lemma_totals_are_listed<G: CurveGroup>(
    terms: Seq<G::Point>,
    partials: Seq<Partial<G>>,
    upto: nat,
)
    requires
        upto <= partials.len(),
        forall|t: int| 0 <= t < partials.len() ==> accounts_for(terms, #[trigger] partials[t]),
    ensures
        totals_sum(partials, upto) == listed_total::<G>(terms, claims(partials, upto)),
    decreases upto,
{
    if upto > 0 {
        let t = (upto - 1) as nat;
        lemma_totals_are_listed(terms, partials, t);
        assert(accounts_for(terms, partials[t as int]));
        lemma_listed_total_concat::<G>(terms, claims(partials, t), partials[t as int].claimed@);
    }
}

/// However the chunks were divided among the workers, and in whatever order
/// each worker took its chunks: where every chunk was taken once, the
/// workers' totals add up to the sum of all chunks.
pub proof fn lemma_any_schedule<G: CurveGroup>(terms: Seq<G::Point>, partials: Seq<Partial<G>>)
    requires
        terms.len() <= usize::MAX,
        forall|t: int| 0 <= t < partials.len() ==> accounts_for(terms, #[trigger] partials[t]),
        each_chunk_once(claims(partials, partials.len()), terms.len()),
    ensures
        totals_sum(partials, partials.len()) == seq_total::<G>(terms, terms.len()),
{
    lemma_totals_are_listed(terms, partials, partials.len());
    lemma_listed_total_of_all::<G>(terms, claims(partials, partials.len()), terms.len());
}

/// Adds up the workers' totals, and checks that the chunks which the workers
/// list are the `chunks` chunks, each listed once. `None` where they are
/// not.
pub fn combine<G: CurveGroup>(partials: &Vec<Partial<G>>, chunks: usize) -> (sum: Option<G>)
    ensures
        sum is Some <==> each_chunk_once(claims(partials@, partials@.len()), chunks as nat),
        sum matches Some(total) ==> total.point() == totals_sum(partials@, partials@.len()),
{
    let ghost all = claims(partials@, partials@.len());
    let mut seen: Vec<bool> = Vec::with_capacity(chunks);
    let mut c: usize = 0;
    while c < chunks
        invariant
            c <= chunks,
            seen@.len() == c,
            forall|i: int| 0 <= i < c ==> !seen@[i],
        decreases chunks - c,
    {
        seen.push(false);
        c = c + 1;
    }
    let mut total = G::zero();
    let ghost mut done: Seq<usize> = Seq::empty();
    let mut t: usize = 0;
    while t < partials.len()
        invariant
            t <= partials@.len(),
            seen@.len() == chunks,
            all == claims(partials@, partials@.len()),
            total.point() == totals_sum(partials@, t as nat),
            done == claims(partials@, t as nat),
            done.no_duplicates(),
            forall|i: int| 0 <= i < done.len() ==> done[i] < chunks,
            forall|c: usize| c < chunks ==> (seen@[c as int] <==> #[trigger] done.contains(c)),
        decreases partials@.len() - t,
    {
        let partial = &partials[t];
        let ghost list = partial.claimed@;
        let ghost head = done;
        proof {
            assert(head + list.take(0) =~= head);
            lemma_claims_prefix(partials@, (t + 1) as nat, partials@.len());
        }
        let mut j: usize = 0;
        while j < partial.claimed.len()
            invariant
                j <= list.len(),
                t < partials@.len(),
                list == partial.claimed@,
                list == partials@[t as int].claimed@,
                seen@.len() == chunks,
                all == claims(partials@, partials@.len()),
                head == claims(partials@, t as nat),
                claims(partials@, (t + 1) as nat).len() <= all.len(),
                forall|i: int|
                    0 <= i < claims(partials@, (t + 1) as nat).len() ==> claims(
                        partials@,
                        (t + 1) as nat,
                    )[i] == all[i],
                done == head + list.take(j as int),
                done.no_duplicates(),
                forall|i: int| 0 <= i < done.len() ==> done[i] < chunks,
                forall|c: usize| c < chunks ==> (seen@[c as int] <==> #[trigger] done.contains(c)),
            decreases list.len() - j,
        {
            let chunk = partial.claimed[j];
            proof {
                let next = claims(partials@, (t + 1) as nat);
                assert(next == head + list);
                assert(next[done.len() as int] == list[j as int]);
                assert(all[done.len() as int] == chunk);
            }
            if chunk >= chunks {
                return None;
            }
            if seen[chunk] {
                proof {
                    assert(done.contains(chunk));
                    let first = choose|i: int| 0 <= i < done.len() && done[i] == chunk;
                    assert(claims(partials@, (t + 1) as nat)[first] == done[first]);
                    assert(all[first] == all[done.len() as int]);
                }
                return None;
            }
            proof {
                let grown = done.push(chunk);
                assert(grown =~= head + list.take(j + 1));
                assert(!done.contains(chunk));
                assert forall|c: usize| c < chunks implies (seen@.update(chunk as int, true)[c as int]
                    <==> #[trigger] grown.contains(c)) by {
                    if c == chunk {
                        assert(grown[done.len() as int] == chunk);
                    } else if done.contains(c) {
                        let i = choose|i: int| 0 <= i < done.len() && done[i] == c;
                        assert(grown[i] == c);
                    } else if grown.contains(c) {
                        let i = choose|i: int| 0 <= i < grown.len() && grown[i] == c;
                        assert(done[i] == c);
                    }
                }
                assert forall|a: int, b: int|
                    0 <= a < grown.len() && 0 <= b < grown.len() && a != b implies grown[a]
                    != grown[b] by {
                    if a == done.len() {
                        if done[b] == chunk {
                            assert(done.contains(chunk));
                        }
                    } else if b == done.len() {
                        if done[a] == chunk {
                            assert(done.contains(chunk));
                        }
                    }
                }
                done = grown;
            }
            seen.set(chunk, true);
            j = j + 1;
        }
        proof {
            assert(list.take(j as int) =~= list);
        }
        total.add_assign(&partial.total);
        t = t + 1;
    }
    let mut c: usize = 0;
    while c < chunks
        invariant
            c <= chunks,
            seen@.len() == chunks,
            done == all,
            all == claims(partials@, partials@.len()),
            forall|c: usize| c < chunks ==> (seen@[c as int] <==> #[trigger] done.contains(c)),
            forall|i: int| 0 <= i < c ==> seen@[i],
        decreases chunks - c,
    {
        if !seen[c] {
            assert(!all.contains(c));
            return None;
        }
        c = c + 1;
    }
    Some(total)
}

/// `Σ k[i] · P_i` over the first `num_points` scalars of `k` and points of
/// the table, reading the `nbits` low bits of each scalar, with up to
/// `max_threads` workers of `pool`.
///
/// The points are cut into chunks, which the workers claim from a shared
/// counter. Each worker hands back its total and the chunks that it took.
/// Where the workers took every chunk once, their totals are added up;
/// where they did not, as when `max_threads` is 0, the chunks are summed on
/// the calling thread instead. So the result does not depend on the number
/// of workers, on the chunk size, or on which worker took which chunk.
/// Refused, before any worker is started, when the table's window size does
/// not evenly divide `nbits` and the limb width.
pub fn par_multiscalar<
    G: CurveGroup,
    T: MultiscalarPrecomp<G>,
    F: Fn(usize) -> [u64; N] + Sync + Send,
    const N: usize,
>(
    pool: &WorkerPool,
    max_threads: usize,
    k: &PublicInputs<'_, N, F>,
    precomp_table: &T,
    num_points: usize,
    nbits: usize,
) -> (r: Result<G, MultiscalarError>)
    requires
        k.covers(num_points as nat),
        num_points <= precomp_table.rows().len(),
        nbits <= LIMB_BITS * N,
    ensures
        r is Ok <==> window_supported(precomp_table.spec_window_size(), nbits),
        r matches Ok(total) ==> total.point() == msm::<G>(
            k.values(num_points as nat, nbits as nat),
            table_points::<G>(precomp_table.rows()),
            num_points as nat,
        ),
{
    if check_window(precomp_table.window_size(), nbits).is_err() {
        return Err(MultiscalarError::UnsupportedWindowSize);
    }
    let chunk_size = chunk_size_for(num_points);
    let chunks = num_chunks(num_points, chunk_size);
    let num_threads = num_workers(max_threads, num_points, chunk_size);
    let ghost terms = job_terms(k, precomp_table, chunk_size, num_points, nbits);

    // Work item counter: each worker takes work by drawing from it.
    let work = new_counter();
    let partials = run_workers(
        pool,
        num_threads,
        &work,
        k,
        precomp_table,
        chunk_size,
        num_points,
        nbits,
    );
    match combine(&partials, chunks) {
        Some(total) => {
            proof {
                lemma_any_schedule::<G>(terms, partials@);
                assert(k.values(num_points as nat, nbits as nat).len() == num_points);
                lemma_chunks_total::<G>(
                    k.values(num_points as nat, nbits as nat),
                    table_points::<G>(precomp_table.rows()),
                    chunk_size as nat,
                    num_points as nat,
                );
            }
            Ok(total)
        },
        None => Ok(sequential_sum(k, precomp_table, chunk_size, num_points, nbits)),
    }
}

} // verus!
