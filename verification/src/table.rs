//! Fixed-window precomputation tables: for every base point the multiples
//! `1 · P .. (2^w - 1) · P`, and views of a table from some point onward.

use crate::algebra::{lemma_msm_split, lemma_scalar_mul_one};
use crate::group::{msm, scalar_mul, CurveGroup};
use rayon::iter::{IntoParallelRefIterator, ParallelIterator};
use vstd::arithmetic::power2::{lemma2_to64, lemma_pow2_strictly_increases, pow2};
use vstd::bits::lemma_u64_shl_is_mul;
use vstd::prelude::*;
use vstd::slice::slice_subrange;

verus! {

/// The window size that suits most inputs.
pub const WINDOW_SIZE: usize = 8;

/// The largest window size for which a row of a table can be indexed on
/// every machine.
pub const MAX_WINDOW_SIZE: usize = 32;

/// The rows of a table as sequences.
pub open spec fn rows_of<A>(tables: Seq<Vec<A>>) -> Seq<Seq<A>> {
    Seq::new(tables.len(), |i: int| tables[i]@)
}

/// `row` holds the first `entries` positive multiples of `p`, in order, the
/// first of them being `p` as it was given.
pub open spec fn row_holds_multiples<G: CurveGroup>(
    p: G::Affine,
    row: Seq<G::Affine>,
    entries: nat,
) -> bool {
    &&& row.len() == entries
    &&& entries >= 1 ==> row[0] == p
    &&& forall|j: int|
        0 <= j < entries ==> G::affine_point(#[trigger] row[j]) == scalar_mul::<G>(
            (j + 1) as nat,
            G::affine_point(p),
        )
}

/// The base points that the rows of a table stand for: row `i` begins with
/// `1 · P_i`.
pub open spec fn table_points<G: CurveGroup>(rows: Seq<Seq<G::Affine>>) -> Seq<G::Point> {
    Seq::new(rows.len(), |i: int| G::affine_point(rows[i][0]))
}

/// What every table and every view of one satisfies: a window size in range,
/// the mask that goes with it, and in each row the multiples
/// `1 · P .. (2^w - 1) · P` of the row's base point.
pub open spec fn table_wf<G: CurveGroup>(
    window_size: usize,
    window_mask: u64,
    rows: Seq<Seq<G::Affine>>,
) -> bool {
    &&& 1 <= window_size <= MAX_WINDOW_SIZE
    &&& window_mask == pow2(window_size as nat) - 1
    &&& forall|i: int|
        0 <= i < rows.len() ==> row_holds_multiples::<G>(
            (#[trigger] rows[i])[0],
            rows[i],
            (pow2(window_size as nat) - 1) as nat,
        )
}

/// A precomputation table, or a view of one.
pub trait MultiscalarPrecomp<G: CurveGroup>: Sized + Send + Sync {
    /// The window size that the table was built for.
    spec fn spec_window_size(&self) -> usize;

    /// The mask that cuts one window out of a limb.
    spec fn spec_window_mask(&self) -> u64;

    /// The rows, one for each base point covered.
    spec fn rows(&self) -> Seq<Seq<G::Affine>>;

    /// Bits consumed by one lookup.
    fn window_size(&self) -> (w: usize)
        ensures
            w == self.spec_window_size(),
    ;

    /// `2^w - 1`.
    fn window_mask(&self) -> (m: u64)
        ensures
            m == self.spec_window_mask(),
    ;

    /// The rows of multiples, one for each base point covered. They are
    /// well formed for the table's window size and mask.
    fn tables(&self) -> (t: &[Vec<G::Affine>])
        ensures
            rows_of(t@) == self.rows(),
            table_wf::<G>(self.spec_window_size(), self.spec_window_mask(), self.rows()),
    ;

    /// The view that begins at point `idx`, over the same storage.
    fn at_point(&self, idx: usize) -> (view: MultiscalarPrecompRef<'_, G>)
        requires
            idx <= self.rows().len(),
        ensures
            view.view_window_size() == self.spec_window_size(),
            view.view_window_mask() == self.spec_window_mask(),
            view.view_rows() == self.rows().skip(idx as int),
    ;
}

/// A table that owns its rows.
pub struct MultiscalarPrecompOwned<G: CurveGroup> {
    num_points: usize,
    window_size: usize,
    window_mask: u64,
    table_entries: usize,
    tables: Vec<Vec<G::Affine>>,
}

/// A view of a table from some point onward, over the owner's rows.
pub struct MultiscalarPrecompRef<'a, G: CurveGroup> {
    num_points: usize,
    window_size: usize,
    window_mask: u64,
    table_entries: usize,
    tables: &'a [Vec<G::Affine>],
}

impl<G: CurveGroup> MultiscalarPrecompOwned<G> {
    #[verifier::type_invariant]
    spec fn inv(self) -> bool {
        &&& self.num_points == self.tables@.len()
        &&& self.table_entries == pow2(self.window_size as nat) - 1
        &&& table_wf::<G>(self.window_size, self.window_mask, rows_of(self.tables@))
    }

    /// Number of base points covered.
    pub fn num_points(&self) -> (n: usize)
        ensures
            n == self.rows().len(),
    {
        proof {
            use_type_invariant(self);
        }
        self.num_points
    }

    /// Number of multiples stored for each point: `2^w - 1`.
    pub fn table_entries(&self) -> (n: usize)
        ensures
            n == pow2(self.spec_window_size() as nat) - 1,
    {
        proof {
            use_type_invariant(self);
        }
        self.table_entries
    }
}

impl<'a, G: CurveGroup> MultiscalarPrecompRef<'a, G> {
    #[verifier::type_invariant]
    spec fn inv(self) -> bool {
        &&& self.num_points == self.tables@.len()
        &&& self.table_entries == pow2(self.window_size as nat) - 1
        &&& table_wf::<G>(self.window_size, self.window_mask, rows_of(self.tables@))
    }

    /// The window size of the table that the view was taken from.
    pub closed spec fn view_window_size(&self) -> usize {
        self.window_size
    }

    /// The window mask of the table that the view was taken from.
    pub closed spec fn view_window_mask(&self) -> u64 {
        self.window_mask
    }

    /// The rows from the view's offset onward.
    pub closed spec fn view_rows(&self) -> Seq<Seq<G::Affine>> {
        rows_of(self.tables@)
    }

    /// Number of base points from the view's offset onward.
    pub fn num_points(&self) -> (n: usize)
        ensures
            n == self.view_rows().len(),
    {
        proof {
            use_type_invariant(self);
        }
        self.num_points
    }

    /// Number of multiples stored for each point: `2^w - 1`.
    pub fn table_entries(&self) -> (n: usize)
        ensures
            n == pow2(self.view_window_size() as nat) - 1,
    {
        proof {
            use_type_invariant(self);
        }
        self.table_entries
    }
}

/// Skipping rows of a well-formed table leaves a well-formed table.
pub proof fn lemma_table_wf_skip<G: CurveGroup>(
    window_size: usize,
    window_mask: u64,
    rows: Seq<Seq<G::Affine>>,
    idx: int,
)
    requires
        table_wf::<G>(window_size, window_mask, rows),
        0 <= idx <= rows.len(),
    ensures
        table_wf::<G>(window_size, window_mask, rows.skip(idx)),
{
    let tail = rows.skip(idx);
    assert forall|i: int| 0 <= i < tail.len() implies row_holds_multiples::<G>(
        (#[trigger] tail[i])[0],
        tail[i],
        (pow2(window_size as nat) - 1) as nat,
    ) by {
        assert(tail[i] == rows[idx + i]);
    }
}

impl<G: CurveGroup> MultiscalarPrecomp<G> for MultiscalarPrecompOwned<G> {
    closed spec fn spec_window_size(&self) -> usize {
        self.window_size
    }

    closed spec fn spec_window_mask(&self) -> u64 {
        self.window_mask
    }

    closed spec fn rows(&self) -> Seq<Seq<G::Affine>> {
        rows_of(self.tables@)
    }

    fn window_size(&self) -> (w: usize) {
        self.window_size
    }

    fn window_mask(&self) -> (m: u64) {
        self.window_mask
    }

    fn tables(&self) -> (t: &[Vec<G::Affine>]) {
        proof {
            use_type_invariant(self);
        }
        self.tables.as_slice()
    }

    fn at_point(&self, idx: usize) -> (view: MultiscalarPrecompRef<'_, G>) {
        proof {
            use_type_invariant(self);
            lemma_table_wf_skip::<G>(
                self.window_size,
                self.window_mask,
                rows_of(self.tables@),
                idx as int,
            );
        }
        let all = self.tables.as_slice();
        let rest = slice_subrange(all, idx, all.len());
        assert(rows_of(rest@) =~= rows_of(self.tables@).skip(idx as int));
        MultiscalarPrecompRef {
            num_points: self.num_points - idx,
            window_size: self.window_size,
            window_mask: self.window_mask,
            table_entries: self.table_entries,
            tables: rest,
        }
    }
}

impl<G: CurveGroup> MultiscalarPrecomp<G> for MultiscalarPrecompRef<'_, G> {
    open spec fn spec_window_size(&self) -> usize {
        self.view_window_size()
    }

    open spec fn spec_window_mask(&self) -> u64 {
        self.view_window_mask()
    }

    open spec fn rows(&self) -> Seq<Seq<G::Affine>> {
        self.view_rows()
    }

    fn window_size(&self) -> (w: usize) {
        self.window_size
    }

    fn window_mask(&self) -> (m: u64) {
        self.window_mask
    }

    fn tables(&self) -> (t: &[Vec<G::Affine>]) {
        proof {
            use_type_invariant(self);
        }
        self.tables
    }

    fn at_point(&self, idx: usize) -> (view: MultiscalarPrecompRef<'_, G>) {
        proof {
            use_type_invariant(self);
            lemma_table_wf_skip::<G>(
                self.window_size,
                self.window_mask,
                rows_of(self.tables@),
                idx as int,
            );
        }
        let rest = slice_subrange(self.tables, idx, self.tables.len());
        assert(rows_of(rest@) =~= rows_of(self.tables@).skip(idx as int));
        MultiscalarPrecompRef {
            num_points: self.num_points - idx,
            window_size: self.window_size,
            window_mask: self.window_mask,
            table_entries: self.table_entries,
            tables: rest,
        }
    }
}

/// The multiples `1 · P .. entries · P` of one point, by repeated mixed
/// addition.
pub fn multiples_row<G: CurveGroup>(point: &G::Affine, entries: usize) -> (row: Vec<G::Affine>)
    requires
        entries >= 1,
    ensures
        row_holds_multiples::<G>(*point, row@, entries as nat),
{
    let ghost base = G::affine_point(*point);
    let mut row: Vec<G::Affine> = Vec::with_capacity(entries);
    row.push(*point);
    let mut cur = G::into_projective(point);
    proof {
        lemma_scalar_mul_one::<G>(base);
    }
    let mut j: usize = 1;
    while j < entries
        invariant
            1 <= j <= entries,
            base == G::affine_point(*point),
            row@.len() == j,
            row@[0] == *point,
            cur.point() == scalar_mul::<G>(j as nat, base),
            forall|t: int|
                0 <= t < j ==> G::affine_point(#[trigger] row@[t]) == scalar_mul::<G>(
                    (t + 1) as nat,
                    base,
                ),
        decreases entries - j,
    {
        cur.add_assign_mixed(point);
        row.push(cur.into_affine());
        j = j + 1;
    }
    row
}

/// Builds the rows of all points on rayon's current pool, one task for each
/// point.
///
/// Trusted: rayon's `par_iter().map(..).collect()` on a slice returns, in the
/// order of the slice, what the mapped function returned for each item. The
/// mapped function is `multiples_row`, so each row meets its contract.
#[verifier::external_body]
fn par_rows<G: CurveGroup>(points: &[G::Affine], entries: usize) -> (rows: Vec<Vec<G::Affine>>)
    requires
        entries >= 1,
    ensures
        rows@.len() == points@.len(),
        forall|i: int|
            0 <= i < points@.len() ==> row_holds_multiples::<G>(
                points@[i],
                (#[trigger] rows@[i])@,
                entries as nat,
            ),
{
    points.par_iter().map(|point| multiples_row::<G>(point, entries)).collect()
}

/// Precomputes, for each of `points`, its multiples `1 · P .. (2^w - 1) · P`
/// for the window size `w`.
pub fn precompute_fixed_window<G: CurveGroup>(
    points: &[G::Affine],
    window_size: usize,
) -> (table: MultiscalarPrecompOwned<G>)
    requires
        1 <= window_size <= MAX_WINDOW_SIZE,
    ensures
        table.spec_window_size() == window_size,
        table.spec_window_mask() == pow2(window_size as nat) - 1,
        table.rows().len() == points@.len(),
        forall|i: int|
            0 <= i < points@.len() ==> row_holds_multiples::<G>(
                points@[i],
                #[trigger] table.rows()[i],
                (pow2(window_size as nat) - 1) as nat,
            ),
        table_points::<G>(table.rows()) == points@.map_values(|p: G::Affine| G::affine_point(p)),
{
    let window_mask = mask_for(window_size);
    let table_entries = window_mask as usize;
    let num_points = points.len();
    let tables = par_rows::<G>(points, table_entries);
    proof {
        let rows = rows_of(tables@);
        assert forall|i: int| 0 <= i < rows.len() implies row_holds_multiples::<G>(
            (#[trigger] rows[i])[0],
            rows[i],
            (pow2(window_size as nat) - 1) as nat,
        ) by {
            assert(row_holds_multiples::<G>(points@[i], tables@[i]@, table_entries as nat));
        }
        assert(table_points::<G>(rows) =~= points@.map_values(|p: G::Affine| G::affine_point(p)))
            by {
            assert forall|i: int| 0 <= i < rows.len() implies table_points::<G>(rows)[i]
                == G::affine_point(points@[i]) by {
                assert(row_holds_multiples::<G>(points@[i], tables@[i]@, table_entries as nat));
            }
        }
    }
    MultiscalarPrecompOwned {
        num_points,
        window_size,
        window_mask,
        table_entries,
        tables,
    }
}

/// The window mask `2^w - 1`.
pub fn mask_for(window_size: usize) -> (mask: u64)
    requires
        1 <= window_size <= MAX_WINDOW_SIZE,
    ensures
        mask == pow2(window_size as nat) - 1,
        1 <= mask <= u32::MAX,
{
    proof {
        lemma2_to64();
        lemma_pow2_strictly_increases(0, window_size as nat);
        if window_size < 32 {
            lemma_pow2_strictly_increases(window_size as nat, 32);
        }
        lemma_u64_shl_is_mul(1, window_size as u64);
    }
    (1u64 << (window_size as u64)) - 1
}

/// The points of a view are the points of the table from the view's offset
/// onward, so a sum against the view at `offset` is the sum over the points
/// `[offset, offset + len)` of the table.
pub proof fn lemma_view_sums_its_chunk<G: CurveGroup>(
    ks: Seq<nat>,
    rows: Seq<Seq<G::Affine>>,
    offset: nat,
    len: nat,
)
    requires
        offset + len <= rows.len(),
        offset + len <= ks.len(),
    ensures
        table_points::<G>(rows.skip(offset as int)) == table_points::<G>(rows).skip(
            offset as int,
        ),
        msm::<G>(ks, table_points::<G>(rows), offset + len) == G::sum(
            msm::<G>(ks, table_points::<G>(rows), offset),
            msm::<G>(ks.skip(offset as int), table_points::<G>(rows.skip(offset as int)), len),
        ),
{
    assert(table_points::<G>(rows.skip(offset as int)) =~= table_points::<G>(rows).skip(
        offset as int,
    ));
    lemma_msm_split::<G>(ks, table_points::<G>(rows), offset, len);
}

} // verus!
