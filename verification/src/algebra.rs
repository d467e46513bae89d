//! Consequences of the group laws: how scalar multiples and multi-scalar sums
//! behave under addition, doubling, splitting and change of one scalar.

use crate::group::{msm, scalar_mul, CurveGroup};
use vstd::prelude::*;

verus! {

/// `(a + b) + (c + d) == (a + c) + (b + d)`.
pub proof fn lemma_sum_interchange<G: CurveGroup>(
    a: G::Point,
    b: G::Point,
    c: G::Point,
    d: G::Point,
)
    ensures
        G::sum(G::sum(a, b), G::sum(c, d)) == G::sum(G::sum(a, c), G::sum(b, d)),
{
    G::sum_associates(a, b, G::sum(c, d));
    G::sum_associates(b, c, d);
    G::sum_commutes(b, c);
    G::sum_associates(c, b, d);
    G::sum_associates(a, c, G::sum(b, d));
}

/// `(a + b) + c == (a + c) + b`.
pub proof fn lemma_sum_swap_right<G: CurveGroup>(a: G::Point, b: G::Point, c: G::Point)
    ensures
        G::sum(G::sum(a, b), c) == G::sum(G::sum(a, c), b),
{
    G::sum_associates(a, b, c);
    G::sum_commutes(b, c);
    G::sum_associates(a, c, b);
}

/// The neutral element is neutral on the left too.
pub proof fn lemma_sum_identity_left<G: CurveGroup>(a: G::Point)
    ensures
        G::sum(G::identity(), a) == a,
{
    G::sum_commutes(G::identity(), a);
    G::sum_identity(a);
}

/// `1 · p == p`.
pub proof fn lemma_scalar_mul_one<G: CurveGroup>(p: G::Point)
    ensures
        scalar_mul::<G>(1, p) == p,
{
    reveal_with_fuel(scalar_mul, 2);
    lemma_sum_identity_left::<G>(p);
}

/// `(a + b) · p == a · p + b · p`.
pub proof fn lemma_scalar_mul_add<G: CurveGroup>(a: nat, b: nat, p: G::Point)
    ensures
        scalar_mul::<G>(a + b, p) == G::sum(scalar_mul::<G>(a, p), scalar_mul::<G>(b, p)),
    decreases b,
{
    if b == 0 {
        G::sum_identity(scalar_mul::<G>(a, p));
    } else {
        lemma_scalar_mul_add::<G>(a, (b - 1) as nat, p);
        assert(a + b - 1 == a + (b - 1) as nat);
        G::sum_associates(scalar_mul::<G>(a, p), scalar_mul::<G>((b - 1) as nat, p), p);
    }
}

/// Double-and-add: `(2k + b) · p` is the double of `k · p`, plus `b · p`.
pub proof fn lemma_double_and_add<G: CurveGroup>(k: nat, b: nat, p: G::Point)
    ensures
        scalar_mul::<G>(2 * k + b, p) == G::sum(
            G::sum(scalar_mul::<G>(k, p), scalar_mul::<G>(k, p)),
            scalar_mul::<G>(b, p),
        ),
{
    lemma_scalar_mul_add::<G>(k, k, p);
    lemma_scalar_mul_add::<G>(2 * k, b, p);
}

/// A multi-scalar sum reads only the first `n` scalars and points.
pub proof fn lemma_msm_prefix<G: CurveGroup>(
    ks1: Seq<nat>,
    ps1: Seq<G::Point>,
    ks2: Seq<nat>,
    ps2: Seq<G::Point>,
    n: nat,
)
    requires
        forall|i: int| 0 <= i < n ==> ks1[i] == ks2[i],
        forall|i: int| 0 <= i < n ==> ps1[i] == ps2[i],
    ensures
        msm::<G>(ks1, ps1, n) == msm::<G>(ks2, ps2, n),
    decreases n,
{
    if n > 0 {
        lemma_msm_prefix::<G>(ks1, ps1, ks2, ps2, (n - 1) as nat);
    }
}

/// Scalars that are all zero sum to the neutral element.
pub proof fn lemma_msm_zero<G: CurveGroup>(ks: Seq<nat>, ps: Seq<G::Point>, n: nat)
    requires
        forall|i: int| 0 <= i < n ==> ks[i] == 0,
    ensures
        msm::<G>(ks, ps, n) == G::identity(),
    decreases n,
{
    if n > 0 {
        lemma_msm_zero::<G>(ks, ps, (n - 1) as nat);
        G::sum_identity(G::identity());
    }
}

/// Doubling a multi-scalar sum doubles every scalar.
pub proof fn lemma_msm_double<G: CurveGroup>(
    ks: Seq<nat>,
    ks2: Seq<nat>,
    ps: Seq<G::Point>,
    n: nat,
)
    requires
        forall|i: int| 0 <= i < n ==> ks2[i] == 2 * ks[i],
    ensures
        G::sum(msm::<G>(ks, ps, n), msm::<G>(ks, ps, n)) == msm::<G>(ks2, ps, n),
    decreases n,
{
    if n == 0 {
        G::sum_identity(G::identity());
    } else {
        let m = (n - 1) as nat;
        lemma_msm_double::<G>(ks, ks2, ps, m);
        let head = msm::<G>(ks, ps, m);
        let term = scalar_mul::<G>(ks[m as int], ps[m as int]);
        lemma_sum_interchange::<G>(head, term, head, term);
        lemma_scalar_mul_add::<G>(ks[m as int], ks[m as int], ps[m as int]);
        assert(ks[m as int] + ks[m as int] == ks2[m as int]);
    }
}

/// Adding `d · ps[m]` to a multi-scalar sum raises the scalar at `m` by `d`.
pub proof fn lemma_msm_add_at<G: CurveGroup>(
    ks: Seq<nat>,
    ks2: Seq<nat>,
    ps: Seq<G::Point>,
    n: nat,
    m: int,
    d: nat,
)
    requires
        0 <= m < n,
        ks2[m] == ks[m] + d,
        forall|i: int| 0 <= i < n && i != m ==> ks2[i] == ks[i],
    ensures
        G::sum(msm::<G>(ks, ps, n), scalar_mul::<G>(d, ps[m])) == msm::<G>(ks2, ps, n),
    decreases n,
{
    let last = (n - 1) as nat;
    let head = msm::<G>(ks, ps, last);
    let term = scalar_mul::<G>(ks[last as int], ps[last as int]);
    let extra = scalar_mul::<G>(d, ps[m]);
    if m == last {
        lemma_msm_prefix::<G>(ks, ps, ks2, ps, last);
        lemma_scalar_mul_add::<G>(ks[m], d, ps[m]);
        G::sum_associates(head, term, extra);
    } else {
        lemma_msm_add_at::<G>(ks, ks2, ps, last, m, d);
        lemma_sum_swap_right::<G>(head, term, extra);
    }
}

/// A multi-scalar sum over `a + b` indices is the sum over the first `a`
/// plus the sum over the `b` that follow.
pub proof fn lemma_msm_split<G: CurveGroup>(ks: Seq<nat>, ps: Seq<G::Point>, a: nat, b: nat)
    requires
        a + b <= ks.len(),
        a + b <= ps.len(),
    ensures
        msm::<G>(ks, ps, a + b) == G::sum(
            msm::<G>(ks, ps, a),
            msm::<G>(ks.skip(a as int), ps.skip(a as int), b),
        ),
    decreases b,
{
    if b == 0 {
        G::sum_identity(msm::<G>(ks, ps, a));
    } else {
        let c = (b - 1) as nat;
        let last = (a + c) as int;
        lemma_msm_split::<G>(ks, ps, a, c);
        assert(a + b - 1 == a + c);
        assert(ks.skip(a as int)[c as int] == ks[last]);
        assert(ps.skip(a as int)[c as int] == ps[last]);
        G::sum_associates(
            msm::<G>(ks, ps, a),
            msm::<G>(ks.skip(a as int), ps.skip(a as int), c),
            scalar_mul::<G>(ks[last], ps[last]),
        );
    }
}

/// The sum of the first `upto` terms.
pub open spec fn seq_total<G: CurveGroup>(terms: Seq<G::Point>, upto: nat) -> G::Point
    decreases upto,
{
    if upto == 0 {
        G::identity()
    } else {
        G::sum(seq_total::<G>(terms, (upto - 1) as nat), terms[upto - 1])
    }
}

/// The sum of those of the first `upto` terms that `seen` marks.
pub open spec fn selected_total<G: CurveGroup>(
    terms: Seq<G::Point>,
    seen: Seq<bool>,
    upto: nat,
) -> G::Point
    decreases upto,
{
    if upto == 0 {
        G::identity()
    } else if seen[upto - 1] {
        G::sum(selected_total::<G>(terms, seen, (upto - 1) as nat), terms[upto - 1])
    } else {
        selected_total::<G>(terms, seen, (upto - 1) as nat)
    }
}

/// The sum of the terms at the listed indices, in the order of the list.
pub open spec fn listed_total<G: CurveGroup>(terms: Seq<G::Point>, list: Seq<usize>) -> G::Point
    decreases list.len(),
{
    if list.len() == 0 {
        G::identity()
    } else {
        G::sum(listed_total::<G>(terms, list.drop_last()), terms[list.last() as int])
    }
}

/// Marks beyond the terms summed do not matter.
pub proof fn lemma_selected_total_prefix<G: CurveGroup>(
    terms: Seq<G::Point>,
    seen1: Seq<bool>,
    seen2: Seq<bool>,
    upto: nat,
)
    requires
        forall|c: int| 0 <= c < upto ==> seen1[c] == seen2[c],
    ensures
        selected_total::<G>(terms, seen1, upto) == selected_total::<G>(terms, seen2, upto),
    decreases upto,
{
    if upto > 0 {
        lemma_selected_total_prefix::<G>(terms, seen1, seen2, (upto - 1) as nat);
    }
}

/// Marking one more term adds it to the selected sum.
pub proof fn lemma_selected_total_mark<G: CurveGroup>(
    terms: Seq<G::Point>,
    seen: Seq<bool>,
    upto: nat,
    c: int,
)
    requires
        0 <= c < upto <= seen.len(),
        !seen[c],
    ensures
        selected_total::<G>(terms, seen.update(c, true), upto) == G::sum(
            selected_total::<G>(terms, seen, upto),
            terms[c],
        ),
    decreases upto,
{
    let last = (upto - 1) as nat;
    let marked = seen.update(c, true);
    if c == last {
        lemma_selected_total_prefix::<G>(terms, seen, marked, last);
    } else {
        lemma_selected_total_mark::<G>(terms, seen, last, c);
        if seen[last as int] {
            lemma_sum_swap_right::<G>(
                selected_total::<G>(terms, seen, last),
                terms[c],
                terms[last as int],
            );
        }
    }
}

/// With nothing marked the selected sum is the neutral element.
pub proof fn lemma_selected_total_none<G: CurveGroup>(
    terms: Seq<G::Point>,
    seen: Seq<bool>,
    upto: nat,
)
    requires
        forall|c: int| 0 <= c < upto ==> !seen[c],
    ensures
        selected_total::<G>(terms, seen, upto) == G::identity(),
    decreases upto,
{
    if upto > 0 {
        lemma_selected_total_none::<G>(terms, seen, (upto - 1) as nat);
    }
}

/// With everything marked the selected sum is the sum of all terms.
pub proof fn lemma_selected_total_all<G: CurveGroup>(
    terms: Seq<G::Point>,
    seen: Seq<bool>,
    upto: nat,
)
    requires
        forall|c: int| 0 <= c < upto ==> seen[c],
    ensures
        selected_total::<G>(terms, seen, upto) == seq_total::<G>(terms, upto),
    decreases upto,
{
    if upto > 0 {
        lemma_selected_total_all::<G>(terms, seen, (upto - 1) as nat);
    }
}

/// A scalar that is zero adds nothing: the sum is the same without it and
/// its point.
pub proof fn lemma_zero_scalar_adds_nothing<G: CurveGroup>(
    ks: Seq<nat>,
    ps: Seq<G::Point>,
    n: nat,
    m: int,
)
    requires
        0 <= m < n,
        n <= ks.len(),
        n <= ps.len(),
        ks[m] == 0,
    ensures
        msm::<G>(ks, ps, n) == msm::<G>(ks.remove(m), ps.remove(m), (n - 1) as nat),
    decreases n,
{
    let last = (n - 1) as nat;
    let ks2 = ks.remove(m);
    let ps2 = ps.remove(m);
    if m == last {
        G::sum_identity(msm::<G>(ks, ps, last));
        lemma_msm_prefix::<G>(ks, ps, ks2, ps2, last);
    } else {
        lemma_zero_scalar_adds_nothing::<G>(ks, ps, last, m);
        assert(ks2[last - 1] == ks[last as int]);
        assert(ps2[last - 1] == ps[last as int]);
    }
}

/// Which of the first `n` indices a list holds.
pub open spec fn marks(list: Seq<usize>, n: nat) -> Seq<bool> {
    Seq::new(n, |c: int| list.contains(c as usize))
}

/// The sum over two lists, one after the other, is the sum of their sums.
pub proof fn lemma_listed_total_concat<G: CurveGroup>(
    terms: Seq<G::Point>,
    a: Seq<usize>,
    b: Seq<usize>,
)
    ensures
        listed_total::<G>(terms, a + b) == G::sum(
            listed_total::<G>(terms, a),
            listed_total::<G>(terms, b),
        ),
    decreases b.len(),
{
    if b.len() == 0 {
        assert(a + b =~= a);
        G::sum_identity(listed_total::<G>(terms, a));
    } else {
        lemma_listed_total_concat::<G>(terms, a, b.drop_last());
        assert((a + b).drop_last() =~= a + b.drop_last());
        assert((a + b).last() == b.last());
        G::sum_associates(
            listed_total::<G>(terms, a),
            listed_total::<G>(terms, b.drop_last()),
            terms[b.last() as int],
        );
    }
}

/// The sum over a list without repetitions is the sum of the terms that the
/// list holds, whatever the order of the list.
pub proof fn lemma_listed_total_is_selected<G: CurveGroup>(
    terms: Seq<G::Point>,
    list: Seq<usize>,
    n: nat,
)
    requires
        n <= usize::MAX,
        list.no_duplicates(),
        forall|i: int| 0 <= i < list.len() ==> list[i] < n,
    ensures
        listed_total::<G>(terms, list) == selected_total::<G>(terms, marks(list, n), n),
    decreases list.len(),
{
    if list.len() == 0 {
        lemma_selected_total_none::<G>(terms, marks(list, n), n);
    } else {
        let front = list.drop_last();
        let c = list.last();
        lemma_listed_total_is_selected::<G>(terms, front, n);
        assert(!front.contains(c)) by {
            if front.contains(c) {
                let i = choose|i: int| 0 <= i < front.len() && front[i] == c;
                assert(list[i] == list[list.len() - 1]);
            }
        }
        assert(marks(list, n) =~= marks(front, n).update(c as int, true)) by {
            assert forall|d: int| 0 <= d < n implies marks(list, n)[d] == marks(front, n).update(
                c as int,
                true,
            )[d] by {
                if d == c {
                    assert(list[list.len() - 1] == c);
                } else if front.contains(d as usize) {
                    let i = choose|i: int| 0 <= i < front.len() && front[i] == d as usize;
                    assert(list[i] == d as usize);
                } else if list.contains(d as usize) {
                    let i = choose|i: int| 0 <= i < list.len() && list[i] == d as usize;
                    assert(front[i] == d as usize);
                }
            }
        }
        lemma_selected_total_mark::<G>(terms, marks(front, n), n, c as int);
    }
}

/// The sum over a list that holds each of the first `n` indices once is the
/// sum of the first `n` terms, whatever the order of the list.
pub proof fn lemma_listed_total_of_all<G: CurveGroup>(
    terms: Seq<G::Point>,
    list: Seq<usize>,
    n: nat,
)
    requires
        n <= usize::MAX,
        list.no_duplicates(),
        forall|i: int| 0 <= i < list.len() ==> list[i] < n,
        forall|c: usize| c < n ==> #[trigger] list.contains(c),
    ensures
        listed_total::<G>(terms, list) == seq_total::<G>(terms, n),
{
    lemma_listed_total_is_selected::<G>(terms, list, n);
    assert forall|c: int| 0 <= c < n implies marks(list, n)[c] by {
        assert(list.contains(c as usize));
    }
    lemma_selected_total_all::<G>(terms, marks(list, n), n);
}

} // verus!
