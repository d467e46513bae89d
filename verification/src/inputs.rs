//! Where the scalars of a multiplication come from: a sequence held in
//! memory, or a function that computes the scalar at an index.

use crate::scalar::scalar_value;
use vstd::prelude::*;

verus! {

/// A source of scalars, each an array of `N` little-endian 64-bit limbs.
#[verifier::reject_recursive_types(N)]
pub enum PublicInputs<'a, const N: usize, F: Fn(usize) -> [u64; N] + Sync + Send> {
    /// The scalars stand in a borrowed sequence.
    Slice(&'a [[u64; N]]),
    /// The scalar at an index is computed on demand.
    Getter(F),
}

impl<'a, const N: usize, F: Fn(usize) -> [u64; N] + Sync + Send> PublicInputs<'a, N, F> {
    /// The scalar at index `i`.
    pub open spec fn spec_get(&self, i: int) -> [u64; N] {
        match self {
            PublicInputs::Slice(inputs) => inputs@[i],
            PublicInputs::Getter(f) => choose|r: [u64; N]| #[trigger] call_ensures(*f, (i as usize,), r),
        }
    }

    /// The source yields a scalar at index `i`, and always the same one.
    pub open spec fn defined_at(&self, i: int) -> bool {
        match self {
            PublicInputs::Slice(inputs) => 0 <= i < inputs@.len(),
            PublicInputs::Getter(f) => {
                &&& 0 <= i <= usize::MAX
                &&& call_requires(*f, (i as usize,))
                &&& forall|r: [u64; N]| #[trigger]
                    call_ensures(*f, (i as usize,), r) ==> r == self.spec_get(i)
            },
        }
    }

    /// The source yields a scalar at each of the first `n` indices.
    pub open spec fn covers(&self, n: nat) -> bool {
        forall|i: int| 0 <= i < n ==> self.defined_at(i)
    }

    /// The numbers that the `nbits` low bits of the first `n` scalars denote.
    pub open spec fn values(&self, n: nat, nbits: nat) -> Seq<nat> {
        Seq::new(n, |i: int| scalar_value(self.spec_get(i)@, nbits))
    }

    /// The scalar at index `i`.
    pub fn get(&self, i: usize) -> (r: [u64; N])
        requires
            self.defined_at(i as int),
        ensures
            r == self.spec_get(i as int),
    {
        match self {
            PublicInputs::Slice(inputs) => inputs[i],
            PublicInputs::Getter(f) => f(i),
        }
    }
}

/// Two sources that yield the same scalar at each of the first `n` indices
/// denote the same numbers, whichever kind each of them is.
pub proof fn lemma_sources_agree<
    const N: usize,
    F1: Fn(usize) -> [u64; N] + Sync + Send,
    F2: Fn(usize) -> [u64; N] + Sync + Send,
>(a: PublicInputs<'_, N, F1>, b: PublicInputs<'_, N, F2>, n: nat, nbits: nat)
    requires
        forall|i: int| 0 <= i < n ==> a.spec_get(i) == b.spec_get(i),
    ensures
        a.values(n, nbits) == b.values(n, nbits),
{
    assert(a.values(n, nbits) =~= b.values(n, nbits));
}

} // verus!
