//! The shared counter from which workers claim their chunks.

use std::sync::atomic::AtomicUsize;
use std::sync::atomic::Ordering;
use vstd::prelude::*;

verus! {

/// A counter that no worker has drawn from yet.
pub(crate) fn new_counter() -> AtomicUsize {
    AtomicUsize::new(0)
}

/// Draws the next ticket: the counter's value, which is raised by one in the
/// same atomic step. Which ticket a caller gets depends on what the other
/// workers have drawn, so nothing is promised of it.
pub(crate) fn next_ticket(work: &AtomicUsize) -> usize {
    work.fetch_add(1, Ordering::SeqCst)
}

} // verus!
