//! Random draws from the thread-local generator of `rand`.
use vstd::prelude::*;
use rand::Rng;

verus! {

/// Relies on `rand::Rng::gen_range` on `rand::thread_rng()`: a value in `[lo, hi)`.
/// It panics when `lo >= hi`, which the precondition rules out.
#[verifier::external_body]
pub(crate) fn random_range(lo: usize, hi: usize) -> (r: usize)
    requires
        lo < hi,
    ensures
        lo <= r < hi,
{
    rand::thread_rng().gen_range(lo, hi)
}

/// Relies on `rand::Rng::choose` on `rand::thread_rng()`: `None` for an empty
/// slice, otherwise one of its elements.
#[verifier::external_body]
pub(crate) fn pick<T: Copy>(items: &[T]) -> (r: Option<T>)
    ensures
        r is None <==> items@.len() == 0,
        r is Some ==> items@.contains(r->0),
{
    rand::thread_rng().choose(items).copied()
}

} // verus!
