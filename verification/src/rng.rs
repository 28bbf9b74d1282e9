use vstd::prelude::*;

verus! {

/// Draws a value uniformly from `low..high` with `rand::Rng::gen_range` on the
/// thread-local generator. The crate asserts `low < high` and otherwise
/// samples a `Range`, so the contract claims only that the value lies in the
/// half-open interval.
#[verifier::external_body]
pub(crate) fn random_index(low: usize, high: usize) -> (r: usize)
    requires
        low < high,
    ensures
        low <= r < high,
{
    rand::Rng::gen_range(&mut rand::thread_rng(), low, high)
}

/// Picks a random element of `values` with `rand::Rng::choose` on the
/// thread-local generator: `None` exactly when `values` is empty, otherwise
/// a reference to one of its elements. Which element is chosen is left open.
#[verifier::external_body]
pub(crate) fn pick_one<'a, T>(values: &'a [T]) -> (r: Option<&'a T>)
    ensures
        r is None <==> values@.len() == 0,
        r matches Some(x) ==> values@.contains(*x),
{
    rand::Rng::choose(&mut rand::thread_rng(), values)
}

/// Shuffles `values` in place with `rand::Rng::shuffle` on the thread-local
/// generator. The crate only swaps elements, so the contract claims that the
/// result is a permutation of the input; the order it produces is left open.
#[verifier::external_body]
pub(crate) fn shuffle<T>(values: &mut Vec<T>)
    ensures
        final(values)@.len() == old(values)@.len(),
        final(values)@.to_multiset() == old(values)@.to_multiset(),
{
    rand::Rng::shuffle(&mut rand::thread_rng(), values.as_mut_slice())
}

} // verus!
