//! The estimate that an iterator gives of the number of items it has left.
//!
//! An iterator may estimate as it likes, and may answer differently each time
//! it is asked. So an estimate is known only as an answer that the iterator
//! gave: the contracts speak of it through [`estimates`].
use vstd::prelude::*;

verus! {

/// `Iterator::size_hint`. The bounds are an estimate that an iterator is free
/// to get wrong, so the contract claims nothing of them.
#[verifier::external_body]
fn size_hint_of<I: Iterator>(it: &I) -> (usize, Option<usize>) {
    it.size_hint()
}

/// `hint` is an estimate that `it` gives of the number of items it has left:
/// a lower bound and, where it knows one, an upper bound, as the iterator
/// hands them out when asked for its size hint.
pub closed spec fn estimates<I: Iterator>(it: I, hint: (usize, Option<usize>)) -> bool {
    call_ensures(size_hint_of::<I>, (&it,), hint)
}

/// Asks `it` for its estimate.
pub(crate) fn estimate_of<I: Iterator>(it: &I) -> (hint: (usize, Option<usize>))
    ensures
        estimates(*it, hint),
{
    size_hint_of(it)
}

} // verus!
