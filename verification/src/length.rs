//! Lengths that can be relied on.
use vstd::prelude::*;
use vstd::std_specs::iter::IteratorSpec;

verus! {

/// An iterator that can say exactly how many items it has left.
///
/// An estimate will not do for comparing two lengths before a zip, so an
/// implementation owes the proof that its answer is the number of items still
/// to come.
pub trait TrustedLen: Iterator {
    /// The number of items that the iterator has yet to hand out.
    fn trusted_len(&self) -> (n: usize)
        ensures
            self.obeys_prophetic_iter_laws() ==> n == self.remaining().len(),
    ;
}

/// The iterator that owns an array's items, `core::array::IntoIter`. Nothing
/// is said of what is inside it.
#[verifier::external_type_specification]
#[verifier::external_body]
#[verifier::reject_recursive_types(T)]
pub struct ExArrayIntoIter<T, const N: usize>(core::array::IntoIter<T, N>);

/// `ExactSizeIterator::len` on the iterator that owns a vector's items. The
/// iterator counts the items between its two ends, so the contract claims that
/// the answer is the number of items still to come.
#[verifier::external_body]
fn vec_iter_len<T>(it: &std::vec::IntoIter<T>) -> (n: usize)
    ensures
        it.obeys_prophetic_iter_laws() ==> n == it.remaining().len(),
{
    it.len()
}

/// `ExactSizeIterator::len` on the iterator that borrows a slice's items. The
/// contract claims that the answer is the number of items still to come.
#[verifier::external_body]
fn slice_iter_len<'a, T>(it: &core::slice::Iter<'a, T>) -> (n: usize)
    ensures
        it.obeys_prophetic_iter_laws() ==> n == it.remaining().len(),
{
    it.len()
}

/// `ExactSizeIterator::len` on the iterator that owns an array's items. The
/// contract claims that the answer is the number of items still to come.
#[verifier::external_body]
fn array_iter_len<T, const N: usize>(it: &core::array::IntoIter<T, N>) -> (n: usize)
    ensures
        it.obeys_prophetic_iter_laws() ==> n == it.remaining().len(),
{
    it.len()
}

impl<T> TrustedLen for std::vec::IntoIter<T> {
    fn trusted_len(&self) -> (n: usize) {
        vec_iter_len(self)
    }
}

impl<'a, T> TrustedLen for core::slice::Iter<'a, T> {
    fn trusted_len(&self) -> (n: usize) {
        slice_iter_len(self)
    }
}

impl<T, const N: usize> TrustedLen for core::array::IntoIter<T, N> {
    fn trusted_len(&self) -> (n: usize) {
        array_iter_len(self)
    }
}

} // verus!
