//! Zipping two iterators that must have the same length.
//!
//! An ordinary zip stops without a word when one side runs out first. The two
//! adapters of this crate treat that as a failure instead:
//!
//! * [`ZipEqEagerCheck`] is built once the two lengths are known to be equal,
//!   either because [`ZipEq::zip_eq_eager`] compared them or because the
//!   caller of [`ZipEq::zip_eq_unchecked`] proved it. Its operations have the
//!   equality as a precondition and cannot fail.
//! * [`ZipEqLazyCheck`] is built by [`ZipEq::zip_eq_lazy`] from any two
//!   iterators. Its operations compare what the two sides hand out and return
//!   [`LengthMismatch`] at the step where one side has an item and the other
//!   has not.
//!
//! The contracts speak of an iterator through vstd's `IteratorSpec`: the
//! sequence `remaining()` of the items that it has yet to hand out, known once
//! the iterator `obeys_prophetic_iter_laws()`. What they say of that sequence
//! is written with the functions of [`model`] and [`fold`]; what follows from
//! them for every pair of inputs is proved in [`laws`].
use vstd::prelude::*;
use vstd::std_specs::iter::IteratorSpec;

pub mod eager;
pub mod estimate;
pub mod flow;
pub mod fold;
pub mod laws;
pub mod lazy;
pub mod length;
pub mod model;
mod pull;

pub use eager::ZipEqEagerCheck;
pub use flow::Flow;
pub use lazy::ZipEqLazyCheck;
pub use length::TrustedLen;

verus! {

/// The failure of a checked zip: one of the two iterators reached its end
/// before the other.
#[derive(Debug, Clone, Copy, PartialEq, Eq, Structural)]
pub struct LengthMismatch;

impl LengthMismatch {
    /// A sentence for the person who reads the failure.
    pub fn message(&self) -> (text: &'static str)
        ensures
            text@ == "ZipEq: Reached the end of one of the iterators before the other."@,
    {
        "ZipEq: Reached the end of one of the iterators before the other."
    }
}

/// Raises the length mismatch. Failures of this crate are values, so the
/// mismatch comes back as the `Err` of whatever result the caller is building.
pub fn panic_different_len<T>() -> (r: Result<T, LengthMismatch>)
    ensures
        r == Err::<T, LengthMismatch>(LengthMismatch),
{
    Err(LengthMismatch)
}

/// The larger of two lower bounds.
pub open spec fn lower_bound(a: usize, b: usize) -> usize {
    if a >= b {
        a
    } else {
        b
    }
}

/// The smaller of the upper bounds that are known; `None` where neither is.
pub open spec fn upper_bound(a: Option<usize>, b: Option<usize>) -> Option<usize> {
    match (a, b) {
        (Some(x), Some(y)) => Some(
            if x <= y {
                x
            } else {
                y
            },
        ),
        (Some(x), None) => Some(x),
        (None, Some(y)) => Some(y),
        (None, None) => None,
    }
}

/// Combines the size estimates of two iterators into the estimate of their
/// zip. An estimate is a lower bound and, where one is known, an upper bound.
///
/// The lower bound is the larger of the two: were one side shorter than the
/// other claims to be at least, the zip would fail, not end early. The upper
/// bound is the smaller of those that are known.
pub fn size_hint_impl(a: (usize, Option<usize>), b: (usize, Option<usize>)) -> (r: (
    usize,
    Option<usize>,
))
    ensures
        r.0 == lower_bound(a.0, b.0),
        r.1 == upper_bound(a.1, b.1),
{
    (
        if a.0 >= b.0 {
            a.0
        } else {
            b.0
        },
        match (a.1, b.1) {
            (Some(x), Some(y)) => Some(
                if x <= y {
                    x
                } else {
                    y
                },
            ),
            (Some(x), None) => Some(x),
            (None, Some(y)) => Some(y),
            (None, None) => None,
        },
    )
}

/// The combined estimate is right where the two it is made of are right: if
/// the zip is of two sides that both have `n` items left, and `n` lies within
/// the bounds of either estimate, it lies within the combined bounds.
pub proof fn lemma_size_hint_bounds_the_zip(
    a: (usize, Option<usize>),
    b: (usize, Option<usize>),
    n: nat,
)
    requires
        a.0 <= n,
        b.0 <= n,
        a.1 matches Some(upper) ==> n <= upper,
        b.1 matches Some(upper) ==> n <= upper,
    ensures
        lower_bound(a.0, b.0) <= n,
        upper_bound(a.1, b.1) matches Some(upper) ==> n <= upper,
{
}

/// The three ways to zip an iterator with another of the same length.
pub trait ZipEq: Iterator + Sized {
    /// Zips `self` with `b` on the caller's word that the two have the same
    /// number of items left. The caller proves it; nothing is compared.
    fn zip_eq_unchecked<B: Iterator>(self, b: B) -> (zip: ZipEqEagerCheck<Self, B>)
        requires
            self.remaining().len() == b.remaining().len(),
        ensures
            zip.a == self,
            zip.b == b,
    ;

    /// Zips `self` with `b` after comparing how many items each has left.
    /// Both must know that number exactly.
    ///
    /// Fails, before any item is taken, when the two numbers differ.
    fn zip_eq_eager<B: TrustedLen>(self, b: B) -> (r: Result<
        ZipEqEagerCheck<Self, B>,
        LengthMismatch,
    >) where Self: TrustedLen
        ensures
            self.obeys_prophetic_iter_laws() && b.obeys_prophetic_iter_laws() ==> (r is Err
                <==> self.remaining().len() != b.remaining().len()),
            r matches Ok(zip) ==> zip.a == self && zip.b == b,
    ;

    /// Zips `self` with `b` and leaves the comparison of the lengths to the
    /// adapter, which makes it step by step.
    fn zip_eq_lazy<B: Iterator>(self, b: B) -> (zip: ZipEqLazyCheck<Self, B>)
        ensures
            zip.a == self,
            zip.b == b,
    ;
}

impl<A: Iterator> ZipEq for A {
    fn zip_eq_unchecked<B: Iterator>(self, b: B) -> (zip: ZipEqEagerCheck<A, B>) {
        ZipEqEagerCheck { a: self, b }
    }

    fn zip_eq_eager<B: TrustedLen>(self, b: B) -> (r: Result<
        ZipEqEagerCheck<A, B>,
        LengthMismatch,
    >) where A: TrustedLen {
        if self.trusted_len() != b.trusted_len() {
            return panic_different_len();
        }
        Ok(ZipEqEagerCheck { a: self, b })
    }

    fn zip_eq_lazy<B: Iterator>(self, b: B) -> (zip: ZipEqLazyCheck<A, B>) {
        ZipEqLazyCheck { a: self, b }
    }
}

} // verus!
