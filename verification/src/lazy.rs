//! The zip that checks the lengths while it runs.
use crate::estimate::{estimate_of, estimates};
use crate::flow::Flow;
use crate::fold::{
    carries_to, fold_accepts, fold_back, fold_front, folds_to, try_fold_accepts, try_fold_back,
    try_fold_front, try_folds_to,
};
use crate::length::TrustedLen;
use crate::model::{at, at_back, back, front, kept, pairs, skip_back, skip_front};
use crate::pull::{count_of, last_of, nth_back_of, nth_of};
use crate::{lower_bound, panic_different_len, size_hint_impl, upper_bound, LengthMismatch};
use vstd::prelude::*;
use vstd::std_specs::iter::IteratorSpec;

verus! {

/// Zips two iterators and checks at every step that neither has ended before
/// the other.
///
/// Nothing is asked of the two lengths when the adapter is built. Each
/// operation asks both sides for an item and fails with [`LengthMismatch`]
/// when exactly one of them has none.
#[derive(Debug, Clone)]
pub struct ZipEqLazyCheck<A, B> {
    /// The first side.
    pub a: A,
    /// The second side.
    pub b: B,
}

/// What a checked step makes of the answers of the two sides: their pair, the
/// common end, or a mismatch.
pub open spec fn matched<T, U>(t: Option<T>, u: Option<U>) -> Result<
    Option<(T, U)>,
    LengthMismatch,
> {
    match (t, u) {
        (Some(x), Some(y)) => Ok(Some((x, y))),
        (None, None) => Ok(None),
        _ => Err(LengthMismatch),
    }
}

/// Pairs the answers of the two sides, and fails when only one of them is an
/// item.
pub fn both_or_none<T, U>(t: Option<T>, u: Option<U>) -> (r: Result<Option<(T, U)>, LengthMismatch>)
    ensures
        r == matched(t, u),
{
    match (t, u) {
        (Some(x), Some(y)) => Ok(Some((x, y))),
        (None, None) => Ok(None),
        _ => panic_different_len(),
    }
}

impl<A: Iterator, B: Iterator> ZipEqLazyCheck<A, B> {
    /// Takes the next item of each side and pairs them.
    ///
    /// Fails when one side has an item left and the other has none. Both
    /// sides have then been asked, so the side that had an item has lost it.
    pub fn next(&mut self) -> (r: Result<Option<(A::Item, B::Item)>, LengthMismatch>)
        ensures
            kept(old(self).a, final(self).a),
            kept(old(self).b, final(self).b),
            old(self).a.obeys_prophetic_iter_laws() ==> final(self).a.remaining() =~= skip_front(
                old(self).a.remaining(),
                1,
            ),
            old(self).b.obeys_prophetic_iter_laws() ==> final(self).b.remaining() =~= skip_front(
                old(self).b.remaining(),
                1,
            ),
            old(self).a.obeys_prophetic_iter_laws() && old(self).b.obeys_prophetic_iter_laws()
                ==> r == matched(front(old(self).a.remaining()), front(old(self).b.remaining())),
    {
        let x = self.a.next();
        let y = self.b.next();
        both_or_none(x, y)
    }

    /// An estimate of the number of pairs to come: each side is asked for its
    /// own estimate, and [`size_hint_impl`] combines the two answers. The
    /// lower bound is the larger of the two lower bounds, the upper bound the
    /// smaller of the upper bounds that the sides know.
    pub fn size_hint(&self) -> (r: (usize, Option<usize>))
        ensures
            exists|first: (usize, Option<usize>), second: (usize, Option<usize>)|
                #![trigger estimates(self.a, first), estimates(self.b, second)]
                {
                    &&& estimates(self.a, first)
                    &&& estimates(self.b, second)
                    &&& r.0 == lower_bound(first.0, second.0)
                    &&& r.1 == upper_bound(first.1, second.1)
                },
    {
        let first = estimate_of(&self.a);
        let second = estimate_of(&self.b);
        size_hint_impl(first, second)
    }

    /// Runs the first side to its end and says how many items it gave. The
    /// second side is not asked.
    pub fn count(self) -> (n: usize)
        requires
            self.a.obeys_prophetic_iter_laws(),
            self.a.decrease() is Some,
            self.a.remaining().len() <= usize::MAX,
        ensures
            n == self.a.remaining().len(),
    {
        count_of(self.a)
    }

    /// Runs both sides to their ends and pairs the items that they gave last.
    ///
    /// Fails when exactly one side was empty to begin with. Two sides that
    /// both have items give their last items, whatever their lengths.
    pub fn last(self) -> (r: Result<Option<(A::Item, B::Item)>, LengthMismatch>)
        requires
            self.a.obeys_prophetic_iter_laws(),
            self.b.obeys_prophetic_iter_laws(),
            self.a.decrease() is Some,
            self.b.decrease() is Some,
        ensures
            r == matched(back(self.a.remaining()), back(self.b.remaining())),
    {
        let x = last_of(self.a);
        let y = last_of(self.b);
        both_or_none(x, y)
    }

    /// Drops `n` items of each side and pairs the items that come after them.
    ///
    /// Fails when exactly one side has more than `n` items.
    pub fn nth(&mut self, n: usize) -> (r: Result<Option<(A::Item, B::Item)>, LengthMismatch>)
        ensures
            kept(old(self).a, final(self).a),
            kept(old(self).b, final(self).b),
            old(self).a.obeys_prophetic_iter_laws() ==> final(self).a.remaining() =~= skip_front(
                old(self).a.remaining(),
                n + 1,
            ),
            old(self).b.obeys_prophetic_iter_laws() ==> final(self).b.remaining() =~= skip_front(
                old(self).b.remaining(),
                n + 1,
            ),
            old(self).a.obeys_prophetic_iter_laws() && old(self).b.obeys_prophetic_iter_laws()
                ==> r == matched(
                at(old(self).a.remaining(), n as int),
                at(old(self).b.remaining(), n as int),
            ),
    {
        let x = nth_of(&mut self.a, n);
        let y = nth_of(&mut self.b, n);
        both_or_none(x, y)
    }

    /// Folds the pairs from the front. The first side drives the fold: for
    /// each of its items the second side is asked for one.
    ///
    /// Fails when the second side ends first, after `f` has seen the pairs up
    /// to there. A first side that ends first ends the fold: what the second
    /// side has left is not looked at.
    pub fn fold<I, F: FnMut(I, (A::Item, B::Item)) -> I>(self, init: I, f: F) -> (r: Result<
        I,
        LengthMismatch,
    >)
        requires
            self.a.obeys_prophetic_iter_laws(),
            self.b.obeys_prophetic_iter_laws(),
            self.a.decrease() is Some,
            fold_accepts(f, init, pairs(self.a.remaining(), self.b.remaining())),
        ensures
            r is Err <==> self.a.remaining().len() > self.b.remaining().len(),
            r matches Ok(out) ==> folds_to(
                f,
                init,
                pairs(self.a.remaining(), self.b.remaining()),
                out,
            ),
    {
        fold_front(self.a, self.b, init, f)
    }

    /// Folds the pairs from the front until `f` stops the fold, and hands
    /// back the answer of `f` that stopped it, or the answer that carries the
    /// last accumulator if `f` never did.
    ///
    /// Fails when the second side ends first and `f` has not stopped the fold
    /// before. With `k` the number of items that the second side has given,
    /// both sides are left `k` items further on; after a failure the first
    /// side has also lost the item that found no partner.
    pub fn try_fold<I, F: FnMut(I, (A::Item, B::Item)) -> R, R: Flow<Output = I>>(
        &mut self,
        init: I,
        f: F,
    ) -> (r: Result<R, LengthMismatch>)
        requires
            old(self).a.obeys_prophetic_iter_laws(),
            old(self).b.obeys_prophetic_iter_laws(),
            old(self).a.decrease() is Some,
            try_fold_accepts(f, init, pairs(old(self).a.remaining(), old(self).b.remaining())),
        ensures
            kept(old(self).a, final(self).a),
            kept(old(self).b, final(self).b),
            old(self).a.remaining().len() <= old(self).b.remaining().len() ==> r is Ok,
            ({
                let s = old(self).a.remaining();
                let t = old(self).b.remaining();
                let k: int = t.len() - final(self).b.remaining().len();
                match r {
                    Ok(out) => {
                        &&& try_folds_to(f, init, pairs(s, t), k, out)
                        &&& out.carried() is Some ==> s.len() <= t.len()
                        &&& final(self).a.remaining() =~= skip_front(s, k)
                        &&& final(self).b.remaining() =~= skip_front(t, k)
                    },
                    Err(_) => {
                        &&& s.len() > t.len()
                        &&& exists|acc: I| carries_to(f, init, pairs(s, t), acc)
                        &&& final(self).a.remaining() =~= skip_front(s, k + 1)
                        &&& final(self).b.remaining().len() == 0
                    },
                }
            }),
    {
        try_fold_front(&mut self.a, &mut self.b, init, f)
    }
}

impl<A: DoubleEndedIterator, B: DoubleEndedIterator> ZipEqLazyCheck<A, B> {
    /// Takes the last item of each side and pairs them.
    ///
    /// Fails when one side has an item left and the other has none.
    pub fn next_back(&mut self) -> (r: Result<Option<(A::Item, B::Item)>, LengthMismatch>)
        ensures
            kept(old(self).a, final(self).a),
            kept(old(self).b, final(self).b),
            old(self).a.obeys_prophetic_iter_laws() ==> final(self).a.remaining() =~= skip_back(
                old(self).a.remaining(),
                1,
            ),
            old(self).b.obeys_prophetic_iter_laws() ==> final(self).b.remaining() =~= skip_back(
                old(self).b.remaining(),
                1,
            ),
            old(self).a.obeys_prophetic_iter_laws() && old(self).b.obeys_prophetic_iter_laws()
                ==> r == matched(back(old(self).a.remaining()), back(old(self).b.remaining())),
    {
        let x = self.a.next_back();
        let y = self.b.next_back();
        both_or_none(x, y)
    }

    /// Drops `n` items from the back of each side and pairs the items that
    /// come before them.
    ///
    /// Fails when exactly one side has more than `n` items.
    pub fn nth_back(&mut self, n: usize) -> (r: Result<Option<(A::Item, B::Item)>, LengthMismatch>)
        ensures
            kept(old(self).a, final(self).a),
            kept(old(self).b, final(self).b),
            old(self).a.obeys_prophetic_iter_laws() ==> final(self).a.remaining() =~= skip_back(
                old(self).a.remaining(),
                n + 1,
            ),
            old(self).b.obeys_prophetic_iter_laws() ==> final(self).b.remaining() =~= skip_back(
                old(self).b.remaining(),
                n + 1,
            ),
            old(self).a.obeys_prophetic_iter_laws() && old(self).b.obeys_prophetic_iter_laws()
                ==> r == matched(
                at_back(old(self).a.remaining(), n as int),
                at_back(old(self).b.remaining(), n as int),
            ),
    {
        let x = nth_back_of(&mut self.a, n);
        let y = nth_back_of(&mut self.b, n);
        both_or_none(x, y)
    }

    /// Folds the pairs from the back until `f` stops the fold, as
    /// [`Self::try_fold`] does from the front: the last item of the one side
    /// with the last item of the other, then the items before them.
    pub fn try_rfold<I, F: FnMut(I, (A::Item, B::Item)) -> R, R: Flow<Output = I>>(
        &mut self,
        init: I,
        f: F,
    ) -> (r: Result<R, LengthMismatch>)
        requires
            old(self).a.obeys_prophetic_iter_laws(),
            old(self).b.obeys_prophetic_iter_laws(),
            old(self).a.decrease() is Some,
            try_fold_accepts(
                f,
                init,
                pairs(old(self).a.remaining().reverse(), old(self).b.remaining().reverse()),
            ),
        ensures
            kept(old(self).a, final(self).a),
            kept(old(self).b, final(self).b),
            old(self).a.remaining().len() <= old(self).b.remaining().len() ==> r is Ok,
            ({
                let s = old(self).a.remaining();
                let t = old(self).b.remaining();
                let k: int = t.len() - final(self).b.remaining().len();
                match r {
                    Ok(out) => {
                        &&& try_folds_to(f, init, pairs(s.reverse(), t.reverse()), k, out)
                        &&& out.carried() is Some ==> s.len() <= t.len()
                        &&& final(self).a.remaining() =~= skip_back(s, k)
                        &&& final(self).b.remaining() =~= skip_back(t, k)
                    },
                    Err(_) => {
                        &&& s.len() > t.len()
                        &&& exists|acc: I| carries_to(f, init, pairs(s.reverse(), t.reverse()), acc)
                        &&& final(self).a.remaining() =~= skip_back(s, k + 1)
                        &&& final(self).b.remaining().len() == 0
                    },
                }
            }),
    {
        try_fold_back(&mut self.a, &mut self.b, init, f)
    }

    /// Folds the pairs from the back, as [`Self::fold`] does from the front:
    /// it is the fold of the two sides read backwards.
    pub fn rfold<I, F: FnMut(I, (A::Item, B::Item)) -> I>(self, init: I, f: F) -> (r: Result<
        I,
        LengthMismatch,
    >)
        requires
            self.a.obeys_prophetic_iter_laws(),
            self.b.obeys_prophetic_iter_laws(),
            self.a.decrease() is Some,
            fold_accepts(f, init, pairs(self.a.remaining().reverse(), self.b.remaining().reverse())),
        ensures
            r is Err <==> self.a.remaining().len() > self.b.remaining().len(),
            r matches Ok(out) ==> folds_to(
                f,
                init,
                pairs(self.a.remaining().reverse(), self.b.remaining().reverse()),
                out,
            ),
    {
        fold_back(self.a, self.b, init, f)
    }
}

impl<A: TrustedLen, B: TrustedLen> ZipEqLazyCheck<A, B> {
    /// The number of items that the first side has left. It is the number of
    /// pairs to come if the two sides are as long as each other, which this
    /// adapter finds out only as it goes.
    pub fn len(&self) -> (n: usize)
        ensures
            self.a.obeys_prophetic_iter_laws() ==> n == self.a.remaining().len(),
    {
        self.a.trusted_len()
    }
}

} // verus!
