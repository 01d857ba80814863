//! The zip whose lengths were checked before it runs.
use crate::estimate::{estimate_of, estimates};
use crate::flow::Flow;
use crate::fold::{
    fold_accepts, fold_back, fold_front, folds_to, try_fold_accepts, try_fold_back,
    try_fold_front, try_folds_to,
};
use crate::length::TrustedLen;
use crate::model::{at, at_back, back, front, kept, pairs, skip_back, skip_front};
use crate::pull::{count_of, last_of, nth_back_of, nth_of};
use crate::{lower_bound, size_hint_impl, upper_bound};
use vstd::pervasive::unreached;
use vstd::prelude::*;
use vstd::std_specs::iter::IteratorSpec;

verus! {

/// Zips two iterators that are known to have the same number of items left.
///
/// That the two sides keep to the iterator laws and are as long as each other
/// is the invariant of this adapter. It speaks of the items still to come, so
/// it is no predicate on the value: every operation has it as a precondition
/// and leaves it standing. With it no operation can find one side ended
/// before the other, and none has a failure to report.
#[derive(Debug, Clone)]
pub struct ZipEqEagerCheck<A, B> {
    /// The first side.
    pub a: A,
    /// The second side.
    pub b: B,
}

/// Pairs the answers of two sides that agree on whether there is an item.
pub fn both_or_none<T, U>(t: Option<T>, u: Option<U>) -> (r: Option<(T, U)>)
    requires
        t is Some <==> u is Some,
    ensures
        r == match (t, u) {
            (Some(x), Some(y)) => Some((x, y)),
            _ => None::<(T, U)>,
        },
{
    match t {
        Some(x) => match u {
            Some(y) => Some((x, y)),
            None => unreached(),
        },
        None => None,
    }
}

impl<A: Iterator, B: Iterator> ZipEqEagerCheck<A, B> {
    /// Takes the next item of each side and pairs them; `None` once both
    /// sides have ended.
    pub fn next(&mut self) -> (r: Option<(A::Item, B::Item)>)
        requires
            old(self).a.obeys_prophetic_iter_laws(),
            old(self).b.obeys_prophetic_iter_laws(),
            old(self).a.remaining().len() == old(self).b.remaining().len(),
        ensures
            kept(old(self).a, final(self).a),
            kept(old(self).b, final(self).b),
            final(self).a.remaining().len() == final(self).b.remaining().len(),
            r == front(pairs(old(self).a.remaining(), old(self).b.remaining())),
            final(self).a.remaining() =~= skip_front(old(self).a.remaining(), 1),
            final(self).b.remaining() =~= skip_front(old(self).b.remaining(), 1),
    {
        let x = self.a.next();
        let y = self.b.next();
        both_or_none(x, y)
    }

    /// An estimate of the number of pairs to come: each side is asked for its
    /// own estimate, and [`size_hint_impl`] combines the two answers. The
    /// lower bound is the larger of the two lower bounds, the upper bound the
    /// smaller of the upper bounds that the sides know.
    pub fn size_hint(&self) -> (r: (usize, Option<usize>))
        ensures
            exists|first: (usize, Option<usize>), second: (usize, Option<usize>)|
                #![trigger estimates(self.a, first), estimates(self.b, second)]
                {
                    &&& estimates(self.a, first)
                    &&& estimates(self.b, second)
                    &&& r.0 == lower_bound(first.0, second.0)
                    &&& r.1 == upper_bound(first.1, second.1)
                },
    {
        let first = estimate_of(&self.a);
        let second = estimate_of(&self.b);
        size_hint_impl(first, second)
    }

    /// Runs the zip to its end and says how many pairs it gave.
    pub fn count(self) -> (n: usize)
        requires
            self.a.obeys_prophetic_iter_laws(),
            self.b.obeys_prophetic_iter_laws(),
            self.a.remaining().len() == self.b.remaining().len(),
            self.a.decrease() is Some,
            self.a.remaining().len() <= usize::MAX,
        ensures
            n == pairs(self.a.remaining(), self.b.remaining()).len(),
    {
        count_of(self.a)
    }

    /// Runs both sides to their ends and pairs the items that they gave last.
    pub fn last(self) -> (r: Option<(A::Item, B::Item)>)
        requires
            self.a.obeys_prophetic_iter_laws(),
            self.b.obeys_prophetic_iter_laws(),
            self.a.remaining().len() == self.b.remaining().len(),
            self.a.decrease() is Some,
            self.b.decrease() is Some,
        ensures
            r == back(pairs(self.a.remaining(), self.b.remaining())),
    {
        let x = last_of(self.a);
        let y = last_of(self.b);
        both_or_none(x, y)
    }

    /// Drops `n` pairs and hands out the one after them.
    pub fn nth(&mut self, n: usize) -> (r: Option<(A::Item, B::Item)>)
        requires
            old(self).a.obeys_prophetic_iter_laws(),
            old(self).b.obeys_prophetic_iter_laws(),
            old(self).a.remaining().len() == old(self).b.remaining().len(),
        ensures
            kept(old(self).a, final(self).a),
            kept(old(self).b, final(self).b),
            final(self).a.remaining().len() == final(self).b.remaining().len(),
            r == at(pairs(old(self).a.remaining(), old(self).b.remaining()), n as int),
            final(self).a.remaining() =~= skip_front(old(self).a.remaining(), n + 1),
            final(self).b.remaining() =~= skip_front(old(self).b.remaining(), n + 1),
    {
        let x = nth_of(&mut self.a, n);
        let y = nth_of(&mut self.b, n);
        both_or_none(x, y)
    }

    /// Folds the pairs from the front.
    pub fn fold<I, F: FnMut(I, (A::Item, B::Item)) -> I>(self, init: I, f: F) -> (r: I)
        requires
            self.a.obeys_prophetic_iter_laws(),
            self.b.obeys_prophetic_iter_laws(),
            self.a.remaining().len() == self.b.remaining().len(),
            self.a.decrease() is Some,
            fold_accepts(f, init, pairs(self.a.remaining(), self.b.remaining())),
        ensures
            folds_to(f, init, pairs(self.a.remaining(), self.b.remaining()), r),
    {
        match fold_front(self.a, self.b, init, f) {
            Ok(out) => out,
            Err(_) => unreached(),
        }
    }

    /// Folds the pairs from the front until `f` stops the fold, and hands
    /// back the answer of `f` that stopped it, or the answer that carries the
    /// last accumulator if `f` never did.
    ///
    /// With `k` the number of pairs that the fold took, both sides are left
    /// `k` items further on.
    pub fn try_fold<I, F: FnMut(I, (A::Item, B::Item)) -> R, R: Flow<Output = I>>(
        &mut self,
        init: I,
        f: F,
    ) -> (r: R)
        requires
            old(self).a.obeys_prophetic_iter_laws(),
            old(self).b.obeys_prophetic_iter_laws(),
            old(self).a.remaining().len() == old(self).b.remaining().len(),
            old(self).a.decrease() is Some,
            try_fold_accepts(f, init, pairs(old(self).a.remaining(), old(self).b.remaining())),
        ensures
            kept(old(self).a, final(self).a),
            kept(old(self).b, final(self).b),
            final(self).a.remaining().len() == final(self).b.remaining().len(),
            ({
                let s = old(self).a.remaining();
                let t = old(self).b.remaining();
                let k: int = s.len() - final(self).a.remaining().len();
                &&& try_folds_to(f, init, pairs(s, t), k, r)
                &&& final(self).a.remaining() =~= skip_front(s, k)
                &&& final(self).b.remaining() =~= skip_front(t, k)
            }),
    {
        match try_fold_front(&mut self.a, &mut self.b, init, f) {
            Ok(out) => out,
            Err(_) => unreached(),
        }
    }
}

impl<A: DoubleEndedIterator, B: DoubleEndedIterator> ZipEqEagerCheck<A, B> {
    /// Takes the last item of each side and pairs them; `None` once both
    /// sides have ended.
    pub fn next_back(&mut self) -> (r: Option<(A::Item, B::Item)>)
        requires
            old(self).a.obeys_prophetic_iter_laws(),
            old(self).b.obeys_prophetic_iter_laws(),
            old(self).a.remaining().len() == old(self).b.remaining().len(),
        ensures
            kept(old(self).a, final(self).a),
            kept(old(self).b, final(self).b),
            final(self).a.remaining().len() == final(self).b.remaining().len(),
            r == back(pairs(old(self).a.remaining(), old(self).b.remaining())),
            final(self).a.remaining() =~= skip_back(old(self).a.remaining(), 1),
            final(self).b.remaining() =~= skip_back(old(self).b.remaining(), 1),
    {
        let x = self.a.next_back();
        let y = self.b.next_back();
        both_or_none(x, y)
    }

    /// Drops `n` pairs from the back and hands out the one before them.
    pub fn nth_back(&mut self, n: usize) -> (r: Option<(A::Item, B::Item)>)
        requires
            old(self).a.obeys_prophetic_iter_laws(),
            old(self).b.obeys_prophetic_iter_laws(),
            old(self).a.remaining().len() == old(self).b.remaining().len(),
        ensures
            kept(old(self).a, final(self).a),
            kept(old(self).b, final(self).b),
            final(self).a.remaining().len() == final(self).b.remaining().len(),
            r == at_back(pairs(old(self).a.remaining(), old(self).b.remaining()), n as int),
            final(self).a.remaining() =~= skip_back(old(self).a.remaining(), n + 1),
            final(self).b.remaining() =~= skip_back(old(self).b.remaining(), n + 1),
    {
        let x = nth_back_of(&mut self.a, n);
        let y = nth_back_of(&mut self.b, n);
        both_or_none(x, y)
    }

    /// Folds the pairs from the back until `f` stops the fold, as
    /// [`Self::try_fold`] does from the front: it is the short-circuiting
    /// fold of the pairs in reverse.
    pub fn try_rfold<I, F: FnMut(I, (A::Item, B::Item)) -> R, R: Flow<Output = I>>(
        &mut self,
        init: I,
        f: F,
    ) -> (r: R)
        requires
            old(self).a.obeys_prophetic_iter_laws(),
            old(self).b.obeys_prophetic_iter_laws(),
            old(self).a.remaining().len() == old(self).b.remaining().len(),
            old(self).a.decrease() is Some,
            try_fold_accepts(
                f,
                init,
                pairs(old(self).a.remaining(), old(self).b.remaining()).reverse(),
            ),
        ensures
            kept(old(self).a, final(self).a),
            kept(old(self).b, final(self).b),
            final(self).a.remaining().len() == final(self).b.remaining().len(),
            ({
                let s = old(self).a.remaining();
                let t = old(self).b.remaining();
                let k: int = s.len() - final(self).a.remaining().len();
                &&& try_folds_to(f, init, pairs(s, t).reverse(), k, r)
                &&& final(self).a.remaining() =~= skip_back(s, k)
                &&& final(self).b.remaining() =~= skip_back(t, k)
            }),
    {
        proof {
            let s = self.a.remaining();
            let t = self.b.remaining();
            assert(pairs(s.reverse(), t.reverse()) =~= pairs(s, t).reverse());
        }
        match try_fold_back(&mut self.a, &mut self.b, init, f) {
            Ok(out) => out,
            Err(_) => unreached(),
        }
    }

    /// Folds the pairs from the back: it is the fold of the pairs in reverse.
    pub fn rfold<I, F: FnMut(I, (A::Item, B::Item)) -> I>(self, init: I, f: F) -> (r: I)
        requires
            self.a.obeys_prophetic_iter_laws(),
            self.b.obeys_prophetic_iter_laws(),
            self.a.remaining().len() == self.b.remaining().len(),
            self.a.decrease() is Some,
            fold_accepts(f, init, pairs(self.a.remaining(), self.b.remaining()).reverse()),
        ensures
            folds_to(f, init, pairs(self.a.remaining(), self.b.remaining()).reverse(), r),
    {
        proof {
            let s = self.a.remaining();
            let t = self.b.remaining();
            assert(pairs(s.reverse(), t.reverse()) =~= pairs(s, t).reverse());
        }
        match fold_back(self.a, self.b, init, f) {
            Ok(out) => out,
            Err(_) => unreached(),
        }
    }
}

impl<A: TrustedLen, B: TrustedLen> ZipEqEagerCheck<A, B> {
    /// The number of pairs to come.
    pub fn len(&self) -> (n: usize)
        requires
            self.a.obeys_prophetic_iter_laws(),
            self.b.obeys_prophetic_iter_laws(),
            self.a.remaining().len() == self.b.remaining().len(),
        ensures
            n == pairs(self.a.remaining(), self.b.remaining()).len(),
    {
        self.a.trusted_len()
    }
}

} // verus!
