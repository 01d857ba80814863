//! Folding the pairs of two iterators.
//!
//! A step function is known by its contract alone, and the contract may allow
//! more than one answer. So a fold is described as a relation: the
//! accumulators that it can end with are those at the end of a run, a chain of
//! accumulators in which every step is one that the contract of `f` allows.
use crate::flow::Flow;
use crate::model::{kept, pairs, skip_back, skip_front};
use crate::{panic_different_len, LengthMismatch};
use vstd::prelude::*;
use vstd::std_specs::iter::IteratorSpec;

verus! {

/// `accs` is a run of the fold of `items` with `f` from `init`: it starts with
/// `init`, and `f` may answer each accumulator and the item at its place with
/// the accumulator that follows.
pub open spec fn is_run<I, T, F: FnMut(I, T) -> I>(
    f: F,
    init: I,
    items: Seq<T>,
    accs: Seq<I>,
) -> bool {
    &&& accs.len() == items.len() + 1
    &&& accs[0] == init
    &&& forall|i: int|
        0 <= i < items.len() ==> f.ensures((accs[i], #[trigger] items[i]), accs[i + 1])
}

/// `out` is an accumulator that folding `items` with `f`, from `init` and in
/// order, can end with.
pub open spec fn folds_to<I, T, F: FnMut(I, T) -> I>(f: F, init: I, items: Seq<T>, out: I) -> bool {
    exists|accs: Seq<I>| #[trigger] is_run(f, init, items, accs) && accs.last() == out
}

/// `f` accepts every call that folding `items` from `init` can make of it.
pub open spec fn fold_accepts<I, T, F: FnMut(I, T) -> I>(f: F, init: I, items: Seq<T>) -> bool {
    forall|k: int, acc: I|
        0 <= k < items.len() && #[trigger] folds_to(f, init, items.take(k), acc) ==> f.requires(
            (acc, items[k]),
        )
}

/// `f` may answer `acc` and `x` with something that carries `next` on.
pub open spec fn carries<I, T, R: Flow<Output = I>, F: FnMut(I, T) -> R>(
    f: F,
    acc: I,
    x: T,
    next: I,
) -> bool {
    exists|answer: R| #[trigger] f.ensures((acc, x), answer) && answer.carried() == Some(next)
}

/// `accs` is a run of the short-circuiting fold of `items` with `f` from
/// `init` in which `f` never stops: it starts with `init`, and `f` may carry
/// each accumulator over the item at its place to the accumulator that
/// follows.
pub open spec fn is_carried_run<I, T, R: Flow<Output = I>, F: FnMut(I, T) -> R>(
    f: F,
    init: I,
    items: Seq<T>,
    accs: Seq<I>,
) -> bool {
    &&& accs.len() == items.len() + 1
    &&& accs[0] == init
    &&& forall|i: int|
        0 <= i < items.len() ==> carries(f, accs[i], #[trigger] items[i], accs[i + 1])
}

/// `acc` is an accumulator that `f` can have carried through all of `items`,
/// from `init` and in order, without stopping.
pub open spec fn carries_to<I, T, R: Flow<Output = I>, F: FnMut(I, T) -> R>(
    f: F,
    init: I,
    items: Seq<T>,
    acc: I,
) -> bool {
    exists|accs: Seq<I>| #[trigger] is_carried_run(f, init, items, accs) && accs.last() == acc
}

/// `f` accepts every call that a short-circuiting fold of `items` from `init`
/// can make of it.
pub open spec fn try_fold_accepts<I, T, R: Flow<Output = I>, F: FnMut(I, T) -> R>(
    f: F,
    init: I,
    items: Seq<T>,
) -> bool {
    forall|k: int, acc: I|
        0 <= k < items.len() && #[trigger] carries_to(f, init, items.take(k), acc) ==> f.requires(
            (acc, items[k]),
        )
}

/// `out` is an answer that a short-circuiting fold of `items` can hand back
/// when it has taken `k` of them. Either it went through them all, and `out`
/// carries an accumulator that `f` carried that far. Or `f` stopped it with
/// `out` at the last item it took.
pub open spec fn try_folds_to<I, T, R: Flow<Output = I>, F: FnMut(I, T) -> R>(
    f: F,
    init: I,
    items: Seq<T>,
    k: int,
    out: R,
) -> bool {
    ||| {
        &&& k == items.len()
        &&& out.carried() matches Some(acc)
        &&& carries_to(f, init, items, acc)
    }
    ||| {
        &&& 0 < k <= items.len()
        &&& out.carried() is None
        &&& exists|mid: I|
            carries_to(f, init, items.take(k - 1), mid) && #[trigger] f.ensures(
                (mid, items[k - 1]),
                out,
            )
    }
}

/// A run of `done` items goes on by one item.
proof fn lemma_run_grows<I, T, F: FnMut(I, T) -> I>(
    f: F,
    init: I,
    items: Seq<T>,
    accs: Seq<I>,
    done: int,
    next: I,
)
    requires
        0 <= done < items.len(),
        is_run(f, init, items.take(done), accs),
        f.ensures((accs.last(), items[done]), next),
    ensures
        is_run(f, init, items.take(done + 1), accs.push(next)),
{
}

/// A run of `done` items in which `f` never stopped goes on by one item.
proof fn lemma_carried_run_grows<I, T, R: Flow<Output = I>, F: FnMut(I, T) -> R>(
    f: F,
    init: I,
    items: Seq<T>,
    accs: Seq<I>,
    done: int,
    next: I,
)
    requires
        0 <= done < items.len(),
        is_carried_run(f, init, items.take(done), accs),
        carries(f, accs.last(), items[done], next),
    ensures
        is_carried_run(f, init, items.take(done + 1), accs.push(next)),
{
}

/// Folds the pairs of `a` and `b` from the front. The first side drives: for
/// each of its items one item is asked of the second side, and the fold fails
/// when the second side has none.
pub(crate) fn fold_front<A: Iterator, B: Iterator, I, F: FnMut(I, (A::Item, B::Item)) -> I>(
    a: A,
    b: B,
    init: I,
    f: F,
) -> (r: Result<I, LengthMismatch>)
    requires
        a.obeys_prophetic_iter_laws(),
        b.obeys_prophetic_iter_laws(),
        a.decrease() is Some,
        fold_accepts(f, init, pairs(a.remaining(), b.remaining())),
    ensures
        r is Err <==> a.remaining().len() > b.remaining().len(),
        r matches Ok(out) ==> folds_to(f, init, pairs(a.remaining(), b.remaining()), out),
{
    let mut left = a;
    let mut right = b;
    let mut step = f;
    let mut acc = init;
    let ghost mut done: int = 0;
    let ghost mut run: Seq<I> = seq![init];
    loop
        invariant
            left.obeys_prophetic_iter_laws(),
            right.obeys_prophetic_iter_laws(),
            left.decrease() is Some,
            step == f,
            0 <= done <= a.remaining().len(),
            done <= b.remaining().len(),
            left.remaining() =~= a.remaining().skip(done),
            right.remaining() =~= b.remaining().skip(done),
            is_run(f, init, pairs(a.remaining(), b.remaining()).take(done), run),
            run.last() == acc,
            fold_accepts(f, init, pairs(a.remaining(), b.remaining())),
        decreases left.decrease()->0,
    {
        let ghost items = pairs(a.remaining(), b.remaining());
        match left.next() {
            None => {
                assert(items.take(done) =~= items);
                return Ok(acc);
            },
            Some(x) => match right.next() {
                None => {
                    return panic_different_len();
                },
                Some(y) => {
                    assert(folds_to(f, init, items.take(done), acc));
                    acc = step(acc, (x, y));
                    proof {
                        lemma_run_grows(f, init, items, run, done, acc);
                        run = run.push(acc);
                        done = done + 1;
                    }
                },
            },
        }
    }
}

/// Folds the pairs of `a` and `b` from the back: the last item of the one with
/// the last item of the other, and so on towards the front.
pub(crate) fn fold_back<
    A: DoubleEndedIterator,
    B: DoubleEndedIterator,
    I,
    F: FnMut(I, (A::Item, B::Item)) -> I,
>(a: A, b: B, init: I, f: F) -> (r: Result<I, LengthMismatch>)
    requires
        a.obeys_prophetic_iter_laws(),
        b.obeys_prophetic_iter_laws(),
        a.decrease() is Some,
        fold_accepts(f, init, pairs(a.remaining().reverse(), b.remaining().reverse())),
    ensures
        r is Err <==> a.remaining().len() > b.remaining().len(),
        r matches Ok(out) ==> folds_to(
            f,
            init,
            pairs(a.remaining().reverse(), b.remaining().reverse()),
            out,
        ),
{
    let mut left = a;
    let mut right = b;
    let mut step = f;
    let mut acc = init;
    let ghost mut done: int = 0;
    let ghost mut run: Seq<I> = seq![init];
    loop
        invariant
            left.obeys_prophetic_iter_laws(),
            right.obeys_prophetic_iter_laws(),
            left.decrease() is Some,
            step == f,
            0 <= done <= a.remaining().len(),
            done <= b.remaining().len(),
            left.remaining() =~= a.remaining().take(a.remaining().len() - done),
            right.remaining() =~= b.remaining().take(b.remaining().len() - done),
            is_run(
                f,
                init,
                pairs(a.remaining().reverse(), b.remaining().reverse()).take(done),
                run,
            ),
            run.last() == acc,
            fold_accepts(f, init, pairs(a.remaining().reverse(), b.remaining().reverse())),
        decreases left.decrease()->0,
    {
        let ghost items = pairs(a.remaining().reverse(), b.remaining().reverse());
        match left.next_back() {
            None => {
                assert(items.take(done) =~= items);
                return Ok(acc);
            },
            Some(x) => match right.next_back() {
                None => {
                    return panic_different_len();
                },
                Some(y) => {
                    assert(folds_to(f, init, items.take(done), acc));
                    acc = step(acc, (x, y));
                    proof {
                        lemma_run_grows(f, init, items, run, done, acc);
                        run = run.push(acc);
                        done = done + 1;
                    }
                },
            },
        }
    }
}

/// Folds the pairs of `a` and `b` from the front until `f` stops the fold or
/// the first side ends. The first side drives, as in [`fold_front`], and the
/// fold fails when the second side has no item for one of the first.
///
/// Both sides are left where the fold ended: behind the pair at which `f`
/// stopped, or, after a failure, behind the item that found no partner.
pub(crate) fn try_fold_front<
    A: Iterator,
    B: Iterator,
    I,
    F: FnMut(I, (A::Item, B::Item)) -> R,
    R: Flow<Output = I>,
>(a: &mut A, b: &mut B, init: I, f: F) -> (r: Result<R, LengthMismatch>)
    requires
        (*old(a)).obeys_prophetic_iter_laws(),
        (*old(b)).obeys_prophetic_iter_laws(),
        (*old(a)).decrease() is Some,
        try_fold_accepts(f, init, pairs((*old(a)).remaining(), (*old(b)).remaining())),
    ensures
        kept(*old(a), *final(a)),
        kept(*old(b), *final(b)),
        (*old(a)).remaining().len() <= (*old(b)).remaining().len() ==> r is Ok,
        ({
            let s = (*old(a)).remaining();
            let t = (*old(b)).remaining();
            let k: int = t.len() - (*final(b)).remaining().len();
            match r {
                Ok(out) => {
                    &&& try_folds_to(f, init, pairs(s, t), k, out)
                    &&& out.carried() is Some ==> s.len() <= t.len()
                    &&& (*final(a)).remaining() =~= skip_front(s, k)
                    &&& (*final(b)).remaining() =~= skip_front(t, k)
                },
                Err(_) => {
                    &&& s.len() > t.len()
                    &&& exists|acc: I| carries_to(f, init, pairs(s, t), acc)
                    &&& (*final(a)).remaining() =~= skip_front(s, k + 1)
                    &&& (*final(b)).remaining().len() == 0
                },
            }
        }),
{
    let mut step = f;
    let mut acc = init;
    let ghost mut done: int = 0;
    let ghost mut run: Seq<I> = seq![init];
    loop
        invariant
            (*a).obeys_prophetic_iter_laws(),
            (*b).obeys_prophetic_iter_laws(),
            (*a).decrease() is Some,
            kept(*old(a), *a),
            kept(*old(b), *b),
            step == f,
            0 <= done <= (*old(a)).remaining().len(),
            done <= (*old(b)).remaining().len(),
            (*a).remaining() =~= (*old(a)).remaining().skip(done),
            (*b).remaining() =~= (*old(b)).remaining().skip(done),
            is_carried_run(
                f,
                init,
                pairs((*old(a)).remaining(), (*old(b)).remaining()).take(done),
                run,
            ),
            run.last() == acc,
            try_fold_accepts(f, init, pairs((*old(a)).remaining(), (*old(b)).remaining())),
        decreases (*a).decrease()->0,
    {
        let ghost items = pairs((*old(a)).remaining(), (*old(b)).remaining());
        assert(carries_to(f, init, items.take(done), acc));
        match a.next() {
            None => {
                assert(items.take(done) =~= items);
                return Ok(R::from_output(acc));
            },
            Some(x) => match b.next() {
                None => {
                    assert(items.take(done) =~= items);
                    return panic_different_len();
                },
                Some(y) => {
                    let answer = step(acc, (x, y));
                    match answer.branch() {
                        Ok(next) => {
                            proof {
                                lemma_carried_run_grows(f, init, items, run, done, next);
                                run = run.push(next);
                                done = done + 1;
                            }
                            acc = next;
                        },
                        Err(stop) => {
                            return Ok(stop);
                        },
                    }
                },
            },
        }
    }
}

/// Folds the pairs of `a` and `b` from the back until `f` stops the fold or
/// the first side ends, as [`try_fold_front`] does from the front.
pub(crate) fn try_fold_back<
    A: DoubleEndedIterator,
    B: DoubleEndedIterator,
    I,
    F: FnMut(I, (A::Item, B::Item)) -> R,
    R: Flow<Output = I>,
>(a: &mut A, b: &mut B, init: I, f: F) -> (r: Result<R, LengthMismatch>)
    requires
        (*old(a)).obeys_prophetic_iter_laws(),
        (*old(b)).obeys_prophetic_iter_laws(),
        (*old(a)).decrease() is Some,
        try_fold_accepts(
            f,
            init,
            pairs((*old(a)).remaining().reverse(), (*old(b)).remaining().reverse()),
        ),
    ensures
        kept(*old(a), *final(a)),
        kept(*old(b), *final(b)),
        (*old(a)).remaining().len() <= (*old(b)).remaining().len() ==> r is Ok,
        ({
            let s = (*old(a)).remaining();
            let t = (*old(b)).remaining();
            let k: int = t.len() - (*final(b)).remaining().len();
            match r {
                Ok(out) => {
                    &&& try_folds_to(f, init, pairs(s.reverse(), t.reverse()), k, out)
                    &&& out.carried() is Some ==> s.len() <= t.len()
                    &&& (*final(a)).remaining() =~= skip_back(s, k)
                    &&& (*final(b)).remaining() =~= skip_back(t, k)
                },
                Err(_) => {
                    &&& s.len() > t.len()
                    &&& exists|acc: I| carries_to(f, init, pairs(s.reverse(), t.reverse()), acc)
                    &&& (*final(a)).remaining() =~= skip_back(s, k + 1)
                    &&& (*final(b)).remaining().len() == 0
                },
            }
        }),
{
    let mut step = f;
    let mut acc = init;
    let ghost mut done: int = 0;
    let ghost mut run: Seq<I> = seq![init];
    loop
        invariant
            (*a).obeys_prophetic_iter_laws(),
            (*b).obeys_prophetic_iter_laws(),
            (*a).decrease() is Some,
            kept(*old(a), *a),
            kept(*old(b), *b),
            step == f,
            0 <= done <= (*old(a)).remaining().len(),
            done <= (*old(b)).remaining().len(),
            (*a).remaining() =~= (*old(a)).remaining().take((*old(a)).remaining().len() - done),
            (*b).remaining() =~= (*old(b)).remaining().take((*old(b)).remaining().len() - done),
            is_carried_run(
                f,
                init,
                pairs((*old(a)).remaining().reverse(), (*old(b)).remaining().reverse()).take(done),
                run,
            ),
            run.last() == acc,
            try_fold_accepts(
                f,
                init,
                pairs((*old(a)).remaining().reverse(), (*old(b)).remaining().reverse()),
            ),
        decreases (*a).decrease()->0,
    {
        let ghost items = pairs(
            (*old(a)).remaining().reverse(),
            (*old(b)).remaining().reverse(),
        );
        assert(carries_to(f, init, items.take(done), acc));
        match a.next_back() {
            None => {
                assert(items.take(done) =~= items);
                return Ok(R::from_output(acc));
            },
            Some(x) => match b.next_back() {
                None => {
                    assert(items.take(done) =~= items);
                    return panic_different_len();
                },
                Some(y) => {
                    let answer = step(acc, (x, y));
                    match answer.branch() {
                        Ok(next) => {
                            proof {
                                lemma_carried_run_grows(f, init, items, run, done, next);
                                run = run.push(next);
                                done = done + 1;
                            }
                            acc = next;
                        },
                        Err(stop) => {
                            return Ok(stop);
                        },
                    }
                },
            },
        }
    }
}

} // verus!
