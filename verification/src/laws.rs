//! What holds of the two zips whatever they are given.
//!
//! The laws are stated over the functions in which the contracts of the
//! adapters are written, so each of them is a statement about what the
//! operations hand out.
use crate::flow::Flow;
use crate::fold::{carries, carries_to, folds_to, is_carried_run, is_run, try_folds_to};
use crate::lazy::matched;
use crate::model::{at, front, pairs, skip_front};
use crate::LengthMismatch;
use vstd::prelude::*;

verus! {

/// What `next` answers on an eager zip of `s` and `t` after `k` earlier calls.
pub open spec fn eager_answer<T, U>(s: Seq<T>, t: Seq<U>, k: nat) -> Option<(T, U)>
    decreases k,
{
    if k == 0 {
        front(pairs(s, t))
    } else {
        eager_answer(skip_front(s, 1), skip_front(t, 1), (k - 1) as nat)
    }
}

/// What `next` answers on a checked zip of `s` and `t` after `k` earlier
/// calls.
pub open spec fn lazy_answer<T, U>(s: Seq<T>, t: Seq<U>, k: nat) -> Result<
    Option<(T, U)>,
    LengthMismatch,
>
    decreases k,
{
    if k == 0 {
        matched(front(s), front(t))
    } else {
        lazy_answer(skip_front(s, 1), skip_front(t, 1), (k - 1) as nat)
    }
}

/// Both zips give the pairs in order: on two sides of the same length the
/// call after `k` earlier ones answers with the items at place `k` of both
/// sides, and with the end once `k` has reached the length. The checked zip
/// answers as the eager one does, and never with a failure.
pub proof fn lemma_same_length_gives_the_pairs<T, U>(s: Seq<T>, t: Seq<U>, k: nat)
    requires
        s.len() == t.len(),
    ensures
        eager_answer(s, t, k) == at(pairs(s, t), k as int),
        lazy_answer(s, t, k) == Ok::<Option<(T, U)>, LengthMismatch>(eager_answer(s, t, k)),
        k < s.len() ==> eager_answer(s, t, k) == Some((s[k as int], t[k as int])),
        k >= s.len() ==> eager_answer(s, t, k) is None,
    decreases k,
{
    if k > 0 {
        lemma_same_length_gives_the_pairs(skip_front(s, 1), skip_front(t, 1), (k - 1) as nat);
    }
}

/// The checked zip fails where the shorter side ends, and not before: on two
/// sides of different lengths the call after `k` earlier ones answers with the
/// items at place `k` while both sides reach that far, and with the failure
/// when `k` is the length of the shorter side.
pub proof fn lemma_lazy_fails_where_the_shorter_ends<T, U>(s: Seq<T>, t: Seq<U>, k: nat)
    requires
        s.len() != t.len(),
    ensures
        k < s.len() && k < t.len() ==> lazy_answer(s, t, k) == Ok::<
            Option<(T, U)>,
            LengthMismatch,
        >(Some((s[k as int], t[k as int]))),
        k == s.len() < t.len() || k == t.len() < s.len() ==> lazy_answer(s, t, k) is Err,
    decreases k,
{
    if k > 0 && k <= s.len() && k <= t.len() {
        lemma_lazy_fails_where_the_shorter_ends(
            skip_front(s, 1),
            skip_front(t, 1),
            (k - 1) as nat,
        );
    }
}

/// The end is final: once `next` has answered that the zip has ended, it
/// answers so at every later call. It holds of the eager zip of two sides of
/// the same length, and of the checked zip of any two sides.
pub proof fn lemma_end_is_final<T, U>(s: Seq<T>, t: Seq<U>, k: nat, later: nat)
    requires
        k <= later,
    ensures
        s.len() == t.len() && eager_answer(s, t, k) is None ==> eager_answer(s, t, later) is None,
        lazy_answer(s, t, k) == Ok::<Option<(T, U)>, LengthMismatch>(None) ==> lazy_answer(
            s,
            t,
            later,
        ) == Ok::<Option<(T, U)>, LengthMismatch>(None),
    decreases k,
{
    if k == 0 {
        lemma_ended_stays_ended(s, t, later);
    } else {
        lemma_end_is_final(
            skip_front(s, 1),
            skip_front(t, 1),
            (k - 1) as nat,
            (later - 1) as nat,
        );
    }
}

/// A zip of two sides that both have ended answers every call with the end.
proof fn lemma_ended_stays_ended<T, U>(s: Seq<T>, t: Seq<U>, k: nat)
    ensures
        s.len() == 0 ==> eager_answer(s, t, k) is None,
        s.len() == 0 && t.len() == 0 ==> lazy_answer(s, t, k) == Ok::<
            Option<(T, U)>,
            LengthMismatch,
        >(None),
    decreases k,
{
    if k > 0 {
        lemma_ended_stays_ended(skip_front(s, 1), skip_front(t, 1), (k - 1) as nat);
    }
}

/// Folding from the back is folding the mirror image from the front: on two
/// sides of the same length, the pairs of the two sides read backwards are the
/// pairs read backwards. So a fold from the back of `s` and `t` ends with the
/// accumulators that a fold from the front ends with on `s` and `t` reversed.
pub proof fn lemma_rfold_mirrors_fold<I, T, U, F: FnMut(I, (T, U)) -> I>(
    f: F,
    init: I,
    s: Seq<T>,
    t: Seq<U>,
    out: I,
)
    requires
        s.len() == t.len(),
    ensures
        pairs(s.reverse(), t.reverse()) == pairs(s, t).reverse(),
        folds_to(f, init, pairs(s, t).reverse(), out) <==> folds_to(
            f,
            init,
            pairs(s.reverse(), t.reverse()),
            out,
        ),
{
    assert(pairs(s.reverse(), t.reverse()) =~= pairs(s, t).reverse());
}

/// `out` is an accumulator that a caller can end with who starts from `acc`,
/// asks an eager zip of `s` and `t` for one pair after the other and hands
/// each to `f`, until the zip answers with the end.
pub open spec fn steps_to<I, T, U, F: FnMut(I, (T, U)) -> I>(
    f: F,
    acc: I,
    s: Seq<T>,
    t: Seq<U>,
    out: I,
) -> bool
    decreases s.len(),
{
    match front(pairs(s, t)) {
        None => out == acc,
        Some(p) => exists|mid: I|
            #[trigger] f.ensures((acc, p), mid) && steps_to(
                f,
                mid,
                skip_front(s, 1),
                skip_front(t, 1),
                out,
            ),
    }
}

/// `out` is what a caller can end with who does the same with a checked zip
/// of `s` and `t`, and who gives up with the failure if the zip answers with
/// one.
pub open spec fn checked_steps_to<I, T, U, F: FnMut(I, (T, U)) -> I>(
    f: F,
    acc: I,
    s: Seq<T>,
    t: Seq<U>,
    out: Result<I, LengthMismatch>,
) -> bool
    decreases s.len(),
{
    match matched(front(s), front(t)) {
        Err(e) => out == Err::<I, LengthMismatch>(e),
        Ok(None) => out == Ok::<I, LengthMismatch>(acc),
        Ok(Some(p)) => exists|mid: I|
            #[trigger] f.ensures((acc, p), mid) && checked_steps_to(
                f,
                mid,
                skip_front(s, 1),
                skip_front(t, 1),
                out,
            ),
    }
}

/// The bulk fold does what a fold by single steps does: on two sides of the
/// same length, the accumulators that `fold` can end with are those that a
/// caller can end with who takes the pairs one by one with `next`. It holds of
/// both zips, and stepping through the checked zip does not fail.
pub proof fn lemma_fold_is_stepping<I, T, U, F: FnMut(I, (T, U)) -> I>(
    f: F,
    init: I,
    s: Seq<T>,
    t: Seq<U>,
    out: I,
)
    requires
        s.len() == t.len(),
    ensures
        folds_to(f, init, pairs(s, t), out) <==> steps_to(f, init, s, t, out),
        folds_to(f, init, pairs(s, t), out) <==> checked_steps_to(
            f,
            init,
            s,
            t,
            Ok::<I, LengthMismatch>(out),
        ),
        !checked_steps_to(f, init, s, t, Err::<I, LengthMismatch>(LengthMismatch)),
{
    if steps_to(f, init, s, t, out) {
        lemma_steps_are_a_run(f, init, s, t, out);
    }
    if folds_to(f, init, pairs(s, t), out) {
        let accs = choose|accs: Seq<I>| #[trigger]
            is_run(f, init, pairs(s, t), accs) && accs.last() == out;
        lemma_run_is_steps(f, init, s, t, accs);
    }
    lemma_checked_steps_agree(f, init, s, t, Ok::<I, LengthMismatch>(out));
    lemma_checked_steps_agree(f, init, s, t, Err::<I, LengthMismatch>(LengthMismatch));
}

/// What a fold by single steps ends with is the end of a run.
proof fn lemma_steps_are_a_run<I, T, U, F: FnMut(I, (T, U)) -> I>(
    f: F,
    acc: I,
    s: Seq<T>,
    t: Seq<U>,
    out: I,
)
    requires
        s.len() == t.len(),
        steps_to(f, acc, s, t, out),
    ensures
        folds_to(f, acc, pairs(s, t), out),
    decreases s.len(),
{
    let items = pairs(s, t);
    if s.len() == 0 {
        assert(is_run(f, acc, items, seq![acc]));
    } else {
        let rest = pairs(skip_front(s, 1), skip_front(t, 1));
        let mid = choose|mid: I|
            #[trigger] f.ensures((acc, items[0]), mid) && steps_to(
                f,
                mid,
                skip_front(s, 1),
                skip_front(t, 1),
                out,
            );
        lemma_steps_are_a_run(f, mid, skip_front(s, 1), skip_front(t, 1), out);
        let later = choose|accs: Seq<I>| #[trigger] is_run(f, mid, rest, accs) && accs.last() == out;
        let accs = seq![acc] + later;
        assert forall|i: int| 0 <= i < items.len() implies f.ensures(
            (accs[i], #[trigger] items[i]),
            accs[i + 1],
        ) by {
            if i > 0 {
                assert(rest[i - 1] == items[i]);
            }
        }
        assert(is_run(f, acc, items, accs));
    }
}

/// The end of a run is what a fold by single steps can end with.
proof fn lemma_run_is_steps<I, T, U, F: FnMut(I, (T, U)) -> I>(
    f: F,
    acc: I,
    s: Seq<T>,
    t: Seq<U>,
    accs: Seq<I>,
)
    requires
        s.len() == t.len(),
        is_run(f, acc, pairs(s, t), accs),
    ensures
        steps_to(f, acc, s, t, accs.last()),
    decreases s.len(),
{
    let items = pairs(s, t);
    if s.len() > 0 {
        let rest = pairs(skip_front(s, 1), skip_front(t, 1));
        let later = accs.skip(1);
        assert forall|i: int| 0 <= i < rest.len() implies f.ensures(
            (later[i], #[trigger] rest[i]),
            later[i + 1],
        ) by {
            assert(items[i + 1] == rest[i]);
        }
        lemma_run_is_steps(f, accs[1], skip_front(s, 1), skip_front(t, 1), later);
    }
}

/// On two sides of the same length a caller who steps through the checked zip
/// ends as one who steps through the eager zip, and without a failure.
proof fn lemma_checked_steps_agree<I, T, U, F: FnMut(I, (T, U)) -> I>(
    f: F,
    acc: I,
    s: Seq<T>,
    t: Seq<U>,
    out: Result<I, LengthMismatch>,
)
    requires
        s.len() == t.len(),
    ensures
        checked_steps_to(f, acc, s, t, out) <==> (out matches Ok(end) && steps_to(f, acc, s, t, end)),
    decreases s.len(),
{
    if s.len() > 0 {
        let p = (s[0], t[0]);
        if checked_steps_to(f, acc, s, t, out) {
            let mid = choose|mid: I|
                #[trigger] f.ensures((acc, p), mid) && checked_steps_to(
                    f,
                    mid,
                    skip_front(s, 1),
                    skip_front(t, 1),
                    out,
                );
            lemma_checked_steps_agree(f, mid, skip_front(s, 1), skip_front(t, 1), out);
        }
        if out matches Ok(end) && steps_to(f, acc, s, t, end) {
            let mid = choose|mid: I|
                #[trigger] f.ensures((acc, p), mid) && steps_to(
                    f,
                    mid,
                    skip_front(s, 1),
                    skip_front(t, 1),
                    out->Ok_0,
                );
            lemma_checked_steps_agree(f, mid, skip_front(s, 1), skip_front(t, 1), out);
        }
    }
}

/// `out` is an answer that a caller can end with who starts from `acc`, asks
/// an eager zip of `s` and `t` for one pair after the other and hands each to
/// `f`, until `f` says to stop or the zip answers with the end.
pub open spec fn try_steps_to<I, T, U, R: Flow<Output = I>, F: FnMut(I, (T, U)) -> R>(
    f: F,
    acc: I,
    s: Seq<T>,
    t: Seq<U>,
    out: R,
) -> bool
    decreases s.len(),
{
    match front(pairs(s, t)) {
        None => out.carried() == Some(acc),
        Some(p) => exists|answer: R|
            #[trigger] f.ensures((acc, p), answer) && match answer.carried() {
                Some(mid) => try_steps_to(f, mid, skip_front(s, 1), skip_front(t, 1), out),
                None => out == answer,
            },
    }
}

/// `out` is what a caller can end with who does the same with a checked zip
/// of `s` and `t`, and who gives up with the failure if the zip answers with
/// one.
pub open spec fn checked_try_steps_to<I, T, U, R: Flow<Output = I>, F: FnMut(I, (T, U)) -> R>(
    f: F,
    acc: I,
    s: Seq<T>,
    t: Seq<U>,
    out: Result<R, LengthMismatch>,
) -> bool
    decreases s.len(),
{
    match matched(front(s), front(t)) {
        Err(e) => out == Err::<R, LengthMismatch>(e),
        Ok(None) => out matches Ok(end) && end.carried() == Some(acc),
        Ok(Some(p)) => exists|answer: R|
            #[trigger] f.ensures((acc, p), answer) && match answer.carried() {
                Some(mid) => checked_try_steps_to(
                    f,
                    mid,
                    skip_front(s, 1),
                    skip_front(t, 1),
                    out,
                ),
                None => out == Ok::<R, LengthMismatch>(answer),
            },
    }
}

/// The short-circuiting bulk fold does what a fold by single steps does that
/// ends when `f` says so: on two sides of the same length, the answers that
/// `try_fold` can hand back are those that a caller can end with who takes
/// the pairs one by one with `next`. It holds of both zips, and stepping
/// through the checked zip does not fail.
pub proof fn lemma_try_fold_is_stepping<I, T, U, R: Flow<Output = I>, F: FnMut(I, (T, U)) -> R>(
    f: F,
    init: I,
    s: Seq<T>,
    t: Seq<U>,
    out: R,
)
    requires
        s.len() == t.len(),
    ensures
        (exists|k: int| try_folds_to(f, init, pairs(s, t), k, out)) <==> try_steps_to(
            f,
            init,
            s,
            t,
            out,
        ),
        (exists|k: int| try_folds_to(f, init, pairs(s, t), k, out)) <==> checked_try_steps_to(
            f,
            init,
            s,
            t,
            Ok::<R, LengthMismatch>(out),
        ),
        !checked_try_steps_to(f, init, s, t, Err::<R, LengthMismatch>(LengthMismatch)),
{
    if try_steps_to(f, init, s, t, out) {
        let k: int = lemma_try_steps_are_a_run(f, init, s, t, out);
    }
    if exists|k: int| try_folds_to(f, init, pairs(s, t), k, out) {
        let k: int = choose|k: int| try_folds_to(f, init, pairs(s, t), k, out);
        lemma_try_run_is_steps(f, init, s, t, k, out);
    }
    lemma_checked_try_steps_agree(f, init, s, t, Ok::<R, LengthMismatch>(out));
    lemma_checked_try_steps_agree(f, init, s, t, Err::<R, LengthMismatch>(LengthMismatch));
}

/// A run in which `f` never stopped, with one more accumulator in front.
proof fn lemma_carried_run_with_front<I, T, R: Flow<Output = I>, F: FnMut(I, T) -> R>(
    f: F,
    acc: I,
    items: Seq<T>,
    later: Seq<I>,
)
    requires
        items.len() > 0,
        is_carried_run(f, later[0], items.skip(1), later),
        carries(f, acc, items[0], later[0]),
    ensures
        is_carried_run(f, acc, items, seq![acc] + later),
{
    let accs = seq![acc] + later;
    assert forall|i: int| 0 <= i < items.len() implies carries(
        f,
        accs[i],
        #[trigger] items[i],
        accs[i + 1],
    ) by {
        if i > 0 {
            assert(items.skip(1)[i - 1] == items[i]);
        }
    }
}

/// A run in which `f` never stopped, without its first accumulator.
proof fn lemma_carried_run_without_front<I, T, R: Flow<Output = I>, F: FnMut(I, T) -> R>(
    f: F,
    acc: I,
    items: Seq<T>,
    accs: Seq<I>,
)
    requires
        items.len() > 0,
        is_carried_run(f, acc, items, accs),
    ensures
        is_carried_run(f, accs[1], items.skip(1), accs.skip(1)),
        carries(f, acc, items[0], accs[1]),
{
    assert forall|i: int| 0 <= i < items.skip(1).len() implies carries(
        f,
        accs.skip(1)[i],
        #[trigger] items.skip(1)[i],
        accs.skip(1)[i + 1],
    ) by {
        assert(items[i + 1] == items.skip(1)[i]);
    }
}

/// What a short-circuiting fold by single steps ends with is what the bulk
/// fold hands back after some number of pairs.
proof fn lemma_try_steps_are_a_run<I, T, U, R: Flow<Output = I>, F: FnMut(I, (T, U)) -> R>(
    f: F,
    acc: I,
    s: Seq<T>,
    t: Seq<U>,
    out: R,
) -> (k: int)
    requires
        s.len() == t.len(),
        try_steps_to(f, acc, s, t, out),
    ensures
        try_folds_to(f, acc, pairs(s, t), k, out),
    decreases s.len(),
{
    let items = pairs(s, t);
    if s.len() == 0 {
        assert(is_carried_run(f, acc, items, seq![acc]));
        0
    } else {
        let rest = pairs(skip_front(s, 1), skip_front(t, 1));
        assert(rest =~= items.skip(1));
        let answer = choose|answer: R|
            #[trigger] f.ensures((acc, items[0]), answer) && match answer.carried() {
                Some(mid) => try_steps_to(f, mid, skip_front(s, 1), skip_front(t, 1), out),
                None => out == answer,
            };
        match answer.carried() {
            Some(mid) => {
                let k: int = lemma_try_steps_are_a_run(
                    f,
                    mid,
                    skip_front(s, 1),
                    skip_front(t, 1),
                    out,
                );
                if k == rest.len() && out.carried() is Some {
                    let later = choose|accs: Seq<I>| #[trigger]
                        is_carried_run(f, mid, rest, accs) && accs.last() == out.carried()->0;
                    lemma_carried_run_with_front(f, acc, items, later);
                } else {
                    let last = choose|last: I|
                        carries_to(f, mid, rest.take(k - 1), last) && #[trigger] f.ensures(
                            (last, rest[k - 1]),
                            out,
                        );
                    let later = choose|accs: Seq<I>| #[trigger]
                        is_carried_run(f, mid, rest.take(k - 1), accs) && accs.last() == last;
                    let taken: int = k + 1;
                    assert(items.take(k).skip(1) =~= rest.take(k - 1));
                    lemma_carried_run_with_front(f, acc, items.take(k), later);
                    assert(f.ensures((last, items[taken - 1]), out));
                }
                k + 1
            },
            None => {
                assert(is_carried_run(f, acc, items.take(0), seq![acc]));
                1
            },
        }
    }
}

/// What the short-circuiting bulk fold hands back after `k` pairs is what a
/// fold by single steps can end with.
proof fn lemma_try_run_is_steps<I, T, U, R: Flow<Output = I>, F: FnMut(I, (T, U)) -> R>(
    f: F,
    acc: I,
    s: Seq<T>,
    t: Seq<U>,
    k: int,
    out: R,
)
    requires
        s.len() == t.len(),
        try_folds_to(f, acc, pairs(s, t), k, out),
    ensures
        try_steps_to(f, acc, s, t, out),
    decreases s.len(),
{
    let items = pairs(s, t);
    if s.len() > 0 {
        let rest = pairs(skip_front(s, 1), skip_front(t, 1));
        assert(rest =~= items.skip(1));
        if k == items.len() && out.carried() is Some {
            let accs = choose|accs: Seq<I>| #[trigger]
                is_carried_run(f, acc, items, accs) && accs.last() == out.carried()->0;
            lemma_carried_run_without_front(f, acc, items, accs);
            lemma_try_run_is_steps(f, accs[1], skip_front(s, 1), skip_front(t, 1), k - 1, out);
        } else {
            let last = choose|last: I|
                carries_to(f, acc, items.take(k - 1), last) && #[trigger] f.ensures(
                    (last, items[k - 1]),
                    out,
                );
            let accs = choose|accs: Seq<I>| #[trigger]
                is_carried_run(f, acc, items.take(k - 1), accs) && accs.last() == last;
            if k > 1 {
                lemma_carried_run_without_front(f, acc, items.take(k - 1), accs);
                let left: int = k - 1;
                assert(items.take(k - 1).skip(1) =~= rest.take(left - 1));
                assert(f.ensures((last, rest[left - 1]), out));
                lemma_try_run_is_steps(f, accs[1], skip_front(s, 1), skip_front(t, 1), left, out);
            }
        }
    }
}

/// On two sides of the same length a caller who steps through the checked zip
/// until `f` says to stop ends as one who steps through the eager zip, and
/// without a failure.
proof fn lemma_checked_try_steps_agree<I, T, U, R: Flow<Output = I>, F: FnMut(I, (T, U)) -> R>(
    f: F,
    acc: I,
    s: Seq<T>,
    t: Seq<U>,
    out: Result<R, LengthMismatch>,
)
    requires
        s.len() == t.len(),
    ensures
        checked_try_steps_to(f, acc, s, t, out) <==> (out matches Ok(end) && try_steps_to(
            f,
            acc,
            s,
            t,
            end,
        )),
    decreases s.len(),
{
    if s.len() > 0 {
        let p = (s[0], t[0]);
        if checked_try_steps_to(f, acc, s, t, out) {
            let answer = choose|answer: R|
                #[trigger] f.ensures((acc, p), answer) && match answer.carried() {
                    Some(mid) => checked_try_steps_to(
                        f,
                        mid,
                        skip_front(s, 1),
                        skip_front(t, 1),
                        out,
                    ),
                    None => out == Ok::<R, LengthMismatch>(answer),
                };
            if answer.carried() is Some {
                lemma_checked_try_steps_agree(
                    f,
                    answer.carried()->0,
                    skip_front(s, 1),
                    skip_front(t, 1),
                    out,
                );
            }
        }
        if out matches Ok(end) && try_steps_to(f, acc, s, t, end) {
            let answer = choose|answer: R|
                #[trigger] f.ensures((acc, p), answer) && match answer.carried() {
                    Some(mid) => try_steps_to(
                        f,
                        mid,
                        skip_front(s, 1),
                        skip_front(t, 1),
                        out->Ok_0,
                    ),
                    None => out->Ok_0 == answer,
                };
            if answer.carried() is Some {
                lemma_checked_try_steps_agree(
                    f,
                    answer.carried()->0,
                    skip_front(s, 1),
                    skip_front(t, 1),
                    out,
                );
            }
        }
    }
}

} // verus!
