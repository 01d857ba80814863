//! The vocabulary of the contracts: what stepping, skipping and pairing mean
//! on the sequence of items that an iterator has yet to hand out.
use vstd::prelude::*;
use vstd::std_specs::iter::IteratorSpec;

verus! {

/// The first item of `s`, if there is one.
pub open spec fn front<T>(s: Seq<T>) -> Option<T> {
    if s.len() > 0 {
        Some(s[0])
    } else {
        None
    }
}

/// The last item of `s`, if there is one.
pub open spec fn back<T>(s: Seq<T>) -> Option<T> {
    if s.len() > 0 {
        Some(s[s.len() - 1])
    } else {
        None
    }
}

/// The item `n` places after the first, if `s` reaches that far.
pub open spec fn at<T>(s: Seq<T>, n: int) -> Option<T>
    recommends
        0 <= n,
{
    if 0 <= n < s.len() {
        Some(s[n])
    } else {
        None
    }
}

/// The item `n` places before the last, if `s` reaches that far.
pub open spec fn at_back<T>(s: Seq<T>, n: int) -> Option<T>
    recommends
        0 <= n,
{
    if 0 <= n < s.len() {
        Some(s[s.len() - 1 - n])
    } else {
        None
    }
}

/// What is left of `s` once `k` items were asked of its front: nothing, if it
/// had no more than `k`.
pub open spec fn skip_front<T>(s: Seq<T>, k: int) -> Seq<T>
    recommends
        0 <= k,
{
    if 0 <= k < s.len() {
        s.skip(k)
    } else {
        Seq::empty()
    }
}

/// What is left of `s` once `k` items were asked of its back.
pub open spec fn skip_back<T>(s: Seq<T>, k: int) -> Seq<T>
    recommends
        0 <= k,
{
    if 0 <= k < s.len() {
        s.take(s.len() - k)
    } else {
        Seq::empty()
    }
}

/// The pairs that `s` and `t` give position by position, as far as both reach.
pub open spec fn pairs<T, U>(s: Seq<T>, t: Seq<U>) -> Seq<(T, U)> {
    Seq::new(
        if s.len() <= t.len() {
            s.len()
        } else {
            t.len()
        },
        |i: int| (s[i], t[i]),
    )
}

/// What no operation changes of an iterator: whether it keeps to the iterator
/// laws, and whether it comes with a measure of the steps it has left.
pub open spec fn kept<I: Iterator>(before: I, after: I) -> bool {
    &&& after.obeys_prophetic_iter_laws() == before.obeys_prophetic_iter_laws()
    &&& after.obeys_prophetic_iter_laws() ==> (after.decrease() is Some
        <==> before.decrease() is Some)
}

} // verus!
