//! Driving one iterator: the steps that both adapters take on each of their
//! two sides.
use crate::model::{at, at_back, back, kept, skip_back, skip_front};
use vstd::prelude::*;
use vstd::std_specs::iter::IteratorSpec;

verus! {

/// Drops `n` items from the front of `it` and hands out the one after them.
pub fn nth_of<I: Iterator>(it: &mut I, n: usize) -> (r: Option<I::Item>)
    ensures
        kept(*old(it), *final(it)),
        (*old(it)).obeys_prophetic_iter_laws() ==> {
            &&& r == at((*old(it)).remaining(), n as int)
            &&& (*final(it)).remaining() =~= skip_front((*old(it)).remaining(), n + 1)
        },
{
    let mut i: usize = 0;
    while i < n
        invariant
            i <= n,
            kept(*old(it), *it),
            (*old(it)).obeys_prophetic_iter_laws() ==> (*it).remaining() =~= skip_front(
                (*old(it)).remaining(),
                i as int,
            ),
        decreases n - i,
    {
        match it.next() {
            None => {
                return None;
            },
            Some(_) => {},
        }
        i = i + 1;
    }
    it.next()
}

/// Drops `n` items from the back of `it` and hands out the one before them.
pub fn nth_back_of<I: DoubleEndedIterator>(it: &mut I, n: usize) -> (r: Option<I::Item>)
    ensures
        kept(*old(it), *final(it)),
        (*old(it)).obeys_prophetic_iter_laws() ==> {
            &&& r == at_back((*old(it)).remaining(), n as int)
            &&& (*final(it)).remaining() =~= skip_back((*old(it)).remaining(), n + 1)
        },
{
    let mut i: usize = 0;
    while i < n
        invariant
            i <= n,
            kept(*old(it), *it),
            (*old(it)).obeys_prophetic_iter_laws() ==> (*it).remaining() =~= skip_back(
                (*old(it)).remaining(),
                i as int,
            ),
        decreases n - i,
    {
        match it.next_back() {
            None => {
                return None;
            },
            Some(_) => {},
        }
        i = i + 1;
    }
    it.next_back()
}

/// Runs `it` to its end and hands out the item it gave last.
pub fn last_of<I: Iterator>(it: I) -> (r: Option<I::Item>)
    requires
        it.obeys_prophetic_iter_laws(),
        it.decrease() is Some,
    ensures
        r == back(it.remaining()),
{
    let mut rest = it;
    let mut last: Option<I::Item> = None;
    let ghost mut taken: int = 0;
    loop
        invariant
            rest.obeys_prophetic_iter_laws(),
            rest.decrease() is Some,
            0 <= taken <= it.remaining().len(),
            rest.remaining() == it.remaining().skip(taken),
            last == at(it.remaining(), taken - 1),
        decreases rest.decrease()->0,
    {
        match rest.next() {
            None => {
                return last;
            },
            Some(x) => {
                last = Some(x);
                proof {
                    taken = taken + 1;
                }
            },
        }
    }
}

/// Runs `it` to its end and says how many items it gave.
pub fn count_of<I: Iterator>(it: I) -> (n: usize)
    requires
        it.obeys_prophetic_iter_laws(),
        it.decrease() is Some,
        it.remaining().len() <= usize::MAX,
    ensures
        n == it.remaining().len(),
{
    let mut rest = it;
    let mut n: usize = 0;
    loop
        invariant
            rest.obeys_prophetic_iter_laws(),
            rest.decrease() is Some,
            it.remaining().len() <= usize::MAX,
            n <= it.remaining().len(),
            rest.remaining() == it.remaining().skip(n as int),
        decreases rest.decrease()->0,
    {
        match rest.next() {
            None => {
                return n;
            },
            Some(_) => {
                n = n + 1;
            },
        }
    }
}

} // verus!
