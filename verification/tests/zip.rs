use std::ops::ControlFlow;
use zip_eq::{
    panic_different_len, size_hint_impl, Flow, LengthMismatch, TrustedLen, ZipEq, ZipEqEagerCheck,
    ZipEqLazyCheck,
};

fn numbers(from: u32, len: usize) -> Vec<u32> {
    let mut v = Vec::new();
    let mut x = from;
    for _ in 0..len {
        v.push(x);
        x += 1;
    }
    v
}

fn pairs_of(a: &[u32], b: &[u32]) -> Vec<(u32, u32)> {
    let mut v = Vec::new();
    let mut i = 0;
    while i < a.len() && i < b.len() {
        v.push((a[i], b[i]));
        i += 1;
    }
    v
}

#[test]
fn size_hint_takes_the_larger_lower_and_the_smaller_upper_bound() {
    assert_eq!(size_hint_impl((2, Some(5)), (3, Some(4))), (3, Some(4)));
    assert_eq!(size_hint_impl((3, Some(4)), (2, Some(5))), (3, Some(4)));
    assert_eq!(size_hint_impl((7, Some(7)), (7, Some(7))), (7, Some(7)));
}

#[test]
fn size_hint_keeps_the_one_upper_bound_that_is_known() {
    assert_eq!(size_hint_impl((1, Some(7)), (0, None)), (1, Some(7)));
    assert_eq!(size_hint_impl((0, None), (1, Some(7))), (1, Some(7)));
}

#[test]
fn size_hint_has_no_upper_bound_where_none_is_known() {
    assert_eq!(size_hint_impl((0, None), (4, None)), (4, None));
    assert_eq!(size_hint_impl((usize::MAX, None), (0, None)), (usize::MAX, None));
}

#[test]
fn size_hint_of_the_zips() {
    let eager = [1, 2].into_iter().zip_eq_eager([3, 4].into_iter()).unwrap();
    assert_eq!(eager.size_hint(), (2, Some(2)));
    let lazy = [1, 2, 3].into_iter().zip_eq_lazy([3, 4].into_iter());
    assert_eq!(lazy.size_hint(), (3, Some(2)));
    let open_ended = (0..).zip_eq_lazy([3, 4].into_iter());
    assert_eq!(open_ended.size_hint(), (usize::MAX, Some(2)));
}

#[test]
fn len_is_the_number_of_pairs_to_come() {
    let mut eager = [1, 2, 3].into_iter().zip_eq_eager([4, 5, 6].into_iter()).unwrap();
    assert_eq!(eager.len(), 3);
    eager.next();
    assert_eq!(eager.len(), 2);
    eager.next_back();
    assert_eq!(eager.len(), 1);
    eager.next();
    assert_eq!(eager.len(), 0);
}

#[test]
fn len_of_the_checked_zip_is_that_of_the_first_side() {
    let mut lazy = [1, 2, 3].into_iter().zip_eq_lazy([4, 5].into_iter());
    assert_eq!(lazy.len(), 3);
    assert_eq!(lazy.next(), Ok(Some((1, 4))));
    assert_eq!(lazy.len(), 2);
}

#[test]
fn trusted_len_counts_what_is_left() {
    let mut owned = vec![1, 2, 3].into_iter();
    assert_eq!(owned.trusted_len(), 3);
    owned.next();
    assert_eq!(owned.trusted_len(), 2);

    let items = [1, 2, 3, 4];
    let mut borrowed = items.iter();
    assert_eq!(borrowed.trusted_len(), 4);
    borrowed.next_back();
    borrowed.next();
    assert_eq!(borrowed.trusted_len(), 2);

    let mut array = [1, 2].into_iter();
    assert_eq!(array.trusted_len(), 2);
    array.next();
    array.next();
    assert_eq!(array.trusted_len(), 0);
}

#[test]
fn eager_construction_fails_on_a_longer_first_side() {
    let r = [1, 2, 3].into_iter().zip_eq_eager([3, 4].into_iter());
    assert_eq!(r.err(), Some(LengthMismatch));
}

#[test]
fn eager_construction_fails_on_a_shorter_first_side() {
    let r = vec![1].into_iter().zip_eq_eager(vec![3, 4].into_iter());
    assert_eq!(r.err(), Some(LengthMismatch));
}

#[test]
fn eager_construction_compares_what_is_left() {
    let mut a = [0, 1, 2].into_iter();
    a.next();
    let mut zipped = a.zip_eq_eager([3, 4].into_iter()).unwrap();
    assert_eq!(zipped.next(), Some((1, 3)));
    assert_eq!(zipped.next(), Some((2, 4)));
    assert_eq!(zipped.next(), None);
}

#[test]
fn eager_construction_over_borrowed_items() {
    let a = [1, 2];
    let b = vec![3, 4];
    let mut zipped = a.iter().zip_eq_eager(b.iter()).unwrap();
    assert_eq!(zipped.next(), Some((&1, &3)));
    assert_eq!(zipped.next(), Some((&2, &4)));
    assert_eq!(zipped.next(), None);
}

#[test]
fn unchecked_construction_takes_the_sides_as_they_are() {
    let mut zipped = [1, 2].into_iter().zip_eq_unchecked([3, 4].into_iter());
    assert_eq!(zipped.next(), Some((1, 3)));
    assert_eq!(zipped.next(), Some((2, 4)));
    assert_eq!(zipped.next(), None);
}

#[test]
fn mismatch_says_what_went_wrong() {
    assert_eq!(
        LengthMismatch.message(),
        "ZipEq: Reached the end of one of the iterators before the other."
    );
}

#[test]
fn raising_the_mismatch_gives_the_failure() {
    let r: Result<u8, LengthMismatch> = panic_different_len();
    assert_eq!(r, Err(LengthMismatch));
}

#[test]
fn checked_pairing_of_two_answers() {
    assert_eq!(zip_eq::lazy::both_or_none(Some(1), Some('a')), Ok(Some((1, 'a'))));
    assert_eq!(zip_eq::lazy::both_or_none(None::<u8>, None::<char>), Ok(None));
    assert_eq!(zip_eq::lazy::both_or_none(Some(1), None::<char>), Err(LengthMismatch));
    assert_eq!(zip_eq::lazy::both_or_none(None::<u8>, Some('a')), Err(LengthMismatch));
}

#[test]
fn pairing_of_two_answers_that_agree() {
    assert_eq!(zip_eq::eager::both_or_none(Some(1), Some('a')), Some((1, 'a')));
    assert_eq!(zip_eq::eager::both_or_none(None::<u8>, None::<char>), None);
}

#[test]
fn both_zips_give_the_pairs_in_order() {
    for len in 0..6 {
        let a = numbers(10, len);
        let b = numbers(20, len);
        let expected = pairs_of(&a, &b);

        let mut eager = a.clone().into_iter().zip_eq_eager(b.clone().into_iter()).unwrap();
        let mut lazy = a.clone().into_iter().zip_eq_lazy(b.clone().into_iter());
        for k in 0..len {
            assert_eq!(eager.next(), Some(expected[k]));
            assert_eq!(lazy.next(), Ok(Some(expected[k])));
        }
        assert_eq!(eager.next(), None);
        assert_eq!(lazy.next(), Ok(None));
    }
}

#[test]
fn empty_zips_end_at_once() {
    let a: [u8; 0] = [];
    let b: [u8; 0] = [];
    let mut eager = a.into_iter().zip_eq_eager(b.into_iter()).unwrap();
    assert_eq!(eager.next(), None);
    let mut lazy = a.into_iter().zip_eq_lazy(b.into_iter());
    assert_eq!(lazy.next(), Ok(None));
    assert_eq!(a.into_iter().zip_eq_lazy(b.into_iter()).last(), Ok(None));
    assert_eq!(a.into_iter().zip_eq_eager(b.into_iter()).unwrap().last(), None);
}

#[test]
fn the_end_is_final() {
    let mut eager = [1].into_iter().zip_eq_eager([2].into_iter()).unwrap();
    assert_eq!(eager.next(), Some((1, 2)));
    assert_eq!(eager.next(), None);
    assert_eq!(eager.next(), None);
    assert_eq!(eager.next_back(), None);

    let mut lazy = [1].into_iter().zip_eq_lazy([2].into_iter());
    assert_eq!(lazy.next(), Ok(Some((1, 2))));
    assert_eq!(lazy.next(), Ok(None));
    assert_eq!(lazy.next(), Ok(None));
    assert_eq!(lazy.next_back(), Ok(None));
}

#[test]
fn checked_zip_fails_where_the_second_side_ends() {
    let mut zipped = [1, 2, 3].into_iter().zip_eq_lazy([3, 4].into_iter());
    assert_eq!(zipped.next(), Ok(Some((1, 3))));
    assert_eq!(zipped.next(), Ok(Some((2, 4))));
    assert_eq!(zipped.next(), Err(LengthMismatch));
}

#[test]
fn checked_zip_fails_where_the_first_side_ends() {
    let mut zipped = [1].into_iter().zip_eq_lazy([3, 4, 5].into_iter());
    assert_eq!(zipped.next(), Ok(Some((1, 3))));
    assert_eq!(zipped.next(), Err(LengthMismatch));
}

#[test]
fn checked_zip_fails_at_the_first_step_on_one_empty_side() {
    let a: [u8; 0] = [];
    let mut zipped = a.into_iter().zip_eq_lazy([3].into_iter());
    assert_eq!(zipped.next(), Err(LengthMismatch));
}

#[test]
fn a_failed_step_has_asked_both_sides() {
    let mut zipped = [1, 2, 3].into_iter().zip_eq_lazy([3, 4].into_iter());
    zipped.next().unwrap();
    zipped.next().unwrap();
    assert_eq!(zipped.next(), Err(LengthMismatch));
    assert_eq!(zipped.len(), 0);
    assert_eq!(zipped.next(), Ok(None));
}

#[test]
fn stepping_from_the_back() {
    let mut eager = [1, 2, 3].into_iter().zip_eq_eager([4, 5, 6].into_iter()).unwrap();
    assert_eq!(eager.next_back(), Some((3, 6)));
    assert_eq!(eager.next(), Some((1, 4)));
    assert_eq!(eager.next_back(), Some((2, 5)));
    assert_eq!(eager.next_back(), None);
    assert_eq!(eager.next(), None);

    let mut lazy = [1, 2, 3].into_iter().zip_eq_lazy([4, 5, 6].into_iter());
    assert_eq!(lazy.next_back(), Ok(Some((3, 6))));
    assert_eq!(lazy.next(), Ok(Some((1, 4))));
    assert_eq!(lazy.next_back(), Ok(Some((2, 5))));
    assert_eq!(lazy.next_back(), Ok(None));
}

#[test]
fn checked_stepping_from_the_back_pairs_the_last_items() {
    let mut zipped = [1, 2, 3].into_iter().zip_eq_lazy([4, 5].into_iter());
    assert_eq!(zipped.next_back(), Ok(Some((3, 5))));
    assert_eq!(zipped.next_back(), Ok(Some((2, 4))));
    assert_eq!(zipped.next_back(), Err(LengthMismatch));
    assert_eq!(zipped.next_back(), Ok(None));
}

#[test]
fn nth_drops_the_pairs_before() {
    let mut eager = [1, 2, 3].into_iter().zip_eq_eager([4, 5, 6].into_iter()).unwrap();
    assert_eq!(eager.nth(1), Some((2, 5)));
    assert_eq!(eager.next(), Some((3, 6)));
    assert_eq!(eager.nth(0), None);

    let mut lazy = [1, 2, 3].into_iter().zip_eq_lazy([4, 5, 6].into_iter());
    assert_eq!(lazy.nth(0), Ok(Some((1, 4))));
    assert_eq!(lazy.nth(1), Ok(Some((3, 6))));
    assert_eq!(lazy.nth(0), Ok(None));
}

#[test]
fn nth_back_drops_the_pairs_behind() {
    let mut eager = [1, 2, 3].into_iter().zip_eq_eager([4, 5, 6].into_iter()).unwrap();
    assert_eq!(eager.nth_back(1), Some((2, 5)));
    assert_eq!(eager.next_back(), Some((1, 4)));
    assert_eq!(eager.nth_back(0), None);

    let mut lazy = [1, 2, 3].into_iter().zip_eq_lazy([4, 5, 6].into_iter());
    assert_eq!(lazy.nth_back(2), Ok(Some((1, 4))));
    assert_eq!(lazy.nth_back(0), Ok(None));

    let mut all = [1, 2].into_iter().zip_eq_eager([3, 4].into_iter()).unwrap();
    assert_eq!(all.nth_back(2), None);
    assert_eq!(all.next(), None);
}

#[test]
fn checked_nth_fails_when_one_side_reaches_further() {
    let mut zipped = [1, 2, 3].into_iter().zip_eq_lazy([3, 4].into_iter());
    assert_eq!(zipped.nth(2), Err(LengthMismatch));

    let mut zipped = [1, 2, 3].into_iter().zip_eq_lazy([3, 4].into_iter());
    assert_eq!(zipped.nth(3), Ok(None));

    let mut zipped = [1, 2, 3].into_iter().zip_eq_lazy([3, 4].into_iter());
    assert_eq!(zipped.nth(1), Ok(Some((2, 4))));

    let mut zipped = [1, 2, 3].into_iter().zip_eq_lazy([3, 4].into_iter());
    assert_eq!(zipped.nth_back(2), Err(LengthMismatch));

    let mut zipped = [1, 2, 3].into_iter().zip_eq_lazy([3, 4].into_iter());
    assert_eq!(zipped.nth_back(1), Ok(Some((2, 3))));
}

#[test]
fn checked_last_pairs_the_last_items() {
    let zipped = [1, 2, 3].into_iter().zip_eq_lazy([3, 4].into_iter());
    assert_eq!(zipped.last(), Ok(Some((3, 4))));

    let none: [i32; 0] = [];
    assert_eq!(none.into_iter().zip_eq_lazy([3, 4].into_iter()).last(), Err(LengthMismatch));
    assert_eq!([3, 4].into_iter().zip_eq_lazy(none.into_iter()).last(), Err(LengthMismatch));
}

#[test]
fn checked_count_is_that_of_the_first_side() {
    assert_eq!([1, 2, 3].into_iter().zip_eq_lazy([3, 4].into_iter()).count(), 3);
    assert_eq!([1].into_iter().zip_eq_lazy([3, 4].into_iter()).count(), 1);
}

#[test]
fn count_after_some_steps() {
    let mut eager = [1, 2, 3].into_iter().zip_eq_eager([4, 5, 6].into_iter()).unwrap();
    eager.next();
    assert_eq!(eager.count(), 2);
}

#[test]
fn checked_fold_fails_when_the_second_side_ends_first() {
    let mut calls = 0;
    let r = [1, 2, 3].into_iter().zip_eq_lazy([3, 4].into_iter()).fold(0, |acc, (a, b)| {
        calls += 1;
        acc + a * b
    });
    assert_eq!(r, Err(LengthMismatch));
    assert_eq!(calls, 2);

    let r = [1, 2, 3].into_iter().zip_eq_lazy([3, 4].into_iter()).rfold(0, |acc, (a, b)| acc + a * b);
    assert_eq!(r, Err(LengthMismatch));
}

#[test]
fn checked_fold_ends_with_the_first_side() {
    let r = [1, 2].into_iter().zip_eq_lazy([3, 4, 5].into_iter()).fold(0, |acc, (a, b)| acc + a * b);
    assert_eq!(r, Ok(1 * 3 + 2 * 4));

    let r = [1, 2].into_iter().zip_eq_lazy([3, 4, 5].into_iter()).rfold(0, |acc, (a, b)| acc + a * b);
    assert_eq!(r, Ok(2 * 5 + 1 * 4));
}

#[test]
fn checked_try_fold_fails_unless_stopped_before() {
    let mut zipped = [1, 2, 3].into_iter().zip_eq_lazy([3, 4].into_iter());
    let r = zipped.try_fold(0, |acc, (a, b)| Some(acc + a * b));
    assert_eq!(r, Err(LengthMismatch));
    assert_eq!(zipped.next(), Ok(None));

    let mut zipped = [1, 2, 3].into_iter().zip_eq_lazy([3, 4].into_iter());
    let r = zipped.try_fold(0, |acc, (a, b)| if a == 2 { None } else { Some(acc + a * b) });
    assert_eq!(r, Ok(None));
    assert_eq!(zipped.next(), Err(LengthMismatch));

    let mut zipped = [1, 2].into_iter().zip_eq_lazy([3, 4, 5].into_iter());
    let r = zipped.try_fold(0, |acc, (a, b)| Some(acc + a * b));
    assert_eq!(r, Ok(Some(11)));
    assert_eq!(zipped.b.next(), Some(5));
}

#[test]
fn fold_is_the_fold_by_single_steps() {
    for len in 0..6 {
        let a = numbers(1, len);
        let b = numbers(7, len);

        let mut by_steps = 1u32;
        let mut stepped = a.clone().into_iter().zip_eq_eager(b.clone().into_iter()).unwrap();
        while let Some((x, y)) = stepped.next() {
            by_steps = by_steps * 3 + x * y;
        }

        let eager = a.clone().into_iter().zip_eq_eager(b.clone().into_iter()).unwrap();
        assert_eq!(eager.fold(1u32, |acc, (x, y)| acc * 3 + x * y), by_steps);
        let lazy = a.clone().into_iter().zip_eq_lazy(b.clone().into_iter());
        assert_eq!(lazy.fold(1u32, |acc, (x, y)| acc * 3 + x * y), Ok(by_steps));
    }
}

#[test]
fn try_fold_is_the_fold_by_single_steps_that_ends_when_told() {
    for len in 0..6 {
        for stop_at in 0..7 {
            let a = numbers(1, len);
            let b = numbers(7, len);
            let stop = stop_at as u32 + 1;

            let mut by_steps = Some(1u32);
            let mut stepped = a.clone().into_iter().zip_eq_lazy(b.clone().into_iter());
            while let Ok(Some((x, y))) = stepped.next() {
                if x == stop {
                    by_steps = None;
                    break;
                }
                by_steps = by_steps.map(|acc| acc * 3 + x * y);
            }

            let step = |acc: u32, (x, y): (u32, u32)| {
                if x == stop {
                    None
                } else {
                    Some(acc * 3 + x * y)
                }
            };
            let mut eager = a.clone().into_iter().zip_eq_eager(b.clone().into_iter()).unwrap();
            assert_eq!(eager.try_fold(1u32, step), by_steps);
            assert_eq!(eager.next(), stepped.next().unwrap());
            let mut lazy = a.clone().into_iter().zip_eq_lazy(b.clone().into_iter());
            assert_eq!(lazy.try_fold(1u32, step), Ok(by_steps));
        }
    }
}

#[test]
fn rfold_is_the_fold_of_the_mirror_image() {
    for len in 0..6 {
        let a = numbers(1, len);
        let b = numbers(7, len);
        let mut a_back = a.clone();
        a_back.reverse();
        let mut b_back = b.clone();
        b_back.reverse();

        let forward = a_back.into_iter().zip_eq_eager(b_back.into_iter()).unwrap();
        let mirrored = forward.fold(1u32, |acc, (x, y)| acc * 3 + x * y);

        let eager = a.clone().into_iter().zip_eq_eager(b.clone().into_iter()).unwrap();
        assert_eq!(eager.rfold(1u32, |acc, (x, y)| acc * 3 + x * y), mirrored);
        let lazy = a.clone().into_iter().zip_eq_lazy(b.clone().into_iter());
        assert_eq!(lazy.rfold(1u32, |acc, (x, y)| acc * 3 + x * y), Ok(mirrored));
    }
}

#[test]
fn try_fold_leaves_the_pairs_it_did_not_take() {
    let mut zipped = [1, 2, 3].into_iter().zip_eq_eager([4, 5, 6].into_iter()).unwrap();
    let r = zipped.try_fold(0, |acc, (a, b)| if a == 2 { Err("two") } else { Ok(acc + a * b) });
    assert_eq!(r, Err("two"));
    assert_eq!(zipped.next(), Some((3, 6)));
    assert_eq!(zipped.next(), None);
}

#[test]
fn try_rfold_leaves_the_pairs_it_did_not_take() {
    let mut zipped = [1, 2, 3].into_iter().zip_eq_eager([4, 5, 6].into_iter()).unwrap();
    let r = zipped.try_rfold(0, |acc, (a, b)| {
        if a == 2 {
            ControlFlow::Break(acc)
        } else {
            ControlFlow::Continue(acc + a * b)
        }
    });
    assert_eq!(r, ControlFlow::Break(18));
    assert_eq!(zipped.next_back(), Some((1, 4)));
    assert_eq!(zipped.next_back(), None);
}

#[test]
fn try_fold_that_is_never_stopped_carries_the_last_accumulator() {
    let mut zipped = [1, 2, 3].into_iter().zip_eq_eager([4, 5, 6].into_iter()).unwrap();
    let r: Result<i32, &str> = zipped.try_fold(0, |acc, (a, b)| Ok(acc + a * b));
    assert_eq!(r, Ok(4 + 10 + 18));
    assert_eq!(zipped.next(), None);
}

#[test]
fn an_option_carries_on_with_some() {
    assert_eq!(<Option<u8> as Flow>::from_output(3), Some(3));
    assert_eq!(Flow::branch(Some(3)), Ok(3));
    assert_eq!(Flow::branch(None::<u8>), Err(None));
}

#[test]
fn a_result_carries_on_with_ok() {
    assert_eq!(<Result<u8, char> as Flow>::from_output(3), Ok(3));
    assert_eq!(Flow::branch(Ok::<u8, char>(3)), Ok(3));
    assert_eq!(Flow::branch(Err::<u8, char>('e')), Err(Err('e')));
}

#[test]
fn a_control_flow_carries_on_with_continue() {
    assert_eq!(<ControlFlow<char, u8> as Flow>::from_output(3), ControlFlow::Continue(3));
    assert_eq!(Flow::branch(ControlFlow::<char, u8>::Continue(3)), Ok(3));
    assert_eq!(
        Flow::branch(ControlFlow::<char, u8>::Break('b')),
        Err(ControlFlow::Break('b'))
    );
}

#[test]
fn the_zips_can_be_built_from_their_two_sides() {
    let mut eager = ZipEqEagerCheck { a: [1].into_iter(), b: ['x'].into_iter() };
    assert_eq!(eager.next(), Some((1, 'x')));
    let mut lazy = ZipEqLazyCheck { a: [1].into_iter(), b: ['x', 'y'].into_iter() };
    assert_eq!(lazy.next(), Ok(Some((1, 'x'))));
    assert_eq!(lazy.next(), Err(LengthMismatch));
}

#[test]
fn a_zip_can_be_cloned_where_it_stands() {
    let mut zipped = [1, 2].into_iter().zip_eq_lazy([3, 4].into_iter());
    zipped.next().unwrap();
    let mut copy = zipped.clone();
    assert_eq!(zipped.next(), Ok(Some((2, 4))));
    assert_eq!(copy.next(), Ok(Some((2, 4))));
    assert_eq!(copy.next(), Ok(None));
}
