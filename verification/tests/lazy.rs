use zip_eq::ZipEq;

#[test]
fn lib_basic() {
    let a = [1, 2];
    let b = [3, 4];
    let mut zipped = a.into_iter().zip_eq_lazy(b.into_iter());

    assert_eq!(zipped.next().unwrap(), Some((1, 3)));
    assert_eq!(zipped.next().unwrap(), Some((2, 4)));
    assert_eq!(zipped.next().unwrap(), None);
}

#[test]
#[should_panic]
fn lib_basic_fail() {
    let a = [1, 2, 3];
    let b = [3, 4];
    let mut zipped = a.into_iter().zip_eq_lazy(b.into_iter());
    zipped.next().unwrap();
    zipped.next().unwrap();
    zipped.next().unwrap();
}

#[test]
fn lib_count() {
    let a = [1, 2];
    let b = [3, 4];
    let zipped = a.into_iter().zip_eq_lazy(b.into_iter());
    assert_eq!(zipped.count(), 2);
}

#[test]
fn lib_last() {
    let a = [1, 2];
    let b = [3, 4];
    let zipped = a.into_iter().zip_eq_lazy(b.into_iter());
    assert_eq!(zipped.last().unwrap(), Some((2, 4)));
}

#[test]
fn lib_last_empty() {
    let a: [(); 0] = [];
    let b: [(); 0] = [];
    let zipped = a.into_iter().zip_eq_lazy(b.into_iter());
    assert_eq!(zipped.last().unwrap(), None);
}

#[test]
fn lib_nth() {
    let a = [1, 2];
    let b = [3, 4];
    let mut zipped = a.into_iter().zip_eq_lazy(b.into_iter());
    assert_eq!(zipped.nth(1).unwrap(), Some((2, 4)));
}

#[test]
fn lib_nth_out_of_bounds() {
    let a = [1, 2];
    let b = [3, 4];
    let mut zipped = a.into_iter().zip_eq_lazy(b.into_iter());
    assert_eq!(zipped.nth(2).unwrap(), None);
}

#[test]
fn lib_fold() {
    let a = [1, 2];
    let b = [3, 4];
    let mut factor = 0;

    assert_eq!(
        (a.into_iter().zip_eq_lazy(b.into_iter())
            .fold((0, 0), |(acc_a, acc_b), (a, b)| {
                factor += 1;
                (acc_a + factor * a, acc_b + factor * b)
            })
            .unwrap()),
        (5, 11),
    );
}

#[test]
fn lib_try_fold() {
    let a = [1, 2];
    let b = [3, 4];
    let mut factor = 0;

    assert_eq!(
        (a.into_iter().zip_eq_lazy(b.into_iter())
            .try_fold((0, 0_u8), |(acc_a, acc_b), (a, b): (u8, u8)| {
                factor += 1;
                Some((
                    acc_a + factor * a,
                    acc_b.checked_add(b.checked_mul(factor)?)?,
                ))
            })
            .unwrap()),
        Some((5, 11)),
    );
}

#[test]
fn lib_try_fold_fail() {
    let a = [1, 2];
    let b = [3, 255];
    let mut factor = 0;

    assert_eq!(
        (a.into_iter().zip_eq_lazy(b.into_iter())
            .try_fold((0, 0_u8), |(acc_a, acc_b), (a, b): (u8, u8)| {
                factor += 1;
                Some((
                    acc_a + factor * a,
                    acc_b.checked_add(b.checked_mul(factor)?)?,
                ))
            })
            .unwrap()),
        None,
    );
}

#[test]
fn lib_rfold() {
    let a = [1, 2];
    let b = [3, 4];
    let mut factor = 0;

    assert_eq!(
        (a.into_iter().zip_eq_lazy(b.into_iter())
            .rfold((0, 0), |(acc_a, acc_b), (a, b)| {
                factor += 1;
                (acc_a + factor * a, acc_b + factor * b)
            })
            .unwrap()),
        (4, 10),
    );
}

#[test]
fn lib_try_rfold() {
    let a = [1, 2];
    let b = [3, 4];
    let mut factor = 0;

    assert_eq!(
        (a.into_iter().zip_eq_lazy(b.into_iter())
            .try_rfold((0, 0_u8), |(acc_a, acc_b), (a, b): (u8, u8)| {
                factor += 1;
                Some((
                    acc_a + factor * a,
                    acc_b.checked_add(b.checked_mul(factor)?)?,
                ))
            })
            .unwrap()),
        Some((4, 10)),
    );
}

#[test]
fn lib_try_rfold_fail() {
    let a = [1, 2];
    let b = [3, 255];
    let mut factor = 0;

    assert_eq!(
        (a.into_iter().zip_eq_lazy(b.into_iter())
            .try_rfold((0, 0_u8), |(acc_a, acc_b), (a, b): (u8, u8)| {
                factor += 1;
                Some((
                    acc_a + factor * a,
                    acc_b.checked_add(b.checked_mul(factor)?)?,
                ))
            })
            .unwrap()),
        None,
    );
}
