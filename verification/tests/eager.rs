use zip_eq::ZipEq;

#[test]
fn basic() {
    let a = [1, 2];
    let b = [3, 4];
    let mut zipped = a.into_iter().zip_eq_eager(b.into_iter()).unwrap();

    assert_eq!(zipped.next(), Some((1, 3)));
    assert_eq!(zipped.next(), Some((2, 4)));
    assert_eq!(zipped.next(), None);
}

#[test]
#[should_panic]
fn basic_fail() {
    let a = [1, 2, 3];
    let b = [3, 4];
    let _zipped = a.into_iter().zip_eq_eager(b.into_iter()).unwrap();
}

#[test]
fn count() {
    let a = [1, 2];
    let b = [3, 4];
    let zipped = a.into_iter().zip_eq_eager(b.into_iter()).unwrap();
    assert_eq!(zipped.count(), 2);
}

#[test]
fn last() {
    let a = [1, 2];
    let b = [3, 4];
    let zipped = a.into_iter().zip_eq_eager(b.into_iter()).unwrap();
    assert_eq!(zipped.last(), Some((2, 4)));
}

#[test]
fn last_empty() {
    let a: [(); 0] = [];
    let b: [(); 0] = [];
    let zipped = a.into_iter().zip_eq_eager(b.into_iter()).unwrap();
    assert_eq!(zipped.last(), None);
}

#[test]
fn nth() {
    let a = [1, 2];
    let b = [3, 4];
    let mut zipped = a.into_iter().zip_eq_eager(b.into_iter()).unwrap();
    assert_eq!(zipped.nth(1), Some((2, 4)));
}

#[test]
fn nth_out_of_bounds() {
    let a = [1, 2];
    let b = [3, 4];
    let mut zipped = a.into_iter().zip_eq_eager(b.into_iter()).unwrap();
    assert_eq!(zipped.nth(2), None);
}

#[test]
fn fold() {
    let a = [1, 2];
    let b = [3, 4];
    let mut factor = 0;

    assert_eq!(
        (a.into_iter().zip_eq_eager(b.into_iter()).unwrap().fold((0, 0), |(acc_a, acc_b), (a, b)| {
            factor += 1;
            (acc_a + factor * a, acc_b + factor * b)
        })),
        (5, 11),
    );
}

#[test]
fn try_fold() {
    let a = [1, 2];
    let b = [3, 4];
    let mut factor = 0;

    assert_eq!(
        (a.into_iter().zip_eq_eager(b.into_iter()).unwrap()
            .try_fold((0, 0_u8), |(acc_a, acc_b), (a, b): (u8, u8)| {
                factor += 1;
                Some((
                    acc_a + factor * a,
                    acc_b.checked_add(b.checked_mul(factor)?)?,
                ))
            })),
        Some((5, 11)),
    );
}

#[test]
fn try_fold_fail() {
    let a = [1, 2];
    let b = [3, 255];
    let mut factor = 0;

    assert_eq!(
        (a.into_iter().zip_eq_eager(b.into_iter()).unwrap()
            .try_fold((0, 0_u8), |(acc_a, acc_b), (a, b): (u8, u8)| {
                factor += 1;
                Some((
                    acc_a + factor * a,
                    acc_b.checked_add(b.checked_mul(factor)?)?,
                ))
            })),
        None,
    );
}

#[test]
fn rfold() {
    let a = [1, 2];
    let b = [3, 4];
    let mut factor = 0;

    assert_eq!(
        (a.into_iter().zip_eq_eager(b.into_iter()).unwrap().rfold((0, 0), |(acc_a, acc_b), (a, b)| {
            factor += 1;
            (acc_a + factor * a, acc_b + factor * b)
        })),
        (4, 10),
    );
}

#[test]
fn try_rfold() {
    let a = [1, 2];
    let b = [3, 4];
    let mut factor = 0;

    assert_eq!(
        (a.into_iter().zip_eq_eager(b.into_iter()).unwrap()
            .try_rfold((0, 0_u8), |(acc_a, acc_b), (a, b): (u8, u8)| {
                factor += 1;
                Some((
                    acc_a + factor * a,
                    acc_b.checked_add(b.checked_mul(factor)?)?,
                ))
            })),
        Some((4, 10)),
    );
}

#[test]
fn try_rfold_fail() {
    let a = [1, 2];
    let b = [3, 255];
    let mut factor = 0;

    assert_eq!(
        (a.into_iter().zip_eq_eager(b.into_iter()).unwrap()
            .try_rfold((0, 0_u8), |(acc_a, acc_b), (a, b): (u8, u8)| {
                factor += 1;
                Some((
                    acc_a + factor * a,
                    acc_b.checked_add(b.checked_mul(factor)?)?,
                ))
            })),
        None,
    );
}
