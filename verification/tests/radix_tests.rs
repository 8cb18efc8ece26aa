use grid::radix::{index_3l, ternary, ternary_2};

#[test]
fn ternary_digits_highest_first() {
    assert_eq!(ternary::<3>(18), [2, 0, 0]);
    assert_eq!(ternary::<3>(26), [2, 2, 2]);
    assert_eq!(ternary::<3>(0), [0, 0, 0]);
    assert_eq!(ternary::<4>(5), [0, 0, 1, 2]);
    assert_eq!(ternary::<0>(0), []);
}

#[test]
fn mixed_radix_digits_highest_first() {
    assert_eq!(ternary_2::<2>(14, &[5, 3]), [4, 2]);
    assert_eq!(ternary_2::<3>(29, &[3, 5, 3]), [1, 4, 2]);
    assert_eq!(ternary_2::<3>(0, &[3, 5, 3]), [0, 0, 0]);
    assert_eq!(ternary_2::<3>(45 + 29, &[3, 5, 3]), [1, 4, 2]);
}

#[test]
fn three_digits_highest_first() {
    assert_eq!(index_3l::<3, 5, 3>(14), (0, 4, 2));
    assert_eq!(index_3l::<3, 5, 3>(29), (1, 4, 2));
    assert_eq!(index_3l::<37, 41, 43>(37 * 41 * 43 - 1), (36, 40, 42));
    assert_eq!(index_3l::<37, 41, 43>(0), (0, 0, 0));
}
