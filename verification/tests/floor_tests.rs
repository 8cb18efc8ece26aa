use grid::floor::{div_neg_isize, div_neg_isize_2, div_neg_isize_3, rem_floor};
use grid::point::Point;

#[test]
fn floor_division_of_negative_dividends() {
    assert_eq!(div_neg_isize(-1, 8), -1);
    assert_eq!(div_neg_isize(-8, 8), -1);
    assert_eq!(div_neg_isize(-9, 8), -2);
    assert_eq!(div_neg_isize(0, 8), 0);
    assert_eq!(div_neg_isize(7, 8), 0);
    assert_eq!(div_neg_isize(8, 8), 1);
    assert_eq!(div_neg_isize(-16, 8), -2);
    assert_eq!(div_neg_isize(-17, 8), -3);
}

#[test]
fn floor_division_at_the_ends_of_the_range() {
    assert_eq!(div_neg_isize(isize::MIN, 1), isize::MIN);
    assert_eq!(div_neg_isize(isize::MAX, 1), isize::MAX);
    assert_eq!(div_neg_isize(isize::MIN, isize::MAX), -2);
    assert_eq!(div_neg_isize(isize::MIN, 2), isize::MIN / 2);
    assert_eq!(div_neg_isize_2(isize::MIN, 3), div_neg_isize(isize::MIN, 3));
    assert_eq!(div_neg_isize_2(isize::MIN, 1), isize::MIN);
}

#[test]
fn the_three_floor_divisions_agree() {
    for a in -100..100isize {
        for b in 1..40isize {
            let q = div_neg_isize(a, b);
            assert!(q * b <= a && a < (q + 1) * b);
            assert_eq!(div_neg_isize_2(a, b), q);
            assert_eq!(div_neg_isize_3(a, b), q);
            assert_eq!(q, a.div_euclid(b));
        }
    }
}

#[test]
fn remainder_is_never_negative() {
    assert_eq!(rem_floor(-1, 8), 7);
    assert_eq!(rem_floor(-8, 8), 0);
    assert_eq!(rem_floor(-9, 8), 7);
    assert_eq!(rem_floor(9, 8), 1);
    assert_eq!(rem_floor(isize::MIN, 3), isize::MIN.rem_euclid(3) as usize);
}

#[test]
fn chunk_index_and_local_offset_round_trip() {
    for l in [1isize, 2, 3, 8, 32] {
        for x in -70..70isize {
            for z in [-65isize, -1, 0, 1, 64] {
                let p = Point::new(x, z);
                let k = p.to_subgrid_index(l);
                let o = p.to_subgrid_point(l);
                assert!((o.x as isize) < l && (o.z as isize) < l);
                assert_eq!(k.x * l + o.x as isize, x);
                assert_eq!(k.z * l + o.z as isize, z);
            }
        }
    }
}

#[test]
fn minus_one_falls_in_chunk_minus_one() {
    let p = Point::new(-1, -1);
    let k = p.to_subgrid_index(8);
    let o = p.to_subgrid_point(8);
    assert_eq!((k.x, k.z), (-1, -1));
    assert_eq!((o.x, o.z), (7, 7));
}
