use grid::point::{Offset, Point, SubGridIndex};

fn xs(v: &Vec<Point>) -> Vec<(isize, isize)> {
    v.iter().map(|p| (p.x, p.z)).collect()
}

#[test]
fn moore_ring_at_distance_one() {
    let p = Point::new(0, 0);
    assert_eq!(
        xs(&p.moore_neighbors(1, false)),
        vec![(-1, -1), (0, -1), (1, -1), (1, 0), (1, 1), (0, 1), (-1, 1), (-1, 0)]
    );
}

#[test]
fn moore_inclusive_puts_the_center_first() {
    let p = Point::new(5, -3);
    let n = xs(&p.moore_neighbors(1, true));
    assert_eq!(n.len(), 9);
    assert_eq!(n[0], (5, -3));
    assert_eq!(n[1], (4, -4));
    assert_eq!(n[8], (4, -3));
}

#[test]
fn moore_rings_grow_by_eight_cells_each() {
    let p = Point::new(0, 0);
    assert_eq!(p.moore_neighbors(0, false).len(), 0);
    assert_eq!(p.moore_neighbors(0, true).len(), 1);
    assert_eq!(p.moore_neighbors(2, false).len(), 8 + 16);
    assert_eq!(p.moore_neighbors(3, false).len(), 8 + 16 + 24);
    let two = xs(&p.moore_neighbors(2, false));
    assert_eq!(two[8], (-2, -2));
    assert_eq!(two[12], (2, -2));
    assert_eq!(two[16], (2, 2));
    assert_eq!(two[20], (-2, 2));
    assert_eq!(two[23], (-2, -1));
}

#[test]
fn von_neumann_ring_at_distance_one() {
    let p = Point::new(0, 0);
    assert_eq!(xs(&p.von_neumann_neighbors(1, false)), vec![(-1, 0), (0, 1), (1, 0), (0, -1)]);
}

#[test]
fn von_neumann_ring_at_distance_two() {
    let p = Point::new(0, 0);
    let n = xs(&p.von_neumann_neighbors(2, true));
    assert_eq!(
        n,
        vec![
            (0, 0),
            (-1, 0),
            (0, 1),
            (1, 0),
            (0, -1),
            (-2, 0),
            (-1, 1),
            (0, 2),
            (1, 1),
            (2, 0),
            (1, -1),
            (0, -2),
            (-1, -1)
        ]
    );
}

#[test]
fn chunk_index_neighbors_follow_the_same_ring() {
    let k = SubGridIndex::new(-1, 2);
    let n: Vec<(isize, isize)> = k.moore_neighbors(1, false).iter().map(|q| (q.x, q.z)).collect();
    assert_eq!(n, vec![(-2, 1), (-1, 1), (0, 1), (0, 2), (0, 3), (-1, 3), (-2, 3), (-2, 2)]);
}

#[test]
fn shift_and_checked_shift() {
    let p = Point::new(3, -4);
    let q = p.shift(&Offset::new(-5, 6));
    assert_eq!((q.x, q.z), (-2, 2));
    assert_eq!(p.checked_shift(&Offset::new(1, 1)), Some(Point::new(4, -3)));
    assert_eq!(Point::new(isize::MAX, 0).checked_shift(&Offset::new(1, 0)), None);
    assert_eq!(Point::new(0, isize::MIN).checked_shift(&Offset::new(0, -1)), None);
}

#[test]
fn range_includes_both_corners() {
    let s = Point::new(0, 0);
    let e = Point::new(7, 7);
    assert!(Point::new(0, 0).is_in_range(&s, &e));
    assert!(Point::new(7, 7).is_in_range(&s, &e));
    assert!(!Point::new(8, 7).is_in_range(&s, &e));
    assert!(!Point::new(0, -1).is_in_range(&s, &e));
    assert_eq!(Point::new(1, 2).copy(), Point::new(1, 2));
}
