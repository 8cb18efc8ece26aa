use grid::grid3::{div_rem, none_square, GridL1, GridL2, GridL3, Index, L1Index, L2Index, L3Index};
use grid::grid4::{index_3l, Grid4, IndexedGrid, Point, TieredGrid};

#[test]
fn quotient_and_remainder() {
    assert_eq!(div_rem(17, 5), (3, 2));
    assert_eq!(div_rem(0, 5), (0, 0));
    assert_eq!(div_rem(4, 5), (0, 4));
    assert_eq!(div_rem(usize::MAX, 1), (usize::MAX, 0));
}

#[test]
fn a_new_square_holds_nothing() {
    let s: Vec<Vec<Option<u8>>> = none_square(3);
    assert_eq!(s.len(), 3);
    for row in &s {
        assert_eq!(row, &vec![None, None, None]);
    }
    let empty: Vec<Vec<Option<u8>>> = none_square(0);
    assert_eq!(empty.len(), 0);
    let _l1: GridL1<u8, 3> = GridL1::init_none();
    let _l2: GridL2<u8, 3, 4> = GridL2::init_none();
    let _l3: GridL3<u8, 3, 4, 5> = GridL3::init_none();
}

#[test]
fn index_splits_by_the_side_of_three_levels() {
    let ((qx, qz), r) = Index::new(29, 100).to_l3::<3, 3, 3>();
    assert_eq!((qx, qz), (1, 3));
    assert_eq!((r.x, r.z), (2, 19));
    let ((qx, qz), r) = Index::new(26, 27).to_l3::<3, 3, 3>();
    assert_eq!((qx, qz), (0, 1));
    assert_eq!((r.x, r.z), (26, 0));
}

#[test]
fn lower_indices_split_by_their_own_side() {
    let ((qx, qz), r) = L3Index::<3, 4, 5>::new(19, 4).to_l2();
    assert_eq!((qx, qz), (3, 0));
    assert_eq!((r.x, r.z), (4, 4));
    let ((qx, qz), r) = L2Index::<3, 4>::new(11, 2).to_l1();
    assert_eq!((qx, qz), (3, 0));
    assert_eq!((r.x, r.z), (2, 2));
    let i = L1Index::<3>::new(1, 2);
    assert_eq!((i.x, i.z), (1, 2));
}

#[test]
fn three_digits_lowest_first() {
    assert_eq!(index_3l::<3, 5, 3>(14), (2, 4, 0));
    assert_eq!(index_3l::<3, 5, 3>(29), (2, 4, 1));
    assert_eq!(index_3l::<16, 24, 32>(0), (0, 0, 0));
    assert_eq!(index_3l::<16, 24, 32>(16 * 24 * 32 - 1), (15, 23, 31));
    assert_eq!(index_3l::<3, 5, 3>(45 + 14), (2, 4, 0));
}

#[test]
fn indexed_grid_keeps_what_is_set() {
    let mut g: IndexedGrid<u32, 4> = IndexedGrid::init();
    assert_eq!(g.get(&Point::new(0, 0)), None);
    g.set(&Point::new(1, 2), 7);
    g.set(&Point::new(3, 3), 8);
    assert_eq!(g.get(&Point::new(1, 2)), Some(&7));
    assert_eq!(g.get(&Point::new(3, 3)), Some(&8));
    assert_eq!(g.get(&Point::new(2, 1)), None);
    g.set(&Point::new(1, 2), 9);
    assert_eq!(g.get(&Point::new(1, 2)), Some(&9));
    assert_eq!(g.get(&Point::new(3, 3)), Some(&8));
}

#[test]
fn indexed_grid_hands_out_the_cell_itself() {
    let mut g: IndexedGrid<u32, 2> = IndexedGrid::init();
    assert!(g.get_mut(&Point::new(0, 1)).is_none());
    *g.get_or_init(&Point::new(0, 1), || 5) += 1;
    assert_eq!(g.get(&Point::new(0, 1)), Some(&6));
    *g.get_or_init(&Point::new(0, 1), || 50) += 1;
    assert_eq!(g.get(&Point::new(0, 1)), Some(&7));
    match g.get_mut(&Point::new(0, 1)) {
        Some(v) => *v = 1,
        None => panic!("the cell was written"),
    }
    assert_eq!(g.get(&Point::new(0, 1)), Some(&1));
    g.set_or_init(&Point::new(1, 1), || 0, 3);
    g.set_or_init(&Point::new(0, 1), || 0, 4);
    assert_eq!(g.get(&Point::new(1, 1)), Some(&3));
    assert_eq!(g.get(&Point::new(0, 1)), Some(&4));
    assert_eq!(g.get(&Point::new(0, 0)), None);
}

#[test]
fn tiered_grid_keeps_what_is_set() {
    let mut g: TieredGrid<usize, 3, 4, 5> = TieredGrid::new();
    let l = 3 * 4 * 5;
    assert_eq!(g.get(&Point::new(0, 0)), None);
    for x in 0..l {
        for z in 0..l {
            g.set(&Point::new(x, z), x * 100 + z);
        }
    }
    for x in 0..l {
        for z in 0..l {
            assert_eq!(g.get(&Point::new(x, z)), Some(&(x * 100 + z)));
        }
    }
}

#[test]
fn tiered_grid_wraps_past_its_radix() {
    let mut g: TieredGrid<u8, 2, 2, 2> = TieredGrid::new();
    g.set(&Point::new(1, 0), 4);
    assert_eq!(g.get(&Point::new(9, 8)), Some(&4));
    assert_eq!(g.get(&Point::new(0, 1)), None);
    g.set(&Point::new(9, 8), 5);
    assert_eq!(g.get(&Point::new(1, 0)), Some(&5));
}

#[test]
fn two_tier_grid_takes_values() {
    let mut g: Grid4<u8, 2, 3, 4> = Grid4::init();
    for x in 0..12 {
        for z in 0..12 {
            g.set(Point::new(x, z), 1);
        }
    }
    g.set(Point::new(0, 0), 2);
}
