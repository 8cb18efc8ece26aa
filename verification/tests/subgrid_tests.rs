use grid::{SubGrid, SubGridPoint};

#[test]
fn a_new_chunk_holds_the_default_everywhere() {
    let s: SubGrid<u8, 3> = SubGrid::new();
    for x in 0..3 {
        for z in 0..3 {
            assert_eq!(*s.get(&SubGridPoint::new(x, z)), 0);
        }
    }
    let t: SubGrid<String, 2> = SubGrid::new();
    assert_eq!(t.get(&SubGridPoint::new(1, 1)), "");
}

#[test]
fn a_chunk_keeps_what_is_set() {
    let mut s: SubGrid<u8, 3> = SubGrid::new();
    s.set(&SubGridPoint::new(1, 2), 9);
    assert_eq!(*s.get(&SubGridPoint::new(1, 2)), 9);
    assert_eq!(*s.get(&SubGridPoint::new(2, 1)), 0);
    assert_eq!(s.get_ro(&SubGridPoint::new(1, 2)), 9);
    *s.get_mut(&SubGridPoint::new(2, 1)) = 4;
    assert_eq!(*s.get(&SubGridPoint::new(2, 1)), 4);
    assert_eq!(*s.get(&SubGridPoint::new(1, 2)), 9);
    let c = s.clone();
    s.set(&SubGridPoint::new(1, 2), 1);
    assert_eq!(*c.get(&SubGridPoint::new(1, 2)), 9);
    assert_eq!(*c.get(&SubGridPoint::new(2, 1)), 4);
    assert_eq!(*c.get(&SubGridPoint::new(0, 0)), 0);
}
