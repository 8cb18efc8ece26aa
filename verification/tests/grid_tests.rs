use grid::grid::Grid;
use grid::point::{Offset, Point, SubGridIndex};
use grid::tick::Update;

type Next = fn(Option<&usize>) -> Option<usize>;

fn moore_offsets() -> &'static Vec<Offset> {
    Box::leak(Box::new(vec![
        Offset::new(-1, -1),
        Offset::new(-1, 0),
        Offset::new(-1, 1),
        Offset::new(0, -1),
        Offset::new(0, 1),
        Offset::new(1, -1),
        Offset::new(1, 0),
        Offset::new(1, 1),
    ]))
}

fn no_offsets() -> &'static Vec<Offset> {
    Box::leak(Box::new(Vec::new()))
}

fn born(_: Option<&usize>) -> Option<usize> {
    Some(1)
}

fn dies(_: Option<&usize>) -> Option<usize> {
    Some(0)
}

fn life(point: &Point, cur: Option<&usize>, neighbors: Vec<Option<&usize>>) -> Vec<Update<Next>> {
    let mut r: Vec<Update<Next>> = Vec::with_capacity(1);
    let live = neighbors.into_iter().filter(|v| v == &Some(&1)).count();
    if cur.is_none() || cur == Some(&0) {
        if live == 3 {
            r.push(Update::new(point.copy(), born as Next));
        }
    } else if live < 2 || live > 3 {
        r.push(Update::new(point.copy(), dies as Next));
    }
    r
}

fn step<const L: usize>(g: &mut Grid<usize, L>, offsets: &'static Vec<Offset>) {
    g.tick(|_p| offsets, life);
}

fn live_cells<const L: usize>(g: &Grid<usize, L>, lo: isize, hi: isize) -> Vec<(isize, isize)> {
    let mut r = Vec::new();
    for x in lo..hi {
        for z in lo..hi {
            if g.get(&Point::new(x, z)) == Some(&1) {
                r.push((x, z));
            }
        }
    }
    r
}

fn glider<const L: usize>() -> Grid<usize, L> {
    let mut g: Grid<usize, L> = Grid::new();
    for (x, z) in [(1, 0), (2, 1), (0, 2), (1, 2), (2, 2)] {
        g.set(&Point::new(x, z), 1);
    }
    g
}

fn glider_moves<const L: usize>() {
    let offsets = moore_offsets();
    let mut g = glider::<L>();
    for _ in 0..4 {
        step(&mut g, offsets);
    }
    assert_eq!(live_cells(&g, -20, 20), vec![(1, 3), (2, 1), (2, 3), (3, 2), (3, 3)]);
}

#[test]
fn set_then_get_returns_the_value() {
    let mut g: Grid<usize, 8> = Grid::new();
    for (x, z, v) in [(0, 0, 5), (-1, -1, 6), (7, 8, 7), (-9, 100, 8), (isize::MIN, isize::MAX, 9)] {
        g.set(&Point::new(x, z), v);
        assert_eq!(g.get(&Point::new(x, z)), Some(&v));
    }
    assert_eq!(g.get(&Point::new(0, 0)), Some(&5));
    assert_eq!(g.get(&Point::new(-1, -1)), Some(&6));
    g.set(&Point::new(0, 0), 11);
    assert_eq!(g.get(&Point::new(0, 0)), Some(&11));
    assert_eq!(g.get(&Point::new(-1, -1)), Some(&6));
}

#[test]
fn get_without_a_chunk_is_none() {
    let mut g: Grid<usize, 8> = Grid::new();
    assert_eq!(g.get(&Point::new(0, 0)), None);
    g.set(&Point::new(0, 0), 3);
    assert_eq!(g.get(&Point::new(7, 7)), Some(&0));
    assert_eq!(g.get(&Point::new(8, 0)), None);
    assert_eq!(g.get(&Point::new(-1, 0)), None);
    assert_eq!(g.get(&Point::new(0, -1)), None);
}

#[test]
fn neighbours_across_a_chunk_border_are_found() {
    let mut g: Grid<usize, 8> = Grid::new();
    g.set(&Point::new(-1, 0), 1);
    g.set(&Point::new(0, 0), 2);
    assert_eq!(g.get(&Point::new(-1, 0)), Some(&1));
    assert_eq!(g.get(&Point::new(0, 0)), Some(&2));
    assert_eq!(g.get(&Point::new(-8, 7)), Some(&0));
    assert_eq!(g.get(&Point::new(-9, 0)), None);
}

#[test]
fn glider_moves_by_one_cell_in_four_steps() {
    glider_moves::<2>();
}

#[test]
fn glider_moves_in_chunks_of_any_side() {
    glider_moves::<1>();
    glider_moves::<3>();
    glider_moves::<8>();
    glider_moves::<32>();
}

#[test]
fn a_single_live_cell_dies() {
    let offsets = moore_offsets();
    let mut g: Grid<usize, 4> = Grid::new();
    g.set(&Point::new(0, 0), 1);
    step(&mut g, offsets);
    assert_eq!(live_cells(&g, -10, 10), vec![]);
    assert_eq!(g.get(&Point::new(0, 0)), Some(&0));
}

#[test]
fn a_blinker_turns() {
    let offsets = moore_offsets();
    let mut g: Grid<usize, 2> = Grid::new();
    for x in -1..2 {
        g.set(&Point::new(x, 0), 1);
    }
    step(&mut g, offsets);
    assert_eq!(live_cells(&g, -10, 10), vec![(0, -1), (0, 0), (0, 1)]);
    step(&mut g, offsets);
    assert_eq!(live_cells(&g, -10, 10), vec![(-1, 0), (0, 0), (1, 0)]);
}

#[test]
fn updates_see_the_grid_as_it_was_before_the_step() {
    let offsets = moore_offsets();
    let seen = |order: [(isize, isize); 2]| {
        let mut g: Grid<usize, 4> = Grid::new();
        g.set(&Point::new(0, 0), 1);
        for (x, z) in order {
            g.set(&Point::new(x, z), 1);
        }
        step(&mut g, offsets);
        live_cells(&g, -20, 20)
    };
    assert_eq!(seen([(5, 5), (-5, -5)]), seen([(-5, -5), (5, 5)]));
    assert_eq!(seen([(5, 5), (-5, -5)]), vec![]);
}

#[test]
fn written_values_are_not_read_in_the_same_step() {
    fn shift_right(point: &Point, cur: Option<&usize>, _n: Vec<Option<&usize>>) -> Vec<Update<Next>> {
        let mut r: Vec<Update<Next>> = Vec::new();
        if cur == Some(&1) {
            r.push(Update::new(point.copy(), dies as Next));
            r.push(Update::new(Point::new(point.x + 1, point.z), born as Next));
        }
        r
    }
    let none = no_offsets();
    let mut g: Grid<usize, 4> = Grid::new();
    g.set(&Point::new(0, 0), 1);
    g.tick(|_p| none, shift_right);
    assert_eq!(live_cells(&g, -10, 10), vec![(1, 0)]);
    g.tick(|_p| none, shift_right);
    assert_eq!(live_cells(&g, -10, 10), vec![(2, 0)]);
}

#[test]
fn a_new_chunk_is_visited_by_the_next_step() {
    fn mark(point: &Point, cur: Option<&usize>, _n: Vec<Option<&usize>>) -> Vec<Update<Next>> {
        let mut r: Vec<Update<Next>> = Vec::new();
        if cur == Some(&7) {
            r.push(Update::new(point.copy(), born as Next));
        }
        r
    }
    let none = no_offsets();
    let mut g: Grid<usize, 4> = Grid::new();
    g.set(&Point::new(0, 0), 7);
    g.tick(|_p| none, mark);
    assert_eq!(g.get(&Point::new(0, 0)), Some(&1));
    g.set(&Point::new(100, 100), 7);
    g.tick(|_p| none, mark);
    assert_eq!(g.get(&Point::new(100, 100)), Some(&1));
}

#[test]
fn scan_set_is_the_chunks_and_what_touches_them() {
    let mut g: Grid<usize, 4> = Grid::new();
    assert_eq!(g.subgrids_to_scan().len(), 0);
    g.set(&Point::new(0, 0), 1);
    let mut one: Vec<(isize, isize)> = g.subgrids_to_scan().iter().map(|k| (k.x, k.z)).collect();
    one.sort();
    assert_eq!(one, vec![(-1, -1), (-1, 0), (-1, 1), (0, -1), (0, 0), (0, 1), (1, -1), (1, 0), (1, 1)]);
    g.set(&Point::new(4, 0), 1);
    let two = g.subgrids_to_scan();
    assert_eq!(two.len(), 12);
    let again = g.subgrids_to_scan();
    assert_eq!(two, again);
    g.set(&Point::new(5, 1), 1);
    assert_eq!(g.subgrids_to_scan(), two);
    g.invalidate_subgrids_to_scan();
    assert_eq!(g.subgrids_to_scan().len(), 12);
    assert!(two.contains(&SubGridIndex::new(2, 1)));
}

#[test]
fn none_from_an_update_resets_the_cell() {
    fn clear(point: &Point, cur: Option<&usize>, _n: Vec<Option<&usize>>) -> Vec<Update<Next>> {
        fn gone(_: Option<&usize>) -> Option<usize> {
            None
        }
        let mut r: Vec<Update<Next>> = Vec::new();
        if cur == Some(&9) {
            r.push(Update::new(point.copy(), gone as Next));
        }
        r
    }
    let none = no_offsets();
    let mut g: Grid<usize, 4> = Grid::new();
    g.set(&Point::new(-3, 2), 9);
    g.tick(|_p| none, clear);
    assert_eq!(g.get(&Point::new(-3, 2)), Some(&0));
}

#[test]
fn cells_at_the_edge_of_the_plane_step_without_overflow() {
    let offsets = moore_offsets();
    let mut g: Grid<usize, 1> = Grid::new();
    g.set(&Point::new(isize::MAX, isize::MAX), 1);
    g.set(&Point::new(isize::MIN, isize::MIN), 1);
    step(&mut g, offsets);
    assert_eq!(g.get(&Point::new(isize::MAX, isize::MAX)), Some(&0));
    assert_eq!(g.get(&Point::new(isize::MIN, isize::MIN)), Some(&0));
    let mut h: Grid<usize, 3> = Grid::new();
    h.set(&Point::new(isize::MAX, isize::MIN), 1);
    h.set(&Point::new(isize::MAX - 1, isize::MIN), 1);
    h.set(&Point::new(isize::MAX, isize::MIN + 1), 1);
    step(&mut h, offsets);
    assert_eq!(h.get(&Point::new(isize::MAX - 1, isize::MIN + 1)), Some(&1));
    assert_eq!(h.get(&Point::new(isize::MAX, isize::MIN)), Some(&1));
}

#[test]
fn updates_of_one_step_can_be_written_in_either_order() {
    let offsets = moore_offsets();
    let seed = || {
        let mut g: Grid<usize, 4> = Grid::new();
        g.set(&Point::new(0, 0), 1);
        g.set(&Point::new(9, -9), 1);
        g
    };
    let mut forward = seed();
    let scan = forward.subgrids_to_scan();
    let mut updates = forward.collect_updates(&scan, &|_p: &Point| offsets, &life);
    assert_eq!(updates.len(), 2);
    forward.apply_updates(&updates);

    let mut backward = seed();
    updates.reverse();
    backward.apply_updates(&updates);

    for x in -20..20 {
        for z in -20..20 {
            let p = Point::new(x, z);
            assert_eq!(forward.get(&p), backward.get(&p));
        }
    }
    assert_eq!(live_cells(&forward, -20, 20), vec![]);
}

#[test]
fn reading_leaves_the_grid_as_it_is() {
    let offsets = moore_offsets();
    let mut g = glider::<2>();
    let before = live_cells(&g, -10, 10);
    let scan = g.subgrids_to_scan();
    let updates = g.collect_updates(&scan, &|_p: &Point| offsets, &life);
    assert_eq!(live_cells(&g, -10, 10), before);
    let mut targets: Vec<(isize, isize)> = updates.iter().map(|u| (u.p.x, u.p.z)).collect();
    targets.sort();
    assert_eq!(targets, vec![(0, 1), (0, 2), (1, 0), (1, 3)]);
}

#[test]
fn every_cell_of_the_scan_set_is_visited_once() {
    fn count(point: &Point, _cur: Option<&usize>, _n: Vec<Option<&usize>>) -> Vec<Update<Next>> {
        vec![Update::new(point.copy(), born as Next)]
    }
    let none = no_offsets();
    let mut g: Grid<usize, 3> = Grid::new();
    g.set(&Point::new(0, 0), 0);
    let scan = g.subgrids_to_scan();
    let updates = g.collect_updates(&scan, &|_p: &Point| none, &count);
    assert_eq!(updates.len(), 9 * 9);
    let mut seen: Vec<(isize, isize)> = updates.iter().map(|u| (u.p.x, u.p.z)).collect();
    seen.sort();
    seen.dedup();
    assert_eq!(seen.len(), 81);
    assert_eq!(seen[0], (-3, -3));
    assert_eq!(seen[80], (5, 5));
    let first_chunk: Vec<(isize, isize)> = updates.iter().take(9).map(|u| (u.p.x - scan[0].x * 3, u.p.z - scan[0].z * 3)).collect();
    assert_eq!(first_chunk, vec![(0, 0), (0, 1), (0, 2), (1, 0), (1, 1), (1, 2), (2, 0), (2, 1), (2, 2)]);
}

#[test]
fn neighbors_are_handed_over_in_the_order_of_the_offsets() {
    fn tell(point: &Point, _cur: Option<&usize>, near: Vec<Option<&usize>>) -> Vec<Update<Next>> {
        if point.x == 0 && point.z == 0 {
            assert_eq!(near, vec![None, Some(&5), Some(&0), Some(&7)]);
        }
        Vec::new()
    }
    let offsets: &'static Vec<Offset> = Box::leak(Box::new(vec![
        Offset::new(-1, 0),
        Offset::new(1, 0),
        Offset::new(0, 1),
        Offset::new(4, 4),
    ]));
    let mut g: Grid<usize, 4> = Grid::new();
    g.set(&Point::new(1, 0), 5);
    g.set(&Point::new(4, 4), 7);
    g.tick(|_p| offsets, tell);
}

#[test]
fn a_copy_holds_the_same_cells() {
    let mut g: Grid<usize, 4> = Grid::new();
    g.set(&Point::new(1, 1), 3);
    g.set(&Point::new(-6, 9), 4);
    let mut h = g.clone();
    assert_eq!(h.get(&Point::new(1, 1)), Some(&3));
    assert_eq!(h.get(&Point::new(-6, 9)), Some(&4));
    assert_eq!(h.get(&Point::new(0, 0)), Some(&0));
    assert_eq!(h.get(&Point::new(4, 4)), None);
    h.set(&Point::new(1, 1), 8);
    assert_eq!(g.get(&Point::new(1, 1)), Some(&3));
    assert_eq!(h.subgrids_to_scan().len(), g.subgrids_to_scan().len());
}

#[test]
fn an_update_may_name_a_cell_that_has_no_chunk_yet() {
    fn hop(point: &Point, cur: Option<&usize>, _n: Vec<Option<&usize>>) -> Vec<Update<Next>> {
        let mut r: Vec<Update<Next>> = Vec::new();
        if cur == Some(&1) {
            r.push(Update::new(point.copy(), dies as Next));
            r.push(Update::new(Point::new(point.x + 3, point.z - 3), born as Next));
        }
        r
    }
    let none = no_offsets();
    let mut g: Grid<usize, 2> = Grid::new();
    g.set(&Point::new(0, 0), 1);
    assert_eq!(g.get(&Point::new(3, -3)), None);
    for i in 1..6 {
        g.tick(|_p| none, hop);
        assert_eq!(live_cells(&g, -20, 20), vec![(3 * i, -3 * i)]);
    }
    assert_eq!(g.get(&Point::new(0, 0)), Some(&0));
    assert_eq!(g.get(&Point::new(3, -3)), Some(&0));
}
