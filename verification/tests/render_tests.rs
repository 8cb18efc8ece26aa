use grid::grid::Grid;
use grid::point::{GridLength, Point};

#[test]
fn empty_grid_prints_an_empty_frame() {
    let g: Grid<usize, 4> = Grid::new();
    assert!(g.is_empty());
    assert_eq!(g.print(|v| v != &0), "++\n++");
}

#[test]
fn one_chunk_prints_as_a_square() {
    let mut g: Grid<usize, 2> = Grid::new();
    g.set(&Point::new(0, 0), 1);
    g.set(&Point::new(1, 1), 1);
    assert_eq!(g.print(|v| v != &0), "+--+\n|# |\n| #|\n+--+");
    assert_eq!(g.print(|v| v == &0), "+--+\n| #|\n|# |\n+--+");
}

#[test]
fn rows_run_along_x_and_chunks_that_are_missing_stay_blank() {
    let mut g: Grid<usize, 2> = Grid::new();
    g.set(&Point::new(-1, -1), 1);
    g.set(&Point::new(2, 0), 1);
    g.set(&Point::new(3, 1), 2);
    let text = g.print(|v| v != &0);
    assert_eq!(text, "+------+\n|      |\n| #    |\n|    # |\n|     #|\n+------+");
    let zeros = g.print(|v| v == &0);
    assert_eq!(zeros, "+------+\n|##    |\n|#     |\n|     #|\n|    # |\n+------+");
}

#[test]
fn the_picture_covers_whole_chunks() {
    let mut g: Grid<usize, 8> = Grid::new();
    g.set(&Point::new(-7, 3), 1);
    let text = g.print(|v| v == &1);
    let lines: Vec<&str> = text.split('\n').collect();
    assert_eq!(lines.len(), 10);
    assert_eq!(lines[0], "+--------+");
    assert_eq!(lines[4], "| #      |");
    assert_eq!(lines[9], "+--------+");
    for (i, line) in lines.iter().enumerate() {
        if i != 0 && i != 4 && i != 9 {
            assert_eq!(*line, "|        |");
        }
    }
}

#[test]
fn chunk_bounds_of_an_empty_grid_hold_nothing() {
    let g: Grid<usize, 4> = Grid::new();
    let (lo, hi) = g.find_subgrid_index_bounds();
    assert_eq!((lo.x, lo.z), (isize::MAX, isize::MAX));
    assert_eq!((hi.x, hi.z), (isize::MIN, isize::MIN));
    assert_eq!(g.checked_grid_point_bounds(), None);
    assert_eq!(g.checked_grid_length(), None);
}

#[test]
fn bounds_follow_the_chunks() {
    let mut g: Grid<usize, 4> = Grid::new();
    g.set(&Point::new(-5, 9), 1);
    g.set(&Point::new(6, -1), 1);
    let (lo, hi) = g.find_subgrid_index_bounds();
    assert_eq!((lo.x, lo.z), (-2, -1));
    assert_eq!((hi.x, hi.z), (1, 2));
    let (p, q) = g.find_grid_point_bounds();
    assert_eq!((p.x, p.z), (-8, -4));
    assert_eq!((q.x, q.z), (8, 12));
    assert_eq!(g.checked_grid_point_bounds(), Some((Point::new(-8, -4), Point::new(8, 12))));
    assert_eq!(g.find_grid_length(), GridLength::new(16, 16));
    assert_eq!(g.checked_grid_length(), Some(GridLength::new(16, 16)));
}

#[test]
fn bounds_that_the_machine_cannot_hold_are_refused() {
    let mut g: Grid<usize, 4> = Grid::new();
    g.set(&Point::new(isize::MAX, 0), 1);
    assert_eq!(g.checked_grid_point_bounds(), None);
    assert_eq!(g.checked_grid_length(), Some(GridLength::new(4, 4)));
    g.set(&Point::new(isize::MIN, 0), 1);
    assert_eq!(g.checked_grid_length(), None);
    let mut h: Grid<usize, 4> = Grid::new();
    h.set(&Point::new(isize::MIN, isize::MIN), 1);
    assert_eq!(
        h.checked_grid_point_bounds(),
        Some((Point::new(isize::MIN, isize::MIN), Point::new(isize::MIN + 4, isize::MIN + 4)))
    );
}

#[test]
fn expanding_reads_allocate_the_chunk() {
    let mut g: Grid<usize, 4> = Grid::new();
    assert_eq!(*g.get_or_expand(&Point::new(9, 9)), 0);
    assert_eq!(g.get(&Point::new(8, 8)), Some(&0));
    g.set(&Point::new(9, 9), 4);
    assert_eq!(*g.get_or_expand(&Point::new(9, 9)), 4);
    let p = Point::new(9, 9);
    let sub = g.get_subgrid(&p).unwrap();
    assert_eq!(*g.get_in_subgrid(sub, &p), 4);
    assert_eq!(*g.get_in_known_subgrid(sub, &p), 4);
    assert!(g.get_subgrid(&Point::new(0, 0)).is_none());
}
