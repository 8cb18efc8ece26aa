//! Neighborhoods of a cell: the square rings of Moore and the diamond rings
//! of von Neumann, in a fixed order.

use vstd::prelude::*;
use crate::point::{is_coord, Point, SubGridIndex};

verus! {

/// `n` cells in a row: `start`, then one `step` further each time.
pub open spec fn walk(start: (int, int), step: (int, int), n: nat) -> Seq<(int, int)> {
    Seq::new(n, |j: int| (start.0 + j * step.0, start.1 + j * step.1))
}

/// The square ring at distance `d` round `c`: from the corner of least `x`
/// and `z`, along rising `x`, then rising `z`, then falling `x`, then
/// falling `z`; `8 * d` cells.
pub open spec fn moore_ring(c: (int, int), d: nat) -> Seq<(int, int)> {
    walk((c.0 - d, c.1 - d), (1, 0), 2 * d) + walk((c.0 + d, c.1 - d), (0, 1), 2 * d) + walk(
        (c.0 + d, c.1 + d),
        (-1, 0),
        2 * d,
    ) + walk((c.0 - d, c.1 + d), (0, -1), 2 * d)
}

/// The diamond ring at distance `d` round `c`: from the cell of least `x`,
/// through the one of greatest `z`, of greatest `x`, of least `z`; `4 * d`
/// cells.
pub open spec fn von_neumann_ring(c: (int, int), d: nat) -> Seq<(int, int)> {
    walk((c.0 - d, c.1), (1, 1), d) + walk((c.0, c.1 + d), (1, -1), d) + walk(
        (c.0 + d, c.1),
        (-1, -1),
        d,
    ) + walk((c.0, c.1 - d), (-1, 1), d)
}

/// The Moore rings at distances `1..=dist`, nearest first.
pub open spec fn moore_rings(c: (int, int), dist: nat) -> Seq<(int, int)>
    decreases dist,
{
    if dist == 0 {
        Seq::empty()
    } else {
        moore_rings(c, (dist - 1) as nat) + moore_ring(c, dist)
    }
}

/// The von Neumann rings at distances `1..=dist`, nearest first.
pub open spec fn von_neumann_rings(c: (int, int), dist: nat) -> Seq<(int, int)>
    decreases dist,
{
    if dist == 0 {
        Seq::empty()
    } else {
        von_neumann_rings(c, (dist - 1) as nat) + von_neumann_ring(c, dist)
    }
}

/// The center itself, if it is asked for.
pub open spec fn center(c: (int, int), inclusive: bool) -> Seq<(int, int)> {
    if inclusive {
        seq![c]
    } else {
        Seq::empty()
    }
}

/// The Moore neighborhood of `c` out to `dist`, the center first when
/// `inclusive`.
pub open spec fn moore_neighborhood(c: (int, int), dist: nat, inclusive: bool) -> Seq<(int, int)> {
    center(c, inclusive) + moore_rings(c, dist)
}

/// The von Neumann neighborhood of `c` out to `dist`, the center first when
/// `inclusive`.
pub open spec fn von_neumann_neighborhood(c: (int, int), dist: nat, inclusive: bool) -> Seq<
    (int, int),
> {
    center(c, inclusive) + von_neumann_rings(c, dist)
}

/// The coordinates of a sequence of cells.
pub open spec fn coords(s: Seq<Point>) -> Seq<(int, int)> {
    s.map_values(|p: Point| p@)
}

/// The coordinates of a sequence of chunk indices.
pub open spec fn index_coords(s: Seq<SubGridIndex>) -> Seq<(int, int)> {
    s.map_values(|k: SubGridIndex| k@)
}

/// Appends to `r` the `n` cells of a walk from `(x, z)` by steps of
/// `(sx, sz)`.
fn push_walk(r: &mut Vec<Point>, x: isize, z: isize, sx: isize, sz: isize, n: isize)
    requires
        n >= 0,
        -1 <= sx <= 1,
        -1 <= sz <= 1,
        is_coord(x + n * sx),
        is_coord(z + n * sz),
    ensures
        coords(final(r)@) == coords(old(r)@) + walk(
            (x as int, z as int),
            (sx as int, sz as int),
            n as nat,
        ),
{
    let mut d_x: isize = x;
    let mut d_z: isize = z;
    let mut j: isize = 0;
    while j < n
        invariant
            0 <= j <= n,
            -1 <= sx <= 1,
            -1 <= sz <= 1,
            is_coord(x + n * sx),
            is_coord(z + n * sz),
            d_x == x + j * sx,
            d_z == z + j * sz,
            coords(r@) == coords(old(r)@) + walk(
                (x as int, z as int),
                (sx as int, sz as int),
                j as nat,
            ),
        decreases n - j,
    {
        let ghost before = r@;
        r.push(Point::new(d_x, d_z));
        proof {
            assert((j + 1) * sx == j * sx + sx) by (nonlinear_arith);
            assert((j + 1) * sz == j * sz + sz) by (nonlinear_arith);
            assert(x <= x + (j + 1) * sx <= x + n * sx || x + n * sx <= x + (j + 1) * sx <= x)
                by (nonlinear_arith)
                requires
                    0 <= j < n,
                    -1 <= sx <= 1,
            ;
            assert(z <= z + (j + 1) * sz <= z + n * sz || z + n * sz <= z + (j + 1) * sz <= z)
                by (nonlinear_arith)
                requires
                    0 <= j < n,
                    -1 <= sz <= 1,
            ;
            assert(coords(r@) =~= coords(before).push((d_x as int, d_z as int)));
        }
        d_x = d_x + sx;
        d_z = d_z + sz;
        j = j + 1;
    }
}

impl Point {
    /// The cells of the square rings round this one at distances `1..=dist`,
    /// nearest ring first, after the cell itself when `inclusive`.
    pub fn moore_neighbors(&self, dist: u8, inclusive: bool) -> (r: Vec<Point>)
        requires
            is_coord(self.x - dist),
            is_coord(self.x + dist),
            is_coord(self.z - dist),
            is_coord(self.z + dist),
        ensures
            coords(r@) == moore_neighborhood(self@, dist as nat, inclusive),
    {
        let mut r: Vec<Point> = Vec::new();
        if inclusive {
            r.push(Point { x: self.x, z: self.z });
        }
        let n: isize = dist as isize;
        let mut d: isize = 1;
        while d < n + 1
            invariant
                1 <= d <= n + 1,
                n == dist,
                is_coord(self.x - dist),
                is_coord(self.x + dist),
                is_coord(self.z - dist),
                is_coord(self.z + dist),
                coords(r@) == center(self@, inclusive) + moore_rings(self@, (d - 1) as nat),
            decreases n + 1 - d,
        {
            push_walk(&mut r, self.x - d, self.z - d, 1, 0, d * 2);
            push_walk(&mut r, self.x + d, self.z - d, 0, 1, d * 2);
            push_walk(&mut r, self.x + d, self.z + d, -1, 0, d * 2);
            push_walk(&mut r, self.x - d, self.z + d, 0, -1, d * 2);
            d = d + 1;
        }
        r
    }

    /// The cells of the diamond rings round this one at distances
    /// `1..=dist`, nearest ring first, after the cell itself when
    /// `inclusive`.
    pub fn von_neumann_neighbors(&self, dist: u8, inclusive: bool) -> (r: Vec<Point>)
        requires
            is_coord(self.x - dist),
            is_coord(self.x + dist),
            is_coord(self.z - dist),
            is_coord(self.z + dist),
        ensures
            coords(r@) == von_neumann_neighborhood(self@, dist as nat, inclusive),
    {
        let mut r: Vec<Point> = Vec::new();
        if inclusive {
            r.push(Point::new(self.x, self.z));
        }
        let n: isize = dist as isize;
        let mut d: isize = 1;
        while d < n + 1
            invariant
                1 <= d <= n + 1,
                n == dist,
                is_coord(self.x - dist),
                is_coord(self.x + dist),
                is_coord(self.z - dist),
                is_coord(self.z + dist),
                coords(r@) == center(self@, inclusive) + von_neumann_rings(self@, (d - 1) as nat),
            decreases n + 1 - d,
        {
            push_walk(&mut r, self.x - d, self.z, 1, 1, d);
            push_walk(&mut r, self.x, self.z + d, 1, -1, d);
            push_walk(&mut r, self.x + d, self.z, -1, -1, d);
            push_walk(&mut r, self.x, self.z - d, -1, 1, d);
            d = d + 1;
        }
        r
    }
}

impl SubGridIndex {
    /// The chunk indices of the square rings round this one at distances
    /// `1..=dist`, nearest ring first, after the index itself when
    /// `inclusive`.
    pub fn moore_neighbors(&self, dist: u8, inclusive: bool) -> (r: Vec<SubGridIndex>)
        requires
            is_coord(self.x - dist),
            is_coord(self.x + dist),
            is_coord(self.z - dist),
            is_coord(self.z + dist),
        ensures
            index_coords(r@) == moore_neighborhood(self@, dist as nat, inclusive),
    {
        let cells = Point::new(self.x, self.z).moore_neighbors(dist, inclusive);
        let mut r: Vec<SubGridIndex> = Vec::new();
        let mut i: usize = 0;
        while i < cells.len()
            invariant
                i <= cells.len(),
                r.len() == i,
                forall|j: int| 0 <= j < i ==> r@[j]@ == cells@[j]@,
            decreases cells.len() - i,
        {
            r.push(SubGridIndex::new(cells[i].x, cells[i].z));
            i = i + 1;
        }
        r
    }
}

} // verus!
