//! Coordinates, offsets, and the split of a coordinate into a chunk index
//! and a position inside that chunk.

use vstd::prelude::*;
use crate::floor::{div_neg_isize, floor_div, floor_mod, lemma_floor_div_mod, rem_floor};

verus! {

/// Whether `v` is a value that a machine coordinate can hold.
pub open spec fn is_coord(v: int) -> bool {
    isize::MIN <= v <= isize::MAX
}

/// Whether both parts of `c` are machine coordinates.
pub open spec fn is_cell(c: (int, int)) -> bool {
    is_coord(c.0) && is_coord(c.1)
}

/// The index of the chunk of side `l` that holds coordinate `c`.
pub open spec fn chunk_index(c: (int, int), l: int) -> (int, int) {
    (floor_div(c.0, l), floor_div(c.1, l))
}

/// The position of coordinate `c` inside its chunk of side `l`.
pub open spec fn local_offset(c: (int, int), l: int) -> (int, int) {
    (floor_mod(c.0, l), floor_mod(c.1, l))
}

/// Chunk index and local offset together give the coordinate back, on both
/// axes and for negative coordinates too; the local offset lies in `[0, l)`.
pub proof fn lemma_round_trip(c: (int, int), l: int)
    requires
        l > 0,
    ensures
        chunk_index(c, l).0 * l + local_offset(c, l).0 == c.0,
        chunk_index(c, l).1 * l + local_offset(c, l).1 == c.1,
        0 <= local_offset(c, l).0 < l,
        0 <= local_offset(c, l).1 < l,
{
    lemma_floor_div_mod(c.0, l);
    lemma_floor_div_mod(c.1, l);
}

/// A chunk index and an offset inside `[0, l)` address exactly one
/// coordinate: the one that splits back into them.
pub proof fn lemma_split_unique(k: (int, int), o: (int, int), l: int)
    requires
        l > 0,
        0 <= o.0 < l,
        0 <= o.1 < l,
    ensures
        chunk_index((k.0 * l + o.0, k.1 * l + o.1), l) == k,
        local_offset((k.0 * l + o.0, k.1 * l + o.1), l) == o,
{
    vstd::arithmetic::div_mod::lemma_fundamental_div_mod_converse(k.0 * l + o.0, l, k.0, o.0);
    vstd::arithmetic::div_mod::lemma_fundamental_div_mod_converse(k.1 * l + o.1, l, k.1, o.1);
}

/// One cell of the plane.
#[derive(Clone, Copy, Debug, PartialEq, Eq, Structural)]
pub struct Point {
    pub x: isize,
    pub z: isize,
}

/// A displacement from one cell to another.
#[derive(Clone, Copy, Debug, PartialEq, Eq, Structural)]
pub struct Offset {
    pub x: isize,
    pub z: isize,
}

/// The position of one chunk among the chunks.
#[derive(Clone, Copy, Debug, PartialEq, Eq, Hash, Structural)]
pub struct SubGridIndex {
    pub x: isize,
    pub z: isize,
}

/// A position inside one chunk.
#[derive(Clone, Copy, Debug, PartialEq, Eq, Structural)]
pub struct SubGridPoint {
    pub x: usize,
    pub z: usize,
}

/// The extent of a region of cells on each axis.
#[derive(Clone, Copy, Debug, PartialEq, Eq, Structural)]
pub struct GridLength {
    pub x: usize,
    pub z: usize,
}

impl View for Point {
    type V = (int, int);

    open spec fn view(&self) -> (int, int) {
        (self.x as int, self.z as int)
    }
}

impl View for Offset {
    type V = (int, int);

    open spec fn view(&self) -> (int, int) {
        (self.x as int, self.z as int)
    }
}

impl View for SubGridIndex {
    type V = (int, int);

    open spec fn view(&self) -> (int, int) {
        (self.x as int, self.z as int)
    }
}

impl View for SubGridPoint {
    type V = (int, int);

    open spec fn view(&self) -> (int, int) {
        (self.x as int, self.z as int)
    }
}

impl Offset {
    pub fn new(x: isize, z: isize) -> (r: Self)
        ensures
            r@ == (x as int, z as int),
    {
        Self { x, z }
    }
}

impl GridLength {
    pub fn new(x: usize, z: usize) -> (r: Self)
        ensures
            r.x == x,
            r.z == z,
    {
        Self { x, z }
    }
}

impl SubGridPoint {
    pub fn new(x: usize, z: usize) -> (r: Self)
        ensures
            r@ == (x as int, z as int),
    {
        Self { x, z }
    }
}

impl Point {
    pub fn new(x: isize, z: isize) -> (r: Self)
        ensures
            r@ == (x as int, z as int),
    {
        Self { x, z }
    }

    pub fn copy(&self) -> (r: Self)
        ensures
            r == *self,
    {
        Self { x: self.x, z: self.z }
    }

    /// The chunk that holds this cell when chunks have side `l_i`.
    pub fn to_subgrid_index(&self, l_i: isize) -> (r: SubGridIndex)
        requires
            l_i > 0,
        ensures
            r@ == chunk_index(self@, l_i as int),
    {
        SubGridIndex::new(div_neg_isize(self.x, l_i), div_neg_isize(self.z, l_i))
    }

    /// Where this cell sits inside its chunk when chunks have side `l_i`.
    pub fn to_subgrid_point(&self, l_i: isize) -> (r: SubGridPoint)
        requires
            l_i > 0,
        ensures
            r@ == local_offset(self@, l_i as int),
            r.x < l_i,
            r.z < l_i,
    {
        SubGridPoint::new(rem_floor(self.x, l_i), rem_floor(self.z, l_i))
    }

    /// The cell reached from this one by `o`.
    pub fn shift(&self, o: &Offset) -> (r: Self)
        requires
            is_coord(self.x + o.x),
            is_coord(self.z + o.z),
        ensures
            r@ == (self.x + o.x, self.z + o.z),
    {
        Self { x: self.x + o.x, z: self.z + o.z }
    }

    /// The cell reached from this one by `o`, if the machine can hold it.
    pub fn checked_shift(&self, o: &Offset) -> (r: Option<Self>)
        ensures
            is_cell((self.x + o.x, self.z + o.z)) ==> r is Some && r->Some_0@ == (
                self.x + o.x,
                self.z + o.z,
            ),
            !is_cell((self.x + o.x, self.z + o.z)) ==> r is None,
    {
        match (self.x.checked_add(o.x), self.z.checked_add(o.z)) {
            (Some(x), Some(z)) => Some(Self { x, z }),
            _ => None,
        }
    }

    /// Whether this cell lies in the rectangle from `start` to `end`, both
    /// corners included.
    pub fn is_in_range(&self, start: &Point, end: &Point) -> (r: bool)
        ensures
            r == (start.x <= self.x <= end.x && start.z <= self.z <= end.z),
    {
        self.x >= start.x && self.z >= start.z && self.x <= end.x && self.z <= end.z
    }
}

impl SubGridIndex {
    pub fn new(x: isize, z: isize) -> (r: Self)
        ensures
            r@ == (x as int, z as int),
    {
        Self { x, z }
    }

    pub fn copy(&self) -> (r: Self)
        ensures
            r == *self,
    {
        Self { x: self.x, z: self.z }
    }

    /// The index as a pair, the form in which it keys the chunk map.
    pub fn key(&self) -> (r: (isize, isize))
        ensures
            r == (self.x, self.z),
    {
        (self.x, self.z)
    }
}

} // verus!
