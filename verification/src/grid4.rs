//! Dense grids that keep their values in one vector and find them through
//! a square of slot numbers, alone or nested in three tiers.

use vstd::prelude::*;
use crate::grid::as_ref;
use crate::grid3::{is_none_square, none_square, rows_of};

verus! {

/// A position in a dense grid.
#[derive(Clone, Copy, Debug, PartialEq, Eq, Structural)]
pub struct Point {
    pub x: usize,
    pub z: usize,
}

impl Point {
    pub fn new(x: usize, z: usize) -> (r: Self)
        ensures
            r.x == x,
            r.z == z,
    {
        Self { x, z }
    }
}

/// A square of side `L` of optional values. The values that are present
/// stand in a vector, in the order in which their cells were first
/// written.
pub struct IndexedGrid<T, const L: usize> {
    values: Vec<T>,
    values_counter: usize,
    map: Vec<Vec<Option<usize>>>,
}

impl<T, const L: usize> IndexedGrid<T, L> {
    /// The square of slot numbers.
    pub closed spec fn slots(&self) -> Seq<Seq<Option<usize>>> {
        rows_of(self.map@)
    }

    /// The values that are present, by slot number.
    pub closed spec fn stored(&self) -> Seq<T> {
        self.values@
    }

    /// The value of the cell `(x, z)`, if it was ever written.
    pub open spec fn at(&self, x: int, z: int) -> Option<T> {
        match self.slots()[x][z] {
            Some(i) => Some(self.stored()[i as int]),
            None => None,
        }
    }

    /// The grid's invariant: the slot numbers form a square of side `L`,
    /// each names a value that is stored, and no two cells share one.
    pub closed spec fn wf(&self) -> bool {
        &&& self.slots().len() == L
        &&& forall|x: int| 0 <= x < L ==> (#[trigger] self.slots()[x]).len() == L
        &&& self.values_counter == self.values@.len()
        &&& forall|x: int, z: int|
            0 <= x < L && 0 <= z < L ==> (#[trigger] self.slots()[x][z] matches Some(i) ==> i
                < self.values@.len())
        &&& forall|x: int, z: int, x2: int, z2: int|
            0 <= x < L && 0 <= z < L && 0 <= x2 < L && 0 <= z2 < L && (x != x2 || z != z2)
                && self.slots()[x][z] is Some ==> #[trigger] self.slots()[x][z]
                != #[trigger] self.slots()[x2][z2]
    }

    /// Whether every cell of `post` but `(x, z)` holds what it holds here.
    pub open spec fn same_but(&self, x: int, z: int, post: &Self) -> bool {
        forall|x2: int, z2: int|
            0 <= x2 < L && 0 <= z2 < L && (x2 != x || z2 != z) ==> #[trigger] post.at(x2, z2)
                == self.at(x2, z2)
    }

    /// A grid with no cell written.
    pub fn init() -> (r: Self)
        ensures
            r.wf(),
            forall|x: int, z: int| 0 <= x < L && 0 <= z < L ==> (#[trigger] r.at(x, z)) is None,
    {
        let map = none_square(L);
        Self { values: Vec::new(), values_counter: 0, map }
    }

    /// The value of the cell `p`, if it was ever written.
    pub fn get(&self, p: &Point) -> (r: Option<&T>)
        requires
            self.wf(),
            p.x < L,
            p.z < L,
        ensures
            r == as_ref(self.at(p.x as int, p.z as int)),
    {
        match self.map[p.x][p.z] {
            None => None,
            Some(i) => Some(&self.values[i]),
        }
    }

    /// Writes `v` to the cell `p` and leaves every other cell as it is.
    pub fn set(&mut self, p: &Point, v: T)
        requires
            old(self).wf(),
            p.x < L,
            p.z < L,
        ensures
            final(self).wf(),
            final(self).at(p.x as int, p.z as int) == Some(v),
            old(self).same_but(p.x as int, p.z as int, final(self)),
    {
        assert(self.slots()[p.x as int][p.z as int] == self.map@[p.x as int]@[p.z as int]);
        match self.map[p.x][p.z] {
            None => {
                self.values.insert(self.values_counter, v);
                self.map[p.x][p.z] = Some(self.values_counter);
                assert(self.values.len() == self.values_counter + 1);
                self.values_counter += 1;
                proof {
                    assert(self.values@.take(old(self).values@.len() as int) =~= old(self).values@);
                    self.lemma_slot_added(old(self), p.x as int, p.z as int);
                }
            },
            Some(i) => {
                self.values[i] = v;
            },
        };
    }

    /// Access to the value of the cell `p`, if it was ever written. What
    /// the caller leaves there is what the cell holds afterwards.
    pub fn get_mut(&mut self, p: &Point) -> (r: Option<&mut T>)
        requires
            old(self).wf(),
            p.x < L,
            p.z < L,
        ensures
            old(self).at(p.x as int, p.z as int) is None ==> r is None && *final(self) == *old(
                self,
            ),
            old(self).at(p.x as int, p.z as int) is Some ==> r is Some && *r->Some_0 == old(
                self,
            ).at(p.x as int, p.z as int)->Some_0,
            r is Some ==> final(self).wf() && final(self).at(p.x as int, p.z as int) == Some(
                *final(r->Some_0),
            ) && old(self).same_but(p.x as int, p.z as int, final(self)),
    {
        match self.map[p.x][p.z] {
            None => None,
            Some(i) => {
                proof {
                    self.lemma_slot_rewritten(p.x as int, p.z as int);
                }
                Some(&mut self.values[i])
            },
        }
    }

    /// Access to the value of the cell `p`, which is first given what
    /// `init` returns if it was never written. What the caller leaves there
    /// is what the cell holds afterwards.
    pub fn get_or_init<FInit: Fn() -> T>(&mut self, p: &Point, init: FInit) -> (r: &mut T)
        requires
            old(self).wf(),
            p.x < L,
            p.z < L,
            call_requires(init, ()),
        ensures
            old(self).at(p.x as int, p.z as int) is Some ==> *r == old(self).at(
                p.x as int,
                p.z as int,
            )->Some_0,
            old(self).at(p.x as int, p.z as int) is None ==> call_ensures(init, (), *r),
            final(self).wf(),
            final(self).at(p.x as int, p.z as int) == Some(*final(r)),
            old(self).same_but(p.x as int, p.z as int, final(self)),
    {
        let i = match self.map[p.x][p.z] {
            None => {
                let g = init();
                self.values.insert(self.values_counter, g);
                self.map[p.x][p.z] = Some(self.values_counter);
                let i = self.values_counter;
                assert(self.values.len() == self.values_counter + 1);
                self.values_counter += 1;
                proof {
                    assert(self.values@.take(old(self).values@.len() as int) =~= old(self).values@);
                    self.lemma_slot_added(old(self), p.x as int, p.z as int);
                }
                i
            },
            Some(i) => i,
        };
        proof {
            self.lemma_slot_rewritten(p.x as int, p.z as int);
        }
        &mut self.values[i]
    }

    /// Writes `v` to the cell `p`, which is first given what `init` returns
    /// if it was never written; every other cell stays as it is.
    pub fn set_or_init<FInit: Fn() -> T>(&mut self, p: &Point, init: FInit, v: T)
        requires
            old(self).wf(),
            p.x < L,
            p.z < L,
            call_requires(init, ()),
        ensures
            final(self).wf(),
            final(self).at(p.x as int, p.z as int) == Some(v),
            old(self).same_but(p.x as int, p.z as int, final(self)),
    {
        *self.get_or_init(p, init) = v;
    }

    /// What a grid is after the value of a cell that has a slot was
    /// replaced.
    proof fn lemma_slot_rewritten(&self, x: int, z: int)
        requires
            self.wf(),
            0 <= x < L,
            0 <= z < L,
            self.slots()[x][z] is Some,
        ensures
            forall|post: Self|
                post.map == self.map && post.values_counter == self.values_counter && post.values@
                    == self.values@.update(
                    self.slots()[x][z]->Some_0 as int,
                    post.values@[self.slots()[x][z]->Some_0 as int],
                ) ==> #[trigger] post.wf() && post.at(x, z) == Some(
                    post.values@[self.slots()[x][z]->Some_0 as int],
                ) && self.same_but(x, z, &post),
    {
        let i = self.slots()[x][z]->Some_0 as int;
    }

    /// What a grid is after a cell that had no slot was given the next
    /// one.
    proof fn lemma_slot_added(&self, pre: &Self, x: int, z: int)
        requires
            pre.wf(),
            0 <= x < L,
            0 <= z < L,
            pre.slots()[x][z] is None,
            self.values@.len() == pre.values@.len() + 1,
            self.values@.take(pre.values@.len() as int) == pre.values@,
            self.values_counter == pre.values_counter + 1,
            self.map@ == pre.map@.update(x, self.map@[x]),
            self.map@[x]@ == pre.map@[x]@.update(z, Some(pre.values_counter)),
        ensures
            self.wf(),
            self.at(x, z) == Some(self.values@[pre.values@.len() as int]),
            pre.same_but(x, z, self),
    {
        assert forall|a: int| 0 <= a < L implies (#[trigger] self.slots()[a]).len() == L by {
            assert(pre.slots()[a].len() == L);
        }
        assert forall|a: int, b: int| 0 <= a < L && 0 <= b < L implies self.slots()[a][b] == (if a
            == x && b == z {
            Some(pre.values_counter)
        } else {
            pre.slots()[a][b]
        }) by {}
    }
}

/// The three digits of `i` in the mixed radix `(a, b, c)`, lowest first.
pub open spec fn digits(i: int, a: int, b: int, c: int) -> (int, int, int) {
    (i % a, (i / a) % b, (i / a / b) % c)
}

/// The three lowest digits of `i` in the mixed radix `(A, B, C)`, lowest
/// first. What of `i` lies above them is dropped.
pub fn index_3l<const A: usize, const B: usize, const C: usize>(i: usize) -> (r: (
    usize,
    usize,
    usize,
))
    requires
        A > 0,
        B > 0,
        C > 0,
    ensures
        (r.0 as int, r.1 as int, r.2 as int) == digits(i as int, A as int, B as int, C as int),
        r.0 < A,
        r.1 < B,
        r.2 < C,
{
    let mut i = i;
    let i3 = i % A;
    i /= A;
    let i2 = i % B;
    i /= B;
    let i1 = i % C;
    (i3, i2, i1)
}

/// A grid in three tiers: a cell is found by the lowest digit of its
/// coordinates in the top tier, by the next in the middle tier and by the
/// third in the lowest. Coordinates that agree in these three digits name
/// the same cell.
pub struct TieredGrid<T, const L1: usize, const L2: usize, const L3: usize> {
    top: IndexedGrid<IndexedGrid<IndexedGrid<T, L3>, L2>, L1>,
}

impl<T, const L1: usize, const L2: usize, const L3: usize> TieredGrid<T, L1, L2, L3> {
    /// The top tier.
    pub closed spec fn tiers(&self) -> IndexedGrid<IndexedGrid<IndexedGrid<T, L3>, L2>, L1> {
        self.top
    }

    /// The value found by the digits `dx` and `dz`, if it was ever
    /// written.
    pub open spec fn cell(&self, dx: (int, int, int), dz: (int, int, int)) -> Option<T> {
        match self.tiers().at(dx.0, dz.0) {
            None => None,
            Some(middle) => match middle.at(dx.1, dz.1) {
                None => None,
                Some(lowest) => lowest.at(dx.2, dz.2),
            },
        }
    }

    /// The value at `p`, if it was ever written.
    pub open spec fn value_at(&self, p: Point) -> Option<T> {
        self.cell(
            digits(p.x as int, L1 as int, L2 as int, L3 as int),
            digits(p.z as int, L1 as int, L2 as int, L3 as int),
        )
    }

    /// Whether `dx` and `dz` are digits of this grid's radix.
    pub open spec fn in_range(dx: (int, int, int), dz: (int, int, int)) -> bool {
        &&& 0 <= dx.0 < L1 && 0 <= dz.0 < L1
        &&& 0 <= dx.1 < L2 && 0 <= dz.1 < L2
        &&& 0 <= dx.2 < L3 && 0 <= dz.2 < L3
    }

    /// The grid's invariant: every tier has at least one cell on a side,
    /// and every grid of every tier that is present is well formed.
    pub open spec fn wf(&self) -> bool {
        &&& L1 > 0 && L2 > 0 && L3 > 0
        &&& self.tiers().wf()
        &&& forall|x: int, z: int|
            0 <= x < L1 && 0 <= z < L1 && (#[trigger] self.tiers().at(x, z)) is Some
                ==> middle_wf(self.tiers().at(x, z)->Some_0)
    }

    /// A grid with no cell written.
    pub fn new() -> (r: Self)
        requires
            L1 > 0,
            L2 > 0,
            L3 > 0,
        ensures
            r.wf(),
            forall|dx: (int, int, int), dz: (int, int, int)|
                Self::in_range(dx, dz) ==> (#[trigger] r.cell(dx, dz)) is None,
    {
        Self { top: IndexedGrid::init() }
    }

    /// The value at `p`, if it was ever written.
    pub fn get(&self, p: &Point) -> (r: Option<&T>)
        requires
            self.wf(),
        ensures
            r == as_ref(self.value_at(*p)),
    {
        let (xi3, xi2, xi1) = index_3l::<L1, L2, L3>(p.x);
        let (zi3, zi2, zi1) = index_3l::<L1, L2, L3>(p.z);
        match self.top.get(&Point::new(xi3, zi3)) {
            None => None,
            Some(v) => match v.get(&Point::new(xi2, zi2)) {
                None => None,
                Some(v) => v.get(&Point::new(xi1, zi1)),
            },
        }
    }

    /// Writes `v` at `p`; the grids of the tiers on the way are made if
    /// they are not there. Every cell with other digits stays as it is.
    pub fn set(&mut self, p: &Point, v: T)
        requires
            old(self).wf(),
        ensures
            final(self).wf(),
            final(self).value_at(*p) == Some(v),
            forall|dx: (int, int, int), dz: (int, int, int)|
                Self::in_range(dx, dz) && (dx != digits(
                    p.x as int,
                    L1 as int,
                    L2 as int,
                    L3 as int,
                ) || dz != digits(p.z as int, L1 as int, L2 as int, L3 as int))
                    ==> #[trigger] final(self).cell(dx, dz) == old(self).cell(dx, dz),
    {
        let (xi3, xi2, xi1) = index_3l::<L1, L2, L3>(p.x);
        let (zi3, zi2, zi1) = index_3l::<L1, L2, L3>(p.z);
        let g3 = self.top.get_or_init(&Point::new(xi3, zi3), IndexedGrid::init);
        let g2 = g3.get_or_init(&Point::new(xi2, zi2), IndexedGrid::init);
        g2.set(&Point::new(xi1, zi1), v);
    }
}

/// Whether `s` is a square of side `l`.
pub open spec fn is_square<V>(s: Seq<Seq<V>>, l: int) -> bool {
    &&& s.len() == l
    &&& forall|x: int| 0 <= x < l ==> (#[trigger] s[x]).len() == l
}

/// A square of side `L2` with no value present.
fn blank<T, const L2: usize>() -> (r: Vec<Vec<Option<T>>>)
    ensures
        is_none_square(rows_of(r@), L2 as int),
{
    none_square(L2)
}

/// A grid in two tiers: a cell is found by the lowest digit of its
/// coordinates in a square of slot numbers, and by the next digit in the
/// square of values that the slot holds. Coordinates that agree in these
/// two digits name the same cell.
pub struct Grid4<T, const L1: usize, const L2: usize, const L3: usize> {
    grids: IndexedGrid<Vec<Vec<Option<T>>>, L1>,
}

impl<T, const L1: usize, const L2: usize, const L3: usize> Grid4<T, L1, L2, L3> {
    /// The squares of values, found by the lowest digit.
    pub closed spec fn squares(&self) -> IndexedGrid<Vec<Vec<Option<T>>>, L1> {
        self.grids
    }

    /// The value found by the lowest digits `d1` and the next digits
    /// `d2`, if it was ever written.
    pub open spec fn cell(&self, d1: (int, int), d2: (int, int)) -> Option<T> {
        match self.squares().at(d1.0, d1.1) {
            None => None,
            Some(square) => rows_of(square@)[d2.0][d2.1],
        }
    }

    /// The value at `p`, if it was ever written.
    pub open spec fn value_at(&self, p: Point) -> Option<T> {
        let dx = digits(p.x as int, L1 as int, L2 as int, L3 as int);
        let dz = digits(p.z as int, L1 as int, L2 as int, L3 as int);
        self.cell((dx.0, dz.0), (dx.1, dz.1))
    }

    /// The grid's invariant: a radix without a zero, and every square of
    /// values that is present has side `L2`.
    pub open spec fn wf(&self) -> bool {
        &&& L1 > 0 && L2 > 0 && L3 > 0
        &&& self.squares().wf()
        &&& forall|x: int, z: int|
            0 <= x < L1 && 0 <= z < L1 && (#[trigger] self.squares().at(x, z)) is Some ==> is_square(
                rows_of(self.squares().at(x, z)->Some_0@),
                L2 as int,
            )
    }

    /// A grid with no cell written.
    pub fn init() -> (r: Self)
        requires
            L1 > 0,
            L2 > 0,
            L3 > 0,
        ensures
            r.wf(),
            forall|d1: (int, int), d2: (int, int)|
                0 <= d1.0 < L1 && 0 <= d1.1 < L1 ==> (#[trigger] r.cell(d1, d2)) is None,
    {
        Self { grids: IndexedGrid::init() }
    }

    /// Writes `v` at `p`; the square of values on the way is made if it is
    /// not there. Every cell with other digits stays as it is.
    pub fn set(&mut self, p: Point, v: T)
        requires
            old(self).wf(),
        ensures
            final(self).wf(),
            final(self).value_at(p) == Some(v),
            forall|d1: (int, int), d2: (int, int)|
                0 <= d1.0 < L1 && 0 <= d1.1 < L1 && 0 <= d2.0 < L2 && 0 <= d2.1 < L2 && (d1 != (
                    (p.x as int) % (L1 as int),
                    (p.z as int) % (L1 as int),
                ) || d2 != (
                    ((p.x as int) / (L1 as int)) % (L2 as int),
                    ((p.z as int) / (L1 as int)) % (L2 as int),
                )) ==> #[trigger] final(self).cell(d1, d2) == old(self).cell(d1, d2),
    {
        let (xi1, xi2, _xi3) = index_3l::<L1, L2, L3>(p.x);
        let (zi1, zi2, _zi3) = index_3l::<L1, L2, L3>(p.z);
        let square = self.grids.get_or_init(&Point::new(xi1, zi1), blank::<T, L2>);
        assert(rows_of(square@)[xi2 as int].len() == L2);
        let ghost before = rows_of(square@);
        square[xi2][zi2] = Some(v);
        assert(rows_of(square@) =~= before.update(
            xi2 as int,
            before[xi2 as int].update(zi2 as int, Some(v)),
        ));
    }
}

/// Whether a grid of the middle tier, and every grid of the lowest tier
/// that it holds, is well formed.
pub open spec fn middle_wf<T, const L2: usize, const L3: usize>(
    middle: IndexedGrid<IndexedGrid<T, L3>, L2>,
) -> bool {
    &&& middle.wf()
    &&& forall|x: int, z: int|
        0 <= x < L2 && 0 <= z < L2 && (#[trigger] middle.at(x, z)) is Some ==> middle.at(
            x,
            z,
        )->Some_0.wf()
}

} // verus!
