//! One chunk: a dense square of cells, every one of them present.

use vstd::prelude::*;
use crate::point::SubGridPoint;

verus! {

/// Whether `v` is a value that `T::default()` may return.
pub open spec fn is_default<T: Default>(v: T) -> bool {
    call_ensures(T::default, (), v)
}

/// A square of `L` by `L` cells, addressed by `x` first.
pub struct SubGrid<T, const L: usize> {
    values: Vec<Vec<T>>,
}

impl<T, const L: usize> View for SubGrid<T, L> {
    type V = Seq<Seq<T>>;

    /// The cells, as `L` columns of `L` values: `self@[x][z]`.
    closed spec fn view(&self) -> Seq<Seq<T>> {
        Seq::new(self.values@.len(), |x: int| self.values@[x]@)
    }
}

impl<T: Default, const L: usize> SubGrid<T, L> {
    /// The chunk holds exactly `L` columns of `L` cells.
    pub open spec fn wf(&self) -> bool {
        &&& self@.len() == L
        &&& forall|x: int| 0 <= x < L ==> (#[trigger] self@[x]).len() == L
    }

    /// Whether every cell holds a default value.
    pub open spec fn all_default(&self) -> bool {
        forall|x: int, z: int| 0 <= x < L && 0 <= z < L ==> is_default(#[trigger] self@[x][z])
    }

    /// A chunk whose cells all hold the default value.
    pub fn new() -> (r: Self)
        ensures
            r.wf(),
            r.all_default(),
    {
        let mut values: Vec<Vec<T>> = Vec::new();
        let mut x: usize = 0;
        while x < L
            invariant
                x <= L,
                values@.len() == x,
                forall|i: int| 0 <= i < x ==> (#[trigger] values@[i])@.len() == L,
                forall|i: int, j: int|
                    0 <= i < x && 0 <= j < L ==> is_default(#[trigger] values@[i]@[j]),
            decreases L - x,
        {
            let mut column: Vec<T> = Vec::new();
            let mut z: usize = 0;
            while z < L
                invariant
                    z <= L,
                    column@.len() == z,
                    forall|j: int| 0 <= j < z ==> is_default(#[trigger] column@[j]),
                decreases L - z,
            {
                column.push(T::default());
                z = z + 1;
            }
            values.push(column);
            x = x + 1;
        }
        SubGrid { values }
    }

    /// The cell at `p`.
    pub fn get(&self, p: &SubGridPoint) -> (r: &T)
        requires
            self.wf(),
            p.x < L,
            p.z < L,
        ensures
            *r == self@[p.x as int][p.z as int],
    {
        assert(self@[p.x as int].len() == L);
        &self.values[p.x][p.z]
    }

    /// A chunk whose every cell is a copy of the cell of this chunk at the
    /// same place, as `T::clone` makes it.
    pub fn clone(&self) -> (r: Self) where T: Clone
        requires
            self.wf(),
        ensures
            r.wf(),
            forall|x: int, z: int|
                0 <= x < L && 0 <= z < L ==> call_ensures(
                    T::clone,
                    (&self@[x][z],),
                    #[trigger] r@[x][z],
                ),
    {
        let mut values: Vec<Vec<T>> = Vec::new();
        let mut x: usize = 0;
        while x < L
            invariant
                x <= L,
                self.wf(),
                values@.len() == x,
                forall|i: int| 0 <= i < x ==> (#[trigger] values@[i])@.len() == L,
                forall|i: int, j: int|
                    0 <= i < x && 0 <= j < L ==> call_ensures(
                        T::clone,
                        (&self@[i][j],),
                        #[trigger] values@[i]@[j],
                    ),
            decreases L - x,
        {
            let mut column: Vec<T> = Vec::new();
            let mut z: usize = 0;
            while z < L
                invariant
                    z <= L,
                    x < L,
                    self.wf(),
                    self@[x as int].len() == L,
                    column@.len() == z,
                    forall|j: int|
                        0 <= j < z ==> call_ensures(
                            T::clone,
                            (&self@[x as int][j],),
                            #[trigger] column@[j],
                        ),
                decreases L - z,
            {
                column.push(self.values[x][z].clone());
                z = z + 1;
            }
            values.push(column);
            x = x + 1;
        }
        SubGrid { values }
    }

    /// A copy of the cell at `p`, as `T::clone` makes it.
    pub fn get_ro(&self, p: &SubGridPoint) -> (r: T) where T: Clone
        requires
            self.wf(),
            p.x < L,
            p.z < L,
        ensures
            call_ensures(T::clone, (&self@[p.x as int][p.z as int],), r),
    {
        assert(self@[p.x as int].len() == L);
        self.values[p.x][p.z].clone()
    }

    /// Access to the cell at `p`. What the caller leaves there is what the
    /// cell holds afterwards; no other cell changes.
    pub fn get_mut(&mut self, p: &SubGridPoint) -> (r: &mut T)
        requires
            old(self).wf(),
            p.x < L,
            p.z < L,
        ensures
            *r == old(self)@[p.x as int][p.z as int],
            final(self).wf(),
            final(self)@ == old(self)@.update(
                p.x as int,
                old(self)@[p.x as int].update(p.z as int, *final(r)),
            ),
    {
        assert(self@[p.x as int].len() == L);
        proof {
            let x = p.x as int;
            let z = p.z as int;
            assert forall|post: Self|
                post.values@.len() == self.values@.len() && (forall|i: int|
                    0 <= i < self.values@.len() && i != x ==> post.values@[i] == self.values@[i])
                    && post.values@[x]@ == self.values@[x]@.update(z, post.values@[x]@[z]) implies #[trigger] post.wf()
                && post@ == self@.update(x, self@[x].update(z, post@[x][z])) by {
                assert forall|i: int| 0 <= i < L implies (#[trigger] post@[i]).len() == L by {
                    assert(self@[i].len() == L);
                }
            }
        }
        &mut self.values[p.x][p.z]
    }

    /// Overwrites the cell at `p` and no other.
    pub fn set(&mut self, p: &SubGridPoint, v: T)
        requires
            old(self).wf(),
            p.x < L,
            p.z < L,
        ensures
            final(self).wf(),
            final(self)@ == old(self)@.update(
                p.x as int,
                old(self)@[p.x as int].update(p.z as int, v),
            ),
    {
        assert(self@[p.x as int].len() == L);
        let ghost before = self@;
        self.values[p.x][p.z] = v;
        assert(self@ =~= before.update(p.x as int, before[p.x as int].update(p.z as int, v)));
    }
}

} // verus!
