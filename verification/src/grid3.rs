//! Dense grids in up to three levels: each level is a square of optional
//! entries, and an entry of an upper level is a grid of the level below.

use vstd::prelude::*;

verus! {

/// The rows of a square as sequences.
pub open spec fn rows_of<V>(values: Seq<Vec<V>>) -> Seq<Seq<V>> {
    Seq::new(values.len(), |x: int| values[x]@)
}

/// Whether `s` is a square of side `l` with no entry present.
pub open spec fn is_none_square<V>(s: Seq<Seq<Option<V>>>, l: int) -> bool {
    &&& s.len() == l
    &&& forall|x: int| 0 <= x < l ==> (#[trigger] s[x]).len() == l
    &&& forall|x: int, z: int| 0 <= x < l && 0 <= z < l ==> (#[trigger] s[x][z]) is None
}

/// A square of side `l` with no entry present.
pub fn none_square<V>(l: usize) -> (r: Vec<Vec<Option<V>>>)
    ensures
        is_none_square(rows_of(r@), l as int),
{
    let mut values: Vec<Vec<Option<V>>> = Vec::new();
    let mut x: usize = 0;
    while x < l
        invariant
            x <= l,
            values@.len() == x,
            forall|i: int| 0 <= i < x ==> (#[trigger] values@[i])@.len() == l,
            forall|i: int, j: int| 0 <= i < x && 0 <= j < l ==> (#[trigger] values@[i]@[j]) is None,
        decreases l - x,
    {
        let mut row: Vec<Option<V>> = Vec::new();
        let mut z: usize = 0;
        while z < l
            invariant
                z <= l,
                row@.len() == z,
                forall|j: int| 0 <= j < z ==> (#[trigger] row@[j]) is None,
            decreases l - z,
        {
            row.push(None);
            z = z + 1;
        }
        values.push(row);
        x = x + 1;
    }
    values
}

/// Quotient and remainder of `n` by `d`.
pub fn div_rem(n: usize, d: usize) -> (r: (usize, usize))
    requires
        d > 0,
    ensures
        r.0 == n / d,
        r.1 == n % d,
        r.0 * d + r.1 == n,
        r.1 < d,
{
    proof {
        vstd::arithmetic::div_mod::lemma_fundamental_div_mod(n as int, d as int);
        assert(d * (n / d) == (n / d) * d) by (nonlinear_arith);
    }
    let q = n / d;
    let r = n % d;
    (q, r)
}

/// The lowest level: a square of side `L1` of optional values.
pub struct GridL1<T, const L1: usize> {
    values: Vec<Vec<Option<T>>>,
}

/// The middle level: a square of side `L2` of optional grids of the lowest
/// level.
pub struct GridL2<T, const L1: usize, const L2: usize> {
    values: Vec<Vec<Option<GridL1<T, L1>>>>,
}

/// The top level: a square of side `L3` of optional grids of the middle
/// level.
pub struct GridL3<T, const L1: usize, const L2: usize, const L3: usize> {
    values: Vec<Vec<Option<GridL2<T, L1, L2>>>>,
}

impl<T, const L1: usize> View for GridL1<T, L1> {
    type V = Seq<Seq<Option<T>>>;

    closed spec fn view(&self) -> Seq<Seq<Option<T>>> {
        rows_of(self.values@)
    }
}

impl<T, const L1: usize, const L2: usize> View for GridL2<T, L1, L2> {
    type V = Seq<Seq<Option<GridL1<T, L1>>>>;

    closed spec fn view(&self) -> Seq<Seq<Option<GridL1<T, L1>>>> {
        rows_of(self.values@)
    }
}

impl<T, const L1: usize, const L2: usize, const L3: usize> View for GridL3<T, L1, L2, L3> {
    type V = Seq<Seq<Option<GridL2<T, L1, L2>>>>;

    closed spec fn view(&self) -> Seq<Seq<Option<GridL2<T, L1, L2>>>> {
        rows_of(self.values@)
    }
}

impl<T, const L1: usize> GridL1<T, L1> {
    /// A grid with no value present.
    pub fn init_none() -> (r: Self)
        ensures
            is_none_square(r@, L1 as int),
    {
        Self { values: none_square(L1) }
    }
}

impl<T, const L1: usize, const L2: usize> GridL2<T, L1, L2> {
    /// A grid with no grid of the lowest level present.
    pub fn init_none() -> (r: Self)
        ensures
            is_none_square(r@, L2 as int),
    {
        Self { values: none_square(L2) }
    }
}

impl<T, const L1: usize, const L2: usize, const L3: usize> GridL3<T, L1, L2, L3> {
    /// A grid with no grid of the middle level present.
    pub fn init_none() -> (r: Self)
        ensures
            is_none_square(r@, L3 as int),
    {
        Self { values: none_square(L3) }
    }
}

/// A position counted in cells of the lowest level, over all three
/// levels.
#[derive(Clone, Copy, Debug, PartialEq, Eq, Structural)]
pub struct Index {
    pub x: usize,
    pub z: usize,
}

/// A position inside one grid of the lowest level.
#[derive(Clone, Copy, Debug)]
pub struct L1Index<const L1: usize> {
    pub x: usize,
    pub z: usize,
}

/// A position inside one grid of the middle level, counted in cells of the
/// lowest level.
#[derive(Clone, Copy, Debug)]
pub struct L2Index<const L1: usize, const L2: usize> {
    pub x: usize,
    pub z: usize,
}

/// A position inside one grid of the top level, counted in cells of the
/// lowest level.
#[derive(Clone, Copy, Debug)]
pub struct L3Index<const L1: usize, const L2: usize, const L3: usize> {
    pub x: usize,
    pub z: usize,
}

impl Index {
    pub fn new(x: usize, z: usize) -> (r: Self)
        ensures
            r.x == x,
            r.z == z,
    {
        Self { x, z }
    }

    /// Splits the position by the number of cells on one side of a whole
    /// grid of three levels: which such grid it falls in, and where in it.
    pub fn to_l3<const L1: usize, const L2: usize, const L3: usize>(&self) -> (r: (
        (usize, usize),
        L3Index<L1, L2, L3>,
    ))
        requires
            0 < L3 * L2 * L1 <= usize::MAX,
        ensures
            r.0.0 == self.x / ((L3 * L2 * L1) as usize),
            r.0.1 == self.z / ((L3 * L2 * L1) as usize),
            r.1.x == self.x % ((L3 * L2 * L1) as usize),
            r.1.z == self.z % ((L3 * L2 * L1) as usize),
    {
        assert(L3 * L2 <= L3 * L2 * L1) by (nonlinear_arith)
            requires
                0 < L3 * L2 * L1,
                0 <= L1,
                0 <= L2,
                0 <= L3,
        ;
        let side: usize = L3 * L2 * L1;
        let (qx, rx) = div_rem(self.x, side);
        let (qz, rz) = div_rem(self.z, side);
        ((qx, qz), L3Index::<L1, L2, L3>::new(rx, rz))
    }
}

impl<const L1: usize> L1Index<L1> {
    pub fn new(x: usize, z: usize) -> (r: Self)
        ensures
            r.x == x,
            r.z == z,
    {
        Self { x, z }
    }
}

impl<const L1: usize, const L2: usize> L2Index<L1, L2> {
    pub fn new(x: usize, z: usize) -> (r: Self)
        ensures
            r.x == x,
            r.z == z,
    {
        Self { x, z }
    }

    /// Splits the position by the side of a grid of the lowest level:
    /// which such grid it falls in, and where in it.
    pub fn to_l1(&self) -> (r: ((usize, usize), L1Index<L1>))
        requires
            L1 > 0,
        ensures
            r.0.0 == self.x / L1,
            r.0.1 == self.z / L1,
            r.1.x == self.x % L1,
            r.1.z == self.z % L1,
            r.1.x < L1,
            r.1.z < L1,
    {
        let (qx, rx) = div_rem(self.x, L1);
        let (qz, rz) = div_rem(self.z, L1);
        ((qx, qz), L1Index::<L1>::new(rx, rz))
    }
}

impl<const L1: usize, const L2: usize, const L3: usize> L3Index<L1, L2, L3> {
    pub fn new(x: usize, z: usize) -> (r: Self)
        ensures
            r.x == x,
            r.z == z,
    {
        Self { x, z }
    }

    /// Splits the position by `L3`: quotient and remainder on each axis.
    pub fn to_l2(&self) -> (r: ((usize, usize), L2Index<L1, L2>))
        requires
            L3 > 0,
        ensures
            r.0.0 == self.x / L3,
            r.0.1 == self.z / L3,
            r.1.x == self.x % L3,
            r.1.z == self.z % L3,
    {
        let (qx, rx) = div_rem(self.x, L3);
        let (qz, rz) = div_rem(self.z, L3);
        ((qx, qz), L2Index::<L1, L2>::new(rx, rz))
    }
}

} // verus!
