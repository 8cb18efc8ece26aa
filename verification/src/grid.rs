//! The grid: chunks allocated on demand, addressed by absolute coordinates.

use vstd::prelude::*;
use rustc_hash::FxHashMap;
use rustc_hash::FxHashSet;
use crate::fx::{
    map_contains, map_get, map_get_mut, map_insert, map_keys, set_contains, set_insert, Key,
};
use crate::point::{chunk_index, is_cell, local_offset, GridLength, Point, SubGridIndex};
use crate::neighbors::index_coords;
use crate::scan::{adjacent, adjacent_indices, in_scan_region, is_scan_set, lemma_index_push};
use crate::subgrid::{is_default, SubGrid};

verus! {

/// Whether chunks can have side `l`: at least one cell, and no more than a
/// coordinate can count.
pub open spec fn valid_side(l: usize) -> bool {
    0 < l <= isize::MAX
}

/// An optional value as an optional reference to it.
pub open spec fn as_ref<'a, T>(o: Option<T>) -> Option<&'a T> {
    match o {
        Some(v) => Some(&v),
        None => None,
    }
}

/// A key of the chunk map as a chunk index.
spec fn key_index(k: Key) -> (int, int) {
    (k.0 as int, k.1 as int)
}

/// A chunk index as a key of the chunk map.
spec fn index_key(q: (int, int)) -> Key {
    (q.0 as isize, q.1 as isize)
}

/// A copy of a list of chunk indices.
fn copy_indices(v: &Vec<SubGridIndex>) -> (r: Vec<SubGridIndex>)
    ensures
        r@ == v@,
{
    let mut r: Vec<SubGridIndex> = Vec::new();
    let mut i: usize = 0;
    while i < v.len()
        invariant
            i <= v.len(),
            r@ == v@.take(i as int),
        decreases v.len() - i,
    {
        r.push(v[i].copy());
        assert(r@ =~= v@.take(i + 1));
        i = i + 1;
    }
    assert(v@.take(v.len() as int) =~= v@);
    r
}

/// Whether `lo` and `hi` are the least and the greatest chunk index of
/// `chunks` on each axis. Of no chunks at all they are the greatest and
/// the least value of the machine, in that order: bounds that hold nothing.
pub open spec fn is_chunk_bounds(chunks: Set<(int, int)>, lo: (int, int), hi: (int, int)) -> bool {
    if exists|k: (int, int)| chunks.contains(k) {
        &&& forall|k: (int, int)|
            chunks.contains(k) ==> lo.0 <= k.0 <= hi.0 && lo.1 <= k.1 <= hi.1
        &&& exists|k: (int, int)| chunks.contains(k) && k.0 == lo.0
        &&& exists|k: (int, int)| chunks.contains(k) && k.1 == lo.1
        &&& exists|k: (int, int)| chunks.contains(k) && k.0 == hi.0
        &&& exists|k: (int, int)| chunks.contains(k) && k.1 == hi.1
    } else {
        lo == (isize::MAX as int, isize::MAX as int) && hi == (isize::MIN as int, isize::MIN as int)
    }
}

/// Multiplying by a positive `l` keeps the order.
proof fn lemma_between(lo: int, k: int, hi: int, l: int)
    requires
        lo <= k <= hi,
        l > 0,
    ensures
        lo * l <= k * l <= hi * l,
{
    assert(lo * l <= k * l <= hi * l) by (nonlinear_arith)
        requires
            lo <= k <= hi,
            l > 0,
    ;
}

/// A span that with one more chunk fits the machine's count fits it
/// itself.
proof fn lemma_span(span: int, l: int)
    requires
        span >= 0,
        l > 0,
        span * l + l <= usize::MAX,
    ensures
        span <= usize::MAX,
        0 <= span * l <= usize::MAX,
{
    assert(span <= span * l && 0 <= span * l) by (nonlinear_arith)
        requires
            span >= 0,
            l > 0,
    ;
}

/// The product of two machine counts fits in 128 bits, with room to spare.
proof fn lemma_product_fits(span: int, l: int)
    requires
        0 <= span <= 0x1_0000_0000_0000_0000,
        0 <= l <= 0x8000_0000_0000_0000,
    ensures
        0 <= span * l <= 0x8000_0000_0000_0000_0000_0000_0000_0000,
{
    assert(0 <= span * l <= 0x8000_0000_0000_0000_0000_0000_0000_0000) by (nonlinear_arith)
        requires
            0 <= span <= 0x1_0000_0000_0000_0000,
            0 <= l <= 0x8000_0000_0000_0000,
    ;
}

/// A sparse grid of cells of type `T`, stored in square chunks of side `L`.
pub struct Grid<T, const L: usize> {
    values: FxHashMap<Key, SubGrid<T, L>>,
    to_scan: Option<Vec<SubGridIndex>>,
}

impl<T: Default, const L: usize> View for Grid<T, L> {
    type V = Map<(int, int), T>;

    /// The cells that the grid holds, by coordinate.
    open spec fn view(&self) -> Map<(int, int), T> {
        Map::new(|c: (int, int)| self.cell(c) is Some, |c: (int, int)| self.cell(c)->Some_0)
    }
}

impl<T: Default, const L: usize> Grid<T, L> {
    /// The indices of the chunks that have been allocated.
    pub closed spec fn chunks(&self) -> Set<(int, int)> {
        Set::new(
            |k: (int, int)|
                is_cell(k) && self.values@.contains_key((k.0 as isize, k.1 as isize)),
        )
    }

    /// The cells of the chunk at `k`, as `L` columns of `L` values; of
    /// meaning only for an allocated chunk.
    pub closed spec fn chunk(&self, k: (int, int)) -> Seq<Seq<T>> {
        self.values@[(k.0 as isize, k.1 as isize)]@
    }

    /// The scan set that is kept from the last generation step, if it is
    /// still good.
    pub closed spec fn scan_cache(&self) -> Option<Seq<(int, int)>> {
        match self.to_scan {
            Some(v) => Some(index_coords(v@)),
            None => None,
        }
    }

    /// What the grid holds at `c`: nothing where no chunk has been
    /// allocated, or where the machine has no such coordinate.
    pub open spec fn cell(&self, c: (int, int)) -> Option<T> {
        let k = chunk_index(c, L as int);
        let o = local_offset(c, L as int);
        if is_cell(c) && self.chunks().contains(k) {
            Some(self.chunk(k)[o.0][o.1])
        } else {
            None
        }
    }

    /// A grid that is well formed has a valid side.
    pub proof fn lemma_wf_side(&self)
        requires
            self.wf(),
        ensures
            valid_side(L),
    {
    }

    /// The grid's invariant: a valid side, whole chunks, and a scan cache
    /// that is either absent or right for the chunks allocated now.
    pub closed spec fn wf(&self) -> bool {
        &&& valid_side(L)
        &&& forall|k: Key| self.values@.contains_key(k) ==> (#[trigger] self.values@[k]).wf()
        &&& self.scan_cache() matches Some(s) ==> is_scan_set(s, self.chunks())
    }

    /// Whether `post` is this grid after the chunk at `k` was allocated, if
    /// it was not yet, and then given the cells `cells`: every other chunk
    /// as it was, and the scan cache dropped if the chunk is new.
    pub open spec fn chunk_put(&self, k: (int, int), cells: Seq<Seq<T>>, post: &Self) -> bool {
        &&& post.wf()
        &&& post.chunks() == self.chunks().insert(k)
        &&& post.chunk(k) == cells
        &&& forall|j: (int, int)|
            j != k && self.chunks().contains(j) ==> #[trigger] post.chunk(j) == self.chunk(j)
        &&& post.scan_cache() == (if self.chunks().contains(k) {
            self.scan_cache()
        } else {
            None
        })
    }

    /// Whether `post` is this grid after `v` was written at `c`: the chunk
    /// of `c` is allocated, `c` holds `v`, every cell that was present is as
    /// it was, the other cells of a chunk that is new hold a default
    /// value, and the scan cache is dropped if the chunk is new.
    pub open spec fn sets(&self, c: (int, int), v: T, post: &Self) -> bool {
        &&& post.wf()
        &&& post.chunks() == self.chunks().insert(chunk_index(c, L as int))
        &&& post.cell(c) == Some(v)
        &&& forall|d: (int, int)|
            d != c && self.cell(d) is Some ==> #[trigger] post.cell(d) == self.cell(d)
        &&& forall|d: (int, int)|
            d != c && self.cell(d) is None && (#[trigger] post.cell(d)) is Some ==> is_default(
                post.cell(d)->Some_0,
            )
        &&& post.scan_cache() == (if self.chunks().contains(chunk_index(c, L as int)) {
            self.scan_cache()
        } else {
            None
        })
    }

    /// Whether this grid holds the same chunks with the same cells as
    /// `other`.
    pub open spec fn same_cells(&self, other: &Self) -> bool {
        &&& self.chunks() == other.chunks()
        &&& forall|k: (int, int)|
            self.chunks().contains(k) ==> #[trigger] self.chunk(k) == other.chunk(k)
    }

    /// A value that was written is the value that is read back.
    pub proof fn lemma_set_then_get(&self, c: (int, int), v: T, post: &Self)
        requires
            self.sets(c, v, post),
        ensures
            post.cell(c) == Some(v),
            post@.contains_key(c),
            post@[c] == v,
    {
    }

    /// A cell whose chunk was never allocated holds nothing, which differs
    /// from holding the default: once any cell of the chunk is written, the
    /// other cells of the chunk hold a default value.
    pub proof fn lemma_absent_until_allocated(&self, c: (int, int), d: (int, int), v: T, post: &Self)
        requires
            !self.chunks().contains(chunk_index(d, L as int)),
            self.sets(c, v, post),
            is_cell(d),
            d != c,
        ensures
            self.cell(d) is None,
            !self@.contains_key(d),
            chunk_index(d, L as int) == chunk_index(c, L as int) ==> post.cell(d) is Some
                && is_default(post.cell(d)->Some_0),
            chunk_index(d, L as int) != chunk_index(c, L as int) ==> post.cell(d) is None,
    {
    }

    /// Two writes at different cells give the same grid in either order:
    /// the same chunks, the same value at every cell that was written or
    /// was present before, and a default value at every other cell.
    pub proof fn lemma_sets_commute(
        &self,
        c1: (int, int),
        v1: T,
        c2: (int, int),
        v2: T,
        first: &Self,
        first_second: &Self,
        second: &Self,
        second_first: &Self,
    )
        requires
            c1 != c2,
            self.sets(c1, v1, first),
            first.sets(c2, v2, first_second),
            self.sets(c2, v2, second),
            second.sets(c1, v1, second_first),
        ensures
            first_second.chunks() == second_first.chunks(),
            first_second.cell(c1) == Some(v1) && second_first.cell(c1) == Some(v1),
            first_second.cell(c2) == Some(v2) && second_first.cell(c2) == Some(v2),
            forall|d: (int, int)|
                self.cell(d) is Some && d != c1 && d != c2 ==> first_second.cell(d) == self.cell(d)
                    && second_first.cell(d) == self.cell(d),
            forall|d: (int, int)|
                self.cell(d) is None && d != c1 && d != c2 ==> (first_second.cell(d) is Some
                    <==> second_first.cell(d) is Some),
            forall|d: (int, int)|
                self.cell(d) is None && d != c1 && d != c2 && first_second.cell(d) is Some
                    ==> is_default(first_second.cell(d)->Some_0) && is_default(
                    second_first.cell(d)->Some_0,
                ),
    {
        assert(first_second.chunks() =~= second_first.chunks());
        assert forall|d: (int, int)|
            self.cell(d) is None && d != c1 && d != c2 && first_second.cell(d) is Some implies is_default(
            first_second.cell(d)->Some_0,
        ) && is_default(second_first.cell(d)->Some_0) by {
            assert(first.cell(d) is Some || second.cell(d) is Some);
        }
    }

    /// Whether any chunk has been allocated.
    pub open spec fn has_chunks(&self) -> bool {
        exists|k: (int, int)| self.chunks().contains(k)
    }

    /// Whether the machine can hold the coordinate of the first cell of
    /// every chunk, and of the first cell past it on each axis.
    pub open spec fn corners_fit(&self) -> bool {
        forall|k: (int, int)|
            self.chunks().contains(k) ==> is_cell((k.0 * L, k.1 * L)) && is_cell(
                (k.0 * L + L, k.1 * L + L),
            )
    }

    /// Whether the machine can count the cells between any two chunks, both
    /// included, on each axis.
    pub open spec fn spans_fit(&self) -> bool {
        forall|a: (int, int), b: (int, int)|
            self.chunks().contains(a) && self.chunks().contains(b) ==> (b.0 - a.0) * L + L
                <= usize::MAX && (b.1 - a.1) * L + L <= usize::MAX
    }

    /// Whether `lo` and `hi` are the corners of the allocated region, in
    /// cells: the first cell of the least chunk, and the first cell past
    /// the greatest chunk on each axis.
    pub open spec fn is_point_bounds(&self, lo: (int, int), hi: (int, int)) -> bool {
        exists|a: (int, int), b: (int, int)|
            #![trigger is_chunk_bounds(self.chunks(), a, b)]
            is_chunk_bounds(self.chunks(), a, b) && lo == (a.0 * L, a.1 * L) && hi == (
                b.0 * L + L,
                b.1 * L + L,
            )
    }

    /// Whether `len` counts the cells of the allocated region on each axis.
    pub open spec fn is_grid_length(&self, len: GridLength) -> bool {
        exists|a: (int, int), b: (int, int)|
            #![trigger is_chunk_bounds(self.chunks(), a, b)]
            is_chunk_bounds(self.chunks(), a, b) && len.x == (b.0 - a.0) * L + L && len.z == (b.1
                - a.1) * L + L
    }

    /// An empty grid: no chunk, no cell, no scan cache.
    pub fn new() -> (r: Self)
        requires
            valid_side(L),
        ensures
            r.wf(),
            r.chunks() == Set::<(int, int)>::empty(),
            r.scan_cache() is None,
    {
        let r = Grid { values: FxHashMap::default(), to_scan: None };
        assert(r.chunks() =~= Set::<(int, int)>::empty());
        r
    }

    /// The chunk at `index`, if it has been allocated.
    pub fn subgrid_at(&self, index: &SubGridIndex) -> (r: Option<&SubGrid<T, L>>)
        requires
            self.wf(),
        ensures
            r is Some <==> self.chunks().contains(index@),
            r matches Some(s) ==> s.wf() && s@ == self.chunk(index@),
    {
        map_get(&self.values, index.key())
    }

    /// The chunk that holds `p`, if it has been allocated.
    pub fn get_subgrid(&self, p: &Point) -> (r: Option<&SubGrid<T, L>>)
        requires
            self.wf(),
        ensures
            r is Some <==> self.chunks().contains(chunk_index(p@, L as int)),
            r matches Some(s) ==> s.wf() && s@ == self.chunk(chunk_index(p@, L as int)),
    {
        self.subgrid_at(&p.to_subgrid_index(L as isize))
    }

    /// The cell at `p` in a chunk that is known to hold it.
    pub fn get_in_known_subgrid<'b>(&self, sub: &'b SubGrid<T, L>, p: &Point) -> (r: &'b T)
        requires
            valid_side(L),
            sub.wf(),
        ensures
            *r == sub@[local_offset(p@, L as int).0][local_offset(p@, L as int).1],
    {
        sub.get(&p.to_subgrid_point(L as isize))
    }

    /// The chunk that holds `p`, allocated now with default cells if it was
    /// not there. A new chunk drops the scan cache. What the caller leaves
    /// in the chunk is what the grid holds there afterwards.
    pub fn get_subgrid_or_expand(&mut self, p: &Point) -> (r: &mut SubGrid<T, L>)
        requires
            old(self).wf(),
        ensures
            r.wf(),
            old(self).chunks().contains(chunk_index(p@, L as int)) ==> r@ == old(self).chunk(
                chunk_index(p@, L as int),
            ),
            !old(self).chunks().contains(chunk_index(p@, L as int)) ==> r.all_default(),
            final(r).wf() ==> old(self).chunk_put(
                chunk_index(p@, L as int),
                final(r)@,
                final(self),
            ),
    {
        let index = p.to_subgrid_index(L as isize);
        let key: Key = index.key();
        let ghost k = index@;
        if !map_contains(&self.values, key) {
            map_insert(&mut self.values, key, SubGrid::new());
            self.to_scan = None;
        }
        let ghost mid = *self;
        assert(mid.chunks() =~= old(self).chunks().insert(k));
        assert forall|post: Self|
            post.to_scan == mid.to_scan && post.values@ == mid.values@.insert(
                key,
                post.values@[key],
            ) && post.values@[key].wf() implies old(self).chunk_put(
            k,
            post.values@[key]@,
            &post,
        ) && #[trigger] post.chunks() == mid.chunks() by {
            assert(post.chunks() =~= mid.chunks());
        }
        match map_get_mut(&mut self.values, key) {
            Some(sub) => sub,
            None => vstd::pervasive::unreached(),
        }
    }

    /// Writes `v` at `p`, allocating the chunk of `p` if need be.
    pub fn set(&mut self, p: &Point, v: T)
        requires
            old(self).wf(),
        ensures
            old(self).sets(p@, v, final(self)),
    {
        let ghost k = chunk_index(p@, L as int);
        let ghost o = local_offset(p@, L as int);
        let sub = self.get_subgrid_or_expand(p);
        let ghost before = *sub;
        sub.set(&p.to_subgrid_point(L as isize), v);
        proof {
            let post = *self;
            assert(old(self).chunk_put(k, before@.update(o.0, before@[o.0].update(o.1, v)), &post));
            crate::point::lemma_round_trip(p@, L as int);
            assert forall|d: (int, int)| d != p@ && old(self).cell(d) is Some implies #[trigger] post.cell(
                d,
            ) == old(self).cell(d) by {
                crate::point::lemma_round_trip(d, L as int);
            }
            assert forall|d: (int, int)|
                d != p@ && old(self).cell(d) is None && (#[trigger] post.cell(d)) is Some implies is_default(
                post.cell(d)->Some_0,
            ) by {
                crate::point::lemma_round_trip(d, L as int);
            }
        }
    }

    /// Whether no chunk has been allocated.
    pub fn is_empty(&self) -> (r: bool)
        requires
            self.wf(),
        ensures
            r == !(exists|k: (int, int)| self.chunks().contains(k)),
    {
        let keys = map_keys(&self.values);
        proof {
            if keys.len() > 0 {
                assert(keys@.contains(keys@[0]));
                assert(self.chunks().contains(key_index(keys@[0])));
            } else {
                assert forall|k: (int, int)| !self.chunks().contains(k) by {
                    if self.chunks().contains(k) {
                        assert(keys@.contains(index_key(k)));
                    }
                }
            }
        }
        keys.len() == 0
    }

    /// The least and the greatest index of the allocated chunks on each
    /// axis; of an empty grid, bounds that hold nothing.
    pub fn find_subgrid_index_bounds(&self) -> (r: (SubGridIndex, SubGridIndex))
        requires
            self.wf(),
        ensures
            is_chunk_bounds(self.chunks(), r.0@, r.1@),
    {
        let mut min_sub_x = isize::MAX;
        let mut min_sub_z = isize::MAX;
        let mut max_sub_x = isize::MIN;
        let mut max_sub_z = isize::MIN;
        let keys = map_keys(&self.values);
        let mut i: usize = 0;
        while i < keys.len()
            invariant
                i <= keys.len(),
                i == 0 ==> min_sub_x == isize::MAX && min_sub_z == isize::MAX && max_sub_x
                    == isize::MIN && max_sub_z == isize::MIN,
                forall|a: int|
                    0 <= a < i ==> min_sub_x <= (#[trigger] keys@[a]).0 <= max_sub_x && min_sub_z
                        <= keys@[a].1 <= max_sub_z,
                i > 0 ==> exists|a: int| 0 <= a < i && (#[trigger] keys@[a]).0 == min_sub_x,
                i > 0 ==> exists|a: int| 0 <= a < i && (#[trigger] keys@[a]).1 == min_sub_z,
                i > 0 ==> exists|a: int| 0 <= a < i && (#[trigger] keys@[a]).0 == max_sub_x,
                i > 0 ==> exists|a: int| 0 <= a < i && (#[trigger] keys@[a]).1 == max_sub_z,
            decreases keys.len() - i,
        {
            let p = keys[i];
            proof {
                if i > 0 {
                    let a = choose|a: int| 0 <= a < i && (#[trigger] keys@[a]).0 == min_sub_x;
                    let b = choose|a: int| 0 <= a < i && (#[trigger] keys@[a]).1 == min_sub_z;
                    let c = choose|a: int| 0 <= a < i && (#[trigger] keys@[a]).0 == max_sub_x;
                    let d = choose|a: int| 0 <= a < i && (#[trigger] keys@[a]).1 == max_sub_z;
                    assert(0 <= a < i + 1 && 0 <= b < i + 1 && 0 <= c < i + 1 && 0 <= d < i + 1);
                }
                assert(keys@[i as int] == p);
            }
            if p.0 < min_sub_x {
                min_sub_x = p.0
            }
            if p.1 < min_sub_z {
                min_sub_z = p.1
            }
            if p.0 > max_sub_x {
                max_sub_x = p.0
            }
            if p.1 > max_sub_z {
                max_sub_z = p.1
            }
            i = i + 1;
        }
        proof {
            let chunks = self.chunks();
            if keys.len() == 0 {
                assert forall|k: (int, int)| !chunks.contains(k) by {
                    if chunks.contains(k) {
                        assert(keys@.contains(index_key(k)));
                    }
                }
            } else {
                assert(keys@.contains(keys@[0]));
                assert(chunks.contains(key_index(keys@[0])));
                assert forall|k: (int, int)| chunks.contains(k) implies min_sub_x <= k.0
                    <= max_sub_x && min_sub_z <= k.1 <= max_sub_z by {
                    assert(keys@.contains(index_key(k)));
                    let n = keys@.index_of(index_key(k));
                    assert(keys@[n] == index_key(k));
                }
                let a = choose|a: int| 0 <= a < i && (#[trigger] keys@[a]).0 == min_sub_x;
                let b = choose|a: int| 0 <= a < i && (#[trigger] keys@[a]).1 == min_sub_z;
                let c = choose|a: int| 0 <= a < i && (#[trigger] keys@[a]).0 == max_sub_x;
                let d = choose|a: int| 0 <= a < i && (#[trigger] keys@[a]).1 == max_sub_z;
                assert(keys@.contains(keys@[a]) && keys@.contains(keys@[b]) && keys@.contains(
                    keys@[c],
                ) && keys@.contains(keys@[d]));
                assert(chunks.contains(key_index(keys@[a])) && key_index(keys@[a]).0 == min_sub_x);
                assert(chunks.contains(key_index(keys@[b])) && key_index(keys@[b]).1 == min_sub_z);
                assert(chunks.contains(key_index(keys@[c])) && key_index(keys@[c]).0 == max_sub_x);
                assert(chunks.contains(key_index(keys@[d])) && key_index(keys@[d]).1 == max_sub_z);
            }
        }
        (SubGridIndex::new(min_sub_x, min_sub_z), SubGridIndex::new(max_sub_x, max_sub_z))
    }

    /// The corners of the allocated region, in cells.
    pub fn find_grid_point_bounds(&self) -> (r: (Point, Point))
        requires
            self.wf(),
            self.has_chunks(),
            self.corners_fit(),
        ensures
            self.is_point_bounds(r.0@, r.1@),
    {
        let (min_sub, max_sub) = self.find_subgrid_index_bounds();
        let l_i: isize = L as isize;
        assert(is_cell((min_sub.x * L, min_sub.z * L)) && is_cell(
            (max_sub.x * L + L, max_sub.z * L + L),
        )) by {
            let chunks = self.chunks();
            let a = choose|k: (int, int)| chunks.contains(k) && k.0 == min_sub.x;
            let b = choose|k: (int, int)| chunks.contains(k) && k.1 == min_sub.z;
            let c = choose|k: (int, int)| chunks.contains(k) && k.0 == max_sub.x;
            let d = choose|k: (int, int)| chunks.contains(k) && k.1 == max_sub.z;
            assert(is_cell((a.0 * L, a.1 * L)) && is_cell((b.0 * L, b.1 * L)));
            assert(is_cell((c.0 * L + L, c.1 * L + L)) && is_cell((d.0 * L + L, d.1 * L + L)));
        }
        let min_x = min_sub.x * l_i;
        let min_z = min_sub.z * l_i;
        let max_x = max_sub.x * l_i + l_i;
        let max_z = max_sub.z * l_i + l_i;
        assert(is_chunk_bounds(self.chunks(), min_sub@, max_sub@));
        (Point::new(min_x, min_z), Point::new(max_x, max_z))
    }

    /// The corners of the allocated region, in cells, if there is such a
    /// region and the machine can hold them.
    pub fn checked_grid_point_bounds(&self) -> (r: Option<(Point, Point)>)
        requires
            self.wf(),
        ensures
            r is Some <==> self.has_chunks() && self.corners_fit(),
            r matches Some(b) ==> self.is_point_bounds(b.0@, b.1@),
    {
        if self.is_empty() {
            return None;
        }
        let (min_sub, max_sub) = self.find_subgrid_index_bounds();
        let l_i: isize = L as isize;
        let low_x = min_sub.x.checked_mul(l_i);
        let low_z = min_sub.z.checked_mul(l_i);
        let high_x = match max_sub.x.checked_mul(l_i) {
            Some(x) => x.checked_add(l_i),
            None => None,
        };
        let high_z = match max_sub.z.checked_mul(l_i) {
            Some(z) => z.checked_add(l_i),
            None => None,
        };
        let fits = low_x.is_some() && low_z.is_some() && high_x.is_some() && high_z.is_some();
        proof {
            assert(max_sub.x * l_i <= max_sub.x * l_i + l_i);
            lemma_between(min_sub.x as int, max_sub.x as int, max_sub.x as int, l_i as int);
            lemma_between(min_sub.z as int, max_sub.z as int, max_sub.z as int, l_i as int);
            assert(low_x is Some <==> crate::point::is_coord(min_sub.x * L));
            assert(low_z is Some <==> crate::point::is_coord(min_sub.z * L));
            assert(low_x is Some ==> (high_x is Some <==> crate::point::is_coord(
                max_sub.x * L + L,
            )));
            assert(low_z is Some ==> (high_z is Some <==> crate::point::is_coord(
                max_sub.z * L + L,
            )));
        }
        proof {
            let chunks = self.chunks();
            let l = L as int;
            if fits {
                assert forall|k: (int, int)| chunks.contains(k) implies is_cell((k.0 * L, k.1 * L))
                    && is_cell((k.0 * L + L, k.1 * L + L)) by {
                    lemma_between(min_sub.x as int, k.0, max_sub.x as int, l);
                    lemma_between(min_sub.z as int, k.1, max_sub.z as int, l);
                }
            } else {
                let a = choose|k: (int, int)| chunks.contains(k) && k.0 == min_sub.x;
                let b = choose|k: (int, int)| chunks.contains(k) && k.1 == min_sub.z;
                let c = choose|k: (int, int)| chunks.contains(k) && k.0 == max_sub.x;
                let d = choose|k: (int, int)| chunks.contains(k) && k.1 == max_sub.z;
                assert(a.0 * L == min_sub.x * L && b.1 * L == min_sub.z * L);
                assert(c.0 * L + L == max_sub.x * L + L && d.1 * L + L == max_sub.z * L + L);
                assert(!(is_cell((a.0 * L, a.1 * L)) && is_cell((b.0 * L, b.1 * L)) && is_cell(
                    (c.0 * L + L, c.1 * L + L),
                ) && is_cell((d.0 * L + L, d.1 * L + L))));
            }
        }
        if fits {
            Some(self.find_grid_point_bounds())
        } else {
            None
        }
    }

    /// The number of cells of the allocated region on each axis.
    pub fn find_grid_length(&self) -> (r: GridLength)
        requires
            self.wf(),
            self.has_chunks(),
            self.spans_fit(),
        ensures
            self.is_grid_length(r),
    {
        let (min_sub, max_sub) = self.find_subgrid_index_bounds();
        proof {
            let chunks = self.chunks();
            let a = choose|k: (int, int)| chunks.contains(k) && k.0 == min_sub.x;
            let b = choose|k: (int, int)| chunks.contains(k) && k.1 == min_sub.z;
            let c = choose|k: (int, int)| chunks.contains(k) && k.0 == max_sub.x;
            let d = choose|k: (int, int)| chunks.contains(k) && k.1 == max_sub.z;
            assert((c.0 - a.0) * L + L <= usize::MAX);
            assert((d.1 - b.1) * L + L <= usize::MAX);
            lemma_span(max_sub.x - min_sub.x, L as int);
            lemma_span(max_sub.z - min_sub.z, L as int);
        }
        let span_x: usize = (max_sub.x as i128 - min_sub.x as i128) as usize;
        let span_z: usize = (max_sub.z as i128 - min_sub.z as i128) as usize;
        let range_x = span_x * L + L;
        let range_z = span_z * L + L;
        assert(is_chunk_bounds(self.chunks(), min_sub@, max_sub@));
        GridLength::new(range_x, range_z)
    }

    /// The number of cells of the allocated region on each axis, if there
    /// is such a region and the machine can count them.
    pub fn checked_grid_length(&self) -> (r: Option<GridLength>)
        requires
            self.wf(),
        ensures
            r is Some <==> self.has_chunks() && self.spans_fit(),
            r matches Some(len) ==> self.is_grid_length(len),
    {
        if self.is_empty() {
            return None;
        }
        let (min_sub, max_sub) = self.find_subgrid_index_bounds();
        let span_x: u128 = (max_sub.x as i128 - min_sub.x as i128) as u128;
        let span_z: u128 = (max_sub.z as i128 - min_sub.z as i128) as u128;
        proof {
            lemma_product_fits(span_x as int, L as int);
            lemma_product_fits(span_z as int, L as int);
        }
        let range_x: u128 = span_x * (L as u128) + (L as u128);
        let range_z: u128 = span_z * (L as u128) + (L as u128);
        let fits = range_x <= usize::MAX as u128 && range_z <= usize::MAX as u128;
        proof {
            let chunks = self.chunks();
            let l = L as int;
            if fits {
                assert forall|a: (int, int), b: (int, int)|
                    chunks.contains(a) && chunks.contains(b) implies (b.0 - a.0) * L + L
                    <= usize::MAX && (b.1 - a.1) * L + L <= usize::MAX by {
                    lemma_between(-(span_x as int), b.0 - a.0, span_x as int, l);
                    lemma_between(-(span_z as int), b.1 - a.1, span_z as int, l);
                }
            } else {
                let a = choose|k: (int, int)| chunks.contains(k) && k.0 == min_sub.x;
                let b = choose|k: (int, int)| chunks.contains(k) && k.1 == min_sub.z;
                let c = choose|k: (int, int)| chunks.contains(k) && k.0 == max_sub.x;
                let d = choose|k: (int, int)| chunks.contains(k) && k.1 == max_sub.z;
                assert(!((c.0 - a.0) * L + L <= usize::MAX && (d.1 - b.1) * L + L <= usize::MAX));
            }
        }
        if fits {
            Some(self.find_grid_length())
        } else {
            None
        }
    }

    /// The cell at `p`, whose chunk is allocated now with default cells if
    /// it was not there.
    pub fn get_or_expand(&mut self, p: &Point) -> (r: &T)
        requires
            old(self).wf(),
        ensures
            final(self).wf(),
            final(self).cell(p@) == Some(*r),
            old(self).cell(p@) matches Some(v) ==> *r == v,
            old(self).cell(p@) is None ==> is_default(*r),
            old(self).chunk_put(
                chunk_index(p@, L as int),
                final(self).chunk(chunk_index(p@, L as int)),
                final(self),
            ),
            old(self).chunks().contains(chunk_index(p@, L as int)) ==> final(self).chunk(
                chunk_index(p@, L as int),
            ) == old(self).chunk(chunk_index(p@, L as int)),
    {
        proof {
            crate::point::lemma_round_trip(p@, L as int);
        }
        let sub = self.get_subgrid_or_expand(p);
        sub.get(&p.to_subgrid_point(L as isize))
    }

    /// The cell at `p` in a chunk that is known to hold it.
    pub fn get_in_subgrid<'a>(&self, sub: &'a SubGrid<T, L>, p: &Point) -> (r: &'a T)
        requires
            valid_side(L),
            sub.wf(),
        ensures
            *r == sub@[local_offset(p@, L as int).0][local_offset(p@, L as int).1],
    {
        sub.get(&p.to_subgrid_point(L as isize))
    }

    /// A grid with the same chunks, whose every cell is a copy of the cell
    /// of this grid at the same place, as `T::clone` makes it. The copy
    /// keeps no scan set.
    pub fn clone(&self) -> (r: Self) where T: Clone
        requires
            self.wf(),
        ensures
            r.wf(),
            r.chunks() == self.chunks(),
            r.scan_cache() is None,
            forall|k: (int, int), x: int, z: int|
                self.chunks().contains(k) && 0 <= x < L && 0 <= z < L ==> call_ensures(
                    T::clone,
                    (&self.chunk(k)[x][z],),
                    #[trigger] r.chunk(k)[x][z],
                ),
    {
        let mut values: FxHashMap<Key, SubGrid<T, L>> = FxHashMap::default();
        let keys = map_keys(&self.values);
        let mut i: usize = 0;
        while i < keys.len()
            invariant
                i <= keys.len(),
                self.wf(),
                forall|k: Key| keys@.contains(k) <==> self.values@.contains_key(k),
                forall|k: Key|
                    values@.contains_key(k) <==> exists|a: int| 0 <= a < i && #[trigger] keys@[a] == k,
                forall|k: Key| values@.contains_key(k) ==> (#[trigger] values@[k]).wf(),
                forall|k: Key, x: int, z: int|
                    values@.contains_key(k) && 0 <= x < L && 0 <= z < L ==> call_ensures(
                        T::clone,
                        (&self.values@[k]@[x][z],),
                        #[trigger] values@[k]@[x][z],
                    ),
            decreases keys.len() - i,
        {
            let k = keys[i];
            assert(keys@.contains(keys@[i as int]));
            match map_get(&self.values, k) {
                Some(v) => {
                    let copy = v.clone();
                    let ghost before = values@;
                    map_insert(&mut values, k, copy);
                    assert forall|q: Key| values@.contains_key(q) implies exists|a: int|
                        0 <= a < i + 1 && #[trigger] keys@[a] == q by {
                        if q != k {
                            let a = choose|a: int| 0 <= a < i && #[trigger] keys@[a] == q;
                            assert(0 <= a < i + 1);
                        }
                    }
                },
                None => {},
            }
            i = i + 1;
        }
        let r = Grid { values, to_scan: None };
        proof {
            assert forall|k: (int, int)| r.chunks().contains(k) <==> self.chunks().contains(k) by {
                let q = index_key(k);
                if self.chunks().contains(k) {
                    assert(keys@.contains(q));
                    let a = keys@.index_of(q);
                    assert(keys@[a] == q);
                }
                if r.chunks().contains(k) {
                    let a = choose|a: int| 0 <= a < i && #[trigger] keys@[a] == q;
                    assert(keys@.contains(keys@[a]));
                }
            }
            assert(r.chunks() =~= self.chunks());
        }
        r
    }

    /// Forgets the scan set, so that the next step computes it anew.
    pub fn invalidate_subgrids_to_scan(&mut self)
        requires
            old(self).wf(),
        ensures
            final(self).wf(),
            final(self).same_cells(old(self)),
            final(self).scan_cache() is None,
    {
        self.to_scan = None;
        assert(self.chunks() =~= old(self).chunks());
    }

    /// The chunks that the next step has to visit: every allocated chunk
    /// and every chunk that touches one, each once. The list is the one
    /// kept from the last call if no chunk has been allocated since;
    /// otherwise it is computed, in an order that is not fixed, and kept.
    pub fn subgrids_to_scan(&mut self) -> (r: Vec<SubGridIndex>)
        requires
            old(self).wf(),
        ensures
            final(self).wf(),
            final(self).same_cells(old(self)),
            is_scan_set(index_coords(r@), old(self).chunks()),
            old(self).scan_cache() matches Some(s) ==> index_coords(r@) == s,
            final(self).scan_cache() == Some(index_coords(r@)),
    {
        match &self.to_scan {
            Some(v) => {
                return copy_indices(v);
            },
            None => {},
        }
        let keys = map_keys(&self.values);
        let mut checked_neighbors: FxHashSet<Key> = FxHashSet::default();
        let mut to_scan: Vec<SubGridIndex> = Vec::new();
        let ghost vals = self.values@;
        let ghost alloc = self.chunks();
        let mut i: usize = 0;
        while i < keys.len()
            invariant
                i <= keys.len(),
                vals == self.values@,
                alloc == self.chunks(),
                forall|k: Key| keys@.contains(k) <==> vals.contains_key(k),
                keys@.no_duplicates(),
                index_coords(to_scan@).no_duplicates(),
                forall|q: (int, int)|
                    index_coords(to_scan@).contains(q) ==> in_scan_region(alloc, q),
                forall|q: (int, int)|
                    index_coords(to_scan@).contains(q) && !alloc.contains(q)
                        ==> checked_neighbors@.contains(index_key(q)),
                forall|q: (int, int)|
                    index_coords(to_scan@).contains(q) && alloc.contains(q) ==> keys@.index_of(
                        index_key(q),
                    ) < i,
                forall|k: Key|
                    checked_neighbors@.contains(k) ==> index_coords(to_scan@).contains(
                        key_index(k),
                    ),
                forall|a: int, q: (int, int)|
                    0 <= a < i && is_cell(q) && !alloc.contains(q) && #[trigger] adjacent(
                        key_index(keys@[a]),
                        q,
                    ) ==> index_coords(to_scan@).contains(q),
                forall|a: int|
                    0 <= a < i ==> index_coords(to_scan@).contains(key_index(#[trigger] keys@[a])),
            decreases keys.len() - i,
        {
            let key = keys[i];
            let sub_index = SubGridIndex::new(key.0, key.1);
            proof {
                assert(keys@.contains(keys@[i as int]));
                assert(alloc.contains(sub_index@));
                assert(index_key(sub_index@) == key);
                assert(keys@[keys@.index_of(key)] == key);
                assert(adjacent(sub_index@, sub_index@));
                lemma_index_push(to_scan@, sub_index);
            }
            to_scan.push(sub_index.copy());
            let nbrs = adjacent_indices(&sub_index);
            let ghost near = index_coords(nbrs@);
            let mut j: usize = 0;
            while j < nbrs.len()
                invariant
                    j <= nbrs.len(),
                    i < keys.len(),
                    key == keys@[i as int],
                    sub_index@ == key_index(key),
                    alloc.contains(sub_index@),
                    near == index_coords(nbrs@),
                    vals == self.values@,
                    alloc == self.chunks(),
                    forall|k: Key| keys@.contains(k) <==> vals.contains_key(k),
                    keys@.no_duplicates(),
                    forall|q: (int, int)|
                        near.contains(q) <==> is_cell(q) && adjacent(sub_index@, q) && q
                            != sub_index@,
                    index_coords(to_scan@).no_duplicates(),
                    forall|q: (int, int)|
                        index_coords(to_scan@).contains(q) ==> in_scan_region(alloc, q),
                    forall|q: (int, int)|
                        index_coords(to_scan@).contains(q) && !alloc.contains(q)
                            ==> checked_neighbors@.contains(index_key(q)),
                    forall|q: (int, int)|
                        index_coords(to_scan@).contains(q) && alloc.contains(q)
                            ==> keys@.index_of(index_key(q)) < i + 1,
                    forall|k: Key|
                        checked_neighbors@.contains(k) ==> index_coords(to_scan@).contains(
                            key_index(k),
                        ),
                    forall|a: int, q: (int, int)|
                        0 <= a < i && is_cell(q) && !alloc.contains(q) && #[trigger] adjacent(
                            key_index(keys@[a]),
                            q,
                        ) ==> index_coords(to_scan@).contains(q),
                    forall|a: int|
                        0 <= a < i + 1 ==> index_coords(to_scan@).contains(
                            key_index(#[trigger] keys@[a]),
                        ),
                    forall|b: int|
                        0 <= b < j && !alloc.contains(near[b]) ==> index_coords(
                            to_scan@,
                        ).contains(#[trigger] near[b]),
                decreases nbrs.len() - j,
            {
                let neighbor = nbrs[j];
                let nkey: Key = (neighbor.x, neighbor.z);
                proof {
                    assert(near[j as int] == neighbor@);
                    assert(near.contains(near[j as int]));
                    assert(index_key(neighbor@) == nkey);
                    assert(key_index(nkey) == neighbor@);
                    assert(alloc.contains(neighbor@) <==> vals.contains_key(nkey));
                }
                if map_contains(&self.values, nkey) || set_contains(&checked_neighbors, nkey) {
                } else {
                    proof {
                        lemma_index_push(to_scan@, neighbor);
                        assert(adjacent(sub_index@, neighbor@));
                    }
                    set_insert(&mut checked_neighbors, nkey);
                    to_scan.push(neighbor.copy());
                }
                j = j + 1;
            }
            proof {
                assert forall|a: int, q: (int, int)|
                    0 <= a < i + 1 && is_cell(q) && !alloc.contains(q) && #[trigger] adjacent(
                        key_index(keys@[a]),
                        q,
                    ) implies index_coords(to_scan@).contains(q) by {
                    if a == i {
                        assert(near.contains(q));
                        let b = choose|b: int| 0 <= b < near.len() && near[b] == q;
                        assert(index_coords(to_scan@).contains(near[b]));
                    }
                }
            }
            i = i + 1;
        }
        proof {
            assert forall|q: (int, int)| in_scan_region(alloc, q) implies index_coords(
                to_scan@,
            ).contains(q) by {
                let a = if alloc.contains(q) {
                    q
                } else {
                    choose|a: (int, int)| alloc.contains(a) && #[trigger] adjacent(a, q)
                };
                let ka: Key = index_key(a);
                assert(keys@.contains(ka));
                let n = keys@.index_of(ka);
                assert(keys@[n] == ka);
                assert(key_index(keys@[n]) == a);
                assert(adjacent(key_index(keys@[n]), q));
            }
        }
        self.to_scan = Some(copy_indices(&to_scan));
        assert(self.chunks() =~= old(self).chunks());
        to_scan
    }

    /// The value at `p`, or nothing if the chunk of `p` was never
    /// allocated.
    pub fn get(&self, p: &Point) -> (r: Option<&T>)
        requires
            self.wf(),
        ensures
            r == as_ref(self.cell(p@)),
    {
        match self.get_subgrid(p) {
            None => None,
            Some(sub) => Some(sub.get(&p.to_subgrid_point(L as isize))),
        }
    }
}

} // verus!
