//! The generation step: every cell of the scan set is read against the
//! grid as it stands, and only then are the collected updates written.

use vstd::prelude::*;
use crate::grid::{as_ref, valid_side, Grid};
use crate::neighbors::index_coords;
use crate::point::{chunk_index, is_cell, lemma_split_unique, Offset, Point, SubGridIndex};
use crate::scan::is_scan_set;
use crate::subgrid::{is_default, SubGrid};

verus! {

/// A cell to rewrite, and the function that gives its next value from the
/// value it holds when the update is applied; `None` from the function
/// resets the cell to the default.
pub struct Update<F> {
    pub p: Point,
    pub f: F,
}

impl<F> Update<F> {
    pub fn new(p: Point, f: F) -> (r: Self)
        ensures
            r.p == p,
            r.f == f,
    {
        Self { p, f }
    }
}

/// What the grid holds at each of the cells reached from `c` by `offs`, in
/// the order of `offs`.
pub open spec fn values_near<'a, T: Default, const L: usize>(
    g: &Grid<T, L>,
    c: (int, int),
    offs: Seq<Offset>,
) -> Seq<Option<&'a T>> {
    Seq::new(offs.len(), |i: int| as_ref(g.cell((c.0 + offs[i].x, c.1 + offs[i].z))))
}

/// Whether `batch` is what the rule may answer for the cell `p` of `g`: the
/// visitor names the neighbors, and the rule sees `p`, its value and its
/// neighbors' values, all as `g` holds them.
pub open spec fn rule_yields<
    T: Default,
    const L: usize,
    F,
    FVisit: Fn(&Point) -> &Vec<Offset>,
    FUpdate: Fn(&Point, Option<&T>, Vec<Option<&T>>) -> Vec<Update<F>>,
>(g: &Grid<T, L>, p: Point, visitor: &FVisit, updater: &FUpdate, batch: Seq<Update<F>>) -> bool {
    exists|offs: &Vec<Offset>, near: Vec<Option<&T>>, out: Vec<Update<F>>|
        #![trigger call_ensures(*visitor, (&p,), offs), call_ensures(*updater, (&p, as_ref(g.cell(p@)), near), out)]
        call_ensures(*visitor, (&p,), offs) && near@ == values_near(g, p@, offs@)
            && call_ensures(*updater, (&p, as_ref(g.cell(p@)), near), out) && out@ == batch
}

/// The coordinates of every chunk of `scan` in the order of a step: chunk
/// after chunk, and in a chunk of side `l` by rising `x`, and for each `x`
/// by rising `z`. Coordinates that the machine cannot hold are listed too.
pub open spec fn visit(scan: Seq<(int, int)>, l: int) -> Seq<(int, int)> {
    Seq::new(
        (scan.len() * l * l) as nat,
        |n: int|
            {
                let k = scan[n / (l * l)];
                let r = n % (l * l);
                (k.0 * l + r / l, k.1 * l + r % l)
            },
    )
}

/// The cell at a coordinate that the machine can hold.
pub open spec fn point_at(c: (int, int)) -> Point {
    Point { x: c.0 as isize, z: c.1 as isize }
}

/// Whether `batches` holds, for each coordinate of `pts` in turn, what the
/// rule may answer for that cell of `g`; a coordinate that the machine
/// cannot hold is no cell and has an empty batch.
pub open spec fn reads<
    T: Default,
    const L: usize,
    F,
    FVisit: Fn(&Point) -> &Vec<Offset>,
    FUpdate: Fn(&Point, Option<&T>, Vec<Option<&T>>) -> Vec<Update<F>>,
>(
    g: &Grid<T, L>,
    pts: Seq<(int, int)>,
    visitor: &FVisit,
    updater: &FUpdate,
    batches: Seq<Seq<Update<F>>>,
) -> bool {
    &&& batches.len() == pts.len()
    &&& forall|n: int|
        0 <= n < pts.len() ==> if is_cell(pts[n]) {
            rule_yields(g, point_at(pts[n]), visitor, updater, #[trigger] batches[n])
        } else {
            (#[trigger] batches[n]).len() == 0
        }
}

/// Whether `post` is `pre` after the one update `u` was applied: the
/// function of `u` saw what `pre` holds at the cell of `u`, and what it
/// answered, or a default value if it answered `None`, was written there.
pub open spec fn write_step<T: Default, const L: usize, F: Fn(Option<&T>) -> Option<T>>(
    pre: &Grid<T, L>,
    u: Update<F>,
    post: &Grid<T, L>,
) -> bool {
    exists|next: Option<T>, v: T|
        #![trigger call_ensures(u.f, (as_ref(pre.cell(u.p@)),), next), pre.sets(u.p@, v, post)]
        call_ensures(u.f, (as_ref(pre.cell(u.p@)),), next) && (match next {
            Some(w) => v == w,
            None => is_default(v),
        }) && pre.sets(u.p@, v, post)
}

/// Whether `states` lists the grid before the first update of `ups`, and
/// then after each update in turn.
pub open spec fn write_trace<T: Default, const L: usize, F: Fn(Option<&T>) -> Option<T>>(
    states: Seq<Grid<T, L>>,
    ups: Seq<Update<F>>,
) -> bool {
    &&& states.len() == ups.len() + 1
    &&& forall|i: int|
        0 <= i < ups.len() ==> write_step(&states[i], #[trigger] ups[i], &states[i + 1])
}

/// Whether `post` is `pre` after the scan set `scan` was asked for: the
/// same cells, `scan` right for the chunks of `pre`, equal to the list
/// that `pre` kept if it kept one, and kept by `post`.
pub open spec fn scanned<T: Default, const L: usize>(
    pre: &Grid<T, L>,
    scan: Seq<(int, int)>,
    post: &Grid<T, L>,
) -> bool {
    &&& post.wf()
    &&& post.same_cells(pre)
    &&& is_scan_set(scan, pre.chunks())
    &&& pre.scan_cache() matches Some(s) ==> scan == s
    &&& post.scan_cache() == Some(scan)
}

/// Whether one whole step leads from `pre` to `post`: the scan set `scan`
/// is fixed, then every cell of it is read against the grid as it stood
/// before the step, which gives `batches`, and only then are the updates
/// of all the batches written, one after the other, through `states`.
pub open spec fn steps<
    T: Default,
    const L: usize,
    F: Fn(Option<&T>) -> Option<T>,
    FVisit: Fn(&Point) -> &Vec<Offset>,
    FUpdate: Fn(&Point, Option<&T>, Vec<Option<&T>>) -> Vec<Update<F>>,
>(
    pre: &Grid<T, L>,
    scan: Seq<(int, int)>,
    batches: Seq<Seq<Update<F>>>,
    states: Seq<Grid<T, L>>,
    visitor: &FVisit,
    updater: &FUpdate,
    post: &Grid<T, L>,
) -> bool {
    &&& states.len() > 0
    &&& scanned(pre, scan, &states[0])
    &&& reads(pre, visit(scan, L as int), visitor, updater, batches)
    &&& write_trace(states, batches.flatten())
    &&& states.last() == *post
}

/// In the write phase an update reads its cell as the grid held it before
/// the first write, unless an earlier update of the same step named the
/// same cell: a value that was there is still there, and a cell that was
/// absent is absent or holds a default value.
pub proof fn lemma_write_sees_snapshot<T: Default, const L: usize, F: Fn(Option<&T>) -> Option<T>>(
    states: Seq<Grid<T, L>>,
    ups: Seq<Update<F>>,
    i: int,
    c: (int, int),
)
    requires
        write_trace(states, ups),
        0 <= i <= ups.len(),
        forall|j: int| 0 <= j < i ==> (#[trigger] ups[j]).p@ != c,
    ensures
        states[0].cell(c) is Some ==> states[i].cell(c) == states[0].cell(c),
        states[0].cell(c) is None ==> states[i].cell(c) is None || is_default(
            states[i].cell(c)->Some_0,
        ),
    decreases i,
{
    if i > 0 {
        lemma_write_sees_snapshot(states, ups, i - 1, c);
        assert(write_step(&states[i - 1], ups[i - 1], &states[i]));
    }
}

/// Whether `f` answers each value in one way only.
pub open spec fn single_valued<T, F: Fn(Option<&T>) -> Option<T>>(f: F) -> bool {
    forall|v: Option<&T>, a: Option<T>, b: Option<T>|
        #![trigger call_ensures(f, (v,), a), call_ensures(f, (v,), b)]
        call_ensures(f, (v,), a) && call_ensures(f, (v,), b) ==> a == b
}

/// Whether `T` has one default value only.
pub open spec fn one_default<T: Default>() -> bool {
    forall|a: T, b: T| #![trigger is_default(a), is_default(b)] is_default(a) && is_default(b) ==> a == b
}

/// Two updates of one step that name different cells, both in chunks that
/// are there already, leave the same grid in whichever order they are
/// written, if their functions and the default are single-valued: neither
/// sees what the other wrote.
pub proof fn lemma_update_order<T: Default, const L: usize, F: Fn(Option<&T>) -> Option<T>>(
    g: &Grid<T, L>,
    u1: Update<F>,
    u2: Update<F>,
    first: &Grid<T, L>,
    first_second: &Grid<T, L>,
    second: &Grid<T, L>,
    second_first: &Grid<T, L>,
)
    requires
        u1.p@ != u2.p@,
        g.chunks().contains(chunk_index(u1.p@, L as int)),
        g.chunks().contains(chunk_index(u2.p@, L as int)),
        single_valued::<T, F>(u1.f),
        single_valued::<T, F>(u2.f),
        one_default::<T>(),
        write_step(g, u1, first),
        write_step(first, u2, first_second),
        write_step(g, u2, second),
        write_step(second, u1, second_first),
    ensures
        first_second.chunks() == second_first.chunks(),
        forall|c: (int, int)| first_second.cell(c) == second_first.cell(c),
        first_second@ == second_first@,
{
    assert(first.cell(u2.p@) == g.cell(u2.p@));
    assert(second.cell(u1.p@) == g.cell(u1.p@));
    assert(first_second.chunks() =~= second_first.chunks());
    assert(first_second@ =~= second_first@);
}

/// After a write that allocates a chunk no scan set is kept, and the scan
/// set of the next step lists the chunk; the order of that step holds the
/// cell that was written.
pub proof fn lemma_new_chunk_is_scanned<T: Default, const L: usize>(
    pre: &Grid<T, L>,
    c: (int, int),
    v: T,
    written: &Grid<T, L>,
    scan: Seq<(int, int)>,
    post: &Grid<T, L>,
)
    requires
        pre.sets(c, v, written),
        scanned(written, scan, post),
    ensures
        !pre.chunks().contains(chunk_index(c, L as int)) ==> written.scan_cache() is None,
        scan.contains(chunk_index(c, L as int)),
        visit(scan, L as int).contains(c),
{
    written.lemma_wf_side();
    let k = chunk_index(c, L as int);
    let o = crate::point::local_offset(c, L as int);
    crate::point::lemma_round_trip(c, L as int);
    crate::floor::lemma_floor_range(c.0, L as int);
    crate::floor::lemma_floor_range(c.1, L as int);
    assert(crate::scan::adjacent(k, k));
    assert(scan.contains(k));
    let n = choose|n: int| 0 <= n < scan.len() && scan[n] == k;
    lemma_visit_index(scan, L as int, n, o.0, o.1);
}

/// Grids that hold the same cells give the rule the same to read.
pub proof fn lemma_reads_same_cells<
    T: Default,
    const L: usize,
    F,
    FVisit: Fn(&Point) -> &Vec<Offset>,
    FUpdate: Fn(&Point, Option<&T>, Vec<Option<&T>>) -> Vec<Update<F>>,
>(
    g: &Grid<T, L>,
    h: &Grid<T, L>,
    pts: Seq<(int, int)>,
    visitor: &FVisit,
    updater: &FUpdate,
    batches: Seq<Seq<Update<F>>>,
)
    requires
        g.same_cells(h),
        reads(g, pts, visitor, updater, batches),
    ensures
        reads(h, pts, visitor, updater, batches),
{
    assert forall|n: int| 0 <= n < pts.len() && is_cell(pts[n]) implies rule_yields(
        h,
        point_at(pts[n]),
        visitor,
        updater,
        #[trigger] batches[n],
    ) by {
        let p = point_at(pts[n]);
        let (offs, near, out) = choose|
            offs: &Vec<Offset>,
            near: Vec<Option<&T>>,
            out: Vec<Update<F>>,
        |
            #![trigger call_ensures(*visitor, (&p,), offs), call_ensures(*updater, (&p, as_ref(g.cell(p@)), near), out)]
            call_ensures(*visitor, (&p,), offs) && near@ == values_near(g, p@, offs@)
                && call_ensures(*updater, (&p, as_ref(g.cell(p@)), near), out) && out@
                == batches[n];
        assert(values_near(g, p@, offs@) =~= values_near(h, p@, offs@));
    }
}

/// Every element of a flattened list stands in one of the lists.
pub proof fn lemma_flatten_member<A>(ss: Seq<Seq<A>>, i: int) -> (at: (int, int))
    requires
        0 <= i < ss.flatten().len(),
    ensures
        0 <= at.0 < ss.len(),
        0 <= at.1 < ss[at.0].len(),
        ss[at.0][at.1] == ss.flatten()[i],
    decreases ss.len(),
{
    if ss.len() == 0 {
        (0, 0)
    } else {
        let head = ss.drop_last();
        assert(ss =~= head.push(ss.last()));
        head.lemma_flatten_push(ss.last());
        if i < head.flatten().len() {
            lemma_flatten_member(head, i)
        } else {
            (ss.len() - 1, i - head.flatten().len())
        }
    }
}

/// Where the cell `(x, z)` of the chunk at index `n` of a scan list falls
/// in the order of a step.
pub proof fn lemma_visit_index(scan: Seq<(int, int)>, l: int, n: int, x: int, z: int)
    requires
        l > 0,
        0 <= n < scan.len(),
        0 <= x < l,
        0 <= z < l,
    ensures
        0 <= (n * l + x) * l + z < visit(scan, l).len(),
        visit(scan, l)[(n * l + x) * l + z] == (scan[n].0 * l + x, scan[n].1 * l + z),
        (n * l + l) * l == ((n + 1) * l) * l,
        (n * l + x) * l + l == (n * l + (x + 1)) * l,
{
    let m = (n * l + x) * l + z;
    let r = x * l + z;
    assert(0 <= r < l * l) by (nonlinear_arith)
        requires
            r == x * l + z,
            0 <= x <= l - 1,
            0 <= z <= l - 1,
    ;
    assert(m == n * (l * l) + r) by (nonlinear_arith)
        requires
            m == (n * l + x) * l + z,
            r == x * l + z,
    ;
    assert(l * l > 0) by (nonlinear_arith)
        requires
            l > 0,
    ;
    vstd::arithmetic::div_mod::lemma_fundamental_div_mod_converse(m, l * l, n, r);
    vstd::arithmetic::div_mod::lemma_fundamental_div_mod_converse(r, l, x, z);
    assert(0 <= m < scan.len() * l * l) by (nonlinear_arith)
        requires
            m == n * (l * l) + r,
            0 <= r < l * l,
            0 <= n < scan.len(),
    ;
    assert((n * l + l) * l == ((n + 1) * l) * l) by (nonlinear_arith);
    assert((n * l + x) * l + l == (n * l + (x + 1)) * l) by (nonlinear_arith);
}

/// The cell `(x, z)` of the chunk at `k`, for chunks of side `l`, if the
/// machine can hold its coordinate.
pub fn chunk_cell(k: &SubGridIndex, x: usize, z: usize, l: usize) -> (r: Option<Point>)
    requires
        valid_side(l),
        x < l,
        z < l,
    ensures
        is_cell((k.x * l + x, k.z * l + z)) ==> r == Some(point_at((k.x * l + x, k.z * l + z))),
        !is_cell((k.x * l + x, k.z * l + z)) ==> r is None,
        r matches Some(p) ==> chunk_index(p@, l as int) == k@,
{
    proof {
        assert(-0x4000_0000_0000_0000_0000_0000_0000_0000 <= k.x * l
            <= 0x4000_0000_0000_0000_0000_0000_0000_0000) by (nonlinear_arith)
            requires
                -0x8000_0000_0000_0000 <= k.x <= 0x8000_0000_0000_0000,
                0 <= l <= 0x8000_0000_0000_0000,
        ;
        assert(-0x4000_0000_0000_0000_0000_0000_0000_0000 <= k.z * l
            <= 0x4000_0000_0000_0000_0000_0000_0000_0000) by (nonlinear_arith)
            requires
                -0x8000_0000_0000_0000 <= k.z <= 0x8000_0000_0000_0000,
                0 <= l <= 0x8000_0000_0000_0000,
        ;
        lemma_split_unique(k@, (x as int, z as int), l as int);
    }
    let cx: i128 = (k.x as i128) * (l as i128) + (x as i128);
    let cz: i128 = (k.z as i128) * (l as i128) + (z as i128);
    if cx < isize::MIN as i128 || cx > isize::MAX as i128 || cz < isize::MIN as i128 || cz
        > isize::MAX as i128 {
        None
    } else {
        Some(Point::new(cx as isize, cz as isize))
    }
}

/// The two corners of the chunk at `k`, the cells of least and of greatest
/// coordinates, if the machine can hold both.
pub fn chunk_corners(k: &SubGridIndex, l: usize) -> (r: Option<(Point, Point)>)
    requires
        valid_side(l),
    ensures
        r matches Some(c) ==> c.0@ == (k.x * l, k.z * l) && c.1@ == (
            k.x * l + l - 1,
            k.z * l + l - 1,
        ),
        r matches Some(c) ==> forall|q: (int, int)|
            c.0.x <= q.0 <= c.1.x && c.0.z <= q.1 <= c.1.z ==> #[trigger] chunk_index(q, l as int)
                == k@,
        r is Some <==> is_cell((k.x * l, k.z * l)) && is_cell((k.x * l + l - 1, k.z * l + l - 1)),
{
    match (chunk_cell(k, 0, 0, l), chunk_cell(k, l - 1, l - 1, l)) {
        (Some(start), Some(end)) => {
            proof {
                assert forall|q: (int, int)|
                    start.x <= q.0 <= end.x && start.z <= q.1 <= end.z implies #[trigger] chunk_index(
                    q,
                    l as int,
                ) == k@ by {
                    lemma_split_unique(k@, (q.0 - k.x * l, q.1 - k.z * l), l as int);
                }
            }
            Some((start, end))
        },
        _ => None,
    }
}

impl<T: Default, const L: usize> Grid<T, L> {
    /// The read phase of a step: the updates that the rule answers for
    /// every cell of every chunk of `scan`, in the order of [`visit`], one
    /// batch after the other. The grid is only read.
    pub fn collect_updates<
        F,
        FVisit: Fn(&Point) -> &Vec<Offset>,
        FUpdate: Fn(&Point, Option<&T>, Vec<Option<&T>>) -> Vec<Update<F>>,
    >(&self, scan: &Vec<SubGridIndex>, visitor: &FVisit, updater: &FUpdate) -> (r: Vec<Update<F>>)
        requires
            self.wf(),
            forall|p: &Point| call_requires(*visitor, (p,)),
            forall|p: &Point, cur: Option<&T>, near: Vec<Option<&T>>|
                call_requires(*updater, (p, cur, near)),
        ensures
            exists|batches: Seq<Seq<Update<F>>>|
                #[trigger] reads(
                    self,
                    visit(index_coords(scan@), L as int),
                    visitor,
                    updater,
                    batches,
                ) && r@ == batches.flatten(),
    {
        proof {
            self.lemma_wf_side();
        }
        let ghost order = visit(index_coords(scan@), L as int);
        let ghost mut batches: Seq<Seq<Update<F>>> = Seq::empty();
        let mut updates: Vec<Update<F>> = Vec::new();
        let mut n: usize = 0;
        while n < scan.len()
            invariant
                n <= scan.len(),
                self.wf(),
                valid_side(L),
                order == visit(index_coords(scan@), L as int),
                forall|p: &Point| call_requires(*visitor, (p,)),
                forall|p: &Point, cur: Option<&T>, near: Vec<Option<&T>>|
                    call_requires(*updater, (p, cur, near)),
                batches.len() == (n * L) * L,
                reads(self, order.take(batches.len() as int), visitor, updater, batches),
                updates@ == batches.flatten(),
            decreases scan.len() - n,
        {
            let sub_index = &scan[n];
            let sub = self.subgrid_at(sub_index);
            let corners = chunk_corners(sub_index, L);
            let mut x: usize = 0;
            while x < L
                invariant
                    x <= L,
                    n < scan.len(),
                    self.wf(),
                    valid_side(L),
                    order == visit(index_coords(scan@), L as int),
                    *sub_index == scan@[n as int],
                    sub is Some <==> self.chunks().contains(sub_index@),
                    sub matches Some(s) ==> s.wf() && s@ == self.chunk(sub_index@),
                    corners matches Some(c) ==> forall|q: (int, int)|
                        c.0.x <= q.0 <= c.1.x && c.0.z <= q.1 <= c.1.z ==> #[trigger] chunk_index(
                            q,
                            L as int,
                        ) == sub_index@,
                    forall|p: &Point| call_requires(*visitor, (p,)),
                    forall|p: &Point, cur: Option<&T>, near: Vec<Option<&T>>|
                        call_requires(*updater, (p, cur, near)),
                    batches.len() == (n * L + x) * L,
                    reads(self, order.take(batches.len() as int), visitor, updater, batches),
                    updates@ == batches.flatten(),
                decreases L - x,
            {
                let mut z: usize = 0;
                while z < L
                    invariant
                        z <= L,
                        x < L,
                        n < scan.len(),
                        self.wf(),
                        valid_side(L),
                        order == visit(index_coords(scan@), L as int),
                        *sub_index == scan@[n as int],
                        sub is Some <==> self.chunks().contains(sub_index@),
                        sub matches Some(s) ==> s.wf() && s@ == self.chunk(sub_index@),
                        corners matches Some(c) ==> forall|q: (int, int)|
                            c.0.x <= q.0 <= c.1.x && c.0.z <= q.1 <= c.1.z
                                ==> #[trigger] chunk_index(q, L as int) == sub_index@,
                        forall|p: &Point| call_requires(*visitor, (p,)),
                        forall|p: &Point, cur: Option<&T>, near: Vec<Option<&T>>|
                            call_requires(*updater, (p, cur, near)),
                        batches.len() == (n * L + x) * L + z,
                        reads(self, order.take(batches.len() as int), visitor, updater, batches),
                        updates@ == batches.flatten(),
                    decreases L - z,
                {
                    let ghost before = batches;
                    let ghost at = batches.len() as int;
                    proof {
                        lemma_visit_index(
                            index_coords(scan@),
                            L as int,
                            n as int,
                            x as int,
                            z as int,
                        );
                    }
                    match chunk_cell(sub_index, x, z, L) {
                        Some(point) => {
                            let mut batch = self.read_cell(
                                sub,
                                sub_index,
                                &corners,
                                &point,
                                visitor,
                                updater,
                            );
                            proof {
                                batches = batches.push(batch@);
                            }
                            updates.append(&mut batch);
                        },
                        None => {
                            proof {
                                batches = batches.push(Seq::empty());
                            }
                        },
                    }
                    proof {
                        before.lemma_flatten_push(batches[at]);
                    }
                    z = z + 1;
                }
                proof {
                    lemma_visit_index(index_coords(scan@), L as int, n as int, x as int, 0);
                }
                x = x + 1;
            }
            proof {
                lemma_visit_index(index_coords(scan@), L as int, n as int, 0, 0);
            }
            n = n + 1;
        }
        proof {
            assert(order.len() == (scan.len() * L) * L);
            assert(order.take(order.len() as int) =~= order);
        }
        updates
    }

    /// The write phase of a step: each update in turn reads the cell it
    /// names, computes the next value and writes it; `None` resets the
    /// cell to the default. A cell whose chunk is not there yet gets one.
    pub fn apply_updates<F: Fn(Option<&T>) -> Option<T>>(&mut self, updates: &Vec<Update<F>>)
        requires
            old(self).wf(),
            forall|i: int, v: Option<&T>|
                0 <= i < updates.len() ==> #[trigger] call_requires(updates[i].f, (v,)),
        ensures
            final(self).wf(),
            exists|states: Seq<Grid<T, L>>|
                #[trigger] write_trace(states, updates@) && states[0] == *old(self)
                    && states.last() == *final(self),
    {
        let ghost mut states: Seq<Grid<T, L>> = seq![*self];
        let mut i: usize = 0;
        while i < updates.len()
            invariant
                i <= updates.len(),
                self.wf(),
                forall|i: int, v: Option<&T>|
                    0 <= i < updates.len() ==> #[trigger] call_requires(updates[i].f, (v,)),
                write_trace(states, updates@.take(i as int)),
                states[0] == *old(self),
                states.last() == *self,
            decreases updates.len() - i,
        {
            let update = &updates[i];
            let ghost before = *self;
            let old_value = self.get(&update.p);
            let new_value = (update.f)(old_value);
            let value = new_value.unwrap_or_default();
            self.set(&update.p, value);
            proof {
                states = states.push(*self);
                assert(write_step(&before, *update, self));
            }
            i = i + 1;
        }
        assert(updates@.take(updates.len() as int) =~= updates@);
    }

    /// One generation step. The scan set is taken from the cache or
    /// computed; the rule is asked about every cell of it, each seen
    /// together with its neighbors as the grid stood before the step; then
    /// all the updates that the rule gave are written. No update is
    /// written before the last cell is read.
    ///
    /// The scan covers whole chunks, the allocated ones and those that
    /// touch them, and no margin of cells beyond: a rule that looks no
    /// further than the cells that touch a cell finds every cell near a
    /// written one in it. A coordinate that the machine cannot hold is no
    /// cell: it is not visited, and as a neighbor it reads as absent.
    pub fn tick<
        F: Fn(Option<&T>) -> Option<T>,
        FVisit: Fn(&Point) -> &Vec<Offset>,
        FUpdate: Fn(&Point, Option<&T>, Vec<Option<&T>>) -> Vec<Update<F>>,
    >(&mut self, visitor: FVisit, updater: FUpdate)
        requires
            old(self).wf(),
            forall|p: &Point| call_requires(visitor, (p,)),
            forall|p: &Point, cur: Option<&T>, near: Vec<Option<&T>>|
                call_requires(updater, (p, cur, near)),
            forall|p: &Point, cur: Option<&T>, near: Vec<Option<&T>>, out: Vec<Update<F>>, i: int, v: Option<&T>|
                #![trigger call_ensures(updater, (p, cur, near), out), call_requires(out[i].f, (v,))]
                call_ensures(updater, (p, cur, near), out) && 0 <= i < out.len() ==> call_requires(
                    out[i].f,
                    (v,),
                ),
        ensures
            final(self).wf(),
            exists|scan: Seq<(int, int)>, batches: Seq<Seq<Update<F>>>, states: Seq<Grid<T, L>>|
                #[trigger] steps(old(self), scan, batches, states, &visitor, &updater, final(self)),
    {
        let scan = self.subgrids_to_scan();
        let ghost start = *self;
        let updates = self.collect_updates(&scan, &visitor, &updater);
        let ghost batches = choose|batches: Seq<Seq<Update<F>>>|
            #[trigger] reads(
                &start,
                visit(index_coords(scan@), L as int),
                &visitor,
                &updater,
                batches,
            ) && updates@ == batches.flatten();
        proof {
            assert forall|i: int, v: Option<&T>| 0 <= i < updates.len() implies #[trigger] call_requires(
                updates[i].f,
                (v,),
            ) by {
                let at = lemma_flatten_member(batches, i);
                assert(batches[at.0][at.1] == updates[i]);
            }
        }
        self.apply_updates(&updates);
        proof {
            let states = choose|states: Seq<Grid<T, L>>|
                #[trigger] write_trace(states, updates@) && states[0] == start && states.last()
                    == *self;
            lemma_reads_same_cells(
                &start,
                old(self),
                visit(index_coords(scan@), L as int),
                &visitor,
                &updater,
                batches,
            );
            assert(steps(
                old(self),
                index_coords(scan@),
                batches,
                states,
                &visitor,
                &updater,
                self,
            ));
        }
    }

    /// The updates that the rule answers for the one cell `point`, which
    /// lies in the chunk `k`; `sub` is that chunk if it is allocated.
    /// Neighbors inside `corners`, the chunk's own rectangle, are read from
    /// `sub` directly.
    fn read_cell<
        F,
        FVisit: Fn(&Point) -> &Vec<Offset>,
        FUpdate: Fn(&Point, Option<&T>, Vec<Option<&T>>) -> Vec<Update<F>>,
    >(
        &self,
        sub: Option<&SubGrid<T, L>>,
        k: &SubGridIndex,
        corners: &Option<(Point, Point)>,
        point: &Point,
        visitor: &FVisit,
        updater: &FUpdate,
    ) -> (out: Vec<Update<F>>)
        requires
            self.wf(),
            chunk_index(point@, L as int) == k@,
            sub is Some <==> self.chunks().contains(k@),
            sub matches Some(s) ==> s.wf() && s@ == self.chunk(k@),
            corners matches Some(c) ==> forall|q: (int, int)|
                c.0.x <= q.0 <= c.1.x && c.0.z <= q.1 <= c.1.z ==> #[trigger] chunk_index(
                    q,
                    L as int,
                ) == k@,
            forall|p: &Point| call_requires(*visitor, (p,)),
            forall|p: &Point, cur: Option<&T>, near: Vec<Option<&T>>|
                call_requires(*updater, (p, cur, near)),
        ensures
            rule_yields(self, *point, visitor, updater, out@),
    {
        proof {
            self.lemma_wf_side();
        }
        let neighbor_offsets = visitor(point);
        let mut neighbor_values: Vec<Option<&T>> = Vec::new();
        let mut i: usize = 0;
        while i < neighbor_offsets.len()
            invariant
                i <= neighbor_offsets.len(),
                self.wf(),
                valid_side(L),
                sub is Some <==> self.chunks().contains(k@),
                sub matches Some(s) ==> s.wf() && s@ == self.chunk(k@),
                corners matches Some(c) ==> forall|q: (int, int)|
                    c.0.x <= q.0 <= c.1.x && c.0.z <= q.1 <= c.1.z ==> #[trigger] chunk_index(
                        q,
                        L as int,
                    ) == k@,
                neighbor_values@ == values_near(self, point@, neighbor_offsets@.take(i as int)),
            decreases neighbor_offsets.len() - i,
        {
            let neighbor_offset = &neighbor_offsets[i];
            let value: Option<&T> = match point.checked_shift(neighbor_offset) {
                None => None,
                Some(neighbor_point) => {
                    let inside = match corners {
                        Some((start, end)) => neighbor_point.is_in_range(start, end),
                        None => false,
                    };
                    match inside {
                        false => self.get(&neighbor_point),
                        true => match sub {
                            None => self.get(&neighbor_point),
                            Some(v) => Some(self.get_in_known_subgrid(v, &neighbor_point)),
                        },
                    }
                },
            };
            neighbor_values.push(value);
            i = i + 1;
        }
        assert(neighbor_offsets@.take(neighbor_offsets.len() as int) =~= neighbor_offsets@);
        let value: Option<&T> = match sub {
            None => None,
            Some(v) => Some(v.get(&point.to_subgrid_point(L as isize))),
        };
        updater(point, value, neighbor_values)
    }
}

} // verus!
