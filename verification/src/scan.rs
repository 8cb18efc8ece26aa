//! The scan set: the chunks that one generation step has to visit.

use vstd::prelude::*;
use crate::neighbors::{index_coords, moore_neighborhood, moore_rings};
use crate::point::{is_cell, SubGridIndex};

verus! {

/// Whether two chunk indices are the same or touch, by a side or a corner.
pub open spec fn adjacent(a: (int, int), b: (int, int)) -> bool {
    -1 <= a.0 - b.0 <= 1 && -1 <= a.1 - b.1 <= 1
}

/// Whether the chunk at `k` has to be visited when the chunks of `chunks`
/// are allocated: it is one of them or touches one of them, and the machine
/// can hold its index.
pub open spec fn in_scan_region(chunks: Set<(int, int)>, k: (int, int)) -> bool {
    is_cell(k) && exists|a: (int, int)| chunks.contains(a) && #[trigger] adjacent(a, k)
}

/// Whether `s` lists each chunk of the scan region of `chunks` once, and
/// nothing else.
pub open spec fn is_scan_set(s: Seq<(int, int)>, chunks: Set<(int, int)>) -> bool {
    &&& s.no_duplicates()
    &&& forall|k: (int, int)| s.contains(k) <==> in_scan_region(chunks, k)
}

/// The Moore neighborhood at distance one, without its center, is the
/// eight cells that touch the center.
pub proof fn lemma_unit_ring(c: (int, int))
    ensures
        moore_neighborhood(c, 1, false) == seq![
            (c.0 - 1, c.1 - 1),
            (c.0, c.1 - 1),
            (c.0 + 1, c.1 - 1),
            (c.0 + 1, c.1),
            (c.0 + 1, c.1 + 1),
            (c.0, c.1 + 1),
            (c.0 - 1, c.1 + 1),
            (c.0 - 1, c.1),
        ],
        forall|q: (int, int)|
            moore_neighborhood(c, 1, false).contains(q) <==> adjacent(c, q) && q != c,
{
    reveal_with_fuel(moore_rings, 2);
    let ring = moore_neighborhood(c, 1, false);
    let eight = seq![
        (c.0 - 1, c.1 - 1),
        (c.0, c.1 - 1),
        (c.0 + 1, c.1 - 1),
        (c.0 + 1, c.1),
        (c.0 + 1, c.1 + 1),
        (c.0, c.1 + 1),
        (c.0 - 1, c.1 + 1),
        (c.0 - 1, c.1),
    ];
    assert(ring =~= eight);
    assert forall|q: (int, int)| adjacent(c, q) && q != c implies ring.contains(q) by {
        let dx = q.0 - c.0;
        let dz = q.1 - c.1;
        let i: int = if dz == -1 {
            dx + 1
        } else if dz == 0 {
            if dx == 1 {
                3
            } else {
                7
            }
        } else {
            5 - dx
        };
    }
}

/// What a list of chunk indices holds once one more index is appended.
pub proof fn lemma_index_push(v: Seq<SubGridIndex>, x: SubGridIndex)
    ensures
        index_coords(v.push(x)) == index_coords(v).push(x@),
        forall|q: (int, int)|
            index_coords(v.push(x)).contains(q) <==> index_coords(v).contains(q) || q == x@,
        index_coords(v).no_duplicates() && !index_coords(v).contains(x@) ==> index_coords(
            v.push(x),
        ).no_duplicates(),
{
    let before = index_coords(v);
    let after = index_coords(v.push(x));
    assert(after =~= before.push(x@));
    assert forall|q: (int, int)| after.contains(q) <==> before.contains(q) || q == x@ by {
        if before.contains(q) {
            let n = choose|n: int| 0 <= n < before.len() && before[n] == q;
            assert(after[n] == q);
        }
        if q == x@ {
            assert(after[before.len() as int] == q);
        }
    }
}

/// The chunk indices that touch `k` and that the machine can hold, in the
/// order of the Moore ring.
pub fn adjacent_indices(k: &SubGridIndex) -> (r: Vec<SubGridIndex>)
    ensures
        forall|q: (int, int)|
            index_coords(r@).contains(q) <==> is_cell(q) && adjacent(k@, q) && q != k@,
{
    let ring = SubGridIndex::new(0, 0).moore_neighbors(1, false);
    proof {
        lemma_unit_ring((0, 0));
    }
    let ghost steps = index_coords(ring@);
    let mut r: Vec<SubGridIndex> = Vec::new();
    let mut i: usize = 0;
    while i < ring.len()
        invariant
            i <= ring.len(),
            steps == index_coords(ring@),
            forall|o: (int, int)| steps.contains(o) <==> adjacent((0, 0), o) && o != (0int, 0int),
            forall|n: int|
                0 <= n < r.len() ==> is_cell(#[trigger] r@[n]@) && adjacent(k@, r@[n]@) && r@[n]@
                    != k@,
            forall|j: int|
                0 <= j < i && is_cell((k.x + steps[j].0, k.z + steps[j].1)) ==> index_coords(
                    r@,
                ).contains((k.x + (#[trigger] steps[j]).0, k.z + steps[j].1)),
        decreases ring.len() - i,
    {
        let ghost before = index_coords(r@);
        let o = ring[i];
        assert(steps.contains(steps[i as int]));
        match (k.x.checked_add(o.x), k.z.checked_add(o.z)) {
            (Some(x), Some(z)) => {
                r.push(SubGridIndex::new(x, z));
                assert(index_coords(r@)[before.len() as int] == (x as int, z as int));
                assert forall|j: int|
                    0 <= j < i + 1 && is_cell(
                        (k.x + steps[j].0, k.z + steps[j].1),
                    ) implies index_coords(r@).contains(
                    (k.x + (#[trigger] steps[j]).0, k.z + steps[j].1),
                ) by {
                    if j < i {
                        let q = (k.x + steps[j].0, k.z + steps[j].1);
                        let n = choose|n: int| 0 <= n < before.len() && before[n] == q;
                        assert(index_coords(r@)[n] == q);
                    }
                }
            },
            _ => {},
        }
        i = i + 1;
    }
    proof {
        let found = index_coords(r@);
        assert forall|q: (int, int)| is_cell(q) && adjacent(k@, q) && q != k@ implies found.contains(
            q,
        ) by {
            assert(steps.contains((q.0 - k.x, q.1 - k.z)));
        }
    }
    r
}

} // verus!
