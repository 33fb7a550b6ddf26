//! Bookkeeping for loops that bring the interior of a field to its final
//! value cell by cell.
use crate::index::cell_count;
use crate::index::coord_x;
use crate::index::coord_y;
use crate::index::coord_z;
use crate::index::in_grid;
use crate::index::interior;
use crate::index::lemma_offset_in_range;
use crate::index::lemma_offset_injective;
use crate::index::lemma_offset_of_coords;
use crate::index::offset;
use crate::index::IndexMapper;
use vstd::prelude::*;

verus! {

/// The cell `(p, q, r)` comes before `(i, j, k)` in a pass over the
/// interior in which the first axis runs fastest.
pub open spec fn turn_before(p: int, q: int, r: int, i: int, j: int, k: int) -> bool {
    r < k || (r == k && (q < j || (q == j && p < i)))
}

/// A pass over the interior has come to the cell `(i, j, k)`: the interior
/// cells before it hold what they hold in `goal`, every other cell holds
/// what it held in `start`.
pub open spec fn in_progress<S>(
    n: int,
    cur: Seq<S>,
    start: Seq<S>,
    goal: Seq<S>,
    i: int,
    j: int,
    k: int,
) -> bool {
    &&& cur.len() == start.len()
    &&& goal.len() == start.len()
    &&& forall|p: int, q: int, r: int|
        in_grid(n, p, q, r) ==> cur[#[trigger] offset(n, p, q, r)] == (if interior(n, p, q, r)
            && turn_before(p, q, r, i, j, k) {
            goal[offset(n, p, q, r)]
        } else {
            start[offset(n, p, q, r)]
        })
}

/// Writing the final value into the cell whose turn it is moves the pass on
/// by one cell.
pub proof fn lemma_progress_step<S>(
    n: int,
    cur: Seq<S>,
    start: Seq<S>,
    goal: Seq<S>,
    i: int,
    j: int,
    k: int,
)
    requires
        n >= 3,
        start.len() == cell_count(n),
        in_progress(n, cur, start, goal, i, j, k),
        interior(n, i, j, k),
    ensures
        0 <= offset(n, i, j, k) < cur.len(),
        cur[offset(n, i, j, k)] == start[offset(n, i, j, k)],
        in_progress(
            n,
            cur.update(offset(n, i, j, k), goal[offset(n, i, j, k)]),
            start,
            goal,
            i + 1,
            j,
            k,
        ),
{
    let here = offset(n, i, j, k);
    let next = cur.update(here, goal[here]);
    lemma_offset_in_range(n, i, j, k);
    assert forall|p: int, q: int, r: int| in_grid(n, p, q, r) implies next[#[trigger] offset(
        n,
        p,
        q,
        r,
    )] == (if interior(n, p, q, r) && turn_before(p, q, r, i + 1, j, k) {
        goal[offset(n, p, q, r)]
    } else {
        start[offset(n, p, q, r)]
    }) by {
        lemma_offset_in_range(n, p, q, r);
        if offset(n, p, q, r) == here {
            lemma_offset_injective(n, p, q, r, i, j, k);
        }
    }
}

/// A pass that has gone through the whole interior, toward a goal that
/// leaves the outer layer alone, has reached its goal.
pub proof fn lemma_progress_done<S>(n: int, cur: Seq<S>, start: Seq<S>, goal: Seq<S>)
    requires
        n >= 3,
        start.len() == cell_count(n),
        in_progress(n, cur, start, goal, 1, 1, n - 1),
        forall|p: int, q: int, r: int|
            in_grid(n, p, q, r) && !interior(n, p, q, r) ==> goal[#[trigger] offset(n, p, q, r)]
                == start[offset(n, p, q, r)],
    ensures
        cur == goal,
{
    assert forall|c: int| 0 <= c < cur.len() implies cur[c] == goal[c] by {
        lemma_offset_of_coords(n, c);
        let x = coord_x(n, c);
        let y = coord_y(n, c);
        let z = coord_z(n, c);
        assert(c == offset(n, x, y, z));
        if interior(n, x, y, z) {
            assert(turn_before(x, y, z, 1, 1, n - 1));
        }
    }
    assert(cur =~= goal);
}

/// Writes into the interior cell `(i, j, k)`, whose turn it is, the value
/// that it holds in `goal`.
pub(crate) fn advance_cell<S: Copy>(
    grid: &IndexMapper,
    field: &mut Vec<S>,
    i: usize,
    j: usize,
    k: usize,
    value: S,
    Ghost(start): Ghost<Seq<S>>,
    Ghost(goal): Ghost<Seq<S>>,
)
    requires
        start.len() == cell_count(grid.n()),
        in_progress(grid.n(), old(field)@, start, goal, i as int, j as int, k as int),
        interior(grid.n(), i as int, j as int, k as int),
        value == goal[offset(grid.n(), i as int, j as int, k as int)],
    ensures
        in_progress(grid.n(), final(field)@, start, goal, i + 1, j as int, k as int),
{
    proof {
        use_type_invariant(grid);
        lemma_progress_step(grid.n(), field@, start, goal, i as int, j as int, k as int);
    }
    let target = grid.cell(i, j, k);
    field.set(target, value);
}

} // verus!
