//! Boundary conditions on the outer layer of a field.
use crate::index::cell_count;
use crate::index::coord_x;
use crate::index::coord_y;
use crate::index::coord_z;
use crate::index::in_grid;
use crate::index::interior;
use crate::index::lemma_coords_of_offset;
use crate::index::lemma_offset_in_range;
use crate::index::lemma_offset_of_coords;
use crate::index::offset;
use crate::index::IndexMapper;
use crate::scalar::make_ratio;
use crate::scalar::ratio;
use crate::scalar::zero;
use crate::scalar::zeros;
use crate::scalar::ExactScalar;
use crate::scalar::Scalar;
use vstd::prelude::*;

verus! {

/// Which velocity component a field holds, if any. A component is mirrored
/// with its sign flipped at the two walls that it is normal to.
#[derive(Clone, Copy, Debug, PartialEq, Eq, Structural)]
pub enum BoundaryKind {
    /// A field without direction, such as density: no wall flips its sign.
    Plain,
    /// The velocity along the first axis.
    X,
    /// The velocity along the second axis.
    Y,
    /// The velocity along the third axis.
    Z,
}

impl BoundaryKind {
    /// The number by which the kind is known: 0 for a plain field, 1, 2 and
    /// 3 for the velocity along the first, second and third axis.
    pub open spec fn tag_spec(self) -> int {
        match self {
            BoundaryKind::Plain => 0,
            BoundaryKind::X => 1,
            BoundaryKind::Y => 2,
            BoundaryKind::Z => 3,
        }
    }

    /// The number by which the kind is known.
    pub fn tag(self) -> (r: u8)
        ensures
            r == self.tag_spec(),
    {
        match self {
            BoundaryKind::Plain => 0,
            BoundaryKind::X => 1,
            BoundaryKind::Y => 2,
            BoundaryKind::Z => 3,
        }
    }

    /// The kind known by `tag`, if there is one.
    pub fn from_tag(tag: u8) -> (r: Option<BoundaryKind>)
        ensures
            tag <= 3 <==> r is Some,
            r matches Some(kind) ==> kind.tag_spec() == tag,
    {
        if tag == 0 {
            Some(BoundaryKind::Plain)
        } else if tag == 1 {
            Some(BoundaryKind::X)
        } else if tag == 2 {
            Some(BoundaryKind::Y)
        } else if tag == 3 {
            Some(BoundaryKind::Z)
        } else {
            None
        }
    }
}

/// The coordinate lies in one of the two outer layers of its axis.
pub open spec fn on_wall(n: int, v: int) -> bool {
    v == 0 || v == n - 1
}

/// The coordinate one step away from the wall, for a coordinate on a wall.
pub open spec fn inward(n: int, v: int) -> int {
    if v == 0 {
        1
    } else if v == n - 1 {
        n - 2
    } else {
        v
    }
}

/// The value with its sign flipped if `flip` is set.
pub open spec fn mirrored<S: Scalar>(flip: bool, v: S) -> S {
    if flip {
        v.negated_spec()
    } else {
        v
    }
}

/// The weight 33/100 that a corner gives to the sum of its three neighbours.
pub open spec fn corner_weight<S: Scalar>() -> S {
    ratio::<S>(33, 100)
}

/// What the cell `(x, y, z)` holds once the boundary is enforced on `s`.
///
/// A cell on exactly one wall takes the value of its inward neighbour,
/// negated where the field is the velocity normal to that wall. A corner
/// takes the weighted sum of its three neighbours along the edges. Interior
/// cells and cells on an edge keep their value.
pub open spec fn boundary_value<S: Scalar>(
    n: int,
    kind: BoundaryKind,
    s: Seq<S>,
    x: int,
    y: int,
    z: int,
) -> S {
    let wx = on_wall(n, x);
    let wy = on_wall(n, y);
    let wz = on_wall(n, z);
    if wx && wy && wz {
        corner_weight::<S>().times_spec(
            s[offset(n, inward(n, x), y, z)].plus_spec(s[offset(n, x, inward(n, y), z)]).plus_spec(
                s[offset(n, x, y, inward(n, z))],
            ),
        )
    } else if wz && !wx && !wy {
        mirrored(kind == BoundaryKind::Z, s[offset(n, x, y, inward(n, z))])
    } else if wy && !wx && !wz {
        mirrored(kind == BoundaryKind::Y, s[offset(n, x, inward(n, y), z)])
    } else if wx && !wy && !wz {
        mirrored(kind == BoundaryKind::X, s[offset(n, inward(n, x), y, z)])
    } else {
        s[offset(n, x, y, z)]
    }
}

/// The field `s` with the boundary enforced.
pub open spec fn enforce_spec<S: Scalar>(n: int, kind: BoundaryKind, s: Seq<S>) -> Seq<S> {
    Seq::new(
        s.len(),
        |k: int| boundary_value(n, kind, s, coord_x(n, k), coord_y(n, k), coord_z(n, k)),
    )
}

/// The enforced field at a cell on the grid.
pub proof fn lemma_enforce_at<S: Scalar>(
    n: int,
    kind: BoundaryKind,
    s: Seq<S>,
    x: int,
    y: int,
    z: int,
)
    requires
        n >= 1,
        s.len() == cell_count(n),
        in_grid(n, x, y, z),
    ensures
        0 <= offset(n, x, y, z) < s.len(),
        enforce_spec(n, kind, s)[offset(n, x, y, z)] == boundary_value(n, kind, s, x, y, z),
        interior(n, x, y, z) ==> enforce_spec(n, kind, s)[offset(n, x, y, z)] == s[offset(
            n,
            x,
            y,
            z,
        )],
{
    lemma_offset_in_range(n, x, y, z);
    lemma_coords_of_offset(n, x, y, z);
}

/// Enforcing the boundary a second time changes nothing: every wall cell and
/// every corner is computed from cells that the first pass left alone.
pub proof fn lemma_enforce_idempotent<S: Scalar>(n: int, kind: BoundaryKind, s: Seq<S>)
    requires
        n >= 3,
        s.len() == cell_count(n),
    ensures
        enforce_spec(n, kind, enforce_spec(n, kind, s)) == enforce_spec(n, kind, s),
{
    let once = goal_of(n, kind, s);
    let twice = goal_of(n, kind, once);
    assert(once.len() == s.len() && twice.len() == s.len()) by {
        reveal(goal_of);
    }
    assert forall|k: int| 0 <= k < s.len() implies twice[k] == once[k] by {
        lemma_offset_of_coords(n, k);
        let x = coord_x(n, k);
        let y = coord_y(n, k);
        let z = coord_z(n, k);
        assert(k == offset(n, x, y, z));
        lemma_goal_at(n, kind, once, x, y, z);
        lemma_goal_at(n, kind, s, x, y, z);
        lemma_goal_at(n, kind, s, inward(n, x), y, z);
        lemma_goal_at(n, kind, s, x, inward(n, y), z);
        lemma_goal_at(n, kind, s, x, y, inward(n, z));
    }
    assert(twice =~= once);
    reveal(goal_of);
}

/// The field is zero in the interior and on the walls, that is in every cell
/// but those on the edges and in the corners of the grid.
pub open spec fn at_rest<S: Scalar>(n: int, v: Seq<S>) -> bool {
    forall|x: int, y: int, z: int|
        in_grid(n, x, y, z) && !(on_wall(n, x) && on_wall(n, y)) && !(on_wall(n, x) && on_wall(
            n,
            z,
        )) && !(on_wall(n, y) && on_wall(n, z)) ==> v[#[trigger] offset(n, x, y, z)] == zero::<S>()
}

/// A field whose interior is zero is at rest once the boundary is enforced
/// on it.
pub proof fn lemma_enforce_at_rest<S: ExactScalar>(n: int, kind: BoundaryKind, s: Seq<S>)
    requires
        n >= 3,
        s.len() == cell_count(n),
        forall|x: int, y: int, z: int|
            interior(n, x, y, z) ==> s[#[trigger] offset(n, x, y, z)] == zero::<S>(),
    ensures
        at_rest(n, enforce_spec(n, kind, s)),
{
    let done = goal_of(n, kind, s);
    assert forall|x: int, y: int, z: int|
        in_grid(n, x, y, z) && !(on_wall(n, x) && on_wall(n, y)) && !(on_wall(n, x) && on_wall(
            n,
            z,
        )) && !(on_wall(n, y) && on_wall(n, z)) implies done[#[trigger] offset(n, x, y, z)]
        == zero::<S>() by {
        lemma_goal_at(n, kind, s, x, y, z);
        assert(interior(n, inward(n, x), inward(n, y), inward(n, z)));
        assert(s[offset(n, inward(n, x), inward(n, y), inward(n, z))] == zero::<S>());
        S::law_negated_zero();
    }
    reveal(goal_of);
}

/// Enforcing the boundary keeps the length of the field.
pub proof fn lemma_enforce_len<S: Scalar>(n: int, kind: BoundaryKind, s: Seq<S>)
    ensures
        enforce_spec(n, kind, s).len() == s.len(),
{
}

/// A field at rest is still at rest once the boundary is enforced on it.
pub proof fn lemma_enforce_at_rest_again<S: ExactScalar>(n: int, kind: BoundaryKind, s: Seq<S>)
    requires
        n >= 3,
        s.len() == cell_count(n),
        at_rest(n, s),
    ensures
        enforce_spec(n, kind, s).len() == s.len(),
        at_rest(n, enforce_spec(n, kind, s)),
{
    assert forall|x: int, y: int, z: int| interior(n, x, y, z) implies s[#[trigger] offset(
        n,
        x,
        y,
        z,
    )] == zero::<S>() by {}
    lemma_enforce_at_rest(n, kind, s);
}

/// Enforcing the boundary on a field of zeros leaves it at zero.
pub proof fn lemma_enforce_zeros<S: ExactScalar>(n: int, kind: BoundaryKind)
    requires
        n >= 3,
    ensures
        enforce_spec(n, kind, zeros::<S>(cell_count(n) as nat)) == zeros::<S>(
            cell_count(n) as nat,
        ),
{
    let blank = zeros::<S>(cell_count(n) as nat);
    let goal = goal_of(n, kind, blank);
    assert(n * n * n >= 0) by (nonlinear_arith)
        requires
            n >= 3,
    ;
    assert(goal.len() == blank.len()) by {
        reveal(goal_of);
    }
    assert forall|k: int| 0 <= k < blank.len() implies goal[k] == blank[k] by {
        lemma_offset_of_coords(n, k);
        let x = coord_x(n, k);
        let y = coord_y(n, k);
        let z = coord_z(n, k);
        assert(k == offset(n, x, y, z));
        lemma_goal_at(n, kind, blank, x, y, z);
        lemma_offset_in_range(n, inward(n, x), y, z);
        lemma_offset_in_range(n, x, inward(n, y), z);
        lemma_offset_in_range(n, x, y, inward(n, z));
        S::law_plus_zero(zero::<S>());
        S::law_times_zero(corner_weight::<S>());
        S::law_negated_zero();
    }
    assert(goal =~= blank);
    reveal(goal_of);
}

/// The enforced field, kept folded while the walls are written.
#[verifier::opaque]
spec fn goal_of<S: Scalar>(n: int, kind: BoundaryKind, s: Seq<S>) -> Seq<S> {
    enforce_spec(n, kind, s)
}

proof fn lemma_goal_at<S: Scalar>(n: int, kind: BoundaryKind, s: Seq<S>, x: int, y: int, z: int)
    requires
        n >= 1,
        s.len() == cell_count(n),
        in_grid(n, x, y, z),
    ensures
        0 <= offset(n, x, y, z) < s.len(),
        goal_of(n, kind, s).len() == s.len(),
        goal_of(n, kind, s)[offset(n, x, y, z)] == boundary_value(n, kind, s, x, y, z),
{
    reveal(goal_of);
    lemma_enforce_at(n, kind, s, x, y, z);
}

/// Every cell of `cur` holds what it held in `start` or what it holds in
/// `goal`.
spec fn settling<S>(cur: Seq<S>, start: Seq<S>, goal: Seq<S>) -> bool {
    &&& cur.len() == start.len()
    &&& goal.len() == start.len()
    &&& forall|k: int| 0 <= k < cur.len() ==> #[trigger] cur[k] == start[k] || cur[k] == goal[k]
}

/// Every cell on the grid has its offset inside the field.
spec fn offsets_in_range(n: int) -> bool {
    forall|x: int, y: int, z: int|
        in_grid(n, x, y, z) ==> 0 <= #[trigger] offset(n, x, y, z) < cell_count(n)
}

proof fn lemma_offsets_in_range(n: int)
    requires
        n >= 1,
    ensures
        offsets_in_range(n),
{
    assert forall|x: int, y: int, z: int| in_grid(n, x, y, z) implies 0 <= #[trigger] offset(
        n,
        x,
        y,
        z,
    ) < cell_count(n) by {
        lemma_offset_in_range(n, x, y, z);
    }
}

/// Writes into the cell `(i, j, k)` the value that it holds in `goal`.
fn settle_cell<S: Copy>(
    grid: &IndexMapper,
    field: &mut Vec<S>,
    i: usize,
    j: usize,
    k: usize,
    value: S,
    Ghost(start): Ghost<Seq<S>>,
    Ghost(goal): Ghost<Seq<S>>,
)
    requires
        start.len() == cell_count(grid.n()),
        settling(old(field)@, start, goal),
        in_grid(grid.n(), i as int, j as int, k as int),
        value == goal[offset(grid.n(), i as int, j as int, k as int)],
    ensures
        settling(final(field)@, start, goal),
        final(field)@ == old(field)@.update(offset(grid.n(), i as int, j as int, k as int), value),
{
    proof {
        use_type_invariant(grid);
    }
    let target = grid.cell(i, j, k);
    field.set(target, value);
}

/// The pairs `(p, q)` of interior coordinates that come before `(a, b)` when
/// `q` is counted up first.
spec fn before(m: int, p: int, q: int, a: int, b: int) -> bool {
    1 <= p <= m - 2 && 1 <= q <= m - 2 && (q < b || (q == b && p < a))
}

/// On each of the six walls, the cells whose two coordinates along the wall
/// come before `(a, b)` hold what they hold in `goal`.
spec fn walls_settled<S>(m: int, cur: Seq<S>, goal: Seq<S>, a: int, b: int) -> bool {
    &&& forall|p: int, q: int|
        before(m, p, q, a, b) ==> cur[#[trigger] offset(m, p, q, 0)] == goal[offset(m, p, q, 0)]
    &&& forall|p: int, q: int|
        before(m, p, q, a, b) ==> cur[#[trigger] offset(m, p, q, m - 1)] == goal[offset(
            m,
            p,
            q,
            m - 1,
        )]
    &&& forall|p: int, q: int|
        before(m, p, q, a, b) ==> cur[#[trigger] offset(m, p, 0, q)] == goal[offset(m, p, 0, q)]
    &&& forall|p: int, q: int|
        before(m, p, q, a, b) ==> cur[#[trigger] offset(m, p, m - 1, q)] == goal[offset(
            m,
            p,
            m - 1,
            q,
        )]
    &&& forall|p: int, q: int|
        before(m, p, q, a, b) ==> cur[#[trigger] offset(m, 0, p, q)] == goal[offset(m, 0, p, q)]
    &&& forall|p: int, q: int|
        before(m, p, q, a, b) ==> cur[#[trigger] offset(m, m - 1, p, q)] == goal[offset(
            m,
            m - 1,
            p,
            q,
        )]
}

/// The eight corners hold what they hold in `goal`.
spec fn corners_settled<S>(m: int, cur: Seq<S>, goal: Seq<S>) -> bool {
    &&& cur[offset(m, 0, 0, 0)] == goal[offset(m, 0, 0, 0)]
    &&& cur[offset(m, 0, m - 1, 0)] == goal[offset(m, 0, m - 1, 0)]
    &&& cur[offset(m, 0, 0, m - 1)] == goal[offset(m, 0, 0, m - 1)]
    &&& cur[offset(m, 0, m - 1, m - 1)] == goal[offset(m, 0, m - 1, m - 1)]
    &&& cur[offset(m, m - 1, 0, 0)] == goal[offset(m, m - 1, 0, 0)]
    &&& cur[offset(m, m - 1, m - 1, 0)] == goal[offset(m, m - 1, m - 1, 0)]
    &&& cur[offset(m, m - 1, 0, m - 1)] == goal[offset(m, m - 1, 0, m - 1)]
    &&& cur[offset(m, m - 1, m - 1, m - 1)] == goal[offset(m, m - 1, m - 1, m - 1)]
}

/// A field in which every wall cell and every corner is settled is the
/// enforced field.
proof fn lemma_all_settled<S: Scalar>(m: int, kind: BoundaryKind, start: Seq<S>, cur: Seq<S>)
    requires
        m >= 3,
        start.len() == cell_count(m),
        settling(cur, start, goal_of(m, kind, start)),
        walls_settled(m, cur, goal_of(m, kind, start), 1, m - 1),
        corners_settled(m, cur, goal_of(m, kind, start)),
    ensures
        cur == enforce_spec(m, kind, start),
{
    let goal = goal_of(m, kind, start);
    assert forall|k: int| 0 <= k < cur.len() implies cur[k] == goal[k] by {
        lemma_offset_of_coords(m, k);
        let x = coord_x(m, k);
        let y = coord_y(m, k);
        let z = coord_z(m, k);
        assert(k == offset(m, x, y, z));
        lemma_goal_at(m, kind, start, x, y, z);
        let wx = on_wall(m, x);
        let wy = on_wall(m, y);
        let wz = on_wall(m, z);
        if wx && wy && wz {
        } else if wz && !wx && !wy {
            assert(before(m, x, y, 1, m - 1));
            assert(cur[offset(m, x, y, 0)] == goal[offset(m, x, y, 0)]);
            assert(cur[offset(m, x, y, m - 1)] == goal[offset(m, x, y, m - 1)]);
        } else if wy && !wx && !wz {
            assert(before(m, x, z, 1, m - 1));
            assert(cur[offset(m, x, 0, z)] == goal[offset(m, x, 0, z)]);
            assert(cur[offset(m, x, m - 1, z)] == goal[offset(m, x, m - 1, z)]);
        } else if wx && !wy && !wz {
            assert(before(m, y, z, 1, m - 1));
            assert(cur[offset(m, 0, y, z)] == goal[offset(m, 0, y, z)]);
            assert(cur[offset(m, m - 1, y, z)] == goal[offset(m, m - 1, y, z)]);
        } else {
            assert(goal[k] == start[k]);
        }
    }
    assert(cur =~= goal);
    assert(goal == enforce_spec(m, kind, start)) by {
        reveal(goal_of);
    }
}

/// The cell lies on exactly one wall.
spec fn on_one_wall(n: int, x: int, y: int, z: int) -> bool {
    let wx = on_wall(n, x);
    let wy = on_wall(n, y);
    let wz = on_wall(n, z);
    (wx && !wy && !wz) || (!wx && wy && !wz) || (!wx && !wy && wz)
}

/// The field is the velocity normal to the wall that the cell lies on.
spec fn flips_at(n: int, kind: BoundaryKind, x: int, y: int, z: int) -> bool {
    match kind {
        BoundaryKind::Plain => false,
        BoundaryKind::X => on_wall(n, x),
        BoundaryKind::Y => on_wall(n, y),
        BoundaryKind::Z => on_wall(n, z),
    }
}

/// A cell that lies on no wall or on exactly two keeps its value.
proof fn lemma_goal_kept<S: Scalar>(n: int, kind: BoundaryKind, s: Seq<S>, x: int, y: int, z: int)
    requires
        n >= 3,
        s.len() == cell_count(n),
        in_grid(n, x, y, z),
        !on_one_wall(n, x, y, z),
        !(on_wall(n, x) && on_wall(n, y) && on_wall(n, z)),
    ensures
        0 <= offset(n, x, y, z) < s.len(),
        goal_of(n, kind, s)[offset(n, x, y, z)] == s[offset(n, x, y, z)],
{
    lemma_goal_at(n, kind, s, x, y, z);
}

/// A cell on exactly one wall mirrors its inward neighbour.
proof fn lemma_goal_wall<S: Scalar>(n: int, kind: BoundaryKind, s: Seq<S>, x: int, y: int, z: int)
    requires
        n >= 3,
        s.len() == cell_count(n),
        in_grid(n, x, y, z),
        on_one_wall(n, x, y, z),
    ensures
        0 <= offset(n, x, y, z) < s.len(),
        goal_of(n, kind, s)[offset(n, x, y, z)] == mirrored(
            flips_at(n, kind, x, y, z),
            s[offset(n, inward(n, x), inward(n, y), inward(n, z))],
        ),
{
    lemma_goal_at(n, kind, s, x, y, z);
}

/// A corner takes the weighted sum of its three neighbours.
proof fn lemma_goal_corner<S: Scalar>(
    n: int,
    kind: BoundaryKind,
    s: Seq<S>,
    x: int,
    y: int,
    z: int,
)
    requires
        n >= 3,
        s.len() == cell_count(n),
        on_wall(n, x),
        on_wall(n, y),
        on_wall(n, z),
    ensures
        0 <= offset(n, x, y, z) < s.len(),
        goal_of(n, kind, s)[offset(n, x, y, z)] == corner_weight::<S>().times_spec(
            s[offset(n, inward(n, x), y, z)].plus_spec(s[offset(n, x, inward(n, y), z)]).plus_spec(
                s[offset(n, x, y, inward(n, z))],
            ),
        ),
{
    lemma_goal_at(n, kind, s, x, y, z);
}

/// Writes into the wall cell `(tx, ty, tz)` the value of its inward
/// neighbour.
fn mirror_cell<S: Scalar>(
    grid: &IndexMapper,
    kind: BoundaryKind,
    field: &mut Vec<S>,
    tx: usize,
    ty: usize,
    tz: usize,
    Ghost(start): Ghost<Seq<S>>,
)
    requires
        start.len() == cell_count(grid.n()),
        settling(old(field)@, start, goal_of(grid.n(), kind, start)),
        in_grid(grid.n(), tx as int, ty as int, tz as int),
        on_one_wall(grid.n(), tx as int, ty as int, tz as int),
    ensures
        settling(final(field)@, start, goal_of(grid.n(), kind, start)),
        final(field)@ == old(field)@.update(
            offset(grid.n(), tx as int, ty as int, tz as int),
            goal_of(grid.n(), kind, start)[offset(grid.n(), tx as int, ty as int, tz as int)],
        ),
{
    proof {
        use_type_invariant(grid);
    }
    let n = grid.resolution();
    let sx = if tx == 0 { 1 } else if tx == n - 1 { n - 2 } else { tx };
    let sy = if ty == 0 { 1 } else if ty == n - 1 { n - 2 } else { ty };
    let sz = if tz == 0 { 1 } else if tz == n - 1 { n - 2 } else { tz };
    let flip = match kind {
        BoundaryKind::Plain => false,
        BoundaryKind::X => tx == 0 || tx == n - 1,
        BoundaryKind::Y => ty == 0 || ty == n - 1,
        BoundaryKind::Z => tz == 0 || tz == n - 1,
    };
    let source = grid.cell(sx, sy, sz);
    proof {
        lemma_goal_kept(grid.n(), kind, start, sx as int, sy as int, sz as int);
        lemma_goal_wall(grid.n(), kind, start, tx as int, ty as int, tz as int);
    }
    let inner = field[source];
    let value = if flip { inner.negated() } else { inner };
    settle_cell(grid, field, tx, ty, tz, value, Ghost(start), Ghost(goal_of(grid.n(), kind, start)));
}

/// Writes into the corner `(cx, cy, cz)` the weighted sum of its three
/// neighbours along the edges.
fn average_corner<S: Scalar>(
    grid: &IndexMapper,
    kind: BoundaryKind,
    field: &mut Vec<S>,
    cx: usize,
    cy: usize,
    cz: usize,
    Ghost(start): Ghost<Seq<S>>,
)
    requires
        start.len() == cell_count(grid.n()),
        settling(old(field)@, start, goal_of(grid.n(), kind, start)),
        on_wall(grid.n(), cx as int),
        on_wall(grid.n(), cy as int),
        on_wall(grid.n(), cz as int),
    ensures
        settling(final(field)@, start, goal_of(grid.n(), kind, start)),
        final(field)@ == old(field)@.update(
            offset(grid.n(), cx as int, cy as int, cz as int),
            goal_of(grid.n(), kind, start)[offset(grid.n(), cx as int, cy as int, cz as int)],
        ),
{
    proof {
        use_type_invariant(grid);
    }
    let n = grid.resolution();
    let sx = if cx == 0 { 1 } else { n - 2 };
    let sy = if cy == 0 { 1 } else { n - 2 };
    let sz = if cz == 0 { 1 } else { n - 2 };
    let along_x = grid.cell(sx, cy, cz);
    let along_y = grid.cell(cx, sy, cz);
    let along_z = grid.cell(cx, cy, sz);
    proof {
        lemma_goal_kept(grid.n(), kind, start, sx as int, cy as int, cz as int);
        lemma_goal_kept(grid.n(), kind, start, cx as int, sy as int, cz as int);
        lemma_goal_kept(grid.n(), kind, start, cx as int, cy as int, sz as int);
        lemma_goal_corner(grid.n(), kind, start, cx as int, cy as int, cz as int);
    }
    let sum = field[along_x].plus(field[along_y]).plus(field[along_z]);
    let weight: S = make_ratio(33, 100);
    settle_cell(
        grid,
        field,
        cx,
        cy,
        cz,
        weight.times(sum),
        Ghost(start),
        Ghost(goal_of(grid.n(), kind, start)),
    );
}

/// Enforces the boundary on `field`: the value of every cell on exactly one
/// wall is mirrored from its inward neighbour, and every corner becomes the
/// weighted sum of its three neighbours. No other cell changes.
pub fn enforce_boundary<S: Scalar>(grid: &IndexMapper, kind: BoundaryKind, field: &mut Vec<S>)
    requires
        old(field)@.len() == cell_count(grid.n()),
    ensures
        final(field)@ == enforce_spec(grid.n(), kind, old(field)@),
{
    proof {
        use_type_invariant(grid);
    }
    let n = grid.resolution();
    let ghost start = field@;
    let ghost goal = goal_of(grid.n(), kind, start);
    let ghost m = grid.n();
    proof {
        lemma_offsets_in_range(m);
        assert(settling(field@, start, goal)) by {
            reveal(goal_of);
        }
    }
    let mut b: usize = 1;
    while b < n - 1
        invariant
            grid.wf(),
            n == m,
            m == grid.n(),
            start.len() == cell_count(m),
            goal == goal_of(m, kind, start),
            offsets_in_range(m),
            settling(field@, start, goal),
            1 <= b <= n - 1,
            walls_settled(m, field@, goal, 1, b as int),
        decreases n - b,
    {
        let mut a: usize = 1;
        while a < n - 1
            invariant
                grid.wf(),
                n == m,
                m == grid.n(),
                start.len() == cell_count(m),
                goal == goal_of(m, kind, start),
                offsets_in_range(m),
                settling(field@, start, goal),
                1 <= b < n - 1,
                1 <= a <= n - 1,
                walls_settled(m, field@, goal, a as int, b as int),
            decreases n - a,
        {
            mirror_cell(grid, kind, field, a, b, 0, Ghost(start));
            mirror_cell(grid, kind, field, a, b, n - 1, Ghost(start));
            mirror_cell(grid, kind, field, a, 0, b, Ghost(start));
            mirror_cell(grid, kind, field, a, n - 1, b, Ghost(start));
            mirror_cell(grid, kind, field, 0, a, b, Ghost(start));
            mirror_cell(grid, kind, field, n - 1, a, b, Ghost(start));
            a = a + 1;
        }
        b = b + 1;
    }
    average_corner(grid, kind, field, 0, 0, 0, Ghost(start));
    average_corner(grid, kind, field, 0, n - 1, 0, Ghost(start));
    average_corner(grid, kind, field, 0, 0, n - 1, Ghost(start));
    average_corner(grid, kind, field, 0, n - 1, n - 1, Ghost(start));
    average_corner(grid, kind, field, n - 1, 0, 0, Ghost(start));
    average_corner(grid, kind, field, n - 1, n - 1, 0, Ghost(start));
    average_corner(grid, kind, field, n - 1, 0, n - 1, Ghost(start));
    average_corner(grid, kind, field, n - 1, n - 1, n - 1, Ghost(start));
    proof {
        lemma_all_settled(m, kind, start, field@);
    }
}

} // verus!
