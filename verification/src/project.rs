//! Projection of a velocity field onto its divergence-free part: the
//! divergence is measured, a pressure that balances it is solved for, and the
//! gradient of that pressure is taken off the velocity.
use crate::boundary::at_rest;
use crate::boundary::enforce_boundary;
use crate::boundary::lemma_enforce_at;
use crate::boundary::enforce_spec;
use crate::boundary::lemma_enforce_zeros;
use crate::boundary::BoundaryKind;
use crate::cells::advance_cell;
use crate::cells::in_progress;
use crate::cells::lemma_progress_done;
use crate::cells::lemma_progress_step;
use crate::index::cell_count;
use crate::index::coord_x;
use crate::index::coord_y;
use crate::index::coord_z;
use crate::index::in_grid;
use crate::index::interior;
use crate::index::lemma_coords_of_offset;
use crate::index::lemma_offset_in_range;
use crate::index::lemma_offset_of_coords;
use crate::index::lemma_resolution_bound;
use crate::index::offset;
use crate::index::valid_resolution;
use crate::index::IndexMapper;
use crate::scalar::half;
use crate::scalar::make_ratio;
use crate::scalar::one;
use crate::scalar::zero;
use crate::scalar::zeros;
use crate::scalar::ExactScalar;
use crate::scalar::Scalar;
use crate::solver::lemma_solve_zeros;
use crate::solver::linear_solve;
use crate::solver::solve_spec;
use vstd::prelude::*;

verus! {

/// One of the three axes of the grid.
#[derive(Clone, Copy, Debug, PartialEq, Eq, Structural)]
pub enum Axis {
    X,
    Y,
    Z,
}

impl Axis {
    /// The boundary kind of the velocity along this axis.
    pub open spec fn kind_spec(self) -> BoundaryKind {
        match self {
            Axis::X => BoundaryKind::X,
            Axis::Y => BoundaryKind::Y,
            Axis::Z => BoundaryKind::Z,
        }
    }

    /// The boundary kind of the velocity along this axis.
    pub fn kind(self) -> (r: BoundaryKind)
        ensures
            r == self.kind_spec(),
    {
        match self {
            Axis::X => BoundaryKind::X,
            Axis::Y => BoundaryKind::Y,
            Axis::Z => BoundaryKind::Z,
        }
    }
}

/// The net outflow of the cell `(i, j, k)` by central differences, summed in
/// the order x, y, z.
pub open spec fn outflow<S: Scalar>(
    n: int,
    vx: Seq<S>,
    vy: Seq<S>,
    vz: Seq<S>,
    i: int,
    j: int,
    k: int,
) -> S {
    vx[offset(n, i + 1, j, k)].minus_spec(vx[offset(n, i - 1, j, k)]).plus_spec(
        vy[offset(n, i, j + 1, k)],
    ).minus_spec(vy[offset(n, i, j - 1, k)]).plus_spec(vz[offset(n, i, j, k + 1)]).minus_spec(
        vz[offset(n, i, j, k - 1)],
    )
}

/// The divergence of the velocity at the cell `(i, j, k)`, scaled as the
/// pressure system wants it: `-1/2 * outflow / n`.
pub open spec fn divergence_value<S: Scalar>(
    n: int,
    vx: Seq<S>,
    vy: Seq<S>,
    vz: Seq<S>,
    i: int,
    j: int,
    k: int,
) -> S {
    half::<S>().negated_spec().times_spec(outflow(n, vx, vy, vz, i, j, k)).over_spec(
        S::from_int_spec(n as i64),
    )
}

/// The field `div` with the divergence of the velocity in every interior
/// cell.
pub open spec fn divergence_spec<S: Scalar>(
    n: int,
    div: Seq<S>,
    vx: Seq<S>,
    vy: Seq<S>,
    vz: Seq<S>,
) -> Seq<S> {
    Seq::new(
        div.len(),
        |c: int|
            if interior(n, coord_x(n, c), coord_y(n, c), coord_z(n, c)) {
                divergence_value(n, vx, vy, vz, coord_x(n, c), coord_y(n, c), coord_z(n, c))
            } else {
                div[c]
            },
    )
}

/// The divergence field that the pressure is solved against.
pub open spec fn source_spec<S: Scalar>(
    n: int,
    div: Seq<S>,
    vx: Seq<S>,
    vy: Seq<S>,
    vz: Seq<S>,
) -> Seq<S> {
    enforce_spec(n, BoundaryKind::Plain, divergence_spec(n, div, vx, vy, vz))
}

/// The pressure that balances the divergence: starting from zero, `iters`
/// sweeps of the system with coupling one and divisor six.
pub open spec fn pressure_spec<S: Scalar>(
    n: int,
    div: Seq<S>,
    vx: Seq<S>,
    vy: Seq<S>,
    vz: Seq<S>,
    iters: nat,
) -> Seq<S> {
    solve_spec(
        n,
        BoundaryKind::Plain,
        enforce_spec(n, BoundaryKind::Plain, zeros::<S>(div.len())),
        source_spec(n, div, vx, vy, vz),
        one::<S>(),
        S::from_int_spec(6),
        iters,
    )
}

/// The difference of the field `f` between the two neighbours of the cell
/// `(i, j, k)` along `axis`.
pub open spec fn central_difference<S: Scalar>(
    n: int,
    axis: Axis,
    f: Seq<S>,
    i: int,
    j: int,
    k: int,
) -> S {
    match axis {
        Axis::X => f[offset(n, i + 1, j, k)].minus_spec(f[offset(n, i - 1, j, k)]),
        Axis::Y => f[offset(n, i, j + 1, k)].minus_spec(f[offset(n, i, j - 1, k)]),
        Axis::Z => f[offset(n, i, j, k + 1)].minus_spec(f[offset(n, i, j, k - 1)]),
    }
}

/// The velocity along `axis` at the cell `(i, j, k)` less the pressure
/// gradient there: `v - 1/2 * difference of p * n`.
pub open spec fn relieved_value<S: Scalar>(
    n: int,
    axis: Axis,
    v: Seq<S>,
    p: Seq<S>,
    i: int,
    j: int,
    k: int,
) -> S {
    v[offset(n, i, j, k)].minus_spec(
        half::<S>().times_spec(central_difference(n, axis, p, i, j, k)).times_spec(
            S::from_int_spec(n as i64),
        ),
    )
}

/// The velocity along `axis` with the pressure gradient taken off in every
/// interior cell.
pub open spec fn relieve_spec<S: Scalar>(n: int, axis: Axis, v: Seq<S>, p: Seq<S>) -> Seq<S> {
    Seq::new(
        v.len(),
        |c: int|
            if interior(n, coord_x(n, c), coord_y(n, c), coord_z(n, c)) {
                relieved_value(n, axis, v, p, coord_x(n, c), coord_y(n, c), coord_z(n, c))
            } else {
                v[c]
            },
    )
}

/// The velocity along `axis` after projection.
pub open spec fn projected_spec<S: Scalar>(n: int, axis: Axis, v: Seq<S>, p: Seq<S>) -> Seq<S> {
    enforce_spec(n, axis.kind_spec(), relieve_spec(n, axis, v, p))
}

/// The divergence field at a cell on the grid.
pub proof fn lemma_divergence_at<S: Scalar>(
    n: int,
    div: Seq<S>,
    vx: Seq<S>,
    vy: Seq<S>,
    vz: Seq<S>,
    i: int,
    j: int,
    k: int,
)
    requires
        n >= 1,
        div.len() == cell_count(n),
        in_grid(n, i, j, k),
    ensures
        0 <= offset(n, i, j, k) < div.len(),
        divergence_spec(n, div, vx, vy, vz).len() == div.len(),
        divergence_spec(n, div, vx, vy, vz)[offset(n, i, j, k)] == (if interior(n, i, j, k) {
            divergence_value(n, vx, vy, vz, i, j, k)
        } else {
            div[offset(n, i, j, k)]
        }),
{
    lemma_offset_in_range(n, i, j, k);
    lemma_coords_of_offset(n, i, j, k);
}

/// The relieved velocity at a cell on the grid.
pub proof fn lemma_relieve_at<S: Scalar>(
    n: int,
    axis: Axis,
    v: Seq<S>,
    p: Seq<S>,
    i: int,
    j: int,
    k: int,
)
    requires
        n >= 1,
        v.len() == cell_count(n),
        in_grid(n, i, j, k),
    ensures
        0 <= offset(n, i, j, k) < v.len(),
        relieve_spec(n, axis, v, p).len() == v.len(),
        relieve_spec(n, axis, v, p)[offset(n, i, j, k)] == (if interior(n, i, j, k) {
            relieved_value(n, axis, v, p, i, j, k)
        } else {
            v[offset(n, i, j, k)]
        }),
{
    lemma_offset_in_range(n, i, j, k);
    lemma_coords_of_offset(n, i, j, k);
}

/// Where the pressure is zero, taking its gradient off the velocity changes
/// nothing.
pub proof fn lemma_relieve_without_pressure<S: ExactScalar>(n: int, axis: Axis, v: Seq<S>)
    requires
        n >= 3,
        v.len() == cell_count(n),
    ensures
        relieve_spec(n, axis, v, zeros::<S>(v.len())) == v,
{
    let blank = zeros::<S>(v.len());
    let relieved = relieve_spec(n, axis, v, blank);
    assert forall|c: int| 0 <= c < v.len() implies relieved[c] == v[c] by {
        lemma_offset_of_coords(n, c);
        let i = coord_x(n, c);
        let j = coord_y(n, c);
        let k = coord_z(n, c);
        if interior(n, i, j, k) {
            lemma_offset_in_range(n, i + 1, j, k);
            lemma_offset_in_range(n, i - 1, j, k);
            lemma_offset_in_range(n, i, j + 1, k);
            lemma_offset_in_range(n, i, j - 1, k);
            lemma_offset_in_range(n, i, j, k + 1);
            lemma_offset_in_range(n, i, j, k - 1);
            S::law_minus(zero::<S>());
            S::law_times_zero(half::<S>());
            S::law_times_zero(S::from_int_spec(n as i64));
            S::law_minus(v[c]);
        }
    }
    assert(relieved =~= v);
}

/// Where no interior cell has a net outflow, the pressure is zero in every
/// cell, whatever the number of sweeps.
pub proof fn lemma_pressure_of_divergence_free<S: ExactScalar>(
    n: int,
    div: Seq<S>,
    vx: Seq<S>,
    vy: Seq<S>,
    vz: Seq<S>,
    iters: nat,
)
    requires
        valid_resolution(n),
        div.len() == cell_count(n),
        forall|i: int, j: int, k: int|
            interior(n, i, j, k) ==> #[trigger] outflow(n, vx, vy, vz, i, j, k) == zero::<S>(),
    ensures
        pressure_spec(n, div, vx, vy, vz, iters) == zeros::<S>(div.len()),
{
    let source = source_spec(n, div, vx, vy, vz);
    lemma_resolution_bound(n);
    lemma_enforce_zeros::<S>(n, BoundaryKind::Plain);
    S::law_from_int_nonzero(6);
    assert forall|i: int, j: int, k: int| interior(n, i, j, k) implies source[#[trigger] offset(
        n,
        i,
        j,
        k,
    )] == zero::<S>() by {
        lemma_divergence_at(n, div, vx, vy, vz, i, j, k);
        lemma_enforce_at(n, BoundaryKind::Plain, divergence_spec(n, div, vx, vy, vz), i, j, k);
        assert(outflow(n, vx, vy, vz, i, j, k) == zero::<S>());
        S::law_times_zero(half::<S>().negated_spec());
        S::law_from_int_nonzero(n as i64);
        S::law_over(S::from_int_spec(n as i64));
    }
    lemma_solve_zeros(n, BoundaryKind::Plain, source, one::<S>(), S::from_int_spec(6), iters);
}

/// Projecting a velocity that has no net outflow in any interior cell finds
/// the pressure zero everywhere and leaves the velocity as it was, but for
/// the boundary being enforced on it.
pub proof fn lemma_project_divergence_free<S: ExactScalar>(
    n: int,
    div: Seq<S>,
    vx: Seq<S>,
    vy: Seq<S>,
    vz: Seq<S>,
    iters: nat,
)
    requires
        valid_resolution(n),
        div.len() == cell_count(n),
        vx.len() == cell_count(n),
        vy.len() == cell_count(n),
        vz.len() == cell_count(n),
        forall|i: int, j: int, k: int|
            interior(n, i, j, k) ==> #[trigger] outflow(n, vx, vy, vz, i, j, k) == zero::<S>(),
    ensures
        pressure_spec(n, div, vx, vy, vz, iters) == zeros::<S>(div.len()),
        projected_spec(n, Axis::X, vx, pressure_spec(n, div, vx, vy, vz, iters)) == enforce_spec(
            n,
            BoundaryKind::X,
            vx,
        ),
        projected_spec(n, Axis::Y, vy, pressure_spec(n, div, vx, vy, vz, iters)) == enforce_spec(
            n,
            BoundaryKind::Y,
            vy,
        ),
        projected_spec(n, Axis::Z, vz, pressure_spec(n, div, vx, vy, vz, iters)) == enforce_spec(
            n,
            BoundaryKind::Z,
            vz,
        ),
{
    lemma_pressure_of_divergence_free(n, div, vx, vy, vz, iters);
    lemma_relieve_without_pressure(n, Axis::X, vx);
    lemma_relieve_without_pressure(n, Axis::Y, vy);
    lemma_relieve_without_pressure(n, Axis::Z, vz);
}

/// A velocity at rest has no net outflow in any interior cell.
pub proof fn lemma_outflow_at_rest<S: ExactScalar>(n: int, vx: Seq<S>, vy: Seq<S>, vz: Seq<S>)
    requires
        n >= 3,
        at_rest(n, vx),
        at_rest(n, vy),
        at_rest(n, vz),
    ensures
        forall|i: int, j: int, k: int|
            interior(n, i, j, k) ==> #[trigger] outflow(n, vx, vy, vz, i, j, k) == zero::<S>(),
{
    assert forall|i: int, j: int, k: int| interior(n, i, j, k) implies #[trigger] outflow(
        n,
        vx,
        vy,
        vz,
        i,
        j,
        k,
    ) == zero::<S>() by {
        assert(vx[offset(n, i + 1, j, k)] == zero::<S>());
        assert(vx[offset(n, i - 1, j, k)] == zero::<S>());
        assert(vy[offset(n, i, j + 1, k)] == zero::<S>());
        assert(vy[offset(n, i, j - 1, k)] == zero::<S>());
        assert(vz[offset(n, i, j, k + 1)] == zero::<S>());
        assert(vz[offset(n, i, j, k - 1)] == zero::<S>());
        S::law_minus(zero::<S>());
        S::law_plus_zero(zero::<S>());
    }
}

/// Where no interior cell has a net outflow, the divergence written into a
/// field of zeros leaves it at zero, also once the boundary is enforced.
pub proof fn lemma_source_of_divergence_free<S: ExactScalar>(
    n: int,
    vx: Seq<S>,
    vy: Seq<S>,
    vz: Seq<S>,
)
    requires
        valid_resolution(n),
        forall|i: int, j: int, k: int|
            interior(n, i, j, k) ==> #[trigger] outflow(n, vx, vy, vz, i, j, k) == zero::<S>(),
    ensures
        source_spec(n, zeros::<S>(cell_count(n) as nat), vx, vy, vz) == zeros::<S>(
            cell_count(n) as nat,
        ),
{
    let blank = zeros::<S>(cell_count(n) as nat);
    let measured = divergence_spec(n, blank, vx, vy, vz);
    lemma_resolution_bound(n);
    assert forall|c: int| 0 <= c < blank.len() implies measured[c] == blank[c] by {
        lemma_offset_of_coords(n, c);
        let i = coord_x(n, c);
        let j = coord_y(n, c);
        let k = coord_z(n, c);
        if interior(n, i, j, k) {
            assert(outflow(n, vx, vy, vz, i, j, k) == zero::<S>());
            S::law_times_zero(half::<S>().negated_spec());
            S::law_from_int_nonzero(n as i64);
            S::law_over(S::from_int_spec(n as i64));
        }
    }
    assert(measured =~= blank);
    lemma_enforce_zeros::<S>(n, BoundaryKind::Plain);
}

/// Projecting a fluid at rest leaves it at rest, with the pressure zero
/// everywhere.
pub proof fn lemma_project_at_rest<S: ExactScalar>(n: int, div: Seq<S>, axis: Axis, iters: nat)
    requires
        valid_resolution(n),
        div.len() == cell_count(n),
    ensures
        pressure_spec(n, div, zeros::<S>(div.len()), zeros(div.len()), zeros(div.len()), iters)
            == zeros::<S>(div.len()),
        projected_spec(
            n,
            axis,
            zeros::<S>(div.len()),
            pressure_spec(n, div, zeros::<S>(div.len()), zeros(div.len()), zeros(div.len()), iters),
        ) == zeros::<S>(div.len()),
{
    let blank = zeros::<S>(div.len());
    assert forall|i: int, j: int, k: int| interior(n, i, j, k) implies #[trigger] outflow(
        n,
        blank,
        blank,
        blank,
        i,
        j,
        k,
    ) == zero::<S>() by {
        lemma_offset_in_range(n, i + 1, j, k);
        lemma_offset_in_range(n, i - 1, j, k);
        lemma_offset_in_range(n, i, j + 1, k);
        lemma_offset_in_range(n, i, j - 1, k);
        lemma_offset_in_range(n, i, j, k + 1);
        lemma_offset_in_range(n, i, j, k - 1);
        S::law_minus(zero::<S>());
        S::law_plus_zero(zero::<S>());
    }
    lemma_project_divergence_free(n, div, blank, blank, blank, iters);
    lemma_enforce_zeros::<S>(n, axis.kind_spec());
}

/// The divergence field, kept folded while the cells are written.
#[verifier::opaque]
spec fn divergence_goal<S: Scalar>(n: int, div: Seq<S>, vx: Seq<S>, vy: Seq<S>, vz: Seq<S>) -> Seq<
    S,
> {
    divergence_spec(n, div, vx, vy, vz)
}

proof fn lemma_divergence_goal_at<S: Scalar>(
    n: int,
    div: Seq<S>,
    vx: Seq<S>,
    vy: Seq<S>,
    vz: Seq<S>,
    i: int,
    j: int,
    k: int,
)
    requires
        n >= 1,
        div.len() == cell_count(n),
        in_grid(n, i, j, k),
    ensures
        divergence_goal(n, div, vx, vy, vz).len() == div.len(),
        divergence_goal(n, div, vx, vy, vz)[offset(n, i, j, k)] == (if interior(n, i, j, k) {
            divergence_value(n, vx, vy, vz, i, j, k)
        } else {
            div[offset(n, i, j, k)]
        }),
{
    reveal(divergence_goal);
    lemma_divergence_at(n, div, vx, vy, vz, i, j, k);
}

proof fn lemma_divergence_goal_reached<S: Scalar>(
    n: int,
    cur: Seq<S>,
    div: Seq<S>,
    vx: Seq<S>,
    vy: Seq<S>,
    vz: Seq<S>,
)
    requires
        n >= 3,
        div.len() == cell_count(n),
        in_progress(n, cur, div, divergence_goal(n, div, vx, vy, vz), 1, 1, n - 1),
    ensures
        cur == divergence_spec(n, div, vx, vy, vz),
{
    let goal = divergence_goal(n, div, vx, vy, vz);
    assert forall|p: int, q: int, r: int| in_grid(n, p, q, r) && !interior(n, p, q, r) implies goal[#[trigger] offset(
        n,
        p,
        q,
        r,
    )] == div[offset(n, p, q, r)] by {
        lemma_divergence_goal_at(n, div, vx, vy, vz, p, q, r);
    }
    lemma_progress_done(n, cur, div, goal);
    reveal(divergence_goal);
}

/// The relieved velocity, kept folded while the cells are written.
#[verifier::opaque]
spec fn relieve_goal<S: Scalar>(n: int, axis: Axis, v: Seq<S>, p: Seq<S>) -> Seq<S> {
    relieve_spec(n, axis, v, p)
}

proof fn lemma_relieve_goal_at<S: Scalar>(
    n: int,
    axis: Axis,
    v: Seq<S>,
    p: Seq<S>,
    i: int,
    j: int,
    k: int,
)
    requires
        n >= 1,
        v.len() == cell_count(n),
        in_grid(n, i, j, k),
    ensures
        relieve_goal(n, axis, v, p).len() == v.len(),
        relieve_goal(n, axis, v, p)[offset(n, i, j, k)] == (if interior(n, i, j, k) {
            relieved_value(n, axis, v, p, i, j, k)
        } else {
            v[offset(n, i, j, k)]
        }),
{
    reveal(relieve_goal);
    lemma_relieve_at(n, axis, v, p, i, j, k);
}

proof fn lemma_relieve_goal_reached<S: Scalar>(
    n: int,
    axis: Axis,
    cur: Seq<S>,
    v: Seq<S>,
    p: Seq<S>,
)
    requires
        n >= 3,
        v.len() == cell_count(n),
        in_progress(n, cur, v, relieve_goal(n, axis, v, p), 1, 1, n - 1),
    ensures
        cur == relieve_spec(n, axis, v, p),
{
    let goal = relieve_goal(n, axis, v, p);
    assert forall|a: int, b: int, c: int| in_grid(n, a, b, c) && !interior(n, a, b, c) implies goal[#[trigger] offset(
        n,
        a,
        b,
        c,
    )] == v[offset(n, a, b, c)] by {
        lemma_relieve_goal_at(n, axis, v, p, a, b, c);
    }
    lemma_progress_done(n, cur, v, goal);
    reveal(relieve_goal);
}

/// The divergence of the velocity at the interior cell `(i, j, k)`, given
/// the factor `-1/2` and the resolution as scalars.
fn divergence_at<S: Scalar>(
    grid: &IndexMapper,
    vx: &Vec<S>,
    vy: &Vec<S>,
    vz: &Vec<S>,
    scale: S,
    width: S,
    i: usize,
    j: usize,
    k: usize,
) -> (r: S)
    requires
        vx@.len() == cell_count(grid.n()),
        vy@.len() == cell_count(grid.n()),
        vz@.len() == cell_count(grid.n()),
        interior(grid.n(), i as int, j as int, k as int),
        scale == half::<S>().negated_spec(),
        width == S::from_int_spec(grid.n() as i64),
    ensures
        r == divergence_value(grid.n(), vx@, vy@, vz@, i as int, j as int, k as int),
{
    proof {
        use_type_invariant(grid);
        lemma_resolution_bound(grid.n());
    }
    let spread = vx[grid.cell(i + 1, j, k)].minus(vx[grid.cell(i - 1, j, k)]).plus(
        vy[grid.cell(i, j + 1, k)],
    ).minus(vy[grid.cell(i, j - 1, k)]).plus(vz[grid.cell(i, j, k + 1)]).minus(
        vz[grid.cell(i, j, k - 1)],
    );
    scale.times(spread).over(width)
}

/// Writes the divergence of the velocity into every interior cell of `div`.
#[verifier::loop_isolation(false)]
pub fn divergence<S: Scalar>(
    grid: &IndexMapper,
    div: &mut Vec<S>,
    vx: &Vec<S>,
    vy: &Vec<S>,
    vz: &Vec<S>,
)
    requires
        old(div)@.len() == cell_count(grid.n()),
        vx@.len() == cell_count(grid.n()),
        vy@.len() == cell_count(grid.n()),
        vz@.len() == cell_count(grid.n()),
    ensures
        final(div)@ == divergence_spec(grid.n(), old(div)@, vx@, vy@, vz@),
        final(div)@.len() == cell_count(grid.n()),
{
    proof {
        use_type_invariant(grid);
    }
    let n = grid.resolution();
    let ghost m = grid.n();
    let ghost start = div@;
    let ghost goal = divergence_goal(m, start, vx@, vy@, vz@);
    proof {
        lemma_divergence_goal_at(m, start, vx@, vy@, vz@, 0, 0, 0);
        lemma_resolution_bound(m);
    }
    let scale: S = make_ratio::<S>(1, 2).negated();
    let width: S = S::from_int(n as i64);
    let mut k: usize = 1;
    while k < n - 1
        invariant
            1 <= k <= n - 1,
            in_progress(m, div@, start, goal, 1, 1, k as int),
        decreases n - k,
    {
        let mut j: usize = 1;
        while j < n - 1
            invariant
                1 <= k < n - 1,
                1 <= j <= n - 1,
                in_progress(m, div@, start, goal, 1, j as int, k as int),
            decreases n - j,
        {
            let mut i: usize = 1;
            while i < n - 1
                invariant
                    1 <= k < n - 1,
                    1 <= j < n - 1,
                    1 <= i <= n - 1,
                    in_progress(m, div@, start, goal, i as int, j as int, k as int),
                decreases n - i,
            {
                let value = divergence_at(grid, vx, vy, vz, scale, width, i, j, k);
                proof {
                    lemma_divergence_goal_at(m, start, vx@, vy@, vz@, i as int, j as int, k as int);
                }
                advance_cell(grid, div, i, j, k, value, Ghost(start), Ghost(goal));
                i = i + 1;
            }
            j = j + 1;
        }
        k = k + 1;
    }
    proof {
        lemma_divergence_goal_reached(m, div@, start, vx@, vy@, vz@);
    }
}

/// Sets every cell of `p` to zero.
pub fn clear<S: Scalar>(p: &mut Vec<S>)
    ensures
        final(p)@ == zeros::<S>(old(p)@.len()),
{
    let len = p.len();
    let zero_value: S = S::from_int(0);
    let mut c: usize = 0;
    while c < len
        invariant
            p@.len() == len,
            c <= len,
            zero_value == zero::<S>(),
            forall|b: int| 0 <= b < c ==> p@[b] == zero::<S>(),
        decreases len - c,
    {
        p.set(c, zero_value);
        c = c + 1;
    }
    assert(p@ =~= zeros::<S>(len as nat));
}

/// The difference of `f` between the two neighbours of the interior cell
/// `(i, j, k)` along `axis`.
fn difference_at<S: Scalar>(
    grid: &IndexMapper,
    axis: Axis,
    f: &Vec<S>,
    i: usize,
    j: usize,
    k: usize,
) -> (r: S)
    requires
        f@.len() == cell_count(grid.n()),
        interior(grid.n(), i as int, j as int, k as int),
    ensures
        r == central_difference(grid.n(), axis, f@, i as int, j as int, k as int),
{
    proof {
        use_type_invariant(grid);
        lemma_resolution_bound(grid.n());
    }
    match axis {
        Axis::X => f[grid.cell(i + 1, j, k)].minus(f[grid.cell(i - 1, j, k)]),
        Axis::Y => f[grid.cell(i, j + 1, k)].minus(f[grid.cell(i, j - 1, k)]),
        Axis::Z => f[grid.cell(i, j, k + 1)].minus(f[grid.cell(i, j, k - 1)]),
    }
}

/// Takes the gradient of the pressure `p` along `axis` off the velocity `v`
/// in every interior cell.
#[verifier::loop_isolation(false)]
pub fn relieve<S: Scalar>(grid: &IndexMapper, axis: Axis, v: &mut Vec<S>, p: &Vec<S>)
    requires
        old(v)@.len() == cell_count(grid.n()),
        p@.len() == cell_count(grid.n()),
    ensures
        final(v)@ == relieve_spec(grid.n(), axis, old(v)@, p@),
        final(v)@.len() == cell_count(grid.n()),
{
    proof {
        use_type_invariant(grid);
    }
    let n = grid.resolution();
    let ghost m = grid.n();
    let ghost start = v@;
    let ghost goal = relieve_goal(m, axis, start, p@);
    proof {
        lemma_resolution_bound(m);
        lemma_relieve_goal_at(m, axis, start, p@, 0, 0, 0);
    }
    let scale: S = make_ratio(1, 2);
    let width: S = S::from_int(n as i64);
    let mut k: usize = 1;
    while k < n - 1
        invariant
            1 <= k <= n - 1,
            in_progress(m, v@, start, goal, 1, 1, k as int),
        decreases n - k,
    {
        let mut j: usize = 1;
        while j < n - 1
            invariant
                1 <= k < n - 1,
                1 <= j <= n - 1,
                in_progress(m, v@, start, goal, 1, j as int, k as int),
            decreases n - j,
        {
            let mut i: usize = 1;
            while i < n - 1
                invariant
                    1 <= k < n - 1,
                    1 <= j < n - 1,
                    1 <= i <= n - 1,
                    in_progress(m, v@, start, goal, i as int, j as int, k as int),
                decreases n - i,
            {
                let slope = difference_at(grid, axis, p, i, j, k);
                proof {
                    lemma_progress_step(m, v@, start, goal, i as int, j as int, k as int);
                    lemma_relieve_goal_at(m, axis, start, p@, i as int, j as int, k as int);
                }
                let value = v[grid.cell(i, j, k)].minus(scale.times(slope).times(width));
                advance_cell(grid, v, i, j, k, value, Ghost(start), Ghost(goal));
                i = i + 1;
            }
            j = j + 1;
        }
        k = k + 1;
    }
    proof {
        lemma_relieve_goal_reached(m, axis, v@, start, p@);
    }
}

/// Makes the velocity `(vx, vy, vz)` free of divergence, as far as `iters`
/// sweeps of the pressure solver get. `p` and `div` are scratch fields: on
/// return they hold the pressure and the divergence that it was solved
/// against.
pub fn project<S: Scalar>(
    grid: &IndexMapper,
    vx: &mut Vec<S>,
    vy: &mut Vec<S>,
    vz: &mut Vec<S>,
    p: &mut Vec<S>,
    div: &mut Vec<S>,
    iters: usize,
)
    requires
        old(vx)@.len() == cell_count(grid.n()),
        old(vy)@.len() == cell_count(grid.n()),
        old(vz)@.len() == cell_count(grid.n()),
        old(p)@.len() == cell_count(grid.n()),
        old(div)@.len() == cell_count(grid.n()),
    ensures
        final(div)@ == source_spec(grid.n(), old(div)@, old(vx)@, old(vy)@, old(vz)@),
        final(p)@ == pressure_spec(
            grid.n(),
            old(div)@,
            old(vx)@,
            old(vy)@,
            old(vz)@,
            iters as nat,
        ),
        final(vx)@ == projected_spec(grid.n(), Axis::X, old(vx)@, final(p)@),
        final(vy)@ == projected_spec(grid.n(), Axis::Y, old(vy)@, final(p)@),
        final(vz)@ == projected_spec(grid.n(), Axis::Z, old(vz)@, final(p)@),
        final(vx)@.len() == cell_count(grid.n()),
        final(vy)@.len() == cell_count(grid.n()),
        final(vz)@.len() == cell_count(grid.n()),
        final(p)@.len() == cell_count(grid.n()),
        final(div)@.len() == cell_count(grid.n()),
{
    proof {
        use_type_invariant(grid);
    }
    divergence(grid, div, vx, vy, vz);
    clear(p);
    enforce_boundary(grid, BoundaryKind::Plain, div);
    enforce_boundary(grid, BoundaryKind::Plain, p);
    linear_solve(grid, BoundaryKind::Plain, p, div, S::from_int(1), S::from_int(6), iters);
    relieve(grid, Axis::X, vx, p);
    relieve(grid, Axis::Y, vy, p);
    relieve(grid, Axis::Z, vz, p);
    enforce_boundary(grid, BoundaryKind::X, vx);
    enforce_boundary(grid, BoundaryKind::Y, vy);
    enforce_boundary(grid, BoundaryKind::Z, vz);
}

} // verus!
