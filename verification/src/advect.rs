//! Transport of a field along the velocity: every interior cell is traced
//! back over one time step and takes the value that the source field has
//! where the trace ends.
use crate::boundary::enforce_boundary;
use crate::boundary::enforce_spec;
use crate::boundary::lemma_enforce_at;
use crate::boundary::lemma_enforce_zeros;
use crate::boundary::BoundaryKind;
use crate::cells::advance_cell;
use crate::cells::in_progress;
use crate::cells::lemma_progress_done;
use crate::index::cell_count;
use crate::index::cell_index;
use crate::index::clamp_coord;
use crate::index::coord_x;
use crate::index::coord_y;
use crate::index::coord_z;
use crate::index::in_grid;
use crate::index::interior;
use crate::index::lemma_coords_of_offset;
use crate::index::lemma_offset_of_coords;
use crate::index::lemma_offset_in_range;
use crate::index::lemma_resolution_bound;
use crate::index::offset;
use crate::index::IndexMapper;
use crate::scalar::half;
use crate::scalar::make_ratio;
use crate::scalar::one;
use crate::scalar::zero;
use crate::scalar::zeros;
use crate::scalar::ExactScalar;
use crate::scalar::Scalar;
use vstd::prelude::*;

verus! {

/// The distance, in cells, that unit velocity covers in one time step.
pub open spec fn trace_scale<S: Scalar>(n: int, dt: S) -> S {
    dt.times_spec(S::from_int_spec((n - 2) as i64))
}

/// The position `x` moved into the band from one half to `n` plus one half.
pub open spec fn clamp_position<S: Scalar>(n: int, x: S) -> S {
    let low = half::<S>();
    let high = S::from_int_spec(n as i64).plus_spec(half::<S>());
    let raised = if x.less_than_spec(low) {
        low
    } else {
        x
    };
    if high.less_than_spec(raised) {
        high
    } else {
        raised
    }
}

/// Where, along one axis, the content of the cell at coordinate `i` was one
/// time step ago, given the velocity `v` along that axis.
pub open spec fn backtraced<S: Scalar>(n: int, dt: S, v: S, i: int) -> S {
    clamp_position(n, S::from_int_spec(i as i64).minus_spec(trace_scale(n, dt).times_spec(v)))
}

/// How far the position lies above its floor.
pub open spec fn fraction<S: Scalar>(x: S) -> S {
    x.minus_spec(S::from_int_spec(x.floor_spec()))
}

/// The weighted sum `w0 * a + w1 * b`.
pub open spec fn mix<S: Scalar>(w0: S, w1: S, a: S, b: S) -> S {
    w0.times_spec(a).plus_spec(w1.times_spec(b))
}

/// The source field sampled at the position `(x, y, z)`: the values at the
/// eight lattice points around it, weighted by the fractional offsets along
/// each axis. Lattice points off the grid are read at the nearest cell.
pub open spec fn interpolate_spec<S: Scalar>(n: int, d0: Seq<S>, x: S, y: S, z: S) -> S {
    let i0 = x.floor_spec() as int;
    let j0 = y.floor_spec() as int;
    let k0 = z.floor_spec() as int;
    let s1 = fraction(x);
    let s0 = one::<S>().minus_spec(s1);
    let t1 = fraction(y);
    let t0 = one::<S>().minus_spec(t1);
    let u1 = fraction(z);
    let u0 = one::<S>().minus_spec(u1);
    mix(
        s0,
        s1,
        mix(
            t0,
            t1,
            mix(u0, u1, d0[cell_index(n, i0, j0, k0)], d0[cell_index(n, i0, j0, k0 + 1)]),
            mix(u0, u1, d0[cell_index(n, i0, j0 + 1, k0)], d0[cell_index(n, i0, j0 + 1, k0 + 1)]),
        ),
        mix(
            t0,
            t1,
            mix(u0, u1, d0[cell_index(n, i0 + 1, j0, k0)], d0[cell_index(n, i0 + 1, j0, k0 + 1)]),
            mix(
                u0,
                u1,
                d0[cell_index(n, i0 + 1, j0 + 1, k0)],
                d0[cell_index(n, i0 + 1, j0 + 1, k0 + 1)],
            ),
        ),
    )
}

/// The value that transport gives to the interior cell `(i, j, k)`.
pub open spec fn advected_value<S: Scalar>(
    n: int,
    d0: Seq<S>,
    vx: Seq<S>,
    vy: Seq<S>,
    vz: Seq<S>,
    dt: S,
    i: int,
    j: int,
    k: int,
) -> S {
    let here = offset(n, i, j, k);
    interpolate_spec(
        n,
        d0,
        backtraced(n, dt, vx[here], i),
        backtraced(n, dt, vy[here], j),
        backtraced(n, dt, vz[here], k),
    )
}

/// The field `d` with every interior cell replaced by its transported value.
pub open spec fn transport_spec<S: Scalar>(
    n: int,
    d: Seq<S>,
    d0: Seq<S>,
    vx: Seq<S>,
    vy: Seq<S>,
    vz: Seq<S>,
    dt: S,
) -> Seq<S> {
    Seq::new(
        d.len(),
        |c: int|
            if interior(n, coord_x(n, c), coord_y(n, c), coord_z(n, c)) {
                advected_value(n, d0, vx, vy, vz, dt, coord_x(n, c), coord_y(n, c), coord_z(n, c))
            } else {
                d[c]
            },
    )
}

/// The field after the advection step: transport, then the boundary.
pub open spec fn advect_spec<S: Scalar>(
    n: int,
    kind: BoundaryKind,
    d: Seq<S>,
    d0: Seq<S>,
    vx: Seq<S>,
    vy: Seq<S>,
    vz: Seq<S>,
    dt: S,
) -> Seq<S> {
    enforce_spec(n, kind, transport_spec(n, d, d0, vx, vy, vz, dt))
}

/// The transported field at a cell on the grid.
pub proof fn lemma_transport_at<S: Scalar>(
    n: int,
    d: Seq<S>,
    d0: Seq<S>,
    vx: Seq<S>,
    vy: Seq<S>,
    vz: Seq<S>,
    dt: S,
    i: int,
    j: int,
    k: int,
)
    requires
        n >= 1,
        d.len() == cell_count(n),
        in_grid(n, i, j, k),
    ensures
        0 <= offset(n, i, j, k) < d.len(),
        transport_spec(n, d, d0, vx, vy, vz, dt).len() == d.len(),
        transport_spec(n, d, d0, vx, vy, vz, dt)[offset(n, i, j, k)] == (if interior(n, i, j, k) {
            advected_value(n, d0, vx, vy, vz, dt, i, j, k)
        } else {
            d[offset(n, i, j, k)]
        }),
{
    lemma_offset_in_range(n, i, j, k);
    lemma_coords_of_offset(n, i, j, k);
}

/// A weighted sum with the weights one and zero is its first term.
proof fn lemma_mix_first<S: ExactScalar>(a: S, b: S)
    ensures
        mix(one::<S>(), zero::<S>(), a, b) == a,
{
    S::law_times_one(a);
    S::law_times_zero(b);
    S::law_plus_zero(a);
}

/// With no velocity, the trace of an interior coordinate ends where it
/// began.
proof fn lemma_backtraced_at_rest<S: ExactScalar>(n: int, dt: S, i: int)
    requires
        3 <= n <= S::exact_upto(),
        1 <= i <= n - 2,
    ensures
        backtraced(n, dt, zero::<S>(), i) == S::from_int_spec(i as i64),
{
    S::law_times_zero(trace_scale(n, dt));
    S::law_minus(S::from_int_spec(i as i64));
    S::law_lattice(n as i64, i as i64);
}

/// Sampling at the position of an interior cell gives the value of that
/// cell.
proof fn lemma_interpolate_on_lattice<S: ExactScalar>(n: int, d0: Seq<S>, i: int, j: int, k: int)
    requires
        3 <= n <= S::exact_upto(),
        interior(n, i, j, k),
    ensures
        interpolate_spec(
            n,
            d0,
            S::from_int_spec(i as i64),
            S::from_int_spec(j as i64),
            S::from_int_spec(k as i64),
        ) == d0[offset(n, i, j, k)],
{
    let x = S::from_int_spec(i as i64);
    let y = S::from_int_spec(j as i64);
    let z = S::from_int_spec(k as i64);
    S::law_lattice(n as i64, i as i64);
    S::law_lattice(n as i64, j as i64);
    S::law_lattice(n as i64, k as i64);
    S::law_minus(x);
    S::law_minus(y);
    S::law_minus(z);
    S::law_minus(one::<S>());
    assert(fraction(x) == zero::<S>());
    assert(fraction(y) == zero::<S>());
    assert(fraction(z) == zero::<S>());
    let a = d0[cell_index(n, i, j, k)];
    let b = d0[cell_index(n, i, j, k + 1)];
    let c = d0[cell_index(n, i, j + 1, k)];
    let e = d0[cell_index(n, i, j + 1, k + 1)];
    let f = d0[cell_index(n, i + 1, j, k)];
    let g = d0[cell_index(n, i + 1, j, k + 1)];
    let h = d0[cell_index(n, i + 1, j + 1, k)];
    let l = d0[cell_index(n, i + 1, j + 1, k + 1)];
    let o = one::<S>();
    let w = zero::<S>();
    lemma_mix_first(a, b);
    lemma_mix_first(c, e);
    lemma_mix_first(f, g);
    lemma_mix_first(h, l);
    lemma_mix_first(mix(o, w, a, b), mix(o, w, c, e));
    lemma_mix_first(mix(o, w, f, g), mix(o, w, h, l));
    lemma_mix_first(
        mix(o, w, mix(o, w, a, b), mix(o, w, c, e)),
        mix(o, w, mix(o, w, f, g), mix(o, w, h, l)),
    );
}

/// Advection in a fluid at rest moves nothing: every interior cell of the
/// target takes the value that the source holds in the same cell.
///
/// The resolution must be one up to which the scalar represents the lattice
/// exactly.
pub proof fn lemma_advect_at_rest<S: ExactScalar>(
    n: int,
    kind: BoundaryKind,
    d: Seq<S>,
    d0: Seq<S>,
    vx: Seq<S>,
    vy: Seq<S>,
    vz: Seq<S>,
    dt: S,
)
    requires
        3 <= n <= S::exact_upto(),
        d.len() == cell_count(n),
        forall|p: int, q: int, r: int|
            interior(n, p, q, r) ==> vx[#[trigger] offset(n, p, q, r)] == zero::<S>() && vy[offset(
                n,
                p,
                q,
                r,
            )] == zero::<S>() && vz[offset(n, p, q, r)] == zero::<S>(),
    ensures
        forall|p: int, q: int, r: int|
            interior(n, p, q, r) ==> advect_spec(n, kind, d, d0, vx, vy, vz, dt)[#[trigger] offset(
                n,
                p,
                q,
                r,
            )] == d0[offset(n, p, q, r)],
{
    let moved = transport_spec(n, d, d0, vx, vy, vz, dt);
    assert forall|p: int, q: int, r: int| interior(n, p, q, r) implies advect_spec(
        n,
        kind,
        d,
        d0,
        vx,
        vy,
        vz,
        dt,
    )[#[trigger] offset(n, p, q, r)] == d0[offset(n, p, q, r)] by {
        lemma_transport_at(n, d, d0, vx, vy, vz, dt, p, q, r);
        lemma_enforce_at(n, kind, moved, p, q, r);
        lemma_backtraced_at_rest(n, dt, p);
        lemma_backtraced_at_rest(n, dt, q);
        lemma_backtraced_at_rest(n, dt, r);
        lemma_interpolate_on_lattice(n, d0, p, q, r);
    }
}

/// Carrying a source whose interior is zero into a field of zeros, in a fluid
/// at rest, leaves the field at zero.
pub proof fn lemma_advect_nothing<S: ExactScalar>(
    n: int,
    kind: BoundaryKind,
    d0: Seq<S>,
    vx: Seq<S>,
    vy: Seq<S>,
    vz: Seq<S>,
    dt: S,
)
    requires
        3 <= n <= S::exact_upto(),
        forall|p: int, q: int, r: int|
            interior(n, p, q, r) ==> d0[#[trigger] offset(n, p, q, r)] == zero::<S>(),
        forall|p: int, q: int, r: int|
            interior(n, p, q, r) ==> vx[#[trigger] offset(n, p, q, r)] == zero::<S>() && vy[offset(
                n,
                p,
                q,
                r,
            )] == zero::<S>() && vz[offset(n, p, q, r)] == zero::<S>(),
    ensures
        advect_spec(n, kind, zeros::<S>(cell_count(n) as nat), d0, vx, vy, vz, dt) == zeros::<S>(
            cell_count(n) as nat,
        ),
{
    let blank = zeros::<S>(cell_count(n) as nat);
    let moved = transport_spec(n, blank, d0, vx, vy, vz, dt);
    assert(n * n * n >= 0) by (nonlinear_arith)
        requires
            n >= 3,
    ;
    assert forall|c: int| 0 <= c < blank.len() implies moved[c] == blank[c] by {
        lemma_offset_of_coords(n, c);
        let i = coord_x(n, c);
        let j = coord_y(n, c);
        let k = coord_z(n, c);
        if interior(n, i, j, k) {
            assert(vx[offset(n, i, j, k)] == zero::<S>());
            assert(d0[offset(n, i, j, k)] == zero::<S>());
            lemma_backtraced_at_rest(n, dt, i);
            lemma_backtraced_at_rest(n, dt, j);
            lemma_backtraced_at_rest(n, dt, k);
            lemma_interpolate_on_lattice(n, d0, i, j, k);
        }
    }
    assert(moved =~= blank);
    lemma_enforce_zeros::<S>(n, kind);
}

/// The transported field, kept folded while the cells are written.
#[verifier::opaque]
spec fn goal_of<S: Scalar>(
    n: int,
    d: Seq<S>,
    d0: Seq<S>,
    vx: Seq<S>,
    vy: Seq<S>,
    vz: Seq<S>,
    dt: S,
) -> Seq<S> {
    transport_spec(n, d, d0, vx, vy, vz, dt)
}

proof fn lemma_goal_at<S: Scalar>(
    n: int,
    d: Seq<S>,
    d0: Seq<S>,
    vx: Seq<S>,
    vy: Seq<S>,
    vz: Seq<S>,
    dt: S,
    i: int,
    j: int,
    k: int,
)
    requires
        n >= 1,
        d.len() == cell_count(n),
        in_grid(n, i, j, k),
    ensures
        goal_of(n, d, d0, vx, vy, vz, dt).len() == d.len(),
        goal_of(n, d, d0, vx, vy, vz, dt)[offset(n, i, j, k)] == (if interior(n, i, j, k) {
            advected_value(n, d0, vx, vy, vz, dt, i, j, k)
        } else {
            d[offset(n, i, j, k)]
        }),
{
    reveal(goal_of);
    lemma_transport_at(n, d, d0, vx, vy, vz, dt, i, j, k);
}

proof fn lemma_goal_reached<S: Scalar>(
    n: int,
    cur: Seq<S>,
    d: Seq<S>,
    d0: Seq<S>,
    vx: Seq<S>,
    vy: Seq<S>,
    vz: Seq<S>,
    dt: S,
)
    requires
        n >= 3,
        d.len() == cell_count(n),
        in_progress(n, cur, d, goal_of(n, d, d0, vx, vy, vz, dt), 1, 1, n - 1),
    ensures
        cur == transport_spec(n, d, d0, vx, vy, vz, dt),
{
    let goal = goal_of(n, d, d0, vx, vy, vz, dt);
    assert forall|p: int, q: int, r: int| in_grid(n, p, q, r) && !interior(n, p, q, r) implies goal[#[trigger] offset(
        n,
        p,
        q,
        r,
    )] == d[offset(n, p, q, r)] by {
        lemma_goal_at(n, d, d0, vx, vy, vz, dt, p, q, r);
    }
    lemma_progress_done(n, cur, d, goal);
    reveal(goal_of);
}

/// The coordinate after `v`, or `v` itself at the top of the range, where
/// both are clamped to the same cell.
fn next_coord(grid: &IndexMapper, v: i64) -> (r: i64)
    ensures
        clamp_coord(grid.n(), r as int) == clamp_coord(
            grid.n(),
            v + 1,
        ),
{
    proof {
        use_type_invariant(grid);
        lemma_resolution_bound(grid.n());
    }
    if v < i64::MAX {
        v + 1
    } else {
        v
    }
}

/// The weighted sum `w0 * a + w1 * b`.
fn mixed<S: Scalar>(w0: S, w1: S, a: S, b: S) -> (r: S)
    ensures
        r == mix(w0, w1, a, b),
{
    w0.times(a).plus(w1.times(b))
}

/// How far the position lies above its floor.
fn fraction_of<S: Scalar>(x: S) -> (r: S)
    ensures
        r == fraction(x),
{
    x.minus(S::from_int(x.floor()))
}

/// Samples the field `d0` at the position `(x, y, z)` by trilinear
/// interpolation between the eight lattice points around it.
pub fn interpolate<S: Scalar>(grid: &IndexMapper, d0: &Vec<S>, x: S, y: S, z: S) -> (r: S)
    requires
        d0@.len() == cell_count(grid.n()),
    ensures
        r == interpolate_spec(grid.n(), d0@, x, y, z),
{
    proof {
        use_type_invariant(grid);
    }
    let i0 = x.floor();
    let j0 = y.floor();
    let k0 = z.floor();
    let i1 = next_coord(grid, i0);
    let j1 = next_coord(grid, j0);
    let k1 = next_coord(grid, k0);
    let s1 = fraction_of(x);
    let s0 = S::from_int(1).minus(s1);
    let t1 = fraction_of(y);
    let t0 = S::from_int(1).minus(t1);
    let u1 = fraction_of(z);
    let u0 = S::from_int(1).minus(u1);
    let near = mixed(
        t0,
        t1,
        mixed(u0, u1, d0[grid.index(i0, j0, k0)], d0[grid.index(i0, j0, k1)]),
        mixed(u0, u1, d0[grid.index(i0, j1, k0)], d0[grid.index(i0, j1, k1)]),
    );
    let far = mixed(
        t0,
        t1,
        mixed(u0, u1, d0[grid.index(i1, j0, k0)], d0[grid.index(i1, j0, k1)]),
        mixed(u0, u1, d0[grid.index(i1, j1, k0)], d0[grid.index(i1, j1, k1)]),
    );
    mixed(s0, s1, near, far)
}

/// The constants of a trace: the distance that unit velocity covers in one
/// time step, and the two ends of the band that positions are kept in.
struct Trace<S> {
    scale: S,
    low: S,
    high: S,
}

impl<S: Scalar> Trace<S> {
    /// The constants are those of a grid of resolution `n` and a time step
    /// `dt`.
    spec fn fits(self, n: int, dt: S) -> bool {
        &&& self.scale == trace_scale(n, dt)
        &&& self.low == half::<S>()
        &&& self.high == S::from_int_spec(n as i64).plus_spec(half::<S>())
    }

    fn new(grid: &IndexMapper, dt: S) -> (r: Self)
        ensures
            r.fits(grid.n(), dt),
    {
        proof {
            use_type_invariant(grid);
            lemma_resolution_bound(grid.n());
        }
        let n = grid.resolution();
        let low: S = make_ratio(1, 2);
        Trace {
            scale: dt.times(S::from_int((n - 2) as i64)),
            low,
            high: S::from_int(n as i64).plus(low),
        }
    }

    /// Traces the coordinate `i` back along one axis on which the velocity
    /// is `v`.
    fn back(&self, Ghost(n): Ghost<int>, Ghost(dt): Ghost<S>, v: S, i: usize) -> (r: S)
        requires
            self.fits(n, dt),
            i < 0x40_0000,
        ensures
            r == backtraced(n, dt, v, i as int),
    {
        let x = S::from_int(i as i64).minus(self.scale.times(v));
        let raised = if x.less_than(self.low) { self.low } else { x };
        if self.high.less_than(raised) {
            self.high
        } else {
            raised
        }
    }
}

/// Moves the source `d0` along the velocity `(vx, vy, vz)` over one time
/// step `dt` into the interior of `d`, then enforces the boundary on `d`.
#[verifier::loop_isolation(false)]
pub fn advect<S: Scalar>(
    grid: &IndexMapper,
    kind: BoundaryKind,
    d: &mut Vec<S>,
    d0: &Vec<S>,
    vx: &Vec<S>,
    vy: &Vec<S>,
    vz: &Vec<S>,
    dt: S,
)
    requires
        old(d)@.len() == cell_count(grid.n()),
        d0@.len() == cell_count(grid.n()),
        vx@.len() == cell_count(grid.n()),
        vy@.len() == cell_count(grid.n()),
        vz@.len() == cell_count(grid.n()),
    ensures
        final(d)@ == advect_spec(grid.n(), kind, old(d)@, d0@, vx@, vy@, vz@, dt),
        final(d)@.len() == cell_count(grid.n()),
{
    proof {
        use_type_invariant(grid);
    }
    let n = grid.resolution();
    let ghost m = grid.n();
    let ghost start = d@;
    let ghost goal = goal_of(m, start, d0@, vx@, vy@, vz@, dt);
    proof {
        lemma_goal_at(m, start, d0@, vx@, vy@, vz@, dt, 0, 0, 0);
        lemma_resolution_bound(m);
    }
    let trace = Trace::new(grid, dt);
    let mut k: usize = 1;
    while k < n - 1
        invariant
            1 <= k <= n - 1,
            in_progress(m, d@, start, goal, 1, 1, k as int),
        decreases n - k,
    {
        let mut j: usize = 1;
        while j < n - 1
            invariant
                1 <= k < n - 1,
                1 <= j <= n - 1,
                in_progress(m, d@, start, goal, 1, j as int, k as int),
            decreases n - j,
        {
            let mut i: usize = 1;
            while i < n - 1
                invariant
                    1 <= k < n - 1,
                    1 <= j < n - 1,
                    1 <= i <= n - 1,
                    in_progress(m, d@, start, goal, i as int, j as int, k as int),
                decreases n - i,
            {
                let here = grid.cell(i, j, k);
                let x = trace.back(Ghost(m), Ghost(dt), vx[here], i);
                let y = trace.back(Ghost(m), Ghost(dt), vy[here], j);
                let z = trace.back(Ghost(m), Ghost(dt), vz[here], k);
                let value = interpolate(grid, d0, x, y, z);
                proof {
                    lemma_goal_at(m, start, d0@, vx@, vy@, vz@, dt, i as int, j as int, k as int);
                }
                advance_cell(grid, d, i, j, k, value, Ghost(start), Ghost(goal));
                i = i + 1;
            }
            j = j + 1;
        }
        k = k + 1;
    }
    proof {
        lemma_goal_reached(m, d@, start, d0@, vx@, vy@, vz@, dt);
    }
    enforce_boundary(grid, kind, d);
}

} // verus!
