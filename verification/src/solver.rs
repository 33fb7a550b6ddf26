//! Relaxation of a field toward the solution of a linear system, and the
//! diffusion step that is built on it.
use crate::boundary::enforce_boundary;
use crate::boundary::enforce_spec;
use crate::boundary::at_rest;
use crate::boundary::lemma_enforce_at;
use crate::boundary::lemma_enforce_at_rest;
use crate::boundary::lemma_enforce_zeros;
use crate::boundary::BoundaryKind;
use crate::index::cell_count;
use crate::index::in_grid;
use crate::index::interior;
use crate::index::lemma_offset_in_range;
use crate::index::lemma_offset_injective;
use crate::index::lemma_resolution_bound;
use crate::index::offset;
use crate::index::IndexMapper;
use crate::scalar::one;
use crate::scalar::zero;
use crate::scalar::zeros;
use crate::scalar::ExactScalar;
use crate::scalar::Scalar;
use vstd::prelude::*;

verus! {

/// Sum of the six neighbours of the cell `(i, j, k)` along the axes.
pub open spec fn neighbour_sum<S: Scalar>(n: int, x: Seq<S>, i: int, j: int, k: int) -> S {
    x[offset(n, i + 1, j, k)].plus_spec(x[offset(n, i - 1, j, k)]).plus_spec(
        x[offset(n, i, j + 1, k)],
    ).plus_spec(x[offset(n, i, j - 1, k)]).plus_spec(x[offset(n, i, j, k + 1)]).plus_spec(
        x[offset(n, i, j, k - 1)],
    )
}

/// The value that one relaxation gives to the cell `(i, j, k)`:
/// `(x0[cell] + a * sum of the six neighbours in x) / c`.
pub open spec fn relaxed_value<S: Scalar>(
    n: int,
    x: Seq<S>,
    x0: Seq<S>,
    a: S,
    c: S,
    i: int,
    j: int,
    k: int,
) -> S {
    x0[offset(n, i, j, k)].plus_spec(a.times_spec(neighbour_sum(n, x, i, j, k))).over_spec(c)
}

/// The field after the cells `(1, j, k)` to `(i_end - 1, j, k)` were relaxed
/// one after the other, each seeing the cells relaxed before it.
pub open spec fn relax_row<S: Scalar>(
    n: int,
    x: Seq<S>,
    x0: Seq<S>,
    a: S,
    c: S,
    j: int,
    k: int,
    i_end: int,
) -> Seq<S>
    decreases i_end,
{
    if i_end <= 1 {
        x
    } else {
        let before = relax_row(n, x, x0, a, c, j, k, i_end - 1);
        before.update(
            offset(n, i_end - 1, j, k),
            relaxed_value(n, before, x0, a, c, i_end - 1, j, k),
        )
    }
}

/// The field after the rows `1` to `j_end - 1` of the plane `k` were relaxed.
pub open spec fn relax_plane<S: Scalar>(
    n: int,
    x: Seq<S>,
    x0: Seq<S>,
    a: S,
    c: S,
    k: int,
    j_end: int,
) -> Seq<S>
    decreases j_end,
{
    if j_end <= 1 {
        x
    } else {
        relax_row(n, relax_plane(n, x, x0, a, c, k, j_end - 1), x0, a, c, j_end - 1, k, n - 1)
    }
}

/// The field after the planes `1` to `k_end - 1` were relaxed.
pub open spec fn relax_grid<S: Scalar>(n: int, x: Seq<S>, x0: Seq<S>, a: S, c: S, k_end: int) -> Seq<
    S,
>
    decreases k_end,
{
    if k_end <= 1 {
        x
    } else {
        relax_plane(n, relax_grid(n, x, x0, a, c, k_end - 1), x0, a, c, k_end - 1, n - 1)
    }
}

/// One sweep: every interior cell is relaxed once, the first axis running
/// fastest, and each cell sees the cells relaxed before it.
pub open spec fn sweep_spec<S: Scalar>(n: int, x: Seq<S>, x0: Seq<S>, a: S, c: S) -> Seq<S> {
    relax_grid(n, x, x0, a, c, n - 1)
}

/// The field after `iters` sweeps, the boundary being enforced after each.
pub open spec fn solve_spec<S: Scalar>(
    n: int,
    kind: BoundaryKind,
    x: Seq<S>,
    x0: Seq<S>,
    a: S,
    c: S,
    iters: nat,
) -> Seq<S>
    decreases iters,
{
    if iters == 0 {
        x
    } else {
        enforce_spec(
            n,
            kind,
            sweep_spec(n, solve_spec(n, kind, x, x0, a, c, (iters - 1) as nat), x0, a, c),
        )
    }
}

/// The field as the cell `(p, q, r)` finds it when its turn comes in a sweep.
pub open spec fn state_before<S: Scalar>(
    n: int,
    x: Seq<S>,
    x0: Seq<S>,
    a: S,
    c: S,
    p: int,
    q: int,
    r: int,
) -> Seq<S> {
    relax_row(
        n,
        relax_plane(n, relax_grid(n, x, x0, a, c, r), x0, a, c, r, q),
        x0,
        a,
        c,
        q,
        r,
        p,
    )
}

/// What a cell holds after part of a row was relaxed: a relaxed cell holds
/// the value computed when its turn came, every other cell is unchanged.
proof fn lemma_relax_row_cell<S: Scalar>(
    n: int,
    x: Seq<S>,
    x0: Seq<S>,
    a: S,
    c: S,
    j: int,
    k: int,
    i_end: int,
    p: int,
    q: int,
    r: int,
)
    requires
        n >= 3,
        x.len() == cell_count(n),
        1 <= j <= n - 2,
        1 <= k <= n - 2,
        1 <= i_end <= n - 1,
        in_grid(n, p, q, r),
    ensures
        relax_row(n, x, x0, a, c, j, k, i_end).len() == x.len(),
        relax_row(n, x, x0, a, c, j, k, i_end)[offset(n, p, q, r)] == (if q == j && r == k && 1
            <= p < i_end {
            relaxed_value(n, relax_row(n, x, x0, a, c, j, k, p), x0, a, c, p, j, k)
        } else {
            x[offset(n, p, q, r)]
        }),
    decreases i_end,
{
    if i_end > 1 {
        lemma_relax_row_cell(n, x, x0, a, c, j, k, i_end - 1, p, q, r);
        lemma_offset_in_range(n, i_end - 1, j, k);
        lemma_offset_in_range(n, p, q, r);
        if offset(n, p, q, r) == offset(n, i_end - 1, j, k) {
            lemma_offset_injective(n, p, q, r, i_end - 1, j, k);
        }
    }
}

/// What a cell holds after part of a plane was relaxed.
proof fn lemma_relax_plane_cell<S: Scalar>(
    n: int,
    x: Seq<S>,
    x0: Seq<S>,
    a: S,
    c: S,
    k: int,
    j_end: int,
    p: int,
    q: int,
    r: int,
)
    requires
        n >= 3,
        x.len() == cell_count(n),
        1 <= k <= n - 2,
        1 <= j_end <= n - 1,
        in_grid(n, p, q, r),
    ensures
        relax_plane(n, x, x0, a, c, k, j_end).len() == x.len(),
        relax_plane(n, x, x0, a, c, k, j_end)[offset(n, p, q, r)] == (if r == k && 1 <= q < j_end
            && 1 <= p <= n - 2 {
            relaxed_value(
                n,
                relax_row(n, relax_plane(n, x, x0, a, c, k, q), x0, a, c, q, k, p),
                x0,
                a,
                c,
                p,
                q,
                k,
            )
        } else {
            x[offset(n, p, q, r)]
        }),
    decreases j_end,
{
    if j_end > 1 {
        let before = relax_plane(n, x, x0, a, c, k, j_end - 1);
        lemma_relax_plane_cell(n, x, x0, a, c, k, j_end - 1, p, q, r);
        lemma_relax_row_cell(n, before, x0, a, c, j_end - 1, k, n - 1, p, q, r);
    }
}

/// What a cell holds after the planes below `k_end` were relaxed.
proof fn lemma_relax_grid_cell<S: Scalar>(
    n: int,
    x: Seq<S>,
    x0: Seq<S>,
    a: S,
    c: S,
    k_end: int,
    p: int,
    q: int,
    r: int,
)
    requires
        n >= 3,
        x.len() == cell_count(n),
        1 <= k_end <= n - 1,
        in_grid(n, p, q, r),
    ensures
        relax_grid(n, x, x0, a, c, k_end).len() == x.len(),
        relax_grid(n, x, x0, a, c, k_end)[offset(n, p, q, r)] == (if 1 <= r < k_end && 1 <= q <= n
            - 2 && 1 <= p <= n - 2 {
            relaxed_value(n, state_before(n, x, x0, a, c, p, q, r), x0, a, c, p, q, r)
        } else {
            x[offset(n, p, q, r)]
        }),
    decreases k_end,
{
    if k_end > 1 {
        let before = relax_grid(n, x, x0, a, c, k_end - 1);
        lemma_relax_grid_cell(n, x, x0, a, c, k_end - 1, p, q, r);
        lemma_relax_plane_cell(n, before, x0, a, c, k_end - 1, n - 1, p, q, r);
    }
}

/// What a cell holds after one sweep: an interior cell holds the relaxed
/// value computed from the field as it was when the cell's turn came, and
/// every other cell is unchanged.
pub proof fn lemma_sweep_cell<S: Scalar>(
    n: int,
    x: Seq<S>,
    x0: Seq<S>,
    a: S,
    c: S,
    p: int,
    q: int,
    r: int,
)
    requires
        n >= 3,
        x.len() == cell_count(n),
        in_grid(n, p, q, r),
    ensures
        sweep_spec(n, x, x0, a, c).len() == x.len(),
        0 <= offset(n, p, q, r) < x.len(),
        sweep_spec(n, x, x0, a, c)[offset(n, p, q, r)] == (if interior(n, p, q, r) {
            relaxed_value(n, state_before(n, x, x0, a, c, p, q, r), x0, a, c, p, q, r)
        } else {
            x[offset(n, p, q, r)]
        }),
{
    lemma_relax_grid_cell(n, x, x0, a, c, n - 1, p, q, r);
    lemma_offset_in_range(n, p, q, r);
}

/// The solver keeps the length of the field.
pub proof fn lemma_solve_len<S: Scalar>(
    n: int,
    kind: BoundaryKind,
    x: Seq<S>,
    x0: Seq<S>,
    a: S,
    c: S,
    iters: nat,
)
    requires
        n >= 3,
        x.len() == cell_count(n),
    ensures
        solve_spec(n, kind, x, x0, a, c, iters).len() == x.len(),
    decreases iters,
{
    if iters > 0 {
        let before = solve_spec(n, kind, x, x0, a, c, (iters - 1) as nat);
        lemma_solve_len(n, kind, x, x0, a, c, (iters - 1) as nat);
        lemma_sweep_cell(n, before, x0, a, c, 0, 0, 0);
    }
}

/// With the coupling `a` at zero, one sweep or more leaves every interior
/// cell at `x0[cell] / c`, whatever the field held before.
pub proof fn lemma_solve_uncoupled<S: ExactScalar>(
    n: int,
    kind: BoundaryKind,
    x: Seq<S>,
    x0: Seq<S>,
    c: S,
    iters: nat,
)
    requires
        n >= 3,
        x.len() == cell_count(n),
        iters >= 1,
    ensures
        forall|p: int, q: int, r: int|
            interior(n, p, q, r) ==> solve_spec(n, kind, x, x0, zero::<S>(), c, iters)[#[trigger] offset(
                n,
                p,
                q,
                r,
            )] == x0[offset(n, p, q, r)].over_spec(c),
{
    let a = zero::<S>();
    let before = solve_spec(n, kind, x, x0, a, c, (iters - 1) as nat);
    let swept = sweep_spec(n, before, x0, a, c);
    lemma_solve_len(n, kind, x, x0, a, c, (iters - 1) as nat);
    assert forall|p: int, q: int, r: int| interior(n, p, q, r) implies solve_spec(
        n,
        kind,
        x,
        x0,
        a,
        c,
        iters,
    )[#[trigger] offset(n, p, q, r)] == x0[offset(n, p, q, r)].over_spec(c) by {
        lemma_sweep_cell(n, before, x0, a, c, p, q, r);
        lemma_enforce_at(n, kind, swept, p, q, r);
        let seen = state_before(n, before, x0, a, c, p, q, r);
        S::law_times_zero(neighbour_sum(n, seen, p, q, r));
        S::law_plus_zero(x0[offset(n, p, q, r)]);
    }
}

/// Relaxing a cell of a field of zeros, where the source is zero too, gives
/// zero.
proof fn lemma_relaxed_zero<S: ExactScalar>(n: int, x0: Seq<S>, a: S, c: S, i: int, j: int, k: int)
    requires
        n >= 3,
        interior(n, i, j, k),
        x0[offset(n, i, j, k)] == zero::<S>(),
        c != zero::<S>(),
    ensures
        relaxed_value(n, zeros::<S>(cell_count(n) as nat), x0, a, c, i, j, k) == zero::<S>(),
{
    lemma_offset_in_range(n, i + 1, j, k);
    lemma_offset_in_range(n, i - 1, j, k);
    lemma_offset_in_range(n, i, j + 1, k);
    lemma_offset_in_range(n, i, j - 1, k);
    lemma_offset_in_range(n, i, j, k + 1);
    lemma_offset_in_range(n, i, j, k - 1);
    S::law_plus_zero(zero::<S>());
    S::law_times_zero(a);
    S::law_over(c);
}

proof fn lemma_relax_row_zeros<S: ExactScalar>(
    n: int,
    x0: Seq<S>,
    a: S,
    c: S,
    j: int,
    k: int,
    i_end: int,
)
    requires
        n >= 3,
        1 <= j <= n - 2,
        1 <= k <= n - 2,
        1 <= i_end <= n - 1,
        c != zero::<S>(),
        forall|p: int, q: int, r: int|
            interior(n, p, q, r) ==> x0[#[trigger] offset(n, p, q, r)] == zero::<S>(),
    ensures
        relax_row(n, zeros::<S>(cell_count(n) as nat), x0, a, c, j, k, i_end) == zeros::<S>(
            cell_count(n) as nat,
        ),
    decreases i_end,
{
    if i_end > 1 {
        let blank = zeros::<S>(cell_count(n) as nat);
        lemma_relax_row_zeros(n, x0, a, c, j, k, i_end - 1);
        lemma_relaxed_zero(n, x0, a, c, i_end - 1, j, k);
        lemma_offset_in_range(n, i_end - 1, j, k);
        assert(blank.update(offset(n, i_end - 1, j, k), zero::<S>()) =~= blank);
    }
}

proof fn lemma_relax_plane_zeros<S: ExactScalar>(
    n: int,
    x0: Seq<S>,
    a: S,
    c: S,
    k: int,
    j_end: int,
)
    requires
        n >= 3,
        1 <= k <= n - 2,
        1 <= j_end <= n - 1,
        c != zero::<S>(),
        forall|p: int, q: int, r: int|
            interior(n, p, q, r) ==> x0[#[trigger] offset(n, p, q, r)] == zero::<S>(),
    ensures
        relax_plane(n, zeros::<S>(cell_count(n) as nat), x0, a, c, k, j_end) == zeros::<S>(
            cell_count(n) as nat,
        ),
    decreases j_end,
{
    if j_end > 1 {
        lemma_relax_plane_zeros(n, x0, a, c, k, j_end - 1);
        lemma_relax_row_zeros(n, x0, a, c, j_end - 1, k, n - 1);
    }
}

proof fn lemma_relax_grid_zeros<S: ExactScalar>(n: int, x0: Seq<S>, a: S, c: S, k_end: int)
    requires
        n >= 3,
        1 <= k_end <= n - 1,
        c != zero::<S>(),
        forall|p: int, q: int, r: int|
            interior(n, p, q, r) ==> x0[#[trigger] offset(n, p, q, r)] == zero::<S>(),
    ensures
        relax_grid(n, zeros::<S>(cell_count(n) as nat), x0, a, c, k_end) == zeros::<S>(
            cell_count(n) as nat,
        ),
    decreases k_end,
{
    if k_end > 1 {
        lemma_relax_grid_zeros(n, x0, a, c, k_end - 1);
        lemma_relax_plane_zeros(n, x0, a, c, k_end - 1, n - 1);
    }
}

/// A system whose source is zero in every interior cell keeps a field of
/// zeros at zero, as long as its divisor is not zero.
pub proof fn lemma_solve_zeros<S: ExactScalar>(
    n: int,
    kind: BoundaryKind,
    x0: Seq<S>,
    a: S,
    c: S,
    iters: nat,
)
    requires
        n >= 3,
        c != zero::<S>(),
        forall|p: int, q: int, r: int|
            interior(n, p, q, r) ==> x0[#[trigger] offset(n, p, q, r)] == zero::<S>(),
    ensures
        solve_spec(n, kind, zeros::<S>(cell_count(n) as nat), x0, a, c, iters) == zeros::<S>(
            cell_count(n) as nat,
        ),
        solve_spec(
            n,
            kind,
            enforce_spec(n, kind, zeros::<S>(cell_count(n) as nat)),
            x0,
            a,
            c,
            iters,
        ) == zeros::<S>(cell_count(n) as nat),
    decreases iters,
{
    lemma_enforce_zeros::<S>(n, kind);
    if iters > 0 {
        lemma_solve_zeros(n, kind, x0, a, c, (iters - 1) as nat);
        lemma_relax_grid_zeros(n, x0, a, c, n - 1);
    }
}

/// Relaxes `x` toward the solution of the system with source `x0` and
/// coefficients `a` and `c`: exactly `iters` sweeps over the interior, each
/// followed by the boundary conditions of `kind`.
#[verifier::loop_isolation(false)]
pub fn linear_solve<S: Scalar>(
    grid: &IndexMapper,
    kind: BoundaryKind,
    x: &mut Vec<S>,
    x0: &Vec<S>,
    a: S,
    c: S,
    iters: usize,
)
    requires
        old(x)@.len() == cell_count(grid.n()),
        x0@.len() == cell_count(grid.n()),
    ensures
        final(x)@ == solve_spec(grid.n(), kind, old(x)@, x0@, a, c, iters as nat),
        final(x)@.len() == cell_count(grid.n()),
{
    proof {
        use_type_invariant(grid);
    }
    let ghost start = x@;
    let ghost m = grid.n();
    let mut t: usize = 0;
    while t < iters
        invariant
            x@.len() == cell_count(m),
            t <= iters,
            x@ == solve_spec(m, kind, start, x0@, a, c, t as nat),
        decreases iters - t,
    {
        sweep(grid, x, x0, a, c);
        enforce_boundary(grid, kind, x);
        t = t + 1;
    }
}

/// Relaxes every interior cell of `x` once.
#[verifier::loop_isolation(false)]
pub fn sweep<S: Scalar>(grid: &IndexMapper, x: &mut Vec<S>, x0: &Vec<S>, a: S, c: S)
    requires
        old(x)@.len() == cell_count(grid.n()),
        x0@.len() == cell_count(grid.n()),
    ensures
        final(x)@ == sweep_spec(grid.n(), old(x)@, x0@, a, c),
        final(x)@.len() == cell_count(grid.n()),
{
    proof {
        use_type_invariant(grid);
    }
    let n = grid.resolution();
    let ghost m = grid.n();
    let ghost start = x@;
    let mut k: usize = 1;
    while k < n - 1
        invariant
            x@.len() == cell_count(m),
            1 <= k <= n - 1,
            x@ == relax_grid(m, start, x0@, a, c, k as int),
        decreases n - k,
    {
        let ghost plane_start = x@;
        let mut j: usize = 1;
        while j < n - 1
            invariant
                x@.len() == cell_count(m),
                1 <= k < n - 1,
                1 <= j <= n - 1,
                x@ == relax_plane(m, plane_start, x0@, a, c, k as int, j as int),
            decreases n - j,
        {
            let ghost row_start = x@;
            let mut i: usize = 1;
            while i < n - 1
                invariant
                    x@.len() == cell_count(m),
                    1 <= k < n - 1,
                    1 <= j < n - 1,
                    1 <= i <= n - 1,
                    x@ == relax_row(m, row_start, x0@, a, c, j as int, k as int, i as int),
                decreases n - i,
            {
                relax_cell(grid, x, x0, a, c, i, j, k);
                i = i + 1;
            }
            j = j + 1;
        }
        k = k + 1;
    }
}

/// Relaxes the interior cell `(i, j, k)`.
fn relax_cell<S: Scalar>(
    grid: &IndexMapper,
    x: &mut Vec<S>,
    x0: &Vec<S>,
    a: S,
    c: S,
    i: usize,
    j: usize,
    k: usize,
)
    requires
        old(x)@.len() == cell_count(grid.n()),
        x0@.len() == cell_count(grid.n()),
        interior(grid.n(), i as int, j as int, k as int),
    ensures
        final(x)@ == old(x)@.update(
            offset(grid.n(), i as int, j as int, k as int),
            relaxed_value(grid.n(), old(x)@, x0@, a, c, i as int, j as int, k as int),
        ),
        final(x)@.len() == cell_count(grid.n()),
{
    proof {
        use_type_invariant(grid);
        lemma_resolution_bound(grid.n());
    }
    let here = grid.cell(i, j, k);
    let sum = x[grid.cell(i + 1, j, k)].plus(x[grid.cell(i - 1, j, k)]).plus(
        x[grid.cell(i, j + 1, k)],
    ).plus(x[grid.cell(i, j - 1, k)]).plus(x[grid.cell(i, j, k + 1)]).plus(
        x[grid.cell(i, j, k - 1)],
    );
    let value = x0[here].plus(a.times(sum)).over(c);
    x.set(here, value);
}

/// The coupling `dt * rate * (n - 2) * (n - 2)` between a cell and its
/// neighbours in the diffusion system.
pub open spec fn diffusion_coupling<S: Scalar>(n: int, rate: S, dt: S) -> S {
    dt.times_spec(rate).times_spec(S::from_int_spec((n - 2) as i64)).times_spec(
        S::from_int_spec((n - 2) as i64),
    )
}

/// The divisor `1 + 6 * a` of the diffusion system with coupling `a`.
pub open spec fn diffusion_divisor<S: Scalar>(a: S) -> S {
    one::<S>().plus_spec(S::from_int_spec(6).times_spec(a))
}

/// The field after diffusing for one time step.
pub open spec fn diffuse_spec<S: Scalar>(
    n: int,
    kind: BoundaryKind,
    x: Seq<S>,
    x0: Seq<S>,
    rate: S,
    dt: S,
    iters: nat,
) -> Seq<S> {
    let a = diffusion_coupling(n, rate, dt);
    solve_spec(n, kind, x, x0, a, diffusion_divisor(a), iters)
}

/// The diffusion system at rate zero has no coupling and the divisor one.
pub proof fn lemma_diffusion_without_rate<S: ExactScalar>(n: int, dt: S)
    ensures
        diffusion_coupling(n, zero::<S>(), dt) == zero::<S>(),
        diffusion_divisor(zero::<S>()) == one::<S>(),
{
    S::law_times_zero(dt);
    S::law_times_zero(S::from_int_spec((n - 2) as i64));
    S::law_times_zero(S::from_int_spec(6));
    S::law_plus_zero(one::<S>());
}

/// Diffusion at rate zero moves nothing: after one sweep or more every
/// interior cell of the target holds what the source holds there, so a
/// target that agreed with the source on the interior keeps its interior.
pub proof fn lemma_diffuse_without_rate<S: ExactScalar>(
    n: int,
    kind: BoundaryKind,
    x: Seq<S>,
    x0: Seq<S>,
    dt: S,
    iters: nat,
)
    requires
        n >= 3,
        x.len() == cell_count(n),
    ensures
        iters >= 1 ==> forall|p: int, q: int, r: int|
            interior(n, p, q, r) ==> diffuse_spec(n, kind, x, x0, zero::<S>(), dt, iters)[#[trigger] offset(
                n,
                p,
                q,
                r,
            )] == x0[offset(n, p, q, r)],
        (forall|p: int, q: int, r: int|
            interior(n, p, q, r) ==> x[#[trigger] offset(n, p, q, r)] == x0[offset(n, p, q, r)])
            ==> forall|p: int, q: int, r: int|
            interior(n, p, q, r) ==> diffuse_spec(n, kind, x, x0, zero::<S>(), dt, iters)[#[trigger] offset(
                n,
                p,
                q,
                r,
            )] == x[offset(n, p, q, r)],
{
    lemma_diffusion_without_rate::<S>(n, dt);
    if iters >= 1 {
        lemma_solve_uncoupled(n, kind, x, x0, one::<S>(), iters);
        assert forall|p: int, q: int, r: int| interior(n, p, q, r) implies diffuse_spec(
            n,
            kind,
            x,
            x0,
            zero::<S>(),
            dt,
            iters,
        )[#[trigger] offset(n, p, q, r)] == x0[offset(n, p, q, r)] by {
            S::law_over(x0[offset(n, p, q, r)]);
        }
    }
}

/// Diffusing a source that is zero everywhere, at rate zero, leaves the
/// target at rest, whatever it held before.
pub proof fn lemma_diffuse_nothing<S: ExactScalar>(
    n: int,
    kind: BoundaryKind,
    x: Seq<S>,
    dt: S,
    iters: nat,
)
    requires
        n >= 3,
        x.len() == cell_count(n),
        iters >= 1,
    ensures
        diffuse_spec(n, kind, x, zeros::<S>(x.len()), zero::<S>(), dt, iters).len() == x.len(),
        at_rest(n, diffuse_spec(n, kind, x, zeros::<S>(x.len()), zero::<S>(), dt, iters)),
{
    let x0 = zeros::<S>(x.len());
    let a = diffusion_coupling(n, zero::<S>(), dt);
    let c = diffusion_divisor(a);
    let before = solve_spec(n, kind, x, x0, a, c, (iters - 1) as nat);
    let swept = sweep_spec(n, before, x0, a, c);
    lemma_diffusion_without_rate::<S>(n, dt);
    lemma_solve_len(n, kind, x, x0, a, c, (iters - 1) as nat);
    lemma_solve_len(n, kind, x, x0, a, c, iters);
    lemma_sweep_cell(n, before, x0, a, c, 0, 0, 0);
    assert forall|p: int, q: int, r: int| interior(n, p, q, r) implies swept[#[trigger] offset(
        n,
        p,
        q,
        r,
    )] == zero::<S>() by {
        lemma_sweep_cell(n, before, x0, a, c, p, q, r);
        let seen = state_before(n, before, x0, a, c, p, q, r);
        S::law_times_zero(neighbour_sum(n, seen, p, q, r));
        S::law_plus_zero(zero::<S>());
        S::law_over(zero::<S>());
    }
    lemma_enforce_at_rest(n, kind, swept);
}

/// Spreads the source `x0` into `x` over one time step `dt` at the given
/// diffusion rate.
pub fn diffuse<S: Scalar>(
    grid: &IndexMapper,
    kind: BoundaryKind,
    x: &mut Vec<S>,
    x0: &Vec<S>,
    rate: S,
    dt: S,
    iters: usize,
)
    requires
        old(x)@.len() == cell_count(grid.n()),
        x0@.len() == cell_count(grid.n()),
    ensures
        final(x)@ == diffuse_spec(grid.n(), kind, old(x)@, x0@, rate, dt, iters as nat),
        final(x)@.len() == cell_count(grid.n()),
{
    proof {
        use_type_invariant(grid);
        lemma_resolution_bound(grid.n());
    }
    let inner: S = S::from_int((grid.resolution() - 2) as i64);
    let a = dt.times(rate).times(inner).times(inner);
    let c = S::from_int(1).plus(S::from_int(6).times(a));
    linear_solve(grid, kind, x, x0, a, c, iters);
}

} // verus!
