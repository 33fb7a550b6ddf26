//! The state of a fluid simulation and its advance by one time step.
use crate::advect::advect;
use crate::advect::advect_spec;
use crate::advect::lemma_advect_at_rest;
use crate::advect::lemma_advect_nothing;
use crate::boundary::at_rest;
use crate::boundary::enforce_spec;
use crate::boundary::lemma_enforce_at_rest_again;
use crate::boundary::lemma_enforce_len;
use crate::boundary::BoundaryKind;
use crate::index::cell_count;
use crate::index::cell_index;
use crate::index::interior;
use crate::index::lemma_offset_in_range;
use crate::index::offset;
use crate::index::valid_resolution;
use crate::index::ConfigError;
use crate::index::IndexMapper;
use crate::project::divergence_spec;
use crate::project::lemma_outflow_at_rest;
use crate::project::lemma_project_at_rest;
use crate::project::lemma_project_divergence_free;
use crate::project::lemma_source_of_divergence_free;
use crate::project::pressure_spec;
use crate::project::project;
use crate::project::projected_spec;
use crate::project::source_spec;
use crate::project::Axis;
use crate::scalar::one;
use crate::scalar::zero;
use crate::scalar::zeros;
use crate::scalar::ExactScalar;
use crate::scalar::Scalar;
use crate::solver::diffuse;
use crate::solver::diffuse_spec;
use crate::solver::diffusion_coupling;
use crate::solver::diffusion_divisor;
use crate::solver::lemma_diffuse_nothing;
use crate::solver::lemma_diffuse_without_rate;
use crate::solver::lemma_solve_len;
use vstd::prelude::*;

verus! {

/// Sweeps that the linear solver makes unless told otherwise.
pub const SOLVER_ITERATIONS: usize = 4;

/// The mathematical content of a fluid state.
pub struct FluidModel<S> {
    /// Cells along one axis.
    pub n: int,
    /// Sweeps per linear solve.
    pub iterations: nat,
    /// Length of one time step.
    pub dt: S,
    /// Rate at which density spreads.
    pub diffusion: S,
    /// Rate at which velocity spreads.
    pub viscosity: S,
    /// Density, scratch buffer of the step.
    pub s: Seq<S>,
    /// Density as the caller sees it.
    pub density: Seq<S>,
    /// Velocity along the first axis.
    pub vx: Seq<S>,
    /// Velocity along the second axis.
    pub vy: Seq<S>,
    /// Velocity along the third axis.
    pub vz: Seq<S>,
    /// Previous-step buffer of `vx`.
    pub vx0: Seq<S>,
    /// Previous-step buffer of `vy`.
    pub vy0: Seq<S>,
    /// Previous-step buffer of `vz`.
    pub vz0: Seq<S>,
}

impl<S: Scalar> FluidModel<S> {
    /// The resolution is usable and every field has one value per cell.
    pub open spec fn wf(self) -> bool {
        &&& valid_resolution(self.n)
        &&& self.s.len() == cell_count(self.n)
        &&& self.density.len() == cell_count(self.n)
        &&& self.vx.len() == cell_count(self.n)
        &&& self.vy.len() == cell_count(self.n)
        &&& self.vz.len() == cell_count(self.n)
        &&& self.vx0.len() == cell_count(self.n)
        &&& self.vy0.len() == cell_count(self.n)
        &&& self.vz0.len() == cell_count(self.n)
    }

    /// A fluid at rest with no density anywhere.
    pub open spec fn empty(n: int, iterations: nat, dt: S, diffusion: S, viscosity: S) -> Self {
        let blank = zeros::<S>(cell_count(n) as nat);
        FluidModel {
            n,
            iterations,
            dt,
            diffusion,
            viscosity,
            s: blank,
            density: blank,
            vx: blank,
            vy: blank,
            vz: blank,
            vx0: blank,
            vy0: blank,
            vz0: blank,
        }
    }

    /// The state with `amount` added to the density of the cell nearest to
    /// `(x, y, z)`.
    pub open spec fn with_density(self, x: int, y: int, z: int, amount: S) -> Self {
        let c = cell_index(self.n, x, y, z);
        FluidModel { density: self.density.update(c, self.density[c].plus_spec(amount)), ..self }
    }

    /// The state with `(ax, ay, az)` added to the velocity of the cell
    /// nearest to `(x, y, z)`.
    pub open spec fn with_velocity(self, x: int, y: int, z: int, ax: S, ay: S, az: S) -> Self {
        let c = cell_index(self.n, x, y, z);
        FluidModel {
            vx: self.vx.update(c, self.vx[c].plus_spec(ax)),
            vy: self.vy.update(c, self.vy[c].plus_spec(ay)),
            vz: self.vz.update(c, self.vz[c].plus_spec(az)),
            ..self
        }
    }

    /// The state after the velocity was diffused into the previous-step
    /// buffers and these were projected, with `vx` and `vy` as scratch for
    /// the pressure and the divergence.
    pub open spec fn spread_velocity(self) -> Self {
        let vx0 = diffuse_spec(
            self.n,
            BoundaryKind::X,
            self.vx0,
            self.vx,
            self.viscosity,
            self.dt,
            self.iterations,
        );
        let vy0 = diffuse_spec(
            self.n,
            BoundaryKind::Y,
            self.vy0,
            self.vy,
            self.viscosity,
            self.dt,
            self.iterations,
        );
        let vz0 = diffuse_spec(
            self.n,
            BoundaryKind::Z,
            self.vz0,
            self.vz,
            self.viscosity,
            self.dt,
            self.iterations,
        );
        let p = pressure_spec(self.n, self.vy, vx0, vy0, vz0, self.iterations);
        FluidModel {
            vx: p,
            vy: source_spec(self.n, self.vy, vx0, vy0, vz0),
            vx0: projected_spec(self.n, Axis::X, vx0, p),
            vy0: projected_spec(self.n, Axis::Y, vy0, p),
            vz0: projected_spec(self.n, Axis::Z, vz0, p),
            ..self
        }
    }

    /// The state after the previous-step velocity was carried along itself
    /// into the current velocity and this was projected, with `vx0` and
    /// `vy0` as scratch for the pressure and the divergence.
    pub open spec fn move_velocity(self) -> Self {
        let vx = advect_spec(
            self.n,
            BoundaryKind::X,
            self.vx,
            self.vx0,
            self.vx0,
            self.vy0,
            self.vz0,
            self.dt,
        );
        let vy = advect_spec(
            self.n,
            BoundaryKind::Y,
            self.vy,
            self.vy0,
            self.vx0,
            self.vy0,
            self.vz0,
            self.dt,
        );
        let vz = advect_spec(
            self.n,
            BoundaryKind::Z,
            self.vz,
            self.vz0,
            self.vx0,
            self.vy0,
            self.vz0,
            self.dt,
        );
        let p = pressure_spec(self.n, self.vy0, vx, vy, vz, self.iterations);
        FluidModel {
            vx: projected_spec(self.n, Axis::X, vx, p),
            vy: projected_spec(self.n, Axis::Y, vy, p),
            vz: projected_spec(self.n, Axis::Z, vz, p),
            vx0: p,
            vy0: source_spec(self.n, self.vy0, vx, vy, vz),
            ..self
        }
    }

    /// The state after the density was diffused into its scratch buffer and
    /// carried back along the velocity.
    pub open spec fn move_density(self) -> Self {
        let s = diffuse_spec(
            self.n,
            BoundaryKind::Plain,
            self.s,
            self.density,
            self.diffusion,
            self.dt,
            self.iterations,
        );
        FluidModel {
            s,
            density: advect_spec(
                self.n,
                BoundaryKind::Plain,
                self.density,
                s,
                self.vx,
                self.vy,
                self.vz,
                self.dt,
            ),
            ..self
        }
    }

    /// The state one time step later: the velocity is diffused and
    /// projected, carried along itself and projected again, then the density
    /// is diffused and carried along the new velocity.
    pub open spec fn step(self) -> Self {
        self.spread_velocity().move_velocity().move_density()
    }

    /// The state after the given number of time steps.
    pub open spec fn after(self, steps: nat) -> Self
        decreases steps,
    {
        if steps == 0 {
            self
        } else {
            self.after((steps - 1) as nat).step()
        }
    }
}

/// A time step keeps the state well formed and leaves its parameters alone.
pub proof fn lemma_step_wf<S: Scalar>(m: FluidModel<S>)
    requires
        m.wf(),
    ensures
        m.step().wf(),
        m.step().n == m.n,
        m.step().iterations == m.iterations,
        m.step().dt == m.dt,
        m.step().diffusion == m.diffusion,
        m.step().viscosity == m.viscosity,
{
    let n = m.n;
    let it = m.iterations;
    let a = diffusion_coupling(n, m.viscosity, m.dt);
    let c = diffusion_divisor(a);
    lemma_solve_len(n, BoundaryKind::X, m.vx0, m.vx, a, c, it);
    lemma_solve_len(n, BoundaryKind::Y, m.vy0, m.vy, a, c, it);
    lemma_solve_len(n, BoundaryKind::Z, m.vz0, m.vz, a, c, it);
    let first = m.spread_velocity();
    let vx0 = diffuse_spec(n, BoundaryKind::X, m.vx0, m.vx, m.viscosity, m.dt, it);
    let vy0 = diffuse_spec(n, BoundaryKind::Y, m.vy0, m.vy, m.viscosity, m.dt, it);
    let vz0 = diffuse_spec(n, BoundaryKind::Z, m.vz0, m.vz, m.viscosity, m.dt, it);
    lemma_pressure_len(n, m.vy, vx0, vy0, vz0, it);
    let second = first.move_velocity();
    let vx = advect_spec(
        n,
        BoundaryKind::X,
        first.vx,
        first.vx0,
        first.vx0,
        first.vy0,
        first.vz0,
        first.dt,
    );
    let vy = advect_spec(
        n,
        BoundaryKind::Y,
        first.vy,
        first.vy0,
        first.vx0,
        first.vy0,
        first.vz0,
        first.dt,
    );
    let vz = advect_spec(
        n,
        BoundaryKind::Z,
        first.vz,
        first.vz0,
        first.vx0,
        first.vy0,
        first.vz0,
        first.dt,
    );
    lemma_pressure_len(n, first.vy0, vx, vy, vz, it);
    let b = diffusion_coupling(n, m.diffusion, m.dt);
    lemma_solve_len(n, BoundaryKind::Plain, second.s, second.density, b, diffusion_divisor(b), it);
}

/// The pressure has one value per cell.
proof fn lemma_pressure_len<S: Scalar>(
    n: int,
    div: Seq<S>,
    vx: Seq<S>,
    vy: Seq<S>,
    vz: Seq<S>,
    iters: nat,
)
    requires
        n >= 3,
        div.len() == cell_count(n),
    ensures
        pressure_spec(n, div, vx, vy, vz, iters).len() == div.len(),
{
    lemma_solve_len(
        n,
        BoundaryKind::Plain,
        enforce_spec(n, BoundaryKind::Plain, zeros::<S>(div.len())),
        source_spec(n, div, vx, vy, vz),
        one::<S>(),
        S::from_int_spec(6),
        iters,
    );
}

/// The velocity of the state is zero in every cell.
pub open spec fn still<S: Scalar>(m: FluidModel<S>) -> bool {
    &&& m.vx == zeros::<S>(m.vx.len())
    &&& m.vy == zeros::<S>(m.vy.len())
    &&& m.vz == zeros::<S>(m.vz.len())
}

/// A fluid at rest whose velocity does not diffuse stays at rest through the
/// first half of a step: the velocity remains zero, and its previous-step
/// buffers come to rest.
proof fn lemma_spread_at_rest<S: ExactScalar>(m: FluidModel<S>)
    requires
        m.wf(),
        m.iterations >= 1,
        m.viscosity == zero::<S>(),
        still(m),
    ensures
        m.spread_velocity().wf(),
        still(m.spread_velocity()),
        at_rest(m.n, m.spread_velocity().vx0),
        at_rest(m.n, m.spread_velocity().vy0),
        at_rest(m.n, m.spread_velocity().vz0),
{
    let n = m.n;
    let it = m.iterations;
    let vx0 = diffuse_spec(n, BoundaryKind::X, m.vx0, m.vx, m.viscosity, m.dt, it);
    let vy0 = diffuse_spec(n, BoundaryKind::Y, m.vy0, m.vy, m.viscosity, m.dt, it);
    let vz0 = diffuse_spec(n, BoundaryKind::Z, m.vz0, m.vz, m.viscosity, m.dt, it);
    lemma_diffuse_nothing(n, BoundaryKind::X, m.vx0, m.dt, it);
    lemma_diffuse_nothing(n, BoundaryKind::Y, m.vy0, m.dt, it);
    lemma_diffuse_nothing(n, BoundaryKind::Z, m.vz0, m.dt, it);
    lemma_outflow_at_rest(n, vx0, vy0, vz0);
    lemma_project_divergence_free(n, m.vy, vx0, vy0, vz0, it);
    lemma_source_of_divergence_free(n, vx0, vy0, vz0);
    lemma_enforce_at_rest_again(n, BoundaryKind::X, vx0);
    lemma_enforce_at_rest_again(n, BoundaryKind::Y, vy0);
    lemma_enforce_at_rest_again(n, BoundaryKind::Z, vz0);
}

/// A fluid at rest whose previous-step velocity is at rest too stays at rest
/// through the second half of a step.
proof fn lemma_move_at_rest<S: ExactScalar>(m: FluidModel<S>)
    requires
        m.wf(),
        m.n <= S::exact_upto(),
        still(m),
        at_rest(m.n, m.vx0),
        at_rest(m.n, m.vy0),
        at_rest(m.n, m.vz0),
    ensures
        m.move_velocity().wf(),
        still(m.move_velocity()),
{
    let n = m.n;
    let it = m.iterations;
    let blank = zeros::<S>(cell_count(n) as nat);
    lemma_advect_nothing(n, BoundaryKind::X, m.vx0, m.vx0, m.vy0, m.vz0, m.dt);
    lemma_advect_nothing(n, BoundaryKind::Y, m.vy0, m.vx0, m.vy0, m.vz0, m.dt);
    lemma_advect_nothing(n, BoundaryKind::Z, m.vz0, m.vx0, m.vy0, m.vz0, m.dt);
    lemma_project_at_rest::<S>(n, m.vy0, Axis::X, it);
    lemma_project_at_rest::<S>(n, m.vy0, Axis::Y, it);
    lemma_project_at_rest::<S>(n, m.vy0, Axis::Z, it);
    lemma_enforce_len(
        n,
        BoundaryKind::Plain,
        divergence_spec(n, m.vy0, blank, blank, blank),
    );
}

/// In a fluid at rest in which neither density nor velocity diffuses, a step
/// moves nothing: the fluid stays at rest and every interior cell keeps its
/// density.
///
/// The resolution must be one up to which the scalar represents the lattice
/// exactly, and the solver must make at least one sweep.
pub proof fn lemma_step_at_rest<S: ExactScalar>(m: FluidModel<S>)
    requires
        m.wf(),
        m.n <= S::exact_upto(),
        m.iterations >= 1,
        m.diffusion == zero::<S>(),
        m.viscosity == zero::<S>(),
        still(m),
    ensures
        still(m.step()),
        forall|p: int, q: int, r: int|
            interior(m.n, p, q, r) ==> m.step().density[#[trigger] offset(m.n, p, q, r)]
                == m.density[offset(m.n, p, q, r)],
{
    let n = m.n;
    lemma_spread_at_rest(m);
    let spread = m.spread_velocity();
    lemma_move_at_rest(spread);
    let moved = spread.move_velocity();
    let s = diffuse_spec(
        n,
        BoundaryKind::Plain,
        moved.s,
        moved.density,
        moved.diffusion,
        moved.dt,
        moved.iterations,
    );
    lemma_diffuse_without_rate(
        n,
        BoundaryKind::Plain,
        moved.s,
        moved.density,
        moved.dt,
        moved.iterations,
    );
    assert forall|p: int, q: int, r: int|
        interior(n, p, q, r) implies moved.vx[#[trigger] offset(n, p, q, r)] == zero::<S>()
        && moved.vy[offset(n, p, q, r)] == zero::<S>() && moved.vz[offset(n, p, q, r)] == zero::<
        S,
    >() by {
        lemma_offset_in_range(n, p, q, r);
    }
    lemma_advect_at_rest(
        n,
        BoundaryKind::Plain,
        moved.density,
        s,
        moved.vx,
        moved.vy,
        moved.vz,
        moved.dt,
    );
}

/// A fluid at rest in which neither density nor velocity diffuses stays as
/// it is for good: after any number of steps it is at rest and every
/// interior cell holds the density it began with.
pub proof fn lemma_rest_lasts<S: ExactScalar>(m: FluidModel<S>, steps: nat)
    requires
        m.wf(),
        m.n <= S::exact_upto(),
        m.iterations >= 1,
        m.diffusion == zero::<S>(),
        m.viscosity == zero::<S>(),
        still(m),
    ensures
        m.after(steps).wf(),
        m.after(steps).n == m.n,
        m.after(steps).iterations == m.iterations,
        m.after(steps).diffusion == m.diffusion,
        m.after(steps).viscosity == m.viscosity,
        still(m.after(steps)),
        forall|p: int, q: int, r: int|
            interior(m.n, p, q, r) ==> m.after(steps).density[#[trigger] offset(m.n, p, q, r)]
                == m.density[offset(m.n, p, q, r)],
    decreases steps,
{
    if steps > 0 {
        let before = m.after((steps - 1) as nat);
        lemma_rest_lasts(m, (steps - 1) as nat);
        lemma_step_wf(before);
        lemma_step_at_rest(before);
    }
}

/// A field of `len` cells that are all zero.
fn blank_field<S: Scalar>(len: usize) -> (r: Vec<S>)
    ensures
        r@ == zeros::<S>(len as nat),
{
    let zero_value: S = S::from_int(0);
    let mut field: Vec<S> = Vec::new();
    let mut c: usize = 0;
    while c < len
        invariant
            field@.len() == c,
            c <= len,
            zero_value == zero::<S>(),
            forall|b: int| 0 <= b < c ==> field@[b] == zero::<S>(),
        decreases len - c,
    {
        field.push(zero_value);
        c = c + 1;
    }
    assert(field@ =~= zeros::<S>(len as nat));
    field
}

/// A cube of fluid: density and velocity in every cell of a grid, the
/// previous-step buffers that a time step works with, and the three
/// parameters of the simulation, which are fixed when the state is made.
pub struct FluidState<S: Scalar> {
    grid: IndexMapper,
    iterations: usize,
    dt: S,
    diffusion: S,
    viscosity: S,
    s: Vec<S>,
    density: Vec<S>,
    vx: Vec<S>,
    vy: Vec<S>,
    vz: Vec<S>,
    vx0: Vec<S>,
    vy0: Vec<S>,
    vz0: Vec<S>,
}

impl<S: Scalar> View for FluidState<S> {
    type V = FluidModel<S>;

    closed spec fn view(&self) -> FluidModel<S> {
        FluidModel {
            n: self.grid.n(),
            iterations: self.iterations as nat,
            dt: self.dt,
            diffusion: self.diffusion,
            viscosity: self.viscosity,
            s: self.s@,
            density: self.density@,
            vx: self.vx@,
            vy: self.vy@,
            vz: self.vz@,
            vx0: self.vx0@,
            vy0: self.vy0@,
            vz0: self.vz0@,
        }
    }
}

impl<S: Scalar> FluidState<S> {
    /// The resolution is usable and every field has one value per cell.
    pub open spec fn wf(&self) -> bool {
        self@.wf()
    }

    /// A fluid at rest with no density, on a grid of `n * n * n` cells, with
    /// the default number of solver sweeps.
    pub fn new(n: usize, dt: S, diffusion: S, viscosity: S) -> (r: Result<
        FluidState<S>,
        ConfigError,
    >)
        ensures
            valid_resolution(n as int) <==> r is Ok,
            n < 3 <==> r matches Err(ConfigError::ResolutionTooSmall),
            n >= 3 && n * n * n > usize::MAX <==> r matches Err(ConfigError::ResolutionTooLarge),
            r matches Ok(state) ==> state.wf() && state@ == FluidModel::empty(
                n as int,
                SOLVER_ITERATIONS as nat,
                dt,
                diffusion,
                viscosity,
            ),
    {
        Self::with_iterations(n, SOLVER_ITERATIONS, dt, diffusion, viscosity)
    }

    /// A fluid at rest with no density, on a grid of `n * n * n` cells, whose
    /// linear solves make `iterations` sweeps each.
    pub fn with_iterations(n: usize, iterations: usize, dt: S, diffusion: S, viscosity: S) -> (r:
        Result<FluidState<S>, ConfigError>)
        ensures
            valid_resolution(n as int) <==> r is Ok,
            n < 3 <==> r matches Err(ConfigError::ResolutionTooSmall),
            n >= 3 && n * n * n > usize::MAX <==> r matches Err(ConfigError::ResolutionTooLarge),
            r matches Ok(state) ==> state.wf() && state@ == FluidModel::empty(
                n as int,
                iterations as nat,
                dt,
                diffusion,
                viscosity,
            ),
    {
        match IndexMapper::new(n) {
            Err(e) => Err(e),
            Ok(grid) => {
                let len = grid.cell_count();
                Ok(
                    FluidState {
                        grid,
                        iterations,
                        dt,
                        diffusion,
                        viscosity,
                        s: blank_field(len),
                        density: blank_field(len),
                        vx: blank_field(len),
                        vy: blank_field(len),
                        vz: blank_field(len),
                        vx0: blank_field(len),
                        vy0: blank_field(len),
                        vz0: blank_field(len),
                    },
                )
            },
        }
    }

    /// Adds `amount` to the density of the cell nearest to `(x, y, z)`.
    pub fn add_density(&mut self, x: i64, y: i64, z: i64, amount: S)
        requires
            old(self).wf(),
        ensures
            final(self).wf(),
            final(self)@ == old(self)@.with_density(x as int, y as int, z as int, amount),
    {
        let c = self.grid.index(x, y, z);
        let value = self.density[c].plus(amount);
        self.density.set(c, value);
    }

    /// Adds `(ax, ay, az)` to the velocity of the cell nearest to
    /// `(x, y, z)`.
    pub fn add_velocity(&mut self, x: i64, y: i64, z: i64, ax: S, ay: S, az: S)
        requires
            old(self).wf(),
        ensures
            final(self).wf(),
            final(self)@ == old(self)@.with_velocity(x as int, y as int, z as int, ax, ay, az),
    {
        let c = self.grid.index(x, y, z);
        let new_x = self.vx[c].plus(ax);
        let new_y = self.vy[c].plus(ay);
        let new_z = self.vz[c].plus(az);
        self.vx.set(c, new_x);
        self.vy.set(c, new_y);
        self.vz.set(c, new_z);
    }

    /// Advances the fluid by one time step.
    pub fn step(&mut self)
        requires
            old(self).wf(),
        ensures
            final(self).wf(),
            final(self)@ == old(self)@.step(),
    {
        let iters = self.iterations;
        diffuse(&self.grid, BoundaryKind::X, &mut self.vx0, &self.vx, self.viscosity, self.dt, iters);
        diffuse(&self.grid, BoundaryKind::Y, &mut self.vy0, &self.vy, self.viscosity, self.dt, iters);
        diffuse(&self.grid, BoundaryKind::Z, &mut self.vz0, &self.vz, self.viscosity, self.dt, iters);
        project(
            &self.grid,
            &mut self.vx0,
            &mut self.vy0,
            &mut self.vz0,
            &mut self.vx,
            &mut self.vy,
            iters,
        );
        assert(self@ == old(self)@.spread_velocity());
        advect(
            &self.grid,
            BoundaryKind::X,
            &mut self.vx,
            &self.vx0,
            &self.vx0,
            &self.vy0,
            &self.vz0,
            self.dt,
        );
        advect(
            &self.grid,
            BoundaryKind::Y,
            &mut self.vy,
            &self.vy0,
            &self.vx0,
            &self.vy0,
            &self.vz0,
            self.dt,
        );
        advect(
            &self.grid,
            BoundaryKind::Z,
            &mut self.vz,
            &self.vz0,
            &self.vx0,
            &self.vy0,
            &self.vz0,
            self.dt,
        );
        project(
            &self.grid,
            &mut self.vx,
            &mut self.vy,
            &mut self.vz,
            &mut self.vx0,
            &mut self.vy0,
            iters,
        );
        assert(self@ == old(self)@.spread_velocity().move_velocity());
        diffuse(
            &self.grid,
            BoundaryKind::Plain,
            &mut self.s,
            &self.density,
            self.diffusion,
            self.dt,
            iters,
        );
        advect(
            &self.grid,
            BoundaryKind::Plain,
            &mut self.density,
            &self.s,
            &self.vx,
            &self.vy,
            &self.vz,
            self.dt,
        );
    }

    /// Cells along one axis.
    pub fn resolution(&self) -> (r: usize)
        ensures
            r == self@.n,
    {
        self.grid.resolution()
    }

    /// Sweeps that each linear solve makes.
    pub fn iterations(&self) -> (r: usize)
        ensures
            r == self@.iterations,
    {
        self.iterations
    }

    /// Length of one time step.
    pub fn time_step(&self) -> (r: S)
        ensures
            r == self@.dt,
    {
        self.dt
    }

    /// Rate at which density spreads.
    pub fn diffusion(&self) -> (r: S)
        ensures
            r == self@.diffusion,
    {
        self.diffusion
    }

    /// Rate at which velocity spreads.
    pub fn viscosity(&self) -> (r: S)
        ensures
            r == self@.viscosity,
    {
        self.viscosity
    }

    /// The density field, one value per cell.
    pub fn density(&self) -> (r: &Vec<S>)
        ensures
            r@ == self@.density,
    {
        &self.density
    }

    /// The density of the cell nearest to `(x, y, z)`.
    pub fn density_at(&self, x: i64, y: i64, z: i64) -> (r: S)
        requires
            self.wf(),
        ensures
            r == self@.density[cell_index(self@.n, x as int, y as int, z as int)],
    {
        self.density[self.grid.index(x, y, z)]
    }

    /// The velocity of the cell nearest to `(x, y, z)`.
    pub fn velocity_at(&self, x: i64, y: i64, z: i64) -> (r: (S, S, S))
        requires
            self.wf(),
        ensures
            r.0 == self@.vx[cell_index(self@.n, x as int, y as int, z as int)],
            r.1 == self@.vy[cell_index(self@.n, x as int, y as int, z as int)],
            r.2 == self@.vz[cell_index(self@.n, x as int, y as int, z as int)],
    {
        let c = self.grid.index(x, y, z);
        (self.vx[c], self.vy[c], self.vz[c])
    }
}

} // verus!
