use paper_engine::advect::advect;
use paper_engine::advect::interpolate;
use paper_engine::boundary::enforce_boundary;
use paper_engine::boundary::BoundaryKind;
use paper_engine::fluid::FluidState;
use paper_engine::fluid::SOLVER_ITERATIONS;
use paper_engine::index::ConfigError;
use paper_engine::index::IndexMapper;
use paper_engine::particle::get_sign;
use paper_engine::particle::gravity;
use paper_engine::particle::Particle;
use paper_engine::particle::Rect;
use paper_engine::particle::Vec2;
use paper_engine::project::clear;
use paper_engine::project::divergence;
use paper_engine::project::project;
use paper_engine::project::relieve;
use paper_engine::project::Axis;
use paper_engine::scalar::make_ratio;
use paper_engine::scalar::Scalar;
use paper_engine::solver::diffuse;
use paper_engine::solver::linear_solve;
use paper_engine::solver::sweep;

/// Single-precision floating point as the solver's scalar.
#[derive(Clone, Copy, Debug, PartialEq)]
struct Real(f32);

impl Scalar for Real {
    fn from_int_spec(k: i64) -> Self {
        Self::from_int(k)
    }

    fn from_int(k: i64) -> Self {
        Real(k as f32)
    }

    fn plus_spec(self, rhs: Self) -> Self {
        self.plus(rhs)
    }

    fn plus(self, rhs: Self) -> Self {
        Real(self.0 + rhs.0)
    }

    fn minus_spec(self, rhs: Self) -> Self {
        self.minus(rhs)
    }

    fn minus(self, rhs: Self) -> Self {
        Real(self.0 - rhs.0)
    }

    fn times_spec(self, rhs: Self) -> Self {
        self.times(rhs)
    }

    fn times(self, rhs: Self) -> Self {
        Real(self.0 * rhs.0)
    }

    fn over_spec(self, rhs: Self) -> Self {
        self.over(rhs)
    }

    fn over(self, rhs: Self) -> Self {
        Real(self.0 / rhs.0)
    }

    fn negated_spec(self) -> Self {
        self.negated()
    }

    fn negated(self) -> Self {
        Real(-self.0)
    }

    fn less_than_spec(self, rhs: Self) -> bool {
        self.less_than(rhs)
    }

    fn less_than(self, rhs: Self) -> bool {
        self.0 < rhs.0
    }

    fn floor_spec(self) -> i64 {
        self.floor()
    }

    fn floor(self) -> i64 {
        self.0.floor() as i64
    }
}

fn blank(len: usize) -> Vec<Real> {
    vec![Real(0.0); len]
}

fn numbered(len: usize) -> Vec<Real> {
    (0..len).map(|c| Real((c * 37 % 101) as f32 * 0.25 - 12.0)).collect()
}

fn total(field: &[Real]) -> f32 {
    field.iter().map(|v| v.0).sum()
}

fn interior_cells(n: usize) -> Vec<(usize, usize, usize)> {
    let mut cells = Vec::new();
    for k in 1..n - 1 {
        for j in 1..n - 1 {
            for i in 1..n - 1 {
                cells.push((i, j, k));
            }
        }
    }
    cells
}

#[test]
fn ratio_of_the_corner_weight_is_the_float_literal() {
    assert_eq!(make_ratio::<Real>(33, 100), Real(0.33));
    assert_eq!(make_ratio::<Real>(1, 2), Real(0.5));
}

#[test]
fn boundary_mirrors_walls_without_flip_for_a_plain_field() {
    let n: usize = 4;
    let grid = IndexMapper::new(n).unwrap();
    let start = numbered(64);
    let mut field = start.clone();
    enforce_boundary(&grid, BoundaryKind::Plain, &mut field);
    for a in 1..n - 1 {
        for b in 1..n - 1 {
            assert_eq!(field[grid.cell(a, b, 0)], start[grid.cell(a, b, 1)]);
            assert_eq!(field[grid.cell(a, b, 3)], start[grid.cell(a, b, 2)]);
            assert_eq!(field[grid.cell(a, 0, b)], start[grid.cell(a, 1, b)]);
            assert_eq!(field[grid.cell(a, 3, b)], start[grid.cell(a, 2, b)]);
            assert_eq!(field[grid.cell(0, a, b)], start[grid.cell(1, a, b)]);
            assert_eq!(field[grid.cell(3, a, b)], start[grid.cell(2, a, b)]);
        }
    }
}

#[test]
fn boundary_flips_only_the_walls_of_its_axis() {
    let n: usize = 4;
    let grid = IndexMapper::new(n).unwrap();
    let start = numbered(64);
    for (kind, flip_x, flip_y, flip_z) in [
        (BoundaryKind::X, -1.0, 1.0, 1.0),
        (BoundaryKind::Y, 1.0, -1.0, 1.0),
        (BoundaryKind::Z, 1.0, 1.0, -1.0),
    ] {
        let mut field = start.clone();
        enforce_boundary(&grid, kind, &mut field);
        for a in 1..n - 1 {
            for b in 1..n - 1 {
                assert_eq!(field[grid.cell(a, b, 0)].0, flip_z * start[grid.cell(a, b, 1)].0);
                assert_eq!(field[grid.cell(a, b, 3)].0, flip_z * start[grid.cell(a, b, 2)].0);
                assert_eq!(field[grid.cell(a, 0, b)].0, flip_y * start[grid.cell(a, 1, b)].0);
                assert_eq!(field[grid.cell(a, 3, b)].0, flip_y * start[grid.cell(a, 2, b)].0);
                assert_eq!(field[grid.cell(0, a, b)].0, flip_x * start[grid.cell(1, a, b)].0);
                assert_eq!(field[grid.cell(3, a, b)].0, flip_x * start[grid.cell(2, a, b)].0);
            }
        }
    }
}

#[test]
fn boundary_weights_corners_by_thirty_three_hundredths() {
    let n: usize = 4;
    let grid = IndexMapper::new(n).unwrap();
    let start = numbered(64);
    let mut field = start.clone();
    enforce_boundary(&grid, BoundaryKind::X, &mut field);
    let at = |x: usize, y: usize, z: usize| start[grid.cell(x, y, z)].0;
    assert_eq!(field[grid.cell(0, 0, 0)].0, 0.33 * (at(1, 0, 0) + at(0, 1, 0) + at(0, 0, 1)));
    assert_eq!(field[grid.cell(0, 3, 0)].0, 0.33 * (at(1, 3, 0) + at(0, 2, 0) + at(0, 3, 1)));
    assert_eq!(field[grid.cell(0, 0, 3)].0, 0.33 * (at(1, 0, 3) + at(0, 1, 3) + at(0, 0, 2)));
    assert_eq!(field[grid.cell(0, 3, 3)].0, 0.33 * (at(1, 3, 3) + at(0, 2, 3) + at(0, 3, 2)));
    assert_eq!(field[grid.cell(3, 0, 0)].0, 0.33 * (at(2, 0, 0) + at(3, 1, 0) + at(3, 0, 1)));
    assert_eq!(field[grid.cell(3, 3, 0)].0, 0.33 * (at(2, 3, 0) + at(3, 2, 0) + at(3, 3, 1)));
    assert_eq!(field[grid.cell(3, 0, 3)].0, 0.33 * (at(2, 0, 3) + at(3, 1, 3) + at(3, 0, 2)));
    assert_eq!(field[grid.cell(3, 3, 3)].0, 0.33 * (at(2, 3, 3) + at(3, 2, 3) + at(3, 3, 2)));
}

#[test]
fn boundary_leaves_interior_and_edges_alone() {
    let n: usize = 5;
    let grid = IndexMapper::new(n).unwrap();
    let start = numbered(125);
    let mut field = start.clone();
    enforce_boundary(&grid, BoundaryKind::Z, &mut field);
    for (i, j, k) in interior_cells(n) {
        assert_eq!(field[grid.cell(i, j, k)], start[grid.cell(i, j, k)]);
    }
    for a in 1..n - 1 {
        assert_eq!(field[grid.cell(a, 0, 0)], start[grid.cell(a, 0, 0)]);
        assert_eq!(field[grid.cell(0, a, 4)], start[grid.cell(0, a, 4)]);
        assert_eq!(field[grid.cell(4, 4, a)], start[grid.cell(4, 4, a)]);
    }
}

#[test]
fn boundary_twice_is_once() {
    let grid = IndexMapper::new(6).unwrap();
    for kind in [BoundaryKind::Plain, BoundaryKind::X, BoundaryKind::Y, BoundaryKind::Z] {
        let mut once = numbered(216);
        enforce_boundary(&grid, kind, &mut once);
        let mut twice = once.clone();
        enforce_boundary(&grid, kind, &mut twice);
        assert_eq!(once, twice);
    }
}

#[test]
fn boundary_kind_tags() {
    assert_eq!(BoundaryKind::Plain.tag(), 0);
    assert_eq!(BoundaryKind::X.tag(), 1);
    assert_eq!(BoundaryKind::Y.tag(), 2);
    assert_eq!(BoundaryKind::Z.tag(), 3);
    assert_eq!(BoundaryKind::from_tag(0), Some(BoundaryKind::Plain));
    assert_eq!(BoundaryKind::from_tag(1), Some(BoundaryKind::X));
    assert_eq!(BoundaryKind::from_tag(2), Some(BoundaryKind::Y));
    assert_eq!(BoundaryKind::from_tag(3), Some(BoundaryKind::Z));
    assert_eq!(BoundaryKind::from_tag(4), None);
    assert_eq!(Axis::X.kind(), BoundaryKind::X);
    assert_eq!(Axis::Y.kind(), BoundaryKind::Y);
    assert_eq!(Axis::Z.kind(), BoundaryKind::Z);
}

#[test]
fn sweep_relaxes_the_single_interior_cell() {
    let grid = IndexMapper::new(3).unwrap();
    let mut x = blank(27);
    let mut x0 = blank(27);
    x0[grid.cell(1, 1, 1)] = Real(10.0);
    x[grid.cell(1, 1, 1)] = Real(99.0);
    x[grid.cell(2, 1, 1)] = Real(1.0);
    x[grid.cell(0, 1, 1)] = Real(2.0);
    x[grid.cell(1, 2, 1)] = Real(3.0);
    x[grid.cell(1, 0, 1)] = Real(4.0);
    x[grid.cell(1, 1, 2)] = Real(5.0);
    x[grid.cell(1, 1, 0)] = Real(6.0);
    sweep(&grid, &mut x, &x0, Real(0.5), Real(4.0));
    assert_eq!(x[grid.cell(1, 1, 1)], Real((10.0 + 0.5 * 21.0) / 4.0));
    assert_eq!(x[grid.cell(2, 1, 1)], Real(1.0));
    assert_eq!(x[grid.cell(1, 1, 0)], Real(6.0));
}

#[test]
fn sweep_lets_a_cell_see_the_cells_relaxed_before_it() {
    let grid = IndexMapper::new(4).unwrap();
    let mut x = blank(64);
    let mut x0 = blank(64);
    x0[grid.cell(1, 1, 1)] = Real(8.0);
    sweep(&grid, &mut x, &x0, Real(1.0), Real(2.0));
    assert_eq!(x[grid.cell(1, 1, 1)], Real(4.0));
    assert_eq!(x[grid.cell(2, 1, 1)], Real(2.0));
    assert_eq!(x[grid.cell(1, 2, 1)], Real(2.0));
    assert_eq!(x[grid.cell(2, 2, 1)], Real(2.0));
    assert_eq!(x[grid.cell(1, 1, 2)], Real(2.0));
    assert_eq!(x[grid.cell(2, 2, 2)], Real(3.0));
}

#[test]
fn solver_makes_the_given_number_of_sweeps() {
    let grid = IndexMapper::new(3).unwrap();
    let mut x0 = blank(27);
    x0[grid.cell(1, 1, 1)] = Real(1.0);
    let mut none = numbered(27);
    let start = none.clone();
    linear_solve(&grid, BoundaryKind::Plain, &mut none, &x0, Real(1.0), Real(2.0), 0);
    assert_eq!(none, start);
    let mut one = blank(27);
    linear_solve(&grid, BoundaryKind::Plain, &mut one, &x0, Real(1.0), Real(2.0), 1);
    assert_eq!(one[grid.cell(1, 1, 1)], Real(0.5));
    assert_eq!(one[grid.cell(0, 1, 1)], Real(0.5));
    let mut two = blank(27);
    linear_solve(&grid, BoundaryKind::Plain, &mut two, &x0, Real(1.0), Real(2.0), 2);
    assert_eq!(two[grid.cell(1, 1, 1)], Real((1.0 + 6.0 * 0.5) / 2.0));
}

#[test]
fn solver_without_coupling_divides_the_source() {
    let n: usize = 5;
    let grid = IndexMapper::new(n).unwrap();
    let x0 = numbered(125);
    let mut x: Vec<Real> = numbered(125).into_iter().rev().collect();
    linear_solve(&grid, BoundaryKind::Plain, &mut x, &x0, Real(0.0), Real(3.0), 1);
    for (i, j, k) in interior_cells(n) {
        let here = grid.cell(i, j, k);
        assert_eq!(x[here].0, x0[here].0 / 3.0);
    }
}

#[test]
fn diffusion_coefficients() {
    let grid = IndexMapper::new(5).unwrap();
    let mut x0 = blank(125);
    x0[grid.cell(2, 2, 2)] = Real(11.0);
    let mut x = blank(125);
    diffuse(&grid, BoundaryKind::Plain, &mut x, &x0, Real(0.5), Real(0.25), 1);
    let a: f32 = 0.25 * 0.5 * 3.0 * 3.0;
    let c: f32 = 1.0 + 6.0 * a;
    assert_eq!(x[grid.cell(2, 2, 2)].0, 11.0 / c);
    assert_eq!(x[grid.cell(3, 2, 2)].0, (a * (11.0 / c)) / c);
}

#[test]
fn diffusion_at_rate_zero_copies_the_source() {
    let n: usize = 5;
    let grid = IndexMapper::new(n).unwrap();
    let x0 = numbered(125);
    let mut x = x0.clone();
    diffuse(&grid, BoundaryKind::Plain, &mut x, &x0, Real(0.0), Real(0.1), 4);
    for (i, j, k) in interior_cells(n) {
        let here = grid.cell(i, j, k);
        assert_eq!(x[here], x0[here]);
    }
    let mut other = blank(125);
    diffuse(&grid, BoundaryKind::Plain, &mut other, &x0, Real(0.0), Real(0.1), 1);
    for (i, j, k) in interior_cells(n) {
        let here = grid.cell(i, j, k);
        assert_eq!(other[here], x0[here]);
    }
}

#[test]
fn interpolation_weights_the_eight_lattice_points() {
    let grid = IndexMapper::new(4).unwrap();
    let d0 = numbered(64);
    let at = |x: usize, y: usize, z: usize| d0[grid.cell(x, y, z)].0;
    let got = interpolate(&grid, &d0, Real(1.25), Real(2.5), Real(0.75));
    let (s1, t1, u1): (f32, f32, f32) = (0.25, 0.5, 0.75);
    let (s0, t0, u0) = (1.0 - s1, 1.0 - t1, 1.0 - u1);
    let want = s0
        * (t0 * (u0 * at(1, 2, 0) + u1 * at(1, 2, 1))
            + (t1 * (u0 * at(1, 3, 0) + u1 * at(1, 3, 1))))
        + s1
            * (t0 * (u0 * at(2, 2, 0) + u1 * at(2, 2, 1))
                + (t1 * (u0 * at(2, 3, 0) + u1 * at(2, 3, 1))));
    assert_eq!(got.0, want);
}

#[test]
fn interpolation_reads_the_nearest_cell_off_the_grid() {
    let grid = IndexMapper::new(4).unwrap();
    let d0 = numbered(64);
    let got = interpolate(&grid, &d0, Real(3.0), Real(3.0), Real(3.0));
    assert_eq!(got, d0[grid.cell(3, 3, 3)]);
    let below = interpolate(&grid, &d0, Real(-1.0), Real(1.0), Real(1.0));
    assert_eq!(below, d0[grid.cell(0, 1, 1)]);
}

#[test]
fn advection_traces_back_along_the_velocity() {
    let grid = IndexMapper::new(3).unwrap();
    let d0 = numbered(27);
    let mut d = blank(27);
    let vx = vec![Real(1.0); 27];
    let still = blank(27);
    advect(&grid, BoundaryKind::Plain, &mut d, &d0, &vx, &still, &still, Real(0.25));
    let want = 0.25 * d0[grid.cell(0, 1, 1)].0 + 0.75 * d0[grid.cell(1, 1, 1)].0;
    assert_eq!(d[grid.cell(1, 1, 1)].0, want);
    assert_eq!(d[grid.cell(0, 1, 1)].0, want);
}

#[test]
fn advection_scales_the_trace_by_the_interior_width() {
    let grid = IndexMapper::new(5).unwrap();
    let d0 = numbered(125);
    let mut d = blank(125);
    let vy = vec![Real(-0.5); 125];
    let still = blank(125);
    advect(&grid, BoundaryKind::Plain, &mut d, &d0, &still, &vy, &still, Real(0.5));
    let want = 0.25 * d0[grid.cell(2, 2, 2)].0 + 0.75 * d0[grid.cell(2, 3, 2)].0;
    assert_eq!(d[grid.cell(2, 2, 2)].0, want);
}

#[test]
fn advection_clamps_the_trace_into_the_band() {
    let grid = IndexMapper::new(4).unwrap();
    let d0 = numbered(64);
    let mut d = blank(64);
    let fast = vec![Real(100.0); 64];
    let back = vec![Real(-100.0); 64];
    let still = blank(64);
    advect(&grid, BoundaryKind::Plain, &mut d, &d0, &fast, &still, &still, Real(1.0));
    let low = 0.5 * d0[grid.cell(0, 1, 1)].0 + 0.5 * d0[grid.cell(1, 1, 1)].0;
    assert_eq!(d[grid.cell(1, 1, 1)].0, low);
    advect(&grid, BoundaryKind::Plain, &mut d, &d0, &still, &still, &back, Real(1.0));
    assert_eq!(d[grid.cell(2, 1, 2)], d0[grid.cell(2, 1, 3)]);
}

#[test]
fn advection_at_rest_copies_the_source() {
    let n: usize = 6;
    let grid = IndexMapper::new(n).unwrap();
    let d0 = numbered(216);
    let mut d = blank(216);
    let still = blank(216);
    advect(&grid, BoundaryKind::Plain, &mut d, &d0, &still, &still, &still, Real(0.1));
    for (i, j, k) in interior_cells(n) {
        let here = grid.cell(i, j, k);
        assert_eq!(d[here], d0[here]);
    }
}

#[test]
fn divergence_by_central_differences() {
    let grid = IndexMapper::new(3).unwrap();
    let vx = numbered(27);
    let vy: Vec<Real> = numbered(27).into_iter().rev().collect();
    let vz: Vec<Real> = numbered(27).into_iter().map(|v| Real(v.0 * 0.5)).collect();
    let mut div = vec![Real(7.0); 27];
    divergence(&grid, &mut div, &vx, &vy, &vz);
    let want = -0.5
        * (vx[grid.cell(2, 1, 1)].0 - vx[grid.cell(0, 1, 1)].0 + vy[grid.cell(1, 2, 1)].0
            - vy[grid.cell(1, 0, 1)].0
            + vz[grid.cell(1, 1, 2)].0
            - vz[grid.cell(1, 1, 0)].0)
        / 3.0;
    assert_eq!(div[grid.cell(1, 1, 1)].0, want);
    assert_eq!(div[grid.cell(0, 1, 1)], Real(7.0));
    assert_eq!(div[grid.cell(2, 2, 2)], Real(7.0));
}

#[test]
fn gradient_is_taken_off_the_velocity() {
    let grid = IndexMapper::new(3).unwrap();
    let p = numbered(27);
    for (axis, up, down) in [
        (Axis::X, (2, 1, 1), (0, 1, 1)),
        (Axis::Y, (1, 2, 1), (1, 0, 1)),
        (Axis::Z, (1, 1, 2), (1, 1, 0)),
    ] {
        let mut v = vec![Real(1.5); 27];
        relieve(&grid, axis, &mut v, &p);
        let slope = p[grid.cell(up.0, up.1, up.2)].0 - p[grid.cell(down.0, down.1, down.2)].0;
        assert_eq!(v[grid.cell(1, 1, 1)].0, 1.5 - 0.5 * slope * 3.0);
        assert_eq!(v[grid.cell(0, 0, 0)], Real(1.5));
        assert_eq!(v[grid.cell(2, 1, 1)], Real(1.5));
    }
}

#[test]
fn clear_zeroes_every_cell() {
    let mut p = numbered(27);
    clear(&mut p);
    assert_eq!(p, blank(27));
    let mut none: Vec<Real> = Vec::new();
    clear(&mut none);
    assert!(none.is_empty());
}

#[test]
fn projection_at_rest_stays_at_rest() {
    let grid = IndexMapper::new(5).unwrap();
    let mut vx = blank(125);
    let mut vy = blank(125);
    let mut vz = blank(125);
    let mut p = numbered(125);
    let mut div = numbered(125);
    project(&grid, &mut vx, &mut vy, &mut vz, &mut p, &mut div, 4);
    assert_eq!(vx, blank(125));
    assert_eq!(vy, blank(125));
    assert_eq!(vz, blank(125));
    assert_eq!(p, blank(125));
}

#[test]
fn projection_reduces_the_divergence() {
    let n: usize = 8;
    let grid = IndexMapper::new(n).unwrap();
    let mut vx = blank(512);
    let mut vy = blank(512);
    let mut vz = blank(512);
    vx[grid.cell(4, 4, 4)] = Real(5.0);
    let mut before = blank(512);
    divergence(&grid, &mut before, &vx, &vy, &vz);
    let mut p = blank(512);
    let mut div = blank(512);
    project(&grid, &mut vx, &mut vy, &mut vz, &mut p, &mut div, 4);
    let mut after = blank(512);
    divergence(&grid, &mut after, &vx, &vy, &vz);
    let energy = |f: &Vec<Real>| -> f32 {
        interior_cells(n).iter().map(|c| f[grid.cell(c.0, c.1, c.2)].0.powi(2)).sum()
    };
    let peak = |f: &Vec<Real>| -> f32 {
        interior_cells(n).iter().map(|c| f[grid.cell(c.0, c.1, c.2)].0.abs()).fold(0.0, f32::max)
    };
    assert_eq!(before[grid.cell(3, 4, 4)], Real(-0.3125));
    assert_eq!(before[grid.cell(5, 4, 4)], Real(0.3125));
    assert_eq!(peak(&before), 0.3125);
    assert!(peak(&after) < peak(&before));
    assert!(energy(&after) < energy(&before));
    assert!(after[grid.cell(3, 4, 4)].0.abs() < before[grid.cell(3, 4, 4)].0.abs());
    assert!(after[grid.cell(5, 4, 4)].0.abs() < before[grid.cell(5, 4, 4)].0.abs());
}

#[test]
fn new_fluid_is_blank() {
    let fluid: FluidState<Real> = FluidState::new(4, Real(0.1), Real(0.0), Real(0.0)).unwrap();
    assert_eq!(fluid.density().len(), 64);
    assert_eq!(*fluid.density(), blank(64));
    assert_eq!(fluid.velocity_at(1, 2, 3), (Real(0.0), Real(0.0), Real(0.0)));
    assert_eq!(SOLVER_ITERATIONS, 4);
}

#[test]
fn fluid_refuses_a_resolution_without_interior() {
    let small = FluidState::new(2, Real(0.1), Real(0.0), Real(0.0));
    assert_eq!(small.err(), Some(ConfigError::ResolutionTooSmall));
    let none = FluidState::with_iterations(0, 1, Real(0.1), Real(0.0), Real(0.0));
    assert_eq!(none.err(), Some(ConfigError::ResolutionTooSmall));
}

#[test]
fn fluid_refuses_a_resolution_beyond_the_address_range() {
    let huge = FluidState::new(usize::MAX, Real(0.1), Real(0.0), Real(0.0));
    assert_eq!(huge.err(), Some(ConfigError::ResolutionTooLarge));
}

#[test]
fn add_density_accumulates_in_the_nearest_cell() {
    let mut fluid: FluidState<Real> = FluidState::new(4, Real(0.1), Real(0.0), Real(0.0)).unwrap();
    fluid.add_density(1, 2, 3, Real(2.5));
    fluid.add_density(1, 2, 3, Real(1.0));
    assert_eq!(fluid.density_at(1, 2, 3), Real(3.5));
    fluid.add_density(-5, 9, 2, Real(4.0));
    assert_eq!(fluid.density_at(0, 3, 2), Real(4.0));
    fluid.add_density(9, 9, 9, Real(6.0));
    assert_eq!(fluid.density_at(3, 3, 3), Real(6.0));
    let grid = IndexMapper::new(4).unwrap();
    assert_eq!(fluid.density()[grid.cell(1, 2, 3)], Real(3.5));
    assert_eq!(total(fluid.density()), 13.5);
}

#[test]
fn add_velocity_accumulates_in_the_nearest_cell() {
    let mut fluid: FluidState<Real> = FluidState::new(4, Real(0.1), Real(0.0), Real(0.0)).unwrap();
    fluid.add_velocity(2, 1, 1, Real(1.0), Real(-2.0), Real(3.0));
    fluid.add_velocity(2, 1, 1, Real(0.5), Real(0.5), Real(0.5));
    assert_eq!(fluid.velocity_at(2, 1, 1), (Real(1.5), Real(-1.5), Real(3.5)));
    fluid.add_velocity(-1, -1, -1, Real(1.0), Real(2.0), Real(3.0));
    assert_eq!(fluid.velocity_at(0, 0, 0), (Real(1.0), Real(2.0), Real(3.0)));
    assert_eq!(fluid.velocity_at(1, 1, 1), (Real(0.0), Real(0.0), Real(0.0)));
}

#[test]
fn density_at_rest_without_diffusion_stays_in_its_cell() {
    let mut fluid: FluidState<Real> = FluidState::new(8, Real(0.1), Real(0.0), Real(0.0)).unwrap();
    fluid.add_density(4, 4, 4, Real(100.0));
    fluid.step();
    assert_eq!(fluid.density_at(4, 4, 4), Real(100.0));
    assert_eq!(fluid.density_at(5, 4, 4), Real(0.0));
    assert_eq!(fluid.density_at(4, 3, 4), Real(0.0));
    assert_eq!(total(fluid.density()), 100.0);
}

#[test]
fn density_diffuses_outward() {
    let mut fluid: FluidState<Real> =
        FluidState::with_iterations(8, 20, Real(0.1), Real(0.01), Real(0.0)).unwrap();
    fluid.add_density(4, 4, 4, Real(100.0));
    fluid.step();
    assert!(fluid.density_at(4, 4, 4).0 < 100.0);
    assert!(fluid.density_at(4, 4, 4).0 > 0.0);
    for (x, y, z) in [(5, 4, 4), (3, 4, 4), (4, 5, 4), (4, 3, 4), (4, 4, 5), (4, 4, 3)] {
        assert!(fluid.density_at(x, y, z).0 > 0.0);
        assert!(fluid.density_at(x, y, z).0 < fluid.density_at(4, 4, 4).0);
    }
    let sum = total(fluid.density());
    assert!((sum - 100.0).abs() < 1.0);
}

#[test]
fn velocity_impulse_spreads() {
    let mut fluid: FluidState<Real> = FluidState::new(8, Real(0.1), Real(0.0), Real(0.0)).unwrap();
    fluid.add_velocity(4, 4, 4, Real(5.0), Real(0.0), Real(0.0));
    fluid.step();
    let mut moving = 0;
    for z in 1..7 {
        for y in 1..7 {
            for x in 1..7 {
                let (vx, vy, vz) = fluid.velocity_at(x, y, z);
                if (x, y, z) != (4, 4, 4) && (vx.0 != 0.0 || vy.0 != 0.0 || vz.0 != 0.0) {
                    moving += 1;
                }
            }
        }
    }
    assert!(moving > 0);
    assert!(fluid.velocity_at(5, 4, 4).0 .0 != 0.0);
    assert!(fluid.velocity_at(4, 4, 4).0 .0 < 5.0);
}

fn point(x: f32, y: f32) -> Vec2<Real> {
    Vec2 { x: Real(x), y: Real(y) }
}

fn room() -> Rect<Real> {
    Rect { x: Real(20.0), y: Real(20.0), width: Real(1240.0), height: Real(680.0) }
}

#[test]
fn sign_of_a_number() {
    assert_eq!(get_sign(Real(3.5)), Real(1.0));
    assert_eq!(get_sign(Real(-0.25)), Real(-1.0));
    assert_eq!(get_sign(Real(0.0)), Real(0.0));
    assert_eq!(get_sign(Real(-0.0)), Real(0.0));
    assert_eq!(get_sign(Real(f32::NAN)), Real(0.0));
}

#[test]
fn gravity_is_the_float_literal() {
    assert_eq!(gravity::<Real>(), Real(9.81));
}

#[test]
fn new_particle_keeps_eight_tenths_of_its_speed() {
    let p = Particle::new(point(1.0, 2.0), point(3.0, 4.0), Real(20.0));
    assert_eq!(p.pos, point(1.0, 2.0));
    assert_eq!(p.vel, point(3.0, 4.0));
    assert_eq!(p.radius, Real(20.0));
    assert_eq!(p.collision_damping, Real(0.8));
}

#[test]
fn particle_inside_the_box_is_left_alone() {
    let mut p = Particle::new(point(100.0, 200.0), point(3.0, 4.0), Real(20.0));
    p.collision(&room());
    assert_eq!(p.pos, point(100.0, 200.0));
    assert_eq!(p.vel, point(3.0, 4.0));
    let mut edge = Particle::new(point(1240.0, 680.0), point(3.0, 4.0), Real(20.0));
    edge.collision(&room());
    assert_eq!(edge.pos, point(1240.0, 680.0));
    assert_eq!(edge.vel, point(3.0, 4.0));
}

#[test]
fn particle_beyond_the_far_walls_bounces() {
    let mut p = Particle::new(point(1300.0, 200.0), point(10.0, 4.0), Real(20.0));
    p.collision(&room());
    assert_eq!(p.pos, point(1240.0, 200.0));
    assert_eq!(p.vel, point(10.0 * (-1.0 * 0.8), 4.0));
    let mut q = Particle::new(point(100.0, 700.0), point(10.0, 5.0), Real(20.0));
    q.collision(&room());
    assert_eq!(q.pos, point(100.0, 680.0));
    assert_eq!(q.vel, point(10.0, 5.0 * (-1.0 * 0.8)));
    let mut both = Particle::new(point(2000.0, 2000.0), point(1.0, 1.0), Real(10.0));
    both.collision(&room());
    assert_eq!(both.pos, point(1250.0, 690.0));
    assert_eq!(both.vel, point(-0.8, -0.8));
}

#[test]
fn particle_falls_and_moves() {
    let mut p = Particle::new(point(100.0, 100.0), point(2.0, 0.0), Real(20.0));
    p.update(Real(0.5), &room());
    assert_eq!(p.vel, point(2.0, 9.81));
    assert_eq!(p.pos, point(100.0 + 2.0 * 0.5, 100.0 + 9.81 * 0.5));
}

#[test]
fn particle_that_falls_through_the_floor_bounces() {
    let mut p = Particle::new(point(100.0, 679.0), point(0.0, 10.0), Real(20.0));
    p.update(Real(1.0), &room());
    assert_eq!(p.pos, point(100.0, 680.0));
    assert_eq!(p.vel.y.0, (10.0 + 9.81) * (-1.0 * 0.8));
    assert_eq!(p.vel.x, Real(0.0));
}

#[test]
fn a_divisor_of_zero_blows_up_without_complaint() {
    let grid = IndexMapper::new(3).unwrap();
    let mut x0 = blank(27);
    x0[grid.cell(1, 1, 1)] = Real(2.0);
    let mut x = blank(27);
    linear_solve(&grid, BoundaryKind::Plain, &mut x, &x0, Real(1.0), Real(0.0), 1);
    assert_eq!(x[grid.cell(1, 1, 1)].0, f32::INFINITY);
    assert_eq!(x[grid.cell(0, 1, 1)].0, f32::INFINITY);
    linear_solve(&grid, BoundaryKind::Plain, &mut x, &blank(27), Real(1.0), Real(0.0), 1);
    assert_eq!(x[grid.cell(1, 1, 1)].0, f32::INFINITY);
    let mut nothing = blank(27);
    linear_solve(&grid, BoundaryKind::Plain, &mut nothing, &blank(27), Real(1.0), Real(0.0), 1);
    assert!(nothing[grid.cell(1, 1, 1)].0.is_nan());
    assert!(nothing[grid.cell(2, 1, 1)].0.is_nan());
}

#[test]
fn fluid_tells_its_parameters() {
    let fluid: FluidState<Real> =
        FluidState::with_iterations(6, 9, Real(0.1), Real(0.2), Real(0.3)).unwrap();
    assert_eq!(fluid.resolution(), 6);
    assert_eq!(fluid.iterations(), 9);
    assert_eq!(fluid.time_step(), Real(0.1));
    assert_eq!(fluid.diffusion(), Real(0.2));
    assert_eq!(fluid.viscosity(), Real(0.3));
    let plain: FluidState<Real> = FluidState::new(3, Real(1.0), Real(0.0), Real(0.0)).unwrap();
    assert_eq!(plain.iterations(), SOLVER_ITERATIONS);
}

#[test]
fn particle_cell_test_compares_all_four_sides() {
    let p = Particle::new(point(30.0, 30.0), point(0.0, 0.0), Real(1.0));
    assert!(!p.in_cell(20, 20, (1, 1)));
    assert!(p.in_cell(20, -20, (1, 2)));
    assert!(!p.in_cell(20, -20, (2, 2)));
    assert!(!p.in_cell(20, -20, (1, 3)));
    let edge = Particle::new(point(20.0, 30.0), point(0.0, 0.0), Real(1.0));
    assert!(!edge.in_cell(20, -20, (1, 2)));
}

#[test]
fn overlapping_particles_are_parted() {
    let mut a = Particle::new(point(10.0, 10.0), point(1.0, 2.0), Real(4.0));
    let mut b = Particle::new(point(13.0, 14.0), point(3.0, 4.0), Real(2.0));
    a.separate(&mut b, Real(5.0));
    assert_eq!(a.pos, point(9.5, 9.5));
    assert_eq!(b.pos, point(13.5, 14.5));
    assert_eq!(a.vel, point(1.0, 2.0));
    assert_eq!(b.vel, point(3.0, 4.0));
    assert_eq!(a.radius, Real(4.0));
    assert_eq!(b.radius, Real(2.0));
}

#[test]
fn particle_finds_its_cell() {
    let p = Particle::new(point(45.0, 130.0), point(0.0, 0.0), Real(1.0));
    assert_eq!(p.cell(20, 20), (6, 2));
    assert_eq!(p.cell(50, 10), (13, 0));
    let outside = Particle::new(point(-0.5, -30.0), point(0.0, 0.0), Real(1.0));
    assert_eq!(outside.cell(20, 20), (-2, -1));
    let corner = Particle::new(point(40.0, 0.0), point(0.0, 0.0), Real(1.0));
    assert_eq!(corner.cell(20, 20), (0, 2));
}
