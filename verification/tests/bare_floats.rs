use paper_engine::fluid::FluidState;
use paper_engine::scalar::Scalar;

/// Single-precision floating point as the solver's scalar.
#[derive(Clone, Copy, Debug, PartialEq)]
struct Real(f32);

impl Scalar for Real {
    fn from_int_spec(k: i64) -> Self {
        Self::from_int(k)
    }

    fn from_int(k: i64) -> Self {
        Real(k as f32)
    }

    fn plus_spec(self, rhs: Self) -> Self {
        self.plus(rhs)
    }

    fn plus(self, rhs: Self) -> Self {
        Real(self.0 + rhs.0)
    }

    fn minus_spec(self, rhs: Self) -> Self {
        self.minus(rhs)
    }

    fn minus(self, rhs: Self) -> Self {
        Real(self.0 - rhs.0)
    }

    fn times_spec(self, rhs: Self) -> Self {
        self.times(rhs)
    }

    fn times(self, rhs: Self) -> Self {
        Real(self.0 * rhs.0)
    }

    fn over_spec(self, rhs: Self) -> Self {
        self.over(rhs)
    }

    fn over(self, rhs: Self) -> Self {
        Real(self.0 / rhs.0)
    }

    fn negated_spec(self) -> Self {
        self.negated()
    }

    fn negated(self) -> Self {
        Real(-self.0)
    }

    fn less_than_spec(self, rhs: Self) -> bool {
        self.less_than(rhs)
    }

    fn less_than(self, rhs: Self) -> bool {
        self.0 < rhs.0
    }

    fn floor_spec(self) -> i64 {
        self.floor()
    }

    fn floor(self) -> i64 {
        self.0.floor() as i64
    }
}

/// The solver written out on bare floats with array indices, to hold the
/// library against.
struct Plain {
    n: usize,
    iter: usize,
    dt: f32,
    diff: f32,
    visc: f32,
    s: Vec<f32>,
    density: Vec<f32>,
    vx: Vec<f32>,
    vy: Vec<f32>,
    vz: Vec<f32>,
    vx0: Vec<f32>,
    vy0: Vec<f32>,
    vz0: Vec<f32>,
}

fn ix(n: usize, x: i64, y: i64, z: i64) -> usize {
    let top = n as i64 - 1;
    let x = x.clamp(0, top) as usize;
    let y = y.clamp(0, top) as usize;
    let z = z.clamp(0, top) as usize;
    x + y * n + z * n * n
}

fn set_bnd(n: usize, b: u8, x: &mut [f32]) {
    let m = n as i64;
    for j in 1..m - 1 {
        for i in 1..m - 1 {
            x[ix(n, i, j, 0)] = if b == 3 { -x[ix(n, i, j, 1)] } else { x[ix(n, i, j, 1)] };
            x[ix(n, i, j, m - 1)] =
                if b == 3 { -x[ix(n, i, j, m - 2)] } else { x[ix(n, i, j, m - 2)] };
        }
    }
    for k in 1..m - 1 {
        for i in 1..m - 1 {
            x[ix(n, i, 0, k)] = if b == 2 { -x[ix(n, i, 1, k)] } else { x[ix(n, i, 1, k)] };
            x[ix(n, i, m - 1, k)] =
                if b == 2 { -x[ix(n, i, m - 2, k)] } else { x[ix(n, i, m - 2, k)] };
        }
    }
    for k in 1..m - 1 {
        for j in 1..m - 1 {
            x[ix(n, 0, j, k)] = if b == 1 { -x[ix(n, 1, j, k)] } else { x[ix(n, 1, j, k)] };
            x[ix(n, m - 1, j, k)] =
                if b == 1 { -x[ix(n, m - 2, j, k)] } else { x[ix(n, m - 2, j, k)] };
        }
    }
    let t = m - 1;
    let u = m - 2;
    x[ix(n, 0, 0, 0)] = 0.33 * (x[ix(n, 1, 0, 0)] + x[ix(n, 0, 1, 0)] + x[ix(n, 0, 0, 1)]);
    x[ix(n, 0, t, 0)] = 0.33 * (x[ix(n, 1, t, 0)] + x[ix(n, 0, u, 0)] + x[ix(n, 0, t, 1)]);
    x[ix(n, 0, 0, t)] = 0.33 * (x[ix(n, 1, 0, t)] + x[ix(n, 0, 1, t)] + x[ix(n, 0, 0, u)]);
    x[ix(n, 0, t, t)] = 0.33 * (x[ix(n, 1, t, t)] + x[ix(n, 0, u, t)] + x[ix(n, 0, t, u)]);
    x[ix(n, t, 0, 0)] = 0.33 * (x[ix(n, u, 0, 0)] + x[ix(n, t, 1, 0)] + x[ix(n, t, 0, 1)]);
    x[ix(n, t, t, 0)] = 0.33 * (x[ix(n, u, t, 0)] + x[ix(n, t, u, 0)] + x[ix(n, t, t, 1)]);
    x[ix(n, t, 0, t)] = 0.33 * (x[ix(n, u, 0, t)] + x[ix(n, t, 1, t)] + x[ix(n, t, 0, u)]);
    x[ix(n, t, t, t)] = 0.33 * (x[ix(n, u, t, t)] + x[ix(n, t, u, t)] + x[ix(n, t, t, u)]);
}

fn lin_solve(n: usize, b: u8, x: &mut [f32], x0: &[f32], a: f32, c: f32, iter: usize) {
    let m = n as i64;
    for _ in 0..iter {
        for k in 1..m - 1 {
            for j in 1..m - 1 {
                for i in 1..m - 1 {
                    x[ix(n, i, j, k)] = (x0[ix(n, i, j, k)]
                        + a * (x[ix(n, i + 1, j, k)]
                            + x[ix(n, i - 1, j, k)]
                            + x[ix(n, i, j + 1, k)]
                            + x[ix(n, i, j - 1, k)]
                            + x[ix(n, i, j, k + 1)]
                            + x[ix(n, i, j, k - 1)]))
                        / c;
                }
            }
        }
        set_bnd(n, b, x);
    }
}

fn diffuse(n: usize, b: u8, x: &mut [f32], x0: &[f32], diff: f32, dt: f32, iter: usize) {
    let a = dt * diff * (n - 2) as f32 * (n - 2) as f32;
    lin_solve(n, b, x, x0, a, 1.0 + 6.0 * a, iter);
}

fn project(
    n: usize,
    vx: &mut [f32],
    vy: &mut [f32],
    vz: &mut [f32],
    p: &mut [f32],
    div: &mut [f32],
    iter: usize,
) {
    let m = n as i64;
    for k in 1..m - 1 {
        for j in 1..m - 1 {
            for i in 1..m - 1 {
                div[ix(n, i, j, k)] = -0.5
                    * (vx[ix(n, i + 1, j, k)] - vx[ix(n, i - 1, j, k)] + vy[ix(n, i, j + 1, k)]
                        - vy[ix(n, i, j - 1, k)]
                        + vz[ix(n, i, j, k + 1)]
                        - vz[ix(n, i, j, k - 1)])
                    / n as f32;
            }
        }
    }
    for cell in p.iter_mut() {
        *cell = 0.0;
    }
    set_bnd(n, 0, div);
    set_bnd(n, 0, p);
    lin_solve(n, 0, p, div, 1.0, 6.0, iter);
    for k in 1..m - 1 {
        for j in 1..m - 1 {
            for i in 1..m - 1 {
                vx[ix(n, i, j, k)] -=
                    0.5 * (p[ix(n, i + 1, j, k)] - p[ix(n, i - 1, j, k)]) * n as f32;
                vy[ix(n, i, j, k)] -=
                    0.5 * (p[ix(n, i, j + 1, k)] - p[ix(n, i, j - 1, k)]) * n as f32;
                vz[ix(n, i, j, k)] -=
                    0.5 * (p[ix(n, i, j, k + 1)] - p[ix(n, i, j, k - 1)]) * n as f32;
            }
        }
    }
    set_bnd(n, 1, vx);
    set_bnd(n, 2, vy);
    set_bnd(n, 3, vz);
}

fn trace(n: usize, at: i64, dt: f32, v: f32) -> f32 {
    let mut x = at as f32 - dt * (n - 2) as f32 * v;
    if x < 0.5 {
        x = 0.5;
    }
    if x > n as f32 + 0.5 {
        x = n as f32 + 0.5;
    }
    x
}

fn advect(
    n: usize,
    b: u8,
    d: &mut [f32],
    d0: &[f32],
    vx: &[f32],
    vy: &[f32],
    vz: &[f32],
    dt: f32,
) {
    let m = n as i64;
    for k in 1..m - 1 {
        for j in 1..m - 1 {
            for i in 1..m - 1 {
                let x = trace(n, i, dt, vx[ix(n, i, j, k)]);
                let y = trace(n, j, dt, vy[ix(n, i, j, k)]);
                let z = trace(n, k, dt, vz[ix(n, i, j, k)]);
                let (i0, j0, k0) = (x.floor(), y.floor(), z.floor());
                let (s1, t1, u1) = (x - i0, y - j0, z - k0);
                let (s0, t0, u0) = (1.0 - s1, 1.0 - t1, 1.0 - u1);
                let (i0, j0, k0) = (i0 as i64, j0 as i64, k0 as i64);
                let (i1, j1, k1) = (i0 + 1, j0 + 1, k0 + 1);
                d[ix(n, i, j, k)] = s0
                    * (t0 * (u0 * d0[ix(n, i0, j0, k0)] + u1 * d0[ix(n, i0, j0, k1)])
                        + (t1 * (u0 * d0[ix(n, i0, j1, k0)] + u1 * d0[ix(n, i0, j1, k1)])))
                    + s1
                        * (t0 * (u0 * d0[ix(n, i1, j0, k0)] + u1 * d0[ix(n, i1, j0, k1)])
                            + (t1 * (u0 * d0[ix(n, i1, j1, k0)] + u1 * d0[ix(n, i1, j1, k1)])));
            }
        }
    }
    set_bnd(n, b, d);
}

impl Plain {
    fn new(n: usize, iter: usize, dt: f32, diff: f32, visc: f32) -> Plain {
        let blank = vec![0.0; n * n * n];
        Plain {
            n,
            iter,
            dt,
            diff,
            visc,
            s: blank.clone(),
            density: blank.clone(),
            vx: blank.clone(),
            vy: blank.clone(),
            vz: blank.clone(),
            vx0: blank.clone(),
            vy0: blank.clone(),
            vz0: blank,
        }
    }

    fn add_density(&mut self, x: i64, y: i64, z: i64, amount: f32) {
        self.density[ix(self.n, x, y, z)] += amount;
    }

    fn add_velocity(&mut self, x: i64, y: i64, z: i64, ax: f32, ay: f32, az: f32) {
        let c = ix(self.n, x, y, z);
        self.vx[c] += ax;
        self.vy[c] += ay;
        self.vz[c] += az;
    }

    fn step(&mut self) {
        let (n, it, dt) = (self.n, self.iter, self.dt);
        diffuse(n, 1, &mut self.vx0, &self.vx, self.visc, dt, it);
        diffuse(n, 2, &mut self.vy0, &self.vy, self.visc, dt, it);
        diffuse(n, 3, &mut self.vz0, &self.vz, self.visc, dt, it);
        project(n, &mut self.vx0, &mut self.vy0, &mut self.vz0, &mut self.vx, &mut self.vy, it);
        advect(n, 1, &mut self.vx, &self.vx0, &self.vx0, &self.vy0, &self.vz0, dt);
        advect(n, 2, &mut self.vy, &self.vy0, &self.vx0, &self.vy0, &self.vz0, dt);
        advect(n, 3, &mut self.vz, &self.vz0, &self.vx0, &self.vy0, &self.vz0, dt);
        project(n, &mut self.vx, &mut self.vy, &mut self.vz, &mut self.vx0, &mut self.vy0, it);
        diffuse(n, 0, &mut self.s, &self.density, self.diff, dt, it);
        advect(n, 0, &mut self.density, &self.s, &self.vx, &self.vy, &self.vz, dt);
    }
}

fn same_bits(fluid: &FluidState<Real>, plain: &Plain) {
    let n = plain.n as i64;
    assert_eq!(fluid.density().len(), plain.density.len());
    for (c, cell) in fluid.density().iter().enumerate() {
        assert_eq!(cell.0.to_bits(), plain.density[c].to_bits());
    }
    for z in 0..n {
        for y in 0..n {
            for x in 0..n {
                let c = ix(plain.n, x, y, z);
                let (vx, vy, vz) = fluid.velocity_at(x, y, z);
                assert_eq!(vx.0.to_bits(), plain.vx[c].to_bits());
                assert_eq!(vy.0.to_bits(), plain.vy[c].to_bits());
                assert_eq!(vz.0.to_bits(), plain.vz[c].to_bits());
                assert_eq!(fluid.density_at(x, y, z).0.to_bits(), plain.density[c].to_bits());
            }
        }
    }
}

#[test]
fn stirred_fluid_matches_the_solver_on_bare_floats() {
    let mut fluid: FluidState<Real> =
        FluidState::new(8, Real(0.1), Real(0.002), Real(0.0005)).unwrap();
    let mut plain = Plain::new(8, 4, 0.1, 0.002, 0.0005);
    same_bits(&fluid, &plain);
    for round in 0..5 {
        fluid.add_density(4, 4, 4, Real(100.0));
        plain.add_density(4, 4, 4, 100.0);
        fluid.add_velocity(4, 4, 4, Real(5.0), Real(-2.5), Real(1.25));
        plain.add_velocity(4, 4, 4, 5.0, -2.5, 1.25);
        fluid.add_velocity(2, 5 - round, 3, Real(-3.0), Real(0.5), Real(4.0));
        plain.add_velocity(2, 5 - round, 3, -3.0, 0.5, 4.0);
        fluid.step();
        plain.step();
        same_bits(&fluid, &plain);
    }
    assert!(plain.density.iter().any(|v| *v != 0.0));
    assert!(plain.vx.iter().any(|v| *v != 0.0));
    assert!(plain.density[ix(8, 5, 4, 4)] > 0.0);
}

#[test]
fn fluid_at_rest_matches_the_solver_on_bare_floats() {
    let mut fluid: FluidState<Real> =
        FluidState::with_iterations(5, 2, Real(0.25), Real(0.0), Real(0.0)).unwrap();
    let mut plain = Plain::new(5, 2, 0.25, 0.0, 0.0);
    fluid.add_density(2, 2, 2, Real(7.0));
    plain.add_density(2, 2, 2, 7.0);
    fluid.step();
    plain.step();
    same_bits(&fluid, &plain);
    assert_eq!(plain.density[ix(5, 2, 2, 2)], 7.0);
}

#[test]
fn a_push_at_the_wall_matches_the_solver_on_bare_floats() {
    let mut fluid: FluidState<Real> =
        FluidState::new(6, Real(0.1), Real(0.01), Real(0.01)).unwrap();
    let mut plain = Plain::new(6, 4, 0.1, 0.01, 0.01);
    for _ in 0..3 {
        fluid.add_density(1, 1, 1, Real(50.0));
        plain.add_density(1, 1, 1, 50.0);
        fluid.add_velocity(1, 1, 1, Real(-8.0), Real(-8.0), Real(-8.0));
        plain.add_velocity(1, 1, 1, -8.0, -8.0, -8.0);
        fluid.add_velocity(4, 1, 4, Real(20.0), Real(0.0), Real(20.0));
        plain.add_velocity(4, 1, 4, 20.0, 0.0, 20.0);
        fluid.step();
        plain.step();
        same_bits(&fluid, &plain);
    }
}
