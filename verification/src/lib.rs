//! A grid-based solver for incompressible fluids.
//!
//! The grid is a cube of `n * n * n` cells. Every field (density, the three
//! velocity components and their previous-step buffers) is a dense vector of
//! scalars addressed through [`index::IndexMapper`]. One time step of
//! [`fluid::FluidState`] diffuses, projects and advects the velocity and then
//! the density; [`boundary`], [`solver`], [`advect`] and [`project`] hold the
//! steps it is made of.
//!
//! The solver is generic over the arithmetic of its cells, see
//! [`scalar::Scalar`]: what each function computes is stated over the
//! operations of the scalar, and the algebraic laws of the solver are proved
//! for scalars whose arithmetic is exact, such as [`fixed::Fixed`].
//!
//! [`particle`] holds the particles that a sandbox drops into the same
//! window.
pub mod advect;
pub mod boundary;
mod cells;
pub mod fixed;
pub mod fluid;
pub mod index;
pub mod particle;
pub mod project;
pub mod scalar;
pub mod solver;
