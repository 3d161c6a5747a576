//! A classical N-body gravitational simulator on fixed-point coordinates.
//!
//! The crate advances a set of point masses under mutual Newtonian
//! gravitation.  State is kept in a [`store::BodyStore`]; each tick first
//! recomputes every body's acceleration from the current positions and
//! masses (the force accumulator) and then advances position and velocity
//! by one explicit Euler step.
//!
//! All coordinates, velocities, accelerations and timesteps are signed
//! integers carrying a fixed-point scale of [`store::SCALE`] units per
//! world unit, so every result is stated exactly in the contracts.

pub mod math;
pub mod vec2;
pub mod store;
pub mod forces;
pub mod integrate;
