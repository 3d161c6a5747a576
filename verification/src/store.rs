use vstd::prelude::*;
use crate::vec2::Vec2;

verus! {

/// Fixed-point scale: stored units per world unit.  Positions, velocities,
/// accelerations and timesteps all carry this factor once.
pub const SCALE: i128 = 1_000_000;

/// Largest gravitational constant a store accepts (in the caller's units,
/// including the SCALE^3 factor of the fixed-point coordinates).
pub const G_LIMIT: i128 = 100_000_000_000_000;

/// Largest mass a store accepts.
pub const MASS_LIMIT: i128 = 100_000_000_000;

/// Largest coordinate magnitude at which forces can be accumulated.
pub const POS_LIMIT: i128 = 1_000_000_000_000;

/// Largest body count at which forces can be accumulated.
pub const BODY_LIMIT: usize = 1_000_000;

/// Largest magnitude of position, velocity or acceleration the integrator
/// accepts without risking arithmetic outside the i128 range.
pub const STATE_LIMIT: i128 = 10_000_000_000_000_000_000_000_000_000_000;

/// Largest timestep the integrator accepts.
pub const DT_LIMIT: i128 = 10_000_000;

/// The failures the simulator reports.
#[derive(Clone, Copy, Debug, PartialEq, Eq, Structural)]
pub enum SimError {
    /// Construction rejected: mismatched input lengths or a non-positive mass.
    InvalidInput,
    /// Two distinct bodies at the same position during force accumulation.
    DegenerateConfiguration,
    /// A non-positive timestep handed to the integrator.
    InvalidTimestep,
}

/// One point mass: mass, position, velocity, and the most recently
/// accumulated acceleration.
#[derive(Clone, Copy, Debug, PartialEq, Eq, Structural)]
pub struct Body {
    pub mass: i128,
    pub position: Vec2,
    pub velocity: Vec2,
    pub acceleration: Vec2,
}

/// Owns the per-body state for one simulation run.  Bodies are identified
/// by their index, fixed for the lifetime of the run; no body is created
/// or destroyed after construction.
pub struct BodyStore {
    g: i128,
    bodies: Vec<Body>,
}

impl BodyStore {
    /// The per-body state, ordered by the stable body index.
    pub closed spec fn bodies(self) -> Seq<Body> {
        self.bodies@
    }

    /// The gravitational constant this run was configured with.
    pub closed spec fn g(self) -> int {
        self.g as int
    }

    /// Well-formedness: the gravitational constant and every mass are
    /// positive and within the machine limits.
    pub open spec fn wf(self) -> bool {
        &&& 0 < self.g() <= G_LIMIT as int
        &&& forall|i: int|
            0 <= i < self.bodies().len() ==> 0 < (#[trigger] self.bodies()[i]).mass <= MASS_LIMIT
    }

    /// Builds a store of N bodies from equally long mass, position and
    /// velocity lists; every body starts with zero acceleration.  Rejects
    /// mismatched lengths and non-positive masses with InvalidInput.
    pub fn create(g: i128, masses: Vec<i128>, positions: Vec<Vec2>, velocities: Vec<Vec2>) -> (r:
        Result<BodyStore, SimError>)
        requires
            0 < g <= G_LIMIT,
            forall|i: int| 0 <= i < masses@.len() ==> #[trigger] masses@[i] <= MASS_LIMIT,
        ensures
            match r {
                Ok(s) => {
                    &&& s.wf()
                    &&& s.g() == g as int
                    &&& masses@.len() == positions@.len()
                    &&& masses@.len() == velocities@.len()
                    &&& forall|i: int| 0 <= i < masses@.len() ==> 0 < #[trigger] masses@[i]
                    &&& s.bodies().len() == masses@.len()
                    &&& forall|i: int|
                        0 <= i < masses@.len() ==> #[trigger] s.bodies()[i] == (Body {
                            mass: masses@[i],
                            position: positions@[i],
                            velocity: velocities@[i],
                            acceleration: Vec2 { x: 0, y: 0 },
                        })
                },
                Err(e) => {
                    &&& e == SimError::InvalidInput
                    &&& (masses@.len() != positions@.len() || masses@.len() != velocities@.len()
                        || exists|i: int| 0 <= i < masses@.len() && #[trigger] masses@[i] <= 0)
                },
            },
    {
        if masses.len() != positions.len() || masses.len() != velocities.len() {
            return Err(SimError::InvalidInput);
        }
        let n = masses.len();
        let mut bodies: Vec<Body> = Vec::new();
        let mut i: usize = 0;
        while i < n
            invariant
                i <= n,
                n == masses@.len(),
                n == positions@.len(),
                n == velocities@.len(),
                bodies@.len() == i,
                forall|k: int| 0 <= k < i ==> 0 < #[trigger] masses@[k],
                forall|k: int|
                    0 <= k < i ==> #[trigger] bodies@[k] == (Body {
                        mass: masses@[k],
                        position: positions@[k],
                        velocity: velocities@[k],
                        acceleration: Vec2 { x: 0, y: 0 },
                    }),
            decreases n - i,
        {
            let m = masses[i];
            if m <= 0 {
                return Err(SimError::InvalidInput);
            }
            bodies.push(
                Body {
                    mass: m,
                    position: positions[i],
                    velocity: velocities[i],
                    acceleration: Vec2::zero(),
                },
            );
            i = i + 1;
        }
        Ok(BodyStore { g, bodies })
    }

    /// Number of bodies.
    pub fn len(&self) -> (n: usize)
        ensures
            n == self.bodies().len(),
    {
        self.bodies.len()
    }

    /// The configured gravitational constant.
    pub fn gravity(&self) -> (g: i128)
        ensures
            g as int == self.g(),
    {
        self.g
    }

    /// Reads the body at the given index.
    pub fn body(&self, i: usize) -> (b: Body)
        requires
            i < self.bodies().len(),
        ensures
            b == self.bodies()[i as int],
    {
        self.bodies[i]
    }

    /// The whole state, ordered by body index.
    pub fn read_all(&self) -> (r: &Vec<Body>)
        ensures
            r@ == self.bodies(),
    {
        &self.bodies
    }

    /// Overwrites the acceleration of one body; everything else is kept.
    pub fn set_acceleration(&mut self, i: usize, a: Vec2)
        requires
            i < old(self).bodies().len(),
        ensures
            final(self).g() == old(self).g(),
            final(self).bodies() == old(self).bodies().update(
                i as int,
                (Body {
                    mass: old(self).bodies()[i as int].mass,
                    position: old(self).bodies()[i as int].position,
                    velocity: old(self).bodies()[i as int].velocity,
                    acceleration: a,
                }),
            ),
            old(self).wf() ==> final(self).wf(),
    {
        let b = self.bodies[i];
        self.bodies[i] = Body { mass: b.mass, position: b.position, velocity: b.velocity, acceleration: a };
    }

    /// Overwrites the position of one body; everything else is kept.
    pub fn set_position(&mut self, i: usize, p: Vec2)
        requires
            i < old(self).bodies().len(),
        ensures
            final(self).g() == old(self).g(),
            final(self).bodies() == old(self).bodies().update(
                i as int,
                (Body {
                    mass: old(self).bodies()[i as int].mass,
                    position: p,
                    velocity: old(self).bodies()[i as int].velocity,
                    acceleration: old(self).bodies()[i as int].acceleration,
                }),
            ),
            old(self).wf() ==> final(self).wf(),
    {
        let b = self.bodies[i];
        self.bodies[i] = Body { mass: b.mass, position: p, velocity: b.velocity, acceleration: b.acceleration };
    }

    /// Overwrites the velocity of one body; everything else is kept.
    pub fn set_velocity(&mut self, i: usize, v: Vec2)
        requires
            i < old(self).bodies().len(),
        ensures
            final(self).g() == old(self).g(),
            final(self).bodies() == old(self).bodies().update(
                i as int,
                (Body {
                    mass: old(self).bodies()[i as int].mass,
                    position: old(self).bodies()[i as int].position,
                    velocity: v,
                    acceleration: old(self).bodies()[i as int].acceleration,
                }),
            ),
            old(self).wf() ==> final(self).wf(),
    {
        let b = self.bodies[i];
        self.bodies[i] = Body { mass: b.mass, position: b.position, velocity: v, acceleration: b.acceleration };
    }
}

} // verus!
