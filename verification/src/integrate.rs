use vstd::prelude::*;
use crate::forces::{
    accel, has_degenerate_pair, lemma_accel_prefix_bound, positions_bounded, PULL_LIMIT,
};
use crate::math::{div_trunc, div_tz, lemma_div_tz_le};
use crate::store::{Body, BodyStore, SimError, BODY_LIMIT, DT_LIMIT, POS_LIMIT, SCALE, STATE_LIMIT};
use crate::vec2::Vec2;

verus! {

/// One Euler update of a coordinate: the old value plus the product of
/// its derivative and the timestep, descaled and rounded toward zero.
pub open spec fn euler_step(x: int, dx: int, dt: int) -> int {
    x + div_tz(dx * dt, SCALE as int)
}

/// Every position, velocity and acceleration is within the magnitude
/// range the integrator accepts.
pub open spec fn kinematics_bounded(bs: Seq<Body>) -> bool {
    forall|i: int|
        0 <= i < bs.len() ==> {
            let b = #[trigger] bs[i];
            &&& -(STATE_LIMIT as int) <= b.position.x <= STATE_LIMIT as int
            &&& -(STATE_LIMIT as int) <= b.position.y <= STATE_LIMIT as int
            &&& -(STATE_LIMIT as int) <= b.velocity.x <= STATE_LIMIT as int
            &&& -(STATE_LIMIT as int) <= b.velocity.y <= STATE_LIMIT as int
            &&& -(STATE_LIMIT as int) <= b.acceleration.x <= STATE_LIMIT as int
            &&& -(STATE_LIMIT as int) <= b.acceleration.y <= STATE_LIMIT as int
        }
}

/// Every velocity is within the magnitude range a full tick accepts.
pub open spec fn velocities_bounded(bs: Seq<Body>) -> bool {
    forall|i: int|
        0 <= i < bs.len() ==> {
            let b = #[trigger] bs[i];
            &&& -(STATE_LIMIT as int) <= b.velocity.x <= STATE_LIMIT as int
            &&& -(STATE_LIMIT as int) <= b.velocity.y <= STATE_LIMIT as int
        }
}

impl BodyStore {
    /// Advances every body by one explicit (forward) Euler step of size
    /// dt: position from the pre-step velocity and velocity from the
    /// pre-step acceleration, both from the values before the call;
    /// masses and accelerations are untouched.  A non-positive dt is
    /// rejected with InvalidTimestep and the store is left unchanged.
    #[verifier::loop_isolation(false)]
    pub fn integrate(&mut self, dt: i128) -> (r: Result<(), SimError>)
        requires
            old(self).wf(),
            dt <= DT_LIMIT,
            kinematics_bounded(old(self).bodies()),
        ensures
            final(self).g() == old(self).g(),
            final(self).wf(),
            match r {
                Ok(()) => {
                    &&& dt > 0
                    &&& final(self).bodies().len() == old(self).bodies().len()
                    &&& forall|k: int|
                        0 <= k < old(self).bodies().len() ==> {
                            let nb = #[trigger] final(self).bodies()[k];
                            let ob = old(self).bodies()[k];
                            &&& nb.mass == ob.mass
                            &&& nb.acceleration == ob.acceleration
                            &&& nb.position.x == euler_step(
                                ob.position.x as int,
                                ob.velocity.x as int,
                                dt as int,
                            )
                            &&& nb.position.y == euler_step(
                                ob.position.y as int,
                                ob.velocity.y as int,
                                dt as int,
                            )
                            &&& nb.velocity.x == euler_step(
                                ob.velocity.x as int,
                                ob.acceleration.x as int,
                                dt as int,
                            )
                            &&& nb.velocity.y == euler_step(
                                ob.velocity.y as int,
                                ob.acceleration.y as int,
                                dt as int,
                            )
                        }
                },
                Err(e) => {
                    &&& e == SimError::InvalidTimestep
                    &&& dt <= 0
                    &&& final(self).bodies() == old(self).bodies()
                },
            },
    {
        if dt <= 0 {
            return Err(SimError::InvalidTimestep);
        }
        let n = self.len();
        let mut k: usize = 0;
        while k < n
            invariant
                k <= n,
                n == self.bodies().len(),
                self.wf(),
                self.g() == old(self).g(),
                forall|t: int|
                    k <= t < n ==> #[trigger] self.bodies()[t] == old(self).bodies()[t],
                forall|t: int|
                    0 <= t < k ==> {
                        let nb = #[trigger] self.bodies()[t];
                        let ob = old(self).bodies()[t];
                        &&& nb.mass == ob.mass
                        &&& nb.acceleration == ob.acceleration
                        &&& nb.position.x == euler_step(
                            ob.position.x as int,
                            ob.velocity.x as int,
                            dt as int,
                        )
                        &&& nb.position.y == euler_step(
                            ob.position.y as int,
                            ob.velocity.y as int,
                            dt as int,
                        )
                        &&& nb.velocity.x == euler_step(
                            ob.velocity.x as int,
                            ob.acceleration.x as int,
                            dt as int,
                        )
                        &&& nb.velocity.y == euler_step(
                            ob.velocity.y as int,
                            ob.acceleration.y as int,
                            dt as int,
                        )
                    },
            decreases n - k,
        {
            let b = self.body(k);
            proof {
                lemma_step_products_bounded(b, dt);
            }
            let qpx = div_trunc(b.velocity.x * dt, SCALE);
            let qpy = div_trunc(b.velocity.y * dt, SCALE);
            let qvx = div_trunc(b.acceleration.x * dt, SCALE);
            let qvy = div_trunc(b.acceleration.y * dt, SCALE);
            let npx = b.position.x + qpx;
            let npy = b.position.y + qpy;
            let nvx = b.velocity.x + qvx;
            let nvy = b.velocity.y + qvy;
            self.set_position(k, Vec2::new(npx, npy));
            self.set_velocity(k, Vec2::new(nvx, nvy));
            k += 1;
        }
        Ok(())
    }

    /// One full simulation tick: forces first, then one Euler step.  The
    /// timestep is validated before anything runs, and a coincident pair
    /// is detected before any acceleration is written, so a rejected tick
    /// leaves the store exactly as it was.
    pub fn step(&mut self, dt: i128) -> (r: Result<(), SimError>)
        requires
            old(self).wf(),
            old(self).bodies().len() <= BODY_LIMIT,
            dt <= DT_LIMIT,
            positions_bounded(old(self).bodies()),
            velocities_bounded(old(self).bodies()),
        ensures
            final(self).g() == old(self).g(),
            final(self).wf(),
            match r {
                Ok(()) => {
                    &&& dt > 0
                    &&& !has_degenerate_pair(old(self).bodies())
                    &&& final(self).bodies().len() == old(self).bodies().len()
                    &&& forall|k: int|
                        0 <= k < old(self).bodies().len() ==> {
                            let nb = #[trigger] final(self).bodies()[k];
                            let ob = old(self).bodies()[k];
                            let a = accel(old(self).g(), old(self).bodies(), k);
                            &&& nb.mass == ob.mass
                            &&& nb.acceleration.x == a.0
                            &&& nb.acceleration.y == a.1
                            &&& nb.position.x == euler_step(
                                ob.position.x as int,
                                ob.velocity.x as int,
                                dt as int,
                            )
                            &&& nb.position.y == euler_step(
                                ob.position.y as int,
                                ob.velocity.y as int,
                                dt as int,
                            )
                            &&& nb.velocity.x == euler_step(ob.velocity.x as int, a.0, dt as int)
                            &&& nb.velocity.y == euler_step(ob.velocity.y as int, a.1, dt as int)
                        }
                },
                Err(e) => {
                    &&& final(self).bodies() == old(self).bodies()
                    &&& (e == SimError::InvalidTimestep || e
                        == SimError::DegenerateConfiguration)
                    &&& (e == SimError::InvalidTimestep <==> dt <= 0)
                    &&& (e == SimError::DegenerateConfiguration <==> (dt > 0
                        && has_degenerate_pair(old(self).bodies())))
                },
            },
    {
        if dt <= 0 {
            return Err(SimError::InvalidTimestep);
        }
        let ghost bs0 = self.bodies();
        let ghost g0 = self.g();
        match self.compute_forces() {
            Err(e) => {
                return Err(e);
            },
            Ok(()) => {},
        }
        proof {
            assert forall|k: int| 0 <= k < self.bodies().len() implies {
                let b = #[trigger] self.bodies()[k];
                &&& -(STATE_LIMIT as int) <= b.position.x <= STATE_LIMIT as int
                &&& -(STATE_LIMIT as int) <= b.position.y <= STATE_LIMIT as int
                &&& -(STATE_LIMIT as int) <= b.velocity.x <= STATE_LIMIT as int
                &&& -(STATE_LIMIT as int) <= b.velocity.y <= STATE_LIMIT as int
                &&& -(STATE_LIMIT as int) <= b.acceleration.x <= STATE_LIMIT as int
                &&& -(STATE_LIMIT as int) <= b.acceleration.y <= STATE_LIMIT as int
            } by {
                lemma_accel_prefix_bound(g0, bs0, k, bs0.len() as int);
                assert((bs0.len() as int) * (PULL_LIMIT as int) <= 1_000_000 * (
                PULL_LIMIT as int)) by (nonlinear_arith)
                    requires
                        0 <= bs0.len() as int <= 1_000_000,
                        PULL_LIMIT as int > 0,
                ;
            }
        }
        match self.integrate(dt) {
            Ok(()) => Ok(()),
            Err(e) => {
                proof {
                    assert(false);
                }
                Err(e)
            },
        }
    }

    /// True when the store is within the body-count and coordinate range
    /// the force accumulator accepts.
    #[verifier::loop_isolation(false)]
    pub fn forces_ready(&self) -> (b: bool)
        ensures
            b == (self.bodies().len() <= BODY_LIMIT && positions_bounded(self.bodies())),
    {
        let n = self.len();
        if n > BODY_LIMIT {
            return false;
        }
        let mut k: usize = 0;
        while k < n
            invariant
                k <= n,
                forall|t: int|
                    0 <= t < k ==> {
                        let b = #[trigger] self.bodies()[t];
                        &&& -(POS_LIMIT) <= b.position.x <= POS_LIMIT
                        &&& -(POS_LIMIT) <= b.position.y <= POS_LIMIT
                    },
            decreases n - k,
        {
            let b = self.body(k);
            if b.position.x < -POS_LIMIT || b.position.x > POS_LIMIT
                || b.position.y < -POS_LIMIT || b.position.y > POS_LIMIT {
                return false;
            }
            k += 1;
        }
        true
    }

    /// True when the store is within the magnitude range the integrator
    /// accepts.
    #[verifier::loop_isolation(false)]
    pub fn kinematics_ready(&self) -> (b: bool)
        ensures
            b == kinematics_bounded(self.bodies()),
    {
        let n = self.len();
        let mut k: usize = 0;
        while k < n
            invariant
                k <= n,
                forall|t: int|
                    0 <= t < k ==> {
                        let b = #[trigger] self.bodies()[t];
                        &&& -(STATE_LIMIT as int) <= b.position.x <= STATE_LIMIT as int
                        &&& -(STATE_LIMIT as int) <= b.position.y <= STATE_LIMIT as int
                        &&& -(STATE_LIMIT as int) <= b.velocity.x <= STATE_LIMIT as int
                        &&& -(STATE_LIMIT as int) <= b.velocity.y <= STATE_LIMIT as int
                        &&& -(STATE_LIMIT as int) <= b.acceleration.x <= STATE_LIMIT as int
                        &&& -(STATE_LIMIT as int) <= b.acceleration.y <= STATE_LIMIT as int
                    },
            decreases n - k,
        {
            let b = self.body(k);
            if b.position.x < -STATE_LIMIT || b.position.x > STATE_LIMIT || b.position.y
                < -STATE_LIMIT || b.position.y > STATE_LIMIT {
                return false;
            }
            if b.velocity.x < -STATE_LIMIT || b.velocity.x > STATE_LIMIT || b.velocity.y
                < -STATE_LIMIT || b.velocity.y > STATE_LIMIT {
                return false;
            }
            if b.acceleration.x < -STATE_LIMIT || b.acceleration.x > STATE_LIMIT
                || b.acceleration.y < -STATE_LIMIT || b.acceleration.y > STATE_LIMIT {
                return false;
            }
            k += 1;
        }
        true
    }
}

/// The products a bounded Euler step forms all stay inside i128, and the
/// descaled quotients inside a tenth of the range.
proof fn lemma_step_products_bounded(b: Body, dt: i128)
    requires
        0 < dt <= DT_LIMIT,
        -(STATE_LIMIT as int) <= b.position.x <= STATE_LIMIT as int,
        -(STATE_LIMIT as int) <= b.position.y <= STATE_LIMIT as int,
        -(STATE_LIMIT as int) <= b.velocity.x <= STATE_LIMIT as int,
        -(STATE_LIMIT as int) <= b.velocity.y <= STATE_LIMIT as int,
        -(STATE_LIMIT as int) <= b.acceleration.x <= STATE_LIMIT as int,
        -(STATE_LIMIT as int) <= b.acceleration.y <= STATE_LIMIT as int,
    ensures
        -(prod_bound()) <= b.velocity.x as int * dt as int <= prod_bound(),
        -(prod_bound()) <= b.velocity.y as int * dt as int <= prod_bound(),
        -(prod_bound()) <= b.acceleration.x as int * dt as int <= prod_bound(),
        -(prod_bound()) <= b.acceleration.y as int * dt as int <= prod_bound(),
        -(quot_bound()) <= div_tz(b.velocity.x as int * dt as int, SCALE as int) <= quot_bound(),
        -(quot_bound()) <= div_tz(b.velocity.y as int * dt as int, SCALE as int) <= quot_bound(),
        -(quot_bound()) <= div_tz(b.acceleration.x as int * dt as int, SCALE as int)
            <= quot_bound(),
        -(quot_bound()) <= div_tz(b.acceleration.y as int * dt as int, SCALE as int)
            <= quot_bound(),
{
    lemma_one_product(b.velocity.x, dt);
    lemma_one_product(b.velocity.y, dt);
    lemma_one_product(b.acceleration.x, dt);
    lemma_one_product(b.acceleration.y, dt);
}

/// The bound on a derivative-times-timestep product.
pub open spec fn prod_bound() -> int {
    100_000_000_000_000_000_000_000_000_000_000_000_000
}

/// The bound on such a product after descaling.
pub open spec fn quot_bound() -> int {
    100_000_000_000_000_000_000_000_000_000_000
}

proof fn lemma_one_product(v: i128, dt: i128)
    requires
        0 < dt <= DT_LIMIT,
        -(STATE_LIMIT as int) <= v <= STATE_LIMIT as int,
    ensures
        -(prod_bound()) <= v as int * dt as int <= prod_bound(),
        -(quot_bound()) <= div_tz(v as int * dt as int, SCALE as int) <= quot_bound(),
{
    assert(-(prod_bound()) <= v as int * dt as int <= prod_bound()) by (nonlinear_arith)
        requires
            0 < dt as int <= 10_000_000,
            -10_000_000_000_000_000_000_000_000_000_000 <= v as int
                <= 10_000_000_000_000_000_000_000_000_000_000,
            prod_bound() == 100_000_000_000_000_000_000_000_000_000_000_000_000,
    ;
    assert(quot_bound() * SCALE as int == prod_bound());
    lemma_div_tz_le(v as int * dt as int, SCALE as int, quot_bound());
}

} // verus!
