// Tests for the fixed-point N-body simulator.
//
// The five-body data set uses these units: length 10^9 m, time 1 day
// (86400 s), mass 10^20 kg.  With the fixed-point scale of 10^6 a stored
// position is metres/1000, a stored velocity is (m/s) * 86.4, and the
// textbook gravitational constant 6.674e-11 becomes exactly the integer
// 49_821_143_040 = 6674 * 7_464_960.

use nbody::store::{BodyStore, SimError};
use nbody::vec2::Vec2;

const G5: i128 = 49_821_143_040;
const DAY_HUNDREDTH: i128 = 10_000;

fn five_body_store() -> BodyStore {
    // earth, mars, mercury, sun, venus
    let masses: Vec<i128> = vec![59_740, 6_419, 3_302, 19_890_000_000, 48_690];
    let positions: Vec<Vec2> = vec![
        Vec2 { x: 149_600_000, y: 0 },
        Vec2 { x: 227_900_000, y: 0 },
        Vec2 { x: 57_900_000, y: 0 },
        Vec2 { x: 0, y: 0 },
        Vec2 { x: 108_200_000, y: 0 },
    ];
    let velocities: Vec<Vec2> = vec![
        Vec2 { x: 0, y: 2_574_720 },
        Vec2 { x: 0, y: 2_082_240 },
        Vec2 { x: 0, y: 4_138_560 },
        Vec2 { x: 0, y: 0 },
        Vec2 { x: 0, y: 3_024_000 },
    ];
    BodyStore::create(G5, masses, positions, velocities).unwrap()
}

#[test]
fn create_rejects_mismatched_lengths() {
    let masses: Vec<i128> = vec![10, 20, 30];
    let positions: Vec<Vec2> = vec![
        Vec2 { x: 0, y: 0 },
        Vec2 { x: 1000, y: 0 },
        Vec2 { x: 0, y: 1000 },
    ];
    let velocities: Vec<Vec2> = vec![Vec2 { x: 0, y: 0 }, Vec2 { x: 0, y: 0 }];
    let r = BodyStore::create(1_000_000, masses, positions, velocities);
    assert_eq!(r.err(), Some(SimError::InvalidInput));
}

#[test]
fn create_rejects_nonpositive_mass() {
    let masses: Vec<i128> = vec![10, 0];
    let positions: Vec<Vec2> = vec![Vec2 { x: 0, y: 0 }, Vec2 { x: 1000, y: 0 }];
    let velocities: Vec<Vec2> = vec![Vec2 { x: 0, y: 0 }, Vec2 { x: 0, y: 0 }];
    let r = BodyStore::create(1_000_000, masses, positions, velocities);
    assert_eq!(r.err(), Some(SimError::InvalidInput));
}

#[test]
fn create_keeps_order_and_zeroes_accelerations() {
    let s = five_body_store();
    assert_eq!(s.len(), 5);
    let bodies = s.read_all();
    let masses: [i128; 5] = [59_740, 6_419, 3_302, 19_890_000_000, 48_690];
    let xs: [i128; 5] = [149_600_000, 227_900_000, 57_900_000, 0, 108_200_000];
    let vys: [i128; 5] = [2_574_720, 2_082_240, 4_138_560, 0, 3_024_000];
    for k in 0..5 {
        assert_eq!(bodies[k].mass, masses[k]);
        assert_eq!(bodies[k].position, Vec2 { x: xs[k], y: 0 });
        assert_eq!(bodies[k].velocity, Vec2 { x: 0, y: vys[k] });
        assert_eq!(bodies[k].acceleration, Vec2 { x: 0, y: 0 });
    }
}

#[test]
fn integrator_rejects_nonpositive_dt() {
    let mut s = five_body_store();
    let before = s.read_all().clone();
    assert_eq!(s.integrate(0).err(), Some(SimError::InvalidTimestep));
    assert_eq!(s.read_all(), &before);
    assert_eq!(s.integrate(-5).err(), Some(SimError::InvalidTimestep));
    assert_eq!(s.read_all(), &before);
    assert_eq!(s.step(0).err(), Some(SimError::InvalidTimestep));
    assert_eq!(s.read_all(), &before);
}

#[test]
fn single_body_has_zero_acceleration() {
    let masses: Vec<i128> = vec![5];
    let positions: Vec<Vec2> = vec![Vec2 { x: 123, y: -456 }];
    let velocities: Vec<Vec2> = vec![Vec2 { x: 7, y: 8 }];
    let mut s = BodyStore::create(1_000_000, masses, positions, velocities).unwrap();
    assert!(s.compute_forces().is_ok());
    assert_eq!(s.body(0).acceleration, Vec2 { x: 0, y: 0 });
}

#[test]
fn two_body_single_step() {
    // Two bodies of mass 1000 a stored distance 1000 apart on the x axis,
    // at rest, with g = 10^6: each acceleration is g*m/r^2 = 1000 exactly,
    // directed toward the other body.  After one step of one time unit the
    // velocities are g*m/r^2 * dt and the positions are unchanged.
    let masses: Vec<i128> = vec![1000, 1000];
    let positions: Vec<Vec2> = vec![Vec2 { x: 0, y: 0 }, Vec2 { x: 1000, y: 0 }];
    let velocities: Vec<Vec2> = vec![Vec2 { x: 0, y: 0 }, Vec2 { x: 0, y: 0 }];
    let mut s = BodyStore::create(1_000_000, masses, positions, velocities).unwrap();
    assert!(s.compute_forces().is_ok());
    assert_eq!(s.body(0).acceleration, Vec2 { x: 1000, y: 0 });
    assert_eq!(s.body(1).acceleration, Vec2 { x: -1000, y: 0 });
    assert!(s.integrate(1_000_000).is_ok());
    assert_eq!(s.body(0).position, Vec2 { x: 0, y: 0 });
    assert_eq!(s.body(1).position, Vec2 { x: 1000, y: 0 });
    assert_eq!(s.body(0).velocity, Vec2 { x: 1000, y: 0 });
    assert_eq!(s.body(1).velocity, Vec2 { x: -1000, y: 0 });
}

#[test]
fn third_law_scaled_by_opposite_mass() {
    // Unequal masses: each body's acceleration is scaled by the *other*
    // body's mass, and the two mass-weighted contributions cancel exactly.
    let masses: Vec<i128> = vec![2000, 1000];
    let positions: Vec<Vec2> = vec![Vec2 { x: 0, y: 0 }, Vec2 { x: 1000, y: 0 }];
    let velocities: Vec<Vec2> = vec![Vec2 { x: 0, y: 0 }, Vec2 { x: 0, y: 0 }];
    let mut s = BodyStore::create(1_000_000, masses, positions, velocities).unwrap();
    assert!(s.compute_forces().is_ok());
    let a0 = s.body(0).acceleration;
    let a1 = s.body(1).acceleration;
    assert_eq!(a0, Vec2 { x: 1000, y: 0 });
    assert_eq!(a1, Vec2 { x: -2000, y: 0 });
    assert_eq!(2000 * a0.x + 1000 * a1.x, 0);
    assert_eq!(2000 * a0.y + 1000 * a1.y, 0);
}

#[test]
fn third_law_equal_masses_exact_negation() {
    let masses: Vec<i128> = vec![777, 777];
    let positions: Vec<Vec2> = vec![Vec2 { x: -300, y: 400 }, Vec2 { x: 300, y: -400 }];
    let velocities: Vec<Vec2> = vec![Vec2 { x: 0, y: 0 }, Vec2 { x: 0, y: 0 }];
    let mut s = BodyStore::create(77_000_000, masses, positions, velocities).unwrap();
    assert!(s.compute_forces().is_ok());
    let a0 = s.body(0).acceleration;
    let a1 = s.body(1).acceleration;
    assert_eq!(a0.x, -a1.x);
    assert_eq!(a0.y, -a1.y);
    assert!(a0.x != 0 || a0.y != 0);
}

#[test]
fn force_recomputation_is_idempotent() {
    let mut s = five_body_store();
    assert!(s.compute_forces().is_ok());
    let first: Vec<Vec2> = s.read_all().iter().map(|b| b.acceleration).collect();
    assert!(s.compute_forces().is_ok());
    let second: Vec<Vec2> = s.read_all().iter().map(|b| b.acceleration).collect();
    assert_eq!(first, second);
    assert!(first.iter().any(|a| a.x != 0 || a.y != 0));
}

#[test]
fn coincident_bodies_rejected() {
    let masses: Vec<i128> = vec![10, 20];
    let positions: Vec<Vec2> = vec![Vec2 { x: 5, y: 5 }, Vec2 { x: 5, y: 5 }];
    let velocities: Vec<Vec2> = vec![Vec2 { x: 1, y: 0 }, Vec2 { x: 0, y: 1 }];
    let mut s = BodyStore::create(1_000_000, masses, positions, velocities).unwrap();
    let before = s.read_all().clone();
    assert_eq!(s.compute_forces().err(), Some(SimError::DegenerateConfiguration));
    assert_eq!(s.read_all(), &before);
    assert_eq!(s.step(DAY_HUNDREDTH).err(), Some(SimError::DegenerateConfiguration));
    assert_eq!(s.read_all(), &before);
}

#[test]
fn step_is_forces_then_euler() {
    let mut a = five_body_store();
    let mut b = five_body_store();
    assert!(a.step(DAY_HUNDREDTH).is_ok());
    assert!(b.compute_forces().is_ok());
    assert!(b.integrate(DAY_HUNDREDTH).is_ok());
    assert_eq!(a.read_all(), b.read_all());
}

fn momentum(s: &BodyStore) -> (i128, i128) {
    let mut px: i128 = 0;
    let mut py: i128 = 0;
    for b in s.read_all().iter() {
        px += b.mass * b.velocity.x;
        py += b.mass * b.velocity.y;
    }
    (px, py)
}

fn total_energy(s: &BodyStore) -> f64 {
    // Converted to SI: stored position is metres/1000, stored velocity is
    // (m/s) * 86.4, mass is in units of 10^20 kg.
    let g_si = 6.674e-11_f64;
    let bodies = s.read_all();
    let mut e = 0.0_f64;
    for b in bodies.iter() {
        let m = b.mass as f64 * 1e20;
        let vx = b.velocity.x as f64 / 86.4;
        let vy = b.velocity.y as f64 / 86.4;
        e += 0.5 * m * (vx * vx + vy * vy);
    }
    for i in 0..bodies.len() {
        for j in (i + 1)..bodies.len() {
            let mi = bodies[i].mass as f64 * 1e20;
            let mj = bodies[j].mass as f64 * 1e20;
            let dx = (bodies[i].position.x - bodies[j].position.x) as f64 * 1000.0;
            let dy = (bodies[i].position.y - bodies[j].position.y) as f64 * 1000.0;
            let r = (dx * dx + dy * dy).sqrt();
            e -= g_si * mi * mj / r;
        }
    }
    e
}

#[test]
fn five_body_conservation() {
    // 200 steps of a hundredth of a day: total momentum and total energy
    // drift by no more than 5% of their initial magnitude.
    let mut s = five_body_store();
    let (px0, py0) = momentum(&s);
    let e0 = total_energy(&s);
    for _ in 0..200 {
        assert!(s.step(DAY_HUNDREDTH).is_ok());
    }
    let (px1, py1) = momentum(&s);
    let e1 = total_energy(&s);
    let dpx = px1 - px0;
    let dpy = py1 - py0;
    // Squared drift times 400 below the squared start: a drift of at most
    // one twentieth of the initial momentum's magnitude.
    assert!((dpx * dpx + dpy * dpy) * 400 <= px0 * px0 + py0 * py0);
    assert!((e1 - e0).abs() <= 0.05 * e0.abs());
}

#[test]
fn range_checkers_match_state() {
    let s = five_body_store();
    assert!(s.forces_ready());
    assert!(s.kinematics_ready());
    let masses: Vec<i128> = vec![1, 1];
    let positions: Vec<Vec2> = vec![
        Vec2 { x: 0, y: 0 },
        Vec2 { x: 2_000_000_000_000, y: 0 },
    ];
    let velocities: Vec<Vec2> = vec![Vec2 { x: 0, y: 0 }, Vec2 { x: 0, y: 0 }];
    let far = BodyStore::create(1, masses, positions, velocities).unwrap();
    assert!(!far.forces_ready());
    assert!(far.kinematics_ready());
}

#[test]
fn isqrt_and_truncating_division() {
    assert_eq!(nbody::math::isqrt(0), 0);
    assert_eq!(nbody::math::isqrt(10), 3);
    assert_eq!(nbody::math::isqrt(1_000_000), 1000);
    assert_eq!(nbody::math::isqrt(999_999), 999);
    assert_eq!(nbody::math::div_trunc(7, 2), 3);
    assert_eq!(nbody::math::div_trunc(-7, 2), -3);
    assert_eq!(nbody::math::div_trunc(0, 5), 0);
}
