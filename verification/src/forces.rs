use vstd::prelude::*;
use crate::math::{
    div_trunc, div_tz, isqrt, lemma_div_tz_le, lemma_div_tz_mag, lemma_div_tz_neg,
    lemma_sqrt_floor_bounds, sqrt_floor,
};
use crate::store::{Body, BodyStore, SimError, BODY_LIMIT, G_LIMIT, MASS_LIMIT, POS_LIMIT, STATE_LIMIT};
use crate::vec2::Vec2;

verus! {

/// Magnitude bound on one pairwise contribution component: the product of
/// the limits on the gravitational constant and on a mass.
pub const PULL_LIMIT: i128 = 10_000_000_000_000_000_000_000_000;

/// Squared Euclidean distance between the positions of bodies i and j.
pub open spec fn dist2(bs: Seq<Body>, i: int, j: int) -> int {
    let dx = bs[i].position.x - bs[j].position.x;
    let dy = bs[i].position.y - bs[j].position.y;
    dx * dx + dy * dy
}

/// Some unordered pair of distinct bodies sits at the same position.
pub open spec fn has_degenerate_pair(bs: Seq<Body>) -> bool {
    exists|i: int, j: int| 0 <= i < j < bs.len() && dist2(bs, i, j) == 0
}

/// Cube of the floor square root of the squared distance between i and j.
pub open spec fn r3_of(bs: Seq<Body>, i: int, j: int) -> int {
    let r = sqrt_floor(dist2(bs, i, j));
    r * r * r
}

/// The gravitational formula on fixed-point values: the vector
/// g * m * (dx, dy) / r3, each component rounded toward zero.
pub open spec fn grav_term(g: int, m: int, dx: int, dy: int, r3: int) -> (int, int) {
    (div_tz(g * m * dx, r3), div_tz(g * m * dy, r3))
}

/// The contribution accumulated into body k's acceleration due to body j:
/// minus the formula on k's displacement from j, scaled by j's mass.
pub open spec fn pull_on(g: int, bs: Seq<Body>, k: int, j: int) -> (int, int) {
    let dx = bs[k].position.x - bs[j].position.x;
    let dy = bs[k].position.y - bs[j].position.y;
    let c = grav_term(g, bs[j].mass as int, dx, dy, r3_of(bs, k, j));
    (-c.0, -c.1)
}

/// Sum of the contributions on body k from the bodies with index below m.
pub open spec fn accel_prefix(g: int, bs: Seq<Body>, k: int, m: int) -> (int, int)
    decreases m,
{
    if m <= 0 {
        (0, 0)
    } else if m - 1 == k {
        accel_prefix(g, bs, k, m - 1)
    } else {
        let s = accel_prefix(g, bs, k, m - 1);
        let c = pull_on(g, bs, k, m - 1);
        (s.0 + c.0, s.1 + c.1)
    }
}

/// The net acceleration of body k: the sum of the contributions from
/// every other body.
pub open spec fn accel(g: int, bs: Seq<Body>, k: int) -> (int, int) {
    accel_prefix(g, bs, k, bs.len() as int)
}

/// Swapping the two bodies of a pair leaves their squared distance unchanged.
pub proof fn lemma_dist2_symmetric(bs: Seq<Body>, i: int, j: int)
    ensures
        dist2(bs, i, j) == dist2(bs, j, i),
{
    let dx = bs[i].position.x - bs[j].position.x;
    let dy = bs[i].position.y - bs[j].position.y;
    assert((-dx) * (-dx) == dx * dx) by (nonlinear_arith);
    assert((-dy) * (-dy) == dy * dy) by (nonlinear_arith);
}

/// Reversing the displacement reverses the formula's result exactly,
/// component by component: the rounding never breaks the sign symmetry.
pub proof fn lemma_formula_antisymmetric(g: int, m: int, dx: int, dy: int, r3: int)
    requires
        r3 > 0,
    ensures
        grav_term(g, m, -dx, -dy, r3) == ((-grav_term(g, m, dx, dy, r3).0, -grav_term(
            g,
            m,
            dx,
            dy,
            r3,
        ).1)),
{
    assert(g * m * (-dx) == -(g * m * dx)) by (nonlinear_arith);
    assert(g * m * (-dy) == -(g * m * dy)) by (nonlinear_arith);
    lemma_div_tz_neg(g * m * dx, r3);
    lemma_div_tz_neg(g * m * dy, r3);
}

/// Newton's third law on the accumulator: for a separated pair the two
/// accumulated contributions are the same displacement formula with the
/// two masses exchanged and the sign reversed; with equal masses they are
/// exact negations of one another.
pub proof fn lemma_newton_third_law(g: int, bs: Seq<Body>, i: int, j: int)
    requires
        0 <= i < bs.len(),
        0 <= j < bs.len(),
        i != j,
        dist2(bs, i, j) != 0,
    ensures
        pull_on(g, bs, i, j) == {
            let c = grav_term(
                g,
                bs[j].mass as int,
                bs[i].position.x - bs[j].position.x,
                bs[i].position.y - bs[j].position.y,
                r3_of(bs, i, j),
            );
            ((-c.0, -c.1))
        },
        pull_on(g, bs, j, i) == grav_term(
            g,
            bs[i].mass as int,
            bs[i].position.x - bs[j].position.x,
            bs[i].position.y - bs[j].position.y,
            r3_of(bs, i, j),
        ),
        bs[i].mass == bs[j].mass ==> pull_on(g, bs, i, j) == ((-pull_on(g, bs, j, i).0,
        -pull_on(g, bs, j, i).1)),
{
    let dx = bs[i].position.x - bs[j].position.x;
    let dy = bs[i].position.y - bs[j].position.y;
    lemma_dist2_symmetric(bs, i, j);
    let r2 = dist2(bs, i, j);
    assert(dx * dx >= 0) by (nonlinear_arith);
    assert(dy * dy >= 0) by (nonlinear_arith);
    lemma_sqrt_floor_bounds(r2);
    let r = sqrt_floor(r2);
    assert(r >= 1) by (nonlinear_arith)
        requires
            r >= 0,
            r2 >= 1,
            r2 < (r + 1) * (r + 1),
    ;
    let r3 = r3_of(bs, i, j);
    assert(r3 >= 1) by (nonlinear_arith)
        requires
            r >= 1,
            r3 == r * r * r,
    ;
    lemma_formula_antisymmetric(g, bs[i].mass as int, dx, dy, r3);
}

/// The two accumulated contributions of a pair are anti-parallel: in each
/// component they carry opposite signs, since both are the displacement
/// scaled by a nonnegative factor and rounding toward zero keeps signs.
pub proof fn lemma_pull_pair_antiparallel(g: int, bs: Seq<Body>, i: int, j: int)
    requires
        0 <= i < bs.len(),
        0 <= j < bs.len(),
        i != j,
        0 <= g,
        0 <= bs[i].mass,
        0 <= bs[j].mass,
        dist2(bs, i, j) != 0,
    ensures
        pull_on(g, bs, i, j).0 * pull_on(g, bs, j, i).0 <= 0,
        pull_on(g, bs, i, j).1 * pull_on(g, bs, j, i).1 <= 0,
{
    let dx = bs[i].position.x - bs[j].position.x;
    let dy = bs[i].position.y - bs[j].position.y;
    lemma_newton_third_law(g, bs, i, j);
    let r2 = dist2(bs, i, j);
    assert(dx * dx >= 0) by (nonlinear_arith);
    assert(dy * dy >= 0) by (nonlinear_arith);
    lemma_sqrt_floor_bounds(r2);
    let r = sqrt_floor(r2);
    assert(r >= 1) by (nonlinear_arith)
        requires
            r >= 0,
            r2 >= 1,
            r2 < (r + 1) * (r + 1),
    ;
    let r3 = r3_of(bs, i, j);
    assert(r3 >= 1) by (nonlinear_arith)
        requires
            r >= 1,
            r3 == r * r * r,
    ;
    lemma_pull_components_opposed(g, bs[i].mass as int, bs[j].mass as int, dx, r3);
    lemma_pull_components_opposed(g, bs[i].mass as int, bs[j].mass as int, dy, r3);
}

/// In one component, minus the formula for one mass times the formula for
/// the other mass is never positive.
proof fn lemma_pull_components_opposed(g: int, mi: int, mj: int, d: int, r3: int)
    requires
        r3 > 0,
        0 <= g,
        0 <= mi,
        0 <= mj,
    ensures
        (-div_tz(g * mj * d, r3)) * div_tz(g * mi * d, r3) <= 0,
{
    lemma_div_tz_mag(g * mj * d, r3);
    lemma_div_tz_mag(g * mi * d, r3);
    let a = div_tz(g * mj * d, r3);
    let b = div_tz(g * mi * d, r3);
    if d >= 0 {
        assert(g * mj * d >= 0) by (nonlinear_arith)
            requires
                0 <= g,
                0 <= mj,
                0 <= d,
        ;
        assert(g * mi * d >= 0) by (nonlinear_arith)
            requires
                0 <= g,
                0 <= mi,
                0 <= d,
        ;
        assert((-a) * b <= 0) by (nonlinear_arith)
            requires
                a >= 0,
                b >= 0,
        ;
    } else {
        assert(g * mj * d <= 0) by (nonlinear_arith)
            requires
                0 <= g,
                0 <= mj,
                d < 0,
        ;
        assert(g * mi * d <= 0) by (nonlinear_arith)
            requires
                0 <= g,
                0 <= mi,
                d < 0,
        ;
        assert((-a) * b <= 0) by (nonlinear_arith)
            requires
                a <= 0,
                b <= 0,
        ;
    }
}

/// Each component of a contribution is at most g times the contributing
/// mass in magnitude: the displacement never exceeds the distance, and
/// dividing by at least r^2 >= 1 can only shrink the product.
pub proof fn lemma_pull_on_bound(g: int, bs: Seq<Body>, k: int, j: int)
    requires
        0 <= k < bs.len(),
        0 <= j < bs.len(),
        k != j,
        0 <= g,
        0 <= bs[j].mass as int,
        dist2(bs, k, j) != 0,
    ensures
        -(g * bs[j].mass) <= pull_on(g, bs, k, j).0 <= g * bs[j].mass as int,
        -(g * bs[j].mass) <= pull_on(g, bs, k, j).1 <= g * bs[j].mass as int,
{
    let dx = bs[k].position.x - bs[j].position.x;
    let dy = bs[k].position.y - bs[j].position.y;
    let r2 = dist2(bs, k, j);
    let m = bs[j].mass;
    let q = g * m;
    assert(dx * dx >= 0) by (nonlinear_arith);
    assert(dy * dy >= 0) by (nonlinear_arith);
    lemma_sqrt_floor_bounds(r2);
    let r = sqrt_floor(r2);
    assert(r >= 1) by (nonlinear_arith)
        requires
            r >= 0,
            r2 >= 1,
            r2 < (r + 1) * (r + 1),
    ;
    let r3 = r3_of(bs, k, j);
    assert(-r <= dx <= r && -r <= dy <= r) by (nonlinear_arith)
        requires
            dx * dx + dy * dy == r2,
            dx * dx >= 0,
            dy * dy >= 0,
            r2 < (r + 1) * (r + 1),
            r >= 0,
    ;
    assert(1 <= r3 && r <= r3) by (nonlinear_arith)
        requires
            r >= 1,
            r3 == r * r * r,
    ;
    assert(g * m >= 0) by (nonlinear_arith)
        requires
            g >= 0,
            m as int >= 0,
    ;
    assert(-(q * r3) <= q * dx <= q * r3) by (nonlinear_arith)
        requires
            -r <= dx <= r,
            1 <= r <= r3,
            q >= 0,
    ;
    assert(-(q * r3) <= q * dy <= q * r3) by (nonlinear_arith)
        requires
            -r <= dy <= r,
            1 <= r <= r3,
            q >= 0,
    ;
    lemma_div_tz_le(q * dx, r3, q);
    lemma_div_tz_le(q * dy, r3, q);
}

/// Bound on an accumulated prefix: m contributions of at most
/// PULL_LIMIT each.
pub proof fn lemma_accel_prefix_bound(g: int, bs: Seq<Body>, k: int, m: int)
    requires
        0 <= k < bs.len(),
        0 <= m <= bs.len(),
        0 <= g <= G_LIMIT as int,
        forall|i: int| 0 <= i < bs.len() ==> 0 < (#[trigger] bs[i]).mass <= MASS_LIMIT as int,
        !has_degenerate_pair(bs),
    ensures
        -(m * PULL_LIMIT as int) <= accel_prefix(g, bs, k, m).0 <= m * PULL_LIMIT as int,
        -(m * PULL_LIMIT as int) <= accel_prefix(g, bs, k, m).1 <= m * PULL_LIMIT as int,
    decreases m,
{
    let c = PULL_LIMIT as int;
    if m == 0 {
    } else {
        lemma_accel_prefix_bound(g, bs, k, m - 1);
        assert((m - 1) * c + c == m * c) by (nonlinear_arith);
        assert(-(m * c) <= -((m - 1) * c) - c) by (nonlinear_arith);
        if m - 1 != k {
            let j = m - 1;
            if k < j {
                assert(!(0 <= k < j < bs.len() && dist2(bs, k, j) == 0));
            } else {
                assert(!(0 <= j < k < bs.len() && dist2(bs, j, k) == 0));
                lemma_dist2_symmetric(bs, k, j);
            }
            lemma_pull_on_bound(g, bs, k, j);
            assert(g * bs[j].mass <= c) by (nonlinear_arith)
                requires
                    0 <= g <= 100_000_000_000_000,
                    0 < bs[j].mass <= 100_000_000_000,
                    c == 10_000_000_000_000_000_000_000_000,
            ;
        }
    }
}

/// A lone body feels no force: with a single body in the store the
/// accumulated acceleration is the zero vector.
pub proof fn lemma_single_body_zero_accel(g: int, bs: Seq<Body>)
    requires
        bs.len() == 1,
    ensures
        accel(g, bs, 0) == ((0int, 0int)),
{
    assert(accel_prefix(g, bs, 0, 1) == accel_prefix(g, bs, 0, 0));
}

/// The accumulated accelerations are a function of the masses and
/// positions alone: two states that agree on every mass and every
/// position yield identical accelerations, so recomputing forces without
/// moving anything reproduces the same values.
pub proof fn lemma_accel_determined(g: int, a: Seq<Body>, b: Seq<Body>, k: int)
    requires
        a.len() == b.len(),
        0 <= k < a.len(),
        forall|i: int|
            0 <= i < a.len() ==> (#[trigger] a[i]).mass == b[i].mass && a[i].position
                == b[i].position,
    ensures
        accel(g, a, k) == accel(g, b, k),
{
    lemma_accel_prefix_determined(g, a, b, k, a.len() as int);
}

proof fn lemma_accel_prefix_determined(g: int, a: Seq<Body>, b: Seq<Body>, k: int, m: int)
    requires
        a.len() == b.len(),
        0 <= k < a.len(),
        m <= a.len(),
        forall|i: int|
            0 <= i < a.len() ==> (#[trigger] a[i]).mass == b[i].mass && a[i].position
                == b[i].position,
    ensures
        accel_prefix(g, a, k, m) == accel_prefix(g, b, k, m),
    decreases m,
{
    if m <= 0 {
    } else {
        lemma_accel_prefix_determined(g, a, b, k, m - 1);
        if m - 1 != k {
            assert(dist2(a, k, m - 1) == dist2(b, k, m - 1));
        }
    }
}

/// The two states hold the same bodies up to their accelerations.
pub open spec fn agrees_except_accel(a: Seq<Body>, b: Seq<Body>) -> bool {
    &&& a.len() == b.len()
    &&& forall|i: int|
        0 <= i < a.len() ==> (#[trigger] a[i]).mass == b[i].mass && a[i].position == b[i].position
            && a[i].velocity == b[i].velocity
}

/// A pairwise pull only reads masses and positions, so it is the same in
/// any two states that agree on those.
proof fn lemma_pull_on_agrees(g: int, a: Seq<Body>, b: Seq<Body>, k: int, j: int)
    requires
        a.len() == b.len(),
        0 <= k < a.len(),
        0 <= j < a.len(),
        forall|i: int|
            0 <= i < a.len() ==> (#[trigger] a[i]).mass == b[i].mass && a[i].position
                == b[i].position,
    ensures
        pull_on(g, a, k, j) == pull_on(g, b, k, j),
{
    assert(dist2(a, k, j) == dist2(b, k, j));
}

/// Every position is within the coordinate range the accumulator accepts.
pub open spec fn positions_bounded(bs: Seq<Body>) -> bool {
    forall|i: int|
        0 <= i < bs.len() ==> -(POS_LIMIT as int) <= (#[trigger] bs[i]).position.x <= POS_LIMIT
            as int && -(POS_LIMIT as int) <= bs[i].position.y <= POS_LIMIT as int
}

impl BodyStore {
    /// Whether two distinct bodies sit at exactly the same position, which
    /// would make the direction of their mutual force undefined.
    #[verifier::loop_isolation(false)]
    fn has_coincident_pair(&self) -> (deg: bool)
        requires
            positions_bounded(self.bodies()),
        ensures
            deg == has_degenerate_pair(self.bodies()),
    {
        let n = self.len();
        let mut i: usize = 0;
        while i < n
            invariant
                i <= n,
                forall|p: int, q: int|
                    0 <= p < i && p < q < n ==> dist2(self.bodies(), p, q) != 0,
            decreases n - i,
        {
            let mut j: usize = i + 1;
            while j < n
                invariant
                    i < j <= n,
                    forall|p: int, q: int|
                        0 <= p < i && p < q < n ==> dist2(self.bodies(), p, q) != 0,
                    forall|q: int| i < q < j ==> dist2(self.bodies(), i as int, q) != 0,
                decreases n - j,
            {
                let bi = self.body(i);
                let bj = self.body(j);
                let dx = bi.position.x - bj.position.x;
                let dy = bi.position.y - bj.position.y;
                assert(0 <= dx * dx <= 4_000_000_000_000_000_000_000_000) by (nonlinear_arith)
                    requires
                        -2_000_000_000_000 <= dx <= 2_000_000_000_000,
                ;
                assert(0 <= dy * dy <= 4_000_000_000_000_000_000_000_000) by (nonlinear_arith)
                    requires
                        -2_000_000_000_000 <= dy <= 2_000_000_000_000,
                ;
                let r2 = dx * dx + dy * dy;
                if r2 == 0 {
                    assert(dist2(self.bodies(), i as int, j as int) == 0);
                    assert(has_degenerate_pair(self.bodies()));
                    return true;
                }
                j += 1;
            }
            i += 1;
        }
        false
    }

    /// Writes the zero vector into every body's acceleration.
    #[verifier::loop_isolation(false)]
    fn reset_accelerations(&mut self)
        ensures
            final(self).g() == old(self).g(),
            agrees_except_accel(final(self).bodies(), old(self).bodies()),
            forall|k: int|
                0 <= k < final(self).bodies().len()
                    ==> (#[trigger] final(self).bodies()[k]).acceleration == (Vec2 { x: 0, y: 0 }),
            old(self).wf() ==> final(self).wf(),
    {
        let n = self.len();
        let mut k: usize = 0;
        while k < n
            invariant
                k <= n,
                n == self.bodies().len(),
                self.g() == old(self).g(),
                agrees_except_accel(self.bodies(), old(self).bodies()),
                forall|t: int|
                    0 <= t < k ==> (#[trigger] self.bodies()[t]).acceleration == (Vec2 {
                        x: 0,
                        y: 0,
                    }),
                old(self).wf() ==> self.wf(),
            decreases n - k,
        {
            self.set_acceleration(k, Vec2::zero());
            k += 1;
        }
    }

    /// Accumulates the mutual pull of the separated pair i < j into both
    /// bodies' accelerations, exactly once.
    fn apply_pair(&mut self, i: usize, j: usize)
        requires
            old(self).wf(),
            i < j,
            j < old(self).bodies().len(),
            positions_bounded(old(self).bodies()),
            dist2(old(self).bodies(), i as int, j as int) != 0,
            -(STATE_LIMIT as int) <= old(self).bodies()[i as int].acceleration.x <= STATE_LIMIT
                as int,
            -(STATE_LIMIT as int) <= old(self).bodies()[i as int].acceleration.y <= STATE_LIMIT
                as int,
            -(STATE_LIMIT as int) <= old(self).bodies()[j as int].acceleration.x <= STATE_LIMIT
                as int,
            -(STATE_LIMIT as int) <= old(self).bodies()[j as int].acceleration.y <= STATE_LIMIT
                as int,
        ensures
            final(self).g() == old(self).g(),
            final(self).wf(),
            final(self).bodies().len() == old(self).bodies().len(),
            forall|k: int|
                0 <= k < old(self).bodies().len() && k != i as int && k != j as int
                    ==> #[trigger] final(self).bodies()[k] == old(self).bodies()[k],
            final(self).bodies()[i as int].mass == old(self).bodies()[i as int].mass,
            final(self).bodies()[i as int].position == old(self).bodies()[i as int].position,
            final(self).bodies()[i as int].velocity == old(self).bodies()[i as int].velocity,
            final(self).bodies()[j as int].mass == old(self).bodies()[j as int].mass,
            final(self).bodies()[j as int].position == old(self).bodies()[j as int].position,
            final(self).bodies()[j as int].velocity == old(self).bodies()[j as int].velocity,
            final(self).bodies()[i as int].acceleration.x == old(self).bodies()[i as int].acceleration.x
                + pull_on(old(self).g(), old(self).bodies(), i as int, j as int).0,
            final(self).bodies()[i as int].acceleration.y == old(self).bodies()[i as int].acceleration.y
                + pull_on(old(self).g(), old(self).bodies(), i as int, j as int).1,
            final(self).bodies()[j as int].acceleration.x == old(self).bodies()[j as int].acceleration.x
                + pull_on(old(self).g(), old(self).bodies(), j as int, i as int).0,
            final(self).bodies()[j as int].acceleration.y == old(self).bodies()[j as int].acceleration.y
                + pull_on(old(self).g(), old(self).bodies(), j as int, i as int).1,
    {
        let g = self.gravity();
        let bi = self.body(i);
        let bj = self.body(j);
        let dx = bi.position.x - bj.position.x;
        let dy = bi.position.y - bj.position.y;
        assert(0 <= dx * dx <= 4_000_000_000_000_000_000_000_000) by (nonlinear_arith)
            requires
                -2_000_000_000_000 <= dx <= 2_000_000_000_000,
        ;
        assert(0 <= dy * dy <= 4_000_000_000_000_000_000_000_000) by (nonlinear_arith)
            requires
                -2_000_000_000_000 <= dy <= 2_000_000_000_000,
        ;
        let r2 = dx * dx + dy * dy;
        assert(r2 as int == dist2(self.bodies(), i as int, j as int));
        let r = isqrt(r2);
        assert(r >= 1) by (nonlinear_arith)
            requires
                r >= 0,
                r2 as int >= 1,
                r2 < (r + 1) * (r + 1),
        ;
        assert(r <= 3_000_000_000_000) by (nonlinear_arith)
            requires
                0 <= r,
                r * r <= 8_000_000_000_000_000_000_000_000,
        ;
        assert(r * r * r <= 27_000_000_000_000_000_000_000_000_000_000_000_000)
            by (nonlinear_arith)
            requires
                1 <= r <= 3_000_000_000_000,
        ;
        assert(1 <= r * r * r) by (nonlinear_arith)
            requires
                1 <= r,
        ;
        let r3 = (r * r) * r;
        assert(0 < (g as int) * (bj.mass as int) <= 10_000_000_000_000_000_000_000_000)
            by (nonlinear_arith)
            requires
                0 < g as int <= 100_000_000_000_000,
                0 < bj.mass as int <= 100_000_000_000,
        ;
        assert(0 < (g as int) * (bi.mass as int) <= 10_000_000_000_000_000_000_000_000)
            by (nonlinear_arith)
            requires
                0 < g as int <= 100_000_000_000_000,
                0 < bi.mass as int <= 100_000_000_000,
        ;
        let gmj = g * bj.mass;
        let gmi = g * bi.mass;
        assert(-20_000_000_000_000_000_000_000_000_000_000_000_000 <= gmj * dx
            <= 20_000_000_000_000_000_000_000_000_000_000_000_000) by (nonlinear_arith)
            requires
                0 < gmj <= 10_000_000_000_000_000_000_000_000,
                -2_000_000_000_000 <= dx <= 2_000_000_000_000,
        ;
        assert(-20_000_000_000_000_000_000_000_000_000_000_000_000 <= gmj * dy
            <= 20_000_000_000_000_000_000_000_000_000_000_000_000) by (nonlinear_arith)
            requires
                0 < gmj <= 10_000_000_000_000_000_000_000_000,
                -2_000_000_000_000 <= dy <= 2_000_000_000_000,
        ;
        assert(-20_000_000_000_000_000_000_000_000_000_000_000_000 <= gmi * dx
            <= 20_000_000_000_000_000_000_000_000_000_000_000_000) by (nonlinear_arith)
            requires
                0 < gmi <= 10_000_000_000_000_000_000_000_000,
                -2_000_000_000_000 <= dx <= 2_000_000_000_000,
        ;
        assert(-20_000_000_000_000_000_000_000_000_000_000_000_000 <= gmi * dy
            <= 20_000_000_000_000_000_000_000_000_000_000_000_000) by (nonlinear_arith)
            requires
                0 < gmi <= 10_000_000_000_000_000_000_000_000,
                -2_000_000_000_000 <= dy <= 2_000_000_000_000,
        ;
        let cix = div_trunc(gmj * dx, r3);
        let ciy = div_trunc(gmj * dy, r3);
        let cjx = div_trunc(gmi * dx, r3);
        let cjy = div_trunc(gmi * dy, r3);
        proof {
            lemma_div_tz_mag(gmj * dx, r3 as int);
            lemma_div_tz_mag(gmj * dy, r3 as int);
            lemma_div_tz_mag(gmi * dx, r3 as int);
            lemma_div_tz_mag(gmi * dy, r3 as int);
        }
        let ai = bi.acceleration;
        let aj = bj.acceleration;
        self.set_acceleration(i, Vec2::new(ai.x - cix, ai.y - ciy));
        self.set_acceleration(j, Vec2::new(aj.x + cjx, aj.y + cjy));
        proof {
            let bs = old(self).bodies();
            let gi = old(self).g();
            assert(r as int == sqrt_floor(dist2(bs, i as int, j as int)));
            assert(r3 as int == r3_of(bs, i as int, j as int));
            lemma_newton_third_law(gi, bs, i as int, j as int);
        }
    }

    /// The force accumulator: recomputes every body's acceleration from
    /// the current masses and positions by walking every unordered pair of
    /// distinct bodies exactly once and accumulating the pair's mutual
    /// pull into both accelerations.  The result depends on the masses and
    /// positions alone.  When two distinct bodies coincide the whole pass
    /// is rejected with DegenerateConfiguration before any acceleration is
    /// touched; succeeds in every other case.
    #[verifier::loop_isolation(false)]
    pub fn compute_forces(&mut self) -> (r: Result<(), SimError>)
        requires
            old(self).wf(),
            old(self).bodies().len() <= BODY_LIMIT,
            positions_bounded(old(self).bodies()),
        ensures
            final(self).g() == old(self).g(),
            final(self).wf(),
            match r {
                Ok(()) => {
                    &&& !has_degenerate_pair(old(self).bodies())
                    &&& agrees_except_accel(final(self).bodies(), old(self).bodies())
                    &&& forall|k: int|
                        0 <= k < old(self).bodies().len()
                            ==> (#[trigger] final(self).bodies()[k]).acceleration.x == accel(
                            old(self).g(),
                            old(self).bodies(),
                            k,
                        ).0 && final(self).bodies()[k].acceleration.y == accel(
                            old(self).g(),
                            old(self).bodies(),
                            k,
                        ).1
                },
                Err(e) => {
                    &&& e == SimError::DegenerateConfiguration
                    &&& has_degenerate_pair(old(self).bodies())
                    &&& final(self).bodies() == old(self).bodies()
                },
            },
    {
        let ghost bs0 = self.bodies();
        let ghost g0 = self.g();
        if self.has_coincident_pair() {
            return Err(SimError::DegenerateConfiguration);
        }
        self.reset_accelerations();
        let n = self.len();
        let mut i: usize = 0;
        while i < n
            invariant
                i <= n,
                n == self.bodies().len(),
                self.wf(),
                self.g() == g0,
                agrees_except_accel(self.bodies(), bs0),
                forall|k: int|
                    0 <= k < i ==> (#[trigger] self.bodies()[k]).acceleration.x == accel(
                        g0,
                        bs0,
                        k,
                    ).0 && self.bodies()[k].acceleration.y == accel(g0, bs0, k).1,
                forall|k: int|
                    i <= k < n ==> (#[trigger] self.bodies()[k]).acceleration.x == accel_prefix(
                        g0,
                        bs0,
                        k,
                        i as int,
                    ).0 && self.bodies()[k].acceleration.y == accel_prefix(g0, bs0, k, i as int).1,
            decreases n - i,
        {
            let mut j: usize = i + 1;
            proof {
                assert(accel_prefix(g0, bs0, i as int, i as int + 1) == accel_prefix(
                    g0,
                    bs0,
                    i as int,
                    i as int,
                ));
            }
            while j < n
                invariant
                    i < j <= n,
                    n == self.bodies().len(),
                    self.wf(),
                    self.g() == g0,
                    agrees_except_accel(self.bodies(), bs0),
                    forall|k: int|
                        0 <= k < i ==> (#[trigger] self.bodies()[k]).acceleration.x == accel(
                            g0,
                            bs0,
                            k,
                        ).0 && self.bodies()[k].acceleration.y == accel(g0, bs0, k).1,
                    self.bodies()[i as int].acceleration.x == accel_prefix(
                        g0,
                        bs0,
                        i as int,
                        j as int,
                    ).0,
                    self.bodies()[i as int].acceleration.y == accel_prefix(
                        g0,
                        bs0,
                        i as int,
                        j as int,
                    ).1,
                    forall|k: int|
                        i < k < j ==> (#[trigger] self.bodies()[k]).acceleration.x == accel_prefix(
                            g0,
                            bs0,
                            k,
                            i as int + 1,
                        ).0 && self.bodies()[k].acceleration.y == accel_prefix(
                            g0,
                            bs0,
                            k,
                            i as int + 1,
                        ).1,
                    forall|k: int|
                        j <= k < n ==> (#[trigger] self.bodies()[k]).acceleration.x == accel_prefix(
                            g0,
                            bs0,
                            k,
                            i as int,
                        ).0 && self.bodies()[k].acceleration.y == accel_prefix(
                            g0,
                            bs0,
                            k,
                            i as int,
                        ).1,
                decreases n - j,
            {
                let ghost pre = self.bodies();
                proof {
                    lemma_accel_prefix_bound(g0, bs0, i as int, j as int);
                    lemma_accel_prefix_bound(g0, bs0, j as int, i as int);
                    assert(j as int * (PULL_LIMIT as int) <= 1_000_000 * (PULL_LIMIT as int))
                        by (nonlinear_arith)
                        requires
                            0 <= j as int <= 1_000_000,
                            PULL_LIMIT as int > 0,
                    ;
                    assert(i as int * (PULL_LIMIT as int) <= 1_000_000 * (PULL_LIMIT as int))
                        by (nonlinear_arith)
                        requires
                            0 <= i as int <= 1_000_000,
                            PULL_LIMIT as int > 0,
                    ;
                    assert(dist2(pre, i as int, j as int) == dist2(bs0, i as int, j as int));
                }
                self.apply_pair(i, j);
                proof {
                    lemma_pull_on_agrees(g0, pre, bs0, i as int, j as int);
                    lemma_pull_on_agrees(g0, pre, bs0, j as int, i as int);
                }
                j += 1;
            }
            i += 1;
        }
        Ok(())
    }
}

} // verus!
