//! A point mass with Verlet-integrable state, and the pure link evaluators.

use vstd::prelude::*;
use crate::num::{
    absi, clampc, fp_mul, half, half_tz, lemma_abs_mul, lemma_div_tz_bound, mul_fp, sqrt_of,
    MAX_COORD, MAX_DT, MAX_STIFF, SCALE,
};
use crate::vec2::{diff, unit_toward_spec, V2};

verus! {

/// Radius a default particle is born with: ten units.
pub const DEFAULT_RADIUS: i64 = 10_000;

/// A point mass. `prev_position` is the position one integration step back
/// and encodes the implicit velocity; `radius` doubles as collision radius
/// and as mass for impulse weighting; a frozen particle never moves and never
/// absorbs acceleration.
#[derive(Clone, Copy, PartialEq, Eq, Structural, Debug)]
pub struct Particle {
    pub position: V2,
    pub prev_position: V2,
    pub acceleration: V2,
    pub radius: i64,
    pub frozen: bool,
}

impl Particle {
    /// Well-formed: all vectors in the admissible range, positive radius.
    pub open spec fn wf(self) -> bool {
        &&& self.position.in_range()
        &&& self.prev_position.in_range()
        &&& self.acceleration.in_range()
        &&& 0 < self.radius <= MAX_COORD
    }

    /// One Verlet step: velocity is the difference of consecutive positions,
    /// the new position adds velocity and the accumulated acceleration scaled
    /// by the squared timestep, and the acceleration is reset. A frozen
    /// particle is left untouched.
    pub open spec fn verlet_spec(self, dt: int) -> Particle {
        if self.frozen {
            self
        } else {
            Particle {
                position: V2 {
                    x: clampc(
                        self.position.x + (self.position.x - self.prev_position.x)
                            + fp_mul(fp_mul(self.acceleration.x as int, dt), dt),
                    ) as i64,
                    y: clampc(
                        self.position.y + (self.position.y - self.prev_position.y)
                            + fp_mul(fp_mul(self.acceleration.y as int, dt), dt),
                    ) as i64,
                },
                prev_position: self.position,
                acceleration: V2 { x: 0i64, y: 0i64 },
                radius: self.radius,
                frozen: self.frozen,
            }
        }
    }

    /// Störmer–Verlet integration with timestep `dt` milli-units.
    pub fn verlet(&mut self, dt: i64)
        requires
            old(self).wf(),
            0 < dt <= MAX_DT,
        ensures
            *final(self) == old(self).verlet_spec(dt as int),
            final(self).wf(),
    {
        if self.frozen {
            return;
        }
        let ax1 = accel_term(self.acceleration.x, dt);
        let ay1 = accel_term(self.acceleration.y, dt);
        let velocity = self.position.sub(self.prev_position);
        let delta = V2 { x: velocity.x + ax1, y: velocity.y + ay1 };
        let new_position = self.position.add_clamped(delta);
        self.prev_position = self.position;
        self.position = new_position;
        self.acceleration = V2::zero();
    }

    /// The rope evaluator: half the distance excess toward the rest length,
    /// along the line between the two particles.
    pub open spec fn line_corr(p1: Particle, p2: Particle, length: int) -> V2 {
        let to = diff(p1.position, p2.position);
        let dist = sqrt_of(to.norm_sq_spec());
        let n = unit_toward_spec(to, dist);
        let s = half(dist - length);
        V2 { x: fp_mul(n.x as int, s) as i64, y: fp_mul(n.y as int, s) as i64 }
    }

    /// The corrective displacement a rigid link of rest length `length`
    /// between the two particles asks for: half the distance excess along
    /// their common line. Positive excess pulls them together.
    pub fn apply_line_constraint(particle1: &Particle, particle2: &Particle, length: i64) -> (r:
        V2)
        requires
            particle1.wf(),
            particle2.wf(),
            0 <= length <= MAX_COORD,
        ensures
            r == Self::line_corr(*particle1, *particle2, length as int),
            absi(r.x as int) <= 2_100_000_000,
            absi(r.y as int) <= 2_100_000_000,
    {
        let to = particle1.position.sub(particle2.position);
        let dist = to.norm();
        let n = to.unit_toward(dist);
        let s = half_tz(dist - length);
        proof {
            lemma_div_tz_bound(dist as int - length as int, 2);
        }
        scaled(n, s)
    }

    /// The spring evaluator: a restoring pseudo-force proportional to the
    /// distance excess and the stiffness, halved.
    pub open spec fn spring_corr(p1: Particle, p2: Particle, length: int, stiffness: int) -> V2 {
        let to = diff(p1.position, p2.position);
        let dist = sqrt_of(to.norm_sq_spec());
        let n = unit_toward_spec(to, dist);
        let desired = dist - length;
        V2 {
            x: half(fp_mul(fp_mul(n.x as int, desired), stiffness)) as i64,
            y: half(fp_mul(fp_mul(n.y as int, desired), stiffness)) as i64,
        }
    }

    /// The restoring pseudo-force of an elastic link with rest length
    /// `length` and stiffness `stiffness` between the two particles.
    pub fn apply_spring_constraint(
        particle1: &Particle,
        particle2: &Particle,
        length: i64,
        stiffness: i64,
    ) -> (r: V2)
        requires
            particle1.wf(),
            particle2.wf(),
            0 <= length <= MAX_COORD,
            0 <= stiffness <= MAX_STIFF,
        ensures
            r == Self::spring_corr(*particle1, *particle2, length as int, stiffness as int),
            absi(r.x as int) <= 2_100_000_000_000_000,
            absi(r.y as int) <= 2_100_000_000_000_000,
    {
        let to = particle1.position.sub(particle2.position);
        let dist = to.norm();
        let n = to.unit_toward(dist);
        let desired = dist - length;
        let tx = mul_scaled(n.x, desired);
        let ty = mul_scaled(n.y, desired);
        let sx = mul_scaled_wide(tx, stiffness);
        let sy = mul_scaled_wide(ty, stiffness);
        V2 { x: half_tz(sx), y: half_tz(sy) }
    }

    /// A particle at rest at `position`, with the given starting
    /// acceleration and radius (which also serves as its mass).
    pub fn from(position: V2, acceleration: V2, radius: i64) -> (p: Particle)
        requires
            position.in_range(),
            acceleration.in_range(),
            0 < radius <= MAX_COORD,
        ensures
            p == (Particle {
                position,
                prev_position: position,
                acceleration,
                radius,
                frozen: false,
            }),
            p.wf(),
    {
        Particle { position, prev_position: position, acceleration, radius, frozen: false }
    }
}

impl Default for Particle {
    /// A unit ball of radius ten units at the origin, at rest, unfrozen.
    fn default() -> (p: Particle)
        ensures
            p == (Particle {
                position: V2 { x: 0i64, y: 0i64 },
                prev_position: V2 { x: 0i64, y: 0i64 },
                acceleration: V2 { x: 0i64, y: 0i64 },
                radius: DEFAULT_RADIUS,
                frozen: false,
            }),
            p.wf(),
    {
        Particle {
            position: V2 { x: 0, y: 0 },
            prev_position: V2 { x: 0, y: 0 },
            acceleration: V2 { x: 0, y: 0 },
            radius: DEFAULT_RADIUS,
            frozen: false,
        }
    }
}

/// The acceleration contribution to one Verlet step: `a * dt * dt` in fixed
/// point, truncating at each rescale, exactly as the integrator applies it.
fn accel_term(a: i64, dt: i64) -> (r: i64)
    requires
        absi(a as int) <= MAX_COORD as int,
        0 < dt <= MAX_DT,
    ensures
        r as int == fp_mul(fp_mul(a as int, dt as int), dt as int),
        absi(r as int) <= 1_000_000_000_000_000,
{
    proof {
        lemma_abs_mul(a as int, dt as int);
        assert(absi(a as int) * absi(dt as int) <= 1_000_000_000_000_000int) by (nonlinear_arith)
            requires
                0 <= absi(a as int) <= 1_000_000_000int,
                0 <= absi(dt as int) <= 1_000_000int,
        ;
        lemma_div_tz_bound(a as int * dt as int, SCALE as int);
    }
    let t1 = mul_fp(a, dt);
    proof {
        lemma_abs_mul(t1 as int, dt as int);
        assert(absi(t1 as int) * absi(dt as int) <= 1_000_000_000_000_000_000int)
            by (nonlinear_arith)
            requires
                0 <= absi(t1 as int) <= 1_000_000_000_000int,
                0 <= absi(dt as int) <= 1_000_000int,
        ;
        lemma_div_tz_bound(t1 as int * dt as int, SCALE as int);
    }
    mul_fp(t1, dt)
}

/// Both components of `n` scaled by `s` in fixed point; `n` is a scaled unit
/// vector, so each result component stays within `|s|`.
fn scaled(n: V2, s: i64) -> (r: V2)
    requires
        absi(n.x as int) <= SCALE as int,
        absi(n.y as int) <= SCALE as int,
        absi(s as int) <= 2_100_000_000,
    ensures
        r.x as int == fp_mul(n.x as int, s as int),
        r.y as int == fp_mul(n.y as int, s as int),
        absi(r.x as int) <= 2_100_000_000,
        absi(r.y as int) <= 2_100_000_000,
{
    proof {
        lemma_abs_mul(n.x as int, s as int);
        lemma_abs_mul(n.y as int, s as int);
        assert(absi(n.x as int) * absi(s as int) <= 2_100_000_000_000int
            && absi(n.y as int) * absi(s as int) <= 2_100_000_000_000int) by (nonlinear_arith)
            requires
                0 <= absi(n.x as int) <= 1000,
                0 <= absi(n.y as int) <= 1000,
                0 <= absi(s as int) <= 2_100_000_000int,
        ;
        lemma_div_tz_bound(n.x as int * s as int, SCALE as int);
        lemma_div_tz_bound(n.y as int * s as int, SCALE as int);
    }
    V2 { x: mul_fp(n.x, s), y: mul_fp(n.y, s) }
}

/// One fixed-point product of a scaled-unit component with a distance excess.
fn mul_scaled(n: i64, d: i64) -> (r: i64)
    requires
        absi(n as int) <= SCALE as int,
        absi(d as int) <= 4_100_000_000,
    ensures
        r as int == fp_mul(n as int, d as int),
        absi(r as int) <= 4_100_000_000,
{
    proof {
        lemma_abs_mul(n as int, d as int);
        assert(absi(n as int) * absi(d as int) <= 4_100_000_000_000int) by (nonlinear_arith)
            requires
                0 <= absi(n as int) <= 1000,
                0 <= absi(d as int) <= 4_100_000_000int,
        ;
        lemma_div_tz_bound(n as int * d as int, SCALE as int);
    }
    mul_fp(n, d)
}

/// One fixed-point product of an intermediate term with a stiffness.
fn mul_scaled_wide(t: i64, k: i64) -> (r: i64)
    requires
        absi(t as int) <= 4_100_000_000,
        0 <= k <= MAX_STIFF,
    ensures
        r as int == fp_mul(t as int, k as int),
        absi(r as int) <= 4_100_000_000_000,
{
    proof {
        lemma_abs_mul(t as int, k as int);
        assert(absi(t as int) * absi(k as int) <= 4_100_000_000_000_000int) by (nonlinear_arith)
            requires
                0 <= absi(t as int) <= 4_100_000_000int,
                0 <= absi(k as int) <= 1_000_000int,
        ;
        lemma_div_tz_bound(t as int * k as int, SCALE as int);
    }
    mul_fp(t, k)
}

} // verus!
