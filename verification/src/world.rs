//! The world state — particles plus rigid and elastic links — and the
//! iterative constraint solver that advances it one tick at a time.

use vstd::prelude::*;
use crate::num::{
    absi, clampc, div_fp, div_tz, fp_div, fp_mul, half, half_tz, is_sqrt, lemma_abs_mul,
    lemma_div_tz_bound, mul_fp, sqrt_of, MAX_COORD, MAX_DT, MAX_STIFF, SCALE,
};
use crate::particle::Particle;
use crate::vec2::{diff, unit_toward_spec, V2};

verus! {

/// Most substeps a world may run per tick.
pub const MAX_SUBSTEPS: u32 = 1000;

/// Most particles a world may hold; collision solving is quadratic in it.
pub const MAX_PARTICLES: usize = 1_000_000;

/// Most recent positions the trail buffer keeps; oldest leave first.
pub const MAX_TRAIL: usize = 50;

/// A configuration the world refuses at construction.
#[derive(Clone, Copy, PartialEq, Eq, Structural, Debug)]
pub enum ConfigError {
    /// The substep count is zero or above `MAX_SUBSTEPS`.
    BadSubsteps,
    /// The outer timestep is not positive, above `MAX_DT`, or smaller than
    /// the substep count (so a substep would last no time at all).
    BadTimestep,
    /// The boundary radius is not positive or above `MAX_COORD`.
    BadBoundary,
    /// The rigid/elastic rest length is negative or above `MAX_COORD`.
    BadRestLength,
    /// The spring stiffness is negative or above `MAX_STIFF`.
    BadStiffness,
    /// Too many particles, or one with an inadmissible position, previous
    /// position, acceleration or radius.
    BadParticle,
    /// A link names a particle index out of range, or ties one to itself.
    BadLink,
}

/// A link endpoint pair names two distinct particles of a store of `n`.
pub open spec fn link_ok(l: (usize, usize), n: int) -> bool {
    &&& (l.0 as int) < n
    &&& (l.1 as int) < n
    &&& l.0 != l.1
}

/// The world: an index-stable particle store, the rigid and elastic links
/// that name particles by index, and the solver configuration.
#[derive(Debug)]
pub struct World {
    pub particles: Vec<Particle>,
    pub ropes: Vec<(usize, usize)>,
    pub springs: Vec<(usize, usize)>,
    pub substeps: u32,
    pub boundary_radius: i64,
    pub dt: i64,
    pub rest_length: i64,
    pub stiffness: i64,
    pub paused: bool,
    pub trail_index: Option<usize>,
    pub trail: Vec<V2>,
}

impl World {
    /// Every particle is well-formed.
    pub open spec fn particles_wf(ps: Seq<Particle>) -> bool {
        forall|i: int| 0 <= i < ps.len() ==> ps[i].wf()
    }

    /// Every link endpoint pair names two distinct in-range particles.
    pub open spec fn links_wf(ls: Seq<(usize, usize)>, n: int) -> bool {
        forall|k: int| 0 <= k < ls.len() ==> link_ok(ls[k], n)
    }

    /// The construction-time invariant every solver entry point relies on.
    pub open spec fn wf(self) -> bool {
        &&& Self::particles_wf(self.particles@)
        &&& self.particles@.len() <= MAX_PARTICLES
        &&& Self::links_wf(self.ropes@, self.particles@.len() as int)
        &&& Self::links_wf(self.springs@, self.particles@.len() as int)
        &&& 0 < self.substeps <= MAX_SUBSTEPS
        &&& self.substeps as int <= self.dt as int <= MAX_DT as int
        &&& 0 < self.boundary_radius <= MAX_COORD
        &&& 0 <= self.rest_length <= MAX_COORD
        &&& 0 <= self.stiffness <= MAX_STIFF
        &&& match self.trail_index {
            Some(t) => (t as int) < self.particles@.len(),
            None => true,
        }
    }

    /// Assemble a world, validating the whole configuration. Checks run in
    /// the order the error variants are declared; the first failure wins.
    pub fn new(
        particles: Vec<Particle>,
        ropes: Vec<(usize, usize)>,
        springs: Vec<(usize, usize)>,
        substeps: u32,
        boundary_radius: i64,
        dt: i64,
        rest_length: i64,
        stiffness: i64,
        trail_index: Option<usize>,
    ) -> (r: Result<World, ConfigError>)
        ensures
            r matches Err(ConfigError::BadSubsteps) <==> !(0 < substeps <= MAX_SUBSTEPS),
            r matches Err(ConfigError::BadTimestep) <==> (0 < substeps <= MAX_SUBSTEPS
                && !(substeps as int <= dt as int <= MAX_DT as int)),
            r matches Err(ConfigError::BadBoundary) <==> (0 < substeps <= MAX_SUBSTEPS
                && substeps as int <= dt as int <= MAX_DT as int
                && !(0 < boundary_radius <= MAX_COORD)),
            r matches Err(ConfigError::BadRestLength) <==> (0 < substeps <= MAX_SUBSTEPS
                && substeps as int <= dt as int <= MAX_DT as int
                && 0 < boundary_radius <= MAX_COORD
                && !(0 <= rest_length <= MAX_COORD)),
            r matches Err(ConfigError::BadStiffness) <==> (0 < substeps <= MAX_SUBSTEPS
                && substeps as int <= dt as int <= MAX_DT as int
                && 0 < boundary_radius <= MAX_COORD
                && 0 <= rest_length <= MAX_COORD
                && !(0 <= stiffness <= MAX_STIFF)),
            r matches Err(ConfigError::BadParticle) <==> (0 < substeps <= MAX_SUBSTEPS
                && substeps as int <= dt as int <= MAX_DT as int
                && 0 < boundary_radius <= MAX_COORD
                && 0 <= rest_length <= MAX_COORD
                && 0 <= stiffness <= MAX_STIFF
                && !(Self::particles_wf(particles@) && particles@.len() <= MAX_PARTICLES
                    && (trail_index matches Some(t) ==> (t as int) < particles@.len()))),
            r matches Err(ConfigError::BadLink) <==> (0 < substeps <= MAX_SUBSTEPS
                && substeps as int <= dt as int <= MAX_DT as int
                && 0 < boundary_radius <= MAX_COORD
                && 0 <= rest_length <= MAX_COORD
                && 0 <= stiffness <= MAX_STIFF
                && Self::particles_wf(particles@) && particles@.len() <= MAX_PARTICLES
                && (trail_index matches Some(t) ==> (t as int) < particles@.len())
                && !(Self::links_wf(ropes@, particles@.len() as int)
                    && Self::links_wf(springs@, particles@.len() as int))),
            r matches Ok(w) ==> w.wf() && w == (World {
                particles,
                ropes,
                springs,
                substeps,
                boundary_radius,
                dt,
                rest_length,
                stiffness,
                paused: false,
                trail_index,
                trail: w.trail,
            }) && w.trail@ =~= Seq::<V2>::empty(),
    {
        if !(0 < substeps && substeps <= MAX_SUBSTEPS) {
            return Err(ConfigError::BadSubsteps);
        }
        if !(substeps as i64 <= dt && dt <= MAX_DT) {
            return Err(ConfigError::BadTimestep);
        }
        if !(0 < boundary_radius && boundary_radius <= MAX_COORD) {
            return Err(ConfigError::BadBoundary);
        }
        if !(0 <= rest_length && rest_length <= MAX_COORD) {
            return Err(ConfigError::BadRestLength);
        }
        if !(0 <= stiffness && stiffness <= MAX_STIFF) {
            return Err(ConfigError::BadStiffness);
        }
        if particles.len() > MAX_PARTICLES || !all_particles_ok(&particles) {
            return Err(ConfigError::BadParticle);
        }
        match trail_index {
            Some(t) => {
                if t >= particles.len() {
                    return Err(ConfigError::BadParticle);
                }
            },
            None => {},
        }
        if !all_links_ok(&ropes, particles.len()) || !all_links_ok(&springs, particles.len()) {
            return Err(ConfigError::BadLink);
        }
        Ok(World {
            particles,
            ropes,
            springs,
            substeps,
            boundary_radius,
            dt,
            rest_length,
            stiffness,
            paused: false,
            trail_index,
            trail: Vec::new(),
        })
    }
}

/// The gravity vector accumulated into each unfrozen particle, per substep:
/// one unit straight down.
pub const GRAVITY_Y: i64 = -1000;

/// Gravity accumulated into the acceleration; a frozen particle absorbs none.
pub open spec fn gravity_spec(p: Particle) -> Particle {
    if p.frozen {
        p
    } else {
        Particle {
            acceleration: V2 {
                x: p.acceleration.x,
                y: clampc(p.acceleration.y + GRAVITY_Y) as i64,
            },
            ..p
        }
    }
}

/// Accumulate gravity into the particle's acceleration.
pub fn apply_gravity(particle: &mut Particle)
    requires
        old(particle).wf(),
    ensures
        *final(particle) == gravity_spec(*old(particle)),
        final(particle).wf(),
{
    if particle.frozen {
        return;
    }
    particle.acceleration = particle.acceleration.add_clamped(V2 { x: 0, y: GRAVITY_Y });
}

/// The circular world boundary: a particle whose centre lies further than
/// `boundary - radius` from the origin is pulled back onto that circle along
/// its own direction; a particle exactly at the origin, or a frozen one, is
/// left alone.
pub open spec fn boundary_spec(p: Particle, boundary: int) -> Particle {
    let dist = sqrt_of(p.position.norm_sq_spec());
    let k = boundary - p.radius;
    if p.frozen || dist <= k || dist <= 0 {
        p
    } else {
        let n = unit_toward_spec(p.position, dist);
        Particle {
            position: V2 {
                x: fp_mul(n.x as int, k) as i64,
                y: fp_mul(n.y as int, k) as i64,
            },
            ..p
        }
    }
}

/// After a clamp onto the circle of radius `k`, the squared distance from the
/// origin is below `(k + 1) * (k + 1)`: the boundary holds to within one
/// milli-unit.
proof fn lemma_boundary_contained(x: int, y: int, dist: int, k: int)
    requires
        is_sqrt(x * x + y * y, dist),
        dist > k >= 0,
    ensures
        ({
            let px = div_tz(div_tz(x * SCALE as int, dist) * k, SCALE as int);
            let py = div_tz(div_tz(y * SCALE as int, dist) * k, SCALE as int);
            px * px + py * py < (k + 1) * (k + 1)
        }),
{
    let s = SCALE as int;
    let nx = div_tz(x * s, dist);
    let ny = div_tz(y * s, dist);
    let px = div_tz(nx * k, s);
    let py = div_tz(ny * k, s);
    lemma_abs_mul(x, s);
    lemma_abs_mul(y, s);
    lemma_abs_mul(nx, k);
    lemma_abs_mul(ny, k);
    lemma_div_tz_bound(x * s, dist);
    lemma_div_tz_bound(y * s, dist);
    lemma_div_tz_bound(nx * k, s);
    lemma_div_tz_bound(ny * k, s);
    // |px| * dist <= |x| * k, and likewise for y.
    assert(absi(px) * dist <= absi(x) * k) by (nonlinear_arith)
        requires
            absi(px) * s <= absi(nx) * absi(k),
            absi(nx) * dist <= absi(x) * s,
            absi(k) == k,
            0 <= absi(px),
            0 <= absi(nx),
            0 <= absi(x),
            0 <= k,
            s >= 1,
            dist >= 1,
    ;
    assert(absi(py) * dist <= absi(y) * k) by (nonlinear_arith)
        requires
            absi(py) * s <= absi(ny) * absi(k),
            absi(ny) * dist <= absi(y) * s,
            absi(k) == k,
            0 <= absi(py),
            0 <= absi(ny),
            0 <= absi(y),
            0 <= k,
            s >= 1,
            dist >= 1,
    ;
    lemma_abs_mul(px, px);
    lemma_abs_mul(py, py);
    lemma_abs_mul(x, x);
    lemma_abs_mul(y, y);
    assert(px * px >= 0 && py * py >= 0 && x * x >= 0 && y * y >= 0) by (nonlinear_arith);
    // Square both componentwise bounds and add them.
    assert(px * px * (dist * dist) <= x * x * (k * k)) by (nonlinear_arith)
        requires
            absi(px) * dist <= absi(x) * k,
            absi(px) * absi(px) == px * px,
            absi(x) * absi(x) == x * x,
            0 <= absi(px),
            0 <= absi(x),
            0 <= k,
            dist >= 1,
    ;
    assert(py * py * (dist * dist) <= y * y * (k * k)) by (nonlinear_arith)
        requires
            absi(py) * dist <= absi(y) * k,
            absi(py) * absi(py) == py * py,
            absi(y) * absi(y) == y * y,
            0 <= absi(py),
            0 <= absi(y),
            0 <= k,
            dist >= 1,
    ;
    assert((px * px + py * py) * (dist * dist) <= (x * x + y * y) * (k * k)) by (nonlinear_arith)
        requires
            px * px * (dist * dist) <= x * x * (k * k),
            py * py * (dist * dist) <= y * y * (k * k),
    ;
    // x * x + y * y < (dist + 1)^2 and (dist + 1) * k <= dist * (k + 1).
    assert((x * x + y * y) * (k * k) < (dist * dist) * ((k + 1) * (k + 1))) by (nonlinear_arith)
        requires
            x * x + y * y < (dist + 1) * (dist + 1),
            x * x + y * y >= 0,
            dist >= k + 1,
            k >= 0,
            dist >= 1,
    ;
    assert(px * px + py * py < (k + 1) * (k + 1)) by (nonlinear_arith)
        requires
            (px * px + py * py) * (dist * dist) <= (x * x + y * y) * (k * k),
            (x * x + y * y) * (k * k) < (dist * dist) * ((k + 1) * (k + 1)),
            dist >= 1,
    ;
}

/// Clamp the particle into the circular boundary.
pub fn apply_world_constraint(particle: &mut Particle, boundary_radius: i64)
    requires
        old(particle).wf(),
        0 < boundary_radius <= MAX_COORD,
    ensures
        *final(particle) == boundary_spec(*old(particle), boundary_radius as int),
        final(particle).wf(),
        !final(particle).frozen && boundary_radius - final(particle).radius >= 0
            ==> final(particle).position.norm_sq_spec() < (boundary_radius - final(particle).radius
            + 1) * (boundary_radius - final(particle).radius + 1),
{
    let ghost pre = *particle;
    let k = boundary_radius - particle.radius;
    let dist = particle.position.norm();
    if !particle.frozen && dist > k && dist > 0 {
        let n = particle.position.unit_toward(dist);
        proof {
            lemma_abs_mul(n.x as int, k as int);
            lemma_abs_mul(n.y as int, k as int);
            assert(absi(n.x as int) * absi(k as int) <= 2_000_000_000_000int
                && absi(n.y as int) * absi(k as int) <= 2_000_000_000_000int) by (nonlinear_arith)
                requires
                    0 <= absi(n.x as int) <= 1000,
                    0 <= absi(n.y as int) <= 1000,
                    0 <= absi(k as int) <= 2_000_000_000int,
            ;
            lemma_div_tz_bound(n.x as int * k as int, SCALE as int);
            lemma_div_tz_bound(n.y as int * k as int, SCALE as int);
            assert(absi(div_tz(n.x as int * k as int, SCALE as int)) <= absi(k as int)
                && absi(div_tz(n.y as int * k as int, SCALE as int)) <= absi(k as int))
                by (nonlinear_arith)
                requires
                    absi(div_tz(n.x as int * k as int, SCALE as int)) * (SCALE as int)
                        <= absi(n.x as int) * absi(k as int),
                    absi(div_tz(n.y as int * k as int, SCALE as int)) * (SCALE as int)
                        <= absi(n.y as int) * absi(k as int),
                    0 <= absi(n.x as int) <= SCALE as int,
                    0 <= absi(n.y as int) <= SCALE as int,
                    0 <= absi(k as int),
                    SCALE as int >= 1,
            ;
            if k >= 0 {
                lemma_boundary_contained(
                    pre.position.x as int,
                    pre.position.y as int,
                    dist as int,
                    k as int,
                );
            }
        }
        let px = mul_fp(n.x, k);
        let py = mul_fp(n.y, k);
        particle.position = V2 { x: px, y: py };
    } else {
        proof {
            if !pre.frozen && boundary_radius - pre.radius >= 0 {
                let d = dist as int;
                let kk = boundary_radius as int - pre.radius as int;
                assert(d <= kk);
                assert(d * d <= kk * kk && kk * kk < (kk + 1) * (kk + 1)) by (nonlinear_arith)
                    requires 0 <= d <= kk;
                assert(pre.position.norm_sq_spec() < (d + 1) * (d + 1));
                assert((d + 1) * (d + 1) <= (kk + 1) * (kk + 1)) by (nonlinear_arith)
                    requires 0 <= d <= kk;
            }
        }
    }
}

/// The pairwise collision evaluator: when two particles overlap, half the
/// penetration along the line from the first to the second; zero otherwise.
/// Two coincident centres separate along the fixed fallback direction.
pub open spec fn collision_corr(p1: Particle, p2: Particle) -> V2 {
    let to = diff(p2.position, p1.position);
    let dist = sqrt_of(to.norm_sq_spec());
    if dist < p1.radius + p2.radius {
        let n = unit_toward_spec(to, dist);
        let s = half(p1.radius + p2.radius - dist);
        V2 { x: fp_mul(s, n.x as int) as i64, y: fp_mul(s, n.y as int) as i64 }
    } else {
        V2 { x: 0i64, y: 0i64 }
    }
}

/// Compute the displacement that pushes `particle2` away from `particle1`
/// when the two overlap.
pub fn apply_collision_constraint(particle1: &Particle, particle2: &Particle) -> (r: V2)
    requires
        particle1.wf(),
        particle2.wf(),
    ensures
        r == collision_corr(*particle1, *particle2),
        absi(r.x as int) <= 1_100_000_000,
        absi(r.y as int) <= 1_100_000_000,
{
    let to = particle2.position.sub(particle1.position);
    let dist = to.norm();
    let rsum = particle1.radius + particle2.radius;
    if dist < rsum {
        let n = to.unit_toward(dist);
        let s = half_tz(rsum - dist);
        proof {
            lemma_div_tz_bound(rsum as int - dist as int, 2);
            lemma_abs_mul(s as int, n.x as int);
            lemma_abs_mul(s as int, n.y as int);
            assert(absi(s as int) * absi(n.x as int) <= 1_000_000_000_000int
                && absi(s as int) * absi(n.y as int) <= 1_000_000_000_000int) by (nonlinear_arith)
                requires
                    0 <= absi(s as int) <= 1_000_000_000int,
                    0 <= absi(n.x as int) <= 1000,
                    0 <= absi(n.y as int) <= 1000,
            ;
            lemma_div_tz_bound(s as int * n.x as int, SCALE as int);
            lemma_div_tz_bound(s as int * n.y as int, SCALE as int);
        }
        V2 { x: mul_fp(s, n.x), y: mul_fp(s, n.y) }
    } else {
        V2 { x: 0, y: 0 }
    }
}

/// One ordered collision resolution: the correction pushing `ps[p2]` away
/// from `ps[p]` is applied to both, each masked by its own frozen flag.
pub open spec fn collide_step(ps: Seq<Particle>, p: int, p2: int) -> Seq<Particle> {
    if p == p2 || !(0 <= p < ps.len()) || !(0 <= p2 < ps.len()) {
        ps
    } else {
        let mv = collision_corr(ps[p], ps[p2]);
        let a = ps[p];
        let b = ps[p2];
        let b2 = if !b.frozen {
            Particle {
                position: V2 {
                    x: clampc(b.position.x + mv.x) as i64,
                    y: clampc(b.position.y + mv.y) as i64,
                },
                ..b
            }
        } else {
            b
        };
        let a2 = if !a.frozen {
            Particle {
                position: V2 {
                    x: clampc(a.position.x - mv.x) as i64,
                    y: clampc(a.position.y - mv.y) as i64,
                },
                ..a
            }
        } else {
            a
        };
        ps.update(p2, b2).update(p, a2)
    }
}

/// The first `k` ordered collision resolutions of particle `p`, in index
/// order, each reading the state the previous one left.
pub open spec fn collisions_upto(ps: Seq<Particle>, p: int, k: int) -> Seq<Particle>
    decreases k,
{
    if k <= 0 {
        ps
    } else {
        collide_step(collisions_upto(ps, p, k - 1), p, k - 1)
    }
}

impl World {
    /// Resolve every pairwise collision of particle `p`, in index order,
    /// Gauss–Seidel style: each resolution reads the positions the previous
    /// one wrote.
    pub fn all_collisions(&mut self, p: usize)
        requires
            old(self).wf(),
            (p as int) < old(self).particles@.len(),
        ensures
            final(self).particles@ == collisions_upto(
                old(self).particles@,
                p as int,
                old(self).particles@.len() as int,
            ),
            *final(self) == (World { particles: final(self).particles, ..*old(self) }),
            final(self).particles@.len() == old(self).particles@.len(),
            final(self).wf(),
    {
        let n = self.particles.len();
        let mut p2: usize = 0;
        while p2 < n
            invariant
                self.particles@ == collisions_upto(old(self).particles@, p as int, p2 as int),
                *self == (World { particles: self.particles, ..*old(self) }),
                Self::particles_wf(self.particles@),
                self.particles@.len() == n,
                n == old(self).particles@.len(),
                (p as int) < n as int,
                p2 <= n,
                old(self).wf(),
            decreases n - p2,
        {
            if p2 != p {
                let ghost pre = self.particles@;
                let a = self.particles[p];
                let b = self.particles[p2];
                let mv = apply_collision_constraint(&a, &b);
                if !b.frozen {
                    let nb = Particle { position: b.position.add_clamped(mv), ..b };
                    self.particles.set(p2, nb);
                }
                if !a.frozen {
                    let na = Particle {
                        position: a.position.add_clamped(V2 { x: -mv.x, y: -mv.y }),
                        ..a
                    };
                    self.particles.set(p, na);
                }
                proof {
                    assert(self.particles@ =~= collide_step(pre, p as int, p2 as int));
                }
            } else {
                proof {
                    assert(self.particles@ =~= collide_step(
                        self.particles@,
                        p as int,
                        p2 as int,
                    ));
                }
            }
            p2 += 1;
        }
    }
}

/// One rigid-link relaxation: the rope correction between the two endpoints,
/// scaled down by each endpoint's own mass (its radius), moves the first
/// endpoint against the correction and the second along it, in position
/// space, each masked by its own frozen flag.
pub open spec fn rope_step(ps: Seq<Particle>, l: (usize, usize), rest: int) -> Seq<Particle> {
    if !link_ok(l, ps.len() as int) {
        ps
    } else {
        let i = l.0 as int;
        let j = l.1 as int;
        let c = Particle::line_corr(ps[i], ps[j], rest);
        let a = ps[i];
        let b = ps[j];
        let a2 = if !a.frozen {
            Particle {
                position: V2 {
                    x: clampc(a.position.x - fp_div(c.x as int, a.radius as int)) as i64,
                    y: clampc(a.position.y - fp_div(c.y as int, a.radius as int)) as i64,
                },
                ..a
            }
        } else {
            a
        };
        let b2 = if !b.frozen {
            Particle {
                position: V2 {
                    x: clampc(b.position.x + fp_div(c.x as int, b.radius as int)) as i64,
                    y: clampc(b.position.y + fp_div(c.y as int, b.radius as int)) as i64,
                },
                ..b
            }
        } else {
            b
        };
        ps.update(i, a2).update(j, b2)
    }
}

/// The first `k` ropes applied once each, in list order.
pub open spec fn ropes_upto(
    ps: Seq<Particle>,
    ropes: Seq<(usize, usize)>,
    rest: int,
    k: int,
) -> Seq<Particle>
    decreases k,
{
    if k <= 0 {
        ps
    } else {
        rope_step(ropes_upto(ps, ropes, rest, k - 1), ropes[k - 1], rest)
    }
}

/// `iters` whole relaxation passes over the rope list.
pub open spec fn ropes_relax(
    ps: Seq<Particle>,
    ropes: Seq<(usize, usize)>,
    rest: int,
    iters: int,
) -> Seq<Particle>
    decreases iters,
{
    if iters <= 0 {
        ps
    } else {
        ropes_upto(ropes_relax(ps, ropes, rest, iters - 1), ropes, rest, ropes.len() as int)
    }
}

/// One elastic-link application: the spring pseudo-force, scaled down by each
/// endpoint's mass, is subtracted from the first endpoint's acceleration and
/// added to the second's, each masked by its own frozen flag.
pub open spec fn spring_step(
    ps: Seq<Particle>,
    l: (usize, usize),
    rest: int,
    stiff: int,
) -> Seq<Particle> {
    if !link_ok(l, ps.len() as int) {
        ps
    } else {
        let i = l.0 as int;
        let j = l.1 as int;
        let c = Particle::spring_corr(ps[i], ps[j], rest, stiff);
        let a = ps[i];
        let b = ps[j];
        let a2 = if !a.frozen {
            Particle {
                acceleration: V2 {
                    x: clampc(a.acceleration.x - fp_div(c.x as int, a.radius as int)) as i64,
                    y: clampc(a.acceleration.y - fp_div(c.y as int, a.radius as int)) as i64,
                },
                ..a
            }
        } else {
            a
        };
        let b2 = if !b.frozen {
            Particle {
                acceleration: V2 {
                    x: clampc(b.acceleration.x + fp_div(c.x as int, b.radius as int)) as i64,
                    y: clampc(b.acceleration.y + fp_div(c.y as int, b.radius as int)) as i64,
                },
                ..b
            }
        } else {
            b
        };
        ps.update(i, a2).update(j, b2)
    }
}

/// The first `k` springs applied once each, in list order.
pub open spec fn springs_upto(
    ps: Seq<Particle>,
    springs: Seq<(usize, usize)>,
    rest: int,
    stiff: int,
    k: int,
) -> Seq<Particle>
    decreases k,
{
    if k <= 0 {
        ps
    } else {
        spring_step(springs_upto(ps, springs, rest, stiff, k - 1), springs[k - 1], rest, stiff)
    }
}

impl World {
    /// Apply every rigid link once, in list order.
    fn ropes_once(&mut self)
        requires
            old(self).wf(),
        ensures
            final(self).particles@ == ropes_upto(
                old(self).particles@,
                old(self).ropes@,
                old(self).rest_length as int,
                old(self).ropes@.len() as int,
            ),
            *final(self) == (World { particles: final(self).particles, ..*old(self) }),
            final(self).particles@.len() == old(self).particles@.len(),
            final(self).wf(),
    {
        let n = self.ropes.len();
        let mut k: usize = 0;
        while k < n
            invariant
                self.particles@ == ropes_upto(
                    old(self).particles@,
                    old(self).ropes@,
                    old(self).rest_length as int,
                    k as int,
                ),
                *self == (World { particles: self.particles, ..*old(self) }),
                Self::particles_wf(self.particles@),
                self.particles@.len() == old(self).particles@.len(),
                n == self.ropes@.len(),
                k <= n,
                old(self).wf(),
            decreases n - k,
        {
            let ghost pre = self.particles@;
            let l = self.ropes[k];
            let a = self.particles[l.0];
            let b = self.particles[l.1];
            let c = Particle::apply_line_constraint(&a, &b, self.rest_length);
            if !a.frozen {
                let dx = div_fp(c.x, a.radius);
                let dy = div_fp(c.y, a.radius);
                proof {
                    lemma_div_tz_bound(c.x as int * SCALE as int, a.radius as int);
                    lemma_div_tz_bound(c.y as int * SCALE as int, a.radius as int);
                    lemma_abs_mul(c.x as int, SCALE as int);
                    lemma_abs_mul(c.y as int, SCALE as int);
                }
                let na = Particle {
                    position: a.position.add_clamped(V2 { x: -dx, y: -dy }),
                    ..a
                };
                self.particles.set(l.0, na);
            }
            if !b.frozen {
                let ex = div_fp(c.x, b.radius);
                let ey = div_fp(c.y, b.radius);
                proof {
                    lemma_div_tz_bound(c.x as int * SCALE as int, b.radius as int);
                    lemma_div_tz_bound(c.y as int * SCALE as int, b.radius as int);
                    lemma_abs_mul(c.x as int, SCALE as int);
                    lemma_abs_mul(c.y as int, SCALE as int);
                }
                let nb = Particle { position: b.position.add_clamped(V2 { x: ex, y: ey }), ..b };
                self.particles.set(l.1, nb);
            }
            proof {
                assert(self.particles@ =~= rope_step(pre, old(self).ropes@[k as int],
                    old(self).rest_length as int));
            }
            k += 1;
        }
    }

    /// Relax every rigid link, `substeps` whole passes per call, so repeated
    /// correction approximates a hard distance constraint.
    pub fn all_ropes(&mut self)
        requires
            old(self).wf(),
        ensures
            final(self).particles@ == ropes_relax(
                old(self).particles@,
                old(self).ropes@,
                old(self).rest_length as int,
                old(self).substeps as int,
            ),
            *final(self) == (World { particles: final(self).particles, ..*old(self) }),
            final(self).particles@.len() == old(self).particles@.len(),
            final(self).wf(),
    {
        let iters = self.substeps;
        let mut it: u32 = 0;
        while it < iters
            invariant
                self.particles@ == ropes_relax(
                    old(self).particles@,
                    old(self).ropes@,
                    old(self).rest_length as int,
                    it as int,
                ),
                *self == (World { particles: self.particles, ..*old(self) }),
                Self::particles_wf(self.particles@),
                self.particles@.len() == old(self).particles@.len(),
                iters == self.substeps,
                it <= iters,
                old(self).wf(),
            decreases iters - it,
        {
            self.ropes_once();
            it += 1;
        }
    }

    /// Apply every elastic link once, in list order, accumulating restoring
    /// pseudo-forces into the endpoint accelerations.
    pub fn all_springs(&mut self)
        requires
            old(self).wf(),
        ensures
            final(self).particles@ == springs_upto(
                old(self).particles@,
                old(self).springs@,
                old(self).rest_length as int,
                old(self).stiffness as int,
                old(self).springs@.len() as int,
            ),
            *final(self) == (World { particles: final(self).particles, ..*old(self) }),
            final(self).particles@.len() == old(self).particles@.len(),
            final(self).wf(),
    {
        let n = self.springs.len();
        let mut k: usize = 0;
        while k < n
            invariant
                self.particles@ == springs_upto(
                    old(self).particles@,
                    old(self).springs@,
                    old(self).rest_length as int,
                    old(self).stiffness as int,
                    k as int,
                ),
                *self == (World { particles: self.particles, ..*old(self) }),
                Self::particles_wf(self.particles@),
                self.particles@.len() == old(self).particles@.len(),
                n == self.springs@.len(),
                k <= n,
                old(self).wf(),
            decreases n - k,
        {
            let ghost pre = self.particles@;
            let l = self.springs[k];
            let a = self.particles[l.0];
            let b = self.particles[l.1];
            let c = Particle::apply_spring_constraint(&a, &b, self.rest_length, self.stiffness);
            if !a.frozen {
                let dx = div_fp(c.x, a.radius);
                let dy = div_fp(c.y, a.radius);
                proof {
                    lemma_div_tz_bound(c.x as int * SCALE as int, a.radius as int);
                    lemma_div_tz_bound(c.y as int * SCALE as int, a.radius as int);
                    lemma_abs_mul(c.x as int, SCALE as int);
                    lemma_abs_mul(c.y as int, SCALE as int);
                }
                let na = Particle {
                    acceleration: a.acceleration.add_clamped(V2 { x: -dx, y: -dy }),
                    ..a
                };
                self.particles.set(l.0, na);
            }
            if !b.frozen {
                let ex = div_fp(c.x, b.radius);
                let ey = div_fp(c.y, b.radius);
                proof {
                    lemma_div_tz_bound(c.x as int * SCALE as int, b.radius as int);
                    lemma_div_tz_bound(c.y as int * SCALE as int, b.radius as int);
                    lemma_abs_mul(c.x as int, SCALE as int);
                    lemma_abs_mul(c.y as int, SCALE as int);
                }
                let nb = Particle {
                    acceleration: b.acceleration.add_clamped(V2 { x: ex, y: ey }),
                    ..b
                };
                self.particles.set(l.1, nb);
            }
            proof {
                assert(self.particles@ =~= spring_step(pre, old(self).springs@[k as int],
                    old(self).rest_length as int, old(self).stiffness as int));
            }
            k += 1;
        }
    }
}

/// Everything one substep does to particle `p`, in solver order: gravity,
/// boundary clamp, all of `p`'s collisions, a full rigid-link relaxation, a
/// spring pass, then one Verlet integration of `p`.
pub open spec fn particle_step(
    ps: Seq<Particle>,
    ropes: Seq<(usize, usize)>,
    springs: Seq<(usize, usize)>,
    boundary: int,
    rest: int,
    stiff: int,
    substeps: int,
    sub_dt: int,
    p: int,
) -> Seq<Particle> {
    if !(0 <= p < ps.len()) {
        ps
    } else {
        let ps1 = ps.update(p, gravity_spec(ps[p]));
        let ps2 = ps1.update(p, boundary_spec(ps1[p], boundary));
        let ps3 = collisions_upto(ps2, p, ps2.len() as int);
        let ps4 = ropes_relax(ps3, ropes, rest, substeps);
        let ps5 = springs_upto(ps4, springs, rest, stiff, springs.len() as int);
        ps5.update(p, ps5[p].verlet_spec(sub_dt))
    }
}

/// One substep applied to the first `k` particles, in index order.
pub open spec fn pass_upto(
    ps: Seq<Particle>,
    ropes: Seq<(usize, usize)>,
    springs: Seq<(usize, usize)>,
    boundary: int,
    rest: int,
    stiff: int,
    substeps: int,
    sub_dt: int,
    k: int,
) -> Seq<Particle>
    decreases k,
{
    if k <= 0 {
        ps
    } else {
        particle_step(
            pass_upto(ps, ropes, springs, boundary, rest, stiff, substeps, sub_dt, k - 1),
            ropes,
            springs,
            boundary,
            rest,
            stiff,
            substeps,
            sub_dt,
            k - 1,
        )
    }
}

/// `k` whole substeps, each a pass over every particle.
pub open spec fn solve_upto(
    ps: Seq<Particle>,
    ropes: Seq<(usize, usize)>,
    springs: Seq<(usize, usize)>,
    boundary: int,
    rest: int,
    stiff: int,
    substeps: int,
    sub_dt: int,
    k: int,
) -> Seq<Particle>
    decreases k,
{
    if k <= 0 {
        ps
    } else {
        let prev = solve_upto(ps, ropes, springs, boundary, rest, stiff, substeps, sub_dt, k - 1);
        pass_upto(prev, ropes, springs, boundary, rest, stiff, substeps, sub_dt,
            prev.len() as int)
    }
}

impl World {
    /// The inner timestep: the outer timestep divided evenly over the
    /// substeps, in milli-units.
    pub open spec fn sub_dt_spec(self) -> int {
        self.dt as int / self.substeps as int
    }

    /// The particle store a full solve pass leaves behind.
    pub open spec fn solve_spec(self) -> Seq<Particle> {
        solve_upto(
            self.particles@,
            self.ropes@,
            self.springs@,
            self.boundary_radius as int,
            self.rest_length as int,
            self.stiffness as int,
            self.substeps as int,
            self.sub_dt_spec(),
            self.substeps as int,
        )
    }

    /// One full solve pass: `substeps` substeps, each walking the particles
    /// in index order, then one trail sample of the tracked particle.
    pub fn solver(&mut self)
        requires
            old(self).wf(),
        ensures
            final(self).particles@ == old(self).solve_spec(),
            final(self).trail@ == match old(self).trail_index {
                Some(t) => old(self).trail@.push(final(self).particles@[t as int].position),
                None => old(self).trail@,
            },
            *final(self) == (World {
                particles: final(self).particles,
                trail: final(self).trail,
                ..*old(self)
            }),
            final(self).particles@.len() == old(self).particles@.len(),
            final(self).wf(),
    {
        let sub_dt = crate::num::div_trunc(self.dt, self.substeps as i64);
        proof {
            assert(self.dt as int / self.substeps as int >= 1
                && self.dt as int / self.substeps as int <= self.dt as int) by (nonlinear_arith)
                requires
                    1 <= self.substeps as int <= self.dt as int,
            ;
        }
        let substeps = self.substeps;
        let mut it: u32 = 0;
        while it < substeps
            invariant
                self.particles@ == solve_upto(
                    old(self).particles@,
                    old(self).ropes@,
                    old(self).springs@,
                    old(self).boundary_radius as int,
                    old(self).rest_length as int,
                    old(self).stiffness as int,
                    old(self).substeps as int,
                    old(self).sub_dt_spec(),
                    it as int,
                ),
                *self == (World { particles: self.particles, ..*old(self) }),
                Self::particles_wf(self.particles@),
                self.particles@.len() == old(self).particles@.len(),
                substeps == old(self).substeps,
                it <= substeps,
                sub_dt as int == old(self).sub_dt_spec(),
                0 < sub_dt <= MAX_DT,
                old(self).wf(),
            decreases substeps - it,
        {
            let ghost pass_start = self.particles@;
            let n = self.particles.len();
            let mut p: usize = 0;
            while p < n
                invariant
                    self.particles@ == pass_upto(
                        pass_start,
                        old(self).ropes@,
                        old(self).springs@,
                        old(self).boundary_radius as int,
                        old(self).rest_length as int,
                        old(self).stiffness as int,
                        old(self).substeps as int,
                        old(self).sub_dt_spec(),
                        p as int,
                    ),
                    *self == (World { particles: self.particles, ..*old(self) }),
                    Self::particles_wf(self.particles@),
                    self.particles@.len() == n,
                    n == pass_start.len(),
                    n == old(self).particles@.len(),
                    p <= n,
                    sub_dt as int == old(self).sub_dt_spec(),
                    0 < sub_dt <= MAX_DT,
                    old(self).wf(),
                decreases n - p,
            {
                let ghost step_start = self.particles@;
                let mut q = self.particles[p];
                apply_gravity(&mut q);
                apply_world_constraint(&mut q, self.boundary_radius);
                self.particles.set(p, q);
                proof {
                    let ps1 = step_start.update(p as int, gravity_spec(step_start[p as int]));
                    assert(self.particles@ =~= ps1.update(
                        p as int,
                        boundary_spec(ps1[p as int], old(self).boundary_radius as int),
                    ));
                }
                self.all_collisions(p);
                self.all_ropes();
                self.all_springs();
                let mut r = self.particles[p];
                r.verlet(sub_dt);
                self.particles.set(p, r);
                proof {
                    assert(self.particles@ =~= particle_step(
                        step_start,
                        old(self).ropes@,
                        old(self).springs@,
                        old(self).boundary_radius as int,
                        old(self).rest_length as int,
                        old(self).stiffness as int,
                        old(self).substeps as int,
                        old(self).sub_dt_spec(),
                        p as int,
                    ));
                }
                p += 1;
            }
            it += 1;
        }
        match self.trail_index {
            Some(t) => {
                let pos = self.particles[t].position;
                self.trail.push(pos);
            },
            None => {},
        }
    }
}

/// The kinetic energy of one particle: half its mass (its radius) times the
/// squared implicit velocity, in milli-unit cubed scale.
pub open spec fn kinetic_energy_spec(p: Particle) -> int {
    (p.radius as int * diff(p.position, p.prev_position).norm_sq_spec()) / (2 * SCALE as int
        * SCALE as int)
}

/// The kinetic energy of the first `k` particles, summed.
pub open spec fn total_energy_upto(ps: Seq<Particle>, k: int) -> int
    decreases k,
{
    if k <= 0 {
        0
    } else {
        total_energy_upto(ps, k - 1) + kinetic_energy_spec(ps[k - 1])
    }
}

/// Kinetic energy of one particle, from its implicit velocity.
pub fn calculate_kinetic_energy(particle: &Particle) -> (e: u128)
    requires
        particle.wf(),
    ensures
        e as int == kinetic_energy_spec(*particle),
        e as int <= 4_000_000_000_000_000_000_000,
{
    let v = particle.position.sub(particle.prev_position);
    let nsq = v.norm_sq();
    proof {
        assert(particle.radius as int * (nsq as int) <= 8_000_000_000_000_000_000_000_000_000int
            && particle.radius as int * (nsq as int) >= 0) by (nonlinear_arith)
            requires
                0 < particle.radius as int <= 1_000_000_000int,
                0 <= nsq as int <= 8_000_000_000_000_000_000int,
        ;
    }
    let prod: u128 = (particle.radius as u128) * (nsq as u128);
    let e: u128 = prod / 2_000_000;
    proof {
        assert(prod as int / 2_000_000int <= 4_000_000_000_000_000_000_000int
            && prod as int / 2_000_000int >= 0) by (nonlinear_arith)
            requires
                0 <= prod as int <= 8_000_000_000_000_000_000_000_000_000int,
        ;
    }
    e
}

impl World {
    /// The total kinetic energy of every particle in the store.
    pub fn calculate_total_kinetic_energy(&self) -> (e: u128)
        requires
            self.wf(),
        ensures
            e as int == total_energy_upto(self.particles@, self.particles@.len() as int),
    {
        let mut energy: u128 = 0;
        let mut p: usize = 0;
        let n = self.particles.len();
        while p < n
            invariant
                energy as int == total_energy_upto(self.particles@, p as int),
                energy as int <= p as int * 4_000_000_000_000_000_000_000,
                p <= n,
                n == self.particles@.len(),
                n <= MAX_PARTICLES,
                Self::particles_wf(self.particles@),
            decreases n - p,
        {
            let e = calculate_kinetic_energy(&self.particles[p]);
            energy = energy + e;
            p += 1;
        }
        energy
    }
}

/// Whether one particle passes the construction check.
fn particle_ok(p: &Particle) -> (r: bool)
    ensures
        r == p.wf(),
{
    -MAX_COORD <= p.position.x && p.position.x <= MAX_COORD && -MAX_COORD <= p.position.y
        && p.position.y <= MAX_COORD && -MAX_COORD <= p.prev_position.x && p.prev_position.x
        <= MAX_COORD && -MAX_COORD <= p.prev_position.y && p.prev_position.y <= MAX_COORD
        && -MAX_COORD <= p.acceleration.x && p.acceleration.x <= MAX_COORD && -MAX_COORD
        <= p.acceleration.y && p.acceleration.y <= MAX_COORD && 0 < p.radius && p.radius
        <= MAX_COORD
}

/// Whether every particle passes the construction check.
fn all_particles_ok(ps: &Vec<Particle>) -> (r: bool)
    ensures
        r == World::particles_wf(ps@),
{
    let mut i: usize = 0;
    while i < ps.len()
        invariant
            i <= ps.len(),
            forall|k: int| 0 <= k < i ==> ps@[k].wf(),
        decreases ps.len() - i,
    {
        if !particle_ok(&ps[i]) {
            return false;
        }
        i += 1;
    }
    true
}

/// Whether every link names two distinct particles of a store of `n`.
fn all_links_ok(ls: &Vec<(usize, usize)>, n: usize) -> (r: bool)
    ensures
        r == World::links_wf(ls@, n as int),
{
    let mut i: usize = 0;
    while i < ls.len()
        invariant
            i <= ls.len(),
            forall|k: int| 0 <= k < i ==> link_ok(ls@[k], n as int),
        decreases ls.len() - i,
    {
        let l = ls[i];
        if !(l.0 < n && l.1 < n && l.0 != l.1) {
            return false;
        }
        i += 1;
    }
    true
}

} // verus!
