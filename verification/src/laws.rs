//! Global facts about the solver, proved from the pass definitions: frozen
//! particles are invariant under a whole solve pass, and an overlapping
//! axis-aligned pair is separated by one ordered collision resolution.

use vstd::prelude::*;
use crate::num::{
    absi, div_tz, fp_div, half, lemma_div_tz_bound, lemma_div_tz_exact, lemma_sqrt_of_square,
    SCALE,
};
use crate::particle::Particle;
use crate::world::{
    boundary_spec, collide_step, collision_corr, collisions_upto, gravity_spec, link_ok,
    particle_step, pass_upto, rope_step, ropes_relax, ropes_upto, solve_upto, spring_step,
    springs_upto, World,
};

verus! {

/// `qs` keeps every frozen flag of `ps`, and keeps every frozen particle of
/// `ps` whole.
pub open spec fn frozen_preserved(ps: Seq<Particle>, qs: Seq<Particle>) -> bool {
    &&& qs.len() == ps.len()
    &&& forall|i: int| 0 <= i < ps.len() ==> qs[i].frozen == ps[i].frozen
    &&& forall|i: int| 0 <= i < ps.len() && ps[i].frozen ==> qs[i] == ps[i]
}

proof fn lemma_frozen_trans(a: Seq<Particle>, b: Seq<Particle>, c: Seq<Particle>)
    requires
        frozen_preserved(a, b),
        frozen_preserved(b, c),
    ensures
        frozen_preserved(a, c),
{
}

proof fn lemma_collide_step_frozen(ps: Seq<Particle>, p: int, p2: int)
    ensures
        frozen_preserved(ps, collide_step(ps, p, p2)),
{
}

proof fn lemma_collisions_upto_frozen(ps: Seq<Particle>, p: int, k: int)
    ensures
        frozen_preserved(ps, collisions_upto(ps, p, k)),
    decreases k,
{
    if k > 0 {
        lemma_collisions_upto_frozen(ps, p, k - 1);
        lemma_collide_step_frozen(collisions_upto(ps, p, k - 1), p, k - 1);
        lemma_frozen_trans(
            ps,
            collisions_upto(ps, p, k - 1),
            collisions_upto(ps, p, k),
        );
    }
}

proof fn lemma_rope_step_frozen(ps: Seq<Particle>, l: (usize, usize), rest: int)
    ensures
        frozen_preserved(ps, rope_step(ps, l, rest)),
{
}

proof fn lemma_ropes_upto_frozen(ps: Seq<Particle>, ropes: Seq<(usize, usize)>, rest: int, k: int)
    ensures
        frozen_preserved(ps, ropes_upto(ps, ropes, rest, k)),
    decreases k,
{
    if k > 0 {
        lemma_ropes_upto_frozen(ps, ropes, rest, k - 1);
        lemma_rope_step_frozen(ropes_upto(ps, ropes, rest, k - 1), ropes[k - 1], rest);
        lemma_frozen_trans(ps, ropes_upto(ps, ropes, rest, k - 1), ropes_upto(ps, ropes, rest, k));
    }
}

proof fn lemma_ropes_relax_frozen(
    ps: Seq<Particle>,
    ropes: Seq<(usize, usize)>,
    rest: int,
    iters: int,
)
    ensures
        frozen_preserved(ps, ropes_relax(ps, ropes, rest, iters)),
    decreases iters,
{
    if iters > 0 {
        let mid = ropes_relax(ps, ropes, rest, iters - 1);
        lemma_ropes_relax_frozen(ps, ropes, rest, iters - 1);
        lemma_ropes_upto_frozen(mid, ropes, rest, ropes.len() as int);
        lemma_frozen_trans(ps, mid, ropes_relax(ps, ropes, rest, iters));
    }
}

proof fn lemma_spring_step_frozen(ps: Seq<Particle>, l: (usize, usize), rest: int, stiff: int)
    ensures
        frozen_preserved(ps, spring_step(ps, l, rest, stiff)),
{
}

proof fn lemma_springs_upto_frozen(
    ps: Seq<Particle>,
    springs: Seq<(usize, usize)>,
    rest: int,
    stiff: int,
    k: int,
)
    ensures
        frozen_preserved(ps, springs_upto(ps, springs, rest, stiff, k)),
    decreases k,
{
    if k > 0 {
        let mid = springs_upto(ps, springs, rest, stiff, k - 1);
        lemma_springs_upto_frozen(ps, springs, rest, stiff, k - 1);
        lemma_spring_step_frozen(mid, springs[k - 1], rest, stiff);
        lemma_frozen_trans(ps, mid, springs_upto(ps, springs, rest, stiff, k));
    }
}

proof fn lemma_particle_step_frozen(
    ps: Seq<Particle>,
    ropes: Seq<(usize, usize)>,
    springs: Seq<(usize, usize)>,
    boundary: int,
    rest: int,
    stiff: int,
    substeps: int,
    sub_dt: int,
    p: int,
)
    ensures
        frozen_preserved(
            ps,
            particle_step(ps, ropes, springs, boundary, rest, stiff, substeps, sub_dt, p),
        ),
{
    if 0 <= p < ps.len() {
        let ps1 = ps.update(p, gravity_spec(ps[p]));
        let ps2 = ps1.update(p, boundary_spec(ps1[p], boundary));
        let ps3 = collisions_upto(ps2, p, ps2.len() as int);
        let ps4 = ropes_relax(ps3, ropes, rest, substeps);
        let ps5 = springs_upto(ps4, springs, rest, stiff, springs.len() as int);
        assert(frozen_preserved(ps, ps1));
        assert(frozen_preserved(ps1, ps2));
        lemma_collisions_upto_frozen(ps2, p, ps2.len() as int);
        lemma_ropes_relax_frozen(ps3, ropes, rest, substeps);
        lemma_springs_upto_frozen(ps4, springs, rest, stiff, springs.len() as int);
        lemma_frozen_trans(ps, ps1, ps2);
        lemma_frozen_trans(ps, ps2, ps3);
        lemma_frozen_trans(ps, ps3, ps4);
        lemma_frozen_trans(ps, ps4, ps5);
        assert(frozen_preserved(ps5, ps5.update(p, ps5[p].verlet_spec(sub_dt))));
        lemma_frozen_trans(
            ps,
            ps5,
            particle_step(ps, ropes, springs, boundary, rest, stiff, substeps, sub_dt, p),
        );
    }
}

proof fn lemma_pass_upto_frozen(
    ps: Seq<Particle>,
    ropes: Seq<(usize, usize)>,
    springs: Seq<(usize, usize)>,
    boundary: int,
    rest: int,
    stiff: int,
    substeps: int,
    sub_dt: int,
    k: int,
)
    ensures
        frozen_preserved(
            ps,
            pass_upto(ps, ropes, springs, boundary, rest, stiff, substeps, sub_dt, k),
        ),
    decreases k,
{
    if k > 0 {
        let mid = pass_upto(ps, ropes, springs, boundary, rest, stiff, substeps, sub_dt, k - 1);
        lemma_pass_upto_frozen(ps, ropes, springs, boundary, rest, stiff, substeps, sub_dt, k - 1);
        lemma_particle_step_frozen(
            mid,
            ropes,
            springs,
            boundary,
            rest,
            stiff,
            substeps,
            sub_dt,
            k - 1,
        );
        lemma_frozen_trans(
            ps,
            mid,
            pass_upto(ps, ropes, springs, boundary, rest, stiff, substeps, sub_dt, k),
        );
    }
}

proof fn lemma_solve_upto_frozen(
    ps: Seq<Particle>,
    ropes: Seq<(usize, usize)>,
    springs: Seq<(usize, usize)>,
    boundary: int,
    rest: int,
    stiff: int,
    substeps: int,
    sub_dt: int,
    k: int,
)
    ensures
        frozen_preserved(
            ps,
            solve_upto(ps, ropes, springs, boundary, rest, stiff, substeps, sub_dt, k),
        ),
    decreases k,
{
    if k > 0 {
        let mid = solve_upto(ps, ropes, springs, boundary, rest, stiff, substeps, sub_dt, k - 1);
        lemma_solve_upto_frozen(ps, ropes, springs, boundary, rest, stiff, substeps, sub_dt, k - 1);
        lemma_pass_upto_frozen(
            mid,
            ropes,
            springs,
            boundary,
            rest,
            stiff,
            substeps,
            sub_dt,
            mid.len() as int,
        );
        lemma_frozen_trans(
            ps,
            mid,
            solve_upto(ps, ropes, springs, boundary, rest, stiff, substeps, sub_dt, k),
        );
    }
}

/// Frozen invariance: a frozen particle has identical position, previous
/// position, acceleration — its whole state — before and after a solve pass,
/// whatever gravity, collisions or links act on it, and no solve pass ever
/// freezes or unfreezes a particle.
pub proof fn lemma_frozen_invariance(w: World)
    ensures
        w.solve_spec().len() == w.particles@.len(),
        forall|i: int|
            0 <= i < w.particles@.len() ==> w.solve_spec()[i].frozen == w.particles@[i].frozen,
        forall|i: int|
            0 <= i < w.particles@.len() && w.particles@[i].frozen ==> w.solve_spec()[i]
                == w.particles@[i],
{
    lemma_solve_upto_frozen(
        w.particles@,
        w.ropes@,
        w.springs@,
        w.boundary_radius as int,
        w.rest_length as int,
        w.stiffness as int,
        w.substeps as int,
        w.sub_dt_spec(),
        w.substeps as int,
    );
}

/// Collision separation for an axis-aligned pair: one ordered resolution of
/// an unfrozen pair whose centres share a `y` coordinate leaves their
/// distance at least the sum of their radii, less one milli-unit of rounding.
/// The coordinate bounds keep the corrected positions away from the clamp.
pub proof fn lemma_collision_separation_aligned(ps: Seq<Particle>, p: int, p2: int)
    requires
        0 <= p < ps.len(),
        0 <= p2 < ps.len(),
        p != p2,
        !ps[p].frozen,
        !ps[p2].frozen,
        ps[p].wf(),
        ps[p2].wf(),
        ps[p].position.y == ps[p2].position.y,
        absi(ps[p].position.x as int) <= 400_000_000,
        absi(ps[p2].position.x as int) <= 400_000_000,
        ps[p].radius as int + ps[p2].radius as int <= 200_000_000,
    ensures
        ({
            let qs = collide_step(ps, p, p2);
            let sep = qs[p2].position.x as int - qs[p].position.x as int;
            &&& qs[p].position.y == ps[p].position.y
            &&& qs[p2].position.y == ps[p2].position.y
            &&& absi(sep) >= ps[p].radius as int + ps[p2].radius as int - 1
        }),
{
    let a = ps[p];
    let b = ps[p2];
    let t = b.position.x as int - a.position.x as int;
    let to = crate::vec2::diff(b.position, a.position);
    assert(to.x as int == t && to.y as int == 0);
    assert(to.norm_sq_spec() == t * t) by (nonlinear_arith)
        requires to.x as int == t && to.y as int == 0 && to.norm_sq_spec() == to.x as int
            * to.x as int + to.y as int * to.y as int;
    lemma_sqrt_of_square(t);
    let dist = crate::num::sqrt_of(to.norm_sq_spec());
    assert(dist == absi(t));
    let rsum = a.radius as int + b.radius as int;
    let mv = collision_corr(a, b);
    if dist < rsum {
        let delta = rsum - dist;
        let s = half(delta);
        lemma_div_tz_bound(delta, 2);
        assert(2 * s >= delta - 1 && s >= 0 && s <= delta);
        // The pair is aligned, so the normal's y component is zero and the
        // correction stays on the x axis.
        let n = crate::vec2::unit_toward_spec(to, dist);
        assert(to.y as int * SCALE as int == 0) by (nonlinear_arith)
            requires to.y as int == 0;
        if dist > 0 {
            assert(0int / dist == 0) by (nonlinear_arith)
                requires dist > 0;
        }
        assert(n.y as int == 0);
        assert(s * (n.y as int) == 0) by (nonlinear_arith)
            requires n.y as int == 0;
        assert(0int / SCALE as int == 0) by (nonlinear_arith);
        assert(mv.y as int == 0);
        if t == 0 {
            // Coincident centres: the fallback direction is the x axis.
            assert(n.x as int == SCALE as int);
            lemma_div_tz_exact(s, SCALE as int);
            assert(mv.x as int == s);
        } else if t > 0 {
            assert(dist == t);
            lemma_div_tz_exact(SCALE as int, t);
            assert(t * SCALE as int == SCALE as int * t) by (nonlinear_arith);
            assert(crate::num::div_tz(t * SCALE as int, t) == SCALE as int);
            lemma_div_tz_exact(s, SCALE as int);
            assert(mv.x as int == s);
        } else {
            assert(dist == -t);
            lemma_div_tz_exact(-(SCALE as int), -t);
            assert(t * SCALE as int == (-(SCALE as int)) * (-t)) by (nonlinear_arith);
            assert(crate::num::div_tz(t * SCALE as int, -t) == -(SCALE as int));
            lemma_div_tz_exact(-s, SCALE as int);
            assert(s * (-(SCALE as int)) == (-s) * SCALE as int) by (nonlinear_arith);
            assert(mv.x as int == -s);
        }
    } else {
        assert(mv.x as int == 0 && mv.y as int == 0);
    }
}

/// A collision resolution of a pair that does not overlap changes nothing:
/// the evaluator owes a push only to overlapping pairs.
pub proof fn lemma_collision_no_overlap_noop(ps: Seq<Particle>, p: int, p2: int)
    requires
        0 <= p < ps.len(),
        0 <= p2 < ps.len(),
        p != p2,
        ps[p].wf(),
        ps[p2].wf(),
        crate::num::sqrt_of(
            crate::vec2::diff(ps[p2].position, ps[p].position).norm_sq_spec(),
        ) >= ps[p].radius as int + ps[p2].radius as int,
    ensures
        collide_step(ps, p, p2) =~= ps,
{
    let mv = collision_corr(ps[p], ps[p2]);
    assert(mv.x as int == 0 && mv.y as int == 0);
    assert(collide_step(ps, p, p2) =~= ps);
}

/// A truncating division by a mass of at least one unit keeps the sign and
/// never grows past the dividend's unit-scaled magnitude.
proof fn lemma_mass_div(c: int, m: int)
    requires
        SCALE as int <= m,
    ensures
        absi(fp_div(c, m)) <= absi(c),
        c >= 0 ==> fp_div(c, m) >= 0,
        c <= 0 ==> fp_div(c, m) <= 0,
{
    let s = SCALE as int;
    crate::num::lemma_abs_mul(c, s);
    lemma_div_tz_bound(c * s, m);
    let u = div_tz(c * s, m);
    assert(absi(u) <= absi(c)) by (nonlinear_arith)
        requires
            absi(u) * m <= absi(c) * s,
            0 <= absi(u),
            0 <= absi(c),
            1 <= s <= m,
    ;
    if c >= 0 {
        assert(c * s >= 0) by (nonlinear_arith)
            requires c >= 0 && s > 0;
    } else {
        assert(c * s <= 0) by (nonlinear_arith)
            requires c <= 0 && s > 0;
    }
}

/// Rigid link convergence, one relaxation at a time: applying a rope between
/// an axis-aligned unfrozen pair whose masses are at least one unit never
/// moves their distance further from the rest length. Repeated relaxation —
/// `substeps` passes per substep, every substep, every tick — therefore
/// approaches the rest length monotonically for such a pair.
pub proof fn lemma_rope_step_contracts_aligned(ps: Seq<Particle>, l: (usize, usize), rest: int)
    requires
        link_ok(l, ps.len() as int),
        !ps[l.0 as int].frozen,
        !ps[l.1 as int].frozen,
        ps[l.0 as int].wf(),
        ps[l.1 as int].wf(),
        ps[l.0 as int].position.y == ps[l.1 as int].position.y,
        absi(ps[l.0 as int].position.x as int) <= 400_000_000,
        absi(ps[l.1 as int].position.x as int) <= 400_000_000,
        SCALE as int <= ps[l.0 as int].radius as int,
        SCALE as int <= ps[l.1 as int].radius as int,
        0 <= rest <= 100_000_000,
    ensures
        ({
            let qs = rope_step(ps, l, rest);
            let d0 = absi(ps[l.0 as int].position.x as int - ps[l.1 as int].position.x as int);
            let d1 = absi(qs[l.0 as int].position.x as int - qs[l.1 as int].position.x as int);
            &&& qs[l.0 as int].position.y == ps[l.0 as int].position.y
            &&& qs[l.1 as int].position.y == ps[l.1 as int].position.y
            &&& absi(d1 - rest) <= absi(d0 - rest)
        }),
{
    let i = l.0 as int;
    let j = l.1 as int;
    let a = ps[i];
    let b = ps[j];
    let t = a.position.x as int - b.position.x as int;
    let to = crate::vec2::diff(a.position, b.position);
    assert(to.x as int == t && to.y as int == 0);
    assert(to.norm_sq_spec() == t * t) by (nonlinear_arith)
        requires to.x as int == t && to.y as int == 0 && to.norm_sq_spec() == to.x as int
            * to.x as int + to.y as int * to.y as int;
    lemma_sqrt_of_square(t);
    let dist = crate::num::sqrt_of(to.norm_sq_spec());
    assert(dist == absi(t));
    let e = dist - rest;
    let s = half(e);
    lemma_div_tz_bound(e, 2);
    assert(2 * absi(s) <= absi(e) && (e >= 0 ==> s >= 0) && (e <= 0 ==> s <= 0));
    let n = crate::vec2::unit_toward_spec(to, dist);
    let c = Particle::line_corr(a, b, rest);

    // The normal's y component is zero, so the correction stays on the axis.
    assert(to.y as int * SCALE as int == 0) by (nonlinear_arith)
        requires to.y as int == 0;
    if dist > 0 {
        assert(0int / dist == 0) by (nonlinear_arith)
            requires dist > 0;
    }
    assert(n.y as int == 0);
    assert(n.y as int * s == 0) by (nonlinear_arith)
        requires n.y as int == 0;
    assert(0int / SCALE as int == 0) by (nonlinear_arith);
    assert(c.y as int == 0);
    lemma_mass_div(0, a.radius as int);
    lemma_mass_div(0, b.radius as int);

    // The correction's x component is exactly `s`, signed along the pair.
    if t == 0 {
        assert(n.x as int == SCALE as int);
        assert(SCALE as int * s == s * SCALE as int) by (nonlinear_arith);
        lemma_div_tz_exact(s, SCALE as int);
        assert(c.x as int == s);
    } else if t > 0 {
        assert(dist == t);
        lemma_div_tz_exact(SCALE as int, t);
        assert(t * SCALE as int == SCALE as int * t) by (nonlinear_arith);
        assert(n.x as int == SCALE as int);
        assert(SCALE as int * s == s * SCALE as int) by (nonlinear_arith);
        lemma_div_tz_exact(s, SCALE as int);
        assert(c.x as int == s);
    } else {
        assert(dist == -t);
        lemma_div_tz_exact(-(SCALE as int), -t);
        assert(t * SCALE as int == (-(SCALE as int)) * (-t)) by (nonlinear_arith);
        assert(n.x as int == -(SCALE as int));
        assert((-(SCALE as int)) * s == (-s) * SCALE as int) by (nonlinear_arith);
        lemma_div_tz_exact(-s, SCALE as int);
        assert(c.x as int == -s);
    }

    // Each endpoint's displacement keeps the sign of the correction and its
    // magnitude stays within `|s|`, because both masses are at least SCALE.
    let u1 = fp_div(c.x as int, a.radius as int);
    let u2 = fp_div(c.x as int, b.radius as int);
    lemma_mass_div(c.x as int, a.radius as int);
    lemma_mass_div(c.x as int, b.radius as int);
    assert(absi(u1) <= absi(s) && absi(u2) <= absi(s));

    // No clamp fires: every corrected coordinate stays in range.
    assert(absi(s) <= 450_000_000);
}

} // verus!
