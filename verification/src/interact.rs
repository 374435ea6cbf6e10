//! The interaction controller: translates per-tick pointer snapshots into
//! mutations of the world — dragging a particle, freezing one, and creating
//! links between two right-selected particles.

use vstd::prelude::*;
use crate::particle::Particle;
use crate::vec2::{diff, V2};
use crate::world::{World, MAX_TRAIL};

verus! {

/// One per-tick pointer snapshot, in simulation coordinates.
#[derive(Clone, Copy, PartialEq, Eq, Structural, Debug)]
pub struct MouseState {
    pub position: V2,
    pub left_down: bool,
    pub right_down: bool,
}

/// The controller's latches. Button release edges are detected against the
/// previous tick's snapshot, which the controller keeps itself.
#[derive(Clone, Copy, PartialEq, Eq, Debug)]
pub struct Controller {
    /// The particle currently held by the left button, if any.
    pub last_left_pressed: Option<usize>,
    /// The particle currently latched by the right button, if any.
    pub last_right_pressed: Option<usize>,
    /// The pending pair a new link is built from, first and second slot.
    pub chosen_balls: (Option<usize>, Option<usize>),
    /// True builds rigid ropes, false builds elastic springs.
    pub connection_type: bool,
    pub prev_left_down: bool,
    pub prev_right_down: bool,
}

impl Controller {
    /// Latches stay inside the particle store, and a pending pair never names
    /// the same particle twice.
    pub open spec fn wf(self, n: int) -> bool {
        &&& (self.last_left_pressed matches Some(i) ==> (i as int) < n)
        &&& (self.last_right_pressed matches Some(i) ==> (i as int) < n)
        &&& (self.chosen_balls.0 matches Some(i) ==> (i as int) < n)
        &&& (self.chosen_balls.1 matches Some(i) ==> (i as int) < n)
        &&& ((self.chosen_balls.0 is Some && self.chosen_balls.1 is Some)
            ==> self.chosen_balls.0 != self.chosen_balls.1)
        &&& (self.chosen_balls.1 is Some ==> self.chosen_balls.0 is Some)
    }

    /// A controller with nothing latched.
    pub fn new(connection_type: bool) -> (c: Controller)
        ensures
            c == (Controller {
                last_left_pressed: None,
                last_right_pressed: None,
                chosen_balls: (None, None),
                connection_type,
                prev_left_down: false,
                prev_right_down: false,
            }),
    {
        Controller {
            last_left_pressed: None,
            last_right_pressed: None,
            chosen_balls: (None, None),
            connection_type,
            prev_left_down: false,
            prev_right_down: false,
        }
    }
}

/// Whether the pointer at `m` lands on the particle: within its radius.
pub open spec fn hit(p: Particle, m: V2) -> bool {
    diff(m, p.position).norm_sq_spec() <= p.radius as int * p.radius as int
}

/// The first particle at index `k` or later that the pointer lands on.
pub open spec fn first_hit_from(ps: Seq<Particle>, m: V2, k: int) -> Option<usize>
    decreases ps.len() - k,
{
    if k < 0 || k >= ps.len() {
        None
    } else if hit(ps[k], m) {
        Some(k as usize)
    } else {
        first_hit_from(ps, m, k + 1)
    }
}

/// Skipping a miss does not change the first hit.
proof fn lemma_first_hit_skip(ps: Seq<Particle>, m: V2, k: int)
    requires
        0 <= k <= ps.len(),
        forall|j: int| 0 <= j < k ==> !hit(ps[j], m),
    ensures
        first_hit_from(ps, m, 0) == first_hit_from(ps, m, k),
    decreases k,
{
    if k > 0 {
        lemma_first_hit_skip(ps, m, k - 1);
    }
}

/// Whether the pointer lands on this particle.
fn hit_test(p: &Particle, m: V2) -> (r: bool)
    requires
        p.wf(),
        m.in_range(),
    ensures
        r == hit(*p, m),
{
    let d = m.sub(p.position);
    let nsq = d.norm_sq();
    proof {
        assert(p.radius as int * p.radius as int <= 1_000_000_000_000_000_000int
            && p.radius as int * p.radius as int >= 0) by (nonlinear_arith)
            requires 0 < p.radius as int <= 1_000_000_000int;
    }
    let rsq: i64 = p.radius * p.radius;
    nsq <= rsq as u64
}

/// The first particle in index order the pointer lands on, if any.
fn find_hit(ps: &Vec<Particle>, m: V2) -> (r: Option<usize>)
    requires
        World::particles_wf(ps@),
        m.in_range(),
    ensures
        r == first_hit_from(ps@, m, 0),
        r matches Some(i) ==> (i as int) < ps@.len(),
{
    let mut k: usize = 0;
    while k < ps.len()
        invariant
            k <= ps@.len(),
            forall|j: int| 0 <= j < k ==> !hit(ps@[j], m),
            World::particles_wf(ps@),
            m.in_range(),
        decreases ps@.len() - k,
    {
        if hit_test(&ps[k], m) {
            proof {
                lemma_first_hit_skip(ps@, m, k as int);
            }
            return Some(k);
        }
        k += 1;
    }
    proof {
        lemma_first_hit_skip(ps@, m, ps@.len() as int);
    }
    None
}

/// What one pointer snapshot does to the selection latches: a fresh press
/// latches the first particle under the pointer (a miss leaves prior state
/// unchanged), and a released button clears its own latch.
pub open spec fn select_spec(c: Controller, ps: Seq<Particle>, m: MouseState) -> Controller {
    let h = first_hit_from(ps, m.position, 0);
    let c1 = if m.left_down && c.last_left_pressed is None && h is Some {
        Controller { last_left_pressed: h, ..c }
    } else {
        c
    };
    let c2 = if m.right_down && c1.last_right_pressed is None && h is Some {
        Controller { last_right_pressed: h, ..c1 }
    } else {
        c1
    };
    let c3 = if !m.left_down {
        Controller { last_left_pressed: None, ..c2 }
    } else {
        c2
    };
    if !m.right_down {
        Controller { last_right_pressed: None, ..c3 }
    } else {
        c3
    }
}

/// Update the selection latches from one pointer snapshot.
pub fn select_ball(mouse: &MouseState, ctl: &mut Controller, particles: &Vec<Particle>)
    requires
        World::particles_wf(particles@),
        mouse.position.in_range(),
        old(ctl).wf(particles@.len() as int),
    ensures
        *final(ctl) == select_spec(*old(ctl), particles@, *mouse),
        final(ctl).wf(particles@.len() as int),
{
    let h = find_hit(particles, mouse.position);
    if mouse.left_down && ctl.last_left_pressed.is_none() && h.is_some() {
        ctl.last_left_pressed = h;
    }
    if mouse.right_down && ctl.last_right_pressed.is_none() && h.is_some() {
        ctl.last_right_pressed = h;
    }
    if !mouse.left_down {
        ctl.last_left_pressed = None;
    }
    if !mouse.right_down {
        ctl.last_right_pressed = None;
    }
}

/// What dragging does to the particle store: the held particle's position and
/// previous position are both forced to the pointer, zeroing its implicit
/// velocity.
pub open spec fn pickup_spec(c: Controller, ps: Seq<Particle>, m: MouseState) -> Seq<Particle> {
    match c.last_left_pressed {
        Some(i) => if (i as int) < ps.len() {
            ps.update(
                i as int,
                Particle { position: m.position, prev_position: m.position, ..ps[i as int] },
            )
        } else {
            ps
        },
        None => ps,
    }
}

/// Force the held particle, if any, to the pointer.
pub fn pick_up_ball(mouse: &MouseState, ctl: &Controller, world: &mut World)
    requires
        old(world).wf(),
        mouse.position.in_range(),
        ctl.wf(old(world).particles@.len() as int),
    ensures
        final(world).particles@ == pickup_spec(*ctl, old(world).particles@, *mouse),
        *final(world) == (World { particles: final(world).particles, ..*old(world) }),
        final(world).wf(),
{
    match ctl.last_left_pressed {
        Some(i) => {
            let p = world.particles[i];
            let np = Particle { position: mouse.position, prev_position: mouse.position, ..p };
            world.particles.set(i, np);
            proof {
                assert(world.particles@ =~= pickup_spec(*ctl, old(world).particles@, *mouse));
            }
        },
        None => {},
    }
}

/// What the freeze workflow does: pressing the right button while a particle
/// is right-selected freezes it in place.
pub open spec fn freeze_spec(c: Controller, ps: Seq<Particle>, m: MouseState) -> Seq<Particle> {
    match c.last_right_pressed {
        Some(i) => if m.right_down && (i as int) < ps.len() {
            ps.update(i as int, Particle { frozen: true, ..ps[i as int] })
        } else {
            ps
        },
        None => ps,
    }
}

/// Freeze the right-selected particle while the right button is down.
pub fn freeze_selected(mouse: &MouseState, ctl: &Controller, world: &mut World)
    requires
        old(world).wf(),
        ctl.wf(old(world).particles@.len() as int),
    ensures
        final(world).particles@ == freeze_spec(*ctl, old(world).particles@, *mouse),
        *final(world) == (World { particles: final(world).particles, ..*old(world) }),
        final(world).wf(),
{
    match ctl.last_right_pressed {
        Some(i) => {
            if mouse.right_down {
                let p = world.particles[i];
                world.particles.set(i, Particle { frozen: true, ..p });
                proof {
                    assert(world.particles@ =~= freeze_spec(*ctl, old(world).particles@, *mouse));
                }
            }
        },
        None => {},
    }
}

/// What the two-point link workflow does in one tick: while the right button
/// is down, an empty first slot takes the right-latched particle, then an
/// empty second slot takes it if it differs from the first; on the release
/// edge with both slots filled, a link is appended — a rope or a spring by
/// the connection type — and the pending pair is cleared.
pub open spec fn connect_spec(
    c: Controller,
    ropes: Seq<(usize, usize)>,
    springs: Seq<(usize, usize)>,
    m: MouseState,
) -> (Controller, Seq<(usize, usize)>, Seq<(usize, usize)>) {
    let c1 = if m.right_down && c.chosen_balls.0 is None && c.last_right_pressed is Some {
        Controller { chosen_balls: (c.last_right_pressed, c.chosen_balls.1), ..c }
    } else {
        c
    };
    let c2 = if m.right_down && c1.chosen_balls.1 is None && c1.last_right_pressed is Some
        && c1.chosen_balls.0 != c1.last_right_pressed {
        Controller { chosen_balls: (c1.chosen_balls.0, c1.last_right_pressed), ..c1 }
    } else {
        c1
    };
    if c.prev_right_down && !m.right_down {
        match (c2.chosen_balls.0, c2.chosen_balls.1) {
            (Some(i), Some(j)) => {
                let c3 = Controller { chosen_balls: (None, None), ..c2 };
                if c2.connection_type {
                    (c3, ropes.push((i, j)), springs)
                } else {
                    (c3, ropes, springs.push((i, j)))
                }
            },
            _ => (c2, ropes, springs),
        }
    } else {
        (c2, ropes, springs)
    }
}

/// Advance the two-point link workflow by one pointer snapshot.
pub fn connect_balls(mouse: &MouseState, ctl: &mut Controller, world: &mut World)
    requires
        old(world).wf(),
        old(ctl).wf(old(world).particles@.len() as int),
    ensures
        ({
            let (c2, ropes2, springs2) = connect_spec(
                *old(ctl),
                old(world).ropes@,
                old(world).springs@,
                *mouse,
            );
            &&& *final(ctl) == c2
            &&& final(world).ropes@ == ropes2
            &&& final(world).springs@ == springs2
        }),
        *final(world) == (World {
            ropes: final(world).ropes,
            springs: final(world).springs,
            ..*old(world)
        }),
        final(world).wf(),
        final(ctl).wf(final(world).particles@.len() as int),
{
    if mouse.right_down && ctl.chosen_balls.0.is_none() && ctl.last_right_pressed.is_some() {
        ctl.chosen_balls = (ctl.last_right_pressed, ctl.chosen_balls.1);
    }
    if mouse.right_down && ctl.chosen_balls.1.is_none() && ctl.last_right_pressed.is_some() {
        let differs = match (ctl.chosen_balls.0, ctl.last_right_pressed) {
            (Some(a), Some(b)) => a != b,
            _ => true,
        };
        if differs {
            ctl.chosen_balls = (ctl.chosen_balls.0, ctl.last_right_pressed);
        }
    }
    if ctl.prev_right_down && !mouse.right_down {
        match (ctl.chosen_balls.0, ctl.chosen_balls.1) {
            (Some(i), Some(j)) => {
                if ctl.connection_type {
                    world.ropes.push((i, j));
                } else {
                    world.springs.push((i, j));
                }
                ctl.chosen_balls = (None, None);
            },
            _ => {},
        }
    }
}

/// The trail buffer trimmed to its bound: the oldest entries leave first.
pub open spec fn trim_spec(trail: Seq<V2>) -> Seq<V2> {
    if trail.len() > MAX_TRAIL {
        trail.skip(trail.len() - MAX_TRAIL as int)
    } else {
        trail
    }
}

/// One external tick: read the pointer, solve physics unless paused, then
/// apply the drag and link effects that must win over the physics result, and
/// trim the trail buffer.
pub fn update(mouse: &MouseState, ctl: &mut Controller, world: &mut World)
    requires
        old(world).wf(),
        mouse.position.in_range(),
        old(ctl).wf(old(world).particles@.len() as int),
    ensures
        ({
            let c1 = select_spec(*old(ctl), old(world).particles@, *mouse);
            let ps1 = if old(world).paused {
                old(world).particles@
            } else {
                old(world).solve_spec()
            };
            let trail1 = if old(world).paused {
                old(world).trail@
            } else {
                match old(world).trail_index {
                    Some(t) => old(world).trail@.push(ps1[t as int].position),
                    None => old(world).trail@,
                }
            };
            let ps2 = pickup_spec(c1, ps1, *mouse);
            let (c2, ropes2, springs2) = connect_spec(
                c1,
                old(world).ropes@,
                old(world).springs@,
                *mouse,
            );
            &&& final(world).particles@ == ps2
            &&& final(world).ropes@ == ropes2
            &&& final(world).springs@ == springs2
            &&& final(world).trail@ == trim_spec(trail1)
            &&& *final(ctl) == (Controller {
                prev_left_down: mouse.left_down,
                prev_right_down: mouse.right_down,
                ..c2
            })
        }),
        *final(world) == (World {
            particles: final(world).particles,
            ropes: final(world).ropes,
            springs: final(world).springs,
            trail: final(world).trail,
            ..*old(world)
        }),
        final(world).wf(),
        final(world).trail@.len() <= MAX_TRAIL,
        final(ctl).wf(final(world).particles@.len() as int),
{
    select_ball(mouse, ctl, &world.particles);
    if !world.paused {
        world.solver();
    }
    pick_up_ball(mouse, ctl, world);
    connect_balls(mouse, ctl, world);
    let ghost trail1 = world.trail@;
    let ghost pre_trim = *world;
    while world.trail.len() > MAX_TRAIL
        invariant
            trim_spec(trail1) == trim_spec(world.trail@),
            world.trail@.len() <= trail1.len(),
            *world == (World { trail: world.trail, ..pre_trim }),
            pre_trim.wf(),
        decreases world.trail@.len(),
    {
        let ghost before = world.trail@;
        world.trail.remove(0);
        proof {
            assert(world.trail@ =~= before.skip(1));
            assert(trim_spec(trail1) =~= trim_spec(world.trail@));
        }
    }
    proof {
        assert(world.trail@ =~= trim_spec(trail1));
    }
    ctl.prev_left_down = mouse.left_down;
    ctl.prev_right_down = mouse.right_down;
}

} // verus!
