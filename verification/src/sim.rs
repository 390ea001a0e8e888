//! The simulation context: the particle store, the simulation clock and the
//! pointer state, with the operations external collaborators drive.
//!
//! One external time-advance signal triggers exactly one step: the force
//! pass, then the integrator, strictly in that order, synchronously and to
//! completion. A render snapshot therefore always observes a fully pre-step
//! or fully post-step world. The spawner only ever appends between steps.

use vstd::prelude::*;
use crate::fixed::{DT_MAX, INITIAL_PREV_DT, MASS_MAX, MAX_PARTICLES, POS_LIMIT};
use crate::gravity::{accumulate_forces, lemma_lone_particle_no_force, with_net_accel};
use crate::particle::{particle_ready, spawned_particle, vec2_zero, Particle, Vec2};
use crate::verlet::{
    integrate, lemma_rest_particle_stays, step_particle, timescale, timesq,
};

verus! {

/// The whole simulation state.
pub struct Simulation {
    /// The particle store; it owns every particle record exclusively.
    pub particles: Vec<Particle>,
    /// The frame delta the previous step used, seeded with
    /// [`INITIAL_PREV_DT`] so the first step has a valid timestep ratio;
    /// never zero.
    pub prev_dt: i64,
    /// Latest known pointer position; `None` while the pointer is off the
    /// surface. Purely advisory input for the spawner.
    pub pointer: Option<Vec2>,
}

impl Simulation {
    /// State consistency between steps: the store is within its capacity,
    /// every particle is well-formed with a cleared force accumulator, and
    /// the clock holds a usable previous delta.
    pub open spec fn wf(self) -> bool {
        &&& self.particles@.len() <= MAX_PARTICLES as int
        &&& forall|k: int| 0 <= k < self.particles@.len()
            ==> particle_ready(#[trigger] self.particles@[k])
        &&& 0 < self.prev_dt as int <= DT_MAX as int
    }

    /// Particle `k` as one full step over the stored particles leaves it:
    /// accumulator filled by the force pass, then integrated and cleared.
    pub open spec fn advanced_particle(ps: Seq<Particle>, k: int, dt: int, prev_dt: int)
        -> Particle {
        step_particle(with_net_accel(ps, k), timescale(dt, prev_dt), timesq(dt))
    }

    /// An empty world with the seeded clock and no pointer.
    pub fn new() -> (s: Simulation)
        ensures
            s.wf(),
            s.particles@.len() == 0,
            s.prev_dt == INITIAL_PREV_DT,
            s.pointer is None,
    {
        Simulation { particles: Vec::new(), prev_dt: INITIAL_PREV_DT, pointer: None }
    }

    /// Number of live particles.
    pub fn particle_count(&self) -> (n: usize)
        ensures
            n == self.particles@.len(),
    {
        self.particles.len()
    }

    /// The spawner: appends exactly one particle at `position` with `mass`.
    /// A non-positive mass is rejected (the store must never hold one: it
    /// would break the force law), as is a full store; an over-large mass or
    /// an out-of-world position is clamped, per [`spawned_particle`]. Nothing
    /// else in the store is touched.
    pub fn spawn_at(&mut self, position: Vec2, mass: i64) -> (ok: bool)
        requires
            old(self).wf(),
        ensures
            final(self).wf(),
            final(self).prev_dt == old(self).prev_dt,
            final(self).pointer == old(self).pointer,
            ok == (mass as int > 0 && old(self).particles@.len() < MAX_PARTICLES as int),
            ok ==> final(self).particles@ == old(self).particles@.push(
                spawned_particle(position.x as int, position.y as int, mass as int),
            ),
            !ok ==> *final(self) == *old(self),
    {
        if mass <= 0 {
            return false;
        }
        if self.particles.len() >= MAX_PARTICLES {
            return false;
        }
        let m: i64 = if mass > MASS_MAX {
            MASS_MAX
        } else {
            mass
        };
        let cx: i64 = if position.x < -POS_LIMIT {
            -POS_LIMIT
        } else if position.x > POS_LIMIT {
            POS_LIMIT
        } else {
            position.x
        };
        let cy: i64 = if position.y < -POS_LIMIT {
            -POS_LIMIT
        } else if position.y > POS_LIMIT {
            POS_LIMIT
        } else {
            position.y
        };
        let p = Particle {
            position: Vec2 { x: cx, y: cy },
            prev_position: Vec2 { x: cx, y: cy },
            mass: m,
            acceleration: Vec2 { x: 0, y: 0 },
        };
        proof {
            assert(p == spawned_particle(position.x as int, position.y as int, mass as int));
        }
        self.particles.push(p);
        true
    }

    /// Records the latest pointer position (or its leaving the surface);
    /// touches nothing else.
    pub fn set_pointer(&mut self, position: Option<Vec2>)
        requires
            old(self).wf(),
        ensures
            final(self).wf(),
            final(self).pointer == position,
            final(self).particles@ == old(self).particles@,
            final(self).prev_dt == old(self).prev_dt,
    {
        self.pointer = position;
    }

    /// The external click signal: spawns one particle at the current pointer
    /// position with a random mass in `[5.0, 50.0)`, and is a no-op while the
    /// pointer position is unknown or the store is full.
    pub fn trigger_spawn(&mut self) -> (ok: bool)
        requires
            old(self).wf(),
        ensures
            final(self).wf(),
            final(self).prev_dt == old(self).prev_dt,
            final(self).pointer == old(self).pointer,
            ok == (old(self).pointer is Some
                && old(self).particles@.len() < MAX_PARTICLES as int),
            ok ==> exists|px: i64, py: i64, m: i64|
                old(self).pointer == Some(Vec2 { x: px, y: py })
                && 5_000_000 <= m as int && (m as int) < 50_000_000
                && final(self).particles@ == old(self).particles@.push(
                    spawned_particle(px as int, py as int, m as int),
                ),
            !ok ==> *final(self) == *old(self),
    {
        match self.pointer {
            None => false,
            Some(pt) => {
                let m: i64 = random_in_range(5_000_000, 50_000_000) as i64;
                let ok = self.spawn_at(pt, m);
                proof {
                    if ok {
                        assert(old(self).pointer == Some(Vec2 { x: pt.x, y: pt.y }));
                    }
                }
                ok
            },
        }
    }

    /// One full simulation step for the frame delta `dt`: the force pass
    /// writes every particle's accumulator, the integrator advances every
    /// position and clears every accumulator, and the clock shifts `dt` into
    /// `prev_dt`. A degenerate delta (non-positive, or beyond [`DT_MAX`])
    /// would corrupt the state irrecoverably, so the step is skipped and
    /// `false` returned; the caller may surface a warning.
    pub fn advance(&mut self, dt: i64) -> (stepped: bool)
        requires
            old(self).wf(),
        ensures
            final(self).wf(),
            stepped == (0 < dt as int <= DT_MAX as int),
            !stepped ==> *final(self) == *old(self),
            stepped ==> {
                &&& final(self).prev_dt == dt
                &&& final(self).pointer == old(self).pointer
                &&& final(self).particles@.len() == old(self).particles@.len()
                &&& forall|k: int| 0 <= k < old(self).particles@.len()
                    ==> final(self).particles@[k] == Self::advanced_particle(
                        old(self).particles@,
                        k,
                        dt as int,
                        old(self).prev_dt as int,
                    )
            },
    {
        if dt <= 0 || dt > DT_MAX {
            return false;
        }
        accumulate_forces(&mut self.particles);
        integrate(&mut self.particles, dt, self.prev_dt);
        self.prev_dt = dt;
        true
    }

    /// Read-only render view: position and mass of every particle, in store
    /// order. Render radius is conventionally the square root of the mass;
    /// taking it is the renderer's business, not the simulation's.
    pub fn snapshot(&self) -> (v: Vec<(i64, i64, i64)>)
        ensures
            v@.len() == self.particles@.len(),
            forall|k: int| 0 <= k < v@.len() ==> v@[k] == (
                self.particles@[k].position.x,
                self.particles@[k].position.y,
                self.particles@[k].mass,
            ),
    {
        let mut v: Vec<(i64, i64, i64)> = Vec::new();
        let n: usize = self.particles.len();
        let mut i: usize = 0;
        while i < n
            invariant
                n == self.particles@.len(),
                i <= n,
                v@.len() == i,
                forall|k: int| 0 <= k < i ==> v@[k] == (
                    self.particles@[k].position.x,
                    self.particles@[k].position.y,
                    self.particles@[k].mass,
                ),
            decreases n - i,
        {
            let p = &self.particles[i];
            v.push((p.position.x, p.position.y, p.mass));
            i = i + 1;
        }
        v
    }
}

/// The world the program starts with: the seeded clock and one particle at
/// `(50.0, 50.0)` with mass `10.0`.
pub fn build_world() -> (s: Simulation)
    ensures
        s.wf(),
        s.particles@.len() == 1,
        s.particles@[0] == spawned_particle(50_000_000, 50_000_000, 10_000_000),
        s.prev_dt == INITIAL_PREV_DT,
        s.pointer is None,
{
    let mut s = Simulation::new();
    s.spawn_at(Vec2 { x: 50_000_000, y: 50_000_000 }, 10_000_000);
    s
}

/// The zero-force baseline: a particle alone in the world, at rest (its
/// previous position equal to its position) and with a cleared accumulator,
/// accumulates no force in a step and does not move, for any frame deltas.
/// Since the stepped particle is again at rest with a cleared accumulator,
/// this holds of every later step as well.
pub proof fn lemma_single_particle_rest(ps: Seq<Particle>, dt: int, prev_dt: int)
    requires
        ps.len() == 1,
        particle_ready(ps[0]),
        ps[0].prev_position == ps[0].position,
    ensures
        Simulation::advanced_particle(ps, 0, dt, prev_dt).position == ps[0].position,
        Simulation::advanced_particle(ps, 0, dt, prev_dt).prev_position == ps[0].position,
        Simulation::advanced_particle(ps, 0, dt, prev_dt).acceleration == vec2_zero(),
{
    lemma_lone_particle_no_force(ps);
    let filled = with_net_accel(ps, 0);
    assert(filled.acceleration == vec2_zero());
    assert(filled == ps[0]);
    lemma_rest_particle_stays(filled, timescale(dt, prev_dt), timesq(dt));
}

/// Relies on `rand::random_range` over `lo..hi`: a draw from the
/// thread-local generator, uniform in the half-open range `[lo, hi)`. It
/// panics only on an empty range, which the precondition rules out.
#[verifier::external_body]
fn random_in_range(lo: u64, hi: u64) -> (r: u64)
    requires
        lo < hi,
    ensures
        lo <= r < hi,
{
    rand::random_range(lo..hi)
}

} // verus!
