//! The particle record and its well-formedness predicates.

use vstd::prelude::*;
use crate::fixed::{clamp_pos, ACCEL_LIMIT, MASS_MAX, POS_LIMIT};

verus! {

/// A 2D vector in raw fixed-point ticks.
#[derive(Clone, Copy, PartialEq, Eq, Structural, Debug)]
pub struct Vec2 {
    pub x: i64,
    pub y: i64,
}

/// A point mass. `prev_position` is the location one step ago: the integrator
/// derives the implicit velocity from `position - prev_position`, so no
/// explicit velocity field exists. `acceleration` is the per-step force
/// accumulator; it is zero between steps.
#[derive(Clone, Copy, PartialEq, Eq, Structural, Debug)]
pub struct Particle {
    pub position: Vec2,
    pub prev_position: Vec2,
    pub mass: i64,
    pub acceleration: Vec2,
}

/// The zero vector.
pub open spec fn vec2_zero() -> Vec2 {
    Vec2 { x: 0, y: 0 }
}

/// Both coordinates lie within the world bounds.
pub open spec fn in_world(v: Vec2) -> bool {
    &&& -(POS_LIMIT as int) <= v.x as int <= POS_LIMIT as int
    &&& -(POS_LIMIT as int) <= v.y as int <= POS_LIMIT as int
}

/// Field bounds every live particle satisfies at all times, mid-step
/// included: positions within the world, mass strictly positive and capped,
/// the force accumulator within the range the pair bound guarantees.
pub open spec fn particle_bounded(p: Particle) -> bool {
    &&& in_world(p.position)
    &&& in_world(p.prev_position)
    &&& 0 < p.mass as int <= MASS_MAX as int
    &&& iabs_le(p.acceleration.x as int, ACCEL_LIMIT as int)
    &&& iabs_le(p.acceleration.y as int, ACCEL_LIMIT as int)
}

/// `-bound <= v <= bound`.
pub open spec fn iabs_le(v: int, bound: int) -> bool {
    -bound <= v <= bound
}

/// A particle as it stands between steps: bounded, with a cleared force
/// accumulator, ready for the next force pass.
pub open spec fn particle_ready(p: Particle) -> bool {
    &&& particle_bounded(p)
    &&& p.acceleration == vec2_zero()
}

/// The record a spawn request for position `(x, y)` and mass `m` creates:
/// the position is clamped into the world bounds, `prev_position` equals the
/// position (so the initial velocity is zero), the mass is clamped down to
/// `MASS_MAX`, and the accumulator starts at zero. A non-positive mass never
/// reaches this: the spawner rejects it.
pub open spec fn spawned_particle(x: int, y: int, m: int) -> Particle {
    Particle {
        position: Vec2 { x: clamp_pos(x) as i64, y: clamp_pos(y) as i64 },
        prev_position: Vec2 { x: clamp_pos(x) as i64, y: clamp_pos(y) as i64 },
        mass: (if m > MASS_MAX as int { MASS_MAX as int } else { m }) as i64,
        acceleration: Vec2 { x: 0, y: 0 },
    }
}

} // verus!
