//! The Störmer–Verlet position integrator with variable-timestep correction.
//!
//! For each particle, with `timescale = dt / prev_dt` and `timesq = dt * dt`
//! (both in fixed point):
//!
//! ```text
//! new_pos  = pos + (pos - prev_pos) * timescale + accel * timesq
//! prev_pos = pos            (the value before this update)
//! accel    = (0, 0)
//! ```
//!
//! Velocity is implicit in `pos - prev_pos`, so `prev_pos` must receive the
//! pre-step position, never the post-step one. New positions are clamped into
//! the world bounds, the documented policy for particles that would leave the
//! world. The whole step is exact integer arithmetic: identical inputs give
//! bit-identical outputs on every run.

use vstd::prelude::*;
use vstd::arithmetic::div_mod::{lemma_div_is_ordered, lemma_fundamental_div_mod, lemma_mod_bound};
use crate::fixed::{
    clamp_pos, iabs, lemma_s_div_abs, lemma_s_div_odd, s_div, scale_div_prod, ACCEL_LIMIT,
    DT_MAX, POS_LIMIT, SCALE,
};
use crate::particle::{
    in_world, particle_bounded, particle_ready, vec2_zero, Particle, Vec2,
};

verus! {

/// Fixed-point ratio `dt / prev_dt`, the correction for non-uniform frame
/// pacing. Meaningful only for a positive `prev_dt`; the clock never holds
/// zero there.
pub open spec fn timescale(dt: int, prev_dt: int) -> int {
    s_div(dt * SCALE as int, prev_dt)
}

/// Fixed-point square `dt * dt`.
pub open spec fn timesq(dt: int) -> int {
    s_div(dt * dt, SCALE as int)
}

/// One integrated coordinate, before clamping.
pub open spec fn verlet_coord(c: int, pc: int, a: int, ts: int, tsq: int) -> int {
    c + s_div((c - pc) * ts, SCALE as int) + s_div(a * tsq, SCALE as int)
}

/// The full record one step produces from particle `p`: integrated clamped
/// position, previous position set to the pre-step position, mass kept, and
/// the force accumulator cleared.
pub open spec fn step_particle(p: Particle, ts: int, tsq: int) -> Particle {
    Particle {
        position: Vec2 {
            x: clamp_pos(
                verlet_coord(
                    p.position.x as int,
                    p.prev_position.x as int,
                    p.acceleration.x as int,
                    ts,
                    tsq,
                ),
            ) as i64,
            y: clamp_pos(
                verlet_coord(
                    p.position.y as int,
                    p.prev_position.y as int,
                    p.acceleration.y as int,
                    ts,
                    tsq,
                ),
            ) as i64,
        },
        prev_position: p.position,
        mass: p.mass,
        acceleration: Vec2 { x: 0, y: 0 },
    }
}

/// The integrator is a function of its five inputs alone: equal inputs give
/// equal (bit-identical) outputs.
pub proof fn lemma_integrator_deterministic(p: Particle, q: Particle, dt: int, prev_dt: int)
    requires
        p == q,
    ensures
        step_particle(p, timescale(dt, prev_dt), timesq(dt))
            == step_particle(q, timescale(dt, prev_dt), timesq(dt)),
{
}

/// After a step every particle's accumulator is exactly zero, whatever the
/// force pass had written into it.
pub proof fn lemma_acceleration_reset(p: Particle, ts: int, tsq: int)
    ensures
        step_particle(p, ts, tsq).acceleration == vec2_zero(),
{
}

/// A particle at rest with no accumulated force does not move: with
/// `prev_position == position` and zero acceleration the integrated position
/// is the old position, for any timestep pair.
pub proof fn lemma_rest_particle_stays(p: Particle, ts: int, tsq: int)
    requires
        in_world(p.position),
        p.prev_position == p.position,
        p.acceleration == vec2_zero(),
    ensures
        step_particle(p, ts, tsq).position == p.position,
        step_particle(p, ts, tsq).prev_position == p.position,
{
    assert((p.position.x as int - p.prev_position.x as int) * ts == 0) by (nonlinear_arith)
        requires
            p.position.x as int - p.prev_position.x as int == 0,
    ;
    assert((p.position.y as int - p.prev_position.y as int) * ts == 0) by (nonlinear_arith)
        requires
            p.position.y as int - p.prev_position.y as int == 0,
    ;
    assert(0int * tsq == 0) by (nonlinear_arith);
    assert(s_div(0int, SCALE as int) == 0);
}

/// Two resting particles whose accumulators hold exactly opposite pulls move
/// by exactly opposite displacements in one step (before world clamping):
/// with the force pass's symmetry for equal masses, a two-body system drifts
/// apart or together symmetrically, to the last tick.
pub proof fn lemma_opposite_pull_moves_oppositely(p: Particle, q: Particle, ts: int, tsq: int)
    requires
        p.prev_position == p.position,
        q.prev_position == q.position,
        p.acceleration.x as int == -(q.acceleration.x as int),
        p.acceleration.y as int == -(q.acceleration.y as int),
    ensures
        verlet_coord(p.position.x as int, p.prev_position.x as int, p.acceleration.x as int,
            ts, tsq) - p.position.x as int
            == -(verlet_coord(q.position.x as int, q.prev_position.x as int,
                q.acceleration.x as int, ts, tsq) - q.position.x as int),
        verlet_coord(p.position.y as int, p.prev_position.y as int, p.acceleration.y as int,
            ts, tsq) - p.position.y as int
            == -(verlet_coord(q.position.y as int, q.prev_position.y as int,
                q.acceleration.y as int, ts, tsq) - q.position.y as int),
{
    let ax = q.acceleration.x as int;
    let ay = q.acceleration.y as int;
    assert((p.position.x as int - p.prev_position.x as int) * ts == 0
        && (p.position.y as int - p.prev_position.y as int) * ts == 0
        && (q.position.x as int - q.prev_position.x as int) * ts == 0
        && (q.position.y as int - q.prev_position.y as int) * ts == 0) by (nonlinear_arith)
        requires
            p.position.x as int - p.prev_position.x as int == 0,
            p.position.y as int - p.prev_position.y as int == 0,
            q.position.x as int - q.prev_position.x as int == 0,
            q.position.y as int - q.prev_position.y as int == 0,
    ;
    assert(s_div(0int, SCALE as int) == 0);
    assert((-ax) * tsq == -(ax * tsq) && (-ay) * tsq == -(ay * tsq)) by (nonlinear_arith);
    lemma_s_div_odd(ax * tsq, SCALE as int);
    lemma_s_div_odd(ay * tsq, SCALE as int);
}

/// Exact bound used while integrating: one integrated coordinate stays within
/// `3_000_001 * 10^12` before clamping, so the arithmetic fits in `i64`.
pub fn integrate_coord(c: i64, pc: i64, a: i64, ts: i64, tsq: i64) -> (r: i64)
    requires
        -(POS_LIMIT as int) <= c as int <= POS_LIMIT as int,
        -(POS_LIMIT as int) <= pc as int <= POS_LIMIT as int,
        -(ACCEL_LIMIT as int) <= a as int <= ACCEL_LIMIT as int,
        0 <= ts as int <= 1_000_000_000_000,
        0 <= tsq as int <= 1_000_000,
    ensures
        r as int == clamp_pos(verlet_coord(c as int, pc as int, a as int, ts as int, tsq as int)),
{
    let d: i64 = c - pc;
    proof {
        assert(-2_000_000_000_000_000_000_000_000 <= (d as int) * (ts as int)
            <= 2_000_000_000_000_000_000_000_000) by (nonlinear_arith)
            requires
                -2_000_000_000_000 <= d as int <= 2_000_000_000_000,
                0 <= ts as int <= 1_000_000_000_000,
        ;
        assert(-1_000_000_000_000_000_000_000_000 <= (a as int) * (tsq as int)
            <= 1_000_000_000_000_000_000_000_000) by (nonlinear_arith)
            requires
                -(ACCEL_LIMIT as int) <= a as int <= ACCEL_LIMIT as int,
                0 <= tsq as int <= 1_000_000,
        ;
    }
    let term_v: i64 = scale_div_prod(d, ts);
    let term_a: i64 = scale_div_prod(a, tsq);
    proof {
        lemma_s_div_abs((d as int) * (ts as int), SCALE as int);
        lemma_s_div_abs((a as int) * (tsq as int), SCALE as int);
        lemma_div_is_ordered(iabs((d as int) * (ts as int)),
            2_000_000_000_000_000_000_000_000, SCALE as int);
        lemma_div_is_ordered(iabs((a as int) * (tsq as int)),
            1_000_000_000_000_000_000_000_000, SCALE as int);
    }
    let unclamped: i64 = c + term_v + term_a;
    if unclamped < -POS_LIMIT {
        -POS_LIMIT
    } else if unclamped > POS_LIMIT {
        POS_LIMIT
    } else {
        unclamped
    }
}

/// The integrator pass: advances every particle by one step and clears its
/// accumulator, leaving the store ready for the next force pass.
pub fn integrate(particles: &mut Vec<Particle>, dt: i64, prev_dt: i64)
    requires
        0 < dt as int <= DT_MAX as int,
        0 < prev_dt as int <= DT_MAX as int,
        forall|k: int| 0 <= k < old(particles)@.len()
            ==> particle_bounded(old(particles)@[k]),
    ensures
        final(particles)@.len() == old(particles)@.len(),
        forall|k: int| 0 <= k < final(particles)@.len()
            ==> final(particles)@[k] == step_particle(
                old(particles)@[k],
                timescale(dt as int, prev_dt as int),
                timesq(dt as int),
            ),
        forall|k: int| 0 <= k < final(particles)@.len()
            ==> particle_ready(#[trigger] final(particles)@[k]),
{
    let ghost orig = particles@;
    let ts_num: u128 = (dt as u128) * 1_000_000;
    let ts_q: u128 = ts_num / (prev_dt as u128);
    proof {
        lemma_fundamental_div_mod(ts_num as int, prev_dt as int);
        lemma_mod_bound(ts_num as int, prev_dt as int);
        assert((ts_q as int) <= 1_000_000_000_000) by (nonlinear_arith)
            requires
                ts_q as int >= 0,
                (prev_dt as int) * (ts_q as int) <= ts_num as int,
                ts_num as int <= 1_000_000_000_000,
                prev_dt as int >= 1,
        ;
        assert(ts_q as int == timescale(dt as int, prev_dt as int));
    }
    let ts: i64 = ts_q as i64;
    proof {
        assert(0 <= (dt as int) * (dt as int) <= 1_000_000_000_000) by (nonlinear_arith)
            requires
                0 < dt as int <= 1_000_000,
        ;
    }
    let tsq_q: u128 = ((dt as u128) * (dt as u128)) / 1_000_000;
    proof {
        assert(tsq_q as int == timesq(dt as int));
    }
    let tsq: i64 = tsq_q as i64;
    let n: usize = particles.len();
    let mut i: usize = 0;
    while i < n
        invariant
            n == orig.len(),
            particles@.len() == n,
            i <= n,
            0 <= ts as int <= 1_000_000_000_000,
            0 <= tsq as int <= 1_000_000,
            ts as int == timescale(dt as int, prev_dt as int),
            tsq as int == timesq(dt as int),
            forall|k: int| 0 <= k < n ==> particle_bounded(orig[k]),
            forall|k: int| 0 <= k < i
                ==> particles@[k] == step_particle(orig[k], ts as int, tsq as int),
            forall|k: int| 0 <= k < i ==> particle_ready(#[trigger] particles@[k]),
            forall|k: int| i <= k < n ==> particles@[k] == orig[k],
        decreases n - i,
    {
        let p = particles[i];
        proof {
            assert(particle_bounded(orig[i as int]));
            assert(p == orig[i as int]);
        }
        let nx: i64 = integrate_coord(
            p.position.x,
            p.prev_position.x,
            p.acceleration.x,
            ts,
            tsq,
        );
        let ny: i64 = integrate_coord(
            p.position.y,
            p.prev_position.y,
            p.acceleration.y,
            ts,
            tsq,
        );
        let stepped = Particle {
            position: Vec2 { x: nx, y: ny },
            prev_position: p.position,
            mass: p.mass,
            acceleration: Vec2 { x: 0, y: 0 },
        };
        particles.set(i, stepped);
        i = i + 1;
    }
}

} // verus!
