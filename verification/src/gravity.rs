//! The force field: for every ordered pair of distinct particles, the pull
//! particle `j` exerts on particle `i` is accumulated into `i`'s acceleration.
//!
//! For displacement `(dx, dy)` from `i` to `j`, the raw distance is the floor
//! square root of `dx*dx + dy*dy`, clamped below by [`DIST_FLOOR`] (the
//! explicit collision-avoidance stand-in: it keeps the force bounded as two
//! particles approach, a documented approximation, not an error). The scalar
//! magnitude is `GRAV * mass[j] / distance^3` and the contribution to the
//! accumulator is `(dx, dy)` times that magnitude, all in fixed point.

use vstd::prelude::*;
use vstd::arithmetic::div_mod::{lemma_div_is_ordered, lemma_fundamental_div_mod, lemma_mod_bound};
use crate::fixed::{
    iabs, isqrt, lemma_s_div_abs, lemma_s_div_odd, lemma_sqrt_floor_bounds, s_div,
    scale_div_prod, sqrt_floor, DIST_FLOOR, GRAV, MASS_MAX, MAX_PARTICLES, PAIR_ACCEL_MAX,
    SCALE,
};
use crate::particle::{in_world, particle_bounded, particle_ready, Particle, Vec2};

verus! {

/// Squared raw distance between two particles' positions.
pub open spec fn dist_sq(pi: Particle, pj: Particle) -> int {
    let dx = pj.position.x as int - pi.position.x as int;
    let dy = pj.position.y as int - pi.position.y as int;
    dx * dx + dy * dy
}

/// Raw distance used by the force law: the floor square root of the squared
/// distance, never below `DIST_FLOOR`.
pub open spec fn dist_fx(pi: Particle, pj: Particle) -> int {
    let r = sqrt_floor(dist_sq(pi, pj));
    if r < DIST_FLOOR as int {
        DIST_FLOOR as int
    } else {
        r
    }
}

/// Scalar acceleration magnitude `GRAV * m / d^3`, carried out on raw ticks:
/// the numerator carries two extra factors of `SCALE` so that the quotient is
/// again a raw fixed-point value.
pub open spec fn accel_mag(m: int, d: int) -> int {
    ((GRAV as int) * m * (SCALE as int) * (SCALE as int)) / (d * d * d)
}

/// The x-component particle `pj` adds to `pi`'s accumulator.
pub open spec fn pair_accel_x(pi: Particle, pj: Particle) -> int {
    let dx = pj.position.x as int - pi.position.x as int;
    s_div(dx * accel_mag(pj.mass as int, dist_fx(pi, pj)), SCALE as int)
}

/// The y-component particle `pj` adds to `pi`'s accumulator.
pub open spec fn pair_accel_y(pi: Particle, pj: Particle) -> int {
    let dy = pj.position.y as int - pi.position.y as int;
    s_div(dy * accel_mag(pj.mass as int, dist_fx(pi, pj)), SCALE as int)
}

/// Net x-acceleration on particle `i` from the particles with index below
/// `k`, itself excluded: a particle never exerts force on itself.
pub open spec fn net_accel_x(ps: Seq<Particle>, i: int, k: int) -> int
    decreases k,
{
    if k <= 0 {
        0
    } else {
        net_accel_x(ps, i, k - 1) + if k - 1 == i {
            0
        } else {
            pair_accel_x(ps[i], ps[k - 1])
        }
    }
}

/// Net y-acceleration on particle `i` from the particles with index below `k`.
pub open spec fn net_accel_y(ps: Seq<Particle>, i: int, k: int) -> int
    decreases k,
{
    if k <= 0 {
        0
    } else {
        net_accel_y(ps, i, k - 1) + if k - 1 == i {
            0
        } else {
            pair_accel_y(ps[i], ps[k - 1])
        }
    }
}

/// Particle `i` of `ps` with its accumulator holding the net pull of every
/// other particle; all other fields unchanged.
pub open spec fn with_net_accel(ps: Seq<Particle>, i: int) -> Particle {
    Particle {
        acceleration: Vec2 {
            x: net_accel_x(ps, i, ps.len() as int) as i64,
            y: net_accel_y(ps, i, ps.len() as int) as i64,
        },
        ..ps[i]
    }
}

/// A particle alone in the world accumulates no force: the net acceleration
/// over a store of one particle is zero.
pub proof fn lemma_lone_particle_no_force(ps: Seq<Particle>)
    requires
        ps.len() == 1,
    ensures
        net_accel_x(ps, 0, 1) == 0,
        net_accel_y(ps, 0, 1) == 0,
{
    assert(net_accel_x(ps, 0, 0) == 0);
    assert(net_accel_y(ps, 0, 0) == 0);
}

/// Close pairs use the distance floor: whenever the squared separation is
/// below `DIST_FLOOR` squared, the force law computes with `DIST_FLOOR`
/// itself, so there is no closer-than-floor singularity.
pub proof fn lemma_distance_floor(pi: Particle, pj: Particle)
    requires
        dist_sq(pi, pj) < (DIST_FLOOR as int) * (DIST_FLOOR as int),
    ensures
        dist_fx(pi, pj) == DIST_FLOOR as int,
{
    let dx = pj.position.x as int - pi.position.x as int;
    let dy = pj.position.y as int - pi.position.y as int;
    assert(dx * dx + dy * dy >= 0) by (nonlinear_arith);
    lemma_sqrt_floor_bounds(dist_sq(pi, pj));
    let r = sqrt_floor(dist_sq(pi, pj));
    assert(r < DIST_FLOOR as int) by (nonlinear_arith)
        requires
            r >= 0,
            r * r <= dist_sq(pi, pj),
            dist_sq(pi, pj) < (DIST_FLOOR as int) * (DIST_FLOOR as int),
    ;
}

/// The pull of `pj` on `pi` and the pull of `pi` on `pj` for particles of
/// equal mass: equal in magnitude, opposite in direction, component by
/// component.
pub proof fn lemma_pair_symmetry(pi: Particle, pj: Particle)
    requires
        pi.mass == pj.mass,
    ensures
        pair_accel_x(pi, pj) == -pair_accel_x(pj, pi),
        pair_accel_y(pi, pj) == -pair_accel_y(pj, pi),
{
    let dx = pj.position.x as int - pi.position.x as int;
    let dy = pj.position.y as int - pi.position.y as int;
    assert((-dx) * (-dx) == dx * dx && (-dy) * (-dy) == dy * dy) by (nonlinear_arith);
    assert(dist_sq(pj, pi) == dist_sq(pi, pj));
    let a = accel_mag(pj.mass as int, dist_fx(pi, pj));
    assert(accel_mag(pi.mass as int, dist_fx(pj, pi)) == a);
    assert((-dx) * a == -(dx * a) && (-dy) * a == -(dy * a)) by (nonlinear_arith);
    lemma_s_div_odd(dx * a, SCALE as int);
    lemma_s_div_odd(dy * a, SCALE as int);
    assert(pair_accel_x(pi, pj) == s_div(dx * a, SCALE as int));
    assert(pair_accel_x(pj, pi) == s_div((-dx) * a, SCALE as int));
    assert(pair_accel_y(pi, pj) == s_div(dy * a, SCALE as int));
    assert(pair_accel_y(pj, pi) == s_div((-dy) * a, SCALE as int));
    assert(s_div((-dx) * a, SCALE as int) == -s_div(dx * a, SCALE as int));
    assert(s_div((-dy) * a, SCALE as int) == -s_div(dy * a, SCALE as int));
    assert(pair_accel_x(pi, pj) == -pair_accel_x(pj, pi));
    assert(pair_accel_y(pi, pj) == -pair_accel_y(pj, pi));
}

/// The same symmetry over a store of exactly two particles of equal mass:
/// the two net accelerations one force pass produces are exact negatives.
pub proof fn lemma_two_particle_symmetry(ps: Seq<Particle>)
    requires
        ps.len() == 2,
        ps[0].mass == ps[1].mass,
    ensures
        net_accel_x(ps, 0, 2) == -net_accel_x(ps, 1, 2),
        net_accel_y(ps, 0, 2) == -net_accel_y(ps, 1, 2),
{
    lemma_pair_symmetry(ps[0], ps[1]);
    assert(net_accel_x(ps, 0, 0) == 0 && net_accel_y(ps, 0, 0) == 0);
    assert(net_accel_x(ps, 0, 1) == 0 && net_accel_y(ps, 0, 1) == 0);
    assert(net_accel_x(ps, 0, 2) == pair_accel_x(ps[0], ps[1]));
    assert(net_accel_y(ps, 0, 2) == pair_accel_y(ps[0], ps[1]));
    assert(net_accel_x(ps, 1, 0) == 0 && net_accel_y(ps, 1, 0) == 0);
    assert(net_accel_x(ps, 1, 1) == pair_accel_x(ps[1], ps[0]));
    assert(net_accel_y(ps, 1, 1) == pair_accel_y(ps[1], ps[0]));
    assert(net_accel_x(ps, 1, 2) == pair_accel_x(ps[1], ps[0]));
    assert(net_accel_y(ps, 1, 2) == pair_accel_y(ps[1], ps[0]));
}

/// One pair evaluation: the acceleration `pj` induces on `pi`, exactly as the
/// spec-level force law states it, with each component within
/// `PAIR_ACCEL_MAX`.
pub fn pair_accel(pi: Particle, pj: Particle) -> (a: (i64, i64))
    requires
        in_world(pi.position),
        in_world(pj.position),
        0 < pj.mass as int <= MASS_MAX as int,
    ensures
        a.0 as int == pair_accel_x(pi, pj),
        a.1 as int == pair_accel_y(pi, pj),
        iabs(a.0 as int) <= PAIR_ACCEL_MAX as int,
        iabs(a.1 as int) <= PAIR_ACCEL_MAX as int,
{
    let dx: i64 = pj.position.x - pi.position.x;
    let dy: i64 = pj.position.y - pi.position.y;
    proof {
        assert((dx as int) * (dx as int) + (dy as int) * (dy as int)
            <= 8_000_000_000_000_000_000_000_000
            && (dx as int) * (dx as int) >= 0
            && (dy as int) * (dy as int) >= 0) by (nonlinear_arith)
            requires
                -2_000_000_000_000 <= dx as int <= 2_000_000_000_000,
                -2_000_000_000_000 <= dy as int <= 2_000_000_000_000,
        ;
    }
    let sq: i128 = (dx as i128) * (dx as i128) + (dy as i128) * (dy as i128);
    let root: u128 = isqrt(sq as u128);
    proof {
        assert((root as int) < 3_000_000_000_000) by (nonlinear_arith)
            requires
                root as int >= 0,
                (root as int) * (root as int) <= 8_000_000_000_000_000_000_000_000,
        ;
    }
    let dist: u128 = if root < 3_000_000 {
        3_000_000
    } else {
        root
    };
    let ghost d = dist as int;
    proof {
        assert(d == dist_fx(pi, pj));
        assert(27_000_000_000_000_000_000 <= d * d * d
            <= 27_000_000_000_000_000_000_000_000_000_000_000_000) by (nonlinear_arith)
            requires
                3_000_000 <= d <= 3_000_000_000_000,
        ;
    }
    let den: u128 = dist * dist * dist;
    let num: u128 = 100_000_000u128 * (pj.mass as u128) * 1_000_000 * 1_000_000;
    let acc: u128 = num / den;
    proof {
        assert(num as int == (GRAV as int) * (pj.mass as int) * (SCALE as int) * (SCALE as int));
        lemma_fundamental_div_mod(num as int, den as int);
        lemma_mod_bound(num as int, den as int);
        assert(acc as int <= 371_000_000) by (nonlinear_arith)
            requires
                acc as int >= 0,
                (den as int) * (acc as int) <= num as int,
                num as int <= 10_000_000_000_000_000_000_000_000_000,
                den as int >= 27_000_000_000_000_000_000,
        ;
        assert(acc as int == accel_mag(pj.mass as int, d));
        assert((dx as int) * (acc as int) <= 800_000_000_000_000_000_000
            && (dx as int) * (acc as int) >= -800_000_000_000_000_000_000
            && (dy as int) * (acc as int) <= 800_000_000_000_000_000_000
            && (dy as int) * (acc as int) >= -800_000_000_000_000_000_000)
            by (nonlinear_arith)
            requires
                -2_000_000_000_000 <= dx as int <= 2_000_000_000_000,
                -2_000_000_000_000 <= dy as int <= 2_000_000_000_000,
                0 <= acc as int <= 371_000_000,
        ;
    }
    let acc64: i64 = acc as i64;
    let ax: i64 = scale_div_prod(dx, acc64);
    let ay: i64 = scale_div_prod(dy, acc64);
    proof {
        lemma_s_div_abs((dx as int) * (acc64 as int), SCALE as int);
        lemma_s_div_abs((dy as int) * (acc64 as int), SCALE as int);
        lemma_div_is_ordered(iabs((dx as int) * (acc64 as int)),
            800_000_000_000_000_000_000, SCALE as int);
        lemma_div_is_ordered(iabs((dy as int) * (acc64 as int)),
            800_000_000_000_000_000_000, SCALE as int);
    }
    (ax, ay)
}

/// The force pass: runs the pair evaluation for every ordered pair of
/// distinct particles and stores the summed pull in each particle's
/// accumulator. Positions, previous positions and masses are untouched.
pub fn accumulate_forces(particles: &mut Vec<Particle>)
    requires
        old(particles)@.len() <= MAX_PARTICLES as int,
        forall|k: int| 0 <= k < old(particles)@.len() ==> particle_ready(old(particles)@[k]),
    ensures
        final(particles)@.len() == old(particles)@.len(),
        forall|k: int| 0 <= k < final(particles)@.len()
            ==> final(particles)@[k] == with_net_accel(old(particles)@, k),
        forall|k: int| 0 <= k < final(particles)@.len()
            ==> particle_bounded(final(particles)@[k]),
{
    let ghost orig = particles@;
    let n: usize = particles.len();
    let mut i: usize = 0;
    while i < n
        invariant
            n == orig.len(),
            particles@.len() == n,
            n <= MAX_PARTICLES,
            i <= n,
            forall|k: int| 0 <= k < n ==> particle_ready(orig[k]),
            forall|k: int| 0 <= k < i ==> particles@[k] == with_net_accel(orig, k),
            forall|k: int| 0 <= k < i ==> particle_bounded(#[trigger] particles@[k]),
            forall|k: int| i <= k < n ==> particles@[k] == orig[k],
        decreases n - i,
    {
        let pi = particles[i];
        let mut ax: i64 = 0;
        let mut ay: i64 = 0;
        let mut j: usize = 0;
        while j < n
            invariant
                n == orig.len(),
                particles@.len() == n,
                n <= MAX_PARTICLES,
                i < n,
                j <= n,
                pi == orig[i as int],
                forall|k: int| 0 <= k < n ==> particle_ready(orig[k]),
                forall|k: int| i <= k < n ==> particles@[k] == orig[k],
                forall|k: int| 0 <= k < i ==> particles@[k] == with_net_accel(orig, k),
                ax as int == net_accel_x(orig, i as int, j as int),
                ay as int == net_accel_y(orig, i as int, j as int),
                iabs(ax as int) <= j * (PAIR_ACCEL_MAX as int),
                iabs(ay as int) <= j * (PAIR_ACCEL_MAX as int),
            decreases n - j,
        {
            if j != i {
                let pj = particles[j];
                proof {
                    if j < i {
                        assert(particles@[j as int] == with_net_accel(orig, j as int));
                    }
                    assert(pj.position == orig[j as int].position
                        && pj.mass == orig[j as int].mass);
                }
                let (cx, cy) = pair_accel(pi, pj);
                proof {
                    assert(pair_accel_x(pi, pj) == pair_accel_x(orig[i as int], orig[j as int]));
                    assert(pair_accel_y(pi, pj) == pair_accel_y(orig[i as int], orig[j as int]));
                }
                ax = ax + cx;
                ay = ay + cy;
            }
            j = j + 1;
        }
        let updated = Particle {
            position: pi.position,
            prev_position: pi.prev_position,
            mass: pi.mass,
            acceleration: Vec2 { x: ax, y: ay },
        };
        particles.set(i, updated);
        i = i + 1;
    }
}

} // verus!
