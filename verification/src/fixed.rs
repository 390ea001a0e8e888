//! Fixed-point scalar arithmetic for the simulation.
//!
//! Every physical quantity (position, mass, acceleration, time delta) is a
//! fixed-point number: an `i64` holding the quantity multiplied by `SCALE`.
//! All arithmetic is exact integer arithmetic with truncation toward zero,
//! so every computation is fully deterministic and bit-identical across runs.

use vstd::prelude::*;

verus! {

/// Fixed-point scale: one length-unit or time-unit is `SCALE` raw ticks.
pub const SCALE: i64 = 1_000_000;

/// Gravitational constant `G = 100.0`, in raw fixed-point ticks.
pub const GRAV: i64 = 100_000_000;

/// Minimum pairwise distance `3.0` used by the force computation, in raw ticks.
pub const DIST_FLOOR: i64 = 3_000_000;

/// World half-width: positions are clamped to `[-POS_LIMIT, POS_LIMIT]` raw
/// ticks (one million length-units each way).
pub const POS_LIMIT: i64 = 1_000_000_000_000;

/// Largest mass the store accepts (`100.0`); larger spawn masses are clamped.
pub const MASS_MAX: i64 = 100_000_000;

/// Largest frame delta the clock accepts (`1.0` time-units); larger or
/// non-positive deltas make the step a guarded no-op.
pub const DT_MAX: i64 = 1_000_000;

/// Seed for the previous frame delta (`0.1`), so the first step has a valid
/// timestep ratio.
pub const INITIAL_PREV_DT: i64 = 100_000;

/// Cap on the particle count, so force accumulators provably fit in `i64`.
pub const MAX_PARTICLES: usize = 1000;

/// Bound on the acceleration one particle contributes to another in one step.
pub const PAIR_ACCEL_MAX: i64 = 1_000_000_000_000_000;

/// Bound on a particle's total accumulated acceleration in one step.
pub const ACCEL_LIMIT: i64 = 1_000_000_000_000_000_000;

/// Integer division truncating toward zero, for a positive divisor.
/// This is the division the executable code performs on raw ticks.
pub open spec fn s_div(n: int, d: int) -> int {
    if n >= 0 {
        n / d
    } else {
        -((-n) / d)
    }
}

/// Clamping of a raw coordinate into the world bounds.
pub open spec fn clamp_pos(v: int) -> int {
    if v < -(POS_LIMIT as int) {
        -(POS_LIMIT as int)
    } else if v > POS_LIMIT as int {
        POS_LIMIT as int
    } else {
        v
    }
}

/// Floor of the square root of a non-negative integer.
pub open spec fn sqrt_floor(n: int) -> int
    decreases n,
{
    if n <= 0 {
        0
    } else {
        let r = sqrt_floor(n - 1);
        if (r + 1) * (r + 1) <= n {
            r + 1
        } else {
            r
        }
    }
}

/// `sqrt_floor(n)` is the unique `r >= 0` with `r * r <= n < (r + 1) * (r + 1)`.
pub proof fn lemma_sqrt_floor_bounds(n: int)
    requires
        n >= 0,
    ensures
        sqrt_floor(n) >= 0,
        sqrt_floor(n) * sqrt_floor(n) <= n,
        n < (sqrt_floor(n) + 1) * (sqrt_floor(n) + 1),
    decreases n,
{
    if n > 0 {
        lemma_sqrt_floor_bounds(n - 1);
        let r = sqrt_floor(n - 1);
        if (r + 1) * (r + 1) <= n {
            assert(n <= (r + 1) * (r + 1)) by (nonlinear_arith)
                requires
                    n - 1 < (r + 1) * (r + 1),
            ;
            assert((r + 1) * (r + 1) < (r + 2) * (r + 2)) by (nonlinear_arith)
                requires
                    r >= 0,
            ;
        }
    }
}

/// Any `r` in the square-root window equals `sqrt_floor(n)`.
pub proof fn lemma_sqrt_floor_unique(n: int, r: int)
    requires
        n >= 0,
        r >= 0,
        r * r <= n,
        n < (r + 1) * (r + 1),
    ensures
        r == sqrt_floor(n),
{
    lemma_sqrt_floor_bounds(n);
    let s = sqrt_floor(n);
    assert(r == s) by (nonlinear_arith)
        requires
            r >= 0,
            s >= 0,
            r * r <= n,
            n < (r + 1) * (r + 1),
            s * s <= n,
            n < (s + 1) * (s + 1),
    ;
}

/// Truncating division is odd in its numerator.
pub proof fn lemma_s_div_odd(n: int, d: int)
    requires
        d > 0,
    ensures
        s_div(-n, d) == -s_div(n, d),
{
    if n == 0 {
        assert(s_div(0int, d) == 0);
    }
}

/// Absolute value of a mathematical integer.
pub open spec fn iabs(n: int) -> int {
    if n < 0 {
        -n
    } else {
        n
    }
}

/// Sign and magnitude of a product.
pub proof fn lemma_mul_sign_abs(a: int, b: int)
    by (nonlinear_arith)
    ensures
        iabs(a) * iabs(b) == iabs(a * b),
        ((a < 0) == (b < 0)) ==> a * b >= 0,
        ((a < 0) != (b < 0)) ==> a * b <= 0,
{
}

/// The magnitude of a truncating quotient is the quotient of the magnitude.
pub proof fn lemma_s_div_abs(n: int, d: int)
    requires
        d > 0,
    ensures
        iabs(s_div(n, d)) == iabs(n) / d,
{
}

/// `s_div(a * b, SCALE)`, computed without overflow by splitting the product
/// into sign and magnitude and dividing the magnitude as a `u128`.
pub fn scale_div_prod(a: i64, b: i64) -> (r: i64)
    requires
        -9_000_000_000_000_000_000_000_000 <= (a as int) * (b as int)
            <= 9_000_000_000_000_000_000_000_000,
    ensures
        r as int == s_div((a as int) * (b as int), SCALE as int),
{
    proof {
        lemma_mul_sign_abs(a as int, b as int);
    }
    let am: u128 = if a < 0 {
        (-(a as i128)) as u128
    } else {
        a as u128
    };
    let bm: u128 = if b < 0 {
        (-(b as i128)) as u128
    } else {
        b as u128
    };
    let mag: u128 = am * bm;
    let q: u128 = mag / 1_000_000;
    proof {
        lemma_s_div_abs((a as int) * (b as int), SCALE as int);
    }
    if (a < 0) != (b < 0) {
        -(q as i64)
    } else {
        q as i64
    }
}

/// Floor of the square root of a raw squared distance, computed by binary
/// search over the raw tick range the world bounds allow.
pub fn isqrt(n: u128) -> (r: u128)
    requires
        n <= 8_000_000_000_000_000_000_000_000,
    ensures
        r as int == sqrt_floor(n as int),
        r * r <= n,
{
    let mut lo: u128 = 0;
    let mut hi: u128 = 4_000_000_000_001;
    proof {
        assert(4_000_000_000_001int * 4_000_000_000_001int
            > 8_000_000_000_000_000_000_000_000) by (nonlinear_arith);
    }
    while hi - lo > 1
        invariant
            lo < hi,
            hi <= 4_000_000_000_001,
            (lo * lo) as int <= n as int,
            (n as int) < (hi * hi) as int,
        decreases hi - lo,
    {
        let mid: u128 = lo + (hi - lo) / 2;
        proof {
            assert((mid as int) * (mid as int) <= 4_000_000_000_001int * 4_000_000_000_001int)
                by (nonlinear_arith)
                requires
                    0 <= mid as int <= 4_000_000_000_001int,
            ;
        }
        if mid * mid <= n {
            lo = mid;
        } else {
            hi = mid;
        }
    }
    proof {
        assert(hi == lo + 1);
        lemma_sqrt_floor_unique(n as int, lo as int);
    }
    lo
}

} // verus!
