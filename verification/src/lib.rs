//! A deterministic 2D gravitational particle simulator.
//!
//! Point masses attract one another by an inverse-square law and advance
//! through time with a Störmer–Verlet integrator; an external pointer device
//! may spawn new masses between steps. All state is fixed-point (`i64` raw
//! ticks, see [`fixed::SCALE`]), so every step is exact integer arithmetic and
//! every contract states the result of a step to the last tick.

pub mod fixed;
pub mod gravity;
pub mod particle;
pub mod sim;
pub mod verlet;
