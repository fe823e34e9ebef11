//! A Primordial Particle System: point agents in the plane sense how many
//! neighbours lie to their left and right within a radius, turn accordingly,
//! and advance at a fixed speed. The engine supports several concurrently
//! active rulesets and live spatial editing (painting, erasing, dragging and
//! repainting ruleset membership).
//!
//! All quantities are fixed-point integers: lengths and speeds carry
//! [`units::SCALE`] fractional steps per world unit, and angles are measured
//! in units of 1/[`units::SCALE`] degree, so a full turn is
//! [`units::ANGLE_FULL`] units.

pub mod color;
pub mod particle;
pub mod primordial_particle_system;
pub mod rng;
pub mod ruleset;
pub mod units;
