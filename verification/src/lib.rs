//! Allocation & scenario engine for weekly engineering capacity planning.
//!
//! The engine tracks engineers, projects, and the weekly allocation of
//! engineer time to projects, partitioned by scope: the authoritative `Live`
//! plan, or an isolated what-if `Scenario` branched from it. It enforces
//! that at most one active allocation exists per (project, engineer,
//! start-week) slot within a scope, and computes an engineer's remaining
//! weekly hours net of fixed overhead.

pub mod clock;
pub mod engine;
pub mod errors;
pub mod laws;
pub mod model;
