//! A slime-mould growth simulation on a torus.
//!
//! Agents wander over a grid, sense a scalar field ahead of them, steer
//! toward where it is richer, and feed it where they stand; the field
//! diffuses and decays. This crate holds what is exact about that: the
//! grid and its wraparound arithmetic, the wiring of the five-point
//! stencil, the steering rule, and the order of the phases of a time
//! step. What an agent is, and all arithmetic on agents and cell values,
//! is supplied by the caller as functions; the contracts say which values
//! those functions are handed and where their results end up.

pub mod conservation;
pub mod determinism;
pub mod field;
pub mod render;
pub mod simulation;
pub mod state;
pub mod steering;
pub mod stencil;
pub mod torus;
