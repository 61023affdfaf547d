//! Homeostatic pressure model for large populations of agents: a columnar
//! agent store with a per-frame homeostasis pass, a fixed-capacity spatial
//! grid, and an event broker that turns world events into pressure.
//!
//! Every real quantity is a fixed-point integer counting billionths of a unit
//! (see [`fixed::ONE`]).

pub mod fixed;
pub mod hfps;
pub mod error;
pub mod spatial;
pub mod broker;
pub mod loader;
