//! A grid-based particle automaton: species-tagged particles compute a
//! candidate destination every tick and then try to move there, subject to
//! the occupancy of a shared two-dimensional cell grid.
//!
//! The movement-resolution engine is the heart of the crate: the per-species
//! stochastic update rules, the line rasterizer used to search for a
//! reachable free cell, and the occupancy-aware commit policy that turns a
//! candidate destination into an actual position change.

pub mod automata;
pub mod common;
pub mod gfx;
pub mod grid;
pub mod rng;
pub mod ufb;
pub mod world;
