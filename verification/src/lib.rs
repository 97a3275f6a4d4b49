//! A 2-D particle fluid simulation: particles move under gravity, viscosity
//! impulses, and a double-density-relaxation pressure solver, with neighbor
//! discovery through a uniform spatial hash grid.
//!
//! All arithmetic is exact saturating fixed-point (millionths of a unit), so
//! every step of the solver pipeline is deterministic and fully specified.

pub mod fx;
pub mod vec2;
pub mod particle;
pub mod params;
pub mod grid;
pub mod world;
pub mod laws;
