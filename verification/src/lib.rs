//! A small molecular-dynamics kernel: point masses under pairwise
//! Newtonian-style attraction, advanced through discrete time steps by
//! velocity-Verlet integration. Scalars are saturating fixed-point numbers
//! with exactly specified arithmetic, so every update is pinned down to the
//! raw integer it produces.

pub mod laws;
pub mod particle;
pub mod scalar;
pub mod simulation;
