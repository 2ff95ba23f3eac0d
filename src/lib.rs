//! Stochastic series expansion (SSE) of the open transverse-field Ising chain,
//! evaluated in the doubled (Bell) basis, for ground-state purity, Renyi-2
//! entanglement and two-point correlators.
//!
//! One sweep runs, in order: the diagonal update (`diagonal`), the loop cluster
//! update over the site vertex list (`vertex`, `cluster`), a refresh of the
//! slice snapshots, and the bond cluster update over the dual vertex list
//! (`bond_cluster`); thermalizing sweeps then grow the truncation order
//! (`sweeps`). `model` holds the state and its invariant, `acceptance` the
//! exact acceptance rules, `measure` the estimators, and `rng` the random
//! stream the engine draws from.
pub mod acceptance;
pub mod encoding;
pub mod rng;
pub mod model;
pub mod measure;
pub mod diagonal;
pub mod vertex;
pub mod cluster;
pub mod bond_cluster;
pub mod sweeps;
