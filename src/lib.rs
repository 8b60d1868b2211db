//! Hamiltonian-cycle proof-of-work core: deterministic graph generation,
//! bounded cycle search and the hashing pipeline that folds a found cycle
//! into a block-header proof.

pub mod codec;

pub mod clock;
pub mod digest;
pub mod rng;
pub mod graph;
pub mod solver;
pub mod hasher;
pub mod models;
