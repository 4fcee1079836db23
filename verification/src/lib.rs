//! Verified core of a constrained-clustering metaheuristic suite.
//!
//! The library models candidate solutions (cluster assignments over a fixed
//! dataset), pairwise must-link / cannot-link constraints, genetic operators
//! (selection, crossover, mutation, repair), neighbourhood generation and the
//! evaluation-budget ledger shared by all searches. Geometry (point
//! coordinates, distances, the numeric fitness value) is computed by the
//! surrounding program, which hands the library order-preserving unsigned
//! fitness keys: a smaller key always means a better (smaller) fitness.

pub mod constraints;
pub mod copkmeans;
pub mod counting;
pub mod eval;
pub mod neighbour;
pub mod params;
pub mod priority;
pub mod population;
pub mod rng;
pub mod solution;
