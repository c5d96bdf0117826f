//! A generic driver for genetic algorithms.
//!
//! A population of genomes is carried from one generation to the next in two
//! steps: an [`eliminator::Eliminator`] reduces it to its survivors, and a
//! [`repopulator::Repopulator`] breeds new genomes from the survivors until the
//! population has its size again. [`sim::GeneticSim`] holds the population and
//! the two policies.
//!
//! [`nextgen`] holds strategies that make the next generation from a scored
//! population in one step.

pub mod eliminator;
pub mod genome;
pub mod knockout;
pub mod nextgen;
pub mod pairings;
pub mod permutation;
pub mod prelude;
pub mod random;
pub mod ranking;
pub mod ratio;
pub mod repopulator;
pub mod sim;
pub mod speciation;
pub mod species;
pub mod topology;
