//! The items that most users of the crate need, in one place.

pub use crate::eliminator::{Eliminator, FitnessEliminator, FitnessFn};
pub use crate::genome::{
    Crossover, GenerateRandom, GenerateRandomCollection, Mitosis, Prunable, RandomlyMutable, Speciated,
};
pub use crate::knockout::{ActionIfOdd, FitnessKnockoutFn, KnockoutEliminator, KnockoutFn, KnockoutWinner};
pub use crate::ratio::Ratio;
pub use crate::repopulator::{CrossoverRepopulator, MitosisRepopulator, Repopulator};
pub use crate::sim::GeneticSim;
pub use crate::speciation::SpeciatedCrossoverRepopulator;
