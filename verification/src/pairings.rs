//! What holds of a simulation that is run by the policies of this crate:
//! which populations it can advance, and that it keeps their size.

use crate::eliminator::{keep_count, lemma_keep_count_bounds, Eliminator, FitnessEliminator, FitnessFn};
use crate::genome::{Crossover, Mitosis, Prunable, Speciated};
use crate::knockout::{lemma_knockout_survivor_count, KnockoutEliminator, KnockoutFn};
use crate::ratio::{lemma_ratio_of, Ratio};
use crate::repopulator::{
    lemma_crossover_refills, lemma_mitosis_refills, CrossoverRepopulator, MitosisRepopulator, Repopulator,
};
use crate::sim::GeneticSim;
use crate::speciation::SpeciatedCrossoverRepopulator;
use vstd::prelude::*;

verus! {

/// A generation bred by mitosis is as large as the one before it, whatever
/// the eliminator.
pub proof fn lemma_mitosis_keeps_size<G: Mitosis, E: Eliminator<G>>(
    sim: GeneticSim<G, E, MitosisRepopulator<G>>,
    before: Seq<G>,
    after: Seq<G>,
)
    requires
        sim.is_next_generation(before, after),
    ensures
        after.len() == before.len(),
{
}

/// A generation bred by crossover is as large as the one before it, whatever
/// the eliminator.
pub proof fn lemma_crossover_keeps_size<G: Crossover, E: Eliminator<G>>(
    sim: GeneticSim<G, E, CrossoverRepopulator<G>>,
    before: Seq<G>,
    after: Seq<G>,
)
    requires
        sim.is_next_generation(before, after),
    ensures
        after.len() == before.len(),
{
}

/// A generation bred within species is as large as the one before it,
/// whatever the eliminator.
pub proof fn lemma_speciated_keeps_size<G: Crossover + Speciated, E: Eliminator<G>>(
    sim: GeneticSim<G, E, SpeciatedCrossoverRepopulator<G>>,
    before: Seq<G>,
    after: Seq<G>,
)
    requires
        sim.is_next_generation(before, after),
    ensures
        after.len() == before.len(),
{
}

/// Half of a population of two or more, and one more, is two or more.
pub proof fn lemma_half_keeps_two(n: nat, threshold: Ratio)
    requires
        threshold.numer() == 1,
        threshold.denom() == 2,
        n >= 2,
    ensures
        keep_count(n, threshold) >= 2,
{
    assert((n * 1) / 2 >= 1) by (nonlinear_arith)
        requires
            n >= 2,
    ;
}

/// Elimination by threshold followed by mitosis can advance every population
/// whose genomes can be scored.
pub proof fn lemma_threshold_mitosis_advances<F: FitnessFn<G>, G: Mitosis + Prunable>(
    sim: GeneticSim<G, FitnessEliminator<F, G>, MitosisRepopulator<G>>,
    genomes: Seq<G>,
)
    requires
        sim.eliminator.threshold.wf(),
        sim.eliminator.accepts(genomes),
    ensures
        sim.can_advance(genomes),
{
    lemma_keep_count_bounds(genomes.len(), sim.eliminator.threshold);
}

/// Elimination by threshold followed by crossover can advance every
/// population whose genomes can be scored, if the threshold leaves two of
/// them or the population has fewer than two.
pub proof fn lemma_threshold_crossover_advances<F: FitnessFn<G>, G: Crossover + Prunable>(
    sim: GeneticSim<G, FitnessEliminator<F, G>, CrossoverRepopulator<G>>,
    genomes: Seq<G>,
)
    requires
        sim.eliminator.threshold.wf(),
        sim.eliminator.accepts(genomes),
        genomes.len() < 2 || keep_count(genomes.len(), sim.eliminator.threshold) >= 2,
    ensures
        sim.can_advance(genomes),
{
    lemma_keep_count_bounds(genomes.len(), sim.eliminator.threshold);
}

/// A knockout followed by mitosis can advance every population that the
/// knockout accepts.
pub proof fn lemma_knockout_mitosis_advances<K: KnockoutFn<G>, G: Mitosis + Prunable>(
    sim: GeneticSim<G, KnockoutEliminator<K, G>, MitosisRepopulator<G>>,
    genomes: Seq<G>,
)
    requires
        sim.eliminator.accepts(genomes),
    ensures
        sim.can_advance(genomes),
{
    assert forall|survivors: Seq<G>| #[trigger]
        sim.eliminator.eliminates(genomes, survivors) implies sim.repopulator.accepts(
        survivors,
        genomes.len(),
    ) by {
        lemma_knockout_survivor_count(sim.eliminator, genomes, survivors);
    }
}

/// A knockout followed by crossover can advance every population that the
/// knockout accepts and that leaves two survivors or needs no children:
/// populations of four or more, of three if the genome without a match is
/// kept, and of fewer than two.
pub proof fn lemma_knockout_crossover_advances<K: KnockoutFn<G>, G: Crossover + Prunable>(
    sim: GeneticSim<G, KnockoutEliminator<K, G>, CrossoverRepopulator<G>>,
    genomes: Seq<G>,
)
    requires
        sim.eliminator.accepts(genomes),
        genomes.len() < 2 || genomes.len() >= 4 || (genomes.len() == 3 && sim.eliminator.keeps_odd()),
    ensures
        sim.can_advance(genomes),
{
    assert forall|survivors: Seq<G>| #[trigger]
        sim.eliminator.eliminates(genomes, survivors) implies sim.repopulator.accepts(
        survivors,
        genomes.len(),
    ) by {
        lemma_knockout_survivor_count(sim.eliminator, genomes, survivors);
    }
}

/// Elimination by threshold followed by mitosis can advance a population for
/// any number of generations, if the fitness measure scores every genome.
pub proof fn lemma_threshold_mitosis_advances_for<F: FitnessFn<G>, G: Mitosis + Prunable>(
    sim: GeneticSim<G, FitnessEliminator<F, G>, MitosisRepopulator<G>>,
    genomes: Seq<G>,
    count: nat,
)
    requires
        sim.eliminator.threshold.wf(),
        forall|genome: G| #[trigger] sim.eliminator.fitness_fn.scorable(&genome),
    ensures
        sim.can_advance_for(genomes, count),
{
    lemma_mitosis_refills(sim.repopulator);
    assert forall|population: Seq<G>| population.len() == genomes.len() implies #[trigger] sim.can_advance(
        population,
    ) by {
        lemma_threshold_mitosis_advances(sim, population);
    }
    sim.lemma_can_advance_for(genomes, count);
}

/// Elimination of the worse half followed by crossover can advance a
/// population of two or more for any number of generations, if the fitness
/// measure scores every genome.
pub proof fn lemma_half_crossover_advances_for<F: FitnessFn<G>, G: Crossover + Prunable>(
    sim: GeneticSim<G, FitnessEliminator<F, G>, CrossoverRepopulator<G>>,
    genomes: Seq<G>,
    count: nat,
)
    requires
        sim.eliminator.threshold == Ratio::of(1, 2),
        forall|genome: G| #[trigger] sim.eliminator.fitness_fn.scorable(&genome),
    ensures
        sim.can_advance_for(genomes, count),
{
    lemma_ratio_of(1, 2);
    lemma_crossover_refills(sim.repopulator);
    assert forall|population: Seq<G>| population.len() == genomes.len() implies #[trigger] sim.can_advance(
        population,
    ) by {
        if population.len() >= 2 {
            lemma_half_keeps_two(population.len(), sim.eliminator.threshold);
        }
        lemma_threshold_crossover_advances(sim, population);
    }
    sim.lemma_can_advance_for(genomes, count);
}

} // verus!
