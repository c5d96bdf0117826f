//! The simulation: a population, and the two policies that carry it from one
//! generation to the next.

use crate::eliminator::Eliminator;
use crate::repopulator::{keeps_survivors, restores_size, Repopulator};
use vstd::prelude::*;

verus! {

/// A population together with the policies by which it evolves.
pub struct GeneticSim<G, E: Eliminator<G>, R: Repopulator<G>> {
    /// The current population.
    pub genomes: Vec<G>,
    /// The policy that eliminates genomes.
    pub eliminator: E,
    /// The policy that refills the population.
    pub repopulator: R,
}

impl<G, E: Eliminator<G>, R: Repopulator<G>> GeneticSim<G, E, R> {
    /// A simulation that starts from `starting_genomes`.
    pub fn new(starting_genomes: Vec<G>, eliminator: E, repopulator: R) -> (sim: Self)
        ensures
            sim.genomes == starting_genomes,
            sim.eliminator == eliminator,
            sim.repopulator == repopulator,
    {
        Self { genomes: starting_genomes, eliminator, repopulator }
    }

    /// The population `genomes` can be carried to a next generation: it can
    /// be eliminated from, and whatever survives can be bred from.
    pub open spec fn can_advance(&self, genomes: Seq<G>) -> bool {
        &&& self.eliminator.accepts(genomes)
        &&& forall|survivors: Seq<G>| #[trigger]
            self.eliminator.eliminates(genomes, survivors) ==> self.repopulator.accepts(
                survivors,
                genomes.len(),
            )
    }

    /// `after` may be the generation that follows `before`: what the
    /// repopulator makes of what the eliminator leaves, bred back to the size
    /// of `before`.
    pub open spec fn is_next_generation(&self, before: Seq<G>, after: Seq<G>) -> bool {
        exists|survivors: Seq<G>| #[trigger]
            self.eliminator.eliminates(before, survivors) && self.repopulator.repopulates(
                survivors,
                before.len(),
                after,
            )
    }

    /// `history` lists one population per generation, each a next generation of
    /// the one before it.
    pub open spec fn is_history(&self, history: Seq<Seq<G>>) -> bool {
        forall|i: int|
            0 <= i < history.len() - 1 ==> self.is_next_generation(#[trigger] history[i], history[i + 1])
    }

    /// `after` may be what `before` has become `count` generations later.
    pub open spec fn evolves(&self, before: Seq<G>, count: nat, after: Seq<G>) -> bool {
        exists|history: Seq<Seq<G>>|
            #![trigger self.is_history(history)]
            {
                &&& self.is_history(history)
                &&& history.len() == count + 1
                &&& history[0] == before
                &&& history[count as int] == after
            }
    }

    /// Every population that `genomes` may become within fewer than `count`
    /// generations can be carried to a next one.
    pub open spec fn can_advance_for(&self, genomes: Seq<G>, count: nat) -> bool {
        forall|sooner: nat, later: Seq<G>|
            sooner < count && #[trigger] self.evolves(genomes, sooner, later) ==> self.can_advance(later)
    }

    /// A generation after what `before` may become in `count` generations is
    /// what `before` may become in one generation more.
    pub proof fn lemma_one_more_generation(&self, before: Seq<G>, count: nat, previous: Seq<G>, after: Seq<G>)
        requires
            self.evolves(before, count, previous),
            self.is_next_generation(previous, after),
        ensures
            self.evolves(before, count + 1, after),
    {
        let history = choose|history: Seq<Seq<G>>|
            #![trigger self.is_history(history)]
            {
                &&& self.is_history(history)
                &&& history.len() == count + 1
                &&& history[0] == before
                &&& history[count as int] == previous
            };
        let longer = history.push(after);
        assert(self.is_history(longer));
    }

    /// No generations later a population is what it was.
    pub proof fn lemma_no_generation(&self, before: Seq<G>)
        ensures
            self.evolves(before, 0, before),
    {
        let history = seq![before];
        assert(self.is_history(history));
    }

    /// With a repopulator that restores the size, a generation is as large as
    /// the one before it.
    pub proof fn lemma_generation_keeps_size(&self, before: Seq<G>, after: Seq<G>)
        requires
            restores_size::<G, R>(self.repopulator),
            self.is_next_generation(before, after),
        ensures
            after.len() == before.len(),
    {
    }

    /// With a repopulator that restores the size, the population has the same
    /// size after any number of generations.
    pub proof fn lemma_evolution_keeps_size(&self, before: Seq<G>, count: nat, after: Seq<G>)
        requires
            restores_size::<G, R>(self.repopulator),
            self.evolves(before, count, after),
        ensures
            after.len() == before.len(),
    {
        let history = choose|history: Seq<Seq<G>>|
            #![trigger self.is_history(history)]
            {
                &&& self.is_history(history)
                &&& history.len() == count + 1
                &&& history[0] == before
                &&& history[count as int] == after
            };
        self.lemma_history_keeps_size(history, count as int);
    }

    /// With a repopulator that restores the size, all populations of a
    /// history are as large as the first.
    proof fn lemma_history_keeps_size(&self, history: Seq<Seq<G>>, i: int)
        requires
            restores_size::<G, R>(self.repopulator),
            self.is_history(history),
            0 <= i < history.len(),
        ensures
            history[i].len() == history[0].len(),
        decreases i,
    {
        if i > 0 {
            self.lemma_history_keeps_size(history, i - 1);
        }
    }

    /// With a repopulator that restores the size, a simulation that can
    /// advance every population of one size can advance a population of that
    /// size for any number of generations.
    pub proof fn lemma_can_advance_for(&self, genomes: Seq<G>, count: nat)
        requires
            restores_size::<G, R>(self.repopulator),
            forall|population: Seq<G>|
                population.len() == genomes.len() ==> #[trigger] self.can_advance(population),
        ensures
            self.can_advance_for(genomes, count),
    {
        assert forall|sooner: nat, later: Seq<G>|
            sooner < count && #[trigger] self.evolves(genomes, sooner, later) implies self.can_advance(
            later,
        ) by {
            self.lemma_evolution_keeps_size(genomes, sooner, later);
        }
    }

    /// With a repopulator that keeps the survivors, every genome of a
    /// generation is a survivor of the elimination or was placed behind the
    /// survivors by the repopulator.
    pub proof fn lemma_generation_keeps_survivors(&self, before: Seq<G>, after: Seq<G>)
        requires
            keeps_survivors::<G, R>(self.repopulator),
            self.is_next_generation(before, after),
        ensures
            exists|survivors: Seq<G>| #[trigger]
                self.eliminator.eliminates(before, survivors) && survivors.len() <= after.len()
                    && after.subrange(0, survivors.len() as int) == survivors,
    {
        let survivors = choose|survivors: Seq<G>| #[trigger]
            self.eliminator.eliminates(before, survivors) && self.repopulator.repopulates(
                survivors,
                before.len(),
                after,
            );
        assert(self.eliminator.eliminates(before, survivors) && survivors.len() <= after.len()
            && after.subrange(0, survivors.len() as int) == survivors);
    }

    /// Replaces the population by its next generation.
    pub fn next_generation(&mut self)
        requires
            old(self).can_advance(old(self).genomes@),
        ensures
            final(self).eliminator == old(self).eliminator,
            final(self).repopulator == old(self).repopulator,
            old(self).is_next_generation(old(self).genomes@, final(self).genomes@),
    {
        let mut genomes: Vec<G> = Vec::new();
        std::mem::swap(&mut self.genomes, &mut genomes);
        let target_size = genomes.len();
        let mut survivors = self.eliminator.eliminate(genomes);
        let ghost left = survivors@;
        self.repopulator.repopulate(&mut survivors, target_size);
        assert(self.eliminator.eliminates(genomes@, left) && self.repopulator.repopulates(
            left,
            genomes@.len(),
            survivors@,
        ));
        self.genomes = survivors;
    }

    /// Replaces the population by the generation that follows it `count`
    /// generations later.
    pub fn perform_generations(&mut self, count: usize)
        requires
            old(self).can_advance_for(old(self).genomes@, count as nat),
        ensures
            final(self).eliminator == old(self).eliminator,
            final(self).repopulator == old(self).repopulator,
            old(self).evolves(old(self).genomes@, count as nat, final(self).genomes@),
    {
        let ghost start = self.genomes@;
        let mut done: usize = 0;
        proof {
            self.lemma_no_generation(start);
        }
        while done < count
            invariant
                done <= count,
                self.eliminator == old(self).eliminator,
                self.repopulator == old(self).repopulator,
                old(self).can_advance_for(start, count as nat),
                old(self).evolves(start, done as nat, self.genomes@),
            decreases count - done,
        {
            let ghost previous = self.genomes@;
            self.next_generation();
            proof {
                old(self).lemma_one_more_generation(start, done as nat, previous, self.genomes@);
            }
            done += 1;
        }
    }
}

} // verus!
