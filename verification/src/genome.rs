//! What a genome can be asked to do.
//!
//! Each capability is a trait. Beside its operation a capability names, as a
//! relation, which outcomes the operation may have. The relations hold of
//! every outcome unless an implementation says more, and the engine's
//! contracts are stated over them.

use crate::ratio::Ratio;
use rand::rngs::ThreadRng;
use vstd::prelude::*;

verus! {

/// A genome that can be changed at random.
pub trait RandomlyMutable: Sized {
    /// What a genome has to be told of the simulation to mutate. A genome
    /// that needs nothing takes `()`.
    type Context;

    /// Whether mutating `self` at `rate` may leave `after`.
    open spec fn mutates_into(&self, ctx: &Self::Context, rate: Ratio, after: &Self) -> bool {
        true
    }

    /// Mutates the genome; `rate` says how strongly.
    fn mutate(&mut self, ctx: &Self::Context, rate: Ratio, rng: &mut ThreadRng)
        ensures
            old(self).mutates_into(ctx, rate, final(self)),
    ;
}

/// Whether `child` may be a mutated copy of `parent`.
pub open spec fn divides_into<G: Clone + RandomlyMutable>(
    parent: &G,
    ctx: &G::Context,
    rate: Ratio,
    child: &G,
) -> bool {
    exists|copy: G| cloned(*parent, copy) && copy.mutates_into(ctx, rate, child)
}

/// A genome that reproduces alone: a child is a mutated copy of its parent.
pub trait Mitosis: Clone + RandomlyMutable {
    /// Makes a child of this genome.
    fn divide(&self, ctx: &Self::Context, rate: Ratio, rng: &mut ThreadRng) -> (child: Self)
        ensures
            divides_into(self, ctx, rate, &child),
    {
        let mut child = self.clone();
        let ghost copy = child;
        child.mutate(ctx, rate, rng);
        assert(cloned(*self, copy) && copy.mutates_into(ctx, rate, &child));
        child
    }
}

/// A genome that reproduces with a partner.
pub trait Crossover: Clone {
    /// What a genome has to be told of the simulation to reproduce. A genome
    /// that needs nothing takes `()`.
    type Context;

    /// Whether crossing `self` with `other` at `rate` may give `child`.
    open spec fn crosses_into(&self, other: &Self, ctx: &Self::Context, rate: Ratio, child: &Self) -> bool {
        true
    }

    /// Makes a child of this genome and `other`.
    fn crossover(&self, other: &Self, ctx: &Self::Context, rate: Ratio, rng: &mut ThreadRng) -> (child: Self)
        ensures
            self.crosses_into(other, ctx, rate, &child),
    ;
}

/// A genome that belongs to a species; only genomes of one species are mated.
pub trait Speciated {
    /// Whether `key` may be reported as the species of `self`.
    open spec fn has_species(&self, key: u64) -> bool {
        true
    }

    /// The key of this genome's species.
    fn species(&self) -> (key: u64)
        ensures
            self.has_species(key),
    ;
}

/// A genome that wants to be told when it leaves the population.
pub trait Prunable: Sized {
    /// Called once on a genome that was eliminated.
    fn despawn(self) {
    }
}

/// A genome that can be made from nothing but randomness.
pub trait GenerateRandom: Sized {
    /// Whether `genome` may be generated.
    open spec fn may_generate(genome: &Self) -> bool {
        true
    }

    /// Makes a random genome.
    fn gen_random(rng: &mut ThreadRng) -> (genome: Self)
        ensures
            Self::may_generate(&genome),
    ;
}

/// A collection that can be filled with random genomes.
pub trait GenerateRandomCollection<T: GenerateRandom>: Sized {
    /// Makes a collection of `amount` random genomes.
    fn gen_random(rng: &mut ThreadRng, amount: usize) -> Self;
}

impl<T: GenerateRandom> GenerateRandomCollection<T> for Vec<T> {
    fn gen_random(rng: &mut ThreadRng, amount: usize) -> (population: Self)
        ensures
            population@.len() == amount,
            forall|i: int| 0 <= i < amount ==> T::may_generate(&#[trigger] population@[i]),
    {
        let mut population: Vec<T> = Vec::new();
        while population.len() < amount
            invariant
                population@.len() <= amount,
                forall|i: int| 0 <= i < population@.len() ==> T::may_generate(&#[trigger] population@[i]),
            decreases amount - population@.len(),
        {
            let genome = T::gen_random(rng);
            population.push(genome);
        }
        population
    }
}

} // verus!
