//! Strategies that take a scored population to its next generation in one
//! step: the worse half is pruned, and the rest breeds until the population
//! has its size again.

use crate::eliminator::{genomes_of, scores_of};
use crate::genome::{Prunable, RandomlyMutable};
use crate::permutation::{arrange, arranged};
use crate::random::random_index;
use crate::ranking::{ascending, lemma_ascending_is_permutation, rank_ascending};
use crate::ratio::Ratio;
use crate::repopulator::{champion_of, lemma_next_turn, partner, partner_index, refilled};
use rand::rngs::ThreadRng;
use vstd::prelude::*;

verus! {

/// A genome that reproduces alone, at a rate of its own choosing.
pub trait DivisionReproduction: Sized {
    /// Whether `child` may be a child of `self`.
    open spec fn divides_to(&self, child: &Self) -> bool {
        true
    }

    /// Makes a child of this genome.
    fn divide(&self, rng: &mut ThreadRng) -> (child: Self)
        ensures
            self.divides_to(&child),
    ;
}

/// A genome that reproduces with a partner, at a rate of its own choosing.
pub trait CrossoverReproduction: Sized {
    /// Whether `child` may be a child of `self` and `other`.
    open spec fn crosses_to(&self, other: &Self, child: &Self) -> bool {
        true
    }

    /// Makes a child of this genome and `other`.
    fn crossover(&self, other: &Self, rng: &mut ThreadRng) -> (child: Self)
        ensures
            self.crosses_to(other, &child),
    ;
}

/// The scored genomes from the lowest reward to the highest; equal rewards
/// keep their given order.
pub open spec fn sorted_ascending<G>(rewards: Seq<(G, i64)>) -> Seq<(G, i64)> {
    arranged(rewards, ascending(scores_of(rewards)))
}

/// Sorts scored genomes from the lowest reward to the highest; equal rewards
/// keep their given order.
pub fn sort_ascending<G>(rewards: Vec<(G, i64)>) -> (sorted: Vec<(G, i64)>)
    ensures
        sorted@ == sorted_ascending(rewards@),
        sorted@.len() == rewards@.len(),
{
    let mut scores: Vec<i64> = Vec::new();
    let mut i: usize = 0;
    while i < rewards.len()
        invariant
            i <= rewards@.len(),
            scores@.len() == i,
            forall|k: int| 0 <= k < i ==> scores@[k] == rewards@[k].1,
        decreases rewards@.len() - i,
    {
        scores.push(rewards[i].1);
        i += 1;
    }
    assert(scores@ =~= scores_of(rewards@));
    let order = rank_ascending(&scores);
    arrange(rewards, &order)
}

/// The reward in the middle of the sorted rewards; of an even number, the
/// higher of the two in the middle.
pub open spec fn median<G>(rewards: Seq<(G, i64)>) -> i64 {
    sorted_ascending(rewards)[rewards.len() as int / 2].1
}

/// The test that a scored genome's reward is no less than `bar`.
pub open spec fn reaches<G>(bar: i64) -> spec_fn((G, i64)) -> bool {
    |pair: (G, i64)| pair.1 >= bar
}

/// The genomes whose reward is no less than the median, from the lowest
/// reward to the highest.
pub open spec fn pruned<G>(rewards: Seq<(G, i64)>) -> Seq<G> {
    genomes_of(sorted_ascending(rewards).filter(reaches(median(rewards))))
}

/// Sorting keeps the number of genomes.
pub proof fn lemma_sorted_ascending_len<G>(rewards: Seq<(G, i64)>)
    requires
        rewards.len() <= usize::MAX,
    ensures
        sorted_ascending(rewards).len() == rewards.len(),
{
    lemma_ascending_is_permutation(scores_of(rewards));
}

/// Of a population that is not empty, some genome reaches the median, and
/// no more than there are.
pub proof fn lemma_pruned_bounds<G>(rewards: Seq<(G, i64)>)
    requires
        0 < rewards.len() <= usize::MAX,
    ensures
        0 < pruned(rewards).len() <= rewards.len(),
{
    lemma_sorted_ascending_len(rewards);
    let sorted = sorted_ascending(rewards);
    let test = reaches::<G>(median(rewards));
    let middle = rewards.len() as int / 2;
    sorted.lemma_filter_contains(test, middle);
    sorted.lemma_filter_len(test);
}

/// Prunes the worse half: keeps the genomes whose reward is no less than
/// the median, and eliminates the others.
pub fn pruning_helper<G: Prunable>(rewards: Vec<(G, i64)>) -> (champions: Vec<G>)
    requires
        rewards@.len() > 0,
    ensures
        champions@ == pruned(rewards@),
        0 < champions@.len() <= rewards@.len(),
{
    let sorted = sort_ascending(rewards);
    let bar = sorted[sorted.len() / 2].1;
    let ghost test = reaches::<G>(bar);
    let mut champions: Vec<G> = Vec::new();
    proof {
        lemma_pruned_bounds(rewards@);
        reveal(Seq::filter);
    }
    for pair in it: sorted
        invariant
            it.seq() == sorted@,
            test == reaches::<G>(bar),
            champions@ == genomes_of(sorted@.take(it.index() as int).filter(test)),
    {
        let ghost at = it.index() as int;
        proof {
            assert(sorted@.take(at + 1) =~= sorted@.take(at).push(sorted@[at]));
            sorted@.take(at).lemma_filter_push(sorted@[at], test);
        }
        if pair.1 < bar {
            pair.0.despawn();
        } else {
            champions.push(pair.0);
        }
    }
    assert(sorted@.take(sorted@.len() as int) =~= sorted@);
    champions
}

/// The rate at which the genome at place `place` of `count` is scrambled:
/// the share of the genomes that come before it.
pub open spec fn scramble_rate(place: nat, count: nat) -> Ratio {
    Ratio::of(place, count)
}

/// Mutates every genome, the more strongly the higher its reward. The
/// genomes are told nothing of the simulation.
///
/// The genomes come out sorted from the lowest reward to the highest, the
/// one at place `i` of `n` mutated at the rate `i / n`.
pub fn scrambling_nextgen<G: RandomlyMutable<Context = ()>>(rewards: Vec<(G, i64)>) -> (next: Vec<G>)
    ensures
        next@.len() == rewards@.len(),
        forall|i: int|
            0 <= i < next@.len() ==> sorted_ascending(rewards@)[i].0.mutates_into(
                &(),
                scramble_rate(i as nat, rewards@.len()),
                &#[trigger] next@[i],
            ),
{
    let sorted = sort_ascending(rewards);
    let count = sorted.len();
    let mut rng = rand::rng();
    let mut next: Vec<G> = Vec::new();
    for pair in it: sorted
        invariant
            it.seq() == sorted@,
            count == sorted@.len(),
            sorted@ == sorted_ascending(rewards@),
            sorted@.len() == rewards@.len(),
            next@.len() == it.index(),
            forall|i: int|
                0 <= i < next@.len() ==> sorted@[i].0.mutates_into(
                    &(),
                    scramble_rate(i as nat, count as nat),
                    &#[trigger] next@[i],
                ),
    {
        let place = next.len();
        let rate = Ratio::new(place as u64, count as u64).unwrap();
        let mut genome = pair.0;
        genome.mutate(&(), rate, &mut rng);
        next.push(genome);
    }
    next
}

/// Prunes the worse half and refills the population with children of the
/// champions, who divide in turn.
pub fn division_pruning_nextgen<G: DivisionReproduction + Prunable + Clone>(rewards: Vec<(G, i64)>) -> (next: Vec<
    G,
>)
    requires
        rewards@.len() > 0,
    ensures
        refilled(pruned(rewards@), rewards@.len(), next@),
        forall|k: int|
            pruned(rewards@).len() <= k < next@.len() ==> pruned(rewards@)[champion_of(
                pruned(rewards@).len(),
                k,
            )].divides_to(&#[trigger] next@[k]),
{
    let population_size = rewards.len();
    let mut next = pruning_helper(rewards);
    let champions = next.len();
    let ghost before = next@;
    let mut rng = rand::rng();
    let mut turn: usize = 0;
    proof {
        lemma_next_turn(champions as nat, champions as int);
    }
    while next.len() < population_size
        invariant
            0 < champions == before.len(),
            champions <= next@.len() <= population_size,
            next@.subrange(0, champions as int) == before,
            turn == champion_of(champions as nat, next@.len() as int),
            forall|k: int|
                champions <= k < next@.len() ==> before[champion_of(champions as nat, k)].divides_to(
                    &#[trigger] next@[k],
                ),
        decreases population_size - next@.len(),
    {
        proof {
            lemma_next_turn(champions as nat, next@.len() as int);
        }
        let child = next[turn].divide(&mut rng);
        next.push(child);
        turn = if turn + 1 == champions {
            0
        } else {
            turn + 1
        };
    }
    next
}

/// Every genome after the champions is a child of the champion whose turn
/// it was and of that champion's partner for some draw.
pub open spec fn crossed<G: CrossoverReproduction>(champions: Seq<G>, next: Seq<G>) -> bool {
    forall|k: int| champions.len() <= k < next.len() ==> is_crossed_at(champions, k, &#[trigger] next[k])
}

/// `child` is a child of the champion whose turn it is at place `k`, and of
/// that champion's partner for some draw.
pub open spec fn is_crossed_at<G: CrossoverReproduction>(champions: Seq<G>, k: int, child: &G) -> bool {
    exists|draw: int| #[trigger] is_crossed(champions, champion_of(champions.len(), k), draw, child)
}

/// `child` is a child of the champion at place `parent` and of its partner
/// for the draw `draw`.
pub open spec fn is_crossed<G: CrossoverReproduction>(champions: Seq<G>, parent: int, draw: int, child: &G) -> bool {
    &&& 1 <= draw < champions.len()
    &&& champions[parent].crosses_to(&champions[partner(parent, draw)], child)
}

/// Prunes the worse half and refills the population with children of two
/// champions each: the champions take turns, and each mates with another
/// champion that is drawn.
pub fn crossover_pruning_nextgen<G: CrossoverReproduction + Prunable + Clone>(rewards: Vec<(G, i64)>) -> (next:
    Vec<G>)
    requires
        rewards@.len() > 0,
        pruned(rewards@).len() >= 2 || pruned(rewards@).len() == rewards@.len(),
    ensures
        refilled(pruned(rewards@), rewards@.len(), next@),
        crossed(pruned(rewards@), next@),
{
    let population_size = rewards.len();
    let mut next = pruning_helper(rewards);
    let champions = next.len();
    let ghost before = next@;
    let mut rng = rand::rng();
    let mut turn: usize = 0;
    proof {
        lemma_next_turn(champions as nat, champions as int);
    }
    while next.len() < population_size
        invariant
            0 < champions == before.len(),
            champions <= next@.len() <= population_size,
            next@.len() < population_size ==> 2 <= champions,
            next@.subrange(0, champions as int) == before,
            turn == champion_of(champions as nat, next@.len() as int),
            crossed(before, next@),
        decreases population_size - next@.len(),
    {
        proof {
            lemma_next_turn(champions as nat, next@.len() as int);
        }
        let ghost grown = next@;
        let draw = random_index(&mut rng, 1, champions);
        let mate = partner_index(turn, draw);
        let child = next[turn].crossover(&next[mate], &mut rng);
        next.push(child);
        assert(crossed(before, next@)) by {
            assert forall|k: int| before.len() <= k < next@.len() implies is_crossed_at(
                before,
                k,
                &#[trigger] next@[k],
            ) by {
                if k >= grown.len() {
                    assert(is_crossed(before, champion_of(before.len(), k), draw as int, &next@[k]));
                }
            }
        }
        turn = if turn + 1 == champions {
            0
        } else {
            turn + 1
        };
    }
    next
}

/// The genomes that were answered for with yes, in their order.
pub open spec fn picked<G>(genomes: Seq<G>, verdicts: Seq<bool>) -> Seq<G>
    decreases genomes.len(),
{
    if genomes.len() == 0 {
        Seq::empty()
    } else if verdicts.last() {
        picked(genomes.drop_last(), verdicts.drop_last()).push(genomes.last())
    } else {
        picked(genomes.drop_last(), verdicts.drop_last())
    }
}

/// What the references refer to.
pub open spec fn referents<G>(references: Seq<&G>) -> Seq<G> {
    Seq::new(references.len(), |i: int| *references[i])
}

/// A genome that can tell whether another genome is of its species.
pub trait Speciated: Sized {
    /// Whether `same` may be the answer to whether `self` and `other` are of
    /// one species.
    open spec fn may_be_same_species(&self, other: &Self, same: bool) -> bool {
        true
    }

    /// Whether the two genomes are similar enough to be of one species.
    fn is_same_species(&self, other: &Self) -> (same: bool)
        ensures
            self.may_be_same_species(other, same),
    ;

    /// The genomes of `genomes` that are of one species with this genome.
    fn filter_same_species<'a>(&'a self, genomes: &'a [Self]) -> (same: Vec<&'a Self>)
        ensures
            exists|verdicts: Seq<bool>|
                {
                    &&& verdicts.len() == genomes@.len()
                    &&& forall|i: int|
                        0 <= i < genomes@.len() ==> self.may_be_same_species(
                            &genomes@[i],
                            #[trigger] verdicts[i],
                        )
                    &&& referents(same@) == #[trigger] picked(genomes@, verdicts)
                },
    {
        let mut same: Vec<&Self> = Vec::new();
        let ghost mut verdicts: Seq<bool> = Seq::empty();
        let mut i: usize = 0;
        while i < genomes.len()
            invariant
                i <= genomes@.len(),
                verdicts.len() == i,
                forall|k: int|
                    0 <= k < i ==> self.may_be_same_species(&genomes@[k], #[trigger] verdicts[k]),
                referents(same@) == picked(genomes@.take(i as int), verdicts),
            decreases genomes@.len() - i,
        {
            let answer = self.is_same_species(&genomes[i]);
            proof {
                assert(genomes@.take(i + 1).drop_last() =~= genomes@.take(i as int));
                assert(verdicts.push(answer).drop_last() =~= verdicts);
                verdicts = verdicts.push(answer);
            }
            if answer {
                same.push(&genomes[i]);
            }
            i += 1;
        }
        assert(genomes@.take(genomes@.len() as int) =~= genomes@);
        same
    }
}

/// Whether `verdicts` may be the answers to whether `genome` is of one
/// species with each of `genomes`.
pub open spec fn tells_species<G: Speciated>(genome: &G, genomes: Seq<G>, verdicts: Seq<bool>) -> bool {
    &&& verdicts.len() == genomes.len()
    &&& forall|i: int|
        0 <= i < genomes.len() ==> genome.may_be_same_species(&genomes[i], #[trigger] verdicts[i])
}


/// Whether `child` may be what `genome` makes with the genomes `same` of
/// its species: its child alone if there are none, else its child with one
/// of them.
pub open spec fn mates_to<G: CrossoverReproduction + DivisionReproduction>(genome: &G, same: Seq<G>, child: &G) -> bool {
    if same.len() == 0 {
        genome.divides_to(child)
    } else {
        exists|draw: int| 0 <= draw < same.len() && genome.crosses_to(&#[trigger] same[draw], child)
    }
}

/// Whether `child` may be what `genome` makes among `genomes`: a child with
/// one of those that it takes to be of its species, or its child alone if
/// it takes none to be.
pub open spec fn is_species_child<G: CrossoverReproduction + DivisionReproduction + Speciated>(
    genome: &G,
    genomes: Seq<G>,
    child: &G,
) -> bool {
    exists|verdicts: Seq<bool>| #[trigger]
        tells_species(genome, genomes, verdicts) && mates_to(genome, picked(genomes, verdicts), child)
}

/// Makes a child of `genome` and of a genome of its species that is drawn
/// from `genomes`; where there is none, `genome` divides.
pub fn species_helper<G: CrossoverReproduction + Speciated + DivisionReproduction>(
    genome: &G,
    genomes: &[G],
    rng: &mut ThreadRng,
) -> (child: G)
    ensures
        is_species_child(genome, genomes@, &child),
{
    let same_species = genome.filter_same_species(genomes);
    let ghost verdicts = choose|verdicts: Seq<bool>|
        {
            &&& verdicts.len() == genomes@.len()
            &&& forall|i: int|
                0 <= i < genomes@.len() ==> genome.may_be_same_species(&genomes@[i], #[trigger] verdicts[i])
            &&& referents(same_species@) == #[trigger] picked(genomes@, verdicts)
        };
    assert(tells_species(genome, genomes@, verdicts));
    if same_species.len() == 0 {
        let child = genome.divide(rng);
        return child;
    }
    let draw = random_index(rng, 0, same_species.len());
    let other = same_species[draw];
    let child = genome.crossover(other, rng);
    assert(genome.crosses_to(&referents(same_species@)[draw as int], &child));
    child
}

/// Prunes the worse half and refills the population with children of the
/// champions, who take turns: each mates with a champion of its species, or
/// divides where it finds none.
pub fn speciated_crossover_pruning_nextgen<
    G: CrossoverReproduction + DivisionReproduction + Speciated + Prunable + Clone,
>(rewards: Vec<(G, i64)>) -> (next: Vec<G>)
    requires
        rewards@.len() > 0,
    ensures
        refilled(pruned(rewards@), rewards@.len(), next@),
        forall|k: int|
            pruned(rewards@).len() <= k < next@.len() ==> is_species_child(
                &pruned(rewards@)[champion_of(pruned(rewards@).len(), k)],
                pruned(rewards@),
                &#[trigger] next@[k],
            ),
{
    let population_size = rewards.len();
    let mut next = pruning_helper(rewards);
    let champions = next.len();
    let ghost before = next@;
    let mut rng = rand::rng();
    let mut children: Vec<G> = Vec::new();
    let mut turn: usize = 0;
    proof {
        lemma_next_turn(champions as nat, champions as int);
    }
    while children.len() < population_size - champions
        invariant
            0 < champions == before.len(),
            champions <= population_size,
            next@ == before,
            children@.len() <= population_size - champions,
            turn == champion_of(champions as nat, champions + children@.len()),
            forall|c: int|
                0 <= c < children@.len() ==> is_species_child(
                    &before[champion_of(champions as nat, champions + c)],
                    before,
                    &#[trigger] children@[c],
                ),
        decreases population_size - champions - children@.len(),
    {
        proof {
            lemma_next_turn(champions as nat, champions + children@.len());
        }
        let child = species_helper(&next[turn], next.as_slice(), &mut rng);
        children.push(child);
        turn = if turn + 1 == champions {
            0
        } else {
            turn + 1
        };
    }
    next.append(&mut children);
    assert(next@.subrange(0, champions as int) =~= before);
    next
}

/// A population together with a fitness function and a strategy that makes
/// the next generation from the scored population.
#[verifier::reject_recursive_types(G)]
pub struct GeneticSim<G, F: Fn(&G) -> i64, N: Fn(Vec<(G, i64)>) -> Vec<G>> {
    /// The current population.
    pub genomes: Vec<G>,
    /// The measure by which genomes are scored.
    pub fitness: F,
    /// The strategy that makes the next generation.
    pub next_gen: N,
}

impl<G, F: Fn(&G) -> i64, N: Fn(Vec<(G, i64)>) -> Vec<G>> GeneticSim<G, F, N> {
    /// A simulation that starts from `starting_genomes`.
    pub fn new(starting_genomes: Vec<G>, fitness: F, next_gen: N) -> (sim: Self)
        ensures
            sim.genomes == starting_genomes,
            sim.fitness == fitness,
            sim.next_gen == next_gen,
    {
        Self { genomes: starting_genomes, fitness, next_gen }
    }

    /// Whether `rewards` may be `genomes` with the scores that the fitness
    /// function gives them.
    pub open spec fn rewards(&self, genomes: Seq<G>, rewards: Seq<(G, i64)>) -> bool {
        &&& genomes_of(rewards) == genomes
        &&& forall|i: int|
            0 <= i < genomes.len() ==> call_ensures(self.fitness, (&genomes[i],), (#[trigger] rewards[i]).1)
    }

    /// The population `genomes` can be carried to a next generation: every
    /// genome can be scored, and the strategy takes them with any scores
    /// that they may get.
    pub open spec fn can_advance(&self, genomes: Seq<G>) -> bool {
        &&& forall|i: int| 0 <= i < genomes.len() ==> call_requires(self.fitness, (&#[trigger] genomes[i],))
        &&& forall|scored: Vec<(G, i64)>| #[trigger]
            self.rewards(genomes, scored@) ==> call_requires(self.next_gen, (scored,))
    }

    /// `after` may be the generation that follows `before`: what the strategy
    /// makes of `before` with the scores that the fitness function gives.
    pub open spec fn is_next_generation(&self, before: Seq<G>, after: Seq<G>) -> bool {
        exists|scored: Vec<(G, i64)>, next: Vec<G>| #[trigger]
            call_ensures(self.next_gen, (scored,), next) && self.rewards(before, scored@) && next@ == after
    }

    /// Replaces the population by its next generation.
    pub fn next_generation(&mut self)
        requires
            old(self).can_advance(old(self).genomes@),
        ensures
            final(self).fitness == old(self).fitness,
            final(self).next_gen == old(self).next_gen,
            old(self).is_next_generation(old(self).genomes@, final(self).genomes@),
    {
        let mut genomes: Vec<G> = Vec::new();
        std::mem::swap(&mut self.genomes, &mut genomes);
        let mut scored: Vec<(G, i64)> = Vec::new();
        for genome in it: genomes
            invariant
                it.seq() == genomes@,
                scored@.len() == it.index(),
                forall|i: int|
                    0 <= i < genomes@.len() ==> call_requires(self.fitness, (&#[trigger] genomes@[i],)),
                forall|i: int| 0 <= i < scored@.len() ==> (#[trigger] scored@[i]).0 == genomes@[i],
                forall|i: int|
                    0 <= i < scored@.len() ==> call_ensures(
                        self.fitness,
                        (&genomes@[i],),
                        (#[trigger] scored@[i]).1,
                    ),
        {
            let score = (self.fitness)(&genome);
            scored.push((genome, score));
        }
        assert(genomes_of(scored@) =~= genomes@);
        assert(old(self).rewards(old(self).genomes@, scored@));
        let next = (self.next_gen)(scored);
        self.genomes = next;
    }
}

} // verus!
