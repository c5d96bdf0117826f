//! Elimination: the step that reduces a population to its survivors.

use crate::genome::Prunable;
use crate::permutation::arrange;
use crate::ranking::{
    lemma_ranked_distinct, lemma_ranking_exists, lemma_ranking_is_permutation, rank_descending, ranking,
    ranks_before,
};
use crate::ratio::{lemma_scale_bounded, lemma_scale_monotone, Ratio};
use std::marker::PhantomData;
use vstd::prelude::*;

verus! {

/// A policy that decides which genomes of a population survive.
pub trait Eliminator<G> {
    /// The populations on which this policy can be applied.
    open spec fn accepts(&self, genomes: Seq<G>) -> bool {
        true
    }

    /// Whether `survivors` may be what this policy leaves of `genomes`.
    open spec fn eliminates(&self, genomes: Seq<G>, survivors: Seq<G>) -> bool {
        true
    }

    /// Takes the population and gives back its survivors.
    fn eliminate(&self, genomes: Vec<G>) -> (survivors: Vec<G>)
        requires
            self.accepts(genomes@),
        ensures
            self.eliminates(genomes@, survivors@),
    ;
}

/// A measure of how good a genome is; higher is better.
pub trait FitnessFn<G> {
    /// The genomes that can be scored.
    open spec fn scorable(&self, genome: &G) -> bool {
        true
    }

    /// Whether `score` may be the fitness reported for `genome`.
    open spec fn may_score(&self, genome: &G, score: i64) -> bool {
        true
    }

    /// Evaluates a genome's fitness.
    fn fitness(&self, genome: &G) -> (score: i64)
        requires
            self.scorable(genome),
        ensures
            self.may_score(genome, score),
    ;
}

impl<G, F: Fn(&G) -> i64> FitnessFn<G> for F {
    open spec fn scorable(&self, genome: &G) -> bool {
        call_requires(*self, (genome,))
    }

    open spec fn may_score(&self, genome: &G, score: i64) -> bool {
        call_ensures(*self, (genome,), score)
    }

    fn fitness(&self, genome: &G) -> (score: i64) {
        self(genome)
    }
}

/// For a function used as a fitness measure, the measure's relations are the
/// function's own precondition and postcondition.
pub proof fn lemma_fn_fitness<G, F: Fn(&G) -> i64>(f: &F, genome: &G)
    ensures
        f.scorable(genome) == call_requires(*f, (genome,)),
        forall|score: i64| f.may_score(genome, score) == call_ensures(*f, (genome,), score),
{
}

/// How many of `n` genomes a threshold keeps: the integer part of
/// `n * threshold` and one more, but never more than `n`.
pub open spec fn keep_count(n: nat, threshold: Ratio) -> nat {
    if threshold.scale(n) < n {
        threshold.scale(n) + 1
    } else {
        n
    }
}

/// A higher threshold never keeps fewer genomes of a population.
pub proof fn lemma_keep_count_monotone(n: nat, lower: Ratio, higher: Ratio)
    requires
        lower.wf(),
        higher.wf(),
        lower.le(higher),
    ensures
        keep_count(n, lower) <= keep_count(n, higher),
{
    lemma_scale_monotone(lower, higher, n);
    lemma_scale_bounded(lower, n);
    lemma_scale_bounded(higher, n);
}

/// A threshold keeps at least one genome of a population that has any, and
/// never more than there are.
pub proof fn lemma_keep_count_bounds(n: nat, threshold: Ratio)
    requires
        threshold.wf(),
    ensures
        keep_count(n, threshold) <= n,
        n > 0 ==> keep_count(n, threshold) >= 1,
{
    lemma_scale_bounded(threshold, n);
}

/// The genomes with their scores, best first, ties in the given order.
pub open spec fn ranked<G>(genomes: Seq<G>, scores: Seq<i64>) -> Seq<(G, i64)> {
    Seq::new(
        scores.len(),
        |k: int| (genomes[ranking(scores)[k] as int], scores[ranking(scores)[k] as int]),
    )
}

/// The `keep` best genomes, best first, ties in the given order.
pub open spec fn fittest<G>(genomes: Seq<G>, scores: Seq<i64>, keep: nat) -> Seq<G> {
    Seq::new(keep, |k: int| genomes[ranking(scores)[k] as int])
}

/// The fittest are genomes of the population, and none of them is taken
/// twice: they stand at different positions of the population.
pub proof fn lemma_fittest_are_distinct_members<G>(genomes: Seq<G>, scores: Seq<i64>, keep: nat, a: int, b: int)
    requires
        scores.len() == genomes.len(),
        scores.len() <= usize::MAX,
        keep <= genomes.len(),
        0 <= a < keep,
        0 <= b < keep,
    ensures
        ranking(scores)[a] < genomes.len(),
        fittest(genomes, scores, keep)[a] == genomes[ranking(scores)[a] as int],
        a != b ==> ranking(scores)[a] != ranking(scores)[b],
{
    lemma_ranking_exists(scores);
    lemma_ranked_distinct(scores, ranking(scores));
}

/// Among the fittest no genome comes behind one that scored less.
pub proof fn lemma_fittest_are_best<G>(genomes: Seq<G>, scores: Seq<i64>, keep: nat, a: int, b: int)
    requires
        scores.len() == genomes.len(),
        scores.len() <= usize::MAX,
        keep <= genomes.len(),
        0 <= a < keep,
        a < b < genomes.len(),
    ensures
        scores[ranking(scores)[a] as int] >= scores[ranking(scores)[b] as int],
{
    lemma_ranking_exists(scores);
}

/// The genomes of scored pairs.
pub open spec fn genomes_of<G>(scored: Seq<(G, i64)>) -> Seq<G> {
    Seq::new(scored.len(), |i: int| scored[i].0)
}

/// The scores of scored pairs.
pub open spec fn scores_of<G>(scored: Seq<(G, i64)>) -> Seq<i64> {
    Seq::new(scored.len(), |i: int| scored[i].1)
}

/// Sorts scored genomes from best to worst; equal scores keep their given order.
pub fn sort_by_score<G>(scored: Vec<(G, i64)>) -> (sorted: Vec<(G, i64)>)
    ensures
        sorted@ == ranked(genomes_of(scored@), scores_of(scored@)),
{
    let n = scored.len();
    let ghost given = scored@;
    let mut scores: Vec<i64> = Vec::new();
    let mut i: usize = 0;
    while i < n
        invariant
            i <= n,
            n == scored@.len(),
            scores@.len() == i,
            forall|k: int| 0 <= k < i ==> scores@[k] == scored@[k].1,
        decreases n - i,
    {
        scores.push(scored[i].1);
        i += 1;
    }
    assert(scores@ =~= scores_of(given));
    let order = rank_descending(&scores);
    proof {
        lemma_ranking_is_permutation(scores@, order@);
    }
    let sorted = arrange(scored, &order);
    sorted
}

/// Drops the scores of scored genomes.
pub fn strip_scores<G>(scored: Vec<(G, i64)>) -> (genomes: Vec<G>)
    ensures
        genomes@ == genomes_of(scored@),
{
    let mut genomes: Vec<G> = Vec::new();
    for pair in it: scored
        invariant
            genomes@.len() == it.index(),
            forall|k: int| 0 <= k < genomes@.len() ==> genomes@[k] == it.seq()[k].0,
    {
        genomes.push(pair.0);
    }
    genomes
}

/// Tells every genome of `casualties` that it was eliminated.
pub fn despawn_all<G: Prunable>(casualties: Vec<G>) {
    for genome in casualties {
        genome.despawn();
    }
}

/// Keeps the best of a population and eliminates the rest.
///
/// The share that survives is set by a threshold between zero and one. One
/// genome more than that share is kept, so a non-empty population never dies
/// out.
pub struct FitnessEliminator<F: FitnessFn<G>, G> {
    /// The measure by which genomes are compared.
    pub fitness_fn: F,
    /// The share of the population to keep.
    pub threshold: Ratio,
    /// Ties the eliminator to the genome type that it works on.
    pub marker: PhantomData<G>,
}

impl<F: FitnessFn<G>, G> FitnessEliminator<F, G> {
    /// An eliminator that keeps the share `threshold` of each population.
    pub fn new(fitness_fn: F, threshold: Ratio) -> (eliminator: Self)
        ensures
            eliminator.fitness_fn == fitness_fn,
            eliminator.threshold == threshold,
    {
        Self { fitness_fn, threshold, marker: PhantomData }
    }

    /// An eliminator that keeps the share `numer / denom` of each population,
    /// or nothing when that is not a share between zero and one.
    pub fn with_threshold(fitness_fn: F, numer: u64, denom: u64) -> (eliminator: Option<Self>)
        ensures
            (eliminator is Some) == (0 < denom && numer <= denom),
            eliminator is Some ==> eliminator->0.fitness_fn == fitness_fn && eliminator->0.threshold
                == Ratio::of(numer as nat, denom as nat),
    {
        match Ratio::new(numer, denom) {
            Some(threshold) => Some(Self::new(fitness_fn, threshold)),
            None => None,
        }
    }

    /// An eliminator that keeps half of each population.
    pub fn new_with_default(fitness_fn: F) -> (eliminator: Self)
        ensures
            eliminator.fitness_fn == fitness_fn,
            eliminator.threshold == Ratio::of(1, 2),
            eliminator.threshold.numer() == 1,
            eliminator.threshold.denom() == 2,
    {
        Self::new(fitness_fn, Ratio::half())
    }

    /// Whether `scores` may be what the fitness measure reports for `genomes`.
    pub open spec fn scores(&self, genomes: Seq<G>, scores: Seq<i64>) -> bool {
        &&& scores.len() == genomes.len()
        &&& forall|i: int|
            0 <= i < genomes.len() ==> self.fitness_fn.may_score(&genomes[i], #[trigger] scores[i])
    }

    /// Every genome of `genomes` can be scored.
    pub open spec fn can_score(&self, genomes: Seq<G>) -> bool {
        forall|i: int| 0 <= i < genomes.len() ==> self.fitness_fn.scorable(&#[trigger] genomes[i])
    }

    /// Whether `survivors` may be the fittest of `genomes`: as many as the
    /// threshold keeps, for some scores that the fitness measure may report.
    pub open spec fn selects(&self, genomes: Seq<G>, survivors: Seq<G>) -> bool {
        exists|scores: Seq<i64>|
            self.scores(genomes, scores) && survivors == fittest(
                genomes,
                scores,
                keep_count(genomes.len(), self.threshold),
            )
    }

    /// How many genomes of a population of `population` survive.
    pub fn keep_count(&self, population: usize) -> (keep: usize)
        ensures
            keep == keep_count(population as nat, self.threshold),
            keep <= population,
    {
        let share = self.threshold.scaled(population);
        if share < population {
            share + 1
        } else {
            population
        }
    }

    /// Pairs every genome with its fitness.
    pub fn score_all(&self, genomes: Vec<G>) -> (scored: Vec<(G, i64)>)
        requires
            self.can_score(genomes@),
        ensures
            genomes_of(scored@) == genomes@,
            self.scores(genomes@, scores_of(scored@)),
    {
        let mut scored: Vec<(G, i64)> = Vec::new();
        for genome in it: genomes
            invariant
                it.seq() == genomes@,
                scored@.len() == it.index(),
                forall|i: int| 0 <= i < genomes@.len() ==> self.fitness_fn.scorable(&#[trigger] genomes@[i]),
                forall|i: int| 0 <= i < scored@.len() ==> (#[trigger] scored@[i]).0 == genomes@[i],
                forall|i: int|
                    0 <= i < scored@.len() ==> self.fitness_fn.may_score(&genomes@[i], (#[trigger] scored@[i]).1),
        {
            let score = self.fitness_fn.fitness(&genome);
            scored.push((genome, score));
        }
        scored
    }

    /// Scores the genomes and sorts them from best to worst. Genomes of equal
    /// fitness keep their given order.
    pub fn calculate_and_sort(&self, genomes: Vec<G>) -> (sorted: Vec<(G, i64)>)
        requires
            self.can_score(genomes@),
        ensures
            exists|scores: Seq<i64>| self.scores(genomes@, scores) && sorted@ == ranked(genomes@, scores),
    {
        let scored = self.score_all(genomes);
        let sorted = sort_by_score(scored);
        sorted
    }
}

impl<F: FitnessFn<G>, G: Prunable> Eliminator<G> for FitnessEliminator<F, G> {
    open spec fn accepts(&self, genomes: Seq<G>) -> bool {
        self.can_score(genomes)
    }

    open spec fn eliminates(&self, genomes: Seq<G>, survivors: Seq<G>) -> bool {
        self.selects(genomes, survivors)
    }

    fn eliminate(&self, genomes: Vec<G>) -> (survivors: Vec<G>) {
        let sorted = self.calculate_and_sort(genomes);
        let ghost scores = choose|scores: Seq<i64>|
            self.scores(genomes@, scores) && sorted@ == ranked(genomes@, scores);
        let survivors = self.truncate(sorted);
        assert(survivors@ =~= fittest(genomes@, scores, keep_count(genomes@.len(), self.threshold)));
        survivors
    }
}

impl<F: FitnessFn<G>, G: Prunable> FitnessEliminator<F, G> {
    /// Keeps the head of a sorted population, as long as the threshold says,
    /// and eliminates the rest.
    pub fn truncate(&self, sorted: Vec<(G, i64)>) -> (survivors: Vec<G>)
        ensures
            survivors@ == genomes_of(sorted@).take(keep_count(sorted@.len(), self.threshold) as int),
    {
        let mut kept = sorted;
        let keep = self.keep_count(kept.len());
        let casualties = kept.split_off(keep);
        despawn_all(strip_scores(casualties));
        let survivors = strip_scores(kept);
        survivors
    }
}

/// Someone who wants to see the scores of every generation.
pub trait FitnessObserver<G> {
    /// Shown the whole population with its scores, best first, before any
    /// genome is eliminated.
    fn observe(&self, sorted: &Vec<(G, i64)>);
}

/// An eliminator by threshold that shows each scored population to an
/// observer. The observer has no say in which genomes survive.
pub struct ObservedFitnessEliminator<F: FitnessFn<G>, G, O: FitnessObserver<G>> {
    /// The eliminator that decides.
    pub eliminator: FitnessEliminator<F, G>,
    /// The observer that watches.
    pub observer: O,
}

impl<F: FitnessFn<G>, G, O: FitnessObserver<G>> ObservedFitnessEliminator<F, G, O> {
    /// Lets `observer` watch `eliminator`.
    pub fn new(eliminator: FitnessEliminator<F, G>, observer: O) -> (observed: Self)
        ensures
            observed.eliminator == eliminator,
            observed.observer == observer,
    {
        Self { eliminator, observer }
    }
}

impl<F: FitnessFn<G>, G: Prunable, O: FitnessObserver<G>> Eliminator<G> for ObservedFitnessEliminator<
    F,
    G,
    O,
> {
    open spec fn accepts(&self, genomes: Seq<G>) -> bool {
        self.eliminator.can_score(genomes)
    }

    open spec fn eliminates(&self, genomes: Seq<G>, survivors: Seq<G>) -> bool {
        self.eliminator.selects(genomes, survivors)
    }

    fn eliminate(&self, genomes: Vec<G>) -> (survivors: Vec<G>) {
        let sorted = self.eliminator.calculate_and_sort(genomes);
        let ghost scores = choose|scores: Seq<i64>|
            self.eliminator.scores(genomes@, scores) && sorted@ == ranked(genomes@, scores);
        self.observer.observe(&sorted);
        let survivors = self.eliminator.truncate(sorted);
        assert(survivors@ =~= fittest(
            genomes@,
            scores,
            keep_count(genomes@.len(), self.eliminator.threshold),
        ));
        survivors
    }
}

/// What an eliminator by threshold accepts and leaves, spelled out.
///
/// This holds by definition. It is stated for eliminators whose fitness
/// measure is a function or a closure, of which it is not seen otherwise.
pub proof fn lemma_threshold_eliminator<F: FitnessFn<G>, G: Prunable>(
    eliminator: &FitnessEliminator<F, G>,
    genomes: Seq<G>,
    survivors: Seq<G>,
)
    ensures
        eliminator.accepts(genomes) == eliminator.can_score(genomes),
        eliminator.eliminates(genomes, survivors) == eliminator.selects(genomes, survivors),
{
}

} // verus!
