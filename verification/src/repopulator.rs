//! Repopulation: the step that breeds new genomes from the survivors until
//! the population has its size again.

use crate::genome::{divides_into, Crossover, Mitosis};
use crate::random::random_index;
use crate::ratio::Ratio;
use std::marker::PhantomData;
use vstd::prelude::*;

verus! {

/// A policy that refills a population from its survivors.
pub trait Repopulator<G> {
    /// The survivors and target sizes on which this policy can be applied.
    open spec fn accepts(&self, genomes: Seq<G>, target_size: nat) -> bool {
        true
    }

    /// Whether `after` may be what this policy makes of the survivors `before`.
    open spec fn repopulates(&self, before: Seq<G>, target_size: nat, after: Seq<G>) -> bool {
        true
    }

    /// Appends newly bred genomes to the survivors.
    fn repopulate(&self, genomes: &mut Vec<G>, target_size: usize)
        requires
            self.accepts(old(genomes)@, target_size as nat),
        ensures
            self.repopulates(old(genomes)@, target_size as nat, final(genomes)@),
    ;
}

/// The survivors are still there, in their places, and the population has
/// its target size.
pub open spec fn refilled<G>(before: Seq<G>, target_size: nat, after: Seq<G>) -> bool {
    &&& before.len() <= target_size
    &&& after.len() == target_size
    &&& after.subrange(0, before.len() as int) == before
}

/// Whatever the repopulator makes of any survivors has the target size.
pub open spec fn restores_size<G, R: Repopulator<G>>(repopulator: R) -> bool {
    forall|before: Seq<G>, target_size: nat, after: Seq<G>| #[trigger]
        repopulator.repopulates(before, target_size, after) ==> after.len() == target_size
}

/// Whatever the repopulator makes of any survivors begins with the survivors.
pub open spec fn keeps_survivors<G, R: Repopulator<G>>(repopulator: R) -> bool {
    forall|before: Seq<G>, target_size: nat, after: Seq<G>| #[trigger]
        repopulator.repopulates(before, target_size, after) ==> before.len() <= after.len()
            && after.subrange(0, before.len() as int) == before
}

/// The champion whose turn it is to be the parent of the genome at place
/// `k`: the champions take turns in their order, again and again.
pub open spec fn champion_of(champions: nat, k: int) -> int {
    (k - champions) % (champions as int)
}

/// Taking turns: after the last champion comes the first.
pub proof fn lemma_next_turn(champions: nat, k: int)
    requires
        0 < champions <= k,
    ensures
        0 <= champion_of(champions, k) < champions,
        champion_of(champions, k + 1) == if champion_of(champions, k) + 1 == champions {
            0
        } else {
            champion_of(champions, k) + 1
        },
        champion_of(champions, champions as int) == 0,
{
    let n = champions as int;
    let x = k - n;
    assert(0 <= x % n < n) by (nonlinear_arith)
        requires
            0 < n,
            0 <= x,
    ;
    assert((x + 1) % n == if x % n + 1 == n { 0 } else { x % n + 1 }) by (nonlinear_arith)
        requires
            0 < n,
            0 <= x,
    ;
    assert(0int % n == 0) by (nonlinear_arith)
        requires
            0 < n,
    ;
}

/// Refills the population with mutated copies of the survivors.
pub struct MitosisRepopulator<G: Mitosis> {
    /// How strongly the children are mutated.
    pub mutation_rate: Ratio,
    /// What the genomes are told of the simulation when they mutate.
    pub ctx: G::Context,
    /// Ties the repopulator to the genome type that it works on.
    pub marker: PhantomData<G>,
}

impl<G: Mitosis> MitosisRepopulator<G> {
    /// A repopulator that mutates children at `mutation_rate`.
    pub fn new(mutation_rate: Ratio, ctx: G::Context) -> (repopulator: Self)
        ensures
            repopulator.mutation_rate == mutation_rate,
            repopulator.ctx == ctx,
    {
        Self { mutation_rate, ctx, marker: PhantomData }
    }
}

impl<G: Mitosis> Repopulator<G> for MitosisRepopulator<G> {
    open spec fn accepts(&self, genomes: Seq<G>, target_size: nat) -> bool {
        genomes.len() == target_size || 0 < genomes.len() < target_size
    }

    open spec fn repopulates(&self, before: Seq<G>, target_size: nat, after: Seq<G>) -> bool {
        &&& refilled(before, target_size, after)
        &&& forall|k: int|
            before.len() <= k < target_size ==> divides_into(
                &before[champion_of(before.len(), k)],
                &self.ctx,
                self.mutation_rate,
                &#[trigger] after[k],
            )
    }

    fn repopulate(&self, genomes: &mut Vec<G>, target_size: usize) {
        let champions = genomes.len();
        let ghost before = genomes@;
        let mut rng = rand::rng();
        let mut turn: usize = 0;
        proof {
            if 0 < champions {
                lemma_next_turn(champions as nat, champions as int);
            }
        }
        while genomes.len() < target_size
            invariant
                champions == before.len(),
                champions <= genomes@.len() <= target_size,
                genomes@.len() < target_size ==> 0 < champions,
                genomes@.subrange(0, champions as int) == before,
                0 < champions ==> turn == champion_of(champions as nat, genomes@.len() as int),
                forall|k: int|
                    champions <= k < genomes@.len() ==> divides_into(
                        &before[champion_of(champions as nat, k)],
                        &self.ctx,
                        self.mutation_rate,
                        &#[trigger] genomes@[k],
                    ),
            decreases target_size - genomes@.len(),
        {
            proof {
                lemma_next_turn(champions as nat, genomes@.len() as int);
            }
            let child = genomes[turn].divide(&self.ctx, self.mutation_rate, &mut rng);
            genomes.push(child);
            turn = if turn + 1 == champions {
                0
            } else {
                turn + 1
            };
        }
    }
}

/// Repopulation by mitosis restores the size of the population and keeps
/// the survivors.
pub proof fn lemma_mitosis_refills<G: Mitosis>(repopulator: MitosisRepopulator<G>)
    ensures
        restores_size::<G, _>(repopulator),
        keeps_survivors::<G, _>(repopulator),
{
}

/// The partner of the parent at place `parent` among the champions, given a
/// draw from `1..champions`: the champion drawn, or the first champion if the
/// parent itself was drawn.
pub open spec fn partner(parent: int, draw: int) -> int {
    if draw == parent {
        0
    } else {
        draw
    }
}

/// The partner of the parent at place `parent`, given a draw.
pub fn partner_index(parent: usize, draw: usize) -> (mate: usize)
    ensures
        mate == partner(parent as int, draw as int),
{
    if draw == parent {
        0
    } else {
        draw
    }
}

/// No genome is its own partner, whatever is drawn.
pub proof fn lemma_partner_is_another(champions: nat, parent: int, draw: int)
    requires
        0 <= parent < champions,
        1 <= draw < champions,
    ensures
        0 <= partner(parent, draw) < champions,
        partner(parent, draw) != parent,
{
}

/// Refills the population with children of two survivors each.
pub struct CrossoverRepopulator<G: Crossover> {
    /// How strongly the children are mutated.
    pub mutation_rate: Ratio,
    /// What the genomes are told of the simulation when they reproduce.
    pub ctx: G::Context,
    /// Ties the repopulator to the genome type that it works on.
    pub marker: PhantomData<G>,
}

impl<G: Crossover> CrossoverRepopulator<G> {
    /// A repopulator that mutates children at `mutation_rate`.
    pub fn new(mutation_rate: Ratio, ctx: G::Context) -> (repopulator: Self)
        ensures
            repopulator.mutation_rate == mutation_rate,
            repopulator.ctx == ctx,
    {
        Self { mutation_rate, ctx, marker: PhantomData }
    }
}

/// Every genome after the survivors is a child of the champion whose turn it
/// was and of that champion's partner for some draw.
pub open spec fn crossbred<G: Crossover>(before: Seq<G>, ctx: &G::Context, rate: Ratio, after: Seq<G>) -> bool {
    forall|k: int| before.len() <= k < after.len() ==> is_cross_at(before, ctx, rate, k, &#[trigger] after[k])
}

/// `child` is a child of the champion whose turn it is at place `k`, and of
/// that champion's partner for some draw.
pub open spec fn is_cross_at<G: Crossover>(
    champions: Seq<G>,
    ctx: &G::Context,
    rate: Ratio,
    k: int,
    child: &G,
) -> bool {
    exists|draw: int| #[trigger] is_cross(champions, champion_of(champions.len(), k), draw, ctx, rate, child)
}

/// `child` is a child of the champion at place `parent` and of its partner
/// for the draw `draw`.
pub open spec fn is_cross<G: Crossover>(
    champions: Seq<G>,
    parent: int,
    draw: int,
    ctx: &G::Context,
    rate: Ratio,
    child: &G,
) -> bool {
    &&& 1 <= draw < champions.len()
    &&& champions[parent].crosses_into(&champions[partner(parent, draw)], ctx, rate, child)
}

/// Refills `genomes` with children of two of them each: the survivors take
/// turns as the first parent, and the second is another survivor that is
/// drawn.
pub fn crossbreed<G: Crossover>(genomes: &mut Vec<G>, target_size: usize, ctx: &G::Context, rate: Ratio)
    requires
        old(genomes)@.len() == target_size || 2 <= old(genomes)@.len() < target_size,
    ensures
        refilled(old(genomes)@, target_size as nat, final(genomes)@),
        crossbred(old(genomes)@, ctx, rate, final(genomes)@),
{
    let champions = genomes.len();
    let ghost before = genomes@;
    let mut rng = rand::rng();
    let mut turn: usize = 0;
    proof {
        if 0 < champions {
            lemma_next_turn(champions as nat, champions as int);
        }
    }
    while genomes.len() < target_size
        invariant
            champions == before.len(),
            champions <= genomes@.len() <= target_size,
            genomes@.len() < target_size ==> 2 <= champions,
            genomes@.subrange(0, champions as int) == before,
            0 < champions ==> turn == champion_of(champions as nat, genomes@.len() as int),
            crossbred(before, ctx, rate, genomes@),
        decreases target_size - genomes@.len(),
    {
        proof {
            lemma_next_turn(champions as nat, genomes@.len() as int);
        }
        let ghost grown = genomes@;
        let draw = random_index(&mut rng, 1, champions);
        let mate = partner_index(turn, draw);
        let child = genomes[turn].crossover(&genomes[mate], ctx, rate, &mut rng);
        genomes.push(child);
        assert(crossbred(before, ctx, rate, genomes@)) by {
            assert forall|k: int| before.len() <= k < genomes@.len() implies is_cross_at(
                before,
                ctx,
                rate,
                k,
                &#[trigger] genomes@[k],
            ) by {
                if k >= grown.len() {
                    assert(is_cross(before, champion_of(before.len(), k), draw as int, ctx, rate, &genomes@[k]));
                }
            }
        }
        turn = if turn + 1 == champions {
            0
        } else {
            turn + 1
        };
    }
}

impl<G: Crossover> Repopulator<G> for CrossoverRepopulator<G> {
    open spec fn accepts(&self, genomes: Seq<G>, target_size: nat) -> bool {
        genomes.len() == target_size || 2 <= genomes.len() < target_size
    }

    open spec fn repopulates(&self, before: Seq<G>, target_size: nat, after: Seq<G>) -> bool {
        refilled(before, target_size, after) && crossbred(before, &self.ctx, self.mutation_rate, after)
    }

    fn repopulate(&self, genomes: &mut Vec<G>, target_size: usize) {
        crossbreed(genomes, target_size, &self.ctx, self.mutation_rate);
    }
}

/// Repopulation by crossover restores the size of the population and keeps
/// the survivors.
pub proof fn lemma_crossover_refills<G: Crossover>(repopulator: CrossoverRepopulator<G>)
    ensures
        restores_size::<G, _>(repopulator),
        keeps_survivors::<G, _>(repopulator),
{
}

/// No child of a crossover has one genome for both parents: whatever is
/// drawn for the genome at place `k`, its two parents stand at different
/// places among the survivors.
pub proof fn lemma_crossover_parents_differ(champions: nat, k: int, draw: int)
    requires
        2 <= champions <= k,
        1 <= draw < champions,
    ensures
        0 <= champion_of(champions, k) < champions,
        0 <= partner(champion_of(champions, k), draw) < champions,
        partner(champion_of(champions, k), draw) != champion_of(champions, k),
{
    lemma_next_turn(champions, k);
    lemma_partner_is_another(champions, champion_of(champions, k), draw);
}

} // verus!
