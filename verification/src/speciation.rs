//! Repopulation by crossover within species.

use crate::genome::{Crossover, Speciated};
use crate::random::random_index;
use crate::ratio::Ratio;
use crate::repopulator::{
    crossbred, crossbreed, keeps_survivors, partner, partner_index, refilled, restores_size, Repopulator,
};
use crate::species::{
    group_by_species, has_mates, is_grouping, lemma_mates_share_species, lemma_mating_group,
    lemma_mating_iff_mates, lemma_turn_in_group, mating, mating_groups, next_turn, positions_of,
    turn_after, turn_at,
};
use std::marker::PhantomData;
use vstd::prelude::*;

verus! {

/// Whether `keys` may be the species that the genomes report, one by one.
pub open spec fn reports_species<G: Speciated>(genomes: Seq<G>, keys: Seq<u64>) -> bool {
    &&& keys.len() == genomes.len()
    &&& forall|i: int| 0 <= i < genomes.len() ==> (#[trigger] genomes[i]).has_species(keys[i])
}

/// Asks every genome for its species.
pub fn species_of_all<G: Speciated>(genomes: &Vec<G>) -> (keys: Vec<u64>)
    ensures
        reports_species(genomes@, keys@),
{
    let mut keys: Vec<u64> = Vec::new();
    let mut i: usize = 0;
    while i < genomes.len()
        invariant
            i <= genomes@.len(),
            keys@.len() == i,
            forall|k: int| 0 <= k < i ==> (#[trigger] genomes@[k]).has_species(keys@[k]),
        decreases genomes@.len() - i,
    {
        let key = genomes[i].species();
        keys.push(key);
        i += 1;
    }
    keys
}

/// `child` is a child of the member at place `i` of `group` and of its
/// partner in the group for the draw `draw`.
pub open spec fn is_species_cross<G: Crossover>(
    champions: Seq<G>,
    group: Seq<usize>,
    i: int,
    draw: int,
    ctx: &G::Context,
    rate: Ratio,
    child: &G,
) -> bool {
    &&& 1 <= draw < group.len()
    &&& champions[group[i] as int].crosses_into(&champions[group[partner(i, draw)] as int], ctx, rate, child)
}

/// `child` is a child of the genome whose turn it is for child number
/// `number`, and of that genome's partner in its group for some draw.
pub open spec fn is_species_cross_at<G: Crossover>(
    champions: Seq<G>,
    mates: Seq<Seq<usize>>,
    ctx: &G::Context,
    rate: Ratio,
    number: nat,
    child: &G,
) -> bool {
    exists|draw: int| #[trigger]
        is_species_cross(
            champions,
            mates[turn_at(mates, number).0],
            turn_at(mates, number).1,
            draw,
            ctx,
            rate,
            child,
        )
}

/// Every genome after the survivors is a child of two survivors of one
/// mating group, the groups' members taking turns as parents.
pub open spec fn species_bred<G: Crossover>(
    before: Seq<G>,
    mates: Seq<Seq<usize>>,
    ctx: &G::Context,
    rate: Ratio,
    after: Seq<G>,
) -> bool {
    forall|k: int|
        before.len() <= k < after.len() ==> is_species_cross_at(
            before,
            mates,
            ctx,
            rate,
            (k - before.len()) as nat,
            &#[trigger] after[k],
        )
}

/// Refills the population with children of two survivors of one species each.
pub struct SpeciatedCrossoverRepopulator<G: Crossover + Speciated> {
    /// How strongly the children are mutated.
    pub mutation_rate: Ratio,
    /// Whether genomes may mate across species when no species has two members.
    pub allow_emergency_repr: bool,
    /// What the genomes are told of the simulation when they reproduce.
    pub ctx: <G as Crossover>::Context,
    /// Ties the repopulator to the genome type that it works on.
    pub marker: PhantomData<G>,
}

impl<G: Crossover + Speciated> SpeciatedCrossoverRepopulator<G> {
    /// A repopulator that mutates children at `mutation_rate`.
    pub fn new(mutation_rate: Ratio, allow_emergency_repr: bool, ctx: <G as Crossover>::Context) -> (repopulator:
        Self)
        ensures
            repopulator.mutation_rate == mutation_rate,
            repopulator.allow_emergency_repr == allow_emergency_repr,
            repopulator.ctx == ctx,
    {
        Self { mutation_rate, allow_emergency_repr, ctx, marker: PhantomData }
    }

    /// Whether `after` may be bred from `before`, given the species `keys`
    /// that the genomes reported and the `groups` that they form: within the
    /// mating groups if there is one, else across species.
    pub open spec fn breeds(&self, before: Seq<G>, keys: Seq<u64>, groups: Seq<Seq<usize>>, after: Seq<G>) -> bool {
        &&& reports_species(before, keys)
        &&& is_grouping(keys, groups)
        &&& if mating(groups).len() > 0 {
            species_bred(before, mating(groups), &self.ctx, self.mutation_rate, after)
        } else {
            self.allow_emergency_repr && crossbred(before, &self.ctx, self.mutation_rate, after)
        }
    }
}

impl<G: Crossover + Speciated> Repopulator<G> for SpeciatedCrossoverRepopulator<G> {
    open spec fn accepts(&self, genomes: Seq<G>, target_size: nat) -> bool {
        genomes.len() == target_size || {
            &&& genomes.len() < target_size
            &&& (self.allow_emergency_repr && genomes.len() >= 2) || forall|keys: Seq<u64>| #[trigger]
                reports_species(genomes, keys) ==> has_mates(keys)
        }
    }

    open spec fn repopulates(&self, before: Seq<G>, target_size: nat, after: Seq<G>) -> bool {
        &&& refilled(before, target_size, after)
        &&& before.len() < target_size ==> exists|keys: Seq<u64>, groups: Seq<Seq<usize>>| #[trigger]
            self.breeds(before, keys, groups, after)
    }

    fn repopulate(&self, genomes: &mut Vec<G>, target_size: usize) {
        let champions = genomes.len();
        let ghost before = genomes@;
        assert(genomes@.subrange(0, champions as int) =~= before);
        if champions >= target_size {
            return;
        }
        let keys = species_of_all(genomes);
        let groups = group_by_species(&keys);
        let ghost all = positions_of(groups@);
        let mates = mating_groups(groups);
        proof {
            lemma_mating_iff_mates(keys@, all);
        }
        if mates.len() == 0 && self.allow_emergency_repr {
            crossbreed(genomes, target_size, &self.ctx, self.mutation_rate);
            assert(self.breeds(before, keys@, all, genomes@));
            return;
        }
        let mut rng = rand::rng();
        let mut g: usize = 0;
        let mut i: usize = 0;
        while genomes.len() < target_size
            invariant
                champions == before.len(),
                champions <= genomes@.len() <= target_size,
                genomes@.subrange(0, champions as int) == before,
                reports_species(before, keys@),
                is_grouping(keys@, all),
                positions_of(mates@) == mating(all),
                mating(all).len() > 0,
                (g as int, i as int) == turn_at(mating(all), (genomes@.len() - champions) as nat),
                species_bred(before, mating(all), &self.ctx, self.mutation_rate, genomes@),
            decreases target_size - genomes@.len(),
        {
            let ghost number = (genomes@.len() - champions) as nat;
            let ghost grown = genomes@;
            proof {
                lemma_turn_in_group(all, number);
                lemma_mating_group(all, g as int);
            }
            let group = &mates[g];
            let draw = random_index(&mut rng, 1, group.len());
            let mate = partner_index(i, draw);
            proof {
                lemma_mates_share_species(keys@, all, g as int, i as int, mate as int);
            }
            let first = group[i];
            let second = group[mate];
            let child = genomes[first].crossover(&genomes[second], &self.ctx, self.mutation_rate, &mut rng);
            genomes.push(child);
            assert(species_bred(before, mating(all), &self.ctx, self.mutation_rate, genomes@)) by {
                assert forall|k: int| before.len() <= k < genomes@.len() implies is_species_cross_at(
                    before,
                    mating(all),
                    &self.ctx,
                    self.mutation_rate,
                    (k - before.len()) as nat,
                    &#[trigger] genomes@[k],
                ) by {
                    if k >= grown.len() {
                        assert(is_species_cross(
                            before,
                            mating(all)[g as int],
                            i as int,
                            draw as int,
                            &self.ctx,
                            self.mutation_rate,
                            &genomes@[k],
                        ));
                    }
                }
            }
            let turn = next_turn(&mates, g, i);
            g = turn.0;
            i = turn.1;
            assert(turn_at(mating(all), (number + 1) as nat) == turn_after(
                mating(all),
                turn_at(mating(all), number),
            ));
        }
        assert(self.breeds(before, keys@, all, genomes@));
    }
}

/// Repopulation within species restores the size of the population and
/// keeps the survivors.
pub proof fn lemma_speciated_refills<G: Crossover + Speciated>(repopulator: SpeciatedCrossoverRepopulator<G>)
    ensures
        restores_size::<G, _>(repopulator),
        keeps_survivors::<G, _>(repopulator),
{
}

/// Where a mating group exists, the two parents of every child are different
/// survivors that reported the same species.
pub proof fn lemma_parents_share_species(keys: Seq<u64>, groups: Seq<Seq<usize>>, number: nat, draw: int)
    requires
        is_grouping(keys, groups),
        mating(groups).len() > 0,
        1 <= draw < mating(groups)[turn_at(mating(groups), number).0].len(),
    ensures
        ({
            let turn = turn_at(mating(groups), number);
            let group = mating(groups)[turn.0];
            let first = group[turn.1];
            let second = group[partner(turn.1, draw)];
            &&& first < keys.len()
            &&& second < keys.len()
            &&& first != second
            &&& keys[first as int] == keys[second as int]
        }),
{
    lemma_turn_in_group(groups, number);
    let turn = turn_at(mating(groups), number);
    lemma_mates_share_species(keys, groups, turn.0, turn.1, partner(turn.1, draw));
}

} // verus!
