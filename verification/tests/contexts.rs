use genetic_rs::prelude::{
    Crossover, CrossoverRepopulator, Mitosis, MitosisRepopulator, RandomlyMutable, Ratio, Repopulator,
    Speciated, SpeciatedCrossoverRepopulator,
};
use rand::rngs::ThreadRng;

/// What the simulation tells its genomes: how far a mutation goes.
struct Climate {
    step: i64,
}

#[derive(Clone, Debug, PartialEq)]
struct Plant {
    height: i64,
}

impl RandomlyMutable for Plant {
    type Context = Climate;

    fn mutate(&mut self, ctx: &Climate, rate: Ratio, _rng: &mut ThreadRng) {
        self.height += ctx.step * rate.numerator() as i64;
    }
}

impl Mitosis for Plant {}

impl Crossover for Plant {
    type Context = Climate;

    fn crossover(&self, other: &Self, ctx: &Climate, rate: Ratio, rng: &mut ThreadRng) -> Self {
        let mut child = Plant { height: self.height.max(other.height) };
        child.mutate(ctx, rate, rng);
        child
    }
}

impl Speciated for Plant {
    fn species(&self) -> u64 {
        0
    }
}

fn heights(plants: &[Plant]) -> Vec<i64> {
    plants.iter().map(|p| p.height).collect()
}

#[test]
fn context_reaches_every_division() {
    let mut plants = vec![Plant { height: 1 }, Plant { height: 2 }];
    MitosisRepopulator::new(Ratio::new(3, 5).unwrap(), Climate { step: 100 }).repopulate(&mut plants, 5);
    assert_eq!(heights(&plants), vec![1, 2, 301, 302, 301]);
}

#[test]
fn context_reaches_every_crossover() {
    let mut plants = vec![Plant { height: 1 }, Plant { height: 2 }];
    CrossoverRepopulator::new(Ratio::new(1, 5).unwrap(), Climate { step: 10 }).repopulate(&mut plants, 6);
    assert_eq!(heights(&plants), vec![1, 2, 12, 12, 12, 12]);
}

#[test]
fn context_reaches_every_crossover_within_species() {
    let mut plants = vec![Plant { height: 1 }, Plant { height: 2 }, Plant { height: 3 }];
    SpeciatedCrossoverRepopulator::new(Ratio::new(1, 5).unwrap(), false, Climate { step: 10 })
        .repopulate(&mut plants, 9);
    assert_eq!(plants.len(), 9);
    for child in &plants[3..] {
        assert!(child.height == 12 || child.height == 13);
    }
}
