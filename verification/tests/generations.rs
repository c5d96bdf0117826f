use genetic_rs::prelude::{
    Crossover, CrossoverRepopulator, FitnessEliminator, GenerateRandom, GenerateRandomCollection,
    GeneticSim, Mitosis, MitosisRepopulator, Prunable, RandomlyMutable, Ratio, Speciated,
    SpeciatedCrossoverRepopulator,
};
use rand::rngs::ThreadRng;
use rand::Rng;

const MAGIC_NUMBER: i64 = 2_718_281;

#[derive(Default, Clone, Debug, PartialEq)]
struct MyGenome(i64);

impl RandomlyMutable for MyGenome {
    type Context = ();

    fn mutate(&mut self, _ctx: &(), rate: Ratio, rng: &mut ThreadRng) {
        let step = rng.random_range(0..1_000_000i64);
        self.0 += step * rate.numerator() as i64 / rate.denominator() as i64;
    }
}

impl Mitosis for MyGenome {}

impl Prunable for MyGenome {
    fn despawn(self) {
        println!("RIP {:?}", self);
    }
}

impl GenerateRandom for MyGenome {
    fn gen_random(rng: &mut ThreadRng) -> Self {
        Self(rng.random_range(0..1_000_000))
    }
}

#[derive(Debug, Clone, PartialEq)]
struct MyCrossoverGenome(MyGenome);

impl RandomlyMutable for MyCrossoverGenome {
    type Context = ();

    fn mutate(&mut self, _ctx: &(), rate: Ratio, rng: &mut ThreadRng) {
        self.0.mutate(&(), rate, rng);
    }
}

impl Crossover for MyCrossoverGenome {
    type Context = ();

    fn crossover(&self, other: &Self, _ctx: &(), rate: Ratio, rng: &mut ThreadRng) -> Self {
        let mut child = Self(MyGenome((self.0 .0 + other.0 .0) / 2));
        child.mutate(&(), rate, rng);
        child
    }
}

impl Prunable for MyCrossoverGenome {}

impl GenerateRandom for MyCrossoverGenome {
    fn gen_random(rng: &mut ThreadRng) -> Self {
        Self(MyGenome::gen_random(rng))
    }
}

impl Speciated for MyCrossoverGenome {
    fn species(&self) -> u64 {
        (self.0 .0 / 2_000_000) as u64
    }
}

fn my_fitness_fn(ent: &MyGenome) -> i64 {
    -(MAGIC_NUMBER - ent.0).abs()
}

fn my_crossover_fitness_fn(ent: &MyCrossoverGenome) -> i64 {
    -(MAGIC_NUMBER - ent.0 .0).abs()
}

fn quarter() -> Ratio {
    Ratio::new(1, 4).unwrap()
}

fn best(genomes: &[MyGenome]) -> i64 {
    genomes.iter().map(my_fitness_fn).max().unwrap()
}

#[test]
fn thousand_genomes_divide_for_a_hundred_generations() {
    let mut rng = rand::rng();
    let mut sim = GeneticSim::new(
        Vec::gen_random(&mut rng, 1000),
        FitnessEliminator::new_with_default(my_fitness_fn),
        MitosisRepopulator::new(quarter(), ()),
    );
    let start = best(&sim.genomes);

    sim.perform_generations(100);

    assert_eq!(sim.genomes.len(), 1000);
    // The best genome always survives, so the best fitness never falls.
    assert!(best(&sim.genomes) >= start);
}

#[test]
fn hundred_genomes_cross_for_a_hundred_generations() {
    let mut rng = rand::rng();
    let mut sim = GeneticSim::new(
        Vec::gen_random(&mut rng, 100),
        FitnessEliminator::new_with_default(my_crossover_fitness_fn),
        CrossoverRepopulator::new(quarter(), ()),
    );

    sim.perform_generations(100);

    assert_eq!(sim.genomes.len(), 100);
}

#[test]
fn hundred_genomes_cross_within_species_for_a_hundred_generations() {
    let mut rng = rand::rng();
    let mut sim = GeneticSim::new(
        Vec::gen_random(&mut rng, 100),
        FitnessEliminator::new_with_default(my_crossover_fitness_fn),
        SpeciatedCrossoverRepopulator::new(quarter(), true, ()),
    );

    sim.perform_generations(100);

    assert_eq!(sim.genomes.len(), 100);
}

#[test]
fn population_is_open_to_inspection_between_generations() {
    let mut rng = rand::rng();
    let mut sim = GeneticSim::new(
        Vec::gen_random(&mut rng, 50),
        FitnessEliminator::new(my_fitness_fn, Ratio::new(1, 5).unwrap()),
        MitosisRepopulator::new(Ratio::zero(), ()),
    );
    for _ in 0..10 {
        let mut before: Vec<i64> = sim.genomes.iter().map(|g| g.0).collect();
        sim.next_generation();
        // Without mutation every genome of the next generation was there before.
        before.sort();
        for genome in &sim.genomes {
            assert!(before.binary_search(&genome.0).is_ok());
        }
        assert_eq!(sim.genomes.len(), 50);
    }
}
