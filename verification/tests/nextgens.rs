use genetic_rs::genome::{GenerateRandom, GenerateRandomCollection, Prunable, RandomlyMutable};
use genetic_rs::nextgen::{
    crossover_pruning_nextgen, division_pruning_nextgen, pruning_helper, scrambling_nextgen,
    sort_ascending, speciated_crossover_pruning_nextgen, species_helper, CrossoverReproduction,
    DivisionReproduction, GeneticSim, Speciated,
};
use genetic_rs::ranking::rank_ascending;
use genetic_rs::ratio::Ratio;
use rand::rngs::ThreadRng;
use rand::Rng;

fn as_f32(rate: Ratio) -> f32 {
    rate.numerator() as f32 / rate.denominator() as f32
}

fn quarter() -> Ratio {
    Ratio::new(1, 4).unwrap()
}

#[derive(Default, Clone, Debug, PartialEq)]
struct MyGenome(f32);

impl RandomlyMutable for MyGenome {
    type Context = ();

    fn mutate(&mut self, _ctx: &(), rate: Ratio, rng: &mut ThreadRng) {
        self.0 += rng.random::<f32>() * as_f32(rate);
    }
}

impl DivisionReproduction for MyGenome {
    fn divide(&self, rng: &mut ThreadRng) -> Self {
        let mut child = self.clone();
        child.mutate(&(), quarter(), rng);
        child
    }
}

impl Prunable for MyGenome {
    fn despawn(self) {
        println!("RIP {:?}", self);
    }
}

impl GenerateRandom for MyGenome {
    fn gen_random(rng: &mut ThreadRng) -> Self {
        Self(rng.random())
    }
}

#[derive(Debug, Clone, PartialEq)]
struct MyCrossoverGenome(MyGenome);

impl RandomlyMutable for MyCrossoverGenome {
    type Context = ();

    fn mutate(&mut self, _ctx: &(), rate: Ratio, rng: &mut ThreadRng) {
        self.0.mutate(&(), rate, rng);
    }
}

impl CrossoverReproduction for MyCrossoverGenome {
    fn crossover(&self, other: &Self, rng: &mut ThreadRng) -> Self {
        let mut child = Self(MyGenome((self.0 .0 + other.0 .0) / 2.));
        child.mutate(&(), quarter(), rng);
        child
    }
}

impl Prunable for MyCrossoverGenome {}

impl GenerateRandom for MyCrossoverGenome {
    fn gen_random(rng: &mut ThreadRng) -> Self {
        Self(MyGenome::gen_random(rng))
    }
}

impl DivisionReproduction for MyCrossoverGenome {
    fn divide(&self, rng: &mut ThreadRng) -> Self {
        Self(self.0.divide(rng))
    }
}

impl Speciated for MyCrossoverGenome {
    fn is_same_species(&self, other: &Self) -> bool {
        (self.0 .0 - other.0 .0).abs() <= 2.
    }
}

const MAGIC_NUMBER: f32 = std::f32::consts::E;

/// The fitness as an integer: a millionth of a point is told apart.
fn as_score(fitness: f32) -> i64 {
    (fitness * 1e6) as i64
}

fn my_fitness_fn(ent: &MyGenome) -> i64 {
    as_score((MAGIC_NUMBER - ent.0).abs() * -1.)
}

fn my_crossover_fitness_fn(ent: &MyCrossoverGenome) -> i64 {
    as_score((MAGIC_NUMBER - ent.0 .0).abs() * -1.)
}

#[test]
fn builtin_scramble() {
    let mut rng = rand::rng();
    let mut sim = GeneticSim::new(
        Vec::gen_random(&mut rng, 1000),
        my_fitness_fn,
        scrambling_nextgen,
    );

    for _ in 0..100 {
        sim.next_generation();
    }

    assert_eq!(sim.genomes.len(), 1000);
}

#[test]
fn builtin_d_prune() {
    let mut rng = rand::rng();
    let mut sim = GeneticSim::new(
        Vec::gen_random(&mut rng, 1000),
        my_fitness_fn,
        division_pruning_nextgen,
    );

    for _ in 0..100 {
        sim.next_generation();
    }

    assert_eq!(sim.genomes.len(), 1000);
}

#[test]
fn builtin_c_prune() {
    let mut rng = rand::rng();

    let mut sim = GeneticSim::new(
        Vec::gen_random(&mut rng, 100),
        my_crossover_fitness_fn,
        crossover_pruning_nextgen,
    );

    for _ in 0..100 {
        sim.next_generation();
    }

    assert_eq!(sim.genomes.len(), 100);
}

#[test]
fn builtin_cr_prune() {
    let mut sim = GeneticSim::new(
        Vec::gen_random(&mut rand::rng(), 100),
        my_crossover_fitness_fn,
        crossover_pruning_nextgen,
    );

    for _ in 0..100 {
        sim.next_generation();
    }

    assert_eq!(sim.genomes.len(), 100);
}

#[test]
fn builtin_sc_prune() {
    let mut rng = rand::rng();

    let mut sim = GeneticSim::new(
        Vec::gen_random(&mut rng, 100),
        my_crossover_fitness_fn,
        speciated_crossover_pruning_nextgen,
    );

    for _ in 0..100 {
        sim.next_generation();
    }

    assert_eq!(sim.genomes.len(), 100);
}

#[test]
fn builtin_scr_prune() {
    let mut sim = GeneticSim::new(
        Vec::gen_random(&mut rand::rng(), 100),
        my_crossover_fitness_fn,
        speciated_crossover_pruning_nextgen,
    );

    for _ in 0..100 {
        sim.next_generation();
    }

    assert_eq!(sim.genomes.len(), 100);
}

#[test]
fn builtin_old_scramble() {
    let mut rng = rand::rng();
    let mut sim = GeneticSim::new(
        Vec::gen_random(&mut rng, 1000),
        my_fitness_fn,
        scrambling_nextgen,
    );

    for _ in 0..100 {
        sim.next_generation();
    }

    assert_eq!(sim.genomes.len(), 1000);
}

#[test]
fn builtin_old_d_prune() {
    let mut rng = rand::rng();
    let mut sim = GeneticSim::new(
        Vec::gen_random(&mut rng, 1000),
        my_fitness_fn,
        division_pruning_nextgen,
    );

    for _ in 0..100 {
        sim.next_generation();
    }

    assert_eq!(sim.genomes.len(), 1000);
}

#[test]
fn builtin_old_c_prune() {
    let mut rng = rand::rng();

    let mut sim = GeneticSim::new(
        Vec::gen_random(&mut rng, 100),
        my_crossover_fitness_fn,
        crossover_pruning_nextgen,
    );

    for _ in 0..100 {
        sim.next_generation();
    }

    assert_eq!(sim.genomes.len(), 100);
}

#[test]
fn builtin_old_cr_prune() {
    let mut sim = GeneticSim::new(
        Vec::gen_random(&mut rand::rng(), 100),
        my_crossover_fitness_fn,
        crossover_pruning_nextgen,
    );

    for _ in 0..100 {
        sim.next_generation();
    }

    assert_eq!(sim.genomes.len(), 100);
}

#[test]
fn builtin_old_sc_prune() {
    let mut rng = rand::rng();

    let mut sim = GeneticSim::new(
        Vec::gen_random(&mut rng, 100),
        my_crossover_fitness_fn,
        speciated_crossover_pruning_nextgen,
    );

    for _ in 0..100 {
        sim.next_generation();
    }

    assert_eq!(sim.genomes.len(), 100);
}

#[test]
fn builtin_old_scr_prune() {
    let mut sim = GeneticSim::new(
        Vec::gen_random(&mut rand::rng(), 100),
        my_crossover_fitness_fn,
        speciated_crossover_pruning_nextgen,
    );

    for _ in 0..100 {
        sim.next_generation();
    }

    assert_eq!(sim.genomes.len(), 100);
}

/// A genome that tells what it was made from.
#[derive(Clone, Debug, PartialEq)]
struct Traced {
    name: String,
    kind: u8,
}

fn traced(name: &str, kind: u8) -> Traced {
    Traced { name: name.to_string(), kind }
}

impl RandomlyMutable for Traced {
    type Context = ();

    fn mutate(&mut self, _ctx: &(), rate: Ratio, _rng: &mut ThreadRng) {
        self.name = format!("{}~{}/{}", self.name, rate.numerator(), rate.denominator());
    }
}

impl DivisionReproduction for Traced {
    fn divide(&self, _rng: &mut ThreadRng) -> Self {
        traced(&format!("{}'", self.name), self.kind)
    }
}

impl CrossoverReproduction for Traced {
    fn crossover(&self, other: &Self, _rng: &mut ThreadRng) -> Self {
        traced(&format!("{}+{}", self.name, other.name), self.kind)
    }
}

impl Speciated for Traced {
    fn is_same_species(&self, other: &Self) -> bool {
        self.kind == other.kind && self.name != other.name
    }
}

impl Prunable for Traced {}

fn names(genomes: &[Traced]) -> Vec<&str> {
    genomes.iter().map(|g| g.name.as_str()).collect()
}

#[test]
fn ascending_rank_keeps_ties_in_their_order() {
    assert_eq!(rank_ascending(&vec![3, 1, 3, 1, 2]), vec![1, 3, 4, 0, 2]);
    assert_eq!(rank_ascending(&vec![i64::MAX, i64::MIN, 0]), vec![1, 2, 0]);
    assert_eq!(rank_ascending(&vec![]), Vec::<usize>::new());
}

#[test]
fn ascending_sort_is_stable() {
    let rewards = vec![("a", 3), ("b", 1), ("c", 3), ("d", 1), ("e", 2)];
    assert_eq!(sort_ascending(rewards), vec![("b", 1), ("d", 1), ("e", 2), ("a", 3), ("c", 3)]);
}

#[test]
fn pruning_keeps_what_reaches_the_median() {
    let rewards = |scores: &[i64]| -> Vec<(Traced, i64)> {
        scores.iter().enumerate().map(|(i, s)| (traced(&format!("g{}", i), 0), *s)).collect()
    };
    // Sorted 1 2 3 4: the median is the third, so two are kept.
    assert_eq!(names(&pruning_helper(rewards(&[4, 1, 3, 2]))), vec!["g2", "g0"]);
    // Sorted 1 2 3: the median is the second.
    assert_eq!(names(&pruning_helper(rewards(&[3, 1, 2]))), vec!["g2", "g0"]);
    // All that tie with the median are kept.
    assert_eq!(names(&pruning_helper(rewards(&[5, 5, 5, 5]))), vec!["g0", "g1", "g2", "g3"]);
    assert_eq!(names(&pruning_helper(rewards(&[1, 2, 2, 2, 0]))), vec!["g1", "g2", "g3"]);
    assert_eq!(names(&pruning_helper(rewards(&[7]))), vec!["g0"]);
    assert_eq!(names(&pruning_helper(rewards(&[1, 2]))), vec!["g1"]);
}

#[test]
fn scrambling_mutates_by_rank() {
    let rewards = vec![(traced("a", 0), 30), (traced("b", 0), 10), (traced("c", 0), 20), (traced("d", 0), 40)];
    let next = scrambling_nextgen(rewards);
    assert_eq!(names(&next), vec!["b~0/4", "c~1/4", "a~2/4", "d~3/4"]);
    assert!(scrambling_nextgen(Vec::<(Traced, i64)>::new()).is_empty());
}

#[test]
fn division_refills_from_the_champions_in_turn() {
    let rewards = vec![
        (traced("a", 0), 1),
        (traced("b", 0), 5),
        (traced("c", 0), 3),
        (traced("d", 0), 4),
        (traced("e", 0), 2),
        (traced("f", 0), 0),
        (traced("g", 0), 6),
    ];
    let next = division_pruning_nextgen(rewards);
    // Sorted f a e c d b g; the median is c, so c d b g are kept.
    assert_eq!(names(&next), vec!["c", "d", "b", "g", "c'", "d'", "b'"]);
}

#[test]
fn crossover_refills_from_two_different_champions() {
    for _ in 0..50 {
        let rewards: Vec<(Traced, i64)> =
            (0..9).map(|i| (traced(&format!("g{}", i), 0), i as i64)).collect();
        let next = crossover_pruning_nextgen(rewards);
        assert_eq!(&names(&next)[..5], &["g4", "g5", "g6", "g7", "g8"]);
        let champions = ["g4", "g5", "g6", "g7", "g8"];
        for (number, child) in next[5..].iter().enumerate() {
            let (first, second) = child.name.split_once('+').unwrap();
            assert_eq!(first, champions[number % 5]);
            assert!(champions.contains(&second));
            assert_ne!(first, second);
        }
    }
}

#[test]
fn species_helper_mates_within_the_species() {
    let mut rng = rand::rng();
    let genomes = vec![traced("a", 1), traced("b", 2), traced("c", 1), traced("d", 3), traced("e", 1)];
    for _ in 0..50 {
        let child = species_helper(&genomes[0], &genomes, &mut rng);
        assert!(child.name == "a+c" || child.name == "a+e");
        let child = species_helper(&genomes[1], &genomes, &mut rng);
        assert_eq!(child.name, "b'");
        let child = species_helper(&genomes[3], &[], &mut rng);
        assert_eq!(child.name, "d'");
    }
}

#[test]
fn species_helper_draws_among_all_mates() {
    let mut rng = rand::rng();
    let genomes: Vec<Traced> = (0..8).map(|i| traced(&format!("g{}", i), 1)).collect();
    let mut seen = Vec::new();
    for _ in 0..300 {
        let child = species_helper(&genomes[0], &genomes, &mut rng);
        if !seen.contains(&child.name) {
            seen.push(child.name);
        }
    }
    // Seven mates can be drawn; a draw that was no draw would give one.
    assert!(seen.len() > 3);
}

#[test]
fn same_species_are_filtered_in_order() {
    let genomes = vec![traced("a", 1), traced("b", 2), traced("c", 1), traced("d", 3), traced("e", 1)];
    let same = genomes[2].filter_same_species(&genomes);
    assert_eq!(same, vec![&genomes[0], &genomes[4]]);
    assert!(genomes[3].filter_same_species(&genomes).is_empty());
}

#[test]
fn speciated_pruning_refills_within_species() {
    for _ in 0..20 {
        let rewards = vec![
            (traced("a", 1), 10),
            (traced("b", 2), 20),
            (traced("c", 1), 30),
            (traced("d", 3), 1),
            (traced("e", 3), 2),
            (traced("f", 3), 3),
        ];
        let next = speciated_crossover_pruning_nextgen(rewards);
        // Sorted d e f a b c; the median is a, so a b c are kept.
        assert_eq!(&names(&next)[..3], &["a", "b", "c"]);
        assert_eq!(&names(&next)[3..], &["a+c", "b'", "c+a"]);
    }
}

#[test]
fn strategies_are_driven_generation_by_generation() {
    let mut sim = GeneticSim::new(
        vec![traced("a", 0), traced("b", 0), traced("c", 0)],
        |genome: &Traced| (genome.name.as_bytes()[0] as usize + genome.name.len()) as i64,
        division_pruning_nextgen,
    );
    // Scores 98 99 100: the median is b.
    sim.next_generation();
    assert_eq!(names(&sim.genomes), vec!["b", "c", "b'"]);
    // Scores 99 100 100: the median is c, and b' ties with it.
    sim.next_generation();
    assert_eq!(names(&sim.genomes), vec!["c", "b'", "c'"]);
}

fn is_send<T: Send>(_value: &T) -> bool {
    true
}

#[test]
fn send_sim() {
    let mut sim = GeneticSim::new(vec![()], |_: &()| 0, |_: Vec<((), i64)>| vec![()]);
    assert!(is_send(&sim));
    sim.next_generation();
    assert_eq!(sim.genomes, vec![()]);
}
