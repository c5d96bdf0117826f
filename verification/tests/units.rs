use genetic_rs::eliminator::{
    despawn_all, sort_by_score, strip_scores, Eliminator, FitnessEliminator, FitnessObserver,
    ObservedFitnessEliminator,
};
use genetic_rs::genome::{GenerateRandom, Prunable, Speciated};
use genetic_rs::knockout::{
    fitness_verdict, settle, ActionIfOdd, FitnessKnockoutFn, KnockoutEliminator, KnockoutFn,
    KnockoutWinner,
};
use genetic_rs::permutation::{identity_order, into_slots, random_order, swap_places};
use genetic_rs::ranking::rank_descending;
use genetic_rs::ratio::Ratio;
use genetic_rs::repopulator::partner_index;
use genetic_rs::speciation::species_of_all;
use genetic_rs::species::{group_by_species, mating_groups};
use genetic_rs::topology::{NetworkWideMutation, NeuronPointer};
use std::cell::RefCell;
use std::rc::Rc;

#[derive(Clone, Debug, PartialEq)]
struct Named(&'static str, i64);

impl Prunable for Named {}

impl Speciated for Named {
    fn species(&self) -> u64 {
        self.0.len() as u64
    }
}

fn score(genome: &Named) -> i64 {
    genome.1
}

fn named(entries: &[(&'static str, i64)]) -> Vec<Named> {
    entries.iter().map(|(name, value)| Named(name, *value)).collect()
}

#[test]
fn ratio_is_built_from_fractions_up_to_one() {
    let third = Ratio::new(1, 3).unwrap();
    assert_eq!(third.numerator(), 1);
    assert_eq!(third.denominator(), 3);
    assert!(Ratio::new(0, 1).is_some());
    assert!(Ratio::new(5, 5).is_some());
    assert!(Ratio::new(u64::MAX, u64::MAX).is_some());
}

#[test]
fn ratio_rejects_what_is_no_fraction_up_to_one() {
    assert!(Ratio::new(1, 0).is_none());
    assert!(Ratio::new(0, 0).is_none());
    assert!(Ratio::new(2, 1).is_none());
    assert!(Ratio::new(u64::MAX, u64::MAX - 1).is_none());
}

#[test]
fn ratio_constants() {
    assert_eq!((Ratio::zero().numerator(), Ratio::zero().denominator()), (0, 1));
    assert_eq!((Ratio::half().numerator(), Ratio::half().denominator()), (1, 2));
    assert_eq!((Ratio::one().numerator(), Ratio::one().denominator()), (1, 1));
}

#[test]
fn ratio_scales_and_rounds_down() {
    let third = Ratio::new(1, 3).unwrap();
    assert_eq!(third.scaled(0), 0);
    assert_eq!(third.scaled(2), 0);
    assert_eq!(third.scaled(3), 1);
    assert_eq!(third.scaled(10), 3);
    assert_eq!(Ratio::one().scaled(usize::MAX), usize::MAX);
    assert_eq!(Ratio::zero().scaled(usize::MAX), 0);
    assert_eq!(Ratio::new(u64::MAX - 1, u64::MAX).unwrap().scaled(usize::MAX), usize::MAX - 1);
}

#[test]
fn ratio_compares_as_fractions() {
    let third = Ratio::new(1, 3).unwrap();
    let two_sixths = Ratio::new(2, 6).unwrap();
    let half = Ratio::half();
    assert!(third.at_most(&half));
    assert!(!half.at_most(&third));
    assert!(third.at_most(&two_sixths));
    assert!(two_sixths.at_most(&third));
    assert!(Ratio::zero().at_most(&Ratio::one()));
    let big = Ratio::new(u64::MAX - 1, u64::MAX).unwrap();
    assert!(big.at_most(&Ratio::one()));
    assert!(!Ratio::one().at_most(&big));
}

#[test]
fn ranking_puts_the_best_first() {
    assert_eq!(rank_descending(&vec![10, 30, 20]), vec![1, 2, 0]);
    assert_eq!(rank_descending(&vec![]), Vec::<usize>::new());
    assert_eq!(rank_descending(&vec![-5]), vec![0]);
    assert_eq!(rank_descending(&vec![i64::MIN, i64::MAX, 0]), vec![1, 2, 0]);
}

#[test]
fn ranking_keeps_ties_in_their_order() {
    assert_eq!(rank_descending(&vec![1, 1, 1, 1]), vec![0, 1, 2, 3]);
    assert_eq!(rank_descending(&vec![2, 7, 2, 7, 2]), vec![1, 3, 0, 2, 4]);
}

#[test]
fn sorting_by_score_is_stable() {
    let scored = vec![("a", 2), ("b", 7), ("c", 2), ("d", 9), ("e", 7)];
    assert_eq!(sort_by_score(scored), vec![("d", 9), ("b", 7), ("e", 7), ("a", 2), ("c", 2)]);
}

#[test]
fn scores_are_stripped() {
    assert_eq!(strip_scores(vec![("a", 2), ("b", 7)]), vec!["a", "b"]);
    assert_eq!(strip_scores(Vec::<(u8, i64)>::new()), Vec::<u8>::new());
}

#[test]
fn all_casualties_are_despawned_once() {
    struct Mortal(u32, Rc<RefCell<Vec<u32>>>);
    impl Prunable for Mortal {
        fn despawn(self) {
            self.1.borrow_mut().push(self.0);
        }
    }
    let log = Rc::new(RefCell::new(Vec::new()));
    despawn_all(vec![Mortal(3, log.clone()), Mortal(1, log.clone()), Mortal(2, log.clone())]);
    assert_eq!(*log.borrow(), vec![3, 1, 2]);
}

#[test]
fn genomes_are_scored_and_sorted() {
    let eliminator = FitnessEliminator::new(score, Ratio::half());
    let genomes = named(&[("a", 2), ("b", 7), ("c", 2), ("d", 9)]);
    let scored = eliminator.score_all(genomes.clone());
    assert_eq!(
        scored,
        vec![(Named("a", 2), 2), (Named("b", 7), 7), (Named("c", 2), 2), (Named("d", 9), 9)]
    );
    let sorted = eliminator.calculate_and_sort(genomes);
    assert_eq!(
        sorted,
        vec![(Named("d", 9), 9), (Named("b", 7), 7), (Named("a", 2), 2), (Named("c", 2), 2)]
    );
    assert_eq!(eliminator.truncate(sorted), named(&[("d", 9), ("b", 7), ("a", 2)]));
}

#[test]
fn default_threshold_is_one_half() {
    let eliminator = FitnessEliminator::<fn(&Named) -> i64, Named>::new_with_default(score);
    assert_eq!(eliminator.threshold.numerator(), 1);
    assert_eq!(eliminator.threshold.denominator(), 2);
}

#[test]
fn threshold_zero_keeps_the_best_one() {
    let eliminator = FitnessEliminator::new(score, Ratio::zero());
    let survivors = eliminator.eliminate(named(&[("a", 2), ("b", 7), ("c", 5)]));
    assert_eq!(survivors, named(&[("b", 7)]));
    assert!(eliminator.eliminate(Vec::new()).is_empty());
}

#[test]
fn threshold_one_keeps_all() {
    let eliminator = FitnessEliminator::new(score, Ratio::one());
    let survivors = eliminator.eliminate(named(&[("a", 2), ("b", 7), ("c", 5)]));
    assert_eq!(survivors, named(&[("b", 7), ("c", 5), ("a", 2)]));
}

#[test]
fn observer_sees_all_and_changes_nothing() {
    struct Recorder(Rc<RefCell<Vec<Vec<i64>>>>);
    impl FitnessObserver<Named> for Recorder {
        fn observe(&self, sorted: &Vec<(Named, i64)>) {
            self.0.borrow_mut().push(sorted.iter().map(|(_, s)| *s).collect());
        }
    }
    let seen = Rc::new(RefCell::new(Vec::new()));
    let genomes = named(&[("a", 2), ("b", 7), ("c", 5), ("d", 1)]);
    let plain = FitnessEliminator::new(score, Ratio::half()).eliminate(genomes.clone());
    let observed = ObservedFitnessEliminator::new(
        FitnessEliminator::new(score, Ratio::half()),
        Recorder(seen.clone()),
    )
    .eliminate(genomes);
    assert_eq!(observed, plain);
    assert_eq!(*seen.borrow(), vec![vec![7, 5, 2, 1]]);
}

#[test]
fn fitter_genome_wins_and_first_wins_a_tie() {
    assert_eq!(fitness_verdict(2, 1), KnockoutWinner::First);
    assert_eq!(fitness_verdict(1, 2), KnockoutWinner::Second);
    assert_eq!(fitness_verdict(3, 3), KnockoutWinner::First);
    assert_eq!(fitness_verdict(i64::MIN, i64::MAX), KnockoutWinner::Second);
    let judge = FitnessKnockoutFn::new(score);
    assert_eq!(judge.knockout(&Named("a", 4), &Named("b", 4)), KnockoutWinner::First);
    assert_eq!(judge.knockout(&Named("a", 3), &Named("b", 4)), KnockoutWinner::Second);
}

#[test]
fn verdicts_are_carried_out() {
    let (first_wins, second_wins) = (KnockoutWinner::First, KnockoutWinner::Second);
    let genomes = vec!["a", "b", "c", "d", "e"];
    let order = vec![3, 0, 4, 1, 2];
    // Matches: d against a, e against b; c has none.
    let (survivors, casualties) = settle(genomes.clone(), &order, &vec![first_wins, second_wins], true);
    assert_eq!(survivors, vec!["c", "d", "b"]);
    assert_eq!(casualties, vec!["a", "e"]);
    let (survivors, casualties) = settle(genomes.clone(), &order, &vec![second_wins, first_wins], false);
    assert_eq!(survivors, vec!["a", "e"]);
    assert_eq!(casualties, vec!["c", "d", "b"]);
    let (survivors, casualties) = settle(vec!["a", "b"], &vec![1, 0], &vec![first_wins], true);
    assert_eq!(survivors, vec!["b"]);
    assert_eq!(casualties, vec!["a"]);
}

#[test]
fn judge_is_asked_about_every_match() {
    let eliminator = KnockoutEliminator::new(FitnessKnockoutFn::new(score), ActionIfOdd::Panic);
    let genomes = named(&[("a", 2), ("b", 7), ("c", 5), ("d", 5)]);
    let verdicts = eliminator.judge_all(&genomes, &vec![0, 1, 2, 3]);
    assert_eq!(verdicts, vec![KnockoutWinner::Second, KnockoutWinner::First]);
    let verdicts = eliminator.judge_all(&genomes, &vec![1, 3, 0, 2]);
    assert_eq!(verdicts, vec![KnockoutWinner::First, KnockoutWinner::Second]);
}

#[test]
fn positions_start_in_their_natural_order() {
    assert_eq!(identity_order(0), Vec::<usize>::new());
    assert_eq!(identity_order(4), vec![0, 1, 2, 3]);
}

#[test]
fn places_are_swapped() {
    let mut order = vec![5, 6, 7, 8];
    swap_places(&mut order, 0, 3);
    assert_eq!(order, vec![8, 6, 7, 5]);
    swap_places(&mut order, 1, 1);
    assert_eq!(order, vec![8, 6, 7, 5]);
}

#[test]
fn items_move_into_slots() {
    assert_eq!(into_slots(vec!["a", "b"]), vec![Some("a"), Some("b")]);
    assert_eq!(into_slots(Vec::<u8>::new()), Vec::<Option<u8>>::new());
}

#[test]
fn random_orders_are_permutations() {
    let mut rng = rand::rng();
    for n in 0..60 {
        let mut order = random_order(n, &mut rng);
        order.sort();
        assert_eq!(order, (0..n).collect::<Vec<usize>>());
    }
}

#[test]
fn random_orders_vary() {
    let mut rng = rand::rng();
    let mut seen = Vec::new();
    for _ in 0..200 {
        let order = random_order(4, &mut rng);
        if !seen.contains(&order) {
            seen.push(order);
        }
    }
    // Of the 24 orders of four positions, most turn up in 200 draws.
    assert!(seen.len() > 12);
}

#[test]
fn species_are_grouped_in_order_of_appearance() {
    assert_eq!(
        group_by_species(&vec![7, 3, 7, 9, 3, 7]),
        vec![vec![0, 2, 5], vec![1, 4], vec![3]]
    );
    assert_eq!(group_by_species(&vec![]), Vec::<Vec<usize>>::new());
    assert_eq!(group_by_species(&vec![1, 1]), vec![vec![0, 1]]);
    assert_eq!(group_by_species(&vec![u64::MAX, 0]), vec![vec![0], vec![1]]);
}

#[test]
fn only_groups_with_mates_breed() {
    let groups = vec![vec![0], vec![1, 4], vec![2], vec![3, 5, 6]];
    assert_eq!(mating_groups(groups), vec![vec![1, 4], vec![3, 5, 6]]);
    assert_eq!(mating_groups(vec![vec![0], vec![1]]), Vec::<Vec<usize>>::new());
}

#[test]
fn every_genome_reports_its_species() {
    let genomes = named(&[("ab", 0), ("c", 0), ("de", 0), ("", 0)]);
    assert_eq!(species_of_all(&genomes), vec![2, 1, 2, 0]);
}

#[test]
fn partner_is_the_draw_or_the_first() {
    assert_eq!(partner_index(0, 1), 1);
    assert_eq!(partner_index(0, 3), 3);
    assert_eq!(partner_index(2, 2), 0);
    assert_eq!(partner_index(2, 1), 1);
    assert_eq!(partner_index(1, 1), 0);
}

#[test]
fn neuron_pointers_know_their_layer() {
    let input = NeuronPointer::Input(0);
    let hidden = NeuronPointer::Hidden(3);
    let output = NeuronPointer::Output(usize::MAX);
    assert!(input.is_input() && !input.is_hidden() && !input.is_output());
    assert!(!hidden.is_input() && hidden.is_hidden() && !hidden.is_output());
    assert!(!output.is_input() && !output.is_hidden() && output.is_output());
}

#[test]
fn mutations_stand_for_draws() {
    assert_eq!(NetworkWideMutation::from_draw(0), NetworkWideMutation::AddConnection);
    assert_eq!(NetworkWideMutation::from_draw(1), NetworkWideMutation::RemoveConnection);
    assert_eq!(NetworkWideMutation::from_draw(2), NetworkWideMutation::AddNeuron);
    assert_eq!(NetworkWideMutation::from_draw(3), NetworkWideMutation::RemoveNeuron);
    assert_eq!(NetworkWideMutation::from_draw(usize::MAX), NetworkWideMutation::RemoveNeuron);
}

#[test]
fn generated_mutations_are_of_the_first_three_kinds() {
    let mut rng = rand::rng();
    let mut seen = Vec::new();
    for _ in 0..300 {
        let mutation = NetworkWideMutation::gen_random(&mut rng);
        assert_ne!(mutation, NetworkWideMutation::RemoveNeuron);
        if !seen.contains(&mutation) {
            seen.push(mutation);
        }
    }
    assert_eq!(seen.len(), 3);
}

#[test]
fn threshold_is_checked_when_the_eliminator_is_built() {
    let built = FitnessEliminator::<fn(&Named) -> i64, Named>::with_threshold(score, 3, 4).unwrap();
    assert_eq!((built.threshold.numerator(), built.threshold.denominator()), (3, 4));
    assert!(FitnessEliminator::<fn(&Named) -> i64, Named>::with_threshold(score, 0, 1).is_some());
    assert!(FitnessEliminator::<fn(&Named) -> i64, Named>::with_threshold(score, 1, 1).is_some());
    assert!(FitnessEliminator::<fn(&Named) -> i64, Named>::with_threshold(score, 5, 4).is_none());
    assert!(FitnessEliminator::<fn(&Named) -> i64, Named>::with_threshold(score, 1, 0).is_none());
}

#[test]
fn members_of_mating_groups_take_turns() {
    let mates = vec![vec![0, 2, 5], vec![1, 4]];
    assert_eq!(genetic_rs::species::next_turn(&mates, 0, 0), (0, 1));
    assert_eq!(genetic_rs::species::next_turn(&mates, 0, 1), (0, 2));
    assert_eq!(genetic_rs::species::next_turn(&mates, 0, 2), (1, 0));
    assert_eq!(genetic_rs::species::next_turn(&mates, 1, 0), (1, 1));
    assert_eq!(genetic_rs::species::next_turn(&mates, 1, 1), (0, 0));
}
