//! Elimination by knockout: genomes meet in pairs, and of each pair one survives.

use crate::eliminator::{despawn_all, Eliminator, FitnessFn};
use crate::genome::Prunable;
use crate::permutation::{into_slots, is_permutation, lemma_permutation_covers, random_order};
use std::marker::PhantomData;
use vstd::prelude::*;

verus! {

/// Which of the two genomes of a match survives.
#[derive(Clone, Copy, PartialEq, Eq, Structural, Debug)]
pub enum KnockoutWinner {
    /// The genome named first.
    First,
    /// The genome named second.
    Second,
}

/// What to do with the genome that is left without an opponent when the
/// population is odd.
#[derive(Clone, Copy, PartialEq, Eq, Structural, Debug)]
pub enum ActionIfOdd {
    /// An odd population is not accepted.
    Panic,
    /// The genome left over is eliminated without a match.
    DeleteOneRandomly,
    /// The genome left over survives without a match.
    KeepOneUnchallenged,
}

/// A judge of matches between two genomes.
pub trait KnockoutFn<G> {
    /// The matches that can be judged.
    open spec fn judgeable(&self, first: &G, second: &G) -> bool {
        true
    }

    /// Whether `winner` may be the verdict on the match of `first` and `second`.
    open spec fn may_judge(&self, first: &G, second: &G, winner: KnockoutWinner) -> bool {
        true
    }

    /// Judges the match of `first` and `second`.
    fn knockout(&self, first: &G, second: &G) -> (winner: KnockoutWinner)
        requires
            self.judgeable(first, second),
        ensures
            self.may_judge(first, second, winner),
    ;
}

impl<G, F: Fn(&G, &G) -> KnockoutWinner> KnockoutFn<G> for F {
    open spec fn judgeable(&self, first: &G, second: &G) -> bool {
        call_requires(*self, (first, second))
    }

    open spec fn may_judge(&self, first: &G, second: &G, winner: KnockoutWinner) -> bool {
        call_ensures(*self, (first, second), winner)
    }

    fn knockout(&self, first: &G, second: &G) -> (winner: KnockoutWinner) {
        self(first, second)
    }
}

/// For a function used as a judge, the judge's relations are the function's
/// own precondition and postcondition.
pub proof fn lemma_fn_knockout<G, F: Fn(&G, &G) -> KnockoutWinner>(f: &F, first: &G, second: &G)
    ensures
        f.judgeable(first, second) == call_requires(*f, (first, second)),
        forall|winner: KnockoutWinner|
            f.may_judge(first, second, winner) == call_ensures(*f, (first, second), winner),
{
}

/// The verdict by fitness: the higher score wins, and the first genome wins a tie.
pub open spec fn verdict_by_fitness(first: i64, second: i64) -> KnockoutWinner {
    if first >= second {
        KnockoutWinner::First
    } else {
        KnockoutWinner::Second
    }
}

/// The verdict by fitness: the higher score wins, and the first genome wins a tie.
pub fn fitness_verdict(first: i64, second: i64) -> (winner: KnockoutWinner)
    ensures
        winner == verdict_by_fitness(first, second),
{
    if first >= second {
        KnockoutWinner::First
    } else {
        KnockoutWinner::Second
    }
}

/// A judge that lets the fitter genome win.
pub struct FitnessKnockoutFn<F> {
    /// The measure by which the two genomes are compared.
    pub fitness_fn: F,
}

impl<F> FitnessKnockoutFn<F> {
    /// A judge that decides by `fitness_fn`.
    pub fn new(fitness_fn: F) -> (judge: Self)
        ensures
            judge.fitness_fn == fitness_fn,
    {
        Self { fitness_fn }
    }
}

impl<G, F: FitnessFn<G>> KnockoutFn<G> for FitnessKnockoutFn<F> {
    open spec fn judgeable(&self, first: &G, second: &G) -> bool {
        self.fitness_fn.scorable(first) && self.fitness_fn.scorable(second)
    }

    open spec fn may_judge(&self, first: &G, second: &G, winner: KnockoutWinner) -> bool {
        exists|a: i64, b: i64|
            self.fitness_fn.may_score(first, a) && self.fitness_fn.may_score(second, b) && winner
                == verdict_by_fitness(a, b)
    }

    fn knockout(&self, first: &G, second: &G) -> (winner: KnockoutWinner) {
        let a = self.fitness_fn.fitness(first);
        let b = self.fitness_fn.fitness(second);
        fitness_verdict(a, b)
    }
}

/// The genome at position `x` is one of the two that meet in match `m`.
pub open spec fn in_match(order: Seq<usize>, m: int, x: int) -> bool {
    order[2 * m] == x || order[2 * m + 1] == x
}

/// The position of the genome that wins match `m`.
pub open spec fn winner_place(order: Seq<usize>, verdicts: Seq<KnockoutWinner>, m: int) -> int {
    if verdicts[m] is First {
        order[2 * m] as int
    } else {
        order[2 * m + 1] as int
    }
}

/// The position of the genome that loses match `m`.
pub open spec fn loser_place(order: Seq<usize>, verdicts: Seq<KnockoutWinner>, m: int) -> int {
    if verdicts[m] is First {
        order[2 * m + 1] as int
    } else {
        order[2 * m] as int
    }
}

/// The genomes that survive a tournament.
///
/// Match `m` is between the genomes at `order[2 * m]` and `order[2 * m + 1]`.
/// In an odd population the genome at the last place of `order` has no
/// match; it comes first among the survivors if `keep_odd` is set.
pub open spec fn tournament_survivors<G>(
    genomes: Seq<G>,
    order: Seq<usize>,
    verdicts: Seq<KnockoutWinner>,
    keep_odd: bool,
) -> Seq<G> {
    let winners = Seq::new(verdicts.len(), |m: int| genomes[winner_place(order, verdicts, m)]);
    if keep_odd && genomes.len() % 2 == 1 {
        seq![genomes[order[genomes.len() - 1] as int]] + winners
    } else {
        winners
    }
}

/// The genomes that a tournament eliminates: the losers, and before them the
/// genome without a match unless it is kept.
pub open spec fn tournament_casualties<G>(
    genomes: Seq<G>,
    order: Seq<usize>,
    verdicts: Seq<KnockoutWinner>,
    keep_odd: bool,
) -> Seq<G> {
    let losers = Seq::new(verdicts.len(), |m: int| genomes[loser_place(order, verdicts, m)]);
    if !keep_odd && genomes.len() % 2 == 1 {
        seq![genomes[order[genomes.len() - 1] as int]] + losers
    } else {
        losers
    }
}

/// How many genomes go without a match to the side that `takes_odd` speaks for:
/// one if the population is odd and that side takes the genome left over.
pub open spec fn unmatched(n: nat, takes_odd: bool) -> nat {
    if takes_odd && n % 2 == 1 {
        1
    } else {
        0
    }
}

/// Carries out the verdicts of a tournament: parts the population into
/// survivors and casualties.
pub fn settle<G>(
    genomes: Vec<G>,
    order: &Vec<usize>,
    verdicts: &Vec<KnockoutWinner>,
    keep_odd: bool,
) -> (outcome: (Vec<G>, Vec<G>))
    requires
        is_permutation(order@, genomes@.len()),
        verdicts@.len() == genomes@.len() / 2,
    ensures
        outcome.0@ == tournament_survivors(genomes@, order@, verdicts@, keep_odd),
        outcome.1@ == tournament_casualties(genomes@, order@, verdicts@, keep_odd),
{
    let n = genomes.len();
    let ghost given = genomes@;
    let mut slots = into_slots(genomes);
    let mut survivors: Vec<G> = Vec::new();
    let mut casualties: Vec<G> = Vec::new();
    let odd = n % 2 == 1;
    if odd {
        let place = order[n - 1];
        let unmatched = slots[place].take().unwrap();
        if keep_odd {
            survivors.push(unmatched);
        } else {
            casualties.push(unmatched);
        }
    }
    let ghost kept = unmatched(n as nat, keep_odd);
    let ghost dropped = unmatched(n as nat, !keep_odd);
    let matches = n / 2;
    let mut m: usize = 0;
    while m < matches
        invariant
            m <= matches,
            matches == n / 2,
            n == given.len(),
            odd == (n % 2 == 1),
            kept == unmatched(n as nat, keep_odd),
            dropped == unmatched(n as nat, !keep_odd),
            is_permutation(order@, n as nat),
            verdicts@.len() == matches,
            slots@.len() == n,
            survivors@.len() == kept + m,
            casualties@.len() == dropped + m,
            forall|i: int|
                0 <= i < n && (forall|j: int| 0 <= j < 2 * m ==> order@[j] != i) && (odd ==> order@[n - 1]
                    != i) ==> #[trigger] slots@[i] == Some(given[i]),
            odd && keep_odd ==> survivors@[0] == given[order@[n - 1] as int],
            odd && !keep_odd ==> casualties@[0] == given[order@[n - 1] as int],
            forall|i: int|
                kept <= i < kept + m ==> #[trigger] survivors@[i] == given[winner_place(
                    order@,
                    verdicts@,
                    i - kept,
                )],
            forall|i: int|
                dropped <= i < dropped + m ==> #[trigger] casualties@[i] == given[loser_place(
                    order@,
                    verdicts@,
                    i - dropped,
                )],
        decreases matches - m,
    {
        let first_place = order[2 * m];
        let second_place = order[2 * m + 1];
        let first = slots[first_place].take().unwrap();
        let second = slots[second_place].take().unwrap();
        match verdicts[m] {
            KnockoutWinner::First => {
                survivors.push(first);
                casualties.push(second);
            },
            KnockoutWinner::Second => {
                survivors.push(second);
                casualties.push(first);
            },
        }
        m += 1;
    }
    (survivors, casualties)
}

/// How many of `n` genomes survive a tournament.
pub open spec fn survivor_count(n: nat, keep_odd: bool) -> nat {
    if n < 2 {
        n
    } else if keep_odd && n % 2 == 1 {
        n / 2 + 1
    } else {
        n / 2
    }
}

/// Halves a population by matches between randomly paired genomes.
pub struct KnockoutEliminator<K: KnockoutFn<G>, G> {
    /// The judge of the matches.
    pub knockout_fn: K,
    /// What happens to the genome without an opponent in an odd population.
    pub action_if_odd: ActionIfOdd,
    /// Ties the eliminator to the genome type that it works on.
    pub marker: PhantomData<G>,
}

impl<K: KnockoutFn<G>, G> KnockoutEliminator<K, G> {
    /// An eliminator that lets `knockout_fn` judge the matches.
    pub fn new(knockout_fn: K, action_if_odd: ActionIfOdd) -> (eliminator: Self)
        ensures
            eliminator.knockout_fn == knockout_fn,
            eliminator.action_if_odd == action_if_odd,
    {
        Self { knockout_fn, action_if_odd, marker: PhantomData }
    }

    /// Whether the genome without an opponent survives.
    pub open spec fn keeps_odd(&self) -> bool {
        self.action_if_odd is KeepOneUnchallenged
    }

    /// Whether `verdicts` may be what the judge says of the matches that
    /// `order` sets up.
    pub open spec fn judges(&self, genomes: Seq<G>, order: Seq<usize>, verdicts: Seq<KnockoutWinner>) -> bool {
        &&& verdicts.len() == genomes.len() / 2
        &&& forall|m: int|
            0 <= m < verdicts.len() ==> self.knockout_fn.may_judge(
                &genomes[order[2 * m] as int],
                &genomes[order[2 * m + 1] as int],
                #[trigger] verdicts[m],
            )
    }

    /// Every two different genomes of `genomes` can be judged against each other.
    pub open spec fn can_judge(&self, genomes: Seq<G>) -> bool {
        forall|a: int, b: int|
            0 <= a < genomes.len() && 0 <= b < genomes.len() && a != b ==> self.knockout_fn.judgeable(
                &genomes[a],
                &genomes[b],
            )
    }

    /// A tournament can be held among `genomes`: there are fewer than two, or
    /// all matches can be judged and an odd number is provided for.
    pub open spec fn can_hold(&self, genomes: Seq<G>) -> bool {
        genomes.len() < 2 || {
            &&& self.action_if_odd is Panic ==> genomes.len() % 2 == 0
            &&& self.can_judge(genomes)
        }
    }

    /// Whether `survivors` may be what a tournament leaves of `genomes`: all
    /// of fewer than two genomes; else, for some pairing and some verdicts
    /// that the judge may give on it, the winners and the genome that is kept
    /// without a match.
    pub open spec fn halves(&self, genomes: Seq<G>, survivors: Seq<G>) -> bool {
        if genomes.len() < 2 {
            survivors == genomes
        } else {
            exists|order: Seq<usize>, verdicts: Seq<KnockoutWinner>|
                is_permutation(order, genomes.len()) && self.judges(genomes, order, verdicts) && survivors
                    == tournament_survivors(genomes, order, verdicts, self.keeps_odd())
        }
    }

    /// Whether a population of `population` genomes can enter a tournament.
    pub fn admits(&self, population: usize) -> (admitted: bool)
        ensures
            admitted == (population < 2 || population % 2 == 0 || !(self.action_if_odd is Panic)),
    {
        population < 2 || population % 2 == 0 || !matches!(self.action_if_odd, ActionIfOdd::Panic)
    }

    /// Lets the judge decide every match that `order` sets up.
    pub fn judge_all(&self, genomes: &Vec<G>, order: &Vec<usize>) -> (verdicts: Vec<KnockoutWinner>)
        requires
            is_permutation(order@, genomes@.len()),
            self.can_judge(genomes@),
        ensures
            self.judges(genomes@, order@, verdicts@),
    {
        let n = genomes.len();
        let matches = n / 2;
        let mut verdicts: Vec<KnockoutWinner> = Vec::new();
        let mut m: usize = 0;
        while m < matches
            invariant
                m <= matches,
                n == genomes@.len(),
                matches == n / 2,
                verdicts@.len() == m,
                is_permutation(order@, genomes@.len()),
                self.can_judge(genomes@),
                forall|k: int|
                    0 <= k < m ==> self.knockout_fn.may_judge(
                        &genomes@[order@[2 * k] as int],
                        &genomes@[order@[2 * k + 1] as int],
                        #[trigger] verdicts@[k],
                    ),
            decreases matches - m,
        {
            let first = order[2 * m];
            let second = order[2 * m + 1];
            let winner = self.knockout_fn.knockout(&genomes[first], &genomes[second]);
            verdicts.push(winner);
            m += 1;
        }
        verdicts
    }
}

impl<K: KnockoutFn<G>, G: Prunable> Eliminator<G> for KnockoutEliminator<K, G> {
    open spec fn accepts(&self, genomes: Seq<G>) -> bool {
        self.can_hold(genomes)
    }

    open spec fn eliminates(&self, genomes: Seq<G>, survivors: Seq<G>) -> bool {
        self.halves(genomes, survivors)
    }

    fn eliminate(&self, genomes: Vec<G>) -> (survivors: Vec<G>) {
        let n = genomes.len();
        if n < 2 {
            return genomes;
        }
        let mut rng = rand::rng();
        let order = random_order(n, &mut rng);
        let verdicts = self.judge_all(&genomes, &order);
        let keep_odd = matches!(self.action_if_odd, ActionIfOdd::KeepOneUnchallenged);
        let (survivors, casualties) = settle(genomes, &order, &verdicts, keep_odd);
        despawn_all(casualties);
        assert(is_permutation(order@, genomes@.len()) && self.judges(genomes@, order@, verdicts@)
            && survivors@ == tournament_survivors(genomes@, order@, verdicts@, self.keeps_odd()));
        survivors
    }
}

/// What a knockout eliminator accepts and leaves, spelled out.
///
/// This holds by definition. It is stated for eliminators whose judge is a
/// function or a closure, of which it is not seen otherwise.
pub proof fn lemma_knockout_eliminator<K: KnockoutFn<G>, G: Prunable>(
    eliminator: &KnockoutEliminator<K, G>,
    genomes: Seq<G>,
    survivors: Seq<G>,
)
    ensures
        eliminator.accepts(genomes) == eliminator.can_hold(genomes),
        eliminator.eliminates(genomes, survivors) == eliminator.halves(genomes, survivors),
{
}

/// What a judge by fitness can judge and may say, spelled out.
///
/// This holds by definition. It is stated for judges whose fitness measure
/// is a function or a closure, of which it is not seen otherwise.
pub proof fn lemma_fitness_knockout<G, F: FitnessFn<G>>(
    judge: &FitnessKnockoutFn<F>,
    first: &G,
    second: &G,
    winner: KnockoutWinner,
)
    ensures
        judge.judgeable(first, second) == (judge.fitness_fn.scorable(first) && judge.fitness_fn.scorable(
            second,
        )),
        judge.may_judge(first, second, winner) == (exists|a: i64, b: i64|
            judge.fitness_fn.may_score(first, a) && judge.fitness_fn.may_score(second, b) && winner
                == verdict_by_fitness(a, b)),
{
}

/// A tournament leaves half of the population, and of an odd population one
/// more if the genome without an opponent is kept.
pub proof fn lemma_knockout_survivor_count<K: KnockoutFn<G>, G: Prunable>(
    eliminator: KnockoutEliminator<K, G>,
    genomes: Seq<G>,
    survivors: Seq<G>,
)
    requires
        eliminator.eliminates(genomes, survivors),
    ensures
        survivors.len() == survivor_count(genomes.len(), eliminator.keeps_odd()),
{
}

/// In an even population every genome has exactly one match.
pub proof fn lemma_one_match_each(order: Seq<usize>, n: nat, x: int)
    requires
        is_permutation(order, n),
        n % 2 == 0,
        0 <= x < n,
    ensures
        exists|m: int| 0 <= m < n / 2 && #[trigger] in_match(order, m, x),
        forall|m: int, k: int|
            0 <= m < n / 2 && 0 <= k < n / 2 && #[trigger] in_match(order, m, x) && #[trigger] in_match(
                order,
                k,
                x,
            ) ==> m == k,
{
    lemma_permutation_covers(order, n, x);
    let place = choose|place: int| 0 <= place < order.len() && order[place] == x;
    assert(in_match(order, place / 2, x));
}

/// No genome survives twice: the winners of different matches are different
/// genomes, and none of them is the genome without a match.
pub proof fn lemma_winners_differ(order: Seq<usize>, verdicts: Seq<KnockoutWinner>, n: nat, m: int, k: int)
    requires
        is_permutation(order, n),
        verdicts.len() == n / 2,
        0 <= m < n / 2,
        0 <= k < n / 2,
    ensures
        m != k ==> winner_place(order, verdicts, m) != winner_place(order, verdicts, k),
        n % 2 == 1 ==> winner_place(order, verdicts, m) != order[n - 1],
{
}

/// No genome meets itself, and no genome both wins and loses.
pub proof fn lemma_opponents_differ(order: Seq<usize>, verdicts: Seq<KnockoutWinner>, n: nat, m: int)
    requires
        is_permutation(order, n),
        verdicts.len() == n / 2,
        0 <= m < n / 2,
    ensures
        0 <= winner_place(order, verdicts, m) < n,
        0 <= loser_place(order, verdicts, m) < n,
        winner_place(order, verdicts, m) != loser_place(order, verdicts, m),
{
}

} // verus!
