//! Ranking a list of fitness scores from best to worst.
//!
//! A ranking lists the positions of the scores, highest score first. Equal
//! scores keep the order in which they were given, so every list of scores has
//! exactly one ranking.

use crate::permutation::{is_permutation, lemma_permutation_covers};
use vstd::prelude::*;

verus! {

/// Position `i` is placed ahead of position `j`: its score is higher, or the
/// scores are equal and `i` comes first.
pub open spec fn ranks_before(scores: Seq<i64>, i: int, j: int) -> bool {
    scores[i] > scores[j] || (scores[i] == scores[j] && i < j)
}

/// `order` holds positions of `scores`, each placed ahead of all that follow it.
pub open spec fn is_ranked(scores: Seq<i64>, order: Seq<usize>) -> bool {
    &&& forall|k: int| 0 <= k < order.len() ==> (#[trigger] order[k]) < scores.len()
    &&& forall|a: int, b: int|
        0 <= a < b < order.len() ==> ranks_before(
            scores,
            (#[trigger] order[a]) as int,
            (#[trigger] order[b]) as int,
        )
}

/// `order` is the ranking of `scores`: all positions, best first.
pub open spec fn is_ranking(scores: Seq<i64>, order: Seq<usize>) -> bool {
    order.len() == scores.len() && is_ranked(scores, order)
}

/// The ranking of `scores`.
pub open spec fn ranking(scores: Seq<i64>) -> Seq<usize> {
    choose|order: Seq<usize>| is_ranking(scores, order)
}

/// No position occurs twice among ranked positions.
pub proof fn lemma_ranked_distinct(scores: Seq<i64>, order: Seq<usize>)
    requires
        is_ranked(scores, order),
    ensures
        order.no_duplicates(),
{
}

/// A ranking is a permutation of the positions of the scores.
pub proof fn lemma_ranking_is_permutation(scores: Seq<i64>, order: Seq<usize>)
    requires
        is_ranking(scores, order),
    ensures
        is_permutation(order, scores.len()),
{
    lemma_ranked_distinct(scores, order);
}

/// A list of scores has no more than one ranking.
pub proof fn lemma_ranking_unique(scores: Seq<i64>, first: Seq<usize>, second: Seq<usize>)
    requires
        is_ranking(scores, first),
        is_ranking(scores, second),
    ensures
        first == second,
{
    assert forall|k: int| 0 <= k < first.len() implies first[k] == second[k] by {
        lemma_ranking_agrees_upto(scores, first, second, k);
    }
}

/// Whatever is a ranking of `scores` is the ranking of `scores`.
pub proof fn lemma_ranking_is(scores: Seq<i64>, order: Seq<usize>)
    requires
        is_ranking(scores, order),
    ensures
        ranking(scores) == order,
{
    lemma_ranking_unique(scores, ranking(scores), order);
}

/// Two rankings of the same scores agree at every place up to and including `k`.
proof fn lemma_ranking_agrees_upto(scores: Seq<i64>, first: Seq<usize>, second: Seq<usize>, k: int)
    requires
        is_ranking(scores, first),
        is_ranking(scores, second),
        0 <= k < first.len(),
    ensures
        forall|m: int| 0 <= m <= k ==> first[m] == second[m],
    decreases k,
{
    if k > 0 {
        lemma_ranking_agrees_upto(scores, first, second, k - 1);
    }
    let x = first[k];
    let y = second[k];
    if x != y {
        lemma_ranked_distinct(scores, first);
        lemma_ranked_distinct(scores, second);
        lemma_permutation_covers(second, scores.len(), x as int);
        lemma_permutation_covers(first, scores.len(), y as int);
    }
}

/// Placing a new last position into ranked earlier positions, behind all
/// that score no less and ahead of all that score less, leaves them ranked.
proof fn lemma_insert_ranked(scores: Seq<i64>, order: Seq<usize>, place: int, position: usize)
    requires
        is_ranked(scores, order),
        position < scores.len(),
        forall|k: int| 0 <= k < order.len() ==> (#[trigger] order[k]) < position,
        0 <= place <= order.len(),
        forall|k: int| 0 <= k < place ==> scores[(#[trigger] order[k]) as int] >= scores[position as int],
        forall|k: int|
            place <= k < order.len() ==> scores[(#[trigger] order[k]) as int] < scores[position as int],
    ensures
        is_ranked(scores, order.insert(place, position)),
        forall|k: int|
            0 <= k < order.len() + 1 ==> (#[trigger] order.insert(place, position)[k]) < position + 1,
{
}

/// Among the first `upto` ranked positions, the place of the first that
/// scores less than `score`, or `upto` if none does.
proof fn lemma_first_below(scores: Seq<i64>, order: Seq<usize>, score: i64, upto: int) -> (place: int)
    requires
        0 <= upto <= order.len(),
    ensures
        0 <= place <= upto,
        forall|k: int| 0 <= k < place ==> scores[(#[trigger] order[k]) as int] >= score,
        place < upto ==> scores[order[place] as int] < score,
    decreases upto,
{
    if upto == 0 {
        0
    } else {
        let earlier = lemma_first_below(scores, order, score, upto - 1);
        if earlier < upto - 1 {
            earlier
        } else if scores[order[upto - 1] as int] >= score {
            upto
        } else {
            upto - 1
        }
    }
}

/// Every list of scores has a ranking, as long as its positions can be counted.
pub proof fn lemma_ranking_exists(scores: Seq<i64>)
    requires
        scores.len() <= usize::MAX,
    ensures
        is_ranking(scores, ranking(scores)),
    decreases scores.len(),
{
    if scores.len() == 0 {
        assert(is_ranking(scores, Seq::<usize>::empty()));
    } else {
        let shorter = scores.drop_last();
        lemma_ranking_exists(shorter);
        let order = ranking(shorter);
        let position = (scores.len() - 1) as usize;
        let place = lemma_first_below(scores, order, scores[position as int], order.len() as int);
        lemma_insert_ranked(scores, order, place, position);
        assert(is_ranking(scores, order.insert(place, position)));
    }
}

/// Ranks `scores` from best to worst; equal scores keep their given order.
pub fn rank_descending(scores: &Vec<i64>) -> (order: Vec<usize>)
    ensures
        is_ranking(scores@, order@),
        order@ == ranking(scores@),
{
    let mut order: Vec<usize> = Vec::new();
    let mut i: usize = 0;
    while i < scores.len()
        invariant
            i <= scores.len(),
            order@.len() == i,
            is_ranked(scores@, order@),
            forall|k: int| 0 <= k < order@.len() ==> (#[trigger] order@[k]) < i,
        decreases scores.len() - i,
    {
        let mut p: usize = 0;
        while p < order.len() && scores[order[p]] >= scores[i]
            invariant
                p <= order@.len(),
                order@.len() == i,
                i < scores.len(),
                is_ranked(scores@, order@),
                forall|k: int| 0 <= k < p ==> scores@[(#[trigger] order@[k]) as int] >= scores@[i as int],
            decreases order@.len() - p,
        {
            p += 1;
        }
        let ghost before = order@;
        proof {
            lemma_insert_ranked(scores@, before, p as int, i);
        }
        order.insert(p, i);
        i += 1;
    }
    proof {
        lemma_ranking_is(scores@, order@);
    }
    order
}

/// A score that is the higher the lower the reward is.
pub open spec fn mirrored(reward: i64) -> i64 {
    (-1 - reward) as i64
}

/// The rewards, each mirrored.
pub open spec fn mirrored_all(rewards: Seq<i64>) -> Seq<i64> {
    Seq::new(rewards.len(), |i: int| mirrored(rewards[i]))
}

/// The positions of the rewards from lowest to highest; equal rewards keep
/// their given order.
pub open spec fn ascending(rewards: Seq<i64>) -> Seq<usize> {
    ranking(mirrored_all(rewards))
}

/// The ascending order holds every position once.
pub proof fn lemma_ascending_is_permutation(rewards: Seq<i64>)
    requires
        rewards.len() <= usize::MAX,
    ensures
        is_permutation(ascending(rewards), rewards.len()),
{
    let scores = mirrored_all(rewards);
    lemma_ranking_exists(scores);
    lemma_ranking_is_permutation(scores, ranking(scores));
}

/// In ascending order no position comes behind one of a higher reward, and
/// of two positions of equal reward the earlier comes first.
pub proof fn lemma_ascending_ordered(rewards: Seq<i64>, a: int, b: int)
    requires
        rewards.len() <= usize::MAX,
        0 <= a < b < rewards.len(),
    ensures
        is_permutation(ascending(rewards), rewards.len()),
        rewards[ascending(rewards)[a] as int] < rewards[ascending(rewards)[b] as int] || (rewards[ascending(
            rewards,
        )[a] as int] == rewards[ascending(rewards)[b] as int] && ascending(rewards)[a] < ascending(
            rewards,
        )[b]),
{
    let scores = mirrored_all(rewards);
    lemma_ranking_exists(scores);
    lemma_ranking_is_permutation(scores, ranking(scores));
}

/// Ranks `rewards` from lowest to highest; equal rewards keep their given order.
pub fn rank_ascending(rewards: &Vec<i64>) -> (order: Vec<usize>)
    ensures
        order@ == ascending(rewards@),
        is_permutation(order@, rewards@.len()),
{
    let mut scores: Vec<i64> = Vec::new();
    let mut i: usize = 0;
    while i < rewards.len()
        invariant
            i <= rewards@.len(),
            scores@.len() == i,
            forall|k: int| 0 <= k < i ==> scores@[k] == mirrored(rewards@[k]),
        decreases rewards@.len() - i,
    {
        scores.push(-1 - rewards[i]);
        i += 1;
    }
    assert(scores@ =~= mirrored_all(rewards@));
    let order = rank_descending(&scores);
    proof {
        lemma_ranking_is_permutation(scores@, order@);
    }
    order
}

} // verus!
