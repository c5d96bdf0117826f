//! Arrangements of the positions `0..n`, and drawing one at random.

use crate::random::random_index;
use rand::rngs::ThreadRng;
use vstd::prelude::*;

verus! {

/// `order` holds each of the positions `0..n` exactly once.
pub open spec fn is_permutation(order: Seq<usize>, n: nat) -> bool {
    &&& order.len() == n
    &&& forall|k: int| 0 <= k < order.len() ==> (#[trigger] order[k]) < n
    &&& order.no_duplicates()
}

/// A permutation of `0..n` holds every position below `n`.
pub proof fn lemma_permutation_covers(order: Seq<usize>, n: nat, i: int)
    requires
        is_permutation(order, n),
        0 <= i < n,
    ensures
        exists|k: int| 0 <= k < order.len() && order[k] == i,
{
    let places = order.map_values(|p: usize| p as int);
    places.unique_seq_to_set();
    let all = vstd::set_lib::set_int_range(0, n as int);
    vstd::set_lib::lemma_int_range(0, n as int);
    assert(places.to_set().subset_of(all));
    vstd::set_lib::lemma_subset_equality(places.to_set(), all);
    assert(places.to_set().contains(i));
}

/// Moves every item into a slot of its own, from which it can be taken
/// without disturbing the others.
pub fn into_slots<T>(items: Vec<T>) -> (slots: Vec<Option<T>>)
    ensures
        slots@.len() == items@.len(),
        forall|i: int| 0 <= i < items@.len() ==> slots@[i] == Some(items@[i]),
{
    let mut slots: Vec<Option<T>> = Vec::new();
    for item in it: items
        invariant
            slots@.len() == it.index(),
            forall|i: int| 0 <= i < slots@.len() ==> slots@[i] == Some(it.seq()[i]),
    {
        slots.push(Some(item));
    }
    slots
}

/// The items in the order that `order` gives: at place `k` the item from
/// position `order[k]`.
pub open spec fn arranged<T>(items: Seq<T>, order: Seq<usize>) -> Seq<T> {
    Seq::new(order.len(), |k: int| items[order[k] as int])
}

/// Puts the items into the order that `order` gives.
pub fn arrange<T>(items: Vec<T>, order: &Vec<usize>) -> (result: Vec<T>)
    requires
        is_permutation(order@, items@.len()),
    ensures
        result@ == arranged(items@, order@),
{
    let n = items.len();
    let mut slots = into_slots(items);
    let mut result: Vec<T> = Vec::new();
    let mut k: usize = 0;
    while k < n
        invariant
            k <= n,
            n == items@.len(),
            slots@.len() == n,
            result@.len() == k,
            is_permutation(order@, n as nat),
            forall|i: int|
                0 <= i < n && (forall|j: int| 0 <= j < k ==> order@[j] != i) ==> #[trigger] slots@[i]
                    == Some(items@[i]),
            forall|j: int| 0 <= j < k ==> #[trigger] result@[j] == items@[order@[j] as int],
        decreases n - k,
    {
        let at = order[k];
        let taken = slots[at].take();
        result.push(taken.unwrap());
        k += 1;
    }
    result
}

/// The positions `0..n` in their natural order.
pub fn identity_order(n: usize) -> (order: Vec<usize>)
    ensures
        is_permutation(order@, n as nat),
        forall|k: int| 0 <= k < n ==> order@[k] == k,
{
    let mut order: Vec<usize> = Vec::new();
    let mut i: usize = 0;
    while i < n
        invariant
            i <= n,
            order@.len() == i,
            forall|k: int| 0 <= k < i ==> order@[k] == k,
        decreases n - i,
    {
        order.push(i);
        i += 1;
    }
    order
}

/// Exchanges the entries at places `a` and `b`.
pub fn swap_places(order: &mut Vec<usize>, a: usize, b: usize)
    requires
        a < old(order)@.len(),
        b < old(order)@.len(),
    ensures
        final(order)@ == old(order)@.update(a as int, old(order)@[b as int]).update(
            b as int,
            old(order)@[a as int],
        ),
{
    let at_a = order[a];
    let at_b = order[b];
    order[a] = at_b;
    order[b] = at_a;
}

/// Exchanging two entries of a permutation leaves a permutation.
pub proof fn lemma_swap_keeps_permutation(order: Seq<usize>, n: nat, a: int, b: int)
    requires
        is_permutation(order, n),
        0 <= a < n,
        0 <= b < n,
    ensures
        is_permutation(order.update(a, order[b]).update(b, order[a]), n),
{
    let swapped = order.update(a, order[b]).update(b, order[a]);
    assert(swapped.no_duplicates());
}

/// Draws an arrangement of the positions `0..n`. Which one comes out depends
/// on the draws.
pub fn random_order(n: usize, rng: &mut ThreadRng) -> (order: Vec<usize>)
    ensures
        is_permutation(order@, n as nat),
{
    let mut order = identity_order(n);
    let mut i: usize = n;
    while i > 1
        invariant
            i <= n,
            is_permutation(order@, n as nat),
        decreases i,
    {
        i -= 1;
        let j = random_index(rng, 0, i + 1);
        proof {
            lemma_swap_keeps_permutation(order@, n as nat, i as int, j as int);
        }
        swap_places(&mut order, i, j);
    }
    order
}

} // verus!
