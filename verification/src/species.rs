//! Grouping a population by species, and taking turns through the groups.

use vstd::prelude::*;

verus! {

/// The genome at position `x` stands at place `i` of group `g`.
pub open spec fn is_place_of(groups: Seq<Seq<usize>>, g: int, i: int, x: int) -> bool {
    &&& 0 <= g < groups.len()
    &&& 0 <= i < groups[g].len()
    &&& groups[g][i] == x
}

/// The genome at position `x` stands in one of the groups.
pub open spec fn has_place(groups: Seq<Seq<usize>>, x: int) -> bool {
    exists|g: int, i: int| #[trigger] is_place_of(groups, g, i, x)
}

/// `groups` parts the first `n` positions of `keys` by species.
///
/// Each group lists, in rising order, all positions below `n` that have one
/// key; the groups come in the order in which their keys first occur.
pub open spec fn groups_first(keys: Seq<u64>, n: int, groups: Seq<Seq<usize>>) -> bool {
    &&& forall|g: int| 0 <= g < groups.len() ==> (#[trigger] groups[g]).len() > 0
    &&& forall|g: int, i: int|
        0 <= g < groups.len() && 0 <= i < groups[g].len() ==> (#[trigger] groups[g][i]) < n
    &&& forall|g: int, i: int, j: int|
        0 <= g < groups.len() && 0 <= i < j < groups[g].len() ==> (#[trigger] groups[g][i])
            < #[trigger] groups[g][j]
    &&& forall|g: int, i: int|
        0 <= g < groups.len() && 0 <= i < groups[g].len() ==> keys[(#[trigger] groups[g][i]) as int]
            == keys[groups[g][0] as int]
    &&& forall|g: int, h: int|
        0 <= g < h < groups.len() ==> (#[trigger] groups[g])[0] < (#[trigger] groups[h])[0]
            && keys[groups[g][0] as int] != keys[groups[h][0] as int]
    &&& forall|x: int| 0 <= x < n ==> #[trigger] has_place(groups, x)
}

/// `groups` parts the positions of `keys` by species.
pub open spec fn is_grouping(keys: Seq<u64>, groups: Seq<Seq<usize>>) -> bool {
    groups_first(keys, keys.len() as int, groups)
}

/// The groups as sequences of positions.
pub open spec fn positions_of(groups: Seq<Vec<usize>>) -> Seq<Seq<usize>> {
    Seq::new(groups.len(), |g: int| groups[g]@)
}

/// Parts the positions of `keys` by species: positions with equal keys go
/// into one group, and the groups come in the order in which their keys
/// first occur.
pub fn group_by_species(keys: &Vec<u64>) -> (groups: Vec<Vec<usize>>)
    ensures
        is_grouping(keys@, positions_of(groups@)),
{
    let mut groups: Vec<Vec<usize>> = Vec::new();
    let mut p: usize = 0;
    while p < keys.len()
        invariant
            p <= keys@.len(),
            groups_first(keys@, p as int, positions_of(groups@)),
        decreases keys@.len() - p,
    {
        let ghost before = positions_of(groups@);
        let mut g: usize = 0;
        assert forall|h: int| 0 <= h < groups@.len() implies (#[trigger] groups@[h])@.len() > 0
            && groups@[h]@[0] < keys@.len() by {
            assert(before[h].len() > 0);
            assert(before[h][0] < p);
        }
        while g < groups.len() && keys[groups[g][0]] != keys[p]
            invariant
                g <= groups@.len(),
                forall|h: int|
                    0 <= h < groups@.len() ==> (#[trigger] groups@[h])@.len() > 0 && groups@[h]@[0]
                        < keys@.len(),
                p < keys@.len(),
                before == positions_of(groups@),
                groups_first(keys@, p as int, before),
                forall|h: int| 0 <= h < g ==> keys@[(#[trigger] before[h])[0] as int] != keys@[p as int],
            decreases groups@.len() - g,
        {
            assert(before[g as int].len() > 0);
            g += 1;
        }
        if g < groups.len() {
            assert(before[g as int].len() > 0);
            groups[g].push(p);
            proof {
                let after = positions_of(groups@);
                assert(after =~= before.update(g as int, before[g as int].push(p)));
                assert forall|x: int| 0 <= x < p + 1 implies #[trigger] has_place(after, x) by {
                    if x < p {
                        assert(has_place(before, x));
                        let (h, i) = choose|h: int, i: int| #[trigger] is_place_of(before, h, i, x);
                        assert(is_place_of(after, h, i, x));
                    } else {
                        assert(is_place_of(after, g as int, before[g as int].len() as int, x));
                    }
                }
                assert forall|h: int, i: int, j: int|
                    0 <= h < after.len() && 0 <= i < j < after[h].len() implies (#[trigger] after[h][i])
                    < #[trigger] after[h][j] by {
                    if h == g && j == before[g as int].len() {
                        assert(before[h][i] < p);
                    }
                }
                assert forall|h: int, k: int| 0 <= h < k < after.len() implies (#[trigger] after[h])[0] < (
                #[trigger] after[k])[0] && keys@[after[h][0] as int] != keys@[after[k][0] as int] by {
                    assert(before[h].len() > 0 && before[k].len() > 0);
                    assert(after[h][0] == before[h][0] && after[k][0] == before[k][0]);
                }
            }
        } else {
            let mut group: Vec<usize> = Vec::new();
            group.push(p);
            groups.push(group);
            proof {
                let after = positions_of(groups@);
                assert(after =~= before.push(seq![p]));
                assert forall|x: int| 0 <= x < p + 1 implies #[trigger] has_place(after, x) by {
                    if x < p {
                        assert(has_place(before, x));
                        let (h, i) = choose|h: int, i: int| #[trigger] is_place_of(before, h, i, x);
                        assert(is_place_of(after, h, i, x));
                    } else {
                        assert(is_place_of(after, before.len() as int, 0, x));
                    }
                }
                assert forall|h: int, k: int| 0 <= h < k < after.len() implies (#[trigger] after[h])[0] < (
                #[trigger] after[k])[0] && keys@[after[h][0] as int] != keys@[after[k][0] as int] by {
                    assert(before[h].len() > 0);
                    assert(after[h][0] == before[h][0]);
                    if k < before.len() {
                        assert(before[k].len() > 0);
                        assert(after[k][0] == before[k][0]);
                    } else {
                        assert(before[h][0] < p);
                    }
                }
            }
        }
        p += 1;
    }
    groups
}

/// The groups without the last position of group `g`, and without the group
/// if that was its only one.
pub open spec fn without_last(groups: Seq<Seq<usize>>, g: int) -> Seq<Seq<usize>> {
    if groups[g].len() == 1 {
        groups.drop_last()
    } else {
        groups.update(g, groups[g].drop_last())
    }
}

/// In a grouping of the first `n + 1` positions, position `n` is the last of
/// its group, and a group of its own is the last group. Without it the
/// grouping is one of the first `n` positions.
proof fn lemma_without_last(keys: Seq<u64>, n: int, groups: Seq<Seq<usize>>) -> (g: int)
    requires
        0 <= n < keys.len(),
        groups_first(keys, n + 1, groups),
    ensures
        0 <= g < groups.len(),
        groups[g].last() == n,
        groups[g].len() == 1 ==> g == groups.len() - 1,
        groups_first(keys, n, without_last(groups, g)),
        groups[g].len() == 1 ==> forall|h: int|
            0 <= h < groups.len() - 1 ==> keys[(#[trigger] groups[h])[0] as int] != keys[n],
        groups[g].len() > 1 ==> keys[groups[g][0] as int] == keys[n],
{
    assert(has_place(groups, n));
    let (g, i) = choose|g: int, i: int| #[trigger] is_place_of(groups, g, i, n);
    // Nothing in the group comes after the greatest position.
    if i < groups[g].len() - 1 {
        assert(groups[g][i] < groups[g][groups[g].len() - 1]);
        assert(groups[g][groups[g].len() - 1] < n + 1);
    }
    // A group that begins with the greatest position is the last.
    if groups[g].len() == 1 && g < groups.len() - 1 {
        assert(groups[g][0] < groups[groups.len() - 1][0]);
        assert(groups[groups.len() - 1][0] < n + 1);
    }
    assert(keys[groups[g][i] as int] == keys[groups[g][0] as int]);
    let rest = without_last(groups, g);
    assert forall|h: int, j: int| 0 <= h < rest.len() && 0 <= j < rest[h].len() implies (#[trigger] rest[h][j])
        < n by {
        assert(rest[h][j] == groups[h][j]);
        assert(groups[h][j] < n + 1);
        if groups[h][j] == n {
            if h == g {
                assert(groups[g][j] < groups[g][i]);
            } else if h < g {
                assert(groups[h][0] < groups[g][0]);
                if j > 0 {
                    assert(groups[h][0] < groups[h][j]);
                }
                if i > 0 {
                    assert(groups[g][0] < groups[g][i]);
                }
                assert(keys[groups[h][j] as int] == keys[groups[h][0] as int]);
                assert(keys[groups[h][0] as int] != keys[groups[g][0] as int]);
            } else {
                assert(keys[groups[h][j] as int] == keys[groups[h][0] as int]);
                assert(keys[groups[g][0] as int] != keys[groups[h][0] as int]);
            }
        }
    }
    assert forall|x: int| 0 <= x < n implies #[trigger] has_place(rest, x) by {
        assert(has_place(groups, x));
        let (h, j) = choose|h: int, j: int| #[trigger] is_place_of(groups, h, j, x);
        if h == g {
            assert(j != i);
        }
        assert(is_place_of(rest, h, j, x));
    }
    assert forall|h: int| 0 <= h < rest.len() implies (#[trigger] rest[h]).len() > 0 by {
        assert(groups[h].len() > 0);
    }
    assert forall|h: int, a: int, b: int| 0 <= h < rest.len() && 0 <= a < b < rest[h].len() implies (
    #[trigger] rest[h][a]) < #[trigger] rest[h][b] by {
        assert(groups[h][a] < groups[h][b]);
    }
    assert forall|h: int, j: int| 0 <= h < rest.len() && 0 <= j < rest[h].len() implies keys[(
    #[trigger] rest[h][j]) as int] == keys[rest[h][0] as int] by {
        assert(keys[groups[h][j] as int] == keys[groups[h][0] as int]);
    }
    assert forall|h: int, k: int| 0 <= h < k < rest.len() implies (#[trigger] rest[h])[0] < (
    #[trigger] rest[k])[0] && keys[rest[h][0] as int] != keys[rest[k][0] as int] by {
        assert(groups[h].len() > 0 && groups[k].len() > 0);
        assert(groups[h][0] < groups[k][0] && keys[groups[h][0] as int] != keys[groups[k][0] as int]);
    }
    if groups[g].len() == 1 {
        assert forall|h: int| 0 <= h < groups.len() - 1 implies keys[(#[trigger] groups[h])[0] as int]
            != keys[n] by {
            assert(keys[groups[h][0] as int] != keys[groups[g][0] as int]);
        }
    }
    g
}

/// The first `n` positions can be parted by species in one way only.
pub proof fn lemma_grouping_unique_first(keys: Seq<u64>, n: int, first: Seq<Seq<usize>>, second: Seq<Seq<usize>>)
    requires
        0 <= n <= keys.len(),
        groups_first(keys, n, first),
        groups_first(keys, n, second),
    ensures
        first == second,
    decreases n,
{
    if n == 0 {
        if first.len() > 0 {
            assert(first[0].len() > 0);
            assert(first[0][0] < 0);
        }
        if second.len() > 0 {
            assert(second[0].len() > 0);
            assert(second[0][0] < 0);
        }
        assert(first =~= second);
    } else {
        let x = (n - 1) as usize;
        let g = lemma_without_last(keys, n - 1, first);
        let h = lemma_without_last(keys, n - 1, second);
        let rest = without_last(first, g);
        lemma_grouping_unique_first(keys, n - 1, rest, without_last(second, h));
        assert(rest == without_last(second, h));
        if first[g].len() == 1 {
            // The position opens a group in the one, so it does in the other.
            if second[h].len() > 1 {
                assert(rest.len() == second.len());
                assert(rest[h] == second[h].drop_last());
                assert(rest[h][0] == second[h][0]);
                assert(first[h] == rest[h]);
                assert(keys[first[h][0] as int] != keys[n - 1]);
            }
            assert(first[g] =~= seq![x]);
            assert(second[h] =~= seq![x]);
            assert(first =~= rest.push(seq![x]));
            assert(second =~= rest.push(seq![x]));
        } else {
            // The position joins a group in the one, so it does in the other.
            if second[h].len() == 1 {
                assert(rest.len() == first.len());
                assert(rest[g] == first[g].drop_last());
                assert(rest[g][0] == first[g][0]);
                assert(second[g] == rest[g]);
                assert(keys[second[g][0] as int] != keys[n - 1]);
            }
            assert(rest[g] == first[g].drop_last());
            assert(rest[h] == second[h].drop_last());
            assert(rest[g][0] == first[g][0]);
            assert(rest[h][0] == second[h][0]);
            if g < h {
                assert(keys[rest[g][0] as int] != keys[rest[h][0] as int]);
            } else if h < g {
                assert(keys[rest[h][0] as int] != keys[rest[g][0] as int]);
            }
            assert(first[g] =~= rest[g].push(x));
            assert(second[g] =~= rest[g].push(x));
            assert(first =~= rest.update(g, rest[g].push(x)));
            assert(second =~= rest.update(g, rest[g].push(x)));
        }
    }
}

/// A population can be parted by species in one way only.
pub proof fn lemma_grouping_unique(keys: Seq<u64>, first: Seq<Seq<usize>>, second: Seq<Seq<usize>>)
    requires
        is_grouping(keys, first),
        is_grouping(keys, second),
    ensures
        first == second,
{
    lemma_grouping_unique_first(keys, keys.len() as int, first, second);
}

/// Two positions of `keys` hold the same key.
pub open spec fn has_mates(keys: Seq<u64>) -> bool {
    exists|a: int, b: int| 0 <= a < b < keys.len() && #[trigger] keys[a] == #[trigger] keys[b]
}

/// The groups in which a genome finds a partner: those of two or more.
pub open spec fn mating(groups: Seq<Seq<usize>>) -> Seq<Seq<usize>> {
    groups.filter(|group: Seq<usize>| group.len() >= 2)
}

/// Keeps the groups of two or more, in their order.
pub fn mating_groups(groups: Vec<Vec<usize>>) -> (mates: Vec<Vec<usize>>)
    ensures
        positions_of(mates@) == mating(positions_of(groups@)),
{
    let ghost all = positions_of(groups@);
    let ghost wanted = |group: Seq<usize>| group.len() >= 2;
    let mut mates: Vec<Vec<usize>> = Vec::new();
    proof {
        reveal(Seq::filter);
        assert(all.take(0).filter(wanted) =~= positions_of(mates@));
    }
    for group in it: groups
        invariant
            it.seq() == groups@,
            all == positions_of(groups@),
            wanted == |group: Seq<usize>| group.len() >= 2,
            positions_of(mates@) == all.take(it.index() as int).filter(wanted),
    {
        let ghost at = it.index() as int;
        let ghost kept = positions_of(mates@);
        proof {
            assert(group@ == all[at]);
            assert(all.take(at + 1) =~= all.take(at).push(all[at]));
            all.take(at).lemma_filter_push(all[at], wanted);
        }
        if group.len() >= 2 {
            mates.push(group);
            assert(positions_of(mates@) =~= kept.push(all[at]));
        }
    }
    assert(all.take(all.len() as int) =~= all);
    mates
}

/// Every mating group is one of the groups and has two members or more.
pub proof fn lemma_mating_group(groups: Seq<Seq<usize>>, m: int)
    requires
        0 <= m < mating(groups).len(),
    ensures
        mating(groups)[m].len() >= 2,
        exists|g: int| 0 <= g < groups.len() && #[trigger] groups[g] == mating(groups)[m],
{
    let wanted = |group: Seq<usize>| group.len() >= 2;
    groups.lemma_filter_pred(wanted, m);
    assert(groups.filter(wanted).contains(groups.filter(wanted)[m]));
    groups.lemma_filter_contains_rev(wanted, mating(groups)[m]);
    let g = choose|g: int| 0 <= g < groups.len() && groups[g] == mating(groups)[m];
    assert(groups[g] == mating(groups)[m]);
}

/// There is a mating group exactly if two genomes are of one species.
pub proof fn lemma_mating_iff_mates(keys: Seq<u64>, groups: Seq<Seq<usize>>)
    requires
        is_grouping(keys, groups),
    ensures
        mating(groups).len() > 0 <==> has_mates(keys),
{
    let wanted = |group: Seq<usize>| group.len() >= 2;
    if has_mates(keys) {
        let (a, b) = choose|a: int, b: int| 0 <= a < b < keys.len() && #[trigger] keys[a] == #[trigger] keys[b];
        assert(has_place(groups, a));
        assert(has_place(groups, b));
        let (g, i) = choose|g: int, i: int| #[trigger] is_place_of(groups, g, i, a);
        let (h, j) = choose|h: int, j: int| #[trigger] is_place_of(groups, h, j, b);
        assert(keys[groups[g][i] as int] == keys[groups[g][0] as int]);
        assert(keys[groups[h][j] as int] == keys[groups[h][0] as int]);
        if g < h {
            assert(keys[groups[g][0] as int] != keys[groups[h][0] as int]);
        } else if h < g {
            assert(keys[groups[h][0] as int] != keys[groups[g][0] as int]);
        }
        assert(g == h);
        assert(i != j);
        assert(wanted(groups[g]));
        groups.lemma_filter_contains(wanted, g);
        assert(mating(groups).contains(groups[g]));
    }
    if mating(groups).len() > 0 {
        lemma_mating_group(groups, 0);
        let g = choose|g: int| 0 <= g < groups.len() && #[trigger] groups[g] == mating(groups)[0];
        let a = groups[g][0] as int;
        let b = groups[g][1] as int;
        assert(keys[groups[g][1] as int] == keys[groups[g][0] as int]);
        assert(a < b < keys.len());
        assert(keys[a] == keys[b]);
    }
}

/// The members of one mating group are different genomes of one species.
pub proof fn lemma_mates_share_species(keys: Seq<u64>, groups: Seq<Seq<usize>>, m: int, i: int, j: int)
    requires
        is_grouping(keys, groups),
        0 <= m < mating(groups).len(),
        0 <= i < mating(groups)[m].len(),
        0 <= j < mating(groups)[m].len(),
    ensures
        mating(groups)[m][i] < keys.len(),
        mating(groups)[m][j] < keys.len(),
        keys[mating(groups)[m][i] as int] == keys[mating(groups)[m][j] as int],
        i != j ==> mating(groups)[m][i] != mating(groups)[m][j],
{
    lemma_mating_group(groups, m);
    let g = choose|g: int| 0 <= g < groups.len() && #[trigger] groups[g] == mating(groups)[m];
    assert(keys[groups[g][i] as int] == keys[groups[g][0] as int]);
    assert(keys[groups[g][j] as int] == keys[groups[g][0] as int]);
    if i < j {
        assert(groups[g][i] < groups[g][j]);
    } else if j < i {
        assert(groups[g][j] < groups[g][i]);
    }
}

/// Whose turn it is after `turn`: the next member of the group, or the first
/// member of the next group, or of the first group after the last.
pub open spec fn turn_after(mates: Seq<Seq<usize>>, turn: (int, int)) -> (int, int) {
    if turn.1 + 1 < mates[turn.0].len() {
        (turn.0, turn.1 + 1)
    } else if turn.0 + 1 < mates.len() {
        (turn.0 + 1, 0)
    } else {
        (0, 0)
    }
}

/// Whose turn it is after the member at place `place` of group `group`.
pub fn next_turn(mates: &Vec<Vec<usize>>, group: usize, place: usize) -> (turn: (usize, usize))
    requires
        group < mates@.len(),
        place < mates@[group as int]@.len(),
    ensures
        (turn.0 as int, turn.1 as int) == turn_after(positions_of(mates@), (group as int, place as int)),
{
    let members = mates[group].len();
    let count = mates.len();
    if place + 1 < members {
        (group, place + 1)
    } else if group + 1 < count {
        (group + 1, 0)
    } else {
        (0, 0)
    }
}

/// Whose turn it is to be the parent of child number `child`, as a group and
/// a place in it. The members of the mating groups take turns, group after
/// group, again and again.
pub open spec fn turn_at(mates: Seq<Seq<usize>>, child: nat) -> (int, int)
    decreases child,
{
    if child == 0 {
        (0, 0)
    } else {
        turn_after(mates, turn_at(mates, (child - 1) as nat))
    }
}

/// Every turn names a member of a mating group.
pub proof fn lemma_turn_in_group(groups: Seq<Seq<usize>>, child: nat)
    requires
        mating(groups).len() > 0,
    ensures
        0 <= turn_at(mating(groups), child).0 < mating(groups).len(),
        0 <= turn_at(mating(groups), child).1 < mating(groups)[turn_at(mating(groups), child).0].len(),
    decreases child,
{
    lemma_mating_group(groups, 0);
    if child > 0 {
        lemma_turn_in_group(groups, (child - 1) as nat);
        let turn = turn_at(mating(groups), (child - 1) as nat);
        if turn.1 + 1 < mating(groups)[turn.0].len() {
        } else if turn.0 + 1 < mating(groups).len() {
            lemma_mating_group(groups, turn.0 + 1);
        }
    }
}

} // verus!
