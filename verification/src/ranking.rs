//! The order in which comments are shown: most upvotes first, and among
//! comments with as many upvotes the one that was posted first.

use vstd::prelude::*;
use vstd::set_lib::{lemma_int_range, lemma_len_subset, lemma_subset_equality, set_int_range};

verus! {

/// Of the comments with the upvotes `upvotes`, each at its place of posting,
/// the one at `a` is shown before the one at `b`.
pub open spec fn ranks_before(upvotes: Seq<nat>, a: int, b: int) -> bool {
    upvotes[a] > upvotes[b] || (upvotes[a] == upvotes[b] && a < b)
}

/// `order` names the places of posting in the order in which the comments
/// are shown: as many places as there are comments, and each before those
/// that it ranks before. So each place is named once.
pub open spec fn is_ranking(order: Seq<int>, upvotes: Seq<nat>) -> bool {
    &&& order.len() == upvotes.len()
    &&& forall|k: int| 0 <= k < order.len() ==> 0 <= #[trigger] order[k] < upvotes.len()
    &&& forall|i: int, j: int|
        0 <= i < j < order.len() ==> ranks_before(upvotes, #[trigger] order[i], #[trigger] order[j])
}

/// The order in which comments with the upvotes `upvotes` are shown.
pub open spec fn ranking_of(upvotes: Seq<nat>) -> Seq<int> {
    choose|order: Seq<int>| is_ranking(order, upvotes)
}

/// Places of posting as numbers.
pub open spec fn places(order: Seq<usize>) -> Seq<int> {
    order.map_values(|at: usize| at as int)
}

/// Upvote counts as numbers.
pub open spec fn counts(upvotes: Seq<usize>) -> Seq<nat> {
    upvotes.map_values(|count: usize| count as nat)
}

/// A ranking names every place of posting.
proof fn ranking_names_each_place(order: Seq<int>, upvotes: Seq<nat>, place: int)
    requires
        is_ranking(order, upvotes),
        0 <= place < upvotes.len(),
    ensures
        order.contains(place),
{
    let all = set_int_range(0, upvotes.len() as int);
    assert forall|i: int, j: int| 0 <= i < order.len() && 0 <= j < order.len() && i != j implies order[i]
        != order[j] by {
        if i < j {
            assert(ranks_before(upvotes, order[i], order[j]));
        } else {
            assert(ranks_before(upvotes, order[j], order[i]));
        }
    }
    order.unique_seq_to_set();
    lemma_int_range(0, upvotes.len() as int);
    assert forall|x: int| order.to_set().contains(x) implies all.contains(x) by {
        let k = choose|k: int| 0 <= k < order.len() && order[k] == x;
        assert(0 <= order[k] < upvotes.len());
    }
    lemma_len_subset(order.to_set(), all);
    lemma_subset_equality(order.to_set(), all);
    assert(all.contains(place));
    assert(order.to_set().contains(place));
}

/// In a ranking, the places before the `k`th are those that rank before the
/// place that is named there, and there are `k` of them.
proof fn places_before(order: Seq<int>, upvotes: Seq<nat>, k: int) -> (before: Set<int>)
    requires
        is_ranking(order, upvotes),
        0 <= k < order.len(),
    ensures
        before.finite(),
        before.len() == k,
        forall|x: int|
            before.contains(x) <==> (0 <= x < upvotes.len() && ranks_before(upvotes, x, order[k])),
{
    let head = order.take(k);
    let before = head.to_set();
    assert forall|i: int, j: int| 0 <= i < head.len() && 0 <= j < head.len() && i != j implies head[i]
        != head[j] by {
        assert(head[i] == order[i] && head[j] == order[j]);
        if i < j {
            assert(ranks_before(upvotes, order[i], order[j]));
        } else {
            assert(ranks_before(upvotes, order[j], order[i]));
        }
    }
    head.unique_seq_to_set();
    vstd::seq_lib::seq_to_set_is_finite(head);
    assert forall|x: int| before.contains(x) <==> (0 <= x < upvotes.len() && ranks_before(
        upvotes,
        x,
        order[k],
    )) by {
        if before.contains(x) {
            let i = choose|i: int| 0 <= i < head.len() && head[i] == x;
            assert(order[i] == x);
            assert(ranks_before(upvotes, order[i], order[k]));
        }
        if 0 <= x < upvotes.len() && ranks_before(upvotes, x, order[k]) {
            ranking_names_each_place(order, upvotes, x);
            let i = choose|i: int| 0 <= i < order.len() && order[i] == x;
            if i > k {
                assert(ranks_before(upvotes, order[k], order[i]));
            }
            assert(i < k);
            assert(head[i] == x);
        }
    }
    before
}

/// Comments with given upvotes are shown in one order only.
pub proof fn ranking_is_unique(first: Seq<int>, second: Seq<int>, upvotes: Seq<nat>)
    requires
        is_ranking(first, upvotes),
        is_ranking(second, upvotes),
    ensures
        first == second,
{
    assert forall|k: int| 0 <= k < first.len() implies first[k] == second[k] by {
        let place = first[k];
        ranking_names_each_place(second, upvotes, place);
        let m = choose|m: int| 0 <= m < second.len() && second[m] == place;
        let before_first = places_before(first, upvotes, k);
        let before_second = places_before(second, upvotes, m);
        assert(before_first =~= before_second);
    }
    assert(first =~= second);
}

/// Where a comment with `count` upvotes that was posted after those of
/// `order` goes: behind the last one that has `count` upvotes or more.
spec fn slot(order: Seq<int>, upvotes: Seq<nat>, count: nat) -> int
    decreases order.len(),
{
    if order.len() == 0 {
        0
    } else if upvotes[order.last()] >= count {
        order.len() as int
    } else {
        slot(order.drop_last(), upvotes, count)
    }
}

/// The slot divides the order: before it the comments have `count` upvotes or
/// more, from it on they have fewer.
proof fn slot_divides(order: Seq<int>, upvotes: Seq<nat>, count: nat)
    ensures
        0 <= slot(order, upvotes, count) <= order.len(),
        slot(order, upvotes, count) > 0 ==> upvotes[order[slot(order, upvotes, count) - 1]] >= count,
        forall|k: int|
            slot(order, upvotes, count) <= k < order.len() ==> upvotes[#[trigger] order[k]] < count,
    decreases order.len(),
{
    if order.len() > 0 && upvotes[order.last()] < count {
        let rest = order.drop_last();
        slot_divides(rest, upvotes, count);
        let at = slot(rest, upvotes, count);
        if at > 0 {
            assert(rest[at - 1] == order[at - 1]);
        }
        assert forall|k: int| at <= k < order.len() implies upvotes[#[trigger] order[k]] < count by {
            if k < rest.len() {
                assert(rest[k] == order[k]);
            }
        }
    }
}

/// Whatever the upvotes, there is an order in which the comments are shown,
/// and `ranking_of` names it.
pub proof fn ranking_exists(upvotes: Seq<nat>)
    ensures
        is_ranking(ranking_of(upvotes), upvotes),
    decreases upvotes.len(),
{
    if upvotes.len() == 0 {
        assert(is_ranking(Seq::<int>::empty(), upvotes));
    } else {
        let earlier = upvotes.drop_last();
        let next = upvotes.len() - 1;
        ranking_exists(earlier);
        let before = ranking_of(earlier);
        let at = slot(before, upvotes, upvotes[next]);
        slot_divides(before, upvotes, upvotes[next]);
        let order = before.insert(at, next);
        assert forall|k: int| 0 <= k < order.len() implies 0 <= #[trigger] order[k]
            < upvotes.len() by {
            if k < at {
                assert(order[k] == before[k]);
            } else if k > at {
                assert(order[k] == before[k - 1]);
            }
        }
        assert forall|i: int, j: int| 0 <= i < j < before.len() implies ranks_before(
            upvotes,
            #[trigger] before[i],
            #[trigger] before[j],
        ) by {
            assert(ranks_before(earlier, before[i], before[j]));
            assert(earlier[before[i]] == upvotes[before[i]]);
            assert(earlier[before[j]] == upvotes[before[j]]);
        }
        assert forall|i: int, j: int| 0 <= i < j < order.len() implies ranks_before(
            upvotes,
            #[trigger] order[i],
            #[trigger] order[j],
        ) by {
            if j < at {
                assert(order[i] == before[i] && order[j] == before[j]);
            } else if j == at {
                assert(order[i] == before[i]);
                assert(0 <= before[i] < earlier.len());
                if i < at - 1 {
                    assert(ranks_before(upvotes, before[i], before[at - 1]));
                }
            } else if i < at {
                assert(order[i] == before[i] && order[j] == before[j - 1]);
            } else if i == at {
                assert(order[j] == before[j - 1]);
            } else {
                assert(order[i] == before[i - 1] && order[j] == before[j - 1]);
            }
        }
        assert(is_ranking(order, upvotes));
    }
}

/// The ranking shows the comments with more upvotes first, those with as
/// many in the order of their posting, and each comment once.
pub proof fn ranking_of_shows_each_once(upvotes: Seq<nat>)
    ensures
        ranking_of(upvotes).len() == upvotes.len(),
        forall|i: int, j: int|
            0 <= i < j < upvotes.len() ==> {
                let first = #[trigger] ranking_of(upvotes)[i];
                let second = #[trigger] ranking_of(upvotes)[j];
                &&& first != second
                &&& upvotes[first] >= upvotes[second]
                &&& upvotes[first] == upvotes[second] ==> first < second
            },
        forall|place: int| 0 <= place < upvotes.len() ==> ranking_of(upvotes).contains(place),
        forall|k: int| 0 <= k < upvotes.len() ==> 0 <= #[trigger] ranking_of(upvotes)[k] < upvotes.len(),
{
    ranking_exists(upvotes);
    let order = ranking_of(upvotes);
    assert forall|i: int, j: int| 0 <= i < j < upvotes.len() implies {
        let first = #[trigger] order[i];
        let second = #[trigger] order[j];
        &&& first != second
        &&& upvotes[first] >= upvotes[second]
        &&& upvotes[first] == upvotes[second] ==> first < second
    } by {
        assert(ranks_before(upvotes, order[i], order[j]));
    }
    assert forall|place: int| 0 <= place < upvotes.len() implies order.contains(place) by {
        ranking_names_each_place(order, upvotes, place);
    }
}

/// What `ranking_of` names is a ranking, and the only one.
pub proof fn ranking_of_is_the_ranking(order: Seq<int>, upvotes: Seq<nat>)
    requires
        is_ranking(order, upvotes),
    ensures
        ranking_of(upvotes) == order,
{
    ranking_is_unique(ranking_of(upvotes), order, upvotes);
}

/// The order in which comments with the upvotes `upvotes` are shown: the
/// places of posting, that of the comment that is shown first at the head.
pub fn ranking(upvotes: &Vec<usize>) -> (order: Vec<usize>)
    ensures
        is_ranking(places(order@), counts(upvotes@)),
        places(order@) == ranking_of(counts(upvotes@)),
{
    let mut order: Vec<usize> = Vec::new();
    let mut next: usize = 0;
    while next < upvotes.len()
        invariant
            next <= upvotes.len(),
            order.len() == next,
            forall|k: int| 0 <= k < order.len() ==> (#[trigger] order[k]) < next,
            forall|i: int, j: int|
                0 <= i < j < order.len() ==> ranks_before(
                    counts(upvotes@),
                    (#[trigger] order[i]) as int,
                    (#[trigger] order[j]) as int,
                ),
        decreases upvotes.len() - next,
    {
        let mut at: usize = order.len();
        while at > 0 && upvotes[order[at - 1]] < upvotes[next]
            invariant
                at <= order.len(),
                order.len() == next < upvotes.len(),
                forall|k: int| 0 <= k < order.len() ==> (#[trigger] order[k]) < next,
                forall|k: int|
                    at <= k < order.len() ==> upvotes[(#[trigger] order[k]) as int]
                        < upvotes[next as int],
            decreases at,
        {
            at -= 1;
        }
        let ghost before = order@;
        order.insert(at, next);
        proof {
            assert forall|k: int| 0 <= k < order.len() implies (#[trigger] order[k]) < next
                + 1 by {
                if k < at {
                    assert(order[k] == before[k]);
                } else if k > at {
                    assert(order[k] == before[k - 1]);
                }
            }
            assert forall|i: int, j: int| 0 <= i < j < order.len() implies ranks_before(
                counts(upvotes@),
                (#[trigger] order[i]) as int,
                (#[trigger] order[j]) as int,
            ) by {
                if j < at {
                    assert(order[i] == before[i] && order[j] == before[j]);
                } else if j == at {
                    assert(order[i] == before[i]);
                    if i < at - 1 {
                        assert(ranks_before(
                            counts(upvotes@),
                            before[i] as int,
                            before[at - 1] as int,
                        ));
                    }
                } else if i < at {
                    assert(order[i] == before[i] && order[j] == before[j - 1]);
                } else if i == at {
                    assert(order[j] == before[j - 1]);
                } else {
                    assert(order[i] == before[i - 1] && order[j] == before[j - 1]);
                }
            }
        }
        next += 1;
    }
    proof {
        let shown = places(order@);
        assert forall|i: int, j: int| 0 <= i < j < shown.len() implies ranks_before(
            counts(upvotes@),
            #[trigger] shown[i],
            #[trigger] shown[j],
        ) by {
            assert(shown[i] == order[i] as int && shown[j] == order[j] as int);
        }
        ranking_of_is_the_ranking(shown, counts(upvotes@));
    }
    order
}

} // verus!
