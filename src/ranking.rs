use vstd::prelude::*;
use vstd::set_lib::{lemma_int_range, lemma_subset_equality, set_int_range};

use crate::replay::{OutcomeView, PairedOutcome};

verus! {

/// Whether outcome `a` comes before outcome `b` in a stable sort by tick
/// (ascending, or descending): ties keep their log order.
pub open spec fn ranks_before(ticks: Seq<u32>, descending: bool, a: int, b: int) -> bool {
    if ticks[a] == ticks[b] {
        a < b
    } else if descending {
        ticks[a] > ticks[b]
    } else {
        ticks[a] < ticks[b]
    }
}

/// `order` lists every index of `ticks` once, in stable tick order.
pub open spec fn is_ranking(ticks: Seq<u32>, descending: bool, order: Seq<usize>) -> bool {
    &&& order.len() == ticks.len()
    &&& forall|i: int| 0 <= i < order.len() ==> order[i] < ticks.len()
    &&& forall|i: int, j: int|
        0 <= i < j < order.len() ==> ranks_before(ticks, descending, #[trigger] order[i] as int, #[trigger] order[j] as int)
}

/// The ticks of the outcomes, in log order.
pub open spec fn ticks_spec(outcomes: Seq<OutcomeView>) -> Seq<u32> {
    outcomes.map_values(|o: OutcomeView| o.tick)
}

/// The first `k` entries of `order`, or all of them when there are fewer.
pub open spec fn take_spec(order: Seq<usize>, k: usize) -> Seq<usize> {
    if order.len() <= k {
        order
    } else {
        order.subrange(0, k as int)
    }
}

/// The ticks of the outcomes, in log order.
pub fn outcome_ticks(outcomes: &Vec<PairedOutcome>) -> (r: Vec<u32>)
    ensures
        r@ == ticks_spec(outcomes@.map_values(|o: PairedOutcome| o@)),
{
    let mut r: Vec<u32> = Vec::new();
    let mut i: usize = 0;
    while i < outcomes.len()
        invariant
            i <= outcomes.len(),
            r@ == ticks_spec(outcomes@.map_values(|o: PairedOutcome| o@)).subrange(0, i as int),
        decreases outcomes.len() - i,
    {
        r.push(outcomes[i].tick);
        proof {
            assert(r@ =~= ticks_spec(outcomes@.map_values(|o: PairedOutcome| o@)).subrange(0, i + 1));
        }
        i += 1;
    }
    proof {
        assert(r@ =~= ticks_spec(outcomes@.map_values(|o: PairedOutcome| o@)));
    }
    r
}

fn comes_before(ticks: &Vec<u32>, descending: bool, a: usize, b: usize) -> (r: bool)
    requires
        a < ticks.len(),
        b < ticks.len(),
    ensures
        r == ranks_before(ticks@, descending, a as int, b as int),
{
    if ticks[a] == ticks[b] {
        a < b
    } else if descending {
        ticks[a] > ticks[b]
    } else {
        ticks[a] < ticks[b]
    }
}

/// Stable sort of the outcome indices by tick.
pub fn rank_by_tick(ticks: &Vec<u32>, descending: bool) -> (r: Vec<usize>)
    ensures
        is_ranking(ticks@, descending, r@),
{
    let mut order: Vec<usize> = Vec::new();
    let mut i: usize = 0;
    while i < ticks.len()
        invariant
            i <= ticks.len(),
            order.len() == i,
            forall|k: int| 0 <= k < order.len() ==> order[k] < i,
            forall|a: int, b: int|
                0 <= a < b < order.len() ==> ranks_before(ticks@, descending, #[trigger] order[a] as int, #[trigger] order[b] as int),
        decreases ticks.len() - i,
    {
        let mut pos: usize = 0;
        while pos < order.len() && !comes_before(ticks, descending, i, order[pos])
            invariant
                i < ticks.len(),
                pos <= order.len(),
                order.len() == i,
                forall|k: int| 0 <= k < order.len() ==> order[k] < i,
                forall|k: int| 0 <= k < pos ==> ranks_before(ticks@, descending, #[trigger] order[k] as int, i as int),
            decreases order.len() - pos,
        {
            pos += 1;
        }
        let ghost old_order = order@;
        proof {
            assert forall|k: int| pos <= k < old_order.len() implies ranks_before(ticks@, descending, i as int, #[trigger] old_order[k] as int) by {
                if k > pos {
                    assert(ranks_before(ticks@, descending, old_order[pos as int] as int, old_order[k] as int));
                }
            }
        }
        order.insert(pos, i);
        proof {
            assert(order@ == old_order.insert(pos as int, i));
            assert forall|a: int, b: int|
                0 <= a < b < order.len() implies ranks_before(ticks@, descending, #[trigger] order[a] as int, #[trigger] order[b] as int) by {
                if a < pos && b < pos {
                    assert(order[a] == old_order[a] && order[b] == old_order[b]);
                } else if a < pos && b == pos {
                } else if a < pos {
                    assert(order[b] == old_order[b - 1]);
                } else if a == pos {
                    assert(order[b] == old_order[b - 1]);
                } else {
                    assert(order[a] == old_order[a - 1] && order[b] == old_order[b - 1]);
                }
            }
        }
        i += 1;
    }
    order
}

/// The `k` fastest outcomes (lowest ticks first, ties in log order).
pub fn best_group(ticks: &Vec<u32>, k: usize) -> (r: Vec<usize>)
    ensures
        exists|order: Seq<usize>| is_ranking(ticks@, false, order) && r@ == take_spec(order, k),
{
    let mut order = rank_by_tick(ticks, false);
    let ghost full = order@;
    if order.len() > k {
        order.truncate(k);
    }
    proof {
        assert(is_ranking(ticks@, false, full) && order@ == take_spec(full, k));
    }
    order
}

/// The `k` slowest outcomes (highest ticks first, ties in log order).
pub fn worst_group(ticks: &Vec<u32>, k: usize) -> (r: Vec<usize>)
    ensures
        exists|order: Seq<usize>| is_ranking(ticks@, true, order) && r@ == take_spec(order, k),
{
    let mut order = rank_by_tick(ticks, true);
    let ghost full = order@;
    if order.len() > k {
        order.truncate(k);
    }
    proof {
        assert(is_ranking(ticks@, true, full) && order@ == take_spec(full, k));
    }
    order
}

/// A ranking lists every index of `ticks`.
pub proof fn lemma_ranking_covers(ticks: Seq<u32>, descending: bool, order: Seq<usize>, x: int)
    requires
        is_ranking(ticks, descending, order),
        0 <= x < ticks.len(),
    ensures
        exists|p: int| 0 <= p < order.len() && order[p] == x,
{
    let ints = order.map_values(|v: usize| v as int);
    assert(ints.no_duplicates()) by {
        assert forall|i: int, j: int| 0 <= i < ints.len() && 0 <= j < ints.len() && i != j implies ints[i] != ints[j] by {
            if i < j {
                assert(ranks_before(ticks, descending, order[i] as int, order[j] as int));
            } else {
                assert(ranks_before(ticks, descending, order[j] as int, order[i] as int));
            }
        }
    }
    ints.unique_seq_to_set();
    lemma_int_range(0, ticks.len() as int);
    let range = set_int_range(0, ticks.len() as int);
    assert(ints.to_set().subset_of(range)) by {
        assert forall|v: int| ints.to_set().contains(v) implies range.contains(v) by {
            let i = choose|i: int| 0 <= i < ints.len() && ints[i] == v;
            assert(order[i] < ticks.len());
        }
    }
    lemma_subset_equality(ints.to_set(), range);
    assert(range.contains(x));
    assert(ints.to_set().contains(x));
    let p = choose|p: int| 0 <= p < ints.len() && ints[p] == x;
    assert(order[p] == x);
}

proof fn lemma_rankings_agree_upto(ticks: Seq<u32>, descending: bool, a: Seq<usize>, b: Seq<usize>, k: int)
    requires
        is_ranking(ticks, descending, a),
        is_ranking(ticks, descending, b),
        0 <= k <= a.len(),
    ensures
        forall|j: int| 0 <= j < k ==> a[j] == b[j],
    decreases k,
{
    if k > 0 {
        let i = k - 1;
        lemma_rankings_agree_upto(ticks, descending, a, b, i);
        let x = a[i];
        let y = b[i];
        if x != y {
            lemma_ranking_covers(ticks, descending, b, x as int);
            lemma_ranking_covers(ticks, descending, a, y as int);
            let p = choose|p: int| 0 <= p < b.len() && b[p] == x;
            let q = choose|q: int| 0 <= q < a.len() && a[q] == y;
            if p < i {
                assert(a[p] == b[p]);
                assert(ranks_before(ticks, descending, a[p] as int, a[i] as int));
            }
            if q < i {
                assert(a[q] == b[q]);
                assert(ranks_before(ticks, descending, b[q] as int, b[i] as int));
            }
            assert(ranks_before(ticks, descending, b[i] as int, b[p] as int));
            assert(ranks_before(ticks, descending, a[i] as int, a[q] as int));
        }
    }
}

/// There is only one stable tick order of a sequence of outcomes.
pub proof fn lemma_ranking_unique(ticks: Seq<u32>, descending: bool, a: Seq<usize>, b: Seq<usize>)
    requires
        is_ranking(ticks, descending, a),
        is_ranking(ticks, descending, b),
    ensures
        a == b,
{
    lemma_rankings_agree_upto(ticks, descending, a, b, a.len() as int);
    assert(a =~= b);
}

/// Ranking is deterministic: two selections of the first `k` in the same
/// stable tick order of the same outcomes are the same indices in the same
/// order.
pub proof fn lemma_groups_deterministic(ticks: Seq<u32>, descending: bool, k: usize, r1: Seq<usize>, r2: Seq<usize>)
    requires
        exists|order: Seq<usize>| is_ranking(ticks, descending, order) && r1 == take_spec(order, k),
        exists|order: Seq<usize>| is_ranking(ticks, descending, order) && r2 == take_spec(order, k),
    ensures
        r1 == r2,
{
    let o1 = choose|order: Seq<usize>| is_ranking(ticks, descending, order) && r1 == take_spec(order, k);
    let o2 = choose|order: Seq<usize>| is_ranking(ticks, descending, order) && r2 == take_spec(order, k);
    lemma_ranking_unique(ticks, descending, o1, o2);
}

} // verus!
