use vstd::prelude::*;

use crate::event::{lookup, Tweaks, TweakValue};
use crate::names::{insert_name, name_set, strictly_sorted};
use crate::replay::{OutcomeView, PairedOutcome};

verus! {

/// Whether the snapshot has an entry named `n`.
pub open spec fn has_name(tweaks: Seq<(String, TweakValue)>, n: Seq<char>) -> bool {
    exists|e: int| 0 <= e < tweaks.len() && (#[trigger] tweaks[e]).0@ == n
}

/// Whether some outcome of `group` (indices into `outcomes`) names `n`.
pub open spec fn named_in(outcomes: Seq<OutcomeView>, group: Seq<usize>, n: Seq<char>) -> bool {
    exists|i: int| 0 <= i < group.len() && has_name(outcomes[#[trigger] group[i] as int].tweaks, n)
}

/// The names set by a snapshot.
pub open spec fn tweak_names(tweaks: Seq<(String, TweakValue)>) -> Set<Seq<char>> {
    Set::new(|n: Seq<char>| has_name(tweaks, n))
}

/// The names set by some outcome of `group`.
pub open spec fn group_names(outcomes: Seq<OutcomeView>, group: Seq<usize>) -> Set<Seq<char>> {
    Set::new(|n: Seq<char>| named_in(outcomes, group, n))
}

/// All indices of `group` point into `outcomes`.
pub open spec fn valid_group(outcomes: Seq<OutcomeView>, group: Seq<usize>) -> bool {
    forall|i: int| 0 <= i < group.len() ==> #[trigger] group[i] < outcomes.len()
}

/// For each outcome of `group` that sets `key`, in group order, the
/// representative scalar of its value.
pub open spec fn group_values_spec(outcomes: Seq<OutcomeView>, group: Seq<usize>, key: Seq<char>) -> Seq<u64>
    decreases group.len(),
{
    if group.len() == 0 {
        Seq::empty()
    } else {
        let prev = group_values_spec(outcomes, group.drop_last(), key);
        match lookup(outcomes[group.last() as int].tweaks, key) {
            Some(v) => prev.push(v.representative_spec()),
            None => prev,
        }
    }
}

pub open spec fn views(outcomes: Seq<PairedOutcome>) -> Seq<OutcomeView> {
    outcomes.map_values(|o: PairedOutcome| o@)
}

fn add_tweak_names(names: &mut Vec<String>, tweaks: &Tweaks)
    requires
        strictly_sorted(old(names)@),
    ensures
        strictly_sorted(final(names)@),
        name_set(final(names)@) == name_set(old(names)@) + tweak_names(tweaks@),
{
    let ghost start = names@;
    let mut i: usize = 0;
    proof {
        assert(tweak_names(tweaks@.subrange(0, 0)) =~= Set::empty());
        assert(name_set(start) + Set::empty() =~= name_set(start));
    }
    while i < tweaks.entries.len()
        invariant
            i <= tweaks@.len(),
            strictly_sorted(names@),
            name_set(names@) == name_set(start) + tweak_names(tweaks@.subrange(0, i as int)),
        decreases tweaks@.len() - i,
    {
        let ghost mid = names@;
        insert_name(names, &tweaks.entries[i].0);
        proof {
            let pre = tweaks@.subrange(0, i as int);
            let post = tweaks@.subrange(0, i + 1);
            assert forall|n: Seq<char>| has_name(post, n) <==> (has_name(pre, n) || n == tweaks@[i as int].0@) by {
                if has_name(post, n) {
                    let e = choose|e: int| 0 <= e < post.len() && (#[trigger] post[e]).0@ == n;
                    if e < i {
                        assert(pre[e] == post[e]);
                    }
                }
                if has_name(pre, n) {
                    let e = choose|e: int| 0 <= e < pre.len() && (#[trigger] pre[e]).0@ == n;
                    assert(post[e] == pre[e]);
                }
                if n == tweaks@[i as int].0@ {
                    assert(post[i as int] == tweaks@[i as int]);
                }
            }
            assert(tweak_names(post) =~= tweak_names(pre).insert(tweaks@[i as int].0@));
            assert(name_set(names@) =~= name_set(start) + tweak_names(post));
        }
        i += 1;
    }
    proof {
        assert(tweaks@.subrange(0, tweaks@.len() as int) =~= tweaks@);
    }
}

fn add_group_names(names: &mut Vec<String>, outcomes: &Vec<PairedOutcome>, group: &Vec<usize>)
    requires
        strictly_sorted(old(names)@),
        valid_group(views(outcomes@), group@),
    ensures
        strictly_sorted(final(names)@),
        name_set(final(names)@) == name_set(old(names)@) + group_names(views(outcomes@), group@),
{
    let ghost start = names@;
    let ghost outs = views(outcomes@);
    let mut i: usize = 0;
    proof {
        assert(group_names(outs, group@.subrange(0, 0)) =~= Set::empty());
        assert(name_set(start) + Set::empty() =~= name_set(start));
    }
    while i < group.len()
        invariant
            i <= group@.len(),
            outs == views(outcomes@),
            valid_group(outs, group@),
            strictly_sorted(names@),
            name_set(names@) == name_set(start) + group_names(outs, group@.subrange(0, i as int)),
        decreases group@.len() - i,
    {
        let g = group[i];
        assert(g < outs.len());
        let ghost mid = names@;
        add_tweak_names(names, &outcomes[g].tweaks);
        proof {
            let pre = group@.subrange(0, i as int);
            let post = group@.subrange(0, i + 1);
            assert(outcomes@[g as int].tweaks@ == outs[g as int].tweaks);
            assert forall|n: Seq<char>| named_in(outs, post, n) <==> (named_in(outs, pre, n) || has_name(outs[g as int].tweaks, n)) by {
                if named_in(outs, post, n) {
                    let k = choose|k: int| 0 <= k < post.len() && has_name(outs[#[trigger] post[k] as int].tweaks, n);
                    if k < i {
                        assert(pre[k] == post[k]);
                    }
                }
                if named_in(outs, pre, n) {
                    let k = choose|k: int| 0 <= k < pre.len() && has_name(outs[#[trigger] pre[k] as int].tweaks, n);
                    assert(post[k] == pre[k]);
                }
                if has_name(outs[g as int].tweaks, n) {
                    assert(post[i as int] == g);
                }
            }
            assert(group_names(outs, post) =~= group_names(outs, pre) + tweak_names(outs[g as int].tweaks));
            assert(name_set(names@) =~= name_set(start) + group_names(outs, post));
        }
        i += 1;
    }
    proof {
        assert(group@.subrange(0, group@.len() as int) =~= group@);
    }
}

/// Every parameter name set by an outcome of either group, each once, in
/// ascending order.
pub fn parameter_names(outcomes: &Vec<PairedOutcome>, best: &Vec<usize>, worst: &Vec<usize>) -> (r: Vec<String>)
    requires
        valid_group(views(outcomes@), best@),
        valid_group(views(outcomes@), worst@),
    ensures
        strictly_sorted(r@),
        name_set(r@) == group_names(views(outcomes@), best@ + worst@),
{
    let mut names: Vec<String> = Vec::new();
    proof {
        assert(name_set(names@) =~= Set::empty());
    }
    add_group_names(&mut names, outcomes, best);
    add_group_names(&mut names, outcomes, worst);
    proof {
        let outs = views(outcomes@);
        let both = best@ + worst@;
        assert forall|n: Seq<char>| named_in(outs, both, n) <==> (named_in(outs, best@, n) || named_in(outs, worst@, n)) by {
            if named_in(outs, both, n) {
                let k = choose|k: int| 0 <= k < both.len() && has_name(outs[#[trigger] both[k] as int].tweaks, n);
                if k < best@.len() {
                    assert(best@[k] == both[k]);
                } else {
                    assert(worst@[k - best@.len()] == both[k]);
                }
            }
            if named_in(outs, best@, n) {
                let k = choose|k: int| 0 <= k < best@.len() && has_name(outs[#[trigger] best@[k] as int].tweaks, n);
                assert(both[k] == best@[k]);
            }
            if named_in(outs, worst@, n) {
                let k = choose|k: int| 0 <= k < worst@.len() && has_name(outs[#[trigger] worst@[k] as int].tweaks, n);
                assert(both[k + best@.len()] == worst@[k]);
            }
        }
        assert(name_set(names@) =~= group_names(outs, both));
    }
    names
}

/// The representative scalars of `key` over the outcomes of `group`, in group
/// order; outcomes that do not set `key` are skipped.
pub fn group_values(outcomes: &Vec<PairedOutcome>, group: &Vec<usize>, key: &String) -> (r: Vec<u64>)
    requires
        valid_group(views(outcomes@), group@),
    ensures
        r@ == group_values_spec(views(outcomes@), group@, key@),
{
    let ghost outs = views(outcomes@);
    let mut r: Vec<u64> = Vec::new();
    let mut i: usize = 0;
    while i < group.len()
        invariant
            i <= group@.len(),
            outs == views(outcomes@),
            valid_group(outs, group@),
            r@ == group_values_spec(outs, group@.subrange(0, i as int), key@),
        decreases group@.len() - i,
    {
        proof {
            assert(group@.subrange(0, i + 1).drop_last() =~= group@.subrange(0, i as int));
        }
        let g = group[i];
        assert(g < outs.len());
        assert(outcomes@[g as int].tweaks@ == outs[g as int].tweaks);
        match outcomes[g].tweaks.get(key) {
            Some(v) => r.push(v.representative()),
            None => {},
        }
        i += 1;
    }
    proof {
        assert(group@.subrange(0, group@.len() as int) =~= group@);
    }
    r
}

/// The value of `key` in each outcome of `group`, in group order.
pub fn tweak_cells(outcomes: &Vec<PairedOutcome>, group: &Vec<usize>, key: &String) -> (r: Vec<Option<TweakValue>>)
    requires
        valid_group(views(outcomes@), group@),
    ensures
        r@.len() == group@.len(),
        forall|i: int| 0 <= i < group@.len() ==> #[trigger] r@[i] == lookup(views(outcomes@)[group@[i] as int].tweaks, key@),
{
    let ghost outs = views(outcomes@);
    let mut r: Vec<Option<TweakValue>> = Vec::new();
    let mut i: usize = 0;
    while i < group.len()
        invariant
            i <= group@.len(),
            outs == views(outcomes@),
            valid_group(outs, group@),
            r@.len() == i,
            forall|k: int| 0 <= k < i ==> #[trigger] r@[k] == lookup(outs[group@[k] as int].tweaks, key@),
        decreases group@.len() - i,
    {
        let g = group[i];
        assert(g < outs.len());
        assert(outcomes@[g as int].tweaks@ == outs[g as int].tweaks);
        r.push(outcomes[g].tweaks.get(key));
        i += 1;
    }
    r
}

} // verus!
