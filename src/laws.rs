use vstd::prelude::*;

use crate::event::{AnalysisError, Event};
use crate::names::{lemma_sorted_names_unique, texts};
use crate::ranking::{lemma_groups_deterministic, ticks_spec};
use crate::report::{is_analysis, Report};
use crate::replay::{replay_spec, step_spec, OutcomeView};
use crate::summary::average_spec;

verus! {

/// A log without outcome events pairs no outcomes, and the mean duration over
/// its outcomes is refused as an empty sample.
pub proof fn lemma_no_outcome_events_no_statistics(events: Seq<Event>)
    requires
        forall|i: int| 0 <= i < events.len() ==> !(#[trigger] events[i] is StopConditionReached),
    ensures
        replay_spec(events).outcomes.len() == 0,
        average_spec(ticks_spec(replay_spec(events).outcomes)) == Err::<u32, AnalysisError>(AnalysisError::EmptySample),
    decreases events.len(),
{
    if events.len() > 0 {
        let prefix = events.drop_last();
        assert forall|i: int| 0 <= i < prefix.len() implies !(#[trigger] prefix[i] is StopConditionReached) by {
            assert(prefix[i] == events[i]);
        }
        lemma_no_outcome_events_no_statistics(prefix);
        assert(!(events[events.len() - 1] is StopConditionReached));
    }
}

/// The outcomes paired from a prefix of a log come first, unchanged, among
/// those paired from a longer prefix.
pub proof fn lemma_outcomes_extend(events: Seq<Event>, p: int, q: int)
    requires
        0 <= p <= q <= events.len(),
    ensures
        replay_spec(events.subrange(0, p)).outcomes.len() <= replay_spec(events.subrange(0, q)).outcomes.len(),
        forall|i: int| 0 <= i < replay_spec(events.subrange(0, p)).outcomes.len() ==>
            #[trigger] replay_spec(events.subrange(0, q)).outcomes[i] == replay_spec(events.subrange(0, p)).outcomes[i],
    decreases q - p,
{
    if p < q {
        lemma_outcomes_extend(events, p, q - 1);
        assert(events.subrange(0, q).drop_last() =~= events.subrange(0, q - 1));
    }
}

/// The configuration in effect after position `j` is the one set at `j`, as long
/// as no later entry before `k` replaces it.
proof fn lemma_current_kept(events: Seq<Event>, j: int, k: int)
    requires
        0 <= j < k <= events.len(),
        events[j] is TweakedConstants,
        forall|m: int| j < m < k ==> !(#[trigger] events[m] is TweakedConstants),
    ensures
        replay_spec(events.subrange(0, k)).current == events[j]->tweaks@,
    decreases k - j,
{
    assert(events.subrange(0, k).drop_last() =~= events.subrange(0, k - 1));
    if k > j + 1 {
        lemma_current_kept(events, j, k - 1);
        assert(!(events[k - 1] is TweakedConstants));
    }
}

/// Each outcome carries exactly the configuration of the latest configuration
/// change before it: the snapshot replaces the earlier ones, it is not merged
/// with them.
pub proof fn lemma_outcome_takes_latest_configuration(events: Seq<Event>, j: int, k: int)
    requires
        0 <= j < k < events.len(),
        events[j] is TweakedConstants,
        events[k] is StopConditionReached,
        forall|m: int| j < m < k ==> !(#[trigger] events[m] is TweakedConstants),
    ensures
        ({
            let index = replay_spec(events.subrange(0, k)).outcomes.len();
            &&& index < replay_spec(events).outcomes.len()
            &&& replay_spec(events).outcomes[index as int].tweaks == events[j]->tweaks@
            &&& replay_spec(events).outcomes[index as int].tick == events[k]->StopConditionReached_tick
            &&& replay_spec(events).outcomes[index as int].iteration == events[k]->StopConditionReached_iteration
        }),
{
    lemma_current_kept(events, j, k);
    assert(events.subrange(0, k + 1).drop_last() =~= events.subrange(0, k));
    lemma_outcomes_extend(events, k + 1, events.len() as int);
    assert(events.subrange(0, events.len() as int) =~= events);
    let index = replay_spec(events.subrange(0, k)).outcomes.len();
    assert(replay_spec(events.subrange(0, k + 1)).outcomes[index as int].tweaks == events[j]->tweaks@);
}

/// The analysis is repeatable: two runs over the same log, with the same group
/// sizes, give the same outcomes, groups, parameter list, counts and means.
pub proof fn lemma_analysis_repeatable(events: Seq<Event>, best_count: usize, worst_count: usize, r1: Report, r2: Report)
    requires
        is_analysis(events, best_count, worst_count, r1),
        is_analysis(events, best_count, worst_count, r2),
    ensures
        r1.replay@ == r2.replay@,
        r1.ticks@ == r2.ticks@,
        r1.best@ == r2.best@,
        r1.worst@ == r2.worst@,
        texts(r1.parameters@) == texts(r2.parameters@),
        r1.not_found == r2.not_found,
        r1.found@ == r2.found@,
        r1.average == r2.average,
        r1.average_found == r2.average_found,
        r1.participants == r2.participants,
{
    lemma_groups_deterministic(r1.ticks@, false, best_count, r1.best@, r2.best@);
    lemma_groups_deterministic(r1.ticks@, true, worst_count, r1.worst@, r2.worst@);
    lemma_sorted_names_unique(r1.parameters@, r2.parameters@);
}

} // verus!
