use vstd::prelude::*;

use crate::analysis::{group_names, parameter_names, valid_group, views};
use crate::event::{AnalysisError, Event};
use crate::names::{name_set, strictly_sorted};
use crate::ranking::{best_group, is_ranking, outcome_ticks, take_spec, ticks_spec, worst_group};
use crate::replay::{replay, replay_spec, Replay};
use crate::summary::{
    average_spec, average_ticks, found_ticks, found_ticks_spec, not_found_count, not_found_spec,
    participant_counts, participants_spec,
};

verus! {

/// Everything the experiment summary reports that involves no real numbers.
#[derive(Debug)]
pub struct Report {
    /// The replayed log: paired outcomes, depletions, reported duration.
    pub replay: Replay,
    /// The outcome ticks, in log order.
    pub ticks: Vec<u32>,
    /// The fastest outcomes, fastest first.
    pub best: Vec<usize>,
    /// The slowest outcomes, slowest first.
    pub worst: Vec<usize>,
    /// The parameters set in either group, ascending.
    pub parameters: Vec<String>,
    /// How many outcomes ran out of budget.
    pub not_found: usize,
    /// The ticks of the found outcomes, in log order.
    pub found: Vec<u32>,
    /// The mean tick over all outcomes.
    pub average: Result<u32, AnalysisError>,
    /// The mean tick over the found outcomes.
    pub average_found: Result<u32, AnalysisError>,
    /// The participant total and outcome count of the theoretical maximum.
    pub participants: Result<(u128, usize), AnalysisError>,
}

proof fn lemma_take_valid(ticks: Seq<u32>, descending: bool, k: usize, outcomes_len: int, group: Seq<usize>)
    requires
        ticks.len() == outcomes_len,
        exists|order: Seq<usize>| is_ranking(ticks, descending, order) && group == take_spec(order, k),
    ensures
        forall|i: int| 0 <= i < group.len() ==> #[trigger] group[i] < outcomes_len,
{
    let order = choose|order: Seq<usize>| is_ranking(ticks, descending, order) && group == take_spec(order, k);
    assert forall|i: int| 0 <= i < group.len() implies #[trigger] group[i] < outcomes_len by {
        assert(group[i] == order[i]);
    }
}

/// `r` is the analysis of `events` with groups of `best_count` and
/// `worst_count` outcomes.
pub open spec fn is_analysis(events: Seq<Event>, best_count: usize, worst_count: usize, r: Report) -> bool {
    &&& r.replay@ == replay_spec(events)
    &&& r.ticks@ == ticks_spec(r.replay@.outcomes)
    &&& exists|order: Seq<usize>| is_ranking(r.ticks@, false, order) && r.best@ == take_spec(order, best_count)
    &&& exists|order: Seq<usize>| is_ranking(r.ticks@, true, order) && r.worst@ == take_spec(order, worst_count)
    &&& strictly_sorted(r.parameters@)
    &&& name_set(r.parameters@) == group_names(r.replay@.outcomes, r.best@ + r.worst@)
    &&& r.not_found == not_found_spec(r.ticks@)
    &&& r.found@ == found_ticks_spec(r.replay@.outcomes, r.replay@.depleted)
    &&& r.average == average_spec(r.ticks@)
    &&& r.average_found == average_spec(r.found@)
    &&& r.participants == participants_spec(r.replay@.outcomes)
}

/// Runs the whole analysis of a log: replay, ranking into the `best_count`
/// fastest and `worst_count` slowest outcomes, the parameters they set, and the
/// counts and mean durations.
pub fn analyze(events: &Vec<Event>, best_count: usize, worst_count: usize) -> (r: Report)
    ensures
        is_analysis(events@, best_count, worst_count, r),
{
    let replayed = replay(events);
    let ticks = outcome_ticks(&replayed.outcomes);
    let best = best_group(&ticks, best_count);
    let worst = worst_group(&ticks, worst_count);
    proof {
        lemma_take_valid(ticks@, false, best_count, replayed.outcomes@.len() as int, best@);
        lemma_take_valid(ticks@, true, worst_count, replayed.outcomes@.len() as int, worst@);
        assert(valid_group(views(replayed.outcomes@), best@));
        assert(valid_group(views(replayed.outcomes@), worst@));
    }
    let parameters = parameter_names(&replayed.outcomes, &best, &worst);
    let not_found = not_found_count(&ticks);
    let found = found_ticks(&replayed.outcomes, &replayed.depleted);
    let average = average_ticks(&ticks);
    let average_found = average_ticks(&found);
    let participants = participant_counts(&replayed.outcomes);
    Report {
        replay: replayed,
        ticks,
        best,
        worst,
        parameters,
        not_found,
        found,
        average,
        average_found,
        participants,
    }
}

} // verus!
