use vstd::prelude::*;

use crate::event::AnalysisError;
use crate::replay::{OutcomeView, PairedOutcome};

verus! {

/// The tick recorded for an iteration whose search ran out of budget.
pub const NOT_FOUND_TICK: u32 = 1000000;

/// Ticks per minute of simulated time.
pub const TICKS_PER_MINUTE: u32 = 3600;

/// The sum of the ticks.
pub open spec fn sum_ticks(ticks: Seq<u32>) -> int
    decreases ticks.len(),
{
    if ticks.len() == 0 {
        0
    } else {
        sum_ticks(ticks.drop_last()) + ticks.last()
    }
}

/// The mean tick, rounded down; no mean of an empty sample.
pub open spec fn average_spec(ticks: Seq<u32>) -> Result<u32, AnalysisError> {
    if ticks.len() == 0 {
        Err(AnalysisError::EmptySample)
    } else {
        Ok((sum_ticks(ticks) / ticks.len() as int) as u32)
    }
}

/// An outcome that neither exhausted its budget nor belongs to a depleted iteration.
pub open spec fn is_found(o: OutcomeView, depleted: Seq<u32>) -> bool {
    o.tick != NOT_FOUND_TICK && !depleted.contains(o.iteration)
}

/// The ticks of the found outcomes, in log order.
pub open spec fn found_ticks_spec(outcomes: Seq<OutcomeView>, depleted: Seq<u32>) -> Seq<u32>
    decreases outcomes.len(),
{
    if outcomes.len() == 0 {
        Seq::empty()
    } else {
        let prev = found_ticks_spec(outcomes.drop_last(), depleted);
        if is_found(outcomes.last(), depleted) {
            prev.push(outcomes.last().tick)
        } else {
            prev
        }
    }
}

/// The number of ticks equal to the not-found sentinel.
pub open spec fn not_found_spec(ticks: Seq<u32>) -> nat
    decreases ticks.len(),
{
    if ticks.len() == 0 {
        0
    } else {
        not_found_spec(ticks.drop_last()) + if ticks.last() == NOT_FOUND_TICK {
            1nat
        } else {
            0nat
        }
    }
}

proof fn lemma_sum_bound(ticks: Seq<u32>)
    ensures
        0 <= sum_ticks(ticks) <= ticks.len() * 0xffff_ffff,
    decreases ticks.len(),
{
    if ticks.len() > 0 {
        lemma_sum_bound(ticks.drop_last());
    }
}

/// The mean of the ticks, rounded down.
pub fn average_ticks(ticks: &Vec<u32>) -> (r: Result<u32, AnalysisError>)
    ensures
        r == average_spec(ticks@),
{
    if ticks.len() == 0 {
        return Err(AnalysisError::EmptySample);
    }
    let mut sum: u128 = 0;
    let mut i: usize = 0;
    while i < ticks.len()
        invariant
            i <= ticks.len(),
            sum == sum_ticks(ticks@.subrange(0, i as int)),
        decreases ticks.len() - i,
    {
        proof {
            assert(ticks@.subrange(0, i + 1).drop_last() =~= ticks@.subrange(0, i as int));
            lemma_sum_bound(ticks@.subrange(0, i as int));
        }
        sum = sum + ticks[i] as u128;
        i += 1;
    }
    proof {
        assert(ticks@.subrange(0, ticks@.len() as int) =~= ticks@);
        lemma_sum_bound(ticks@);
        let n = ticks@.len() as int;
        let s = sum as int;
        assert(s / n <= 0xffff_ffff) by (nonlinear_arith)
            requires
                0 <= s <= n * 0xffff_ffff,
                n > 0,
        {
            vstd::arithmetic::div_mod::lemma_div_is_ordered(s, n * 0xffff_ffff, n);
            vstd::arithmetic::div_mod::lemma_div_multiples_vanish(0xffff_ffff, n);
        }
    }
    Ok((sum / ticks.len() as u128) as u32)
}

/// How many outcomes ran out of budget.
pub fn not_found_count(ticks: &Vec<u32>) -> (r: usize)
    ensures
        r == not_found_spec(ticks@),
{
    let mut count: usize = 0;
    let mut i: usize = 0;
    while i < ticks.len()
        invariant
            i <= ticks.len(),
            count == not_found_spec(ticks@.subrange(0, i as int)),
            count <= i,
        decreases ticks.len() - i,
    {
        proof {
            assert(ticks@.subrange(0, i + 1).drop_last() =~= ticks@.subrange(0, i as int));
        }
        if ticks[i] == NOT_FOUND_TICK {
            count += 1;
        }
        i += 1;
    }
    proof {
        assert(ticks@.subrange(0, ticks@.len() as int) =~= ticks@);
    }
    count
}

fn contains_iteration(depleted: &Vec<u32>, iteration: u32) -> (r: bool)
    ensures
        r == depleted@.contains(iteration),
{
    let mut i: usize = 0;
    while i < depleted.len()
        invariant
            i <= depleted.len(),
            forall|k: int| 0 <= k < i ==> depleted@[k] != iteration,
        decreases depleted.len() - i,
    {
        if depleted[i] == iteration {
            return true;
        }
        i += 1;
    }
    false
}

/// The ticks of the outcomes that found the target in an iteration that was not
/// depleted, in log order.
pub fn found_ticks(outcomes: &Vec<PairedOutcome>, depleted: &Vec<u32>) -> (r: Vec<u32>)
    ensures
        r@ == found_ticks_spec(outcomes@.map_values(|o: PairedOutcome| o@), depleted@),
{
    let ghost views = outcomes@.map_values(|o: PairedOutcome| o@);
    let mut r: Vec<u32> = Vec::new();
    let mut i: usize = 0;
    while i < outcomes.len()
        invariant
            i <= outcomes.len(),
            views == outcomes@.map_values(|o: PairedOutcome| o@),
            r@ == found_ticks_spec(views.subrange(0, i as int), depleted@),
        decreases outcomes.len() - i,
    {
        proof {
            assert(views.subrange(0, i + 1).drop_last() =~= views.subrange(0, i as int));
        }
        let o = &outcomes[i];
        if o.tick != NOT_FOUND_TICK && !contains_iteration(depleted, o.iteration) {
            r.push(o.tick);
        }
        i += 1;
    }
    proof {
        assert(views.subrange(0, views.len() as int) =~= views);
    }
    r
}

/// A tick count as whole minutes and the seconds beyond them.
pub fn duration_parts(tick: u32) -> (r: (u32, u32))
    ensures
        r.0 == tick / TICKS_PER_MINUTE,
        r.1 == tick % TICKS_PER_MINUTE / 60,
{
    (tick / TICKS_PER_MINUTE, tick % TICKS_PER_MINUTE / 60)
}

/// The number of participants over all outcomes.
pub open spec fn total_bots(outcomes: Seq<OutcomeView>) -> int
    decreases outcomes.len(),
{
    if outcomes.len() == 0 {
        0
    } else {
        total_bots(outcomes.drop_last()) + outcomes.last().bots.len()
    }
}

/// The participant total and the outcome count behind the theoretical maximum
/// (the per-participant maximum times participants per outcome); refused when
/// there is no outcome or no participant.
pub open spec fn participants_spec(outcomes: Seq<OutcomeView>) -> Result<(u128, usize), AnalysisError> {
    if outcomes.len() == 0 {
        Err(AnalysisError::EmptySample)
    } else if total_bots(outcomes) == 0 {
        Err(AnalysisError::MissingTheoreticalMax)
    } else {
        Ok((total_bots(outcomes) as u128, outcomes.len() as usize))
    }
}

/// How many participants the outcomes hold in all, and how many outcomes
/// there are: what the theoretical maximum of the energy statistics is built
/// from.
pub fn participant_counts(outcomes: &Vec<PairedOutcome>) -> (r: Result<(u128, usize), AnalysisError>)
    ensures
        r == participants_spec(outcomes@.map_values(|o: PairedOutcome| o@)),
{
    let ghost views = outcomes@.map_values(|o: PairedOutcome| o@);
    if outcomes.len() == 0 {
        return Err(AnalysisError::EmptySample);
    }
    let mut total: u128 = 0;
    let mut i: usize = 0;
    while i < outcomes.len()
        invariant
            i <= outcomes.len(),
            views == outcomes@.map_values(|o: PairedOutcome| o@),
            total == total_bots(views.subrange(0, i as int)),
            total <= i * 0xffff_ffff_ffff_ffff,
        decreases outcomes.len() - i,
    {
        let n = outcomes[i].bots.len();
        proof {
            assert(views.subrange(0, i + 1).drop_last() =~= views.subrange(0, i as int));
            let t = total as int;
            let k = i as int;
            assert(t + n <= (k + 1) * 0xffff_ffff_ffff_ffff) by (nonlinear_arith)
                requires
                    t <= k * 0xffff_ffff_ffff_ffff,
                    n <= 0xffff_ffff_ffff_ffff,
            ;
            assert((k + 1) * 0xffff_ffff_ffff_ffff <= 0x1_0000_0000_0000_0000 * 0xffff_ffff_ffff_ffff) by (nonlinear_arith)
                requires
                    k + 1 <= 0x1_0000_0000_0000_0000,
            ;
        }
        total = total + n as u128;
        i += 1;
    }
    proof {
        assert(views.subrange(0, views.len() as int) =~= views);
    }
    if total == 0 {
        return Err(AnalysisError::MissingTheoreticalMax);
    }
    Ok((total, outcomes.len()))
}

} // verus!
