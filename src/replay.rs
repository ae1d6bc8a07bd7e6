use vstd::prelude::*;

use crate::event::{Bot, Event, Tweaks, TweakValue};

verus! {

/// An outcome together with the configuration in effect when it occurred.
#[derive(Debug)]
pub struct PairedOutcome {
    pub tick: u32,
    pub iteration: u32,
    pub tweaks: Tweaks,
    pub bots: Vec<Bot>,
}

/// The mathematical content of a [`PairedOutcome`].
pub struct OutcomeView {
    pub tick: u32,
    pub iteration: u32,
    pub tweaks: Seq<(String, TweakValue)>,
    pub bots: Seq<Bot>,
}

impl View for PairedOutcome {
    type V = OutcomeView;

    open spec fn view(&self) -> OutcomeView {
        OutcomeView {
            tick: self.tick,
            iteration: self.iteration,
            tweaks: self.tweaks@,
            bots: self.bots@,
        }
    }
}

/// The result of replaying a log, and the running state of the replay.
#[derive(Debug)]
pub struct Replay {
    /// The configuration in effect at the current log position.
    pub current: Tweaks,
    /// One entry per outcome event, in log order.
    pub outcomes: Vec<PairedOutcome>,
    /// For each depletion event, the iteration of the last outcome before it (0 if none).
    pub depleted: Vec<u32>,
    /// The last reported experiment duration, if any.
    pub duration: Option<u64>,
}

pub struct ReplayView {
    pub current: Seq<(String, TweakValue)>,
    pub outcomes: Seq<OutcomeView>,
    pub depleted: Seq<u32>,
    pub duration: Option<u64>,
}

impl View for Replay {
    type V = ReplayView;

    open spec fn view(&self) -> ReplayView {
        ReplayView {
            current: self.current@,
            outcomes: self.outcomes@.map_values(|o: PairedOutcome| o@),
            depleted: self.depleted@,
            duration: self.duration,
        }
    }
}

/// The iteration of the last outcome, or 0 when there is none.
pub open spec fn last_iteration(outcomes: Seq<OutcomeView>) -> u32 {
    if outcomes.len() == 0 {
        0
    } else {
        outcomes.last().iteration
    }
}

pub open spec fn initial_replay() -> ReplayView {
    ReplayView {
        current: Seq::empty(),
        outcomes: Seq::empty(),
        depleted: Seq::empty(),
        duration: None,
    }
}

/// The effect of one log entry on the replay state.
pub open spec fn step_spec(s: ReplayView, e: Event) -> ReplayView {
    match e {
        Event::TweakedConstants { tweaks } => ReplayView { current: tweaks@, ..s },
        Event::StopConditionReached { iteration, tick, bots } => ReplayView {
            outcomes: s.outcomes.push(
                OutcomeView { tick, iteration, tweaks: s.current, bots: bots@ },
            ),
            ..s
        },
        Event::ExperimentFinished { duration } => ReplayView { duration: Some(duration), ..s },
        Event::AllDepleted => ReplayView {
            depleted: s.depleted.push(last_iteration(s.outcomes)),
            ..s
        },
        Event::BotKilled { .. } => s,
    }
}

/// The state after replaying `events` from the initial state.
pub open spec fn replay_spec(events: Seq<Event>) -> ReplayView
    decreases events.len(),
{
    if events.len() == 0 {
        initial_replay()
    } else {
        step_spec(replay_spec(events.drop_last()), events.last())
    }
}

fn copy_bots(bots: &Vec<Bot>) -> (r: Vec<Bot>)
    ensures
        r@ == bots@,
{
    let mut r: Vec<Bot> = Vec::new();
    let mut i: usize = 0;
    while i < bots.len()
        invariant
            i <= bots.len(),
            r@ == bots@.subrange(0, i as int),
        decreases bots.len() - i,
    {
        r.push(bots[i]);
        proof {
            assert(r@ =~= bots@.subrange(0, i + 1));
        }
        i += 1;
    }
    proof {
        assert(r@ =~= bots@);
    }
    r
}

impl PairedOutcome {
    /// An independent copy of this outcome.
    pub fn copy(&self) -> (r: PairedOutcome)
        ensures
            r@ == self@,
    {
        PairedOutcome {
            tick: self.tick,
            iteration: self.iteration,
            tweaks: self.tweaks.copy(),
            bots: copy_bots(&self.bots),
        }
    }
}

impl Replay {
    /// The state before any log entry: no configuration, no outcomes.
    pub fn new() -> (r: Replay)
        ensures
            r@ == initial_replay(),
    {
        let r = Replay {
            current: Tweaks::new(),
            outcomes: Vec::new(),
            depleted: Vec::new(),
            duration: None,
        };
        proof {
            assert(r@.outcomes =~= Seq::<OutcomeView>::empty());
        }
        r
    }

    /// Applies one log entry.
    pub fn step(self, event: &Event) -> (r: Replay)
        ensures
            r@ == step_spec(self@, *event),
    {
        let Replay { current, mut outcomes, mut depleted, duration } = self;
        match event {
            Event::TweakedConstants { tweaks } => {
                Replay { current: tweaks.copy(), outcomes, depleted, duration }
            },
            Event::StopConditionReached { iteration, tick, bots } => {
                let ghost before = outcomes@;
                let outcome = PairedOutcome {
                    tick: *tick,
                    iteration: *iteration,
                    tweaks: current.copy(),
                    bots: copy_bots(bots),
                };
                outcomes.push(outcome);
                proof {
                    assert(outcomes@.map_values(|o: PairedOutcome| o@) =~= before.map_values(
                        |o: PairedOutcome| o@,
                    ).push(outcome@));
                }
                Replay { current, outcomes, depleted, duration }
            },
            Event::ExperimentFinished { duration: d } => {
                Replay { current, outcomes, depleted, duration: Some(*d) }
            },
            Event::AllDepleted => {
                let n = outcomes.len();
                let iteration: u32 = if n == 0 {
                    0
                } else {
                    outcomes[n - 1].iteration
                };
                depleted.push(iteration);
                Replay { current, outcomes, depleted, duration }
            },
            Event::BotKilled { .. } => Replay { current, outcomes, depleted, duration },
        }
    }
}

/// Replays a whole log in one forward pass.
pub fn replay(events: &Vec<Event>) -> (r: Replay)
    ensures
        r@ == replay_spec(events@),
{
    let mut state = Replay::new();
    let mut i: usize = 0;
    while i < events.len()
        invariant
            i <= events.len(),
            state@ == replay_spec(events@.subrange(0, i as int)),
        decreases events.len() - i,
    {
        proof {
            assert(events@.subrange(0, i + 1).drop_last() =~= events@.subrange(0, i as int));
        }
        state = state.step(&events[i]);
        i += 1;
    }
    proof {
        assert(events@.subrange(0, events@.len() as int) =~= events@);
    }
    state
}

} // verus!
