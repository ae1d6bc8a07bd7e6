use stats::{
    average_ticks, best_group, outcome_ticks, replay, AnalysisError, Bot, Event, TweakValue,
    Tweaks,
};

fn single(v: f64) -> TweakValue {
    TweakValue::Single(v.to_bits())
}

fn tweaks(entries: &[(&str, TweakValue)]) -> Tweaks {
    Tweaks { entries: entries.iter().map(|(k, v)| (k.to_string(), *v)).collect() }
}

fn stop(iteration: u32, tick: u32, energies: &[f64]) -> Event {
    Event::StopConditionReached {
        iteration,
        tick,
        bots: energies
            .iter()
            .enumerate()
            .map(|(i, e)| Bot { id: i as u32 + 1, energy: e.to_bits() })
            .collect(),
    }
}

fn total_energy(bots: &[Bot]) -> f64 {
    bots.iter().map(|b| f64::from_bits(b.energy)).sum()
}

#[test]
fn end_to_end_two_outcomes() {
    let events = vec![
        Event::TweakedConstants { tweaks: tweaks(&[("a", single(1.0))]) },
        stop(1, 100, &[50.0]),
        Event::TweakedConstants { tweaks: tweaks(&[("a", single(2.0))]) },
        stop(2, 200, &[80.0]),
    ];
    let r = replay(&events);
    assert_eq!(r.outcomes.len(), 2);
    assert_eq!((r.outcomes[0].tick, r.outcomes[0].iteration), (100, 1));
    assert_eq!((r.outcomes[1].tick, r.outcomes[1].iteration), (200, 2));
    assert_eq!(r.outcomes[0].tweaks.entries, vec![("a".to_string(), single(1.0))]);
    assert_eq!(r.outcomes[1].tweaks.entries, vec![("a".to_string(), single(2.0))]);
    let energies: Vec<f64> = r.outcomes.iter().map(|o| total_energy(&o.bots)).collect();
    let mean = energies.iter().sum::<f64>() / energies.len() as f64;
    assert_eq!(mean, 65.0);
    let best = best_group(&outcome_ticks(&r.outcomes), 5);
    assert_eq!(best, vec![0, 1]);
    assert!(r.depleted.is_empty());
    assert_eq!(r.duration, None);
}

#[test]
fn empty_log_has_no_outcomes_and_no_mean() {
    let r = replay(&Vec::new());
    assert!(r.outcomes.is_empty());
    assert_eq!(average_ticks(&outcome_ticks(&r.outcomes)), Err(AnalysisError::EmptySample));
}

#[test]
fn log_without_outcome_events_has_no_mean() {
    let events = vec![
        Event::TweakedConstants { tweaks: tweaks(&[("a", single(1.0))]) },
        Event::BotKilled { id: 1, iteration: 1, tick: 5 },
        Event::AllDepleted,
        Event::ExperimentFinished { duration: 12.5f64.to_bits() },
    ];
    let r = replay(&events);
    assert!(r.outcomes.is_empty());
    assert_eq!(r.depleted, vec![0]);
    assert_eq!(average_ticks(&outcome_ticks(&r.outcomes)), Err(AnalysisError::EmptySample));
}

#[test]
fn configuration_is_replaced_not_merged() {
    let events = vec![
        Event::TweakedConstants { tweaks: tweaks(&[("a", single(1.0)), ("b", single(3.0))]) },
        Event::TweakedConstants { tweaks: tweaks(&[("c", single(4.0))]) },
        stop(7, 10, &[1.0]),
    ];
    let r = replay(&events);
    assert_eq!(r.outcomes[0].tweaks.entries, vec![("c".to_string(), single(4.0))]);
}

#[test]
fn outcome_before_any_configuration_has_empty_snapshot() {
    let r = replay(&vec![stop(1, 10, &[]), Event::TweakedConstants { tweaks: tweaks(&[("a", single(1.0))]) }]);
    assert!(r.outcomes[0].tweaks.entries.is_empty());
    assert_eq!(r.current.entries, vec![("a".to_string(), single(1.0))]);
}

#[test]
fn depletion_takes_last_outcome_iteration() {
    let events = vec![
        Event::AllDepleted,
        stop(3, 10, &[1.0]),
        Event::AllDepleted,
        stop(8, 20, &[1.0]),
        Event::BotKilled { id: 1, iteration: 9, tick: 4 },
        Event::AllDepleted,
    ];
    let r = replay(&events);
    assert_eq!(r.depleted, vec![0, 3, 8]);
}

#[test]
fn last_reported_duration_wins() {
    let events = vec![
        Event::ExperimentFinished { duration: 1.0f64.to_bits() },
        Event::ExperimentFinished { duration: 2.5f64.to_bits() },
    ];
    assert_eq!(replay(&events).duration, Some(2.5f64.to_bits()));
}

#[test]
fn replaying_twice_gives_the_same_result() {
    let events = vec![
        Event::TweakedConstants { tweaks: tweaks(&[("a", TweakValue::Range(3.0f64.to_bits(), 9.0f64.to_bits()))]) },
        stop(1, 30, &[5.0, 6.0]),
        Event::AllDepleted,
        stop(2, 10, &[7.0]),
    ];
    let a = replay(&events);
    let b = replay(&events);
    assert_eq!(format!("{:?}", a), format!("{:?}", b));
    let ta = outcome_ticks(&a.outcomes);
    let tb = outcome_ticks(&b.outcomes);
    assert_eq!(best_group(&ta, 5), best_group(&tb, 5));
}

#[test]
fn outcome_copy_is_equal() {
    let r = replay(&vec![
        Event::TweakedConstants { tweaks: tweaks(&[("x", single(0.5))]) },
        stop(4, 44, &[2.0, 3.0]),
    ]);
    let c = r.outcomes[0].copy();
    assert_eq!(format!("{:?}", c), format!("{:?}", r.outcomes[0]));
    assert_eq!(c.bots.len(), 2);
    assert_eq!(total_energy(&c.bots), 5.0);
}
