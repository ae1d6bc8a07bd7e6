use stats::{
    average_ticks, duration_parts, found_ticks, not_found_count, outcome_ticks,
    analyze, participant_counts, replay, AnalysisError, Bot, Event, NOT_FOUND_TICK,
};

fn stop(iteration: u32, tick: u32) -> Event {
    Event::StopConditionReached { iteration, tick, bots: Vec::new() }
}

#[test]
fn average_of_ticks_rounds_down() {
    assert_eq!(average_ticks(&vec![100, 200]), Ok(150));
    assert_eq!(average_ticks(&vec![1, 2]), Ok(1));
    assert_eq!(average_ticks(&vec![u32::MAX, u32::MAX]), Ok(u32::MAX));
    assert_eq!(average_ticks(&Vec::new()), Err(AnalysisError::EmptySample));
}

#[test]
fn counts_and_found_durations() {
    let events = vec![
        stop(1, 100),
        stop(2, NOT_FOUND_TICK),
        stop(3, 300),
        Event::AllDepleted,
        stop(4, 500),
    ];
    let r = replay(&events);
    let ticks = outcome_ticks(&r.outcomes);
    assert_eq!(ticks, vec![100, NOT_FOUND_TICK, 300, 500]);
    assert_eq!(not_found_count(&ticks), 1);
    assert_eq!(r.depleted, vec![3]);
    let found = found_ticks(&r.outcomes, &r.depleted);
    assert_eq!(found, vec![100, 500]);
    assert_eq!(average_ticks(&found), Ok(300));
    assert_eq!(average_ticks(&ticks), Ok(250225));
}

#[test]
fn no_found_outcomes_has_no_found_mean() {
    let r = replay(&vec![stop(1, NOT_FOUND_TICK)]);
    let found = found_ticks(&r.outcomes, &r.depleted);
    assert!(found.is_empty());
    assert_eq!(average_ticks(&found), Err(AnalysisError::EmptySample));
}

#[test]
fn durations_split_into_minutes_and_seconds() {
    assert_eq!(duration_parts(7325), (2, 2));
    assert_eq!(duration_parts(59), (0, 0));
    assert_eq!(duration_parts(3600), (1, 0));
    assert_eq!(duration_parts(NOT_FOUND_TICK), (277, 46));
}

#[test]
fn participant_totals() {
    let bots = |n: u32| (0..n).map(|id| Bot { id, energy: 0 }).collect::<Vec<_>>();
    let r = replay(&vec![
        Event::StopConditionReached { iteration: 1, tick: 5, bots: bots(3) },
        Event::StopConditionReached { iteration: 2, tick: 6, bots: bots(1) },
    ]);
    assert_eq!(participant_counts(&r.outcomes), Ok((4, 2)));
    assert_eq!(participant_counts(&Vec::new()), Err(AnalysisError::EmptySample));
    let r = replay(&vec![stop(1, 5)]);
    assert_eq!(participant_counts(&r.outcomes), Err(AnalysisError::MissingTheoreticalMax));
}

#[test]
fn whole_analysis_of_a_log() {
    let snapshot = |v: f64| Event::TweakedConstants {
        tweaks: stats::Tweaks { entries: vec![("k".to_string(), stats::TweakValue::Single(v.to_bits()))] },
    };
    let events = vec![
        snapshot(1.0),
        Event::StopConditionReached { iteration: 1, tick: 300, bots: vec![Bot { id: 1, energy: 0 }] },
        snapshot(2.0),
        Event::StopConditionReached { iteration: 2, tick: NOT_FOUND_TICK, bots: vec![Bot { id: 1, energy: 0 }] },
        Event::AllDepleted,
        Event::StopConditionReached { iteration: 3, tick: 100, bots: vec![Bot { id: 1, energy: 0 }] },
    ];
    let report = analyze(&events, 2, 1);
    assert_eq!(report.ticks, vec![300, NOT_FOUND_TICK, 100]);
    assert_eq!(report.best, vec![2, 0]);
    assert_eq!(report.worst, vec![1]);
    assert_eq!(report.parameters, vec!["k".to_string()]);
    assert_eq!(report.not_found, 1);
    assert_eq!(report.replay.depleted, vec![2]);
    assert_eq!(report.found, vec![300, 100]);
    assert_eq!(report.average, Ok(333466));
    assert_eq!(report.average_found, Ok(200));
    assert_eq!(report.participants, Ok((3, 3)));
    let again = analyze(&events, 2, 1);
    assert_eq!(format!("{:?}", report), format!("{:?}", again));
}
