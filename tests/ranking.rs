use stats::{
    best_group, group_values, name_less, parameter_names, rank_by_tick, replay, tweak_cells,
    worst_group, Bot, Event, TweakValue, Tweaks,
};

fn stop(iteration: u32, tick: u32) -> Event {
    Event::StopConditionReached { iteration, tick, bots: vec![Bot { id: 1, energy: 0 }] }
}

fn snapshot(entries: &[(&str, TweakValue)]) -> Event {
    Event::TweakedConstants {
        tweaks: Tweaks { entries: entries.iter().map(|(k, v)| (k.to_string(), *v)).collect() },
    }
}

fn single(v: f64) -> TweakValue {
    TweakValue::Single(v.to_bits())
}

#[test]
fn best_group_is_stable_by_ascending_tick() {
    let ticks = vec![10, 10, 5, 20];
    assert_eq!(best_group(&ticks, 2), vec![2, 0]);
    assert_eq!(rank_by_tick(&ticks, false), vec![2, 0, 1, 3]);
}

#[test]
fn worst_group_is_stable_by_descending_tick() {
    let ticks = vec![10, 10, 5, 20];
    assert_eq!(worst_group(&ticks, 3), vec![3, 0, 1]);
    assert_eq!(rank_by_tick(&ticks, true), vec![3, 0, 1, 2]);
}

#[test]
fn groups_shorter_than_requested() {
    let ticks = vec![7, 3];
    assert_eq!(best_group(&ticks, 5), vec![1, 0]);
    assert_eq!(worst_group(&ticks, 4), vec![0, 1]);
    assert_eq!(best_group(&Vec::new(), 5), Vec::<usize>::new());
    assert_eq!(best_group(&ticks, 0), Vec::<usize>::new());
}

#[test]
fn range_yields_its_lower_bound() {
    let range = TweakValue::Range(3.0f64.to_bits(), 9.0f64.to_bits());
    assert_eq!(f64::from_bits(range.representative()), 3.0);
    let r = replay(&vec![snapshot(&[("p", range)]), stop(1, 10)]);
    let values = group_values(&r.outcomes, &vec![0], &"p".to_string());
    assert_eq!(values, vec![3.0f64.to_bits()]);
}

#[test]
fn parameter_names_are_sorted_union() {
    let r = replay(&vec![
        snapshot(&[("zeta", single(1.0)), ("alpha", single(2.0))]),
        stop(1, 10),
        snapshot(&[("beta", single(3.0)), ("alpha", single(4.0))]),
        stop(2, 20),
        snapshot(&[("omega", single(5.0))]),
        stop(3, 30),
    ]);
    let names = parameter_names(&r.outcomes, &vec![0], &vec![1]);
    assert_eq!(names, vec!["alpha".to_string(), "beta".to_string(), "zeta".to_string()]);
}

#[test]
fn values_per_group_skip_missing_parameters() {
    let r = replay(&vec![
        snapshot(&[("a", single(1.0))]),
        stop(1, 10),
        snapshot(&[("b", single(2.0))]),
        stop(2, 20),
        snapshot(&[("a", TweakValue::Range(5.0f64.to_bits(), 1.0f64.to_bits()))]),
        stop(3, 30),
    ]);
    let key = "a".to_string();
    assert_eq!(group_values(&r.outcomes, &vec![2, 1, 0], &key), vec![5.0f64.to_bits(), 1.0f64.to_bits()]);
    assert_eq!(group_values(&r.outcomes, &vec![1], &key), Vec::<u64>::new());
    assert_eq!(
        tweak_cells(&r.outcomes, &vec![0, 1], &key),
        vec![Some(single(1.0)), None]
    );
}

#[test]
fn names_order_by_characters() {
    assert!(name_less(&"Zeta".to_string(), &"alpha".to_string()));
    assert!(name_less(&"ab".to_string(), &"abc".to_string()));
    assert!(!name_less(&"abc".to_string(), &"abc".to_string()));
    assert!(!name_less(&"b".to_string(), &"abc".to_string()));
    assert!(name_less(&"".to_string(), &"a".to_string()));
}
