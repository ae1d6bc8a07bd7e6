use stats::{
    get_filename_without_ext, last_longest, minute_histogram, parse_data_list, positions_of,
    selects_bot, status_level, tally, ticks_to_minutes, Stat,
};

#[test]
fn every_stat_in_order() {
    assert_eq!(
        Stat::all(),
        vec![
            Stat::DataPerBot,
            Stat::EnergyPerBot,
            Stat::StatusPerBot,
            Stat::DataCumulative,
            Stat::EnergyCumulative,
            Stat::Locations,
        ]
    );
}

#[test]
fn titles_and_labels() {
    assert_eq!(Stat::DataPerBot.title(), "Bot Data Over Time");
    assert_eq!(Stat::EnergyCumulative.title(), "Total Energy In System (Bots) Over Time");
    assert_eq!(Stat::Locations.labels(), ("X Coordinate", "Y Coordinate"));
    assert_eq!(Stat::EnergyPerBot.labels(), ("Time (ticks)", "Energy Per Bot (J)"));
    assert_eq!(Stat::StatusPerBot.name(), "status-per-bot");
}

#[test]
fn minutes_from_ticks() {
    assert_eq!(ticks_to_minutes(0), 0);
    assert_eq!(ticks_to_minutes(3599), 0);
    assert_eq!(ticks_to_minutes(3600), 1);
    assert_eq!(ticks_to_minutes(1000000), 277);
}

#[test]
fn filename_stem() {
    assert_eq!(get_filename_without_ext("/tmp/logs/run_1.csv"), "run_1");
    assert_eq!(get_filename_without_ext("archive.tar.gz"), "archive.tar");
    assert_eq!(get_filename_without_ext(".hidden"), ".hidden");
    assert_eq!(get_filename_without_ext(""), "unknown");
    assert_eq!(get_filename_without_ext("/"), "unknown");
}

#[test]
fn status_levels() {
    assert_eq!(status_level("abort"), Some(0));
    assert_eq!(status_level("active_aborting"), Some(0));
    assert_eq!(status_level("active"), Some(1));
    assert_eq!(status_level("trophallaxis"), Some(2));
    assert_eq!(status_level("data_transfer"), Some(3));
    assert_eq!(status_level("sleeping"), None);
}

#[test]
fn tally_sorts_and_counts() {
    assert_eq!(tally(&vec![5, 1, 5, 3, 1, 5]), vec![(1, 2), (3, 1), (5, 3)]);
    assert_eq!(tally(&Vec::new()), Vec::<(u64, usize)>::new());
}

#[test]
fn histogram_by_minute() {
    assert_eq!(minute_histogram(&vec![7300, 100, 3700, 200, 7199]), vec![(0, 2), (1, 2), (2, 1)]);
}

#[test]
fn bot_selection() {
    assert!(selects_bot(&Vec::new(), 4));
    assert!(selects_bot(&vec![1, 4], 4));
    assert!(!selects_bot(&vec![1, 2], 4));
}

#[test]
fn data_field_lists() {
    assert_eq!(parse_data_list(""), Some(vec![]));
    assert_eq!(parse_data_list("  \t "), Some(vec![]));
    assert_eq!(parse_data_list("7"), Some(vec![7]));
    assert_eq!(parse_data_list(" 1, 2 ,3 "), Some(vec![1, 2, 3]));
    assert_eq!(parse_data_list("+4,255,0"), Some(vec![4, 255, 0]));
    assert_eq!(parse_data_list("1,\u{a0}2"), Some(vec![1, 2]));
}

#[test]
fn data_field_rejects() {
    assert_eq!(parse_data_list("256"), None);
    assert_eq!(parse_data_list("1,,2"), None);
    assert_eq!(parse_data_list("1,"), None);
    assert_eq!(parse_data_list("-1"), None);
    assert_eq!(parse_data_list("+"), None);
    assert_eq!(parse_data_list("1 2"), None);
    assert_eq!(parse_data_list("x"), None);
    assert_eq!(parse_data_list("99999999999"), None);
}

#[test]
fn positions_in_order() {
    assert_eq!(positions_of(&vec![4, 2, 4, 4, 1], 4), vec![0, 2, 3]);
    assert_eq!(positions_of(&vec![4, 2], 9), Vec::<usize>::new());
}

#[test]
fn last_of_the_longest() {
    assert_eq!(last_longest(&vec![1, 3, 2, 3, 0]), Some(3));
    assert_eq!(last_longest(&vec![5]), Some(0));
    assert_eq!(last_longest(&Vec::new()), None);
}
