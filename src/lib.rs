//! Analysis of simulation experiment logs: replaying the event stream into
//! configuration/outcome pairs, ranking outcomes, and the integer side of the
//! reporting (counts, durations, parameter grouping, plot bucketing).
//!
//! Real-valued quantities (energies, tweak values, durations in seconds) are
//! carried through the library as IEEE-754 bit patterns (`u64`), so that the
//! verified logic never performs floating-point arithmetic; the reporting
//! layer turns them back into numbers.

mod analysis;
mod event;
mod field;
pub mod laws;
mod names;
mod plot;
mod ranking;
mod replay;
mod report;
mod summary;

pub use analysis::{group_values, parameter_names, tweak_cells};
pub use event::{AnalysisError, Bot, Event, TweakValue, Tweaks};
pub use field::parse_data_list;
pub use names::name_less;
pub use plot::{
    get_filename_without_ext, last_longest, minute_histogram, positions_of, selects_bot,
    status_level, tally, ticks_to_minutes, Stat,
};
pub use ranking::{best_group, outcome_ticks, rank_by_tick, worst_group};
pub use replay::{replay, PairedOutcome, Replay};
pub use report::{analyze, Report};
pub use summary::{
    average_ticks, duration_parts, found_ticks, not_found_count, participant_counts,
    NOT_FOUND_TICK, TICKS_PER_MINUTE,
};
