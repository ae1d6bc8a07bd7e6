use vstd::prelude::*;

verus! {

/// One configuration value. Numbers are carried as the bit pattern of the
/// `f64` they stand for.
#[derive(Clone, Copy, Debug, PartialEq, Eq, Structural)]
pub enum TweakValue {
    /// A single scalar.
    Single(u64),
    /// A closed interval `[low, high]`; `low` may exceed `high`.
    Range(u64, u64),
}

impl TweakValue {
    /// The scalar that stands for this value in comparisons: the value itself,
    /// or the lower bound of a range.
    pub open spec fn representative_spec(self) -> u64 {
        match self {
            TweakValue::Single(v) => v,
            TweakValue::Range(low, _) => low,
        }
    }

    pub fn representative(&self) -> (r: u64)
        ensures
            r == self.representative_spec(),
    {
        match self {
            TweakValue::Single(v) => *v,
            TweakValue::Range(low, _) => *low,
        }
    }
}

/// A participant's terminal state: its id and the bit pattern of its energy.
#[derive(Clone, Copy, Debug, PartialEq, Eq, Structural)]
pub struct Bot {
    pub id: u32,
    pub energy: u64,
}

/// A configuration snapshot: parameter names with their values.
#[derive(Debug)]
pub struct Tweaks {
    pub entries: Vec<(String, TweakValue)>,
}

/// The value of the first entry named `key`.
pub open spec fn lookup(entries: Seq<(String, TweakValue)>, key: Seq<char>) -> Option<TweakValue>
    decreases entries.len(),
{
    if entries.len() == 0 {
        None
    } else if entries[0].0@ == key {
        Some(entries[0].1)
    } else {
        lookup(entries.drop_first(), key)
    }
}

impl View for Tweaks {
    type V = Seq<(String, TweakValue)>;

    open spec fn view(&self) -> Seq<(String, TweakValue)> {
        self.entries@
    }
}

impl Tweaks {
    pub fn new() -> (r: Tweaks)
        ensures
            r@ == Seq::<(String, TweakValue)>::empty(),
    {
        Tweaks { entries: Vec::new() }
    }

    /// An independent copy with the same entries.
    pub fn copy(&self) -> (r: Tweaks)
        ensures
            r@ == self@,
    {
        let mut entries: Vec<(String, TweakValue)> = Vec::new();
        let mut i: usize = 0;
        while i < self.entries.len()
            invariant
                i <= self.entries.len(),
                entries@ == self.entries@.subrange(0, i as int),
            decreases self.entries.len() - i,
        {
            let name = self.entries[i].0.clone();
            let value = self.entries[i].1;
            entries.push((name, value));
            proof {
                assert(entries@ =~= self.entries@.subrange(0, i + 1));
            }
            i += 1;
        }
        proof {
            assert(entries@ =~= self.entries@);
        }
        Tweaks { entries }
    }

    /// The value of the parameter `key`, if the snapshot names it.
    pub fn get(&self, key: &String) -> (r: Option<TweakValue>)
        ensures
            r == lookup(self@, key@),
    {
        let mut i: usize = 0;
        proof {
            assert(self@.subrange(0, self@.len() as int) =~= self@);
        }
        while i < self.entries.len()
            invariant
                i <= self.entries.len(),
                lookup(self@, key@) == lookup(self@.subrange(i as int, self@.len() as int), key@),
            decreases self.entries.len() - i,
        {
            proof {
                let rest = self@.subrange(i as int, self@.len() as int);
                assert(rest.drop_first() =~= self@.subrange(i + 1, self@.len() as int));
            }
            if self.entries[i].0.eq(key) {
                return Some(self.entries[i].1);
            }
            i += 1;
        }
        None
    }
}

/// One entry of an experiment log.
#[derive(Debug)]
pub enum Event {
    /// The configuration in effect from here on.
    TweakedConstants { tweaks: Tweaks },
    /// The end state of one simulated iteration.
    StopConditionReached { iteration: u32, tick: u32, bots: Vec<Bot> },
    /// The run's reported duration (bit pattern of seconds).
    ExperimentFinished { duration: u64 },
    /// All participants ran out of energy.
    AllDepleted,
    /// A participant was removed.
    BotKilled { id: u32, iteration: u32, tick: u32 },
}

/// Why an analysis could not be carried out.
#[derive(Clone, Copy, Debug, PartialEq, Eq, Structural)]
pub enum AnalysisError {
    /// A log entry of unknown or broken shape.
    MalformedLogEntry,
    /// Statistics were asked of zero observations.
    EmptySample,
    /// The participant counts give no positive theoretical maximum.
    MissingTheoreticalMax,
}

} // verus!
