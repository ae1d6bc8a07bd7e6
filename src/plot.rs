use vstd::prelude::*;

verus! {

/// The kinds of time series drawn from per-tick telemetry.
#[derive(Clone, Copy, Debug, PartialEq, Eq, Structural)]
pub enum Stat {
    DataPerBot,
    EnergyPerBot,
    StatusPerBot,
    DataCumulative,
    EnergyCumulative,
    Locations,
}

pub open spec fn title_spec(s: Stat) -> Seq<char> {
    match s {
        Stat::DataPerBot => "Bot Data Over Time"@,
        Stat::EnergyPerBot => "Bot Energy Over Time"@,
        Stat::StatusPerBot => "Bot Status Over Time"@,
        Stat::DataCumulative => "Total Data In System (Bots) Over Time"@,
        Stat::EnergyCumulative => "Total Energy In System (Bots) Over Time"@,
        Stat::Locations => "Locations of Bots Over Time"@,
    }
}

pub open spec fn labels_spec(s: Stat) -> (Seq<char>, Seq<char>) {
    match s {
        Stat::DataPerBot => ("Time (ticks)"@, "Presence of Data (0 or 1)"@),
        Stat::EnergyPerBot => ("Time (ticks)"@, "Energy Per Bot (J)"@),
        Stat::StatusPerBot => ("Time (ticks)"@, "Status"@),
        Stat::DataCumulative => ("Time (ticks)"@, "Total Data In System (Bots)"@),
        Stat::EnergyCumulative => ("Time (ticks)"@, "Total Energy In System (J)"@),
        Stat::Locations => ("X Coordinate"@, "Y Coordinate"@),
    }
}

pub open spec fn name_spec(s: Stat) -> Seq<char> {
    match s {
        Stat::DataPerBot => "data-per-bot"@,
        Stat::EnergyPerBot => "energy-per-bot"@,
        Stat::StatusPerBot => "status-per-bot"@,
        Stat::DataCumulative => "data-cumulative"@,
        Stat::EnergyCumulative => "energy-cumulative"@,
        Stat::Locations => "locations"@,
    }
}

impl Stat {
    /// Every kind, in declaration order.
    pub fn all() -> (r: Vec<Stat>)
        ensures
            r@ == seq![
                Stat::DataPerBot,
                Stat::EnergyPerBot,
                Stat::StatusPerBot,
                Stat::DataCumulative,
                Stat::EnergyCumulative,
                Stat::Locations,
            ],
    {
        let r = vec![
            Stat::DataPerBot,
            Stat::EnergyPerBot,
            Stat::StatusPerBot,
            Stat::DataCumulative,
            Stat::EnergyCumulative,
            Stat::Locations,
        ];
        proof {
            assert(r@ =~= seq![
                Stat::DataPerBot,
                Stat::EnergyPerBot,
                Stat::StatusPerBot,
                Stat::DataCumulative,
                Stat::EnergyCumulative,
                Stat::Locations,
            ]);
        }
        r
    }

    /// The chart title.
    pub fn title(&self) -> (r: &'static str)
        ensures
            r@ == title_spec(*self),
    {
        match self {
            Stat::DataPerBot => "Bot Data Over Time",
            Stat::EnergyPerBot => "Bot Energy Over Time",
            Stat::StatusPerBot => "Bot Status Over Time",
            Stat::DataCumulative => "Total Data In System (Bots) Over Time",
            Stat::EnergyCumulative => "Total Energy In System (Bots) Over Time",
            Stat::Locations => "Locations of Bots Over Time",
        }
    }

    /// The x and y axis labels.
    pub fn labels(&self) -> (r: (&'static str, &'static str))
        ensures
            (r.0@, r.1@) == labels_spec(*self),
    {
        match self {
            Stat::DataPerBot => ("Time (ticks)", "Presence of Data (0 or 1)"),
            Stat::EnergyPerBot => ("Time (ticks)", "Energy Per Bot (J)"),
            Stat::StatusPerBot => ("Time (ticks)", "Status"),
            Stat::DataCumulative => ("Time (ticks)", "Total Data In System (Bots)"),
            Stat::EnergyCumulative => ("Time (ticks)", "Total Energy In System (J)"),
            Stat::Locations => ("X Coordinate", "Y Coordinate"),
        }
    }

    /// The command-line name of the kind.
    pub fn name(&self) -> (r: &'static str)
        ensures
            r@ == name_spec(*self),
    {
        match self {
            Stat::DataPerBot => "data-per-bot",
            Stat::EnergyPerBot => "energy-per-bot",
            Stat::StatusPerBot => "status-per-bot",
            Stat::DataCumulative => "data-cumulative",
            Stat::EnergyCumulative => "energy-cumulative",
            Stat::Locations => "locations",
        }
    }
}

/// Whole minutes in a tick count.
pub fn ticks_to_minutes(ticks: u64) -> (r: u64)
    ensures
        r == ticks / 3600,
{
    ticks / 3600
}

/// What `Path::file_stem` gives for a path: the final component without its
/// extension, if there is a final component.
pub uninterp spec fn file_stem_of(path: Seq<char>) -> Option<Seq<char>>;

/// Relies on `std::path::Path::file_stem` (the stem of a path given as text,
/// which is text again).
#[verifier::external_body]
fn file_stem(path: &str) -> (r: Option<String>)
    ensures
        r matches Some(s) ==> file_stem_of(path@) == Some(s@),
        r is None ==> file_stem_of(path@) is None,
{
    std::path::Path::new(path).file_stem().and_then(|s| s.to_str()).map(|s| s.to_string())
}

/// The file name of `path` without its extension, or `unknown`.
pub fn get_filename_without_ext(path: &str) -> (r: String)
    ensures
        r@ == match file_stem_of(path@) {
            Some(s) => s,
            None => "unknown"@,
        },
{
    match file_stem(path) {
        Some(s) => s,
        None => "unknown".to_owned(),
    }
}

/// The display level of a telemetry status, if it is a known status.
pub fn status_level(status: &str) -> (r: Option<u8>)
    ensures
        r == if status@ == "abort"@ || status@ == "active_aborting"@ {
            Some(0u8)
        } else if status@ == "active"@ {
            Some(1u8)
        } else if status@ == "trophallaxis"@ {
            Some(2u8)
        } else if status@ == "data_transfer"@ {
            Some(3u8)
        } else {
            None
        },
{
    let s = status.to_owned();
    if s.eq(&"abort".to_owned()) || s.eq(&"active_aborting".to_owned()) {
        Some(0)
    } else if s.eq(&"active".to_owned()) {
        Some(1)
    } else if s.eq(&"trophallaxis".to_owned()) {
        Some(2)
    } else if s.eq(&"data_transfer".to_owned()) {
        Some(3)
    } else {
        None
    }
}

/// How often `k` occurs in `keys`.
pub open spec fn occurrences(keys: Seq<u64>, k: u64) -> nat
    decreases keys.len(),
{
    if keys.len() == 0 {
        0
    } else {
        occurrences(keys.drop_last(), k) + if keys.last() == k {
            1nat
        } else {
            0nat
        }
    }
}

/// `r` lists each distinct key of `keys` once, in ascending order, with the
/// number of times it occurs.
pub open spec fn is_tally(keys: Seq<u64>, r: Seq<(u64, usize)>) -> bool {
    &&& forall|i: int, j: int| 0 <= i < j < r.len() ==> (#[trigger] r[i]).0 < (#[trigger] r[j]).0
    &&& forall|j: int| 0 <= j < r.len() ==> (#[trigger] r[j]).1 == occurrences(keys, r[j].0) && r[j].1 > 0
    &&& forall|k: u64| occurrences(keys, k) > 0 ==> exists|j: int| 0 <= j < r.len() && (#[trigger] r[j]).0 == k
}

proof fn lemma_occurrences_bound(keys: Seq<u64>, k: u64)
    ensures
        occurrences(keys, k) <= keys.len(),
    decreases keys.len(),
{
    if keys.len() > 0 {
        lemma_occurrences_bound(keys.drop_last(), k);
    }
}

/// The distinct keys in ascending order, each with its number of occurrences.
pub fn tally(keys: &Vec<u64>) -> (r: Vec<(u64, usize)>)
    ensures
        is_tally(keys@, r@),
{
    let mut r: Vec<(u64, usize)> = Vec::new();
    let mut i: usize = 0;
    while i < keys.len()
        invariant
            i <= keys.len(),
            is_tally(keys@.subrange(0, i as int), r@),
        decreases keys.len() - i,
    {
        let key = keys[i];
        let ghost pre = keys@.subrange(0, i as int);
        let ghost post = keys@.subrange(0, i + 1);
        proof {
            assert(post.drop_last() =~= pre);
            assert(forall|k: u64| #[trigger] occurrences(post, k) == occurrences(pre, k) + if k == key { 1nat } else { 0nat });
        }
        let mut pos: usize = 0;
        while pos < r.len() && r[pos].0 < key
            invariant
                pos <= r.len(),
                forall|j: int| 0 <= j < pos ==> (#[trigger] r@[j]).0 < key,
            decreases r.len() - pos,
        {
            pos += 1;
        }
        let ghost before = r@;
        if pos < r.len() && r[pos].0 == key {
            let count = r[pos].1;
            proof {
                lemma_occurrences_bound(pre, key);
            }
            r.set(pos, (key, count + 1));
            proof {
                assert forall|k: u64| occurrences(post, k) > 0 implies exists|j: int| 0 <= j < r@.len() && (#[trigger] r@[j]).0 == k by {
                    if k != key {
                        let j = choose|j: int| 0 <= j < before.len() && (#[trigger] before[j]).0 == k;
                        assert(r@[j].0 == k);
                    } else {
                        assert(r@[pos as int].0 == k);
                    }
                }
            }
        } else {
            proof {
                assert forall|j: int| pos <= j < before.len() implies key < (#[trigger] before[j]).0 by {
                    if j > pos {
                        assert(before[pos as int].0 < before[j].0);
                    }
                }
                if occurrences(pre, key) > 0 {
                    let j = choose|j: int| 0 <= j < before.len() && (#[trigger] before[j]).0 == key;
                    assert(false);
                }
            }
            r.insert(pos, (key, 1));
            proof {
                assert(r@ == before.insert(pos as int, (key, 1usize)));
                assert forall|a: int, b: int| 0 <= a < b < r@.len() implies (#[trigger] r@[a]).0 < (#[trigger] r@[b]).0 by {
                    if a < pos && b < pos {
                    } else if a < pos && b == pos {
                    } else if a < pos {
                        assert(r@[b] == before[b - 1]);
                    } else if a == pos {
                        assert(r@[b] == before[b - 1]);
                    } else {
                        assert(r@[a] == before[a - 1] && r@[b] == before[b - 1]);
                    }
                }
                assert forall|j: int| 0 <= j < r@.len() implies (#[trigger] r@[j]).1 == occurrences(post, r@[j].0) && r@[j].1 > 0 by {
                    if j < pos {
                        assert(r@[j] == before[j]);
                    } else if j > pos {
                        assert(r@[j] == before[j - 1]);
                    }
                }
                assert forall|k: u64| occurrences(post, k) > 0 implies exists|j: int| 0 <= j < r@.len() && (#[trigger] r@[j]).0 == k by {
                    if k != key {
                        let j = choose|j: int| 0 <= j < before.len() && (#[trigger] before[j]).0 == k;
                        if j < pos {
                            assert(r@[j].0 == k);
                        } else {
                            assert(r@[j + 1].0 == k);
                        }
                    } else {
                        assert(r@[pos as int].0 == k);
                    }
                }
            }
        }
        i += 1;
    }
    proof {
        assert(keys@.subrange(0, keys@.len() as int) =~= keys@);
    }
    r
}

/// Simulation end times bucketed by whole minute: each minute that occurs, in
/// ascending order, with the number of ticks that fall in it.
pub fn minute_histogram(ticks: &Vec<u64>) -> (r: Vec<(u64, usize)>)
    ensures
        is_tally(ticks@.map_values(|t: u64| t / 3600), r@),
{
    let mut minutes: Vec<u64> = Vec::new();
    let mut i: usize = 0;
    while i < ticks.len()
        invariant
            i <= ticks.len(),
            minutes@ == ticks@.subrange(0, i as int).map_values(|t: u64| t / 3600),
        decreases ticks.len() - i,
    {
        minutes.push(ticks_to_minutes(ticks[i]));
        proof {
            assert(minutes@ =~= ticks@.subrange(0, i + 1).map_values(|t: u64| t / 3600));
        }
        i += 1;
    }
    proof {
        assert(ticks@.subrange(0, ticks@.len() as int) =~= ticks@);
    }
    tally(&minutes)
}

/// Whether a participant is plotted: all are when no ids are selected.
pub fn selects_bot(selected: &Vec<u16>, id: u16) -> (r: bool)
    ensures
        r == (selected@.len() == 0 || selected@.contains(id)),
{
    if selected.len() == 0 {
        return true;
    }
    let mut i: usize = 0;
    while i < selected.len()
        invariant
            i <= selected.len(),
            forall|k: int| 0 <= k < i ==> selected@[k] != id,
        decreases selected.len() - i,
    {
        if selected[i] == id {
            return true;
        }
        i += 1;
    }
    false
}

/// The positions at which `k` occurs in `keys`, in ascending order.
pub open spec fn positions_spec(keys: Seq<u64>, k: u64) -> Seq<usize>
    decreases keys.len(),
{
    if keys.len() == 0 {
        Seq::empty()
    } else {
        let prev = positions_spec(keys.drop_last(), k);
        if keys.last() == k {
            prev.push((keys.len() - 1) as usize)
        } else {
            prev
        }
    }
}

/// The positions at which `k` occurs in `keys`, in ascending order.
pub fn positions_of(keys: &Vec<u64>, k: u64) -> (r: Vec<usize>)
    ensures
        r@ == positions_spec(keys@, k),
{
    let mut r: Vec<usize> = Vec::new();
    let mut i: usize = 0;
    while i < keys.len()
        invariant
            i <= keys.len(),
            r@ == positions_spec(keys@.subrange(0, i as int), k),
        decreases keys.len() - i,
    {
        proof {
            assert(keys@.subrange(0, i + 1).drop_last() =~= keys@.subrange(0, i as int));
        }
        if keys[i] == k {
            r.push(i);
        }
        i += 1;
    }
    proof {
        assert(keys@.subrange(0, keys@.len() as int) =~= keys@);
    }
    r
}

/// The position of the last of the greatest lengths, if there is any length.
pub fn last_longest(lengths: &Vec<usize>) -> (r: Option<usize>)
    ensures
        r is None <==> lengths@.len() == 0,
        r matches Some(i) ==> {
            &&& i < lengths@.len()
            &&& forall|j: int| 0 <= j < lengths@.len() ==> lengths@[j] <= lengths@[i as int]
            &&& forall|j: int| i < j < lengths@.len() ==> lengths@[j] < lengths@[i as int]
        },
{
    if lengths.len() == 0 {
        return None;
    }
    let mut best: usize = 0;
    let mut i: usize = 1;
    while i < lengths.len()
        invariant
            1 <= i <= lengths.len(),
            best < i,
            forall|j: int| 0 <= j < i ==> lengths@[j] <= lengths@[best as int],
            forall|j: int| best < j < i ==> lengths@[j] < lengths@[best as int],
        decreases lengths.len() - i,
    {
        if lengths[i] >= lengths[best] {
            best = i;
        }
        i += 1;
    }
    Some(best)
}

} // verus!
