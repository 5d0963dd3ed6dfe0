//! Prayer statuses and the per-day log they are kept in.
//!
//! The log maps a date, written as chrono's `Display` of the day, to the
//! statuses recorded that day, each keyed by the prayer's name. It is held
//! as vectors of pairs; where a key occurs twice the later pair counts, as a
//! map built by inserting the pairs in order would have it.
use vstd::prelude::*;
use crate::dates;
use crate::text;

verus! {

/// What became of one prayer.
#[derive(Debug, Clone, Copy, PartialEq, Eq, Structural)]
pub enum PrayerStatus {
    Pending,
    Prayed,
    Missed,
    Dismissed,
}

impl Default for PrayerStatus {
    fn default() -> (r: Self)
        ensures
            r == PrayerStatus::Pending,
    {
        PrayerStatus::Pending
    }
}

/// The stored text of a status.
pub open spec fn status_text(s: PrayerStatus) -> Seq<char> {
    match s {
        PrayerStatus::Pending => "pending"@,
        PrayerStatus::Prayed => "prayed"@,
        PrayerStatus::Missed => "missed"@,
        PrayerStatus::Dismissed => "dismissed"@,
    }
}

/// The status a stored text stands for; unknown text reads as pending.
pub open spec fn status_from_text(t: Seq<char>) -> PrayerStatus {
    if t == "prayed"@ {
        PrayerStatus::Prayed
    } else if t == "missed"@ {
        PrayerStatus::Missed
    } else if t == "dismissed"@ {
        PrayerStatus::Dismissed
    } else {
        PrayerStatus::Pending
    }
}

impl PrayerStatus {
    /// The stored text of this status.
    pub fn as_str(&self) -> (r: &'static str)
        ensures
            r@ == status_text(*self),
    {
        match self {
            PrayerStatus::Pending => "pending",
            PrayerStatus::Prayed => "prayed",
            PrayerStatus::Missed => "missed",
            PrayerStatus::Dismissed => "dismissed",
        }
    }

    /// Reads a stored text back; anything unknown is pending.
    pub fn from_str(s: &str) -> (r: PrayerStatus)
        ensures
            r == status_from_text(s@),
    {
        if text::str_equal(s, "prayed") {
            PrayerStatus::Prayed
        } else if text::str_equal(s, "missed") {
            PrayerStatus::Missed
        } else if text::str_equal(s, "dismissed") {
            PrayerStatus::Dismissed
        } else {
            PrayerStatus::Pending
        }
    }
}

/// Reading back the text of a status gives the status.
pub proof fn lemma_status_text_round_trip(s: PrayerStatus)
    ensures
        status_from_text(status_text(s)) == s,
{
    reveal_strlit("pending");
    reveal_strlit("prayed");
    reveal_strlit("missed");
    reveal_strlit("dismissed");
    assert("pending"@.len() == 7 && "prayed"@.len() == 6 && "missed"@.len() == 6
        && "dismissed"@.len() == 9);
    assert("prayed"@[0] != "missed"@[0]);
}

// ── The prayer before another ─────────────────────────────────────────────
/// The obligatory prayer before `current` and its day: the same day for
/// Dhuhr to Isha, the day before for Fajr (none before chrono's first day),
/// none for any other name.
pub open spec fn previous_prayer(date: int, current: Seq<char>) -> Option<(Seq<char>, int)> {
    if current == "Dhuhr"@ {
        Some(("Fajr"@, date))
    } else if current == "Asr"@ {
        Some(("Dhuhr"@, date))
    } else if current == "Maghrib"@ {
        Some(("Asr"@, date))
    } else if current == "Isha"@ {
        Some(("Maghrib"@, date))
    } else if current == "Fajr"@ {
        if date > dates::MIN_DAY_NUMBER {
            Some(("Isha"@, date - 1))
        } else {
            None
        }
    } else {
        None
    }
}

/// The prayer before `current_prayer` on day `date`, with its own day.
pub fn get_previous_prayer(date: i32, current_prayer: &str) -> (r: Option<(&'static str, i32)>)
    requires
        dates::valid_day_number(date as int),
    ensures
        match r {
            Some(p) => previous_prayer(date as int, current_prayer@) == Some((p.0@, p.1 as int)),
            None => previous_prayer(date as int, current_prayer@) is None,
        },
{
    if text::str_equal(current_prayer, "Dhuhr") {
        Some(("Fajr", date))
    } else if text::str_equal(current_prayer, "Asr") {
        Some(("Dhuhr", date))
    } else if text::str_equal(current_prayer, "Maghrib") {
        Some(("Asr", date))
    } else if text::str_equal(current_prayer, "Isha") {
        Some(("Maghrib", date))
    } else if text::str_equal(current_prayer, "Fajr") {
        if date > dates::MIN_DAY_NUMBER {
            Some(("Isha", date - 1))
        } else {
            None
        }
    } else {
        None
    }
}

// ── The log ───────────────────────────────────────────────────────────────
/// The statuses recorded on one day, as (prayer name, status text) pairs.
pub struct DayLog {
    pub date: String,
    pub statuses: Vec<(String, String)>,
}

/// The map that inserting the pairs of `s` in order builds.
pub open spec fn assoc_map<V>(s: Seq<(Seq<char>, V)>) -> Map<Seq<char>, V>
    decreases s.len(),
{
    if s.len() == 0 {
        Map::empty()
    } else {
        assoc_map(s.drop_last()).insert(s.last().0, s.last().1)
    }
}

/// The pairs of a day as texts.
pub open spec fn statuses_view(s: Seq<(String, String)>) -> Seq<(Seq<char>, Seq<char>)> {
    s.map_values(|e: (String, String)| (e.0@, e.1@))
}

/// A day's statuses by prayer name.
pub open spec fn day_map(d: DayLog) -> Map<Seq<char>, Seq<char>> {
    assoc_map(statuses_view(d.statuses@))
}

/// The days of the log as (date text, statuses) pairs.
pub open spec fn logs_view(s: Seq<DayLog>) -> Seq<(Seq<char>, Map<Seq<char>, Seq<char>>)> {
    s.map_values(|d: DayLog| (d.date@, day_map(d)))
}

/// The log as a map from date text to the day's statuses.
pub open spec fn logs_map(s: Seq<DayLog>) -> Map<Seq<char>, Map<Seq<char>, Seq<char>>> {
    assoc_map(logs_view(s))
}

/// The status of `prayer` on the day keyed `key`; pending where none is kept.
pub open spec fn status_in(m: Map<Seq<char>, Map<Seq<char>, Seq<char>>>, key: Seq<char>, prayer: Seq<char>) -> PrayerStatus {
    if m.dom().contains(key) && m[key].dom().contains(prayer) {
        status_from_text(m[key][prayer])
    } else {
        PrayerStatus::Pending
    }
}

/// The statuses kept for the day keyed `key`, empty where there are none.
pub open spec fn day_or_empty(m: Map<Seq<char>, Map<Seq<char>, Seq<char>>>, key: Seq<char>) -> Map<Seq<char>, Seq<char>> {
    if m.dom().contains(key) {
        m[key]
    } else {
        Map::empty()
    }
}

/// A day keyed `date` survives pruning at `cutoff` when chrono parses it as
/// `%Y-%m-%d` to a day no earlier than `cutoff`.
pub open spec fn keeps_day(date: Seq<char>, cutoff: int) -> bool {
    match dates::parsed_iso_day(date) {
        Some(d) => d >= cutoff,
        None => false,
    }
}

/// The days of `s` that survive pruning at `cutoff`, in order.
pub open spec fn pruned_logs(s: Seq<DayLog>, cutoff: int) -> Seq<DayLog>
    decreases s.len(),
{
    if s.len() == 0 {
        Seq::empty()
    } else {
        let rest = pruned_logs(s.drop_last(), cutoff);
        if keeps_day(s.last().date@, cutoff) {
            rest.push(s.last())
        } else {
            rest
        }
    }
}

/// The entries of `m` whose day survives pruning at `cutoff`.
pub open spec fn pruned_map<V>(m: Map<Seq<char>, V>, cutoff: int) -> Map<Seq<char>, V> {
    Map::new(|k: Seq<char>| m.dom().contains(k) && keeps_day(k, cutoff), |k: Seq<char>| m[k])
}

proof fn lemma_assoc_absent<V>(s: Seq<(Seq<char>, V)>, key: Seq<char>)
    requires
        forall|m: int| 0 <= m < s.len() ==> #[trigger] s[m].0 != key,
    ensures
        !assoc_map(s).dom().contains(key),
    decreases s.len(),
{
    if s.len() > 0 {
        lemma_assoc_absent(s.drop_last(), key);
    }
}

proof fn lemma_assoc_last<V>(s: Seq<(Seq<char>, V)>, key: Seq<char>, i: int)
    requires
        0 <= i < s.len(),
        s[i].0 == key,
        forall|m: int| i < m < s.len() ==> #[trigger] s[m].0 != key,
    ensures
        assoc_map(s).dom().contains(key),
        assoc_map(s)[key] == s[i].1,
    decreases s.len(),
{
    if i < s.len() - 1 {
        lemma_assoc_last(s.drop_last(), key, i);
    }
}

proof fn lemma_assoc_update<V>(s: Seq<(Seq<char>, V)>, key: Seq<char>, i: int, v: V)
    requires
        0 <= i < s.len(),
        s[i].0 == key,
        forall|m: int| i < m < s.len() ==> #[trigger] s[m].0 != key,
    ensures
        assoc_map(s.update(i, (key, v))) == assoc_map(s).insert(key, v),
    decreases s.len(),
{
    let t = s.update(i, (key, v));
    if i == s.len() - 1 {
        assert(t.drop_last() =~= s.drop_last());
        assert(assoc_map(t) =~= assoc_map(s).insert(key, v));
    } else {
        lemma_assoc_update(s.drop_last(), key, i, v);
        assert(t.drop_last() =~= s.drop_last().update(i, (key, v)));
        assert(assoc_map(t) =~= assoc_map(s).insert(key, v));
    }
}

proof fn lemma_assoc_push<V>(s: Seq<(Seq<char>, V)>, key: Seq<char>, v: V)
    ensures
        assoc_map(s.push((key, v))) == assoc_map(s).insert(key, v),
{
    assert(s.push((key, v)).drop_last() =~= s);
}

proof fn lemma_pruned_map(s: Seq<DayLog>, cutoff: int)
    ensures
        logs_map(pruned_logs(s, cutoff)) == pruned_map(logs_map(s), cutoff),
    decreases s.len(),
{
    if s.len() == 0 {
        assert(pruned_map(logs_map(s), cutoff) =~= Map::empty());
    } else {
        let init = s.drop_last();
        let x = s.last();
        lemma_pruned_map(init, cutoff);
        assert(logs_view(s).drop_last() =~= logs_view(init));
        let rest = pruned_logs(init, cutoff);
        if keeps_day(x.date@, cutoff) {
            assert(logs_view(rest.push(x)).drop_last() =~= logs_view(rest));
        }
        assert(logs_map(pruned_logs(s, cutoff)) =~= pruned_map(logs_map(s), cutoff));
    }
}

/// Position of the last pair of `statuses` for `prayer`.
fn last_status_index(statuses: &Vec<(String, String)>, prayer: &str) -> (r: Option<usize>)
    ensures
        match r {
            Some(i) => i < statuses@.len() && statuses@[i as int].0@ == prayer@ && forall|m: int|
                i < m < statuses@.len() ==> #[trigger] statuses@[m].0@ != prayer@,
            None => forall|m: int| 0 <= m < statuses@.len() ==> #[trigger] statuses@[m].0@ != prayer@,
        },
{
    let mut i: usize = statuses.len();
    while i > 0
        invariant
            i <= statuses@.len(),
            forall|m: int| i <= m < statuses@.len() ==> #[trigger] statuses@[m].0@ != prayer@,
        decreases i,
    {
        if text::str_equal(statuses[i - 1].0.as_str(), prayer) {
            return Some(i - 1);
        }
        i = i - 1;
    }
    None
}

/// Position of the last day of `logs` keyed `key`.
fn last_day_index(logs: &[DayLog], key: &str) -> (r: Option<usize>)
    ensures
        match r {
            Some(i) => i < logs@.len() && logs@[i as int].date@ == key@ && forall|m: int|
                i < m < logs@.len() ==> #[trigger] logs@[m].date@ != key@,
            None => forall|m: int| 0 <= m < logs@.len() ==> #[trigger] logs@[m].date@ != key@,
        },
{
    let mut i: usize = logs.len();
    while i > 0
        invariant
            i <= logs@.len(),
            forall|m: int| i <= m < logs@.len() ==> #[trigger] logs@[m].date@ != key@,
        decreases i,
    {
        if text::str_equal(logs[i - 1].date.as_str(), key) {
            return Some(i - 1);
        }
        i = i - 1;
    }
    None
}

/// The statuses of the day keyed `key`, read through its last occurrence.
proof fn lemma_logs_lookup(logs: Seq<DayLog>, key: Seq<char>, found: Option<usize>)
    requires
        match found {
            Some(i) => i < logs.len() && logs[i as int].date@ == key && forall|m: int|
                i < m < logs.len() ==> #[trigger] logs[m].date@ != key,
            None => forall|m: int| 0 <= m < logs.len() ==> #[trigger] logs[m].date@ != key,
        },
    ensures
        match found {
            Some(i) => logs_map(logs).dom().contains(key) && logs_map(logs)[key] == day_map(
                logs[i as int],
            ),
            None => !logs_map(logs).dom().contains(key),
        },
{
    let v = logs_view(logs);
    match found {
        Some(i) => {
            assert forall|m: int| i < m < v.len() implies #[trigger] v[m].0 != key by {
                assert(logs[m].date@ != key);
            }
            lemma_assoc_last(v, key, i as int);
        },
        None => {
            assert forall|m: int| 0 <= m < v.len() implies #[trigger] v[m].0 != key by {
                assert(logs[m].date@ != key);
            }
            lemma_assoc_absent(v, key);
        },
    }
}

/// The statuses of a day, read through the last pair of `prayer`.
proof fn lemma_statuses_lookup(statuses: Seq<(String, String)>, prayer: Seq<char>, found: Option<usize>)
    requires
        match found {
            Some(i) => i < statuses.len() && statuses[i as int].0@ == prayer && forall|m: int|
                i < m < statuses.len() ==> #[trigger] statuses[m].0@ != prayer,
            None => forall|m: int| 0 <= m < statuses.len() ==> #[trigger] statuses[m].0@ != prayer,
        },
    ensures
        match found {
            Some(i) => assoc_map(statuses_view(statuses)).dom().contains(prayer) && assoc_map(
                statuses_view(statuses),
            )[prayer] == statuses[i as int].1@,
            None => !assoc_map(statuses_view(statuses)).dom().contains(prayer),
        },
{
    let v = statuses_view(statuses);
    match found {
        Some(i) => {
            assert forall|m: int| i < m < v.len() implies #[trigger] v[m].0 != prayer by {
                assert(statuses[m].0@ != prayer);
            }
            lemma_assoc_last(v, prayer, i as int);
        },
        None => {
            assert forall|m: int| 0 <= m < v.len() implies #[trigger] v[m].0 != prayer by {
                assert(statuses[m].0@ != prayer);
            }
            lemma_assoc_absent(v, prayer);
        },
    }
}

/// Drops the days that chrono does not parse as `%Y-%m-%d` or that lie
/// more than `max_days` days before `today`.
pub fn prune_old_entries(logs: &mut Vec<DayLog>, today: i32, max_days: i64)
    requires
        dates::valid_day_number(today - max_days),
    ensures
        final(logs)@ == pruned_logs(old(logs)@, today - max_days),
        logs_map(final(logs)@) == pruned_map(logs_map(old(logs)@), today - max_days),
{
    let cutoff: i64 = today as i64 - max_days;
    let ghost start = logs@;
    let mut rest: Vec<DayLog> = Vec::new();
    std::mem::swap(&mut rest, logs);
    let mut i: usize = 0;
    let n = rest.len();
    while i < n
        invariant
            n == start.len(),
            i <= n,
            rest@ == start.subrange(i as int, n as int),
            logs@ == pruned_logs(start.take(i as int), cutoff as int),
        decreases n - i,
    {
        let day = rest.remove(0);
        proof {
            assert(start.take(i + 1).drop_last() =~= start.take(i as int));
            assert(start.take(i + 1).last() == day);
        }
        let keep = match dates::parse_iso_day(day.date.as_str()) {
            Some(d) => d as i64 >= cutoff,
            None => false,
        };
        if keep {
            logs.push(day);
        }
        i = i + 1;
    }
    proof {
        assert(start.take(n as int) =~= start);
        lemma_pruned_map(start, cutoff as int);
    }
}

/// The status of `prayer_name` on day `date` in the log; pending where the
/// log holds none.
pub fn get_prayer_status(logs: &[DayLog], date: i32, prayer_name: &str) -> (r: PrayerStatus)
    requires
        dates::valid_day_number(date as int),
    ensures
        r == status_in(logs_map(logs@), dates::display_date_text(date as int), prayer_name@),
{
    let key = dates::display_date_string(date);
    let found = last_day_index(logs, key.as_str());
    proof {
        lemma_logs_lookup(logs@, key@, found);
    }
    match found {
        Some(i) => {
            let at = last_status_index(&logs[i].statuses, prayer_name);
            proof {
                lemma_statuses_lookup(logs@[i as int].statuses@, prayer_name@, at);
            }
            match at {
                Some(j) => PrayerStatus::from_str(logs[i].statuses[j].1.as_str()),
                None => PrayerStatus::Pending,
            }
        },
        None => PrayerStatus::Pending,
    }
}

/// Sets the status text of `prayer` in one day's pairs.
fn set_in_day(statuses: &mut Vec<(String, String)>, prayer: &str, value: &str)
    ensures
        assoc_map(statuses_view(final(statuses)@)) == assoc_map(statuses_view(old(statuses)@)).insert(
            prayer@,
            value@,
        ),
{
    let ghost before = statuses@;
    let found = last_status_index(statuses, prayer);
    let pair = (text::to_owned_string(prayer), text::to_owned_string(value));
    match found {
        Some(i) => {
            proof {
                let v = statuses_view(before);
                assert forall|m: int| i < m < v.len() implies #[trigger] v[m].0 != prayer@ by {
                    assert(before[m].0@ != prayer@);
                }
                lemma_assoc_update(v, prayer@, i as int, value@);
            }
            statuses.remove(i);
            statuses.insert(i, pair);
            proof {
                assert(statuses_view(statuses@) =~= statuses_view(before).update(i as int, (prayer@, value@)));
            }
        },
        None => {
            statuses.push(pair);
            proof {
                lemma_assoc_push(statuses_view(before), prayer@, value@);
                assert(statuses_view(statuses@) =~= statuses_view(before).push((prayer@, value@)));
            }
        },
    }
}

/// Records `status` for `prayer_name` on day `date`, then prunes the log to
/// the days no more than 14 days before `date`. A date in the years 1 to
/// 9999 keeps its own day through the pruning, so the status set is the
/// status read back.
pub fn set_prayer_status(logs: &mut Vec<DayLog>, date: i32, prayer_name: &str, status: PrayerStatus)
    requires
        dates::valid_day_number(date - 14),
        dates::valid_day_number(date as int),
    ensures
        ({
            let key = dates::display_date_text(date as int);
            let m = logs_map(old(logs)@);
            logs_map(final(logs)@) == pruned_map(
                m.insert(key, day_or_empty(m, key).insert(prayer_name@, status_text(status))),
                date - 14,
            )
        }),
        1 <= date <= dates::LAST_FOUR_DIGIT_DAY ==> get_status_law(logs_map(final(logs)@), date as int, prayer_name@, status),
{
    let ghost m = logs_map(logs@);
    let key = dates::display_date_string(date);
    let found = last_day_index(logs.as_slice(), key.as_str());
    proof {
        lemma_logs_lookup(logs@, key@, found);
    }
    let value = status.as_str();
    match found {
        Some(i) => {
            let ghost before = logs@;
            let mut day = logs.remove(i);
            set_in_day(&mut day.statuses, prayer_name, value);
            logs.insert(i, day);
            proof {
                let v = logs_view(before);
                assert forall|k: int| i < k < v.len() implies #[trigger] v[k].0 != key@ by {
                    assert(before[k].date@ != key@);
                }
                lemma_assoc_update(v, key@, i as int, day_map(day));
                assert(logs_view(logs@) =~= v.update(i as int, (key@, day_map(day))));
            }
        },
        None => {
            let mut statuses: Vec<(String, String)> = Vec::new();
            set_in_day(&mut statuses, prayer_name, value);
            let day = DayLog { date: key, statuses };
            proof {
                assert(statuses_view(Seq::<(String, String)>::empty()) =~= Seq::empty());
                assert(day_map(day) =~= Map::<Seq<char>, Seq<char>>::empty().insert(prayer_name@, value@));
            }
            let ghost before = logs@;
            logs.push(day);
            proof {
                lemma_assoc_push(logs_view(before), key@, day_map(day));
                assert(logs_view(logs@) =~= logs_view(before).push((key@, day_map(day))));
            }
        },
    }
    proof {
        assert(logs_map(logs@) =~= m.insert(key@, day_or_empty(m, key@).insert(prayer_name@, status_text(status))));
    }
    prune_old_entries(logs, date, 14);
    proof {
        lemma_status_text_round_trip(status);
    }
}

/// Reading the status of `prayer` on `date` gives `status`.
pub open spec fn get_status_law(m: Map<Seq<char>, Map<Seq<char>, Seq<char>>>, date: int, prayer: Seq<char>, status: PrayerStatus) -> bool {
    status_in(m, dates::display_date_text(date), prayer) == status
}

/// Whether the prayer before `current_prayer` is prayed, missed or
/// dismissed; true where there is no prayer before it.
pub fn is_previous_prayer_completed_or_dismissed(logs: &[DayLog], date: i32, current_prayer: &str) -> (r: bool)
    requires
        dates::valid_day_number(date as int),
    ensures
        r == match previous_prayer(date as int, current_prayer@) {
            Some((name, day)) => status_in(logs_map(logs@), dates::display_date_text(day), name)
                != PrayerStatus::Pending,
            None => true,
        },
{
    match get_previous_prayer(date, current_prayer) {
        Some((name, day)) => {
            let status = get_prayer_status(logs, day, name);
            match status {
                PrayerStatus::Prayed | PrayerStatus::Missed | PrayerStatus::Dismissed => true,
                PrayerStatus::Pending => false,
            }
        },
        None => true,
    }
}

} // verus!
