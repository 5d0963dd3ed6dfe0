//! How the settings page's choice lists map to setting values and back,
//! the time-zone mode a choice selects, and which adhan sound entry is
//! selected.
use vstd::prelude::*;
use vstd::string::*;
use crate::config::{
    CalculationMethod, LocationMode, MadhabChoice, PrayerTimesSource, StopCondition, ThemeMode, TimezoneMode,
};
use crate::location;
use crate::style;
use crate::text;

verus! {

// ── Theme ─────────────────────────────────────────────────────────────────
/// The theme list's entry for a theme: System, Light, Dark.
pub open spec fn theme_index_spec(t: ThemeMode) -> u32 {
    match t {
        ThemeMode::System => 0,
        ThemeMode::Light => 1,
        ThemeMode::Dark => 2,
    }
}

pub fn theme_index(t: ThemeMode) -> (r: u32)
    ensures
        r == theme_index_spec(t),
{
    match t {
        ThemeMode::Light => 1,
        ThemeMode::Dark => 2,
        _ => 0,
    }
}

/// The theme an entry of the list selects; any other entry follows the
/// system.
pub open spec fn theme_of_index(i: u32) -> ThemeMode {
    if i == 1 {
        ThemeMode::Light
    } else if i == 2 {
        ThemeMode::Dark
    } else {
        ThemeMode::System
    }
}

pub fn theme_from_index(i: u32) -> (r: ThemeMode)
    ensures
        r == theme_of_index(i),
{
    match i {
        1 => ThemeMode::Light,
        2 => ThemeMode::Dark,
        _ => ThemeMode::System,
    }
}

// ── Location method ───────────────────────────────────────────────────────
pub open spec fn location_mode_index_spec(m: LocationMode) -> u32 {
    match m {
        LocationMode::Manual => 0,
        LocationMode::City => 1,
        LocationMode::Auto => 2,
    }
}

/// The location list's entry for a method: manual, city, automatic.
pub fn location_mode_index(m: LocationMode) -> (r: u32)
    ensures
        r == location_mode_index_spec(m),
{
    match m {
        LocationMode::Manual => 0,
        LocationMode::City => 1,
        LocationMode::Auto => 2,
    }
}

pub open spec fn location_mode_of_index(i: u32) -> LocationMode {
    if i == 1 {
        LocationMode::City
    } else if i == 2 {
        LocationMode::Auto
    } else {
        LocationMode::Manual
    }
}

/// The method an entry selects; any other entry is manual.
pub fn location_mode_from_index(i: u32) -> (r: LocationMode)
    ensures
        r == location_mode_of_index(i),
{
    match i {
        0 => LocationMode::Manual,
        1 => LocationMode::City,
        2 => LocationMode::Auto,
        _ => LocationMode::Manual,
    }
}

// ── Prayer times source ───────────────────────────────────────────────────
pub open spec fn source_index_spec(s: PrayerTimesSource) -> u32 {
    match s {
        PrayerTimesSource::Calculated => 0,
        PrayerTimesSource::Mawaqit => 1,
    }
}

/// The source list's entry: calculated, Mawaqit.
pub fn source_index(s: PrayerTimesSource) -> (r: u32)
    ensures
        r == source_index_spec(s),
{
    match s {
        PrayerTimesSource::Calculated => 0,
        PrayerTimesSource::Mawaqit => 1,
    }
}

pub open spec fn source_of_index(i: u32) -> PrayerTimesSource {
    if i == 1 {
        PrayerTimesSource::Mawaqit
    } else {
        PrayerTimesSource::Calculated
    }
}

/// The source an entry selects: Mawaqit for the second, else calculated.
pub fn source_from_index(i: u32) -> (r: PrayerTimesSource)
    ensures
        r == source_of_index(i),
{
    if i == 1 {
        PrayerTimesSource::Mawaqit
    } else {
        PrayerTimesSource::Calculated
    }
}

// ── Calculation method ────────────────────────────────────────────────────
pub open spec fn method_index_spec(m: CalculationMethod) -> u32 {
    match m {
        CalculationMethod::MWL => 0,
        CalculationMethod::ISNA => 1,
        CalculationMethod::Egypt => 2,
        CalculationMethod::Makkah => 3,
        CalculationMethod::Karachi => 4,
        CalculationMethod::Dubai => 5,
        CalculationMethod::MoonsightingCommittee => 6,
        CalculationMethod::Kuwait => 7,
        CalculationMethod::Qatar => 8,
        CalculationMethod::Singapore => 9,
        CalculationMethod::Turkey => 10,
        CalculationMethod::Kemenag => 11,
        CalculationMethod::France => 12,
        CalculationMethod::Algeria => 13,
    }
}

/// The method list's entry for a calculation method, in declaration order.
pub fn method_index(m: CalculationMethod) -> (r: u32)
    ensures
        r == method_index_spec(m),
{
    match m {
        CalculationMethod::MWL => 0,
        CalculationMethod::ISNA => 1,
        CalculationMethod::Egypt => 2,
        CalculationMethod::Makkah => 3,
        CalculationMethod::Karachi => 4,
        CalculationMethod::Dubai => 5,
        CalculationMethod::MoonsightingCommittee => 6,
        CalculationMethod::Kuwait => 7,
        CalculationMethod::Qatar => 8,
        CalculationMethod::Singapore => 9,
        CalculationMethod::Turkey => 10,
        CalculationMethod::Kemenag => 11,
        CalculationMethod::France => 12,
        CalculationMethod::Algeria => 13,
    }
}

pub open spec fn method_of_index(i: u32) -> CalculationMethod {
    if i == 1 {
        CalculationMethod::ISNA
    } else if i == 2 {
        CalculationMethod::Egypt
    } else if i == 3 {
        CalculationMethod::Makkah
    } else if i == 4 {
        CalculationMethod::Karachi
    } else if i == 5 {
        CalculationMethod::Dubai
    } else if i == 6 {
        CalculationMethod::MoonsightingCommittee
    } else if i == 7 {
        CalculationMethod::Kuwait
    } else if i == 8 {
        CalculationMethod::Qatar
    } else if i == 9 {
        CalculationMethod::Singapore
    } else if i == 10 {
        CalculationMethod::Turkey
    } else if i == 11 {
        CalculationMethod::Kemenag
    } else if i == 12 {
        CalculationMethod::France
    } else if i == 13 {
        CalculationMethod::Algeria
    } else {
        CalculationMethod::MWL
    }
}

/// The method an entry selects; any other entry is MWL.
pub fn method_from_index(i: u32) -> (r: CalculationMethod)
    ensures
        r == method_of_index(i),
{
    match i {
        1 => CalculationMethod::ISNA,
        2 => CalculationMethod::Egypt,
        3 => CalculationMethod::Makkah,
        4 => CalculationMethod::Karachi,
        5 => CalculationMethod::Dubai,
        6 => CalculationMethod::MoonsightingCommittee,
        7 => CalculationMethod::Kuwait,
        8 => CalculationMethod::Qatar,
        9 => CalculationMethod::Singapore,
        10 => CalculationMethod::Turkey,
        11 => CalculationMethod::Kemenag,
        12 => CalculationMethod::France,
        13 => CalculationMethod::Algeria,
        _ => CalculationMethod::MWL,
    }
}

// ── Madhab ────────────────────────────────────────────────────────────────
pub open spec fn madhab_index_spec(m: MadhabChoice) -> u32 {
    match m {
        MadhabChoice::Shafi => 0,
        MadhabChoice::Hanafi => 1,
    }
}

/// The madhab list's entry: Shafi, Hanafi.
pub fn madhab_index(m: MadhabChoice) -> (r: u32)
    ensures
        r == madhab_index_spec(m),
{
    if m == MadhabChoice::Hanafi {
        1
    } else {
        0
    }
}

pub open spec fn madhab_of_index(i: u32) -> MadhabChoice {
    if i == 1 {
        MadhabChoice::Hanafi
    } else {
        MadhabChoice::Shafi
    }
}

/// The madhab an entry selects: Hanafi for the second, else Shafi.
pub fn madhab_from_index(i: u32) -> (r: MadhabChoice)
    ensures
        r == madhab_of_index(i),
{
    if i == 1 {
        MadhabChoice::Hanafi
    } else {
        MadhabChoice::Shafi
    }
}

// ── Where recitation stops ────────────────────────────────────────────────
pub open spec fn stop_index_spec(s: StopCondition) -> u32 {
    match s {
        StopCondition::Unlimited => 0,
        StopCondition::Ayah => 1,
        StopCondition::Page => 2,
        StopCondition::Juz => 3,
        StopCondition::Surah => 4,
    }
}

/// The stop list's entry: never, verse, page, juz, surah.
pub fn stop_index(s: StopCondition) -> (r: u32)
    ensures
        r == stop_index_spec(s),
{
    match s {
        StopCondition::Unlimited => 0,
        StopCondition::Ayah => 1,
        StopCondition::Page => 2,
        StopCondition::Juz => 3,
        StopCondition::Surah => 4,
    }
}

pub open spec fn stop_of_index(i: u32) -> StopCondition {
    if i == 0 {
        StopCondition::Unlimited
    } else if i == 1 {
        StopCondition::Ayah
    } else if i == 2 {
        StopCondition::Page
    } else if i == 3 {
        StopCondition::Juz
    } else {
        StopCondition::Surah
    }
}

/// The stop an entry selects; any entry past the list stops at the surah's
/// end.
pub fn stop_from_index(i: u32) -> (r: StopCondition)
    ensures
        r == stop_of_index(i),
{
    match i {
        0 => StopCondition::Unlimited,
        1 => StopCondition::Ayah,
        2 => StopCondition::Page,
        3 => StopCondition::Juz,
        _ => StopCondition::Surah,
    }
}

/// Each list gives back the value it shows: the entry shown for a setting
/// selects that setting again.
pub proof fn lemma_choice_lists_round_trip(
    t: ThemeMode,
    l: LocationMode,
    s: PrayerTimesSource,
    m: CalculationMethod,
    h: MadhabChoice,
    c: StopCondition,
)
    ensures
        theme_of_index(theme_index_spec(t)) == t,
        location_mode_of_index(location_mode_index_spec(l)) == l,
        source_of_index(source_index_spec(s)) == s,
        method_of_index(method_index_spec(m)) == m,
        madhab_of_index(madhab_index_spec(h)) == h,
        stop_of_index(stop_index_spec(c)) == c,
{
}

/// An entry within a list shows the setting it selects.
pub proof fn lemma_choice_entries_round_trip(i: u32)
    ensures
        i < 3 ==> theme_index_spec(theme_of_index(i)) == i,
        i < 3 ==> location_mode_index_spec(location_mode_of_index(i)) == i,
        i < 2 ==> source_index_spec(source_of_index(i)) == i,
        i < 14 ==> method_index_spec(method_of_index(i)) == i,
        i < 2 ==> madhab_index_spec(madhab_of_index(i)) == i,
        i < 5 ==> stop_index_spec(stop_of_index(i)) == i,
{
}

// ── Time-zone mode ────────────────────────────────────────────────────────
pub open spec fn timezone_mode_index_spec(m: TimezoneMode) -> u32 {
    match m {
        TimezoneMode::Auto => 0,
        TimezoneMode::Named(_) => 1,
        TimezoneMode::UtcOffset(_) => 2,
    }
}

/// The time-zone list's entry: automatic, named zone, fixed offset.
pub fn timezone_mode_index(m: &TimezoneMode) -> (r: u32)
    ensures
        r == timezone_mode_index_spec(*m),
{
    match m {
        TimezoneMode::Auto => 0,
        TimezoneMode::Named(_) => 1,
        TimezoneMode::UtcOffset(_) => 2,
    }
}

/// The mode a time-zone entry selects. A named zone takes the typed name
/// where it is a valid zone, else the current named zone where it is not
/// blank, else falls back to automatic; a fixed offset takes the offset
/// field's minutes; any other entry is automatic.
pub open spec fn timezone_choice_spec(
    selected: u32,
    typed: Seq<char>,
    current: TimezoneMode,
    offset_minutes: i32,
    n: nat,
) -> TimezoneModeV {
    if selected == 1 {
        match location::validated_zone_spec(typed, n) {
            Some(z) => TimezoneModeV::Named(z),
            None => match current {
                TimezoneMode::Named(name) => if text::trimmed(name@).len() > 0 {
                    TimezoneModeV::Named(name@)
                } else {
                    TimezoneModeV::Auto
                },
                _ => TimezoneModeV::Auto,
            },
        }
    } else if selected == 2 {
        TimezoneModeV::UtcOffset(offset_minutes)
    } else {
        TimezoneModeV::Auto
    }
}

/// A time-zone mode as values.
pub enum TimezoneModeV {
    Auto,
    Named(Seq<char>),
    UtcOffset(i32),
}

pub open spec fn timezone_mode_view(m: TimezoneMode) -> TimezoneModeV {
    match m {
        TimezoneMode::Auto => TimezoneModeV::Auto,
        TimezoneMode::Named(s) => TimezoneModeV::Named(s@),
        TimezoneMode::UtcOffset(o) => TimezoneModeV::UtcOffset(o),
    }
}

/// The time-zone mode the list's entry `selected` chooses, with the text of
/// the zone field, the mode in force and the offset field in minutes.
pub fn timezone_mode_for_choice(selected: u32, typed: &str, current: &TimezoneMode, offset_minutes: i32) -> (r:
    TimezoneMode)
    ensures
        timezone_mode_view(r) == timezone_choice_spec(
            selected,
            typed@,
            *current,
            offset_minutes,
            location::tz_variant_total(),
        ),
{
    if selected == 1 {
        match location::validated_time_zone_id(typed) {
            Some(z) => TimezoneMode::Named(z),
            None => match current {
                TimezoneMode::Named(name) => {
                    let t = text::trim_str(name.as_str());
                    if !t.as_str().is_empty() {
                        TimezoneMode::Named(name.clone())
                    } else {
                        TimezoneMode::Auto
                    }
                },
                _ => TimezoneMode::Auto,
            },
        }
    } else if selected == 2 {
        TimezoneMode::UtcOffset(offset_minutes)
    } else {
        TimezoneMode::Auto
    }
}

// ── Adhan sound ───────────────────────────────────────────────────────────
/// What std's `Path::file_name` gives for a path (as text): its last
/// component, if it has one.
pub uninterp spec fn path_file_name(p: Seq<char>) -> Option<Seq<char>>;

/// The last component of a path, with std's `Path::file_name`.
#[verifier::external_body]
fn file_name_of(p: &str) -> (r: Option<String>)
    ensures
        match r {
            Some(s) => path_file_name(p@) == Some(s@),
            None => path_file_name(p@) is None,
        },
{
    std::path::Path::new(p).file_name().and_then(|n| n.to_str()).map(|n| n.to_string())
}

/// What std's `PathBuf::push` makes of a base path and a file name (as
/// text).
pub uninterp spec fn path_joined(base: Seq<char>, name: Seq<char>) -> Option<Seq<char>>;

/// `base` with `name` pushed on, with std's `PathBuf::push`.
#[verifier::external_body]
fn join_path(base: &str, name: &str) -> (r: Option<String>)
    ensures
        match r {
            Some(s) => path_joined(base@, name@) == Some(s@),
            None => path_joined(base@, name@) is None,
        },
{
    let mut path = std::path::PathBuf::from(base);
    path.push(name);
    path.to_str().map(|s| s.to_string())
}

/// Position of the first preset from `i` on named `name`, or
/// `presets.len()`.
pub open spec fn preset_pos_from(presets: Seq<String>, name: Seq<char>, i: int) -> int
    decreases presets.len() - i,
{
    if i >= presets.len() || i < 0 {
        presets.len() as int
    } else if presets[i]@ == name {
        i
    } else {
        preset_pos_from(presets, name, i + 1)
    }
}

/// The sound list's entry for the adhan sound in force: the built-in
/// default (0) without one, the preset with its file name (counted after
/// the default and "Custom File…"), else the custom file (1).
pub open spec fn sound_index_spec(current: Option<Seq<char>>, presets: Seq<String>) -> u32 {
    match current {
        None => 0,
        Some(p) => match path_file_name(p) {
            Some(name) => {
                let k = preset_pos_from(presets, name, 0);
                if k < presets.len() {
                    (k + 2) as u32
                } else {
                    1
                }
            },
            None => 1,
        },
    }
}

/// The sound list's entry for the adhan sound in force.
pub fn adhan_sound_index(current: Option<&str>, presets: &[String]) -> (r: u32)
    requires
        presets@.len() + 2 <= usize::MAX,
    ensures
        r == sound_index_spec(style::opt_text(current), presets@),
{
    match current {
        None => 0,
        Some(p) => match file_name_of(p) {
            Some(name) => {
                let mut k: usize = 0;
                while k < presets.len()
                    invariant
                        presets@.len() + 2 <= usize::MAX,
                        current == Some(p),
                        path_file_name(p@) == Some(name@),
                        k <= presets@.len(),
                        preset_pos_from(presets@, name@, 0) == preset_pos_from(presets@, name@, k as int),
                    decreases presets@.len() - k,
                {
                    if text::str_equal(presets[k].as_str(), name.as_str()) {
                        let k2: usize = k + 2;
                        let entry: u32 = #[verifier::truncate] (k2 as u32);
                        proof {
                            assert(preset_pos_from(presets@, name@, k as int) == k as int);
                        }
                        return entry;
                    }
                    k = k + 1;
                }
                1
            },
            None => 1,
        },
    }
}

/// The sound file a preset entry selects: the preset's file under
/// "assets/audio".
pub fn preset_sound_path(presets: &[String], index: usize) -> (r: Option<String>)
    requires
        2 <= index < presets@.len() + 2,
    ensures
        match r {
            Some(s) => path_joined("assets/audio"@, presets@[index - 2]@) == Some(s@),
            None => path_joined("assets/audio"@, presets@[index - 2]@) is None,
        },
{
    join_path("assets/audio", presets[index - 2].as_str())
}

} // verus!
