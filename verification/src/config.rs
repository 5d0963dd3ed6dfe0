//! Settings values and the schema migration of stored settings.
use vstd::prelude::*;
use crate::adkar;
use crate::adkar::{AdkarSet, DikrCategory};
use crate::text;

verus! {

/// How the location is chosen.
#[derive(Debug, Clone, Copy, PartialEq, Eq, Structural)]
pub enum LocationMode {
    Manual,
    City,
    Auto,
}

/// Clock style for displayed times.
#[derive(Debug, Clone, Copy, PartialEq, Eq, Structural)]
pub enum TimeFormat {
    /// Follow the interface language's convention.
    Auto,
    /// Always 24-hour.
    Hours24,
    /// Always 12-hour with AM/PM.
    Hours12,
}

impl Default for TimeFormat {
    fn default() -> (r: Self)
        ensures
            r == TimeFormat::Auto,
    {
        TimeFormat::Auto
    }
}

/// Where prayer times come from.
#[derive(Debug, Clone, Copy, PartialEq, Eq, Structural)]
pub enum PrayerTimesSource {
    /// Computed from the coordinates.
    Calculated,
    /// Published by a connected mosque.
    Mawaqit,
}

impl Default for PrayerTimesSource {
    fn default() -> (r: Self)
        ensures
            r == PrayerTimesSource::Calculated,
    {
        PrayerTimesSource::Calculated
    }
}

/// Calculation convention for prayer times.
#[derive(Debug, Clone, Copy, PartialEq, Eq, Structural)]
pub enum CalculationMethod {
    MWL,
    ISNA,
    Egypt,
    Makkah,
    Karachi,
    Dubai,
    MoonsightingCommittee,
    Kuwait,
    Qatar,
    Singapore,
    Turkey,
    Kemenag,
    France,
    Algeria,
}

impl Default for CalculationMethod {
    fn default() -> (r: Self)
        ensures
            r == CalculationMethod::MWL,
    {
        CalculationMethod::MWL
    }
}

/// School used for the Asr time.
#[derive(Debug, Clone, Copy, PartialEq, Eq, Structural)]
pub enum MadhabChoice {
    Shafi,
    Hanafi,
}

impl Default for MadhabChoice {
    fn default() -> (r: Self)
        ensures
            r == MadhabChoice::Shafi,
    {
        MadhabChoice::Shafi
    }
}

/// Rule for Fajr and Isha at high latitudes.
#[derive(Debug, Clone, Copy, PartialEq, Eq, Structural)]
pub enum HighLatitudeChoice {
    Auto,
    MiddleOfTheNight,
    SeventhOfTheNight,
    TwilightAngle,
    LocalRelativeEstimation,
}

impl Default for HighLatitudeChoice {
    fn default() -> (r: Self)
        ensures
            r == HighLatitudeChoice::Auto,
    {
        HighLatitudeChoice::Auto
    }
}

/// Estimation used beyond the polar circles.
#[derive(Debug, Clone, Copy, PartialEq, Eq, Structural)]
pub enum PolarEstimationMethod {
    NearestLatitude,
    Reference45,
}

impl Default for PolarEstimationMethod {
    fn default() -> (r: Self)
        ensures
            r == PolarEstimationMethod::NearestLatitude,
    {
        PolarEstimationMethod::NearestLatitude
    }
}

/// Colour scheme.
#[derive(Debug, Clone, Copy, PartialEq, Eq, Structural)]
pub enum ThemeMode {
    System,
    Light,
    Dark,
}

impl Default for ThemeMode {
    fn default() -> (r: Self)
        ensures
            r == ThemeMode::System,
    {
        ThemeMode::System
    }
}

/// Time zone used for displayed times.
#[derive(Debug, Clone, PartialEq, Eq)]
pub enum TimezoneMode {
    Auto,
    Named(String),
    UtcOffset(i32),
}

impl Default for TimezoneMode {
    fn default() -> (r: Self)
        ensures
            r == TimezoneMode::Auto,
    {
        TimezoneMode::Auto
    }
}

/// Where continuous recitation stops.
#[derive(Debug, Clone, Copy, PartialEq, Eq, Structural)]
pub enum StopCondition {
    /// Recite on without stopping.
    Unlimited,
    Ayah,
    Page,
    Juz,
    Surah,
}

impl Default for StopCondition {
    fn default() -> (r: Self)
        ensures
            r == StopCondition::Ayah,
    {
        StopCondition::Ayah
    }
}

/// A bookmarked Quran page.
#[derive(Debug, Clone, Copy, PartialEq, Eq, Structural)]
pub struct QuranBookmark {
    pub page: u32,
    pub surah_number: u32,
    pub verse: u32,
}

/// Current version of the stored settings' layout; 0 marks files written
/// before versioning.
pub const CONFIG_SCHEMA_VERSION: u32 = 1;

/// Waiting minutes before the iqamah of each prayer, in display order.
pub open spec fn default_iqamah_minutes_spec() -> Seq<(Seq<char>, u32)> {
    seq![("Fajr"@, 20u32), ("Dhuhr"@, 10u32), ("Asr"@, 10u32), ("Maghrib"@, 5u32), ("Isha"@, 10u32)]
}

/// Waiting minutes before the iqamah of each prayer, in display order.
pub fn default_iqamah_minutes() -> (r: Vec<(String, u32)>)
    ensures
        r@.map_values(|e: (String, u32)| (e.0@, e.1)) == default_iqamah_minutes_spec(),
{
    let mut r: Vec<(String, u32)> = Vec::new();
    r.push((crate::text::to_owned_string("Fajr"), 20));
    r.push((crate::text::to_owned_string("Dhuhr"), 10));
    r.push((crate::text::to_owned_string("Asr"), 10));
    r.push((crate::text::to_owned_string("Maghrib"), 5));
    r.push((crate::text::to_owned_string("Isha"), 10));
    proof {
        assert(r@.map_values(|e: (String, u32)| (e.0@, e.1)) =~= default_iqamah_minutes_spec());
    }
    r
}

/// The stored settings that schema migration rewrites.
#[derive(Debug, Clone, PartialEq, Eq)]
pub struct MigratableConfig {
    pub schema_version: u32,
    pub favorites: Vec<String>,
    pub quran_bookmark_surah_number: Option<u32>,
    pub quran_bookmark_page: Option<u32>,
    pub quran_bookmarks: Vec<QuranBookmark>,
}

// ── Bookmark normalisation ────────────────────────────────────────────────
/// `i` is the first position of `list` whose page is `page`.
pub open spec fn first_with_page(list: Seq<QuranBookmark>, i: int, page: u32) -> bool {
    0 <= i < list.len() && list[i].page == page && forall|j: int|
        0 <= j < i ==> #[trigger] list[j].page != page
}

/// Pages rise strictly along `out`.
pub open spec fn pages_rise(out: Seq<QuranBookmark>) -> bool {
    forall|a: int, b: int| 0 <= a < b < out.len() ==> #[trigger] out[a].page < #[trigger] out[b].page
}

/// Some bookmark of `out` is on `page`.
pub open spec fn has_page(out: Seq<QuranBookmark>, page: u32) -> bool {
    exists|a: int| 0 <= a < out.len() && out[a].page == page
}

/// `x` is the first bookmark of `list` on its page.
pub open spec fn is_first_on_page(list: Seq<QuranBookmark>, x: QuranBookmark) -> bool {
    exists|i: int| first_with_page(list, i, x.page) && x == list[i]
}

/// `out` is `list` sorted by page with one bookmark per page: pages rise
/// strictly, every page of `list` occurs, and each kept bookmark is the
/// first one of `list` on its page (what a stable sort by page followed by
/// removing adjacent duplicates gives).
pub open spec fn is_page_normalised(out: Seq<QuranBookmark>, list: Seq<QuranBookmark>) -> bool {
    &&& pages_rise(out)
    &&& forall|k: int| 0 <= k < list.len() ==> #[trigger] has_page(out, list[k].page)
    &&& forall|a: int| 0 <= a < out.len() ==> #[trigger] is_first_on_page(list, out[a])
}

/// `out` normalises the first `k` bookmarks of `list`; `src[a]` is where
/// `out[a]` comes from in `list`, and `at[j]` is where the page of `list[j]`
/// is kept in `out`.
spec fn normalised_prefix(
    out: Seq<QuranBookmark>,
    list: Seq<QuranBookmark>,
    k: int,
    src: Seq<int>,
    at: Seq<int>,
) -> bool {
    &&& 0 <= k <= list.len()
    &&& pages_rise(out)
    &&& src.len() == out.len()
    &&& forall|a: int|
        #![trigger src[a]]
        0 <= a < out.len() ==> 0 <= src[a] < k && first_with_page(list, src[a], out[a].page) && out[a]
            == list[src[a]]
    &&& at.len() == k
    &&& forall|j: int| #![trigger at[j]] 0 <= j < k ==> 0 <= at[j] < out.len() && out[at[j]].page == list[j].page
}

/// A bookmark on a page that is already kept leaves the normalised form as it is.
proof fn lemma_prefix_keeps(
    out: Seq<QuranBookmark>,
    list: Seq<QuranBookmark>,
    k: int,
    src: Seq<int>,
    at: Seq<int>,
    pos: int,
)
    requires
        normalised_prefix(out, list, k, src, at),
        k < list.len(),
        0 <= pos < out.len(),
        out[pos].page == list[k].page,
    ensures
        normalised_prefix(out, list, k + 1, src, at.push(pos)),
{
    let at2 = at.push(pos);
    assert forall|j: int| #![trigger at2[j]] 0 <= j < k + 1 implies 0 <= at2[j] < out.len()
        && out[at2[j]].page == list[j].page by {
        if j < k {
            assert(at2[j] == at[j]);
        }
    }
}

/// Inserting a bookmark on a new page at its place keeps the form normalised.
proof fn lemma_prefix_inserts(
    out: Seq<QuranBookmark>,
    list: Seq<QuranBookmark>,
    k: int,
    src: Seq<int>,
    at: Seq<int>,
    pos: int,
)
    requires
        normalised_prefix(out, list, k, src, at),
        k < list.len(),
        0 <= pos <= out.len(),
        forall|a: int| 0 <= a < pos ==> #[trigger] out[a].page < list[k].page,
        pos < out.len() ==> out[pos].page > list[k].page,
    ensures
        normalised_prefix(
            out.insert(pos, list[k]),
            list,
            k + 1,
            src.insert(pos, k),
            at.map_values(|x: int| if x >= pos { x + 1 } else { x }).push(pos),
        ),
{
    let b = list[k];
    let out2 = out.insert(pos, b);
    let src2 = src.insert(pos, k);
    let at2 = at.map_values(|x: int| if x >= pos { x + 1 } else { x }).push(pos);
    assert forall|j: int| 0 <= j < k implies #[trigger] list[j].page != b.page by {
        let a = at[j];
        if a < pos {
            assert(out[a].page < b.page);
        } else {
            assert(out[pos].page > b.page);
            if a > pos {
                assert(out[pos].page < out[a].page);
            }
        }
    }
    assert(first_with_page(list, k, b.page));
    assert forall|x: int, y: int| 0 <= x < y < out2.len() implies #[trigger] out2[x].page
        < #[trigger] out2[y].page by {
        if y < pos {
            assert(out2[x] == out[x] && out2[y] == out[y]);
        } else if y == pos {
            assert(out2[x] == out[x]);
        } else if x > pos {
            assert(out2[x] == out[x - 1] && out2[y] == out[y - 1]);
        } else if x == pos {
            assert(out2[y] == out[y - 1]);
            if y - 1 > pos {
                assert(out[pos].page < out[y - 1].page);
            }
        } else {
            assert(out2[x] == out[x] && out2[y] == out[y - 1]);
        }
    }
    assert forall|a: int| #![trigger src2[a]] 0 <= a < out2.len() implies 0 <= src2[a] < k + 1
        && first_with_page(list, src2[a], out2[a].page) && out2[a] == list[src2[a]] by {
        if a < pos {
            assert(src2[a] == src[a] && out2[a] == out[a]);
        } else if a > pos {
            assert(src2[a] == src[a - 1] && out2[a] == out[a - 1]);
        }
    }
    assert forall|j: int| #![trigger at2[j]] 0 <= j < k + 1 implies 0 <= at2[j] < out2.len()
        && out2[at2[j]].page == list[j].page by {
        if j < k {
            let a = at[j];
            if a >= pos {
                assert(at2[j] == a + 1 && out2[a + 1] == out[a]);
            } else {
                assert(at2[j] == a && out2[a] == out[a]);
            }
        }
    }
}

/// The normalised form of the whole list is normalised.
proof fn lemma_prefix_complete(out: Seq<QuranBookmark>, list: Seq<QuranBookmark>, src: Seq<int>, at: Seq<int>)
    requires
        normalised_prefix(out, list, list.len() as int, src, at),
    ensures
        is_page_normalised(out, list),
{
    assert forall|k: int| 0 <= k < list.len() implies #[trigger] has_page(out, list[k].page) by {
        assert(out[at[k]].page == list[k].page);
    }
    assert forall|a: int| 0 <= a < out.len() implies #[trigger] is_first_on_page(list, out[a]) by {
        assert(first_with_page(list, src[a], out[a].page) && out[a] == list[src[a]]);
    }
}

/// Orders bookmarks by page and keeps the first bookmark of each page.
pub fn normalise_bookmarks(list: &Vec<QuranBookmark>) -> (out: Vec<QuranBookmark>)
    ensures
        is_page_normalised(out@, list@),
{
    let mut out: Vec<QuranBookmark> = Vec::new();
    let ghost mut src: Seq<int> = Seq::empty();
    let ghost mut at: Seq<int> = Seq::empty();
    let mut k: usize = 0;
    while k < list.len()
        invariant
            normalised_prefix(out@, list@, k as int, src, at),
        decreases list@.len() - k,
    {
        let b = list[k];
        let mut pos: usize = 0;
        while pos < out.len() && out[pos].page < b.page
            invariant
                pos <= out@.len(),
                forall|a: int| 0 <= a < pos ==> #[trigger] out@[a].page < b.page,
            decreases out@.len() - pos,
        {
            pos = pos + 1;
        }
        if pos < out.len() && out[pos].page == b.page {
            proof {
                lemma_prefix_keeps(out@, list@, k as int, src, at, pos as int);
                at = at.push(pos as int);
            }
        } else {
            proof {
                lemma_prefix_inserts(out@, list@, k as int, src, at, pos as int);
                src = src.insert(pos as int, k as int);
                at = at.map_values(|x: int| if x >= pos { x + 1 } else { x }).push(pos as int);
            }
            out.insert(pos, b);
        }
        k = k + 1;
    }
    proof {
        lemma_prefix_complete(out@, list@, src, at);
    }
    out
}

/// Whether stored settings predate the current schema. Migration leaves
/// them current, so a second migration reports no change and changes
/// nothing.
pub open spec fn needs_migration(d: MigratableConfig) -> bool {
    d.schema_version < CONFIG_SCHEMA_VERSION
}

/// Brings stored settings to the current schema and says whether anything
/// must be written back. Version 0 files get their favorites stored as
/// Arabic text rewritten into the ids of the Arabic collection `arabic`,
/// their single legacy bookmark (surah and page) added to the list as
/// verse 1, the list ordered by page with one bookmark per page, and the
/// legacy fields cleared. Current files are left untouched.
pub fn migrate(data: &mut MigratableConfig, arabic: &AdkarSet) -> (changed: bool)
    ensures
        changed == needs_migration(*old(data)),
        !changed ==> *final(data) == *old(data),
        !needs_migration(*final(data)),
        changed ==> {
            let legacy = match (old(data).quran_bookmark_surah_number, old(data).quran_bookmark_page) {
                (Some(surah), Some(page)) => old(data).quran_bookmarks@.push(
                    QuranBookmark { page: page, surah_number: surah, verse: 1 },
                ),
                _ => old(data).quran_bookmarks@,
            };
            let all = arabic.session(DikrCategory::Morning) + arabic.session(DikrCategory::Evening)
                + arabic.session(DikrCategory::Night);
            let favs = adkar::favorite_ids(old(data).favorites@);
            &&& final(data).schema_version == CONFIG_SCHEMA_VERSION
            &&& is_page_normalised(final(data).quran_bookmarks@, legacy)
            &&& final(data).quran_bookmark_surah_number is None
            &&& final(data).quran_bookmark_page is None
            &&& if adkar::any_expands(all, favs) {
                adkar::favorite_ids(final(data).favorites@) == adkar::expanded(all, favs)
            } else {
                final(data).favorites@ == old(data).favorites@
            }
        },
{
    if data.schema_version >= CONFIG_SCHEMA_VERSION {
        return false;
    }
    adkar::migrate_favorites(&mut data.favorites, arabic);
    let mut list = data.quran_bookmarks.clone();
    proof {
        assert(list@ == old(data).quran_bookmarks@);
    }
    match (data.quran_bookmark_surah_number, data.quran_bookmark_page) {
        (Some(surah_number), Some(page)) => {
            list.push(QuranBookmark { page, surah_number, verse: 1 });
        },
        _ => {},
    }
    data.quran_bookmarks = normalise_bookmarks(&list);
    data.quran_bookmark_surah_number = None;
    data.quran_bookmark_page = None;
    data.schema_version = CONFIG_SCHEMA_VERSION;
    true
}

/// The slugs held by a list of installed reciters.
pub open spec fn slugs(list: Seq<String>) -> Seq<Seq<char>> {
    list.map_values(|s: String| s@)
}

/// The slugs other than `slug`, in their order.
pub open spec fn slugs_without(list: Seq<Seq<char>>, slug: Seq<char>) -> Seq<Seq<char>>
    decreases list.len(),
{
    if list.len() == 0 {
        list
    } else if list.last() == slug {
        slugs_without(list.drop_last(), slug)
    } else {
        slugs_without(list.drop_last(), slug).push(list.last())
    }
}

/// Records a reciter as installed: the slug is appended unless the list
/// already holds it, in which case nothing changes.
pub fn add_installed_reciter(installed: &mut Vec<String>, slug: &str)
    ensures
        if slugs(old(installed)@).contains(slug@) {
            final(installed)@ == old(installed)@
        } else {
            slugs(final(installed)@) == slugs(old(installed)@).push(slug@)
        },
{
    let mut i: usize = 0;
    while i < installed.len()
        invariant
            i <= installed@.len(),
            forall|k: int| 0 <= k < i ==> #[trigger] installed@[k]@ != slug@,
        decreases installed@.len() - i,
    {
        if text::str_equal(installed[i].as_str(), slug) {
            proof {
                assert(slugs(installed@)[i as int] == slug@);
            }
            return;
        }
        i = i + 1;
    }
    proof {
        assert forall|k: int| 0 <= k < slugs(installed@).len() implies slugs(installed@)[k] != slug@ by {
            assert(installed@[k]@ != slug@);
        }
    }
    let ghost before = installed@;
    installed.push(text::to_owned_string(slug));
    proof {
        assert(slugs(installed@) =~= slugs(before).push(slug@));
    }
}

/// Forgets a reciter: every entry with that slug leaves the list, the
/// others keep their order.
pub fn remove_installed_reciter(installed: &mut Vec<String>, slug: &str)
    ensures
        slugs(final(installed)@) == slugs_without(slugs(old(installed)@), slug@),
{
    let ghost all = slugs(installed@);
    let mut kept: Vec<String> = Vec::new();
    let mut i: usize = 0;
    while i < installed.len()
        invariant
            all == slugs(installed@),
            i <= installed@.len(),
            slugs(kept@) == slugs_without(all.take(i as int), slug@),
        decreases installed@.len() - i,
    {
        let ghost before = kept@;
        proof {
            assert(all.take(i + 1).drop_last() =~= all.take(i as int));
            assert(all.take(i + 1).last() == installed@[i as int]@);
        }
        if !text::str_equal(installed[i].as_str(), slug) {
            kept.push(installed[i].clone());
            proof {
                assert(slugs(kept@) =~= slugs(before).push(installed@[i as int]@));
            }
        }
        i = i + 1;
    }
    proof {
        assert(all.take(installed@.len() as int) =~= all);
    }
    *installed = kept;
}

/// Removing a slug from a list that never held it changes nothing.
proof fn lemma_without_absent(list: Seq<Seq<char>>, slug: Seq<char>)
    requires
        !list.contains(slug),
    ensures
        slugs_without(list, slug) == list,
    decreases list.len(),
{
    if list.len() > 0 {
        assert(!list.drop_last().contains(slug)) by {
            if list.drop_last().contains(slug) {
                let k = choose|k: int| 0 <= k < list.drop_last().len() && list.drop_last()[k] == slug;
                assert(list[k] == slug);
            }
        }
        lemma_without_absent(list.drop_last(), slug);
        assert(list.last() != slug) by {
            assert(list[list.len() - 1] == list.last());
        }
        assert(list.drop_last().push(list.last()) =~= list);
    }
}

/// Installing a reciter that was not installed and then removing it gives
/// back the list as it was; after the removal the slug is nowhere in it.
pub proof fn lemma_install_then_remove_restores(list: Seq<Seq<char>>, slug: Seq<char>)
    requires
        !list.contains(slug),
    ensures
        slugs_without(list.push(slug), slug) == list,
        !slugs_without(list.push(slug), slug).contains(slug),
{
    lemma_without_absent(list, slug);
    assert(list.push(slug).drop_last() =~= list);
}

} // verus!
