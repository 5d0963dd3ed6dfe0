//! Quran reading (khatma) and memorisation (hifz) planners: how a page range
//! is spread over days, which day is due, and how unfinished pages are
//! rescheduled.
use vstd::prelude::*;
use crate::dates;
use crate::quran_index;
use crate::text;

verus! {

/// How the length of a plan is chosen.
#[derive(Debug, Clone, Copy, PartialEq, Eq, Structural)]
pub enum SetupMode {
    /// The number of days is given; the daily amount follows.
    ByTargetDate,
    /// The daily amount is given; the number of days follows.
    ByDailyAmount,
}

impl Default for SetupMode {
    fn default() -> (r: Self)
        ensures
            r == SetupMode::ByTargetDate,
    {
        SetupMode::ByTargetDate
    }
}

/// Unit of a daily reading amount.
#[derive(Debug, Clone, Copy, PartialEq, Eq, Structural)]
pub enum ReadingUnit {
    Pages,
    Hizb,
    Juz,
}

impl Default for ReadingUnit {
    fn default() -> (r: Self)
        ensures
            r == ReadingUnit::Pages,
    {
        ReadingUnit::Pages
    }
}

/// Amount of new memorisation per day.
#[derive(Debug, Clone, Copy, PartialEq, Eq, Structural)]
pub enum HifzUnit {
    /// A number of lines; a page has 15.
    Lines(u32),
    HalfPage,
    Page,
    /// A number of pages; zero counts as a tenth of a page.
    CustomPages(u32),
}

impl Default for HifzUnit {
    fn default() -> (r: Self)
        ensures
            r == HifzUnit::Page,
    {
        HifzUnit::Page
    }
}

/// What a memorisation plan covers.
#[derive(Debug, Clone, Copy, PartialEq, Eq, Structural)]
pub enum HifzGoalType {
    FullQuran,
    SelectedJuz(u32),
    SelectedJuzRange { start_juz: u32, end_juz: u32 },
    SelectedSurah(u32),
    SelectedSurahRange { start_surah: u32, end_surah: u32 },
    CustomPageRange { start_page: u32, end_page: u32 },
}

impl Default for HifzGoalType {
    fn default() -> (r: Self)
        ensures
            r == HifzGoalType::FullQuran,
    {
        HifzGoalType::FullQuran
    }
}

/// Progress of one day of a plan.
#[derive(Debug, Clone, Copy, PartialEq, Eq, Structural)]
pub enum DailyStatus {
    Pending,
    Completed,
    PartiallyCompleted { completed_pages: u32 },
    Skipped,
}

impl Default for DailyStatus {
    fn default() -> (r: Self)
        ensures
            r == DailyStatus::Pending,
    {
        DailyStatus::Pending
    }
}

/// One day of a reading plan.
#[derive(Debug, Clone, PartialEq, Eq)]
pub struct ReadingDailyRecord {
    pub day_index: u32,
    pub date: String,
    pub start_page: u32,
    pub end_page: u32,
    pub range_label: String,
    pub status: DailyStatus,
    pub completed_at: Option<String>,
}

/// A reading plan (khatma) with its day-by-day history.
#[derive(Debug, Clone, PartialEq, Eq)]
pub struct ReadingPlanData {
    pub id: String,
    pub title: String,
    pub setup_mode: SetupMode,
    pub unit: ReadingUnit,
    pub start_page: u32,
    pub end_page: u32,
    pub target_days: u32,
    pub daily_amount_target: u32,
    pub start_date: String,
    pub expected_end_date: String,
    pub is_active: bool,
    pub is_archived: bool,
    pub history: Vec<ReadingDailyRecord>,
}

/// One day of a memorisation plan: new pages (sabaq), recent review
/// (sabqi) and long-cycle review (manzil).
#[derive(Debug, Clone, PartialEq, Eq)]
pub struct HifzDailyRecord {
    pub day_index: u32,
    pub date: String,
    pub sabaq_start_page: u32,
    pub sabaq_end_page: u32,
    pub sabqi_start_page: u32,
    pub sabqi_end_page: u32,
    pub manzil_start_page: u32,
    pub manzil_end_page: u32,
    pub sabaq_status: DailyStatus,
    pub sabqi_status: DailyStatus,
    pub manzil_status: DailyStatus,
    pub quality_rating: Option<String>,
    pub mistakes_count: Option<u32>,
}

/// A memorisation plan with its day-by-day history.
#[derive(Debug, Clone, PartialEq, Eq)]
pub struct HifzPlanData {
    pub id: String,
    pub title: String,
    pub goal_type: HifzGoalType,
    pub setup_mode: SetupMode,
    pub start_page: u32,
    pub end_page: u32,
    pub sabaq_unit: HifzUnit,
    pub sabqi_window_days: u32,
    pub manzil_cycle_days: u32,
    pub target_days: u32,
    pub start_date: String,
    pub expected_end_date: String,
    pub is_active: bool,
    pub is_archived: bool,
    pub history: Vec<HifzDailyRecord>,
}

/// Where plans are kept between runs.
pub trait PlanStore {
    fn load_reading_plans(&self) -> Vec<ReadingPlanData>;

    fn save_reading_plans(&self, plans: &[ReadingPlanData]);

    fn load_hifz_plans(&self) -> Vec<HifzPlanData>;

    fn save_hifz_plans(&self, plans: &[HifzPlanData]);
}

// ── Reading workload ──────────────────────────────────────────────────────
/// Number of pages from `start` to `end`; a reversed range counts as one page.
pub open spec fn page_span(start: int, end: int) -> int {
    if end >= start {
        end - start + 1
    } else {
        1
    }
}

/// `a / b` rounded up.
pub open spec fn ceil_div(a: int, b: int) -> int {
    (a + b - 1) / b
}

pub open spec fn max_int(a: int, b: int) -> int {
    if a >= b {
        a
    } else {
        b
    }
}

pub open spec fn min_int(a: int, b: int) -> int {
    if a <= b {
        a
    } else {
        b
    }
}

/// Pages counted for one unit of a daily reading amount.
pub open spec fn unit_pages(unit: ReadingUnit) -> int {
    match unit {
        ReadingUnit::Pages => 1,
        ReadingUnit::Hizb => 10,
        ReadingUnit::Juz => 20,
    }
}

/// Pages read per day under a daily amount (at least one).
pub open spec fn daily_amount_pages(daily_amount: int, unit: ReadingUnit) -> int {
    max_int(daily_amount * unit_pages(unit), 1)
}

/// Number of days the reading plan is laid out over.
pub open spec fn reading_days(
    start: int,
    end: int,
    setup_mode: SetupMode,
    target_days: int,
    daily_amount: int,
    unit: ReadingUnit,
) -> int {
    match setup_mode {
        SetupMode::ByTargetDate => max_int(target_days, 1),
        SetupMode::ByDailyAmount => max_int(
            ceil_div(page_span(start, end), daily_amount_pages(daily_amount, unit)),
            1,
        ),
    }
}

/// The daily page figure the plan reports.
pub open spec fn reading_pages_per_day(
    start: int,
    end: int,
    setup_mode: SetupMode,
    target_days: int,
    daily_amount: int,
    unit: ReadingUnit,
) -> int {
    match setup_mode {
        SetupMode::ByTargetDate => ceil_div(page_span(start, end), max_int(target_days, 1)),
        SetupMode::ByDailyAmount => daily_amount_pages(daily_amount, unit),
    }
}

/// Pages given to day `d` when `span` pages are spread over `days` days:
/// every day gets `span / days`, the first `span % days` days one more.
pub open spec fn reading_day_pages(span: int, days: int, d: int) -> int {
    span / days + if d < span % days {
        1int
    } else {
        0int
    }
}

/// First page of day `d`.
pub open spec fn reading_day_first(start: int, span: int, days: int, d: int) -> int {
    start + d * (span / days) + min_int(d, span % days)
}

/// Last page of day `d`.
pub open spec fn reading_day_last(start: int, end: int, span: int, days: int, d: int) -> int {
    min_int(reading_day_first(start, span, days, d) + reading_day_pages(span, days, d) - 1, end)
}

/// Number of days that receive pages.
pub open spec fn reading_record_count(span: int, days: int) -> int {
    if span / days == 0 {
        span % days
    } else {
        days
    }
}

/// The label of a page range, "first–last".
pub open spec fn range_label_text(first: int, last: int) -> Seq<char> {
    text::decimal_text(first as nat) + seq!['–'] + text::decimal_text(last as nat)
}

/// Record `r` is day `d` of the reading plan described by the arguments.
pub open spec fn is_reading_record(
    r: ReadingDailyRecord,
    start: int,
    end: int,
    span: int,
    days: int,
    start_day: int,
    d: int,
) -> bool {
    &&& r.day_index == d + 1
    &&& r.start_page == reading_day_first(start, span, days, d)
    &&& r.end_page == reading_day_last(start, end, span, days, d)
    &&& r.range_label@ == range_label_text(r.start_page as int, r.end_page as int)
    &&& r.status == DailyStatus::Pending
    &&& r.completed_at is None
    &&& r.date@ == dates::iso_date_text(start_day + d)
}

proof fn lemma_mul_step(d: int, b: int)
    ensures
        (d + 1) * b == d * b + b,
{
    assert((d + 1) * b == d * b + b) by (nonlinear_arith);
}

proof fn lemma_mul_le(a: int, c: int, b: int)
    requires
        0 <= a <= c,
        0 <= b,
    ensures
        a * b <= c * b,
{
    assert(a * b <= c * b) by (nonlinear_arith)
        requires
            0 <= a <= c,
            0 <= b,
    ;
}

proof fn lemma_div_mod(span: int, days: int)
    requires
        days > 0,
        span >= 0,
    ensures
        days * (span / days) + span % days == span,
        0 <= span % days < days,
        span / days >= 0,
        span / days <= span,
{
    vstd::arithmetic::div_mod::lemma_fundamental_div_mod(span, days);
    vstd::arithmetic::div_mod::lemma_mod_bound(span, days);
    vstd::arithmetic::div_mod::lemma_div_pos_is_pos(span, days);
    vstd::arithmetic::div_mod::lemma_div_is_ordered_by_denominator(span, 1, days);
}

/// A rounded-up quotient of a positive number never exceeds it.
proof fn lemma_ceil_div_le(t: int, d: int)
    requires
        t >= 1,
        d >= 1,
    ensures
        1 <= ceil_div(t, d) <= t,
{
    assert(t + d - 1 <= t * d) by (nonlinear_arith)
        requires
            t >= 1,
            d >= 1,
    ;
    vstd::arithmetic::div_mod::lemma_div_is_ordered(t + d - 1, t * d, d);
    vstd::arithmetic::div_mod::lemma_div_multiples_vanish(t, d);
    vstd::arithmetic::mul::lemma_mul_is_commutative(t, d);
    vstd::arithmetic::div_mod::lemma_div_is_ordered(d, t + d - 1, d);
    vstd::arithmetic::div_mod::lemma_div_by_self(d);
}

/// Day `d` ends where day `d + 1` begins, and no day reaches past the span.
proof fn lemma_reading_day_step(span: int, days: int, d: int)
    requires
        days >= 1,
        span >= 1,
        0 <= d < days,
        days * (span / days) + span % days == span,
        0 <= span % days < days,
        span / days >= 0,
    ensures
        d * (span / days) + min_int(d, span % days) + reading_day_pages(span, days, d) == (d + 1)
            * (span / days) + min_int(d + 1, span % days),
        (d + 1) * (span / days) + min_int(d + 1, span % days) <= span,
        (d + 1 < days && span / days > 0) ==> (d + 1) * (span / days) + min_int(
            d + 1,
            span % days,
        ) < span,
        span % days > 0 ==> span / days < span,
{
    let b = span / days;
    lemma_mul_step(d, b);
    lemma_mul_le(d + 1, days, b);
    if d + 1 < days {
        lemma_mul_le(d + 1, days - 1, b);
        lemma_mul_step(days - 1, b);
    }
    lemma_mul_le(1, days, b);
}

/// Appends "first–last" to `s`.
fn push_range_label(s: &mut String, first: u32, last: u32)
    ensures
        final(s)@ == old(s)@ + range_label_text(first as int, last as int),
{
    text::push_decimal(s, first as u64);
    text::push_char(s, '–');
    text::push_decimal(s, last as u64);
    proof {
        assert(final(s)@ =~= old(s)@ + range_label_text(first as int, last as int));
    }
}

/// Spreads the pages `start_page..=end_page` over days starting on day
/// number `start_date`. Returns the number of days, the daily page figure,
/// the day number of the last day and the daily records.
pub fn calculate_reading_workload(
    start_page: u32,
    end_page: u32,
    setup_mode: &SetupMode,
    target_days: u32,
    daily_amount: u32,
    unit: &ReadingUnit,
    start_date: i32,
) -> (r: (u32, u32, i32, Vec<ReadingDailyRecord>))
    requires
        end_page < u32::MAX,
        *setup_mode == SetupMode::ByDailyAmount ==> daily_amount * unit_pages(*unit) <= u32::MAX,
        dates::valid_day_number(start_date as int),
        dates::valid_day_number(
            start_date + reading_record_count(
                page_span(start_page as int, end_page as int),
                reading_days(
                    start_page as int,
                    end_page as int,
                    *setup_mode,
                    target_days as int,
                    daily_amount as int,
                    *unit,
                ),
            ) - 1,
        ),
    ensures
        ({
            let span = page_span(start_page as int, end_page as int);
            let days = reading_days(
                start_page as int,
                end_page as int,
                *setup_mode,
                target_days as int,
                daily_amount as int,
                *unit,
            );
            &&& r.3@.len() == reading_record_count(span, days)
            &&& r.0 == r.3@.len()
            &&& r.1 == reading_pages_per_day(
                start_page as int,
                end_page as int,
                *setup_mode,
                target_days as int,
                daily_amount as int,
                *unit,
            )
            &&& r.2 == start_date + r.3@.len() - 1
            &&& forall|d: int|
                0 <= d < r.3@.len() ==> is_reading_record(
                    #[trigger] r.3@[d],
                    start_page as int,
                    end_page as int,
                    span,
                    days,
                    start_date as int,
                    d,
                )
        }),
{
    let total_pages: u32 = if end_page >= start_page {
        end_page - start_page + 1
    } else {
        1
    };
    let (effective_days, effective_daily_pages): (u32, u32) = match setup_mode {
        SetupMode::ByTargetDate => {
            let days: u32 = if target_days >= 1 {
                target_days
            } else {
                1
            };
            let q: u64 = (total_pages as u64 + days as u64 - 1) / days as u64;
            proof {
                lemma_ceil_div_le(total_pages as int, days as int);
            }
            let per_day = q as u32;
            (days, per_day)
        },
        SetupMode::ByDailyAmount => {
            let multiplier: u32 = match unit {
                ReadingUnit::Pages => 1,
                ReadingUnit::Hizb => 10,
                ReadingUnit::Juz => 20,
            };
            let product: u32 = daily_amount * multiplier;
            let per_day: u32 = if product >= 1 {
                product
            } else {
                1
            };
            let q: u64 = (total_pages as u64 + per_day as u64 - 1) / per_day as u64;
            proof {
                lemma_ceil_div_le(total_pages as int, per_day as int);
            }
            let raw_days = q as u32;
            (if raw_days >= 1 {
                raw_days
            } else {
                1
            }, per_day)
        },
    };
    let ghost span = total_pages as int;
    let ghost days = effective_days as int;
    let ghost count = reading_record_count(span, days);
    proof {
        lemma_div_mod(span, days);
        assert(span == page_span(start_page as int, end_page as int));
        assert(days == reading_days(
            start_page as int,
            end_page as int,
            *setup_mode,
            target_days as int,
            daily_amount as int,
            *unit,
        ));
        assert(effective_daily_pages == reading_pages_per_day(
            start_page as int,
            end_page as int,
            *setup_mode,
            target_days as int,
            daily_amount as int,
            *unit,
        ));
    }
    let base: u32 = total_pages / effective_days;
    let remainder: u32 = total_pages % effective_days;
    let mut history: Vec<ReadingDailyRecord> = Vec::new();
    let mut current_page: u32 = start_page;
    let mut day: u32 = 0;
    while day < effective_days
        invariant_except_break
            day <= count,
            current_page == reading_day_first(start_page as int, span, days, day as int),
            end_page < start_page ==> (day == 0 && current_page == start_page),
            end_page >= start_page ==> (day < count ==> current_page <= end_page),
        invariant
            end_page < u32::MAX,
            span == page_span(start_page as int, end_page as int),
            days == effective_days,
            days >= 1,
            count == reading_record_count(span, days),
            base == span / days,
            remainder == span % days,
            days * base + remainder == span,
            remainder < days,
            day <= days,
            history@.len() == day,
            dates::valid_day_number(start_date as int),
            dates::valid_day_number(start_date + count - 1),
            forall|d: int|
                0 <= d < day ==> is_reading_record(
                    #[trigger] history@[d],
                    start_page as int,
                    end_page as int,
                    span,
                    days,
                    start_date as int,
                    d,
                ),
        ensures
            history@.len() == count,
            forall|d: int|
                0 <= d < count ==> is_reading_record(
                    #[trigger] history@[d],
                    start_page as int,
                    end_page as int,
                    span,
                    days,
                    start_date as int,
                    d,
                ),
        decreases days - day,
    {
        proof {
            lemma_reading_day_step(span, days, day as int);
        }
        let pages_today: u32 = base + if day < remainder {
            1
        } else {
            0
        };
        if pages_today == 0 {
            break;
        }
        proof {
            assert(day < count);
            assert(current_page + pages_today - 1 <= start_page + span - 1);
            assert(start_page + span - 1 <= u32::MAX);
        }
        let day_start = current_page;
        let tentative: u32 = current_page + (pages_today - 1);
        let day_end: u32 = if tentative < end_page {
            tentative
        } else {
            end_page
        };
        let date_str = dates::iso_date_string(start_date + day as i32);
        let mut label = String::new();
        push_range_label(&mut label, day_start, day_end);
        proof {
            assert(label@ =~= range_label_text(day_start as int, day_end as int));
        }
        let record = ReadingDailyRecord {
            day_index: day + 1,
            date: date_str,
            start_page: day_start,
            end_page: day_end,
            range_label: label,
            status: DailyStatus::Pending,
            completed_at: None,
        };
        history.push(record);
        current_page = day_end + 1;
        day = day + 1;
        if current_page > end_page {
            proof {
                if end_page >= start_page {
                    assert(current_page == start_page + (day as int) * (span / days) + min_int(
                        day as int,
                        span % days,
                    ));
                    if span / days == 0 {
                        assert(day as int == span % days);
                    } else {
                        assert(day as int == days);
                    }
                }
                assert(day as int == count);
            }
            break;
        }
    }
    let count_now = history.len() as u32;
    let end_date: i32 = start_date + count_now as i32 - 1;
    (count_now, effective_daily_pages, end_date, history)
}

} // verus!

verus! {

// ── Memorisation scope and workload ───────────────────────────────────────
/// `x` clamped into `lo..=hi` (`lo <= hi`).
pub open spec fn clamp_int(x: int, lo: int, hi: int) -> int {
    if x < lo {
        lo
    } else if x > hi {
        hi
    } else {
        x
    }
}

fn clamp_u32(x: u32, lo: u32, hi: u32) -> (r: u32)
    requires
        lo <= hi,
    ensures
        r == clamp_int(x as int, lo as int, hi as int),
{
    if x < lo {
        lo
    } else if x > hi {
        hi
    } else {
        x
    }
}

/// Last page of the surah range ending with surah `e` (1..=114) and starting
/// on page `first`.
pub open spec fn surah_range_last(first: int, e: int) -> int {
    clamp_int(if e < 114 { quran_index::surah_start(e + 1) - 1 } else { 604 }, first, 604)
}

/// The page range a memorisation goal covers. Juz numbers are clamped to
/// 1..=30, surah numbers to 1..=114 and pages to 1..=604; a reversed range
/// collapses onto its first element.
pub open spec fn hifz_goal_scope(goal: HifzGoalType) -> (int, int) {
    match goal {
        HifzGoalType::FullQuran => (1, 604),
        HifzGoalType::SelectedJuz(juz) => quran_index::juz_page_range(juz as int),
        HifzGoalType::SelectedJuzRange { start_juz, end_juz } => {
            let sj = clamp_int(start_juz as int, 1, 30);
            let ej = clamp_int(end_juz as int, sj, 30);
            (quran_index::juz_page_range(sj).0, quran_index::juz_page_range(ej).1)
        },
        HifzGoalType::SelectedSurah(surah) => {
            let s = clamp_int(surah as int, 1, 114);
            (quran_index::surah_start(s), surah_range_last(quran_index::surah_start(s), s))
        },
        HifzGoalType::SelectedSurahRange { start_surah, end_surah } => {
            let s = clamp_int(start_surah as int, 1, 114);
            let e = clamp_int(end_surah as int, s, 114);
            (quran_index::surah_start(s), surah_range_last(quran_index::surah_start(s), e))
        },
        HifzGoalType::CustomPageRange { start_page, end_page } => {
            let s = clamp_int(start_page as int, 1, 604);
            (s, clamp_int(end_page as int, s, 604))
        },
    }
}

fn surah_last_page(first: u32, e: u32) -> (r: u32)
    requires
        1 <= e <= 114,
        first <= 604,
    ensures
        r == surah_range_last(first as int, e as int),
{
    let raw: u32 = if e < 114 {
        match quran_index::get_surah_start_page(e + 1) {
            Some(p) => p - 1,
            None => 604,
        }
    } else {
        604
    };
    clamp_u32(raw, first, 604)
}

/// The first and last page a memorisation goal covers.
pub fn map_hifz_goal_scope(goal: &HifzGoalType) -> (r: (u32, u32))
    ensures
        r.0 == hifz_goal_scope(*goal).0,
        r.1 == hifz_goal_scope(*goal).1,
        1 <= r.0 <= r.1 <= 604,
{
    match goal {
        HifzGoalType::FullQuran => (1, 604),
        HifzGoalType::SelectedJuz(juz) => quran_index::get_juz_page_range(*juz),
        HifzGoalType::SelectedJuzRange { start_juz, end_juz } => {
            let sj = clamp_u32(*start_juz, 1, 30);
            let ej = clamp_u32(*end_juz, sj, 30);
            let (s, _) = quran_index::get_juz_page_range(sj);
            let (_, e) = quran_index::get_juz_page_range(ej);
            (s, e)
        },
        HifzGoalType::SelectedSurah(surah) => {
            let s = clamp_u32(*surah, 1, 114);
            proof {
                quran_index::lemma_surah_start_bounds(s as int);
            }
            let start_page = match quran_index::get_surah_start_page(s) {
                Some(p) => p,
                None => 1,
            };
            (start_page, surah_last_page(start_page, s))
        },
        HifzGoalType::SelectedSurahRange { start_surah, end_surah } => {
            let s = clamp_u32(*start_surah, 1, 114);
            let e = clamp_u32(*end_surah, s, 114);
            proof {
                quran_index::lemma_surah_start_bounds(s as int);
            }
            let start_page = match quran_index::get_surah_start_page(s) {
                Some(p) => p,
                None => 1,
            };
            (start_page, surah_last_page(start_page, e))
        },
        HifzGoalType::CustomPageRange { start_page, end_page } => {
            let s = clamp_u32(*start_page, 1, 604);
            let e = clamp_u32(*end_page, s, 604);
            (s, e)
        },
    }
}

} // verus!

verus! {

/// Daily new memorisation in thirtieths of a page: a line is 2/30 (15 lines
/// to a page), half a page 15/30, a custom amount of zero pages 3/30.
pub open spec fn hifz_unit_thirtieths(unit: HifzUnit) -> int {
    match unit {
        HifzUnit::Lines(n) => 2 * n,
        HifzUnit::HalfPage => 15,
        HifzUnit::Page => 30,
        HifzUnit::CustomPages(p) => if p == 0 {
            3
        } else {
            30 * p
        },
    }
}

/// Daily new memorisation of a unit, in thirtieths of a page.
pub fn hifz_unit_to_thirtieths(unit: &HifzUnit) -> (q: u64)
    ensures
        q == hifz_unit_thirtieths(*unit),
{
    match unit {
        HifzUnit::Lines(n) => 2 * (*n as u64),
        HifzUnit::HalfPage => 15,
        HifzUnit::Page => 30,
        HifzUnit::CustomPages(p) => if *p == 0 {
            3
        } else {
            30 * (*p as u64)
        },
    }
}

/// Number of days a memorisation plan is laid out over, for the scope
/// `first..=last` and a daily amount of `q` thirtieths.
pub open spec fn hifz_days(first: int, last: int, setup_mode: SetupMode, target_days: int, q: int) -> int {
    match setup_mode {
        SetupMode::ByTargetDate => max_int(target_days, 1),
        SetupMode::ByDailyAmount => max_int(ceil_div(30 * (last - first + 1), q), 1),
    }
}

/// Number of days that get a record: days run until the memorised amount
/// reaches the last page, or until the plan's days run out.
pub open spec fn hifz_record_count(first: int, last: int, days: int, q: int) -> int {
    if q == 0 {
        if first == last {
            1
        } else {
            days
        }
    } else {
        min_int(days, max_int(ceil_div(30 * (last - first), q), 1))
    }
}

/// The six page bounds of day `d` (sabaq, sabqi, manzil; first and last
/// each), before clamping into the scope. `m` is what was memorised before
/// the day, in thirtieths.
pub open spec fn hifz_day_raw(first: int, last: int, q: int, window: int, cycle: int, m: int) -> (
    int,
    int,
    int,
    int,
    int,
    int,
) {
    let sabaq_first = first + m / 30;
    let sabaq_last = min_int(sabaq_first + max_int(q - 30, 0) / 30, last);
    let after = m + q;
    let review = min_int(q * window, after);
    let sabqi_last = max_int(sabaq_first - 1, 0);
    let sabqi_first = max_int(30 * sabqi_last + 30 - review, 30 * first) / 30;
    let older = after - review;
    let manzil_last = min_int(first - 1 + max_int(older / (30 * max_int(cycle, 1)), 1), sabqi_first);
    (sabaq_first, sabaq_last, sabqi_first, sabqi_last, first, manzil_last)
}

/// Record `r` is day `d` of the memorisation plan over `first..=last`.
pub open spec fn is_hifz_record(
    r: HifzDailyRecord,
    first: int,
    last: int,
    q: int,
    window: int,
    cycle: int,
    start_day: int,
    d: int,
) -> bool {
    let raw = hifz_day_raw(first, last, q, window, cycle, d * q);
    &&& r.day_index == d + 1
    &&& r.date@ == dates::iso_date_text(start_day + d)
    &&& r.sabaq_start_page == clamp_int(raw.0, first, last)
    &&& r.sabaq_end_page == clamp_int(raw.1, first, last)
    &&& r.sabqi_start_page == clamp_int(raw.2, first, last)
    &&& r.sabqi_end_page == clamp_int(raw.3, first, last)
    &&& r.manzil_start_page == clamp_int(raw.4, first, last)
    &&& r.manzil_end_page == clamp_int(raw.5, first, last)
    &&& r.sabaq_status == DailyStatus::Pending
    &&& r.sabqi_status == DailyStatus::Pending
    &&& r.manzil_status == DailyStatus::Pending
    &&& r.quality_rating is None
    &&& r.mistakes_count is None
}

/// `n * q` reaches `x` exactly from `n == ceil_div(x, q)` on.
proof fn lemma_ceil_div_threshold(x: int, q: int, n: int)
    requires
        x >= 0,
        q >= 1,
        n >= 0,
    ensures
        n * q >= x <==> n >= ceil_div(x, q),
{
    let c = ceil_div(x, q);
    vstd::arithmetic::div_mod::lemma_fundamental_div_mod(x + q - 1, q);
    vstd::arithmetic::div_mod::lemma_mod_bound(x + q - 1, q);
    if n >= c {
        lemma_mul_le(c, n, q);
        vstd::arithmetic::mul::lemma_mul_is_commutative(c, q);
    } else {
        lemma_mul_le(n, c - 1, q);
        vstd::arithmetic::mul::lemma_mul_is_commutative(c, q);
        lemma_mul_step(c - 1, q);
    }
}

fn min_u64(a: u64, b: u64) -> (r: u64)
    ensures
        r == min_int(a as int, b as int),
{
    if a <= b {
        a
    } else {
        b
    }
}

fn clamp_u64(x: u64, lo: u64, hi: u64) -> (r: u64)
    requires
        lo <= hi,
    ensures
        r == clamp_int(x as int, lo as int, hi as int),
{
    if x < lo {
        lo
    } else if x > hi {
        hi
    } else {
        x
    }
}

/// Day `day` of a memorisation plan over `first_page..=last_page`, given the
/// amount `memorized` (thirtieths) learnt before it.
fn hifz_day_record(
    first_page: u32,
    last_page: u32,
    q: u64,
    sabqi_window: u32,
    manzil_cycle: u32,
    memorized: u64,
    day: u32,
    date: String,
    Ghost(start_day): Ghost<int>,
) -> (record: HifzDailyRecord)
    requires
        1 <= first_page <= last_page <= 604,
        q <= 30 * (u32::MAX as int),
        memorized == day * q,
        day < u32::MAX,
        day == 0 || 30 * first_page + memorized < 30 * last_page,
        date@ == dates::iso_date_text(start_day + day),
    ensures
        is_hifz_record(
            record,
            first_page as int,
            last_page as int,
            q as int,
            sabqi_window as int,
            manzil_cycle as int,
            start_day,
            day as int,
        ),
{
    let ghost first = first_page as int;
    let ghost last = last_page as int;
    let cycle: u64 = if manzil_cycle >= 1 {
        manzil_cycle as u64
    } else {
        1
    };
    proof {
        if day == 0 {
            assert(memorized == 0);
        }
    }
    let sabaq_start: u64 = first_page as u64 + memorized / 30;
    let grow: u64 = if q > 30 {
        (q - 30) / 30
    } else {
        0
    };
    let sabaq_end: u64 = min_u64(sabaq_start + grow, last_page as u64);
    let after: u64 = memorized + q;
    proof {
        assert(q * sabqi_window <= 30 * (u32::MAX as int) * (u32::MAX as int))
            by (nonlinear_arith)
            requires
                q <= 30 * (u32::MAX as int),
                sabqi_window <= u32::MAX,
        ;
    }
    let review_cap: u128 = q as u128 * sabqi_window as u128;
    let review: u64 = if review_cap < after as u128 {
        review_cap as u64
    } else {
        after
    };
    let sabqi_end: u64 = if sabaq_start >= 1 {
        sabaq_start - 1
    } else {
        0
    };
    let back: u64 = 30 * sabqi_end + 30;
    let sabqi_start: u64 = if back >= review + (30 * first_page as u64) {
        (back - review) / 30
    } else {
        (30 * first_page as u64) / 30
    };
    let older: u64 = after - review;
    let manzil_days: u64 = older / (30 * cycle);
    let manzil_span: u64 = if manzil_days >= 1 {
        manzil_days
    } else {
        1
    };
    let manzil_end: u64 = min_u64(first_page as u64 - 1 + manzil_span, sabqi_start);
    let ghost raw = hifz_day_raw(
        first,
        last,
        q as int,
        sabqi_window as int,
        manzil_cycle as int,
        memorized as int,
    );
    proof {
        assert(sabaq_start == raw.0);
        assert(sabaq_end == raw.1);
        assert(review == min_int(q * sabqi_window, after as int));
        assert(sabqi_end == raw.3);
        assert(sabqi_start == raw.2);
        assert(manzil_end == raw.5);
    }
    let lo: u64 = first_page as u64;
    let hi: u64 = last_page as u64;
    let record = HifzDailyRecord {
        day_index: day + 1,
        date: date,
        sabaq_start_page: clamp_u64(sabaq_start, lo, hi) as u32,
        sabaq_end_page: clamp_u64(sabaq_end, lo, hi) as u32,
        sabqi_start_page: clamp_u64(sabqi_start, lo, hi) as u32,
        sabqi_end_page: clamp_u64(sabqi_end, lo, hi) as u32,
        manzil_start_page: clamp_u64(lo, lo, hi) as u32,
        manzil_end_page: clamp_u64(manzil_end, lo, hi) as u32,
        sabaq_status: DailyStatus::Pending,
        sabqi_status: DailyStatus::Pending,
        manzil_status: DailyStatus::Pending,
        quality_rating: None,
        mistakes_count: None,
    };
    record
}

/// Lays out a memorisation plan: the goal's page range is memorised a fixed
/// amount per day (sabaq), the last `sabqi_window` days of it are reviewed
/// (sabqi), and older material is cycled through in `manzil_cycle` days
/// (manzil). Returns the number of days, the day number of the last day and
/// the daily records.
pub fn calculate_hifz_workload(
    goal: &HifzGoalType,
    setup_mode: &SetupMode,
    target_days: u32,
    sabaq_unit: &HifzUnit,
    sabqi_window: u32,
    manzil_cycle: u32,
    start_date: i32,
) -> (r: (u32, i32, Vec<HifzDailyRecord>))
    requires
        *setup_mode == SetupMode::ByDailyAmount ==> hifz_unit_thirtieths(*sabaq_unit) > 0,
        dates::valid_day_number(start_date as int),
        dates::valid_day_number(
            start_date + hifz_record_count(
                hifz_goal_scope(*goal).0,
                hifz_goal_scope(*goal).1,
                hifz_days(
                    hifz_goal_scope(*goal).0,
                    hifz_goal_scope(*goal).1,
                    *setup_mode,
                    target_days as int,
                    hifz_unit_thirtieths(*sabaq_unit),
                ),
                hifz_unit_thirtieths(*sabaq_unit),
            ) - 1,
        ),
    ensures
        ({
            let first = hifz_goal_scope(*goal).0;
            let last = hifz_goal_scope(*goal).1;
            let q = hifz_unit_thirtieths(*sabaq_unit);
            let days = hifz_days(first, last, *setup_mode, target_days as int, q);
            &&& r.2@.len() == hifz_record_count(first, last, days, q)
            &&& r.0 == r.2@.len()
            &&& r.1 == start_date + r.2@.len() - 1
            &&& forall|d: int|
                0 <= d < r.2@.len() ==> is_hifz_record(
                    #[trigger] r.2@[d],
                    first,
                    last,
                    q,
                    sabqi_window as int,
                    manzil_cycle as int,
                    start_date as int,
                    d,
                )
        }),
{
    let (start_page, end_page) = map_hifz_goal_scope(goal);
    let q: u64 = hifz_unit_to_thirtieths(sabaq_unit);
    let first30: u64 = 30 * start_page as u64;
    let last30: u64 = 30 * end_page as u64;
    let total30: u64 = 30 * ((end_page - start_page) as u64 + 1);
    let effective_days: u32 = match setup_mode {
        SetupMode::ByTargetDate => if target_days >= 1 {
            target_days
        } else {
            1
        },
        SetupMode::ByDailyAmount => {
            let raw: u64 = (total30 + q - 1) / q;
            proof {
                lemma_ceil_div_le(total30 as int, q as int);
            }
            if raw >= 1 {
                raw as u32
            } else {
                1
            }
        },
    };
    let ghost first = start_page as int;
    let ghost last = end_page as int;
    let ghost days = effective_days as int;
    let ghost count = hifz_record_count(first, last, days, q as int);
    proof {
        assert(days == hifz_days(first, last, *setup_mode, target_days as int, q as int));
        if q > 0 {
            lemma_ceil_div_le(30 * (last - first) + 1, q as int);
        }
    }
    let mut history: Vec<HifzDailyRecord> = Vec::new();
    let mut memorized: u64 = 0;
    let mut day: u32 = 0;
    while day < effective_days
        invariant_except_break
            day < count || (day == count && count == days),
            day > 0 ==> first30 + memorized < last30,
        invariant
            1 <= first <= last <= 604,
            start_page == first,
            end_page == last,
            first30 == 30 * first,
            last30 == 30 * last,
            q == hifz_unit_thirtieths(*sabaq_unit),
            days == effective_days,
            days >= 1,
            count == hifz_record_count(first, last, days, q as int),
            count >= 1,
            count <= days,
            day <= days,
            memorized == day * q,
            q <= 30 * (u32::MAX as int),
            history@.len() == day,
            dates::valid_day_number(start_date as int),
            dates::valid_day_number(start_date + count - 1),
            forall|d: int|
                0 <= d < day ==> is_hifz_record(
                    #[trigger] history@[d],
                    first,
                    last,
                    q as int,
                    sabqi_window as int,
                    manzil_cycle as int,
                    start_date as int,
                    d,
                ),
        ensures
            history@.len() == count,
            forall|d: int|
                0 <= d < count ==> is_hifz_record(
                    #[trigger] history@[d],
                    first,
                    last,
                    q as int,
                    sabqi_window as int,
                    manzil_cycle as int,
                    start_date as int,
                    d,
                ),
        decreases days - day,
    {
        proof {
            if q > 0 && day > 0 {
                lemma_ceil_div_threshold(30 * (last - first), q as int, day as int);
            }
        }
        let date_str = dates::iso_date_string(start_date + day as i32);
        let record = hifz_day_record(
            start_page,
            end_page,
            q,
            sabqi_window,
            manzil_cycle,
            memorized,
            day,
            date_str,
            Ghost(start_date as int),
        );
        history.push(record);
        proof {
            lemma_mul_step(day as int, q as int);
        }
        memorized = memorized + q;
        day = day + 1;
        if first30 + memorized >= last30 {
            proof {
                if q > 0 {
                    lemma_ceil_div_threshold(30 * (last - first), q as int, day as int);
                    if day > 1 {
                        lemma_ceil_div_threshold(30 * (last - first), q as int, day - 1);
                    }
                }
                assert(day as int == count);
            }
            break;
        }
        proof {
            if q > 0 {
                lemma_ceil_div_threshold(30 * (last - first), q as int, day as int);
            }
        }
    }
    let n = history.len() as u32;
    (n, start_date + n as i32 - 1, history)
}

} // verus!

verus! {

// ── Due day ───────────────────────────────────────────────────────────────
/// A copy of `r` (with the std `Clone` impls the result is not known to be
/// equal; this one is).
pub fn copy_reading_record(r: &ReadingDailyRecord) -> (c: ReadingDailyRecord)
    ensures
        c == *r,
{
    ReadingDailyRecord {
        day_index: r.day_index,
        date: r.date.clone(),
        start_page: r.start_page,
        end_page: r.end_page,
        range_label: r.range_label.clone(),
        status: r.status,
        completed_at: match &r.completed_at {
            Some(s) => Some(s.clone()),
            None => None,
        },
    }
}

/// A copy of `r`, known to be equal to it.
pub fn copy_hifz_record(r: &HifzDailyRecord) -> (c: HifzDailyRecord)
    ensures
        c == *r,
{
    HifzDailyRecord {
        day_index: r.day_index,
        date: r.date.clone(),
        sabaq_start_page: r.sabaq_start_page,
        sabaq_end_page: r.sabaq_end_page,
        sabqi_start_page: r.sabqi_start_page,
        sabqi_end_page: r.sabqi_end_page,
        manzil_start_page: r.manzil_start_page,
        manzil_end_page: r.manzil_end_page,
        sabaq_status: r.sabaq_status,
        sabqi_status: r.sabqi_status,
        manzil_status: r.manzil_status,
        quality_rating: match &r.quality_rating {
            Some(s) => Some(s.clone()),
            None => None,
        },
        mistakes_count: r.mistakes_count,
    }
}

pub open spec fn reading_open(r: ReadingDailyRecord) -> bool {
    r.status != DailyStatus::Completed
}

pub open spec fn hifz_open(r: HifzDailyRecord) -> bool {
    r.sabaq_status != DailyStatus::Completed
}

/// Record `r` is not completed and, when a date is given, carries it.
pub open spec fn reading_wanted(r: ReadingDailyRecord, date: Option<Seq<char>>) -> bool {
    reading_open(r) && match date {
        Some(d) => r.date@ == d,
        None => true,
    }
}

/// Record `r` is not completed (sabaq) and, when a date is given, carries it.
pub open spec fn hifz_wanted(r: HifzDailyRecord, date: Option<Seq<char>>) -> bool {
    hifz_open(r) && match date {
        Some(d) => r.date@ == d,
        None => true,
    }
}

/// `i` is the first day of `history` that is wanted under `date`.
pub open spec fn reading_first_wanted(
    history: Seq<ReadingDailyRecord>,
    i: int,
    date: Option<Seq<char>>,
) -> bool {
    &&& 0 <= i < history.len()
    &&& reading_wanted(history[i], date)
    &&& forall|j: int| 0 <= j < i ==> !reading_wanted(#[trigger] history[j], date)
}

/// `i` is the first day of `history` that is wanted under `date`.
pub open spec fn hifz_first_wanted(history: Seq<HifzDailyRecord>, i: int, date: Option<Seq<char>>) -> bool {
    &&& 0 <= i < history.len()
    &&& hifz_wanted(history[i], date)
    &&& forall|j: int| 0 <= j < i ==> !hifz_wanted(#[trigger] history[j], date)
}

/// The day of a reading history due when today's date is `today`: the
/// first uncompleted day dated today, else the first uncompleted day, else
/// the last day; `None` for an empty history.
pub open spec fn reading_due_index(history: Seq<ReadingDailyRecord>, today: Seq<char>) -> Option<
    int,
> {
    if exists|i: int| #[trigger] reading_first_wanted(history, i, Some(today)) {
        Some(choose|i: int| #[trigger] reading_first_wanted(history, i, Some(today)))
    } else if exists|i: int| #[trigger] reading_first_wanted(history, i, None) {
        Some(choose|i: int| #[trigger] reading_first_wanted(history, i, None))
    } else if history.len() > 0 {
        Some(history.len() - 1)
    } else {
        None
    }
}

/// The same choice for a memorisation history, judged by the sabaq status.
pub open spec fn hifz_due_index(history: Seq<HifzDailyRecord>, today: Seq<char>) -> Option<int> {
    if exists|i: int| #[trigger] hifz_first_wanted(history, i, Some(today)) {
        Some(choose|i: int| #[trigger] hifz_first_wanted(history, i, Some(today)))
    } else if exists|i: int| #[trigger] hifz_first_wanted(history, i, None) {
        Some(choose|i: int| #[trigger] hifz_first_wanted(history, i, None))
    } else if history.len() > 0 {
        Some(history.len() - 1)
    } else {
        None
    }
}

proof fn lemma_reading_first_unique(h: Seq<ReadingDailyRecord>, i: int, date: Option<Seq<char>>)
    requires
        reading_first_wanted(h, i, date),
    ensures
        forall|k: int| #[trigger] reading_first_wanted(h, k, date) ==> k == i,
{
    assert forall|k: int| #[trigger] reading_first_wanted(h, k, date) implies k == i by {
        if k < i {
            assert(!reading_wanted(h[k], date));
        } else if k > i {
            assert(!reading_wanted(h[i], date));
        }
    }
}

proof fn lemma_hifz_first_unique(h: Seq<HifzDailyRecord>, i: int, date: Option<Seq<char>>)
    requires
        hifz_first_wanted(h, i, date),
    ensures
        forall|k: int| #[trigger] hifz_first_wanted(h, k, date) ==> k == i,
{
    assert forall|k: int| #[trigger] hifz_first_wanted(h, k, date) implies k == i by {
        if k < i {
            assert(!hifz_wanted(h[k], date));
        } else if k > i {
            assert(!hifz_wanted(h[i], date));
        }
    }
}

/// `r` is the record of reading plan `plan` that is due when today's date
/// is `today`: the due record where there is one (see `due_index`), else a
/// completed one-page record for the plan's first page dated today.
pub open spec fn is_active_reading_record(plan: ReadingPlanData, today: Seq<char>, r: ReadingDailyRecord) -> bool {
    let h = plan.history@;
    match reading_due_index(h, today) {
        Some(i) => r == h[i],
        None => {
            &&& r.day_index == 1
            &&& r.date@ == today
            &&& r.start_page == plan.start_page
            &&& r.end_page == plan.start_page
            &&& r.range_label@ == seq!['P', 'a', 'g', 'e', ' '] + text::decimal_text(
                plan.start_page as nat,
            )
            &&& r.status == DailyStatus::Completed
            &&& r.completed_at is None
        },
    }
}

/// `r` is the record of memorisation plan `plan` that is due when today's
/// date is `today` (judged by the sabaq status): the due record where there
/// is one, else a completed record pointing at the plan's first page dated
/// today, with no rating and no mistake count.
pub open spec fn is_active_hifz_record(plan: HifzPlanData, today: Seq<char>, r: HifzDailyRecord) -> bool {
    let h = plan.history@;
    match hifz_due_index(h, today) {
        Some(i) => r == h[i],
        None => {
            &&& r.day_index == 1
            &&& r.date@ == today
            &&& r.sabaq_start_page == plan.start_page
            &&& r.sabaq_end_page == plan.start_page
            &&& r.sabqi_start_page == plan.start_page
            &&& r.sabqi_end_page == plan.start_page
            &&& r.manzil_start_page == plan.start_page
            &&& r.manzil_end_page == plan.start_page
            &&& r.sabaq_status == DailyStatus::Completed
            &&& r.sabqi_status == DailyStatus::Completed
            &&& r.manzil_status == DailyStatus::Completed
            &&& r.quality_rating is None
            &&& r.mistakes_count is None
        },
    }
}

/// The record of a reading plan that is due when today's date is `today`
/// (see `due_index`); with no history, a completed one-page record for the
/// plan's first page dated today.
pub fn active_daily_record_on(plan: &ReadingPlanData, today: &str) -> (r: ReadingDailyRecord)
    ensures
        is_active_reading_record(*plan, today@, r),
{
    let ghost h = plan.history@;
    let n = plan.history.len();
    let mut i: usize = 0;
    while i < n
        invariant
            n == h.len(),
            h == plan.history@,
            i <= n,
            forall|j: int| 0 <= j < i ==> !reading_wanted(#[trigger] h[j], Some(today@)),
        decreases n - i,
    {
        let rec = &plan.history[i];
        if rec.status != DailyStatus::Completed && text::str_equal(rec.date.as_str(), today) {
            proof {
                assert(reading_first_wanted(h, i as int, Some(today@)));
                lemma_reading_first_unique(h, i as int, Some(today@));
            }
            return copy_reading_record(rec);
        }
        i = i + 1;
    }
    proof {
        assert(!exists|k: int| #[trigger] reading_first_wanted(h, k, Some(today@)));
    }
    let mut i: usize = 0;
    while i < n
        invariant
            n == h.len(),
            h == plan.history@,
            i <= n,
            !exists|k: int| #[trigger] reading_first_wanted(h, k, Some(today@)),
            forall|j: int| 0 <= j < i ==> !reading_wanted(#[trigger] h[j], None),
        decreases n - i,
    {
        let rec = &plan.history[i];
        if rec.status != DailyStatus::Completed {
            proof {
                assert(reading_first_wanted(h, i as int, None));
                lemma_reading_first_unique(h, i as int, None);
            }
            return copy_reading_record(rec);
        }
        i = i + 1;
    }
    proof {
        assert(!exists|k: int| #[trigger] reading_first_wanted(h, k, None));
    }
    if n > 0 {
        return copy_reading_record(&plan.history[n - 1]);
    }
    let mut label = text::to_owned_string("Page ");
    text::push_decimal(&mut label, plan.start_page as u64);
    proof {
        reveal_strlit("Page ");
        assert(label@ =~= seq!['P', 'a', 'g', 'e', ' '] + text::decimal_text(
            plan.start_page as nat,
        ));
    }
    ReadingDailyRecord {
        day_index: 1,
        date: text::to_owned_string(today),
        start_page: plan.start_page,
        end_page: plan.start_page,
        range_label: label,
        status: DailyStatus::Completed,
        completed_at: None,
    }
}

/// The record of a reading plan that is due today (local time).
pub fn get_active_daily_record(plan: &ReadingPlanData) -> (r: ReadingDailyRecord)
    ensures
        exists|today: int|
            dates::valid_day_number(today) && is_active_reading_record(*plan, dates::iso_date_text(today), r),
{
    let today = dates::today_day_number();
    let today_str = dates::iso_date_string(today);
    active_daily_record_on(plan, today_str.as_str())
}

/// The record of a memorisation plan that is due when today's date is
/// `today` (judged by the sabaq status, see `due_index`); with no history,
/// a completed record pointing at the plan's first page dated today.
pub fn active_hifz_record_on(plan: &HifzPlanData, today: &str) -> (r: HifzDailyRecord)
    ensures
        is_active_hifz_record(*plan, today@, r),
{
    let ghost h = plan.history@;
    let n = plan.history.len();
    let mut i: usize = 0;
    while i < n
        invariant
            n == h.len(),
            h == plan.history@,
            i <= n,
            forall|j: int| 0 <= j < i ==> !hifz_wanted(#[trigger] h[j], Some(today@)),
        decreases n - i,
    {
        let rec = &plan.history[i];
        if rec.sabaq_status != DailyStatus::Completed && text::str_equal(rec.date.as_str(), today) {
            proof {
                assert(hifz_first_wanted(h, i as int, Some(today@)));
                lemma_hifz_first_unique(h, i as int, Some(today@));
            }
            return copy_hifz_record(rec);
        }
        i = i + 1;
    }
    proof {
        assert(!exists|k: int| #[trigger] hifz_first_wanted(h, k, Some(today@)));
    }
    let mut i: usize = 0;
    while i < n
        invariant
            n == h.len(),
            h == plan.history@,
            i <= n,
            !exists|k: int| #[trigger] hifz_first_wanted(h, k, Some(today@)),
            forall|j: int| 0 <= j < i ==> !hifz_wanted(#[trigger] h[j], None),
        decreases n - i,
    {
        let rec = &plan.history[i];
        if rec.sabaq_status != DailyStatus::Completed {
            proof {
                assert(hifz_first_wanted(h, i as int, None));
                lemma_hifz_first_unique(h, i as int, None);
            }
            return copy_hifz_record(rec);
        }
        i = i + 1;
    }
    proof {
        assert(!exists|k: int| #[trigger] hifz_first_wanted(h, k, None));
    }
    if n > 0 {
        return copy_hifz_record(&plan.history[n - 1]);
    }
    HifzDailyRecord {
        day_index: 1,
        date: text::to_owned_string(today),
        sabaq_start_page: plan.start_page,
        sabaq_end_page: plan.start_page,
        sabqi_start_page: plan.start_page,
        sabqi_end_page: plan.start_page,
        manzil_start_page: plan.start_page,
        manzil_end_page: plan.start_page,
        sabaq_status: DailyStatus::Completed,
        sabqi_status: DailyStatus::Completed,
        manzil_status: DailyStatus::Completed,
        quality_rating: None,
        mistakes_count: None,
    }
}

/// The record of a memorisation plan that is due today (local time).
pub fn get_active_hifz_record(plan: &HifzPlanData) -> (r: HifzDailyRecord)
    ensures
        exists|today: int|
            dates::valid_day_number(today) && is_active_hifz_record(*plan, dates::iso_date_text(today), r),
{
    let today = dates::today_day_number();
    let today_str = dates::iso_date_string(today);
    active_hifz_record_on(plan, today_str.as_str())
}

} // verus!

verus! {

// ── Rescheduling ──────────────────────────────────────────────────────────
/// Pages assigned to a day.
pub open spec fn assigned_pages(r: ReadingDailyRecord) -> int {
    r.end_page - r.start_page + 1
}

/// Pages of a day left unread: the unread part of a partly read day, all of
/// a skipped day, none otherwise.
pub open spec fn unread_pages(r: ReadingDailyRecord) -> int {
    match r.status {
        DailyStatus::PartiallyCompleted { completed_pages } => if assigned_pages(r)
            > completed_pages {
            assigned_pages(r) - completed_pages
        } else {
            0
        },
        DailyStatus::Skipped => assigned_pages(r),
        _ => 0,
    }
}

/// Whether the day's unread pages are counted (it lies before the current
/// day and is partly read or skipped).
pub open spec fn counts_as_behind(r: ReadingDailyRecord, current_day_index: int) -> bool {
    r.day_index < current_day_index && (r.status is PartiallyCompleted || r.status is Skipped)
}

/// Unread pages among the first `n` days that lie before the current day.
pub open spec fn behind_pages(h: Seq<ReadingDailyRecord>, current_day_index: int, n: int) -> int
    decreases n,
{
    if n <= 0 {
        0
    } else {
        behind_pages(h, current_day_index, n - 1) + if h[n - 1].day_index < current_day_index {
            unread_pages(h[n - 1])
        } else {
            0
        }
    }
}

/// Number of days among the first `n` that are the current day or later.
pub open spec fn upcoming_days(h: Seq<ReadingDailyRecord>, current_day_index: int, n: int) -> int
    decreases n,
{
    if n <= 0 {
        0
    } else {
        upcoming_days(h, current_day_index, n - 1) + if h[n - 1].day_index >= current_day_index {
            1int
        } else {
            0int
        }
    }
}

/// Extra pages each upcoming day takes on, or 0 when nothing is moved.
pub open spec fn catch_up_per_day(h: Seq<ReadingDailyRecord>, current_day_index: int, reschedule: bool) -> int {
    let behind = behind_pages(h, current_day_index, h.len() as int);
    let upcoming = upcoming_days(h, current_day_index, h.len() as int);
    if reschedule && behind > 0 && upcoming > 0 {
        ceil_div(behind, upcoming)
    } else {
        0
    }
}

/// Day `k` after rescheduling: an upcoming day that is the `rank`-th
/// upcoming one moves forward by `rank * extra` pages and ends
/// `(rank + 1) * extra` pages later, but not past the plan's last page.
pub open spec fn rescheduled_day(
    r: ReadingDailyRecord,
    rank: int,
    extra: int,
    plan_end: int,
) -> ReadingDailyRecord {
    let start = r.start_page + rank * extra;
    let end = min_int(r.end_page + rank * extra + extra, plan_end);
    ReadingDailyRecord {
        start_page: start as u32,
        end_page: end as u32,
        range_label: r.range_label,
        ..r
    }
}

/// What `reschedule_reading_plan` needs to run without overflow: the pages
/// of counted days are well formed, their sum and the day count fit, and
/// every moved day stays within `u32`.
pub open spec fn reschedule_fits(plan: ReadingPlanData, current_day_index: int, reschedule: bool) -> bool {
    let h = plan.history@;
    let extra = catch_up_per_day(h, current_day_index, reschedule);
    &&& h.len() <= i32::MAX
    &&& forall|k: int|
        0 <= k < h.len() && #[trigger] counts_as_behind(h[k], current_day_index) ==> h[k].start_page
            <= h[k].end_page < u32::MAX + h[k].start_page
    &&& behind_pages(h, current_day_index, h.len() as int) <= u32::MAX
    &&& forall|k: int|
        0 <= k < h.len() && h[k].day_index >= current_day_index ==> #[trigger] h[k].end_page
            + (upcoming_days(h, current_day_index, k) + 1) * extra <= u32::MAX && h[k].start_page
            + upcoming_days(h, current_day_index, k) * extra <= u32::MAX
}

/// Counted days have well-formed page ranges.
pub open spec fn behind_days_well_formed(h: Seq<ReadingDailyRecord>, c: int) -> bool {
    forall|k: int|
        0 <= k < h.len() && #[trigger] counts_as_behind(h[k], c) ==> h[k].start_page
            <= h[k].end_page
}

proof fn lemma_behind_monotone(h: Seq<ReadingDailyRecord>, c: int, n: int, m: int)
    requires
        0 <= n <= m <= h.len(),
        behind_days_well_formed(h, c),
    ensures
        0 <= behind_pages(h, c, n) <= behind_pages(h, c, m),
        0 <= upcoming_days(h, c, n) <= upcoming_days(h, c, m) <= m,
    decreases m - n,
{
    if n < m {
        lemma_behind_monotone(h, c, n, m - 1);
        if h[m - 1].day_index < c {
            assert(unread_pages(h[m - 1]) >= 0) by {
                if counts_as_behind(h[m - 1], c) {
                }
            }
        }
    } else {
        lemma_behind_nonneg(h, c, n);
    }
}

proof fn lemma_behind_nonneg(h: Seq<ReadingDailyRecord>, c: int, n: int)
    requires
        0 <= n <= h.len(),
        behind_days_well_formed(h, c),
    ensures
        0 <= behind_pages(h, c, n),
        0 <= upcoming_days(h, c, n) <= n,
    decreases n,
{
    if n > 0 {
        lemma_behind_nonneg(h, c, n - 1);
        if h[n - 1].day_index < c {
            assert(unread_pages(h[n - 1]) >= 0) by {
                if counts_as_behind(h[n - 1], c) {
                }
            }
        }
    }
}

/// Pages of a day the reader has marked as read: all of a completed day,
/// the pages read of a partly read day (at most the day's pages), none of a
/// skipped or pending day.
pub open spec fn pages_read(r: ReadingDailyRecord) -> int {
    match r.status {
        DailyStatus::Completed => r.end_page - r.start_page + 1,
        DailyStatus::PartiallyCompleted { completed_pages } => min_int(
            completed_pages as int,
            r.end_page - r.start_page + 1,
        ),
        _ => 0,
    }
}

/// Among the first `n` days, the pages read and the pages given on the
/// days before the current one that are partly read or skipped.
pub open spec fn counted_read_and_given(h: Seq<ReadingDailyRecord>, c: int, n: int) -> (int, int)
    decreases n,
{
    if n <= 0 {
        (0, 0)
    } else {
        let before = counted_read_and_given(h, c, n - 1);
        let r = h[n - 1];
        if r.day_index < c && (r.status is PartiallyCompleted || r.status is Skipped) {
            (before.0 + pages_read(r), before.1 + (r.end_page - r.start_page + 1))
        } else {
            before
        }
    }
}

/// The pages moved forward are exactly the pages left unread: on the days
/// before the current one that are partly read or skipped, the pages left
/// unread and the pages read add up to the pages those days were given.
pub proof fn lemma_unread_and_read_make_up_given(h: Seq<ReadingDailyRecord>, c: int, n: int)
    requires
        0 <= n <= h.len(),
        behind_days_well_formed(h, c),
    ensures
        behind_pages(h, c, n) + counted_read_and_given(h, c, n).0 == counted_read_and_given(h, c, n).1,
    decreases n,
{
    if n > 0 {
        lemma_unread_and_read_make_up_given(h, c, n - 1);
        if counts_as_behind(h[n - 1], c) {
            assert(h[n - 1].start_page <= h[n - 1].end_page);
        }
    }
}

/// The extra pages each upcoming day takes on are the fewest that cover
/// the unread pages: together the upcoming days take on at least all of
/// them, and one page a day less would not.
pub proof fn lemma_catch_up_covers_unread(h: Seq<ReadingDailyRecord>, c: int)
    requires
        behind_pages(h, c, h.len() as int) > 0,
        upcoming_days(h, c, h.len() as int) > 0,
    ensures
        ({
            let behind = behind_pages(h, c, h.len() as int);
            let upcoming = upcoming_days(h, c, h.len() as int);
            let extra = catch_up_per_day(h, c, true);
            &&& extra * upcoming >= behind
            &&& (extra - 1) * upcoming < behind
        }),
{
    let behind = behind_pages(h, c, h.len() as int);
    let upcoming = upcoming_days(h, c, h.len() as int);
    let x = behind + upcoming - 1;
    vstd::arithmetic::div_mod::lemma_fundamental_div_mod(x, upcoming);
    vstd::arithmetic::div_mod::lemma_mod_bound(x, upcoming);
    let q = x / upcoming;
    assert(q * upcoming == upcoming * q) by (nonlinear_arith);
    assert((q - 1) * upcoming == q * upcoming - upcoming) by (nonlinear_arith);
}

/// Rescheduled upcoming days stay a reading of consecutive pages: each
/// takes on exactly the extra pages (unless cut at the plan's last page),
/// and two upcoming days that followed each other still do, the later one
/// starting right after the earlier one ends.
pub proof fn lemma_rescheduled_days_stay_consecutive(
    a: ReadingDailyRecord,
    b: ReadingDailyRecord,
    rank: int,
    extra: int,
    plan_end: int,
)
    requires
        rank >= 0,
        extra >= 0,
        a.start_page <= a.end_page,
        a.end_page + 1 == b.start_page,
        b.start_page <= b.end_page,
        b.end_page + (rank + 2) * extra <= plan_end,
        b.end_page + (rank + 2) * extra <= u32::MAX,
    ensures
        ({
            let ma = rescheduled_day(a, rank, extra, plan_end);
            let mb = rescheduled_day(b, rank + 1, extra, plan_end);
            &&& ma.end_page - ma.start_page == a.end_page - a.start_page + extra
            &&& mb.end_page - mb.start_page == b.end_page - b.start_page + extra
            &&& mb.start_page == ma.end_page + 1
            &&& ma.start_page == a.start_page + rank * extra
        }),
{
    lemma_mul_step(rank, extra);
    lemma_mul_step(rank + 1, extra);
    lemma_mul_le(0, rank, extra);
    assert(0 * extra == 0) by (nonlinear_arith);
}

/// Moves the pages left unread on earlier days (partly read or skipped days
/// before `current_day_index`) onto the upcoming days, spread evenly and
/// rounded up, when `reschedule_uncompleted` asks for it. Earlier days stay
/// as they are.
pub fn reschedule_reading_plan(
    plan: &mut ReadingPlanData,
    current_day_index: u32,
    reschedule_uncompleted: bool,
)
    requires
        reschedule_fits(*old(plan), current_day_index as int, reschedule_uncompleted),
    ensures
        ({
            let h = old(plan).history@;
            let extra = catch_up_per_day(h, current_day_index as int, reschedule_uncompleted);
            &&& final(plan).history@.len() == h.len()
            &&& final(plan).id == old(plan).id
            &&& final(plan).title == old(plan).title
            &&& final(plan).start_page == old(plan).start_page
            &&& final(plan).end_page == old(plan).end_page
            &&& final(plan).setup_mode == old(plan).setup_mode
            &&& final(plan).unit == old(plan).unit
            &&& final(plan).target_days == old(plan).target_days
            &&& final(plan).daily_amount_target == old(plan).daily_amount_target
            &&& final(plan).start_date == old(plan).start_date
            &&& final(plan).expected_end_date == old(plan).expected_end_date
            &&& final(plan).is_active == old(plan).is_active
            &&& final(plan).is_archived == old(plan).is_archived
            &&& extra == 0 ==> *final(plan) == *old(plan)
            &&& forall|k: int|
                0 <= k < h.len() ==> {
                    let r = #[trigger] final(plan).history@[k];
                    if extra == 0 || h[k].day_index < current_day_index {
                        r == h[k]
                    } else {
                        let moved = rescheduled_day(
                            h[k],
                            upcoming_days(h, current_day_index as int, k),
                            extra,
                            old(plan).end_page as int,
                        );
                        &&& r.day_index == h[k].day_index
                        &&& r.date == h[k].date
                        &&& r.status == h[k].status
                        &&& r.completed_at == h[k].completed_at
                        &&& r.start_page == moved.start_page
                        &&& r.end_page == moved.end_page
                        &&& r.range_label@ == range_label_text(
                            moved.start_page as int,
                            moved.end_page as int,
                        )
                    }
                }
        }),
{
    if plan.history.len() == 0 {
        proof {
            assert(catch_up_per_day(old(plan).history@, current_day_index as int, reschedule_uncompleted) == 0);
        }
        return;
    }
    let ghost h = plan.history@;
    let ghost c = current_day_index as int;
    let n = plan.history.len();
    proof {
        assert(behind_days_well_formed(h, c));
        lemma_behind_monotone(h, c, 0, n as int);
    }
    let mut behind: u32 = 0;
    let mut upcoming: u32 = 0;
    let mut i: usize = 0;
    while i < n
        invariant
            h == plan.history@,
            n == h.len(),
            i <= n,
            n <= i32::MAX,
            c == current_day_index,
            reschedule_fits(*plan, c, reschedule_uncompleted),
            behind_days_well_formed(h, c),
            behind == behind_pages(h, c, i as int),
            upcoming == upcoming_days(h, c, i as int),
        decreases n - i,
    {
        let record = &plan.history[i];
        proof {
            lemma_behind_monotone(h, c, i + 1, n as int);
            lemma_behind_nonneg(h, c, i + 1);
        }
        if record.day_index < current_day_index {
            match record.status {
                DailyStatus::PartiallyCompleted { completed_pages } => {
                    assert(counts_as_behind(h[i as int], c));
                    let pages_assigned = record.end_page - record.start_page + 1;
                    if pages_assigned > completed_pages {
                        behind = behind + (pages_assigned - completed_pages);
                    }
                },
                DailyStatus::Skipped => {
                    assert(counts_as_behind(h[i as int], c));
                    behind = behind + (record.end_page - record.start_page + 1);
                },
                _ => {},
            }
        } else {
            upcoming = upcoming + 1;
        }
        i = i + 1;
    }
    let ghost extra = catch_up_per_day(h, c, reschedule_uncompleted);
    if reschedule_uncompleted && behind > 0 && upcoming > 0 {
        proof {
            lemma_ceil_div_le(behind as int, upcoming as int);
        }
        let additional_per_day: u32 = ((behind as u64 + upcoming as u64 - 1) / upcoming as u64) as u32;
        proof {
            assert(additional_per_day == extra);
        }
        let mut extra_offset: u32 = 0;
        let mut k: usize = 0;
        let plan_end = plan.end_page;
        while k < n
            invariant
                n == h.len(),
                n == plan.history@.len(),
                k <= n,
                c == current_day_index,
                extra == additional_per_day,
                extra > 0,
                plan_end == plan.end_page,
                forall|j: int|
                    0 <= j < h.len() && h[j].day_index >= c ==> #[trigger] h[j].end_page
                        + (upcoming_days(h, c, j) + 1) * extra <= u32::MAX && h[j].start_page
                        + upcoming_days(h, c, j) * extra <= u32::MAX,
                behind_days_well_formed(h, c),
                extra_offset == upcoming_days(h, c, k as int) * extra,
                plan.id == old(plan).id,
                plan.title == old(plan).title,
                plan.start_page == old(plan).start_page,
                plan.end_page == old(plan).end_page,
                plan.setup_mode == old(plan).setup_mode,
                plan.unit == old(plan).unit,
                plan.target_days == old(plan).target_days,
                plan.daily_amount_target == old(plan).daily_amount_target,
                plan.start_date == old(plan).start_date,
                plan.expected_end_date == old(plan).expected_end_date,
                plan.is_active == old(plan).is_active,
                plan.is_archived == old(plan).is_archived,
                h == old(plan).history@,
                forall|j: int| k <= j < n ==> plan.history@[j] == h[j],
                forall|j: int|
                    0 <= j < k ==> {
                        let r = #[trigger] plan.history@[j];
                        if h[j].day_index < c {
                            r == h[j]
                        } else {
                            let moved = rescheduled_day(
                                h[j],
                                upcoming_days(h, c, j),
                                extra,
                                plan_end as int,
                            );
                            &&& r.day_index == h[j].day_index
                            &&& r.date == h[j].date
                            &&& r.status == h[j].status
                            &&& r.completed_at == h[j].completed_at
                            &&& r.start_page == moved.start_page
                            &&& r.end_page == moved.end_page
                            &&& r.range_label@ == range_label_text(
                                moved.start_page as int,
                                moved.end_page as int,
                            )
                        }
                    },
            decreases n - k,
        {
            proof {
                lemma_behind_nonneg(h, c, k as int);
                lemma_mul_step(upcoming_days(h, c, k as int), extra);
            }
            if plan.history[k].day_index >= current_day_index {
                proof {
                    assert(h[k as int].end_page + (upcoming_days(h, c, k as int) + 1) * extra
                        <= u32::MAX);
                    lemma_mul_le(0, upcoming_days(h, c, k as int), extra);
                }
                let old_start = plan.history[k].start_page;
                let old_end = plan.history[k].end_page;
                let current_start = old_start + extra_offset;
                let tentative = old_end + extra_offset + additional_per_day;
                let current_end = if tentative < plan_end {
                    tentative
                } else {
                    plan_end
                };
                let mut label = String::new();
                push_range_label(&mut label, current_start, current_end);
                let mut record = copy_reading_record(&plan.history[k]);
                record.start_page = current_start;
                record.end_page = current_end;
                record.range_label = label;
                plan.history.set(k, record);
                extra_offset = extra_offset + additional_per_day;
            }
            k = k + 1;
        }
    }
}

} // verus!

verus! {

// ── Today's portion ───────────────────────────────────────────────────────
/// What the reminder shows of today's reading portion.
#[derive(Debug, Clone, PartialEq, Eq)]
pub struct TodayWirdInfo {
    pub plan_id: String,
    pub plan_title: String,
    pub day_index: u32,
    pub date_str: String,
    pub start_page: u32,
    pub end_page: u32,
    pub total_pages: u32,
    pub completed_pages: u32,
    pub remaining_pages: u32,
    pub target_page: u32,
    pub is_completed: bool,
}

/// The parts of a plan's due record that today's portion reads: day
/// index, date, first and last page, status. With no history, a completed
/// one-page day at the plan's first page dated `today`.
pub open spec fn due_record_facts(plan: ReadingPlanData, today: Seq<char>) -> (
    u32,
    Seq<char>,
    u32,
    u32,
    DailyStatus,
) {
    let h = plan.history@;
    match reading_due_index(h, today) {
        Some(k) => (h[k].day_index, h[k].date@, h[k].start_page, h[k].end_page, h[k].status),
        None => (1, today, plan.start_page, plan.start_page, DailyStatus::Completed),
    }
}

/// Progress through a due day given the last page read: the pages done
/// and the page to continue from.
pub open spec fn wird_progress(start: int, end: int, status: DailyStatus, last_page: int) -> (int, int) {
    let total = page_span(start, end);
    if status == DailyStatus::Completed {
        (total, start)
    } else if start <= last_page <= end {
        (min_int(last_page - start + 1, total), min_int(last_page + 1, end))
    } else if last_page > end {
        (total, start)
    } else {
        (0, start)
    }
}

/// Index of the first plan that is active and not archived.
pub open spec fn is_first_live_plan(plans: Seq<ReadingPlanData>, i: int) -> bool {
    &&& 0 <= i < plans.len()
    &&& plans[i].is_active && !plans[i].is_archived
    &&& forall|j: int| 0 <= j < i ==> !(#[trigger] plans[j].is_active && !plans[j].is_archived)
}

/// `info` describes today's portion of `plan` when today's date is `today`
/// and the last page read is `last_page`.
pub open spec fn is_wird_info(info: TodayWirdInfo, plan: ReadingPlanData, today: Seq<char>, last_page: int) -> bool {
    let f = due_record_facts(plan, today);
    let total = page_span(f.2 as int, f.3 as int);
    let progress = wird_progress(f.2 as int, f.3 as int, f.4, last_page);
    let done = f.4 == DailyStatus::Completed || progress.0 >= total;
    &&& info.plan_id == plan.id
    &&& info.plan_title == plan.title
    &&& info.day_index == f.0
    &&& info.date_str@ == f.1
    &&& info.start_page == f.2
    &&& info.end_page == f.3
    &&& info.total_pages == total
    &&& info.completed_pages == progress.0
    &&& info.target_page == progress.1
    &&& info.is_completed == done
    &&& info.remaining_pages == (if done {
        0
    } else {
        total - progress.0
    })
}

/// Today's portion adds up: the pages done and the pages left make the
/// day's total, the day counts as completed exactly when nothing is left,
/// and the page to continue from lies within the day's range, for a due
/// day whose first page does not come after its last.
pub proof fn lemma_wird_info_consistent(info: TodayWirdInfo, plan: ReadingPlanData, today: Seq<char>, last_page: int)
    requires
        is_wird_info(info, plan, today, last_page),
        info.start_page <= info.end_page,
    ensures
        info.total_pages == info.end_page - info.start_page + 1,
        info.completed_pages + info.remaining_pages == info.total_pages,
        info.is_completed <==> info.remaining_pages == 0,
        info.start_page <= info.target_page <= info.end_page,
{
}

/// Progress through today's portion follows the last page read: having
/// read up to the day's last page or beyond completes the day; having read
/// into the day up to page `p` counts at least the pages from the first one
/// to `p`, and reading continues from the page after `p`; and reading
/// further never counts fewer pages done.
pub proof fn lemma_wird_progress_follows_last_page(
    info: TodayWirdInfo,
    later: TodayWirdInfo,
    plan: ReadingPlanData,
    today: Seq<char>,
    last_page: int,
    later_page: int,
)
    requires
        is_wird_info(info, plan, today, last_page),
        is_wird_info(later, plan, today, later_page),
        info.start_page <= info.end_page,
        last_page <= later_page,
    ensures
        last_page >= info.end_page ==> info.completed_pages == info.total_pages && info.remaining_pages == 0
            && info.is_completed,
        info.start_page <= last_page <= info.end_page ==> info.completed_pages >= last_page - info.start_page + 1,
        info.start_page <= last_page < info.end_page && !info.is_completed ==> info.target_page == last_page + 1,
        info.completed_pages <= later.completed_pages,
{
}

/// Today's portion of the first live reading plan, when today's date is
/// `today` and the reader last stopped at `quran_last_page`; `None` when no
/// plan is active.
pub fn today_wird_info_on(
    plans: &[ReadingPlanData],
    quran_last_page: Option<u32>,
    today: &str,
) -> (r: Option<TodayWirdInfo>)
    requires
        forall|i: int, k: int|
            0 <= i < plans@.len() && 0 <= k < plans@[i].history@.len() ==> !(
            #[trigger] plans@[i].history@[k].start_page == 0 && plans@[i].history@[k].end_page
                == u32::MAX),
    ensures
        (exists|i: int| is_first_live_plan(plans@, i)) <==> r is Some,
        forall|i: int|
            #[trigger] is_first_live_plan(plans@, i) ==> is_wird_info(
                r.unwrap(),
                plans@[i],
                today@,
                match quran_last_page {
                    Some(p) => p as int,
                    None => 0,
                },
            ),
{
    let mut i: usize = 0;
    while i < plans.len()
        invariant
            i <= plans@.len(),
            forall|j: int| 0 <= j < i ==> !(#[trigger] plans@[j].is_active && !plans@[j].is_archived),
        ensures
            i <= plans@.len(),
            forall|j: int| 0 <= j < i ==> !(#[trigger] plans@[j].is_active && !plans@[j].is_archived),
            i < plans@.len() ==> plans@[i as int].is_active && !plans@[i as int].is_archived,
        decreases plans@.len() - i,
    {
        if plans[i].is_active && !plans[i].is_archived {
            break;
        }
        i = i + 1;
    }
    if i == plans.len() {
        proof {
            assert(forall|k: int| !is_first_live_plan(plans@, k));
        }
        return None;
    }
    proof {
        assert(is_first_live_plan(plans@, i as int));
        assert forall|k: int| is_first_live_plan(plans@, k) implies k == i by {
            if k < i {
            } else if k > i {
                assert(!(plans@[i as int].is_active && !plans@[i as int].is_archived));
            }
        }
    }
    let plan = &plans[i];
    let record = active_daily_record_on(plan, today);
    proof {
        let h = plan.history@;
        match reading_due_index(h, today@) {
            Some(k) => {
                assert(0 <= k < h.len());
                assert(!(plans@[i as int].history@[k].start_page == 0
                    && plans@[i as int].history@[k].end_page == u32::MAX));
            },
            None => {},
        }
    }
    let total_pages: u32 = if record.end_page >= record.start_page {
        record.end_page - record.start_page + 1
    } else {
        1
    };
    let last_page: u32 = match quran_last_page {
        Some(p) => p,
        None => 0,
    };
    let (completed_pages, target_page): (u32, u32) = if record.status == DailyStatus::Completed {
        (total_pages, record.start_page)
    } else if last_page >= record.start_page && last_page <= record.end_page {
        let done = last_page - record.start_page + 1;
        let comp = if done < total_pages {
            done
        } else {
            total_pages
        };
        let tgt = if last_page < record.end_page {
            last_page + 1
        } else {
            record.end_page
        };
        (comp, tgt)
    } else if last_page > record.end_page {
        (total_pages, record.start_page)
    } else {
        (0, record.start_page)
    };
    let is_completed = record.status == DailyStatus::Completed || completed_pages >= total_pages;
    let remaining_pages = if is_completed {
        0
    } else {
        total_pages - completed_pages
    };
    let info = TodayWirdInfo {
        plan_id: plan.id.clone(),
        plan_title: plan.title.clone(),
        day_index: record.day_index,
        date_str: record.date.clone(),
        start_page: record.start_page,
        end_page: record.end_page,
        total_pages,
        completed_pages,
        remaining_pages,
        target_page,
        is_completed,
    };
    Some(info)
}

} // verus!

verus! {

/// Today's portion of the first live reading plan (local date), given the
/// stored plans and the last page read.
pub fn get_today_wird_info(plans: &[ReadingPlanData], quran_last_page: Option<u32>) -> (r: Option<
    TodayWirdInfo,
>)
    requires
        forall|i: int, k: int|
            0 <= i < plans@.len() && 0 <= k < plans@[i].history@.len() ==> !(
            #[trigger] plans@[i].history@[k].start_page == 0 && plans@[i].history@[k].end_page
                == u32::MAX),
    ensures
        (exists|i: int| is_first_live_plan(plans@, i)) <==> r is Some,
        exists|today: int|
            dates::valid_day_number(today) && forall|i: int|
                #[trigger] is_first_live_plan(plans@, i) ==> is_wird_info(
                    r.unwrap(),
                    plans@[i],
                    dates::iso_date_text(today),
                    match quran_last_page {
                        Some(p) => p as int,
                        None => 0,
                    },
                ),
{
    let today = dates::today_day_number();
    let today_str = dates::iso_date_string(today);
    today_wird_info_on(plans, quran_last_page, today_str.as_str())
}

/// A plan id: the prefix, an underscore and the local time as
/// `%Y%m%d_%H%M%S`.
pub fn generate_plan_id(prefix: &str) -> (r: String)
    ensures
        exists|t: Seq<char>| #[trigger] dates::is_timestamp_text(t) && r@ == prefix@ + "_"@ + t,
        r@.len() >= prefix@.len() + 16,
{
    proof {
        reveal_strlit("_");
    }
    let mut id = text::to_owned_string(prefix);
    text::push_char(&mut id, '_');
    let stamp = dates::local_timestamp();
    id.append(stamp.as_str());
    proof {
        assert(id@ =~= prefix@ + "_"@ + stamp@);
        assert(dates::is_timestamp_text(stamp@));
    }
    id
}

/// A new active reading plan; its id starts with `khatma_`.
pub fn create_new_reading_plan(
    title: String,
    setup_mode: SetupMode,
    unit: ReadingUnit,
    start_page: u32,
    end_page: u32,
    target_days: u32,
    daily_amount_target: u32,
    start_date: i32,
    expected_end_date: i32,
    history: Vec<ReadingDailyRecord>,
) -> (r: ReadingPlanData)
    requires
        dates::valid_day_number(start_date as int),
        dates::valid_day_number(expected_end_date as int),
    ensures
        exists|t: Seq<char>| #[trigger] dates::is_timestamp_text(t) && r.id@ == "khatma_"@ + t,
        r.title == title,
        r.setup_mode == setup_mode,
        r.unit == unit,
        r.start_page == start_page,
        r.end_page == end_page,
        r.target_days == target_days,
        r.daily_amount_target == daily_amount_target,
        r.start_date@ == dates::iso_date_text(start_date as int),
        r.expected_end_date@ == dates::iso_date_text(expected_end_date as int),
        r.is_active,
        !r.is_archived,
        r.history == history,
{
    let id = generate_plan_id("khatma");
    proof {
        reveal_strlit("khatma");
        reveal_strlit("khatma_");
        reveal_strlit("_");
        let t = choose|t: Seq<char>| #[trigger] dates::is_timestamp_text(t) && id@ == "khatma"@ + "_"@ + t;
        assert("khatma"@ + "_"@ + t =~= "khatma_"@ + t);
    }
    ReadingPlanData {
        id,
        title,
        setup_mode,
        unit,
        start_page,
        end_page,
        target_days,
        daily_amount_target,
        start_date: dates::iso_date_string(start_date),
        expected_end_date: dates::iso_date_string(expected_end_date),
        is_active: true,
        is_archived: false,
        history,
    }
}

/// A new active memorisation plan; its id starts with `hifz_`.
pub fn create_new_hifz_plan(
    title: String,
    goal_type: HifzGoalType,
    setup_mode: SetupMode,
    start_page: u32,
    end_page: u32,
    sabaq_unit: HifzUnit,
    sabqi_window_days: u32,
    manzil_cycle_days: u32,
    target_days: u32,
    start_date: i32,
    expected_end_date: i32,
    history: Vec<HifzDailyRecord>,
) -> (r: HifzPlanData)
    requires
        dates::valid_day_number(start_date as int),
        dates::valid_day_number(expected_end_date as int),
    ensures
        exists|t: Seq<char>| #[trigger] dates::is_timestamp_text(t) && r.id@ == "hifz_"@ + t,
        r.title == title,
        r.goal_type == goal_type,
        r.setup_mode == setup_mode,
        r.start_page == start_page,
        r.end_page == end_page,
        r.sabaq_unit == sabaq_unit,
        r.sabqi_window_days == sabqi_window_days,
        r.manzil_cycle_days == manzil_cycle_days,
        r.target_days == target_days,
        r.start_date@ == dates::iso_date_text(start_date as int),
        r.expected_end_date@ == dates::iso_date_text(expected_end_date as int),
        r.is_active,
        !r.is_archived,
        r.history == history,
{
    let id = generate_plan_id("hifz");
    proof {
        reveal_strlit("hifz");
        reveal_strlit("hifz_");
        reveal_strlit("_");
        let t = choose|t: Seq<char>| #[trigger] dates::is_timestamp_text(t) && id@ == "hifz"@ + "_"@ + t;
        assert("hifz"@ + "_"@ + t =~= "hifz_"@ + t);
    }
    HifzPlanData {
        id,
        title,
        goal_type,
        setup_mode,
        start_page,
        end_page,
        sabaq_unit,
        sabqi_window_days,
        manzil_cycle_days,
        target_days,
        start_date: dates::iso_date_string(start_date),
        expected_end_date: dates::iso_date_string(expected_end_date),
        is_active: true,
        is_archived: false,
        history,
    }
}

} // verus!

verus! {

/// The name shown for surah `surah` from the display list `names`
/// (position `surah - 1`, clamped to the list), or `fallback` when the list
/// is empty.
pub open spec fn listed_name(names: Seq<Seq<char>>, surah: int, fallback: Seq<char>) -> Seq<char> {
    if names.len() == 0 {
        fallback
    } else {
        names[min_int(if surah >= 1 {
            surah - 1
        } else {
            0
        }, names.len() - 1)]
    }
}

fn pick_name(names: &[String], surah: u32, fallback: String) -> (r: String)
    ensures
        r@ == listed_name(names@.map_values(|s: String| s@), surah as int, fallback@),
{
    if names.len() == 0 {
        return fallback;
    }
    let idx0: usize = if surah >= 1 {
        (surah - 1) as usize
    } else {
        0
    };
    let idx = if idx0 < names.len() - 1 {
        idx0
    } else {
        names.len() - 1
    };
    names[idx].clone()
}

/// The title of a memorisation goal; `surah_names` is the surah display
/// list of the interface language.
pub fn format_hifz_goal_title(goal: &HifzGoalType, surah_names: &[String]) -> (r: String)
    ensures
        ({
            let names = surah_names@.map_values(|s: String| s@);
            match *goal {
                HifzGoalType::FullQuran => crate::i18n::is_tr_of(r@, "Full Quran"@),
                HifzGoalType::SelectedJuz(juz) => exists|t: Seq<char>|
                    crate::i18n::is_tr_of(t, "Juz"@) && r@ == t + seq![' '] + text::decimal_text(
                        juz as nat,
                    ),
                HifzGoalType::SelectedJuzRange { start_juz, end_juz } => exists|t: Seq<char>|
                    crate::i18n::is_tr_of(t, "Juz Range"@) && r@ == t + seq![' '] + range_label_text(
                        start_juz as int,
                        end_juz as int,
                    ),
                HifzGoalType::SelectedSurah(surah) => r@ == listed_name(
                    names,
                    surah as int,
                    seq!['S', 'u', 'r', 'a', 'h', ' '] + text::decimal_text(surah as nat),
                ),
                HifzGoalType::SelectedSurahRange { start_surah, end_surah } => r@ == listed_name(
                    names,
                    start_surah as int,
                    text::decimal_text(start_surah as nat),
                ) + seq![' ', '–', ' '] + listed_name(
                    names,
                    end_surah as int,
                    text::decimal_text(end_surah as nat),
                ),
                HifzGoalType::CustomPageRange { .. } => crate::i18n::is_tr_of(
                    r@,
                    "Custom Page Range"@,
                ),
            }
        }),
{
    match goal {
        HifzGoalType::FullQuran => {
            proof {
                reveal_strlit("Full Quran");
            }
            crate::i18n::translate("Full Quran")
        },
        HifzGoalType::SelectedJuz(juz) => {
            proof {
                reveal_strlit("Juz");
            }
            let mut t = crate::i18n::translate("Juz");
            let ghost word = t@;
            text::push_char(&mut t, ' ');
            text::push_decimal(&mut t, *juz as u64);
            proof {
                assert(t@ =~= word + seq![' '] + text::decimal_text(*juz as nat));
            }
            t
        },
        HifzGoalType::SelectedJuzRange { start_juz, end_juz } => {
            proof {
                reveal_strlit("Juz Range");
            }
            let mut t = crate::i18n::translate("Juz Range");
            let ghost word = t@;
            text::push_char(&mut t, ' ');
            push_range_label(&mut t, *start_juz, *end_juz);
            proof {
                assert(t@ =~= word + seq![' '] + range_label_text(*start_juz as int, *end_juz as int));
            }
            t
        },
        HifzGoalType::SelectedSurah(surah) => {
            let mut fallback = text::to_owned_string("Surah ");
            text::push_decimal(&mut fallback, *surah as u64);
            proof {
                reveal_strlit("Surah ");
                assert(fallback@ =~= seq!['S', 'u', 'r', 'a', 'h', ' '] + text::decimal_text(
                    *surah as nat,
                ));
            }
            pick_name(surah_names, *surah, fallback)
        },
        HifzGoalType::SelectedSurahRange { start_surah, end_surah } => {
            let first = pick_name(surah_names, *start_surah, text::decimal_string(*start_surah as u64));
            let second = pick_name(surah_names, *end_surah, text::decimal_string(*end_surah as u64));
            let mut t = first;
            let ghost a = t@;
            text::push_char(&mut t, ' ');
            text::push_char(&mut t, '–');
            text::push_char(&mut t, ' ');
            t.append(second.as_str());
            proof {
                assert(t@ =~= a + seq![' ', '–', ' '] + second@);
            }
            t
        },
        HifzGoalType::CustomPageRange { .. } => {
            proof {
                reveal_strlit("Custom Page Range");
            }
            crate::i18n::translate("Custom Page Range")
        },
    }
}

} // verus!

verus! {

/// A reading plan over `start..=end` (with `start <= end`) reads every page
/// exactly once, in order: the first day starts at `start`, each following
/// day starts right after the previous one ends, the last day ends at `end`,
/// and no day is empty.
pub proof fn lemma_reading_days_tile_range(start: int, end: int, days: int, d: int)
    requires
        start <= end,
        days >= 1,
        0 <= d < reading_record_count(page_span(start, end), days),
    ensures
        ({
            let span = page_span(start, end);
            let count = reading_record_count(span, days);
            &&& reading_day_first(start, span, days, 0) == start
            &&& start <= reading_day_first(start, span, days, d) <= reading_day_last(
                start,
                end,
                span,
                days,
                d,
            ) <= end
            &&& d + 1 < count ==> reading_day_first(start, span, days, d + 1) == reading_day_last(
                start,
                end,
                span,
                days,
                d,
            ) + 1
            &&& d + 1 == count ==> reading_day_last(start, end, span, days, d) == end
        }),
{
    let span = page_span(start, end);
    let b = span / days;
    let rem = span % days;
    lemma_div_mod(span, days);
    lemma_reading_day_step(span, days, d);
    lemma_mul_le(0, d, b);
    assert(0 * b == 0) by (nonlinear_arith);
    let count = reading_record_count(span, days);
    if d + 1 == count {
        if b == 0 {
            assert(d + 1 == rem);
            assert((d + 1) * b == 0) by (nonlinear_arith)
                requires
                    b == 0,
            ;
        } else {
            assert(d + 1 == days);
            assert(days * b == (d + 1) * b);
        }
    }
}

/// The days of a reading plan's records over `start..=end` (as
/// `calculate_reading_workload` returns them) cut the range into
/// contiguous, non-empty, balanced chunks: at least one day, the first
/// starting at `start`, each next day starting right after the previous one
/// ends, the last ending at `end`, and each day at most one page longer
/// than the next and never shorter.
pub proof fn lemma_reading_records_partition_range(
    h: Seq<ReadingDailyRecord>,
    start: int,
    end: int,
    days: int,
    start_day: int,
)
    requires
        start <= end,
        days >= 1,
        h.len() == reading_record_count(page_span(start, end), days),
        forall|d: int|
            0 <= d < h.len() ==> is_reading_record(
                #[trigger] h[d],
                start,
                end,
                page_span(start, end),
                days,
                start_day,
                d,
            ),
    ensures
        h.len() >= 1,
        h[0].start_page == start,
        h[h.len() - 1].end_page == end,
        forall|i: int| 0 <= i < h.len() ==> (#[trigger] h[i]).start_page <= h[i].end_page,
        forall|i: int|
            0 <= i < h.len() - 1 ==> {
                &&& (#[trigger] h[i + 1]).start_page == h[i].end_page + 1
                &&& 0 <= (h[i].end_page - h[i].start_page) - (h[i + 1].end_page - h[i + 1].start_page) <= 1
            },
{
    let span = page_span(start, end);
    let b = span / days;
    let rem = span % days;
    lemma_div_mod(span, days);
    if b == 0 {
        assert(span < days) by {
            assert(days * 0 == 0);
        }
    }
    assert(h.len() >= 1);
    lemma_reading_days_tile_range(start, end, days, 0);
    lemma_reading_days_tile_range(start, end, days, h.len() - 1);
    assert forall|i: int| 0 <= i < h.len() implies (#[trigger] h[i]).start_page <= h[i].end_page
        && h[i].end_page - h[i].start_page + 1 == reading_day_pages(span, days, i) by {
        lemma_reading_days_tile_range(start, end, days, i);
        lemma_reading_day_step(span, days, i);
    }
    assert forall|i: int| 0 <= i < h.len() - 1 implies {
        &&& (#[trigger] h[i + 1]).start_page == h[i].end_page + 1
        &&& 0 <= (h[i].end_page - h[i].start_page) - (h[i + 1].end_page - h[i + 1].start_page) <= 1
    } by {
        lemma_reading_days_tile_range(start, end, days, i);
        lemma_reading_day_step(span, days, i);
        lemma_reading_day_step(span, days, i + 1);
        assert(h[i].end_page - h[i].start_page + 1 == reading_day_pages(span, days, i));
        assert(h[i + 1].end_page - h[i + 1].start_page + 1 == reading_day_pages(span, days, i + 1));
    }
}

/// How long a reading plan over `start..=end` runs and how much it reads a
/// day: asked for a daily amount, the daily figure is that amount in pages
/// (a hizb counted as 10 pages, a juz as 20; at least one page) and the
/// plan has as many days as it takes to read the range at that pace (the
/// range divided by the daily figure, rounded up); asked for a number of
/// days `t` (at least one), the daily figure is the range divided by `t`,
/// rounded up, and the plan has `t` days, or one day a page where the range
/// is shorter than that.
pub proof fn lemma_reading_plan_pace(
    start: int,
    end: int,
    target_days: int,
    daily_amount: int,
    unit: ReadingUnit,
)
    requires
        start <= end,
        daily_amount >= 0,
    ensures
        ({
            let span = end - start + 1;
            let per = match unit {
                ReadingUnit::Pages => max_int(daily_amount, 1),
                ReadingUnit::Hizb => max_int(10 * daily_amount, 1),
                ReadingUnit::Juz => max_int(20 * daily_amount, 1),
            };
            &&& reading_pages_per_day(start, end, SetupMode::ByDailyAmount, target_days, daily_amount, unit) == per
            &&& reading_record_count(
                span,
                reading_days(start, end, SetupMode::ByDailyAmount, target_days, daily_amount, unit),
            ) == (span + per - 1) / per
        }),
        ({
            let span = end - start + 1;
            let t = max_int(target_days, 1);
            &&& reading_pages_per_day(start, end, SetupMode::ByTargetDate, target_days, daily_amount, unit) == (span
                + t - 1) / t
            &&& reading_record_count(
                span,
                reading_days(start, end, SetupMode::ByTargetDate, target_days, daily_amount, unit),
            ) == min_int(t, span)
        }),
{
    let span = end - start + 1;
    let per = daily_amount_pages(daily_amount, unit);
    lemma_ceil_div_le(span, per);
    let days = ceil_div(span, per);
    vstd::arithmetic::div_mod::lemma_div_is_ordered(days, span, days);
    vstd::arithmetic::div_mod::lemma_div_by_self(days);
    let t = max_int(target_days, 1);
    if span < t {
        vstd::arithmetic::div_mod::lemma_basic_div(span, t);
        vstd::arithmetic::div_mod::lemma_small_mod(span as nat, t as nat);
    } else {
        vstd::arithmetic::div_mod::lemma_div_is_ordered(t, span, t);
        vstd::arithmetic::div_mod::lemma_div_by_self(t);
    }
}

/// With a target number of days, no day of a reading plan gets more pages
/// than the reported daily figure.
pub proof fn lemma_reading_day_within_daily_figure(start: int, end: int, target_days: int, d: int)
    requires
        start <= end,
        0 <= d < reading_record_count(page_span(start, end), max_int(target_days, 1)),
    ensures
        reading_day_pages(page_span(start, end), max_int(target_days, 1), d) <= ceil_div(
            page_span(start, end),
            max_int(target_days, 1),
        ),
{
    let span = page_span(start, end);
    let days = max_int(target_days, 1);
    lemma_div_mod(span, days);
    vstd::arithmetic::div_mod::lemma_fundamental_div_mod(span + days - 1, days);
    vstd::arithmetic::div_mod::lemma_mod_bound(span + days - 1, days);
    let b = span / days;
    let rem = span % days;
    if rem > 0 {
        assert(days * (b + 1) == days * b + days) by (nonlinear_arith);
        let c = (span + days - 1) / days;
        if c < b + 1 {
            lemma_mul_le(c, b, days);
            vstd::arithmetic::mul::lemma_mul_is_commutative(c, days);
            vstd::arithmetic::mul::lemma_mul_is_commutative(b, days);
        }
    } else {
        let c = (span + days - 1) / days;
        if c < b {
            lemma_mul_le(c, b - 1, days);
            lemma_mul_step(b - 1, days);
            vstd::arithmetic::mul::lemma_mul_is_commutative(c, days);
            vstd::arithmetic::mul::lemma_mul_is_commutative(b, days);
        }
    }
}

/// The new material of a memorisation plan never goes backwards: each day's
/// sabaq starts no earlier than the previous day's.
pub proof fn lemma_hifz_sabaq_advances(first: int, last: int, q: int, window: int, cycle: int, d: int)
    requires
        1 <= first <= last,
        q >= 0,
        d >= 0,
    ensures
        clamp_int(hifz_day_raw(first, last, q, window, cycle, d * q).0, first, last) <= clamp_int(
            hifz_day_raw(first, last, q, window, cycle, (d + 1) * q).0,
            first,
            last,
        ),
{
    lemma_mul_step(d, q);
    lemma_mul_le(0, d, q);
    assert(0 * q == 0) by (nonlinear_arith);
    vstd::arithmetic::div_mod::lemma_div_is_ordered(d * q, d * q + q, 30);
}

/// The records of a memorisation plan over `first..=last` laid out over
/// `days` days (as `calculate_hifz_workload` returns them): at least one
/// day and never more than the plan's days; the first day's new lesson
/// starts at the scope's first page; every day is numbered from 1, has all
/// six page bounds inside the scope, its three lessons pending and no
/// rating or mistake count yet; and the new lesson never moves backwards.
pub proof fn lemma_hifz_records_shape(
    h: Seq<HifzDailyRecord>,
    first: int,
    last: int,
    days: int,
    q: int,
    window: int,
    cycle: int,
    start_day: int,
)
    requires
        1 <= first <= last,
        days >= 1,
        q >= 0,
        h.len() == hifz_record_count(first, last, days, q),
        forall|d: int|
            0 <= d < h.len() ==> is_hifz_record(#[trigger] h[d], first, last, q, window, cycle, start_day, d),
    ensures
        1 <= h.len() <= days,
        h[0].sabaq_start_page == first,
        forall|d: int|
            0 <= d < h.len() ==> {
                let r = #[trigger] h[d];
                &&& r.day_index == d + 1
                &&& first <= r.sabaq_start_page <= last
                &&& first <= r.sabaq_end_page <= last
                &&& first <= r.sabqi_start_page <= last
                &&& first <= r.sabqi_end_page <= last
                &&& first <= r.manzil_start_page <= last
                &&& first <= r.manzil_end_page <= last
                &&& r.sabaq_status == DailyStatus::Pending
                &&& r.sabqi_status == DailyStatus::Pending
                &&& r.manzil_status == DailyStatus::Pending
                &&& r.quality_rating is None
                &&& r.mistakes_count is None
            },
        forall|d: int| 0 <= d < h.len() - 1 ==> (#[trigger] h[d]).sabaq_start_page <= h[d + 1].sabaq_start_page,
{
    assert(0 * q == 0) by (nonlinear_arith);
    assert(h[0].sabaq_start_page == first);
    assert forall|d: int| 0 <= d < h.len() - 1 implies (#[trigger] h[d]).sabaq_start_page
        <= h[d + 1].sabaq_start_page by {
        lemma_hifz_sabaq_advances(first, last, q, window, cycle, d);
    }
}

/// The pages of day `d`'s new lesson in a memorisation plan over
/// `first..=last`: with a daily amount of `p` whole pages (a page, or `p`
/// custom pages), day `d` learns the `p` pages from `first + d * p`, cut at
/// the scope's last page; with half a page a day, it learns the one page
/// `first + d / 2`. So one day's lesson ends before the next day's begins.
pub proof fn lemma_hifz_sabaq_is_daily_amount(
    r: HifzDailyRecord,
    unit: HifzUnit,
    first: int,
    last: int,
    window: int,
    cycle: int,
    start_day: int,
    d: int,
)
    requires
        1 <= first <= last,
        d >= 0,
        is_hifz_record(r, first, last, hifz_unit_thirtieths(unit), window, cycle, start_day, d),
    ensures
        ({
            let p: int = match unit {
                HifzUnit::Page => 1,
                HifzUnit::CustomPages(n) => n as int,
                _ => 0,
            };
            p >= 1 && first + d * p <= last ==> {
                &&& r.sabaq_start_page == first + d * p
                &&& r.sabaq_end_page == min_int(first + d * p + p - 1, last)
            }
        }),
        unit == HifzUnit::HalfPage && first + d / 2 <= last ==> r.sabaq_start_page == first + d / 2
            && r.sabaq_end_page == first + d / 2,
{
    let q = hifz_unit_thirtieths(unit);
    match unit {
        HifzUnit::Page => {
            assert(d * 30 / 30 == d) by {
                vstd::arithmetic::div_mod::lemma_div_multiples_vanish(d, 30);
            }
        },
        HifzUnit::CustomPages(n) => {
            if n >= 1 {
                let p = n as int;
                assert(d * (30 * p) == 30 * (d * p)) by (nonlinear_arith);
                assert(d * q / 30 == d * p) by {
                    vstd::arithmetic::div_mod::lemma_div_multiples_vanish(d * p, 30);
                }
                assert(30 * p - 30 == 30 * (p - 1));
                assert((30 * p - 30) / 30 == p - 1) by {
                    vstd::arithmetic::div_mod::lemma_div_multiples_vanish(p - 1, 30);
                }
                assert(d * p >= 0) by (nonlinear_arith)
                    requires d >= 0, p >= 1;
            }
        },
        HifzUnit::HalfPage => {
            assert(d * 15 / 30 == d / 2) by {
                assert(d * 15 == 15 * d);
                vstd::arithmetic::div_mod::lemma_fundamental_div_mod(d, 2);
                vstd::arithmetic::div_mod::lemma_mod_bound(d, 2);
                let k = d / 2;
                let rr = d % 2;
                assert(d * 15 == 30 * k + 15 * rr);
                vstd::arithmetic::div_mod::lemma_fundamental_div_mod(d * 15, 30);
                vstd::arithmetic::div_mod::lemma_mod_bound(d * 15, 30);
                vstd::arithmetic::div_mod::lemma_div_pos_is_pos(d * 15, 30);
                assert(d * 15 / 30 == k) by (nonlinear_arith)
                    requires
                        d * 15 == 30 * k + 15 * rr,
                        0 <= rr < 2,
                        d * 15 == 30 * (d * 15 / 30) + (d * 15) % 30,
                        0 <= (d * 15) % 30 < 30,
                ;
            }
        },
        _ => {},
    }
}

} // verus!
