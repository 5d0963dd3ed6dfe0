//! Progress of the active plans as the planner shows it, and the changes
//! its buttons make: marking a reading day done, archiving a plan, and
//! ticking a memorisation lesson on or off.
use vstd::prelude::*;
use vstd::string::*;
use crate::i18n;
use crate::planner::{
    copy_hifz_record, copy_reading_record, hifz_goal_scope, map_hifz_goal_scope,
    DailyStatus, HifzDailyRecord, HifzGoalType, HifzPlanData, ReadingDailyRecord, ReadingPlanData,
};
use crate::text;

verus! {

// ── Reading plans ─────────────────────────────────────────────────────────
/// Days of `h` that are completed.
pub open spec fn completed_days(h: Seq<ReadingDailyRecord>) -> nat
    decreases h.len(),
{
    if h.len() == 0 {
        0
    } else {
        completed_days(h.drop_last()) + if h.last().status == DailyStatus::Completed {
            1nat
        } else {
            0nat
        }
    }
}

/// How far a reading plan has come: completed days, all days, and whether
/// every day is completed.
pub struct KhatmaProgress {
    pub completed_days: usize,
    pub total_days: usize,
    pub all_completed: bool,
}

/// The progress of a reading plan.
pub fn khatma_progress(plan: &ReadingPlanData) -> (r: KhatmaProgress)
    ensures
        r.completed_days == completed_days(plan.history@),
        r.total_days == plan.history@.len(),
        r.all_completed == forall|k: int| 0 <= k < plan.history@.len() ==> #[trigger] plan.history@[k].status
            == DailyStatus::Completed,
{
    let h = &plan.history;
    let mut done: usize = 0;
    let mut all = true;
    let mut i: usize = 0;
    while i < h.len()
        invariant
            i <= h@.len(),
            done == completed_days(h@.take(i as int)),
            done <= i,
            all == forall|k: int| 0 <= k < i ==> #[trigger] h@[k].status == DailyStatus::Completed,
        decreases h@.len() - i,
    {
        proof {
            assert(h@.take(i + 1).drop_last() =~= h@.take(i as int));
            assert(h@.take(i + 1).last() == h@[i as int]);
        }
        if h[i].status == DailyStatus::Completed {
            done = done + 1;
        } else {
            all = false;
        }
        i = i + 1;
    }
    proof {
        assert(h@.take(h@.len() as int) =~= h@);
    }
    KhatmaProgress { completed_days: done, total_days: h.len(), all_completed: all }
}

/// Position of the first plan from `i` on with id `id`, or `plans.len()`.
pub open spec fn reading_plan_pos(plans: Seq<ReadingPlanData>, id: Seq<char>, i: int) -> int
    decreases plans.len() - i,
{
    if i >= plans.len() || i < 0 {
        plans.len() as int
    } else if plans[i].id@ == id {
        i
    } else {
        reading_plan_pos(plans, id, i + 1)
    }
}

/// Position of the first day from `i` on numbered `day`, or `h.len()`.
pub open spec fn reading_day_pos(h: Seq<ReadingDailyRecord>, day: u32, i: int) -> int
    decreases h.len() - i,
{
    if i >= h.len() || i < 0 {
        h.len() as int
    } else if h[i].day_index == day {
        i
    } else {
        reading_day_pos(h, day, i + 1)
    }
}

/// Two reading plans agree on everything but their history.
pub open spec fn same_reading_plan_but_history(a: ReadingPlanData, b: ReadingPlanData) -> bool {
    &&& a.id == b.id
    &&& a.title == b.title
    &&& a.setup_mode == b.setup_mode
    &&& a.unit == b.unit
    &&& a.start_page == b.start_page
    &&& a.end_page == b.end_page
    &&& a.target_days == b.target_days
    &&& a.daily_amount_target == b.daily_amount_target
    &&& a.start_date == b.start_date
    &&& a.expected_end_date == b.expected_end_date
    &&& a.is_active == b.is_active
    &&& a.is_archived == b.is_archived
}

/// The history after day `day` is marked completed at `at`: its first
/// record with that number, if any.
pub open spec fn history_marked(h: Seq<ReadingDailyRecord>, day: u32, at: String) -> Seq<ReadingDailyRecord> {
    let j = reading_day_pos(h, day, 0);
    if j < h.len() {
        h.update(j, ReadingDailyRecord { status: DailyStatus::Completed, completed_at: Some(at), ..h[j] })
    } else {
        h
    }
}

fn find_reading_plan(plans: &Vec<ReadingPlanData>, plan_id: &str) -> (k: usize)
    ensures
        k == reading_plan_pos(plans@, plan_id@, 0),
        k <= plans@.len(),
{
    let mut i: usize = 0;
    while i < plans.len()
        invariant
            i <= plans@.len(),
            reading_plan_pos(plans@, plan_id@, 0) == reading_plan_pos(plans@, plan_id@, i as int),
        decreases plans@.len() - i,
    {
        if text::str_equal(plans[i].id.as_str(), plan_id) {
            return i;
        }
        i = i + 1;
    }
    i
}

fn find_reading_day(h: &Vec<ReadingDailyRecord>, day: u32) -> (j: usize)
    ensures
        j == reading_day_pos(h@, day, 0),
        j <= h@.len(),
{
    let mut i: usize = 0;
    while i < h.len()
        invariant
            i <= h@.len(),
            reading_day_pos(h@, day, 0) == reading_day_pos(h@, day, i as int),
        decreases h@.len() - i,
    {
        if h[i].day_index == day {
            return i;
        }
        i = i + 1;
    }
    i
}

/// Marks day `day_index` of plan `plan_id` completed at `completed_at`
/// (the first plan with that id and its first day with that number);
/// nothing changes where either is missing.
pub fn mark_reading_day_completed(
    plans: &mut Vec<ReadingPlanData>,
    plan_id: &str,
    day_index: u32,
    completed_at: String,
)
    ensures
        final(plans)@.len() == old(plans)@.len(),
        ({
            let k = reading_plan_pos(old(plans)@, plan_id@, 0);
            &&& forall|m: int| 0 <= m < old(plans)@.len() && m != k ==> #[trigger] final(plans)@[m] == old(plans)@[m]
            &&& k < old(plans)@.len() ==> {
                &&& same_reading_plan_but_history(final(plans)@[k], old(plans)@[k])
                &&& final(plans)@[k].history@ == history_marked(old(plans)@[k].history@, day_index, completed_at)
            }
        }),
{
    let k = find_reading_plan(plans, plan_id);
    if k < plans.len() {
        let mut p = plans.remove(k);
        let j = find_reading_day(&p.history, day_index);
        if j < p.history.len() {
            let mut r = copy_reading_record(&p.history[j]);
            r.status = DailyStatus::Completed;
            r.completed_at = Some(completed_at);
            p.history.set(j, r);
        }
        plans.insert(k, p);
    }
}

/// Archives plan `plan_id` (the first with that id): it is no longer
/// active.
pub fn archive_reading_plan(plans: &mut Vec<ReadingPlanData>, plan_id: &str)
    ensures
        final(plans)@.len() == old(plans)@.len(),
        ({
            let k = reading_plan_pos(old(plans)@, plan_id@, 0);
            &&& forall|m: int| 0 <= m < old(plans)@.len() && m != k ==> #[trigger] final(plans)@[m] == old(plans)@[m]
            &&& k < old(plans)@.len() ==> final(plans)@[k] == (ReadingPlanData {
                is_active: false,
                is_archived: true,
                ..old(plans)@[k]
            })
        }),
{
    let k = find_reading_plan(plans, plan_id);
    if k < plans.len() {
        let mut p = plans.remove(k);
        p.is_active = false;
        p.is_archived = true;
        plans.insert(k, p);
    }
}

// ── Memorisation plans ────────────────────────────────────────────────────
/// One of a memorisation day's three lessons.
#[derive(Debug, Clone, Copy, PartialEq, Eq, Structural)]
pub enum HifzPart {
    Sabaq,
    Sabqi,
    Manzil,
}

/// A lesson's status after its button is pressed: completed becomes
/// pending, anything else completed.
pub open spec fn toggled(s: DailyStatus) -> DailyStatus {
    if s == DailyStatus::Completed {
        DailyStatus::Pending
    } else {
        DailyStatus::Completed
    }
}

/// A day with one lesson's status toggled.
pub open spec fn record_toggled(r: HifzDailyRecord, part: HifzPart) -> HifzDailyRecord {
    match part {
        HifzPart::Sabaq => HifzDailyRecord { sabaq_status: toggled(r.sabaq_status), ..r },
        HifzPart::Sabqi => HifzDailyRecord { sabqi_status: toggled(r.sabqi_status), ..r },
        HifzPart::Manzil => HifzDailyRecord { manzil_status: toggled(r.manzil_status), ..r },
    }
}

/// Position of the first plan from `i` on with id `id`, or `plans.len()`.
pub open spec fn hifz_plan_pos(plans: Seq<HifzPlanData>, id: Seq<char>, i: int) -> int
    decreases plans.len() - i,
{
    if i >= plans.len() || i < 0 {
        plans.len() as int
    } else if plans[i].id@ == id {
        i
    } else {
        hifz_plan_pos(plans, id, i + 1)
    }
}

/// Position of the first day from `i` on numbered `day`, or `h.len()`.
pub open spec fn hifz_day_pos(h: Seq<HifzDailyRecord>, day: u32, i: int) -> int
    decreases h.len() - i,
{
    if i >= h.len() || i < 0 {
        h.len() as int
    } else if h[i].day_index == day {
        i
    } else {
        hifz_day_pos(h, day, i + 1)
    }
}

/// Two memorisation plans agree on everything but their history.
pub open spec fn same_hifz_plan_but_history(a: HifzPlanData, b: HifzPlanData) -> bool {
    &&& a.id == b.id
    &&& a.title == b.title
    &&& a.goal_type == b.goal_type
    &&& a.setup_mode == b.setup_mode
    &&& a.start_page == b.start_page
    &&& a.end_page == b.end_page
    &&& a.sabaq_unit == b.sabaq_unit
    &&& a.sabqi_window_days == b.sabqi_window_days
    &&& a.manzil_cycle_days == b.manzil_cycle_days
    &&& a.target_days == b.target_days
    &&& a.start_date == b.start_date
    &&& a.expected_end_date == b.expected_end_date
    &&& a.is_active == b.is_active
    &&& a.is_archived == b.is_archived
}

/// The history after one lesson of day `day` is toggled: its first record
/// with that number, if any.
pub open spec fn history_toggled(h: Seq<HifzDailyRecord>, day: u32, part: HifzPart) -> Seq<HifzDailyRecord> {
    let j = hifz_day_pos(h, day, 0);
    if j < h.len() {
        h.update(j, record_toggled(h[j], part))
    } else {
        h
    }
}

/// The plans after a lesson of a plan's day is toggled.
pub open spec fn plans_toggled(
    before: Seq<HifzPlanData>,
    after: Seq<HifzPlanData>,
    id: Seq<char>,
    day: u32,
    part: HifzPart,
) -> bool {
    let k = hifz_plan_pos(before, id, 0);
    &&& after.len() == before.len()
    &&& forall|m: int| 0 <= m < before.len() && m != k ==> #[trigger] after[m] == before[m]
    &&& k < before.len() ==> {
        &&& same_hifz_plan_but_history(after[k], before[k])
        &&& after[k].history@ == history_toggled(before[k].history@, day, part)
    }
}

fn find_hifz_plan(plans: &Vec<HifzPlanData>, plan_id: &str) -> (k: usize)
    ensures
        k == hifz_plan_pos(plans@, plan_id@, 0),
        k <= plans@.len(),
{
    let mut i: usize = 0;
    while i < plans.len()
        invariant
            i <= plans@.len(),
            hifz_plan_pos(plans@, plan_id@, 0) == hifz_plan_pos(plans@, plan_id@, i as int),
        decreases plans@.len() - i,
    {
        if text::str_equal(plans[i].id.as_str(), plan_id) {
            return i;
        }
        i = i + 1;
    }
    i
}

fn find_hifz_day(h: &Vec<HifzDailyRecord>, day: u32) -> (j: usize)
    ensures
        j == hifz_day_pos(h@, day, 0),
        j <= h@.len(),
{
    let mut i: usize = 0;
    while i < h.len()
        invariant
            i <= h@.len(),
            hifz_day_pos(h@, day, 0) == hifz_day_pos(h@, day, i as int),
        decreases h@.len() - i,
    {
        if h[i].day_index == day {
            return i;
        }
        i = i + 1;
    }
    i
}

fn toggle_status(s: DailyStatus) -> (r: DailyStatus)
    ensures
        r == toggled(s),
{
    if s == DailyStatus::Completed {
        DailyStatus::Pending
    } else {
        DailyStatus::Completed
    }
}

/// Toggles one lesson of day `day_index` of plan `plan_id` between
/// completed and pending (the first plan with that id and its first day
/// with that number); nothing changes where either is missing.
pub fn toggle_hifz_part(plans: &mut Vec<HifzPlanData>, plan_id: &str, day_index: u32, part: HifzPart)
    ensures
        plans_toggled(old(plans)@, final(plans)@, plan_id@, day_index, part),
{
    let k = find_hifz_plan(plans, plan_id);
    if k < plans.len() {
        let mut p = plans.remove(k);
        let j = find_hifz_day(&p.history, day_index);
        if j < p.history.len() {
            let mut r = copy_hifz_record(&p.history[j]);
            match part {
                HifzPart::Sabaq => {
                    r.sabaq_status = toggle_status(r.sabaq_status);
                },
                HifzPart::Sabqi => {
                    r.sabqi_status = toggle_status(r.sabqi_status);
                },
                HifzPart::Manzil => {
                    r.manzil_status = toggle_status(r.manzil_status);
                },
            }
            p.history.set(j, r);
        }
        plans.insert(k, p);
    }
}

/// A lesson's status is one the buttons produce: pending or completed.
pub open spec fn pending_or_completed(s: DailyStatus) -> bool {
    s == DailyStatus::Pending || s == DailyStatus::Completed
}

/// Toggling the same lesson twice gives back the plans as they were, for a
/// lesson that is pending or completed (a skipped or partial lesson comes
/// back pending).
pub proof fn lemma_toggle_twice_restores(
    p0: Seq<HifzPlanData>,
    p1: Seq<HifzPlanData>,
    p2: Seq<HifzPlanData>,
    id: Seq<char>,
    day: u32,
    part: HifzPart,
)
    requires
        plans_toggled(p0, p1, id, day, part),
        plans_toggled(p1, p2, id, day, part),
        hifz_plan_pos(p0, id, 0) < p0.len() ==> {
            let h = p0[hifz_plan_pos(p0, id, 0)].history@;
            let j = hifz_day_pos(h, day, 0);
            j < h.len() ==> pending_or_completed(
                match part {
                    HifzPart::Sabaq => h[j].sabaq_status,
                    HifzPart::Sabqi => h[j].sabqi_status,
                    HifzPart::Manzil => h[j].manzil_status,
                },
            )
        },
    ensures
        p2.len() == p0.len(),
        forall|m: int| 0 <= m < p0.len() && m != hifz_plan_pos(p0, id, 0) ==> #[trigger] p2[m] == p0[m],
        hifz_plan_pos(p0, id, 0) < p0.len() ==> {
            let k = hifz_plan_pos(p0, id, 0);
            same_hifz_plan_but_history(p2[k], p0[k]) && p2[k].history@ == p0[k].history@
        },
{
    let k = hifz_plan_pos(p0, id, 0);
    assert forall|m: int| 0 <= m < p0.len() implies (#[trigger] p0[m]).id == p1[m].id by {
        if m != k {
            assert(p1[m] == p0[m]);
        }
    }
    lemma_hifz_plan_pos_same(p0, p1, id, 0);
    if k < p0.len() {
        let h0 = p0[k].history@;
        let h1 = p1[k].history@;
        let j = hifz_day_pos(h0, day, 0);
        lemma_hifz_day_pos_bounds(h0, day, 0);
        assert(h1 == history_toggled(h0, day, part));
        assert forall|m: int| 0 <= m < h0.len() implies (#[trigger] h0[m]).day_index == h1[m].day_index by {
            if m == j {
                assert(h1[m] == record_toggled(h0[m], part));
            } else {
                assert(h1[m] == h0[m]);
            }
        }
        lemma_hifz_day_pos_same(h0, h1, day, 0);
        if j < h0.len() {
            assert(h1[j] == record_toggled(h0[j], part));
            assert(p2[k].history@ == history_toggled(h1, day, part));
            assert(p2[k].history@ =~= h0);
        } else {
            assert(p2[k].history@ =~= h0);
        }
    }
}

proof fn lemma_hifz_day_pos_bounds(h: Seq<HifzDailyRecord>, day: u32, i: int)
    requires
        0 <= i <= h.len(),
    ensures
        i <= hifz_day_pos(h, day, i) <= h.len(),
    decreases h.len() - i,
{
    if i < h.len() && h[i].day_index != day {
        lemma_hifz_day_pos_bounds(h, day, i + 1);
    }
}

proof fn lemma_hifz_plan_pos_same(a: Seq<HifzPlanData>, b: Seq<HifzPlanData>, id: Seq<char>, i: int)
    requires
        a.len() == b.len(),
        forall|m: int| 0 <= m < a.len() ==> (#[trigger] a[m]).id == b[m].id,
        0 <= i <= a.len(),
    ensures
        hifz_plan_pos(a, id, i) == hifz_plan_pos(b, id, i),
    decreases a.len() - i,
{
    if i < a.len() {
        assert(a[i].id == b[i].id);
        lemma_hifz_plan_pos_same(a, b, id, i + 1);
    }
}

proof fn lemma_hifz_day_pos_same(a: Seq<HifzDailyRecord>, b: Seq<HifzDailyRecord>, day: u32, i: int)
    requires
        a.len() == b.len(),
        forall|m: int| 0 <= m < a.len() ==> (#[trigger] a[m]).day_index == b[m].day_index,
        0 <= i <= a.len(),
    ensures
        hifz_day_pos(a, day, i) == hifz_day_pos(b, day, i),
    decreases a.len() - i,
{
    if i < a.len() {
        assert(a[i].day_index == b[i].day_index);
        lemma_hifz_day_pos_same(a, b, day, i + 1);
    }
}

/// Where a memorisation plan stands on a day: the pages of its scope, the
/// pages memorised by the end of the day's new lesson, the lessons done
/// today, the page the continue button opens (the first lesson not done,
/// else the new lesson), and whether the whole scope is memorised.
pub struct HifzProgress {
    pub total_scope_pages: u32,
    pub memorized_pages: u32,
    pub completed_today: u32,
    pub next_page_target: u32,
    pub plan_completed: bool,
}

pub open spec fn done(s: DailyStatus) -> int {
    if s == DailyStatus::Completed {
        1
    } else {
        0
    }
}

/// The progress of a memorisation plan on the day of `record`.
pub fn hifz_progress(plan: &HifzPlanData, record: &HifzDailyRecord) -> (r: HifzProgress)
    requires
        plan.end_page < u32::MAX,
        record.sabaq_end_page < u32::MAX,
    ensures
        ({
            let span = plan.end_page + 1 - plan.start_page;
            let total = if span < 1 {
                1
            } else {
                span
            };
            let learned = record.sabaq_end_page + 1 - plan.start_page;
            let learned0 = if learned < 0 {
                0
            } else {
                learned
            };
            &&& r.total_scope_pages == total
            &&& r.memorized_pages == if learned0 < total {
                learned0
            } else {
                total
            }
        }),
        r.completed_today == done(record.sabaq_status) + done(record.sabqi_status) + done(record.manzil_status),
        r.next_page_target == if record.sabaq_status != DailyStatus::Completed {
            record.sabaq_start_page
        } else if record.sabqi_status != DailyStatus::Completed {
            record.sabqi_start_page
        } else if record.manzil_status != DailyStatus::Completed {
            record.manzil_start_page
        } else {
            record.sabaq_start_page
        },
        r.plan_completed == (record.sabaq_end_page >= plan.end_page && record.sabaq_status == DailyStatus::Completed),
{
    let span = (plan.end_page + 1).saturating_sub(plan.start_page);
    let total = if span < 1 {
        1
    } else {
        span
    };
    let learned = (record.sabaq_end_page + 1).saturating_sub(plan.start_page);
    let memorized = if learned < total {
        learned
    } else {
        total
    };
    let sabaq_done = record.sabaq_status == DailyStatus::Completed;
    let sabqi_done = record.sabqi_status == DailyStatus::Completed;
    let manzil_done = record.manzil_status == DailyStatus::Completed;
    let count: u32 = (if sabaq_done {
        1
    } else {
        0
    }) + (if sabqi_done {
        1
    } else {
        0
    }) + (if manzil_done {
        1
    } else {
        0
    });
    let next = if !sabaq_done {
        record.sabaq_start_page
    } else if !sabqi_done {
        record.sabqi_start_page
    } else if !manzil_done {
        record.manzil_start_page
    } else {
        record.sabaq_start_page
    };
    HifzProgress {
        total_scope_pages: total,
        memorized_pages: memorized,
        completed_today: count,
        next_page_target: next,
        plan_completed: record.sabaq_end_page >= plan.end_page && sabaq_done,
    }
}

/// A page span as the lesson rows show it: one page alone, else
/// "first–last".
pub fn page_span_text(first: u32, last: u32) -> (r: String)
    ensures
        r@ == if first == last {
            text::decimal_text(first as nat)
        } else {
            text::decimal_text(first as nat) + "–"@ + text::decimal_text(last as nat)
        },
{
    let mut r = String::new();
    text::push_decimal(&mut r, first as u64);
    if first != last {
        r.append("–");
        text::push_decimal(&mut r, last as u64);
    }
    proof {
        assert(r@ =~= if first == last {
            text::decimal_text(first as nat)
        } else {
            text::decimal_text(first as nat) + "–"@ + text::decimal_text(last as nat)
        });
    }
    r
}

// ── Choosing a memorisation goal ──────────────────────────────────────────
/// The goal each entry of the scope list starts with: the whole Quran, juz
/// 1, juz 1 to 5, surah 2, surahs 2 to 3, pages 120 to 180.
pub open spec fn scope_default(index: u32) -> Option<HifzGoalType> {
    if index == 0 {
        Some(HifzGoalType::FullQuran)
    } else if index == 1 {
        Some(HifzGoalType::SelectedJuz(1))
    } else if index == 2 {
        Some(HifzGoalType::SelectedJuzRange { start_juz: 1, end_juz: 5 })
    } else if index == 3 {
        Some(HifzGoalType::SelectedSurah(2))
    } else if index == 4 {
        Some(HifzGoalType::SelectedSurahRange { start_surah: 2, end_surah: 3 })
    } else if index == 5 {
        Some(HifzGoalType::CustomPageRange { start_page: 120, end_page: 180 })
    } else {
        None
    }
}

/// The goal an entry of the scope list starts with, if the entry exists.
pub fn default_goal_for_scope(index: u32) -> (r: Option<HifzGoalType>)
    ensures
        r == scope_default(index),
{
    if index == 0 {
        Some(HifzGoalType::FullQuran)
    } else if index == 1 {
        Some(HifzGoalType::SelectedJuz(1))
    } else if index == 2 {
        Some(HifzGoalType::SelectedJuzRange { start_juz: 1, end_juz: 5 })
    } else if index == 3 {
        Some(HifzGoalType::SelectedSurah(2))
    } else if index == 4 {
        Some(HifzGoalType::SelectedSurahRange { start_surah: 2, end_surah: 3 })
    } else if index == 5 {
        Some(HifzGoalType::CustomPageRange { start_page: 120, end_page: 180 })
    } else {
        None
    }
}

/// The kind of range a goal spans.
#[derive(Debug, Clone, Copy, PartialEq, Eq, Structural)]
pub enum RangeKind {
    Juz,
    Surah,
    Page,
}

/// The message shown when a range starts after it ends.
pub open spec fn range_error_key(kind: RangeKind) -> Seq<char> {
    match kind {
        RangeKind::Juz => "Start Juz must be less than or equal to End Juz."@,
        RangeKind::Surah => "Start Surah must be less than or equal to End Surah."@,
        RangeKind::Page => "Start Page must be less than or equal to End Page."@,
    }
}

/// The goal for a chosen range, or (translated) why it is refused: a range
/// that starts after it ends.
pub fn range_goal(kind: RangeKind, start: u32, end: u32) -> (r: Result<HifzGoalType, String>)
    ensures
        start > end <==> r is Err,
        match r {
            Ok(g) => g == match kind {
                RangeKind::Juz => HifzGoalType::SelectedJuzRange { start_juz: start, end_juz: end },
                RangeKind::Surah => HifzGoalType::SelectedSurahRange { start_surah: start, end_surah: end },
                RangeKind::Page => HifzGoalType::CustomPageRange { start_page: start, end_page: end },
            },
            Err(m) => i18n::is_tr_of(m@, range_error_key(kind)),
        },
{
    proof {
        reveal_strlit("Start Juz must be less than or equal to End Juz.");
        reveal_strlit("Start Surah must be less than or equal to End Surah.");
        reveal_strlit("Start Page must be less than or equal to End Page.");
    }
    if start > end {
        return Err(
            match kind {
                RangeKind::Juz => i18n::translate("Start Juz must be less than or equal to End Juz."),
                RangeKind::Surah => i18n::translate("Start Surah must be less than or equal to End Surah."),
                RangeKind::Page => i18n::translate("Start Page must be less than or equal to End Page."),
            },
        );
    }
    Ok(
        match kind {
            RangeKind::Juz => HifzGoalType::SelectedJuzRange { start_juz: start, end_juz: end },
            RangeKind::Surah => HifzGoalType::SelectedSurahRange { start_surah: start, end_surah: end },
            RangeKind::Page => HifzGoalType::CustomPageRange { start_page: start, end_page: end },
        },
    )
}

/// The pages line of a goal's live summary: "Pages: first–last (count
/// pages)" for the pages it covers.
pub fn goal_pages_summary(goal: &HifzGoalType) -> (r: String)
    ensures
        ({
            let (s, e) = hifz_goal_scope(*goal);
            exists|p: Seq<char>, q: Seq<char>| #![trigger i18n::is_tr_of(p, "Pages"@), i18n::is_tr_of(q, "pages"@)]
                i18n::is_tr_of(p, "Pages"@) && i18n::is_tr_of(q, "pages"@) && r@ == p + ": "@ + text::decimal_text(
                    s as nat,
                ) + "–"@ + text::decimal_text(e as nat) + " ("@ + text::decimal_text((e + 1 - s) as nat) + " "@ + q
                    + ")"@
        }),
{
    proof {
        reveal_strlit("Pages");
        reveal_strlit("pages");
    }
    let (s, e) = map_hifz_goal_scope(goal);
    let count = e + 1 - s;
    let mut r = i18n::translate("Pages");
    let ghost p = r@;
    r.append(": ");
    text::push_decimal(&mut r, s as u64);
    r.append("–");
    text::push_decimal(&mut r, e as u64);
    r.append(" (");
    text::push_decimal(&mut r, count as u64);
    r.append(" ");
    let pages = i18n::translate("pages");
    r.append(pages.as_str());
    r.append(")");
    proof {
        assert(r@ =~= p + ": "@ + text::decimal_text(s as nat) + "–"@ + text::decimal_text(e as nat) + " ("@
            + text::decimal_text(count as nat) + " "@ + pages@ + ")"@);
    }
    r
}

} // verus!
