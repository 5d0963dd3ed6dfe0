use khushu::planner::{
    calculate_hifz_workload, calculate_reading_workload, create_new_hifz_plan, create_new_reading_plan,
    DailyStatus, HifzGoalType, HifzPlanData, HifzUnit, ReadingPlanData, ReadingUnit, SetupMode,
};
use khushu::planner_progress::{
    archive_reading_plan, default_goal_for_scope, goal_pages_summary, hifz_progress, khatma_progress,
    mark_reading_day_completed, page_span_text, range_goal, toggle_hifz_part, HifzPart, RangeKind,
};

const START: i32 = 739_000;

fn reading_plan(title: &str) -> ReadingPlanData {
    let (days, _, end, history) =
        calculate_reading_workload(1, 20, &SetupMode::ByTargetDate, 4, 0, &ReadingUnit::Pages, START);
    create_new_reading_plan(
        title.to_string(),
        SetupMode::ByTargetDate,
        ReadingUnit::Pages,
        1,
        20,
        days,
        0,
        START,
        end,
        history,
    )
}

fn hifz_plan() -> HifzPlanData {
    let goal = HifzGoalType::CustomPageRange { start_page: 10, end_page: 19 };
    let (days, end, history) =
        calculate_hifz_workload(&goal, &SetupMode::ByDailyAmount, 10, &HifzUnit::Page, 7, 14, START);
    create_new_hifz_plan(
        "Hifz".to_string(),
        goal,
        SetupMode::ByDailyAmount,
        10,
        19,
        HifzUnit::Page,
        7,
        14,
        days,
        START,
        end,
        history,
    )
}

#[test]
fn marking_a_day_completes_only_that_day() {
    let mut plans = vec![reading_plan("A"), reading_plan("B")];
    plans[0].id = "khatma_a".to_string();
    plans[1].id = "khatma_b".to_string();
    let id = plans[1].id.clone();
    let before = khatma_progress(&plans[1]);
    assert_eq!(before.completed_days, 0);
    assert_eq!(before.total_days, 4);
    assert!(!before.all_completed);
    mark_reading_day_completed(&mut plans, &id, 2, "2026-01-01T10:00:00+00:00".to_string());
    assert_eq!(plans[1].history[1].status, DailyStatus::Completed);
    assert_eq!(plans[1].history[1].completed_at.as_deref(), Some("2026-01-01T10:00:00+00:00"));
    assert_eq!(plans[1].history[0].status, DailyStatus::Pending);
    assert_eq!(khatma_progress(&plans[1]).completed_days, 1);
    assert_eq!(khatma_progress(&plans[0]).completed_days, 0);
    mark_reading_day_completed(&mut plans, "missing", 1, "x".to_string());
    mark_reading_day_completed(&mut plans, &id, 99, "x".to_string());
    assert_eq!(khatma_progress(&plans[1]).completed_days, 1);
}

#[test]
fn completing_every_day_completes_the_plan() {
    let mut plans = vec![reading_plan("A")];
    let id = plans[0].id.clone();
    for d in 1..=4 {
        mark_reading_day_completed(&mut plans, &id, d, "t".to_string());
    }
    let p = khatma_progress(&plans[0]);
    assert_eq!(p.completed_days, 4);
    assert!(p.all_completed);
}

#[test]
fn archiving_deactivates_the_plan() {
    let mut plans = vec![reading_plan("A")];
    let id = plans[0].id.clone();
    archive_reading_plan(&mut plans, &id);
    assert!(!plans[0].is_active);
    assert!(plans[0].is_archived);
    assert_eq!(plans[0].title, "A");
}

#[test]
fn hifz_lessons_toggle_and_toggle_back() {
    let mut plans = vec![hifz_plan()];
    let id = plans[0].id.clone();
    toggle_hifz_part(&mut plans, &id, 1, HifzPart::Sabqi);
    assert_eq!(plans[0].history[0].sabqi_status, DailyStatus::Completed);
    assert_eq!(plans[0].history[0].sabaq_status, DailyStatus::Pending);
    toggle_hifz_part(&mut plans, &id, 1, HifzPart::Sabqi);
    assert_eq!(plans[0].history[0].sabqi_status, DailyStatus::Pending);
    plans[0].history[0].manzil_status = DailyStatus::Skipped;
    toggle_hifz_part(&mut plans, &id, 1, HifzPart::Manzil);
    assert_eq!(plans[0].history[0].manzil_status, DailyStatus::Completed);
}

#[test]
fn hifz_progress_counts_pages_and_lessons() {
    let plan = hifz_plan();
    let mut record = plan.history[0].clone();
    record.sabaq_start_page = 12;
    record.sabaq_end_page = 13;
    record.sabqi_start_page = 10;
    record.manzil_start_page = 10;
    let p = hifz_progress(&plan, &record);
    assert_eq!(p.total_scope_pages, 10);
    assert_eq!(p.memorized_pages, 4);
    assert_eq!(p.completed_today, 0);
    assert_eq!(p.next_page_target, 12);
    assert!(!p.plan_completed);
    record.sabaq_status = DailyStatus::Completed;
    record.sabqi_start_page = 5;
    let q = hifz_progress(&plan, &record);
    assert_eq!(q.completed_today, 1);
    assert_eq!(q.next_page_target, 5);
    record.sabaq_end_page = 19;
    let done = hifz_progress(&plan, &record);
    assert!(done.plan_completed);
    assert_eq!(done.memorized_pages, 10);
    record.sabaq_end_page = 3;
    assert_eq!(hifz_progress(&plan, &record).memorized_pages, 0);
}

#[test]
fn page_spans_collapse_single_pages() {
    assert_eq!(page_span_text(7, 7), "7");
    assert_eq!(page_span_text(7, 9), "7–9");
}

#[test]
fn scope_list_defaults() {
    assert_eq!(default_goal_for_scope(0), Some(HifzGoalType::FullQuran));
    assert_eq!(default_goal_for_scope(1), Some(HifzGoalType::SelectedJuz(1)));
    assert_eq!(default_goal_for_scope(2), Some(HifzGoalType::SelectedJuzRange { start_juz: 1, end_juz: 5 }));
    assert_eq!(default_goal_for_scope(4), Some(HifzGoalType::SelectedSurahRange { start_surah: 2, end_surah: 3 }));
    assert_eq!(default_goal_for_scope(5), Some(HifzGoalType::CustomPageRange { start_page: 120, end_page: 180 }));
    assert_eq!(default_goal_for_scope(6), None);
}

#[test]
fn ranges_must_not_run_backwards() {
    assert_eq!(range_goal(RangeKind::Juz, 3, 3), Ok(HifzGoalType::SelectedJuzRange { start_juz: 3, end_juz: 3 }));
    assert_eq!(
        range_goal(RangeKind::Juz, 5, 1),
        Err("Start Juz must be less than or equal to End Juz.".to_string())
    );
    assert_eq!(
        range_goal(RangeKind::Surah, 10, 2),
        Err("Start Surah must be less than or equal to End Surah.".to_string())
    );
    assert_eq!(
        range_goal(RangeKind::Page, 100, 200),
        Ok(HifzGoalType::CustomPageRange { start_page: 100, end_page: 200 })
    );
}

#[test]
fn goal_summary_counts_pages() {
    assert_eq!(goal_pages_summary(&HifzGoalType::FullQuran), "Pages: 1–604 (604 pages)");
    assert_eq!(
        goal_pages_summary(&HifzGoalType::CustomPageRange { start_page: 120, end_page: 180 }),
        "Pages: 120–180 (61 pages)"
    );
}
