use chrono::{Datelike, Duration, NaiveDate};
use khushu::planner::{
    calculate_hifz_workload, calculate_reading_workload, create_new_hifz_plan,
    create_new_reading_plan, format_hifz_goal_title, generate_plan_id, get_active_daily_record,
    get_active_hifz_record, get_today_wird_info, map_hifz_goal_scope, reschedule_reading_plan,
    today_wird_info_on, DailyStatus, HifzGoalType, HifzUnit, ReadingPlanData, ReadingUnit,
    SetupMode,
};
use khushu::quran_index::requested_quran_page;

fn today_day_number_local() -> i32 {
    chrono::Local::now().date_naive().num_days_from_ce()
}

fn iso_of(day: i32) -> String {
    NaiveDate::from_num_days_from_ce_opt(day).unwrap().format("%Y-%m-%d").to_string()
}

fn day(y: i32, m: u32, d: u32) -> i32 {
    NaiveDate::from_ymd_opt(y, m, d).unwrap().num_days_from_ce()
}

fn date_of(day_number: i32) -> NaiveDate {
    NaiveDate::from_num_days_from_ce_opt(day_number).unwrap()
}

#[test]
fn test_reading_workload_30_days_full_quran() {
    let start = day(2026, 8, 16);
    let (days, _, end_date, history) = calculate_reading_workload(
        1,
        604,
        &SetupMode::ByTargetDate,
        30,
        20,
        &ReadingUnit::Pages,
        start,
    );

    assert_eq!(days, 30);
    assert_eq!(history.len(), 30);
    assert_eq!(history[0].start_page, 1);
    assert_eq!(history[0].end_page, 21);
    assert_eq!(history[29].end_page, 604);
    assert_eq!(date_of(end_date), date_of(start) + Duration::days(29));
}

#[test]
fn test_reading_workload_by_daily_amount_juz() {
    let start = day(2026, 8, 16);
    let (days, pages_per_day, _, history) = calculate_reading_workload(
        1,
        604,
        &SetupMode::ByDailyAmount,
        30,
        1,
        &ReadingUnit::Juz,
        start,
    );

    assert_eq!(pages_per_day, 20);
    assert_eq!(days, 31);
    assert_eq!(history[0].start_page, 1);
    assert_eq!(history[0].end_page, 20);
}

#[test]
fn test_hifz_workload_half_page_per_day() {
    let start = day(2026, 8, 16);
    let (days, _, history) = calculate_hifz_workload(
        &HifzGoalType::SelectedJuz(30),
        &SetupMode::ByDailyAmount,
        30,
        &HifzUnit::HalfPage,
        7,
        7,
        start,
    );

    assert_eq!(days, 44);
    assert_eq!(history.len(), 44);
    assert_eq!(history[0].sabaq_start_page, 582);
}

#[test]
fn test_reading_reschedule_unfinished() {
    let start = day(2026, 8, 16);
    let (_, _, _, history) = calculate_reading_workload(
        1,
        100,
        &SetupMode::ByTargetDate,
        10,
        10,
        &ReadingUnit::Pages,
        start,
    );

    let mut plan = ReadingPlanData {
        id: "test_plan".to_string(),
        title: "Test Plan".to_string(),
        setup_mode: SetupMode::ByTargetDate,
        unit: ReadingUnit::Pages,
        start_page: 1,
        end_page: 100,
        target_days: 10,
        daily_amount_target: 10,
        start_date: "2026-08-16".to_string(),
        expected_end_date: "2026-08-25".to_string(),
        is_active: true,
        is_archived: false,
        history,
    };

    plan.history[0].status = DailyStatus::Skipped;

    reschedule_reading_plan(&mut plan, 2, true);

    assert!(plan.history[1].end_page > 20);
    assert!(matches!(plan.setup_mode, SetupMode::ByTargetDate));
    assert!(matches!(plan.unit, ReadingUnit::Pages));
    assert_eq!(plan.daily_amount_target, 10);
    assert_eq!(plan.target_days, 10);
    assert_eq!(plan.history.len(), 10);
}

#[test]
fn test_generate_plan_id_safety() {
    let id_khatma = generate_plan_id("khatma");
    assert!(id_khatma.starts_with("khatma_"));
    assert!(id_khatma.len() >= 20);

    let id_hifz = generate_plan_id("hifz");
    assert!(id_hifz.starts_with("hifz_"));
    assert!(id_hifz.len() >= 18);
}

fn khatma_plan(history: Vec<khushu::planner::ReadingDailyRecord>) -> ReadingPlanData {
    ReadingPlanData {
        id: "test_khatma".to_string(),
        title: "Test Khatma".to_string(),
        setup_mode: SetupMode::ByTargetDate,
        unit: ReadingUnit::Pages,
        start_page: 1,
        end_page: 604,
        target_days: 30,
        daily_amount_target: 20,
        start_date: "2026-08-16".to_string(),
        expected_end_date: "2026-09-14".to_string(),
        is_active: true,
        is_archived: false,
        history,
    }
}

#[test]
fn test_active_daily_record_advancement_and_idempotency() {
    let start = day(2026, 8, 16);
    let (_, _, _, history) = calculate_reading_workload(
        1,
        604,
        &SetupMode::ByTargetDate,
        30,
        20,
        &ReadingUnit::Pages,
        start,
    );
    let mut plan = khatma_plan(history);

    let active1 = get_active_daily_record(&plan);
    assert_eq!(active1.day_index, 1);
    assert_eq!(active1.start_page, 1);

    plan.history[0].status = DailyStatus::Completed;

    let active2 = get_active_daily_record(&plan);
    assert_eq!(active2.day_index, 2);

    plan.history[0].status = DailyStatus::Completed;
    let active_repeat = get_active_daily_record(&plan);
    assert_eq!(active_repeat.day_index, 2);
}

#[test]
fn test_hifz_goal_scopes_mapping() {
    assert_eq!(map_hifz_goal_scope(&HifzGoalType::FullQuran), (1, 604));
    assert_eq!(map_hifz_goal_scope(&HifzGoalType::SelectedJuz(1)), (1, 21));
    assert_eq!(map_hifz_goal_scope(&HifzGoalType::SelectedJuz(15)), (282, 301));
    assert_eq!(map_hifz_goal_scope(&HifzGoalType::SelectedJuz(30)), (582, 604));

    let custom = map_hifz_goal_scope(&HifzGoalType::CustomPageRange {
        start_page: 120,
        end_page: 145,
    });
    assert_eq!(custom, (120, 145));
}

#[test]
fn test_today_wird_info_resolution_and_partial_progress() {
    assert!(get_today_wird_info(&[], None).is_none());

    let today = today_day_number_local();
    let (days, daily, expected_end, history) = calculate_reading_workload(
        1,
        604,
        &SetupMode::ByTargetDate,
        30,
        20,
        &ReadingUnit::Pages,
        today,
    );
    let plan = create_new_reading_plan(
        "Test Khatma".to_string(),
        SetupMode::ByTargetDate,
        ReadingUnit::Pages,
        1,
        604,
        days,
        daily,
        today,
        expected_end,
        history,
    );
    let mut plans = vec![plan];

    let info = get_today_wird_info(&plans, None).expect("Should find active Wird");
    assert_eq!(info.day_index, 1);
    assert_eq!(info.start_page, 1);
    assert_eq!(info.total_pages, 21);
    assert_eq!(info.completed_pages, 0);
    assert_eq!(info.remaining_pages, 21);
    assert_eq!(info.target_page, 1);
    assert!(!info.is_completed);

    let partial_info = get_today_wird_info(&plans, Some(8)).unwrap();
    assert_eq!(partial_info.completed_pages, 8);
    assert_eq!(partial_info.remaining_pages, 13);
    assert_eq!(partial_info.target_page, 9);
    assert!(!partial_info.is_completed);

    plans[0].history[0].status = DailyStatus::Completed;

    let completed_info = get_today_wird_info(&plans, Some(8)).unwrap();
    assert_eq!(completed_info.day_index, 2);
}

#[test]
fn test_quran_reminder_navigation_and_duplicate_suppression() {
    let today = today_day_number_local();
    let (days, daily, expected_end, history) = calculate_reading_workload(
        215,
        234,
        &SetupMode::ByTargetDate,
        1,
        20,
        &ReadingUnit::Pages,
        today,
    );
    let plan = create_new_reading_plan(
        "Test Khatma Range".to_string(),
        SetupMode::ByTargetDate,
        ReadingUnit::Pages,
        215,
        234,
        days,
        daily,
        today,
        expected_end,
        history,
    );
    let mut plans = vec![plan];

    let wird_start = get_today_wird_info(&plans, None).expect("Must find active Wird");
    assert_eq!(wird_start.start_page, 215);
    assert_eq!(wird_start.end_page, 234);
    assert_eq!(wird_start.target_page, 215);
    assert_eq!(wird_start.completed_pages, 0);
    assert_eq!(wird_start.remaining_pages, 20);

    let wird_partial = get_today_wird_info(&plans, Some(215)).unwrap();
    assert_eq!(wird_partial.completed_pages, 1);
    assert_eq!(wird_partial.remaining_pages, 19);
    assert_eq!(wird_partial.target_page, 216);

    assert_eq!(requested_quran_page(216), Some(216));
    assert_eq!(requested_quran_page(0), None);

    plans[0].history[0].status = DailyStatus::Completed;

    let wird_done = get_today_wird_info(&plans, Some(215)).unwrap();
    assert!(wird_done.is_completed);
    assert_eq!(wird_done.remaining_pages, 0);
}

#[test]
fn test_hifz_all_6_goal_scopes_and_formatting() {
    let full = HifzGoalType::FullQuran;
    assert_eq!(map_hifz_goal_scope(&full), (1, 604));

    let juz15 = HifzGoalType::SelectedJuz(15);
    assert_eq!(map_hifz_goal_scope(&juz15), (282, 301));

    let juz_range = HifzGoalType::SelectedJuzRange { start_juz: 1, end_juz: 5 };
    assert_eq!(map_hifz_goal_scope(&juz_range), (1, 101));

    let surah_baqarah = HifzGoalType::SelectedSurah(2);
    assert_eq!(map_hifz_goal_scope(&surah_baqarah), (2, 49));

    let surah_range = HifzGoalType::SelectedSurahRange { start_surah: 2, end_surah: 3 };
    assert_eq!(map_hifz_goal_scope(&surah_range), (2, 76));

    let custom = HifzGoalType::CustomPageRange { start_page: 120, end_page: 180 };
    assert_eq!(map_hifz_goal_scope(&custom), (120, 180));

    let names: Vec<String> = Vec::new();
    assert_eq!(format_hifz_goal_title(&full, &names), "Full Quran");
    assert_eq!(format_hifz_goal_title(&juz15, &names), "Juz 15");
    assert_eq!(format_hifz_goal_title(&juz_range, &names), "Juz Range 1–5");
    assert_eq!(format_hifz_goal_title(&custom, &names), "Custom Page Range");
}

#[test]
fn test_hifz_daily_progress_completion_and_advancement() {
    let today = today_day_number_local();
    let goal = HifzGoalType::SelectedJuz(30);

    let (calc_days, expected_end, history) = calculate_hifz_workload(
        &goal,
        &SetupMode::ByDailyAmount,
        30,
        &HifzUnit::Page,
        7,
        14,
        today,
    );

    let plan = create_new_hifz_plan(
        "Test Hifz Plan".to_string(),
        goal,
        SetupMode::ByDailyAmount,
        582,
        604,
        HifzUnit::Page,
        7,
        14,
        calc_days,
        today,
        expected_end,
        history,
    );
    let mut plans = vec![plan];
    assert_eq!(plans.len(), 1);

    let record = get_active_hifz_record(&plans[0]);
    assert_eq!(record.sabaq_start_page, 582);

    plans[0].history[0].sabaq_status = DailyStatus::Completed;
    plans[0].history[0].sabqi_status = DailyStatus::Completed;
    plans[0].history[0].manzil_status = DailyStatus::Completed;

    let next_record = get_active_hifz_record(&plans[0]);
    assert_eq!(next_record.day_index, 2);
}

#[test]
fn test_hifz_surah_range_resolution_and_validation() {
    let surah_range_2_10 = HifzGoalType::SelectedSurahRange { start_surah: 2, end_surah: 10 };
    let (start_p, end_p) = map_hifz_goal_scope(&surah_range_2_10);
    assert_eq!(start_p, 2);
    assert_eq!(end_p, 221);
    let count = (end_p + 1).saturating_sub(start_p);
    assert_eq!(count, 220);

    let surah_114 = HifzGoalType::SelectedSurah(114);
    let (s114, e114) = map_hifz_goal_scope(&surah_114);
    assert_eq!(s114, 604);
    assert_eq!(e114, 604);

    let invalid_range = HifzGoalType::SelectedSurahRange { start_surah: 10, end_surah: 2 };
    let (s_inv, e_inv) = map_hifz_goal_scope(&invalid_range);
    assert!(s_inv <= e_inv);
}

#[test]
fn reading_days_cover_the_range_without_gaps() {
    let start = day(2026, 1, 1);
    let (days, _, _, history) =
        calculate_reading_workload(10, 77, &SetupMode::ByTargetDate, 9, 0, &ReadingUnit::Pages, start);
    assert_eq!(days, 9);
    assert_eq!(history[0].start_page, 10);
    for k in 1..history.len() {
        assert_eq!(history[k].start_page, history[k - 1].end_page + 1);
    }
    assert_eq!(history[history.len() - 1].end_page, 77);
    assert_eq!(history[0].date, "2026-01-01");
    assert_eq!(history[8].date, "2026-01-09");
}

#[test]
fn today_wird_on_a_fixed_day_picks_that_days_record() {
    let start = day(2026, 8, 16);
    let (_, _, _, history) =
        calculate_reading_workload(1, 604, &SetupMode::ByTargetDate, 30, 20, &ReadingUnit::Pages, start);
    let plans = vec![khatma_plan(history)];
    let info = today_wird_info_on(&plans, None, "2026-08-18").unwrap();
    assert_eq!(info.day_index, 3);
    assert_eq!(info.date_str, iso_of(start + 2));
}

#[test]
fn plan_ids_end_in_a_local_timestamp() {
    let id = generate_plan_id("khatma");
    let stamp = &id["khatma_".len()..];
    assert!(stamp.len() >= 15);
    let chars: Vec<char> = stamp.chars().collect();
    assert_eq!(chars[chars.len() - 7], '_');
    assert!(chars[chars.len() - 6..].iter().all(|c| c.is_ascii_digit()));
}

#[test]
fn rescheduling_without_missed_pages_changes_nothing() {
    let start = day(2026, 8, 16);
    let (_, _, _, history) = calculate_reading_workload(
        1,
        30,
        &SetupMode::ByTargetDate,
        3,
        10,
        &ReadingUnit::Pages,
        start,
    );
    let mut plan = ReadingPlanData {
        id: "p".to_string(),
        title: "P".to_string(),
        setup_mode: SetupMode::ByDailyAmount,
        unit: ReadingUnit::Juz,
        start_page: 1,
        end_page: 30,
        target_days: 3,
        daily_amount_target: 7,
        start_date: "2026-08-16".to_string(),
        expected_end_date: "2026-08-18".to_string(),
        is_active: true,
        is_archived: false,
        history,
    };
    let before = plan.clone();
    reschedule_reading_plan(&mut plan, 2, true);
    assert_eq!(plan, before);
}

#[test]
fn reading_days_cut_the_range_into_balanced_chunks() {
    let (days, _, _, h) = calculate_reading_workload(
        5,
        27,
        &SetupMode::ByTargetDate,
        4,
        0,
        &ReadingUnit::Pages,
        day(2026, 1, 1),
    );
    assert_eq!(days, 4);
    assert_eq!(h[0].start_page, 5);
    assert_eq!(h[3].end_page, 27);
    for i in 0..3 {
        assert_eq!(h[i + 1].start_page, h[i].end_page + 1);
        let a = h[i].end_page - h[i].start_page;
        let b = h[i + 1].end_page - h[i + 1].start_page;
        assert!(a == b || a == b + 1);
    }
}

#[test]
fn record_dates_pad_the_year_to_four_digits() {
    let (_, _, _, h) = calculate_reading_workload(
        1,
        2,
        &SetupMode::ByTargetDate,
        2,
        0,
        &ReadingUnit::Pages,
        day(999, 1, 5),
    );
    assert_eq!(h[0].date, "0999-01-05");
    assert_eq!(h[1].date, "0999-01-06");
}
