use chrono::{Datelike, NaiveDate};
use khushu::prayer_tracker::{
    get_prayer_status, get_previous_prayer, is_previous_prayer_completed_or_dismissed,
    prune_old_entries, set_prayer_status, DayLog, PrayerStatus,
};

fn day(y: i32, m: u32, d: u32) -> i32 {
    NaiveDate::from_ymd_opt(y, m, d).unwrap().num_days_from_ce()
}

fn empty_day(date: &str) -> DayLog {
    DayLog { date: date.to_string(), statuses: Vec::new() }
}

fn has_day(logs: &[DayLog], date: &str) -> bool {
    logs.iter().any(|d| d.date == date)
}

#[test]
fn test_previous_prayer_lookup() {
    let today = day(2026, 8, 16);
    assert_eq!(get_previous_prayer(today, "Dhuhr"), Some(("Fajr", today)));
    assert_eq!(get_previous_prayer(today, "Asr"), Some(("Dhuhr", today)));
    assert_eq!(get_previous_prayer(today, "Maghrib"), Some(("Asr", today)));
    assert_eq!(get_previous_prayer(today, "Isha"), Some(("Maghrib", today)));

    let yesterday = day(2026, 8, 15);
    assert_eq!(get_previous_prayer(today, "Fajr"), Some(("Isha", yesterday)));
}

#[test]
fn test_prune_old_entries() {
    let mut logs = vec![empty_day("2026-08-16"), empty_day("2026-08-05"), empty_day("2026-07-01")];
    let today = day(2026, 8, 16);

    prune_old_entries(&mut logs, today, 14);

    assert!(has_day(&logs, "2026-08-16"));
    assert!(has_day(&logs, "2026-08-05"));
    assert!(!has_day(&logs, "2026-07-01"));
}

#[test]
fn unparsable_days_are_pruned_and_order_is_kept() {
    let mut logs = vec![
        empty_day("2026-08-10"),
        empty_day("not a date"),
        empty_day("2026-08-02"),
        empty_day("2026-08-01"),
    ];
    prune_old_entries(&mut logs, day(2026, 8, 16), 14);
    let kept: Vec<&str> = logs.iter().map(|d| d.date.as_str()).collect();
    assert_eq!(kept, vec!["2026-08-10", "2026-08-02"]);
}

#[test]
fn status_text_round_trips() {
    for status in [PrayerStatus::Pending, PrayerStatus::Prayed, PrayerStatus::Missed, PrayerStatus::Dismissed] {
        assert_eq!(PrayerStatus::from_str(status.as_str()), status);
    }
    assert_eq!(PrayerStatus::Prayed.as_str(), "prayed");
    assert_eq!(PrayerStatus::from_str("unknown"), PrayerStatus::Pending);
    assert_eq!(PrayerStatus::default(), PrayerStatus::Pending);
}

#[test]
fn a_status_set_is_read_back() {
    let mut logs: Vec<DayLog> = Vec::new();
    let today = day(2026, 8, 16);
    assert_eq!(get_prayer_status(&logs, today, "Asr"), PrayerStatus::Pending);
    set_prayer_status(&mut logs, today, "Asr", PrayerStatus::Prayed);
    assert_eq!(get_prayer_status(&logs, today, "Asr"), PrayerStatus::Prayed);
    set_prayer_status(&mut logs, today, "Asr", PrayerStatus::Missed);
    assert_eq!(get_prayer_status(&logs, today, "Asr"), PrayerStatus::Missed);
    assert_eq!(logs.len(), 1);
    assert_eq!(logs[0].date, "2026-08-16");
    assert_eq!(logs[0].statuses.len(), 1);
}

#[test]
fn setting_a_status_prunes_days_older_than_two_weeks() {
    let mut logs = vec![empty_day("2026-07-01"), empty_day("2026-08-03")];
    set_prayer_status(&mut logs, day(2026, 8, 16), "Fajr", PrayerStatus::Dismissed);
    let kept: Vec<&str> = logs.iter().map(|d| d.date.as_str()).collect();
    assert_eq!(kept, vec!["2026-08-03", "2026-08-16"]);
}

#[test]
fn previous_prayer_check_reads_the_log() {
    let mut logs: Vec<DayLog> = Vec::new();
    let today = day(2026, 8, 16);
    assert!(!is_previous_prayer_completed_or_dismissed(&logs, today, "Asr"));
    set_prayer_status(&mut logs, today, "Dhuhr", PrayerStatus::Dismissed);
    assert!(is_previous_prayer_completed_or_dismissed(&logs, today, "Asr"));
    assert!(!is_previous_prayer_completed_or_dismissed(&logs, today, "Fajr"));
    set_prayer_status(&mut logs, today - 1, "Isha", PrayerStatus::Prayed);
    assert!(is_previous_prayer_completed_or_dismissed(&logs, today, "Fajr"));
    assert!(is_previous_prayer_completed_or_dismissed(&logs, today, "Sunrise"));
}
