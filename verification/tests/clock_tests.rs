use chrono::{Datelike, TimeZone, Timelike};
use khushu::config::TimeFormat;
use khushu::location::{localized_time, localized_time_only, system_time_zone_from, LocalDateTime};

fn wall_clock<Tz: TimeZone>(datetime: &chrono::DateTime<Tz>) -> LocalDateTime {
    LocalDateTime {
        year: datetime.year(),
        month: datetime.month() as u8,
        day: datetime.day() as u8,
        hour: datetime.hour() as u8,
        minute: datetime.minute() as u8,
        second: datetime.second() as u8,
        weekday_from_monday: datetime.weekday().num_days_from_monday() as u8,
    }
}

#[test]
fn localizes_time_with_weekday_without_seconds() {
    let timezone: chrono_tz::Tz = "Europe/Oslo".parse().unwrap();
    let naive = chrono::NaiveDate::from_ymd_opt(2026, 1, 30).unwrap().and_hms_opt(15, 47, 42).unwrap();
    let datetime: chrono::DateTime<chrono_tz::Tz> = timezone.from_local_datetime(&naive).unwrap();

    let en = localized_time(wall_clock(&datetime), "en", "C");
    assert!(en.contains("Fri"), "weekday should be localized: {en}");
    assert!(en.contains("3:47"), "hour:minute should be shown: {en}");
    assert!(!en.contains("42"), "seconds must not be rendered: {en}");

    let ar = localized_time(wall_clock(&datetime), "ar", "C");
    assert!(!ar.trim().is_empty());
    assert!(!ar.contains("Fri"), "weekday must be localized, got: {ar}");
}

#[test]
fn impossible_dates_fall_back_to_plain_form() {
    let t = LocalDateTime { year: 2026, month: 13, day: 30, hour: 15, minute: 7, second: 0, weekday_from_monday: 4 };
    assert_eq!(localized_time(t, "en", "C"), "Fri 15:07");
    let bad_hour = LocalDateTime { hour: 25, ..t };
    assert_eq!(localized_time_only(bad_hour, "en", "C", TimeFormat::Hours24), "25:07");
    let late = LocalDateTime { hour: 30, ..t };
    assert_eq!(localized_time_only(late, "en", "C", TimeFormat::Hours12), "18:07 PM");
}

#[test]
fn clock_times_follow_the_hour_cycle() {
    let t = LocalDateTime { year: 2026, month: 1, day: 30, hour: 15, minute: 47, second: 42, weekday_from_monday: 4 };
    let h24 = localized_time_only(t, "en", "C", TimeFormat::Hours24);
    assert!(h24.contains("15:47"), "{h24}");
    let h12 = localized_time_only(t, "en", "C", TimeFormat::Hours12);
    assert!(h12.contains("3:47"), "{h12}");
    assert!(!h12.contains("15:47"), "{h12}");
}

#[test]
fn system_time_zone_prefers_env_then_file_then_link() {
    assert_eq!(
        system_time_zone_from(Some("Europe/Oslo"), Some("Asia/Tokyo"), None).as_deref(),
        Some("Europe/Oslo")
    );
    assert_eq!(
        system_time_zone_from(Some("Not/AZone"), Some("Asia/Tokyo\n"), None).as_deref(),
        Some("Asia/Tokyo")
    );
    assert_eq!(
        system_time_zone_from(None, None, Some("/usr/share/zoneinfo/Africa/Algiers")).as_deref(),
        Some("Africa/Algiers")
    );
    assert_eq!(system_time_zone_from(None, Some(""), Some("/etc/UTC")), None);
    assert_eq!(system_time_zone_from(None, None, None), None);
}
